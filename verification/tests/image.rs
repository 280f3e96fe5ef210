use eclipse_redirect::hooks::{find_exit_functions, locate_process_request, LocateError};
use eclipse_redirect::patchfinder::{
    find_pattern_in_text, find_string_ref_ascii, find_string_ref_wide, parse_pattern,
};
use eclipse_redirect::pe::{is_readable, ImageInfo, ImageMemory, MemoryBasicInformation, MemoryWindow};
use eclipse_redirect::unreal::{FCurlHttpRequest, FMemory, REALLOC_SIGNATURE};

const BASE: u64 = 0x1_4000_0000;
const SIZE: usize = 0x2000;

fn put(img: &mut [u8], at: usize, bytes: &[u8]) {
    img[at..at + bytes.len()].copy_from_slice(bytes);
}

fn put_sig(img: &mut [u8], at: usize, sig: &str) {
    let bytes: Vec<u8> = sig
        .split_whitespace()
        .map(|t| u8::from_str_radix(t, 16).unwrap_or(0))
        .collect();
    put(img, at, &bytes);
}

/// Headers with `.text` at 0x400 (0x800 bytes) and `.rdata` at 0xC00 (0x600 bytes).
fn image() -> Vec<u8> {
    let mut img = vec![0u8; SIZE];
    put(&mut img, 0, b"MZ");
    put(&mut img, 60, &0x80u32.to_le_bytes());
    put(&mut img, 0x80, b"PE\0\0");
    put(&mut img, 0x84, &0x8664u16.to_le_bytes());
    put(&mut img, 0x86, &2u16.to_le_bytes());
    put(&mut img, 0x94, &0x10u16.to_le_bytes());
    let t = 0xA8;
    put(&mut img, t, b".text\0\0\0");
    put(&mut img, t + 8, &0x800u32.to_le_bytes());
    put(&mut img, t + 12, &0x400u32.to_le_bytes());
    put(&mut img, t + 36, &0x6000_0020u32.to_le_bytes());
    let r = t + 40;
    put(&mut img, r, b".rdata\0\0");
    put(&mut img, r + 8, &0x600u32.to_le_bytes());
    put(&mut img, r + 12, &0xC00u32.to_le_bytes());
    img
}

fn regions() -> Vec<MemoryBasicInformation> {
    vec![MemoryBasicInformation { base_address: BASE, region_size: SIZE as u64, state: 0x1000, protect: 0x20 }]
}

fn wide_z(s: &str) -> Vec<u16> {
    let mut v: Vec<u16> = s.encode_utf16().collect();
    v.push(0);
    v
}

fn wide_bytes(s: &[u16]) -> Vec<u8> {
    s.iter().flat_map(|u| u.to_le_bytes()).collect()
}

/// A `ProcessRequest` at 0x600 referencing the stat name at rdata 0xC40,
/// held in the vtable slot at 0xD00.
fn hookable_image() -> Vec<u8> {
    let mut img = image();
    put(&mut img, 0x600, &[0x48, 0x89, 0x5C, 0x24, 0x08]);
    for k in 0x605..0x610 {
        img[k] = 0x90;
    }
    let disp: i32 = 0xC40 - 0x617;
    put(&mut img, 0x610, &[0x48, 0x8D, 0x15]);
    put(&mut img, 0x613, &disp.to_le_bytes());
    put(&mut img, 0xC40, &wide_bytes(&wide_z("STAT_FCurlHttpRequest_ProcessRequest")));
    put(&mut img, 0xD00, &(BASE + 0x600).to_le_bytes());
    img
}

#[test]
fn sections_are_found_by_name() {
    let img = image();
    let regs = regions();
    let mem = ImageMemory { window: MemoryWindow { address: BASE, bytes: &img }, regions: &regs };
    let info = ImageInfo::with_base(BASE);
    assert_eq!(info.base, BASE);
    let text = info.get_section(&mem.window, ".text").unwrap();
    assert_eq!(text.virtual_address, 0x400);
    assert_eq!(text.virtual_size, 0x800);
    assert_eq!(&text.name, b".text\0\0\0");
    assert_eq!(text.characteristics, 0x6000_0020);
    assert_eq!(info.text_section(&mem), Some((BASE + 0x400, 0x800)));
    assert_eq!(info.rdata_section(&mem), Some((BASE + 0xC00, 0x600)));
    assert!(info.get_section(&mem.window, ".data").is_none());
    assert!(info.get_section(&mem.window, ".textlonger").is_none());
    // a prefix of the name matches
    assert_eq!(info.get_section(&mem.window, ".rd").unwrap().virtual_address, 0xC00);
}

#[test]
fn section_size_is_cut_to_committed_bytes() {
    let img = image();
    let regs = vec![
        MemoryBasicInformation { base_address: BASE, region_size: 0x500, state: 0x1000, protect: 0x20 },
        MemoryBasicInformation { base_address: BASE + 0x500, region_size: 0x1B00, state: 0x2000, protect: 0 },
    ];
    let mem = ImageMemory { window: MemoryWindow { address: BASE, bytes: &img }, regions: &regs };
    let info = ImageInfo::with_base(BASE);
    assert_eq!(info.text_section(&mem), Some((BASE + 0x400, 0x100)));
    // uncommitted: the header size stands
    assert_eq!(info.rdata_section(&mem), Some((BASE + 0xC00, 0x600)));
}

#[test]
fn missing_headers_give_no_section() {
    let img = image();
    let regs = regions();
    let short = MemoryWindow { address: BASE, bytes: &img[..0x90] };
    let info = ImageInfo::with_base(BASE);
    assert!(info.get_section(&short, ".text").is_none());
    let mem = ImageMemory { window: MemoryWindow { address: BASE, bytes: &[] }, regions: &regs };
    assert!(info.text_section(&mem).is_none());
}

#[test]
fn readability_follows_the_regions() {
    let regs = vec![
        MemoryBasicInformation { base_address: 0x1000, region_size: 0x1000, state: 0x1000, protect: 0x04 },
        MemoryBasicInformation { base_address: 0x2000, region_size: 0x1000, state: 0x1000, protect: 0x104 },
        MemoryBasicInformation { base_address: 0x3000, region_size: 0x1000, state: 0x1000, protect: 0x01 },
        MemoryBasicInformation { base_address: 0x4000, region_size: 0x1000, state: 0x2000, protect: 0x04 },
    ];
    assert!(is_readable(&regs, 0x1000, 0x1000));
    assert!(!is_readable(&regs, 0x1800, 0x801));
    assert!(!is_readable(&regs, 0x2000, 8));
    assert!(!is_readable(&regs, 0x3000, 8));
    assert!(!is_readable(&regs, 0x4000, 8));
    assert!(!is_readable(&regs, 0x9000, 8));
    assert!(!is_readable(&regs, 0, 8));
    assert!(!is_readable(&regs, 0x1000, 0));
}

#[test]
fn realloc_is_found_in_text() {
    let mut img = image();
    put_sig(&mut img, 0x520, REALLOC_SIGNATURE);
    let regs = regions();
    let mem = ImageMemory { window: MemoryWindow { address: BASE, bytes: &img }, regions: &regs };
    let info = ImageInfo::with_base(BASE);
    assert_eq!(FMemory::find_realloc(&info, &mem), BASE + 0x520);
    let plain = image();
    let mem2 = ImageMemory { window: MemoryWindow { address: BASE, bytes: &plain }, regions: &regs };
    assert_eq!(FMemory::find_realloc(&info, &mem2), 0);
}

#[test]
fn pattern_outside_text_is_not_found() {
    let mut img = image();
    put_sig(&mut img, 0xC20, REALLOC_SIGNATURE);
    let regs = regions();
    let mem = ImageMemory { window: MemoryWindow { address: BASE, bytes: &img }, regions: &regs };
    let info = ImageInfo::with_base(BASE);
    assert_eq!(find_pattern_in_text(&info, &mem, &parse_pattern(REALLOC_SIGNATURE)), 0);
}

#[test]
fn string_references_wide_and_ascii() {
    let img = hookable_image();
    let regs = regions();
    let mem = ImageMemory { window: MemoryWindow { address: BASE, bytes: &img }, regions: &regs };
    let info = ImageInfo::with_base(BASE);
    let stat = wide_z("STAT_FCurlHttpRequest_ProcessRequest");
    assert_eq!(find_string_ref_wide(&info, &mem, &stat), BASE + 0x610);
    // the bytes of the wide string are what the ascii search compares
    assert_eq!(find_string_ref_ascii(&info, &mem, &wide_bytes(&stat)), BASE + 0x610);
    assert_eq!(find_string_ref_ascii(&info, &mem, b"STAT_FCurlHttpRequest_ProcessRequest\0"), 0);
    assert_eq!(find_string_ref_wide(&info, &mem, &wide_z("other")), 0);
    assert_eq!(find_string_ref_ascii(&info, &mem, b""), 0);
}

#[test]
fn string_reference_needs_a_rex_prefix() {
    let mut img = hookable_image();
    img[0x610] = 0x90;
    let regs = regions();
    let mem = ImageMemory { window: MemoryWindow { address: BASE, bytes: &img }, regions: &regs };
    let info = ImageInfo::with_base(BASE);
    assert_eq!(find_string_ref_wide(&info, &mem, &wide_z("STAT_FCurlHttpRequest_ProcessRequest")), 0);
    img[0x610] = 0x4C;
    let mem = ImageMemory { window: MemoryWindow { address: BASE, bytes: &img }, regions: &regs };
    assert_eq!(
        find_string_ref_wide(&info, &mem, &wide_z("STAT_FCurlHttpRequest_ProcessRequest")),
        BASE + 0x610
    );
}

#[test]
fn process_request_is_located() {
    let img = hookable_image();
    let regs = regions();
    let mem = ImageMemory { window: MemoryWindow { address: BASE, bytes: &img }, regions: &regs };
    let info = ImageInfo::with_base(BASE);
    let r = locate_process_request(&info, &mem, false);
    assert!(matches!(r, Ok((e, p)) if e == BASE + 0xD00 && p == BASE + 0x600));
    let r = locate_process_request(&info, &mem, true);
    assert!(matches!(r, Ok((e, p)) if e == BASE + 0xD00 && p == BASE + 0x600));
}

#[test]
fn process_request_found_through_narrow_string() {
    let mut img = hookable_image();
    for k in 0xC40..0xCA0 {
        img[k] = 0;
    }
    put(&mut img, 0xC40, b"STAT_FCurlHttpRequest_ProcessRequest\0");
    let regs = regions();
    let mem = ImageMemory { window: MemoryWindow { address: BASE, bytes: &img }, regions: &regs };
    let info = ImageInfo::with_base(BASE);
    let r = locate_process_request(&info, &mem, false);
    assert!(matches!(r, Ok((e, p)) if e == BASE + 0xD00 && p == BASE + 0x600));
}

#[test]
fn process_request_errors() {
    let regs = regions();
    let info = ImageInfo::with_base(BASE);

    let mem = ImageMemory { window: MemoryWindow { address: BASE, bytes: &[] }, regions: &regs };
    assert!(matches!(locate_process_request(&info, &mem, false), Err(LocateError::NoTextSection)));

    let mut img = hookable_image();
    put(&mut img, 0xA8 + 40, b".data\0\0\0");
    let mem = ImageMemory { window: MemoryWindow { address: BASE, bytes: &img }, regions: &regs };
    assert!(matches!(locate_process_request(&info, &mem, false), Err(LocateError::NoRdataSection)));

    let img = image();
    let mem = ImageMemory { window: MemoryWindow { address: BASE, bytes: &img }, regions: &regs };
    assert!(matches!(locate_process_request(&info, &mem, false), Err(LocateError::NoStringRef)));

    let mut img = hookable_image();
    put(&mut img, 0x600, &[0x90, 0x90, 0x90]);
    let mem = ImageMemory { window: MemoryWindow { address: BASE, bytes: &img }, regions: &regs };
    assert!(matches!(locate_process_request(&info, &mem, false), Err(LocateError::NoPrologue)));

    let mut img = hookable_image();
    put(&mut img, 0xD00, &[0u8; 8]);
    let mem = ImageMemory { window: MemoryWindow { address: BASE, bytes: &img }, regions: &regs };
    assert!(matches!(locate_process_request(&info, &mem, false), Err(LocateError::NoVtableEntry)));
}

const PUSH_WIDGET_2: &str = "48 8B C4 4C 89 40 18 48 89 50 10 48 89 48 08 55 53 56 57 41 54 41 55 41 56 41 57 48 8D 68 B8 48 81 EC ? ? ? ? 65 48 8B 04 25";
const EXIT_2: &str = "48 8B C4 48 89 58 18 88 50 10 88 48 08 57 48 83 EC 30";
const ENV_7: &str = "4C 8B DC 55 49 8D AB ? ? ? ? 48 81 EC ? ? ? ? 48 8B 05 ? ? ? ? 48 33 C4 48 89 85 ? ? ? ?";

#[test]
fn exit_functions_found_once_push_widget_is() {
    let regs = regions();
    let info = ImageInfo::with_base(BASE);
    let mut img = image();
    put_sig(&mut img, 0x420, PUSH_WIDGET_2);
    put_sig(&mut img, 0x480, EXIT_2);
    put_sig(&mut img, 0x4C0, ENV_7);
    let mem = ImageMemory { window: MemoryWindow { address: BASE, bytes: &img }, regions: &regs };
    let t = find_exit_functions(&info, &mem).unwrap();
    assert_eq!(t.push_widget, BASE + 0x420);
    assert_eq!(t.exit, BASE + 0x480);
    assert_eq!(t.env, BASE + 0x4C0);

    let mut img = image();
    put_sig(&mut img, 0x480, EXIT_2);
    let mem = ImageMemory { window: MemoryWindow { address: BASE, bytes: &img }, regions: &regs };
    let t = find_exit_functions(&info, &mem).unwrap();
    assert_eq!((t.push_widget, t.exit, t.env), (0, 0, 0));

    let mem = ImageMemory { window: MemoryWindow { address: BASE, bytes: &[] }, regions: &regs };
    assert!(find_exit_functions(&info, &mem).is_none());
}

/// A request vtable at 0x1000 whose slot 0 loads the URL at `this + 0x1234`
/// and whose slot `setter` adds that offset.
fn request_image(setter: usize, short_form: bool) -> Vec<u8> {
    let mut img = image();
    let vt = 0x1000;
    put(&mut img, vt, &(BASE + 0x700).to_le_bytes());
    if short_form {
        put(&mut img, 0x705, &[0x48, 0x8D, 0x51, 0x20]);
    } else {
        put(&mut img, 0x705, &[0x48, 0x8D, 0x91, 0x34, 0x12, 0, 0]);
    }
    put(&mut img, vt + 8, &(BASE + 0x780).to_le_bytes());
    put(&mut img, vt + 8 * setter, &(BASE + 0x800).to_le_bytes());
    if short_form {
        put(&mut img, 0x810, &[0x48, 0x83, 0xC1, 0x20]);
    } else {
        put(&mut img, 0x810, &[0x48, 0x81, 0xC1, 0x34, 0x12, 0, 0]);
    }
    img
}

#[test]
fn url_index_is_detected() {
    let regs = regions();
    let req = FCurlHttpRequest { vtable: BASE + 0x1000 };
    let img = request_image(5, false);
    let mem = ImageMemory { window: MemoryWindow { address: BASE, bytes: &img }, regions: &regs };
    assert_eq!(req.initialize_url_index(&mem), 5);
    let img = request_image(12, true);
    let mem = ImageMemory { window: MemoryWindow { address: BASE, bytes: &img }, regions: &regs };
    assert_eq!(req.initialize_url_index(&mem), 12);
}

#[test]
fn url_index_falls_back_to_default() {
    let regs = regions();
    let img = request_image(5, false);
    let mem = ImageMemory { window: MemoryWindow { address: BASE, bytes: &img }, regions: &regs };
    assert_eq!(FCurlHttpRequest { vtable: 0 }.initialize_url_index(&mem), 10);
    // getter not in a readable region
    let none: Vec<MemoryBasicInformation> = vec![];
    let mem2 = ImageMemory { window: MemoryWindow { address: BASE, bytes: &img }, regions: &none };
    assert_eq!(FCurlHttpRequest { vtable: BASE + 0x1000 }.initialize_url_index(&mem2), 10);
    // no getter pattern
    let plain = image();
    let mem3 = ImageMemory { window: MemoryWindow { address: BASE, bytes: &plain }, regions: &regs };
    assert_eq!(FCurlHttpRequest { vtable: BASE + 0x1000 }.initialize_url_index(&mem3), 10);
    // setter beyond slot 0x1F is not looked at
    let far = request_image(0x20, false);
    let mem4 = ImageMemory { window: MemoryWindow { address: BASE, bytes: &far }, regions: &regs };
    assert_eq!(FCurlHttpRequest { vtable: BASE + 0x1000 }.initialize_url_index(&mem4), 10);
}

#[test]
fn set_url_function_slot() {
    let img = request_image(5, false);
    let w = MemoryWindow { address: BASE, bytes: &img };
    let req = FCurlHttpRequest { vtable: BASE + 0x1000 };
    assert_eq!(req.set_url_function(&w, false, 5), BASE + 0x800);
    assert_eq!(req.set_url_function(&w, false, 1), BASE + 0x780);
    assert_eq!(req.set_url_function(&w, false, 0), 0);
    assert_eq!(req.set_url_function(&w, false, -3), 0);
    // EOS uses slot 10, empty here
    assert_eq!(req.set_url_function(&w, true, 5), 0);
    assert_eq!(FCurlHttpRequest { vtable: 0 }.set_url_function(&w, false, 5), 0);
}

#[test]
fn known_vtable_slot_is_used_when_its_target_checks_out() {
    let rva = eclipse_redirect::opts::PROCESS_REQUEST_VTABLE_RVA as usize;
    let size = rva + 0x10;
    let mut img = vec![0u8; size];
    let head = hookable_image();
    img[..head.len()].copy_from_slice(&head);
    let prologue = [
        0x48u8, 0x89, 0x5C, 0x24, 0x20, 0x55, 0x56, 0x57, 0x41, 0x54, 0x41, 0x55, 0x41, 0x56, 0x41,
        0x57, 0x48, 0x8B, 0xEC, 0x48, 0x83, 0xEC, 0x40,
    ];
    put(&mut img, 0x500, &prologue);
    put(&mut img, rva, &(BASE + 0x500).to_le_bytes());
    let regs = vec![MemoryBasicInformation { base_address: BASE, region_size: size as u64, state: 0x1000, protect: 0x02 }];
    let mem = ImageMemory { window: MemoryWindow { address: BASE, bytes: &img }, regions: &regs };
    let info = ImageInfo::with_base(BASE);
    let r = locate_process_request(&info, &mem, false);
    assert!(matches!(r, Ok((e, p)) if e == BASE + rva as u64 && p == BASE + 0x500));
    // the EOS SDK never uses the known slot
    let r = locate_process_request(&info, &mem, true);
    assert!(matches!(r, Ok((e, p)) if e == BASE + 0xD00 && p == BASE + 0x600));
    // a different prologue: the slot is not trusted, the scan decides
    img[0x500 + 22] = 0x50;
    let mem = ImageMemory { window: MemoryWindow { address: BASE, bytes: &img }, regions: &regs };
    let r = locate_process_request(&info, &mem, false);
    assert!(matches!(r, Ok((e, p)) if e == BASE + 0xD00 && p == BASE + 0x600));
}
