use vstd::prelude::*;
use vstd::string::StringSliceAdditionalSpecFns;

use crate::opts;
use crate::patchfinder::{
    check_bytes_at, find_function_prologue, find_pattern_in_text, find_string_ref_ascii,
    find_string_ref_wide, find_vtable_entry, parse_pattern, pattern_tokens,
    spec_find_function_prologue, spec_find_vtable_entry, spec_pattern_in_text,
    spec_string_ref_in_image, wide_bytes,
};
use crate::pe::{
    is_readable, le_u64, spec_is_readable, spec_section_range, wrap64, ImageInfo, ImageMemory,
    MemoryWindow,
};
use crate::redirection::{should_redirect, spec_should_redirect};
use crate::unreal::{encode_utf16_z, text_of, utf16_of, FString};
use crate::url::{
    authority_model, has_port, joined_text, law_rewrite_keeps_path_and_query, origin_text,
    parse_model, rest_text, set_host_model, terminated, ParsedUrl,
};

verus! {

/// What becomes of one HTTP request.
pub enum RequestAction {
    /// The request has no URL (null, or nothing before the terminator).
    EmptyUrl,
    /// The URL is not one that the mode redirects; it is left as it is.
    Unchanged,
    /// The URL is replaced by this one.
    Rewrite(FString),
    /// The rebuilt URL came out empty; the request is left as it is.
    RebuildFailed,
}

/// The URL text that rewriting `url` to `backend` gives.
pub open spec fn rewritten_text(url: Option<Seq<u16>>, backend: Option<Seq<u16>>) -> Seq<u16> {
    joined_text(set_host_model(parse_model(url), backend))
}

/// Decides what to do with a request whose URL is `url`: empty URLs are
/// reported, URLs that the configured mode redirects get the backend's
/// scheme, host and port, and keep their path and query.
pub fn redirect_request(url: &FString, backend: &FString) -> (r: RequestAction)
    requires
        url.wf(),
        backend.wf(),
    ensures
        (url.string is None || url.length <= 1) <==> r is EmptyUrl,
        !(r is EmptyUrl) ==> (r is Unchanged <==> !spec_should_redirect(
            opts::URL_SET,
            parse_model(url@),
        )),
        ({
            let t = rewritten_text(url@, backend@);
            let n = (t.len() + 1) % 0x1_0000_0000;
            &&& r is RebuildFailed ==> n <= 1
            &&& r matches RequestAction::Rewrite(f) ==> (f.wf() && n > 1 && f.length == n
                && f.max_size == n && (f.string matches Some(v) && v@ == t.push(0u16)))
            &&& (!(r is EmptyUrl) && !(r is Unchanged)) ==> (r is RebuildFailed <==> n <= 1)
        }),
{
    if url.is_empty() {
        return RequestAction::EmptyUrl;
    }
    let mut parsed = ParsedUrl::parse(url);
    if !should_redirect(&parsed) {
        return RequestAction::Unchanged;
    }
    parsed.set_host(backend);
    let new_url = parsed.get_url();
    if new_url.is_empty() {
        RequestAction::RebuildFailed
    } else {
        RequestAction::Rewrite(new_url)
    }
}

/// A redirected request keeps its path and query: its new URL is the
/// backend's scheme, host and port (the request's own port when the backend
/// names none) followed by the request's path and query.
pub proof fn law_redirect_keeps_path_and_query(u: Seq<u16>, b: Seq<u16>)
    requires
        terminated(Some(u)),
        terminated(Some(b)),
    ensures
        rewritten_text(Some(u), Some(b)) == origin_text(b) + (if has_port(authority_model(b)) {
            Seq::<u16>::empty()
        } else {
            text_of(parse_model(Some(u)).port)
        }) + rest_text(u),
{
    law_rewrite_keeps_path_and_query(u, b);
}

/// The first 23 bytes of `ProcessRequest` in the known build.
pub open spec fn known_prologue() -> Seq<u8> {
    seq![
        0x48u8, 0x89, 0x5C, 0x24, 0x20, 0x55, 0x56, 0x57, 0x41, 0x54, 0x41, 0x55, 0x41, 0x56, 0x41,
        0x57, 0x48, 0x8B, 0xEC, 0x48, 0x83, 0xEC, 0x40,
    ]
}

fn known_prologue_bytes() -> (r: Vec<u8>)
    ensures
        r@ == known_prologue(),
{
    let r = vec![
        0x48u8, 0x89, 0x5C, 0x24, 0x20, 0x55, 0x56, 0x57, 0x41, 0x54, 0x41, 0x55, 0x41, 0x56, 0x41,
        0x57, 0x48, 0x8B, 0xEC, 0x48, 0x83, 0xEC, 0x40,
    ];
    assert(r@ =~= known_prologue());
    r
}

/// The pointer at `a` in the window, or 0 when it does not hold it.
pub open spec fn pointer_at(mem: MemoryWindow, a: int) -> int {
    if mem.covers(a, 8) {
        le_u64(mem.slice_at(a, 8))
    } else {
        0
    }
}

fn read_pointer(mem: &MemoryWindow, a: u64) -> (r: u64)
    requires
        mem.wf(),
    ensures
        r == pointer_at(*mem, a as int),
{
    match mem.read_u64(a) {
        Some(v) => v,
        None => 0,
    }
}

/// The `ProcessRequest` vtable slot of the known build, when it is readable
/// and points into `.text` at the known prologue; else 0.
pub open spec fn spec_known_vtable_entry(mem: ImageMemory, base: int, ts: int, tsize: int) -> int {
    let slot = wrap64(base + opts::PROCESS_REQUEST_VTABLE_RVA);
    let target = pointer_at(mem.window, slot);
    if opts::PROCESS_REQUEST_VTABLE_RVA == 0 {
        0
    } else if !spec_is_readable(mem.regions@, slot, 8) {
        0
    } else if target < ts || target >= ts + tsize {
        0
    } else if !spec_is_readable(mem.regions@, target, 23) {
        0
    } else if !mem.window.holds(target, known_prologue()) {
        0
    } else {
        slot
    }
}

fn known_vtable_entry(image: &ImageInfo, mem: &ImageMemory, text_start: u64, text_size: u32) -> (r:
    u64)
    requires
        mem.wf(),
    ensures
        r == spec_known_vtable_entry(*mem, image.base as int, text_start as int, text_size as int),
{
    if opts::PROCESS_REQUEST_VTABLE_RVA == 0 {
        return 0;
    }
    let slot = image.base.wrapping_add(opts::PROCESS_REQUEST_VTABLE_RVA);
    if !is_readable(mem.regions, slot, 8) {
        return 0;
    }
    let target = read_pointer(&mem.window, slot);
    if target < text_start || target as u128 >= text_start as u128 + text_size as u128 {
        return 0;
    }
    let prologue = known_prologue_bytes();
    if !is_readable(mem.regions, target, prologue.len()) {
        return 0;
    }
    if !check_bytes_at(&mem.window, target, 0, prologue.as_slice(), false) {
        return 0;
    }
    slot
}

/// Name of the stat that `ProcessRequest` references.
pub const STAT_NAME: &'static str = "STAT_FCurlHttpRequest_ProcessRequest";

/// A log line that `ProcessRequest` references in other builds.
pub const QUEUE_MESSAGE: &'static str =
    "%p: request (easy handle:%p) has been added to threaded queue for processing";

/// The bytes of a text with a terminating 0.
fn bytes_z(s: &str) -> (r: Vec<u8>)
    ensures
        r@ == s.spec_bytes().push(0u8),
{
    let b = s.as_bytes();
    let mut r: Vec<u8> = Vec::new();
    let mut i: usize = 0;
    while i < b.len()
        invariant
            i <= b@.len(),
            b@ == s.spec_bytes(),
            r@ =~= b@.take(i as int),
        decreases b@.len() - i,
    {
        r.push(b[i]);
        i = i + 1;
        assert(r@ =~= b@.take(i as int));
    }
    assert(b@.take(b@.len() as int) =~= b@);
    r.push(0u8);
    r
}

/// The backend URL as an engine string; `None` when it comes out empty.
pub fn set_backend_url(url: &str) -> (r: Option<FString>)
    ensures
        ({
            let n = (utf16_of(url@).len() + 1) % 0x1_0000_0000;
            &&& r is None <==> n <= 1
            &&& r matches Some(f) ==> (f.wf() && f.length == n && f.max_size == n && (f.string matches Some(
                v,
            ) && v@ == utf16_of(url@).push(0u16)))
        }),
{
    let f = FString::to_wide(url);
    if f.is_empty() {
        None
    } else {
        Some(f)
    }
}

/// The instruction that references `ProcessRequest`'s stat name: looked
/// for as a UTF-16 string, then the queue message as UTF-16, then the stat
/// name as bytes; 0 when none is found.
pub open spec fn spec_process_request_string_ref(mem: ImageMemory, base: int) -> int {
    let a = spec_string_ref_in_image(mem, base, wide_bytes(utf16_of(STAT_NAME@).push(0u16)));
    let b = spec_string_ref_in_image(mem, base, wide_bytes(utf16_of(QUEUE_MESSAGE@).push(0u16)));
    if a != 0 {
        a
    } else if b != 0 {
        b
    } else {
        spec_string_ref_in_image(mem, base, STAT_NAME.spec_bytes().push(0u8))
    }
}

/// Why a module could not be hooked.
pub enum LocateError {
    NoTextSection,
    NoRdataSection,
    NoStringRef,
    NoPrologue,
    NoVtableEntry,
}

/// The vtable slot that holds `ProcessRequest`, and `ProcessRequest` itself,
/// as `locate_process_request` finds them.
pub open spec fn spec_locate_process_request(mem: ImageMemory, base: int, is_eos: bool) -> Result<
    (int, int),
    LocateError,
> {
    match (
        spec_section_range(mem.window, mem.regions@, base, ".text".spec_bytes()),
        spec_section_range(mem.window, mem.regions@, base, ".rdata".spec_bytes()),
    ) {
        (None, _) => Err(LocateError::NoTextSection),
        (Some(_), None) => Err(LocateError::NoRdataSection),
        (Some((ts, tsize)), Some((rs, rsize))) => {
            let known = if is_eos {
                0
            } else {
                spec_known_vtable_entry(mem, base, ts, tsize)
            };
            if known != 0 {
                Ok((known, pointer_at(mem.window, known)))
            } else {
                let str_ref = spec_process_request_string_ref(mem, base);
                let proc_req = spec_find_function_prologue(mem.window, str_ref, is_eos);
                let entry = if mem.window.covers(rs, rsize) {
                    spec_find_vtable_entry(rs, mem.window.slice_at(rs, rsize), proc_req)
                } else {
                    0
                };
                if str_ref == 0 {
                    Err(LocateError::NoStringRef)
                } else if proc_req == 0 {
                    Err(LocateError::NoPrologue)
                } else if entry == 0 {
                    Err(LocateError::NoVtableEntry)
                } else {
                    Ok((entry, proc_req))
                }
            }
        },
    }
}

/// Finds the vtable slot of `FCurlHttpRequest::ProcessRequest` in the image
/// and the function it holds: for the main module the known slot when its
/// target checks out; else through the string it references, the start of
/// the function around that reference, and the slot that points there.
pub fn locate_process_request(image: &ImageInfo, mem: &ImageMemory, is_eos: bool) -> (r: Result<
    (u64, u64),
    LocateError,
>)
    requires
        mem.wf(),
    ensures
        match (r, spec_locate_process_request(*mem, image.base as int, is_eos)) {
            (Ok((a, b)), Ok((x, y))) => a == x && b == y,
            (Err(e), Err(f)) => e == f,
            _ => false,
        },
{
    let (text_start, text_size) = match image.text_section(mem) {
        Some(s) => s,
        None => {
            return Err(LocateError::NoTextSection);
        },
    };
    let (rdata_start, rdata_size) = match image.rdata_section(mem) {
        Some(s) => s,
        None => {
            return Err(LocateError::NoRdataSection);
        },
    };
    if !is_eos {
        let entry = known_vtable_entry(image, mem, text_start, text_size);
        if entry != 0 {
            return Ok((entry, read_pointer(&mem.window, entry)));
        }
    }
    let stat = encode_utf16_z(STAT_NAME);
    let mut str_ref = find_string_ref_wide(image, mem, stat.as_slice());
    if str_ref == 0 {
        let queue = encode_utf16_z(QUEUE_MESSAGE);
        str_ref = find_string_ref_wide(image, mem, queue.as_slice());
        if str_ref == 0 {
            let narrow = bytes_z(STAT_NAME);
            str_ref = find_string_ref_ascii(image, mem, narrow.as_slice());
        }
    }
    if str_ref == 0 {
        return Err(LocateError::NoStringRef);
    }
    let proc_req = find_function_prologue(&mem.window, str_ref, is_eos);
    if proc_req == 0 {
        return Err(LocateError::NoPrologue);
    }
    let entry = match mem.window.window(rdata_start, rdata_size as u64) {
        Some(rdata) => find_vtable_entry(&rdata, proc_req),
        None => 0,
    };
    if entry == 0 {
        return Err(LocateError::NoVtableEntry);
    }
    Ok((entry, proc_req))
}

/// Where the known slot does not serve, the instruction that `ProcessRequest`
/// is found by is the first reference found to: the UTF-16 stat name
/// `STAT_FCurlHttpRequest_ProcessRequest`, else the UTF-16 log line
/// `%p: request (easy handle:%p) has been added to threaded queue for
/// processing`, else the stat name as bytes (each with its terminator).
/// From it come the function's start and the `.rdata` slot that points there,
/// and the first of the three steps that finds nothing names the error.
pub proof fn law_process_request_found_through_string_refs(mem: ImageMemory, base: int, is_eos: bool)
    requires
        spec_section_range(mem.window, mem.regions@, base, ".text".spec_bytes()) is Some,
        spec_section_range(mem.window, mem.regions@, base, ".rdata".spec_bytes()) is Some,
        is_eos || match spec_section_range(mem.window, mem.regions@, base, ".text".spec_bytes()) {
            Some((ts, tsize)) => spec_known_vtable_entry(mem, base, ts, tsize) == 0,
            None => true,
        },
    ensures
        ({
            let (rs, rsize) = spec_section_range(
                mem.window,
                mem.regions@,
                base,
                ".rdata".spec_bytes(),
            )->0;
            let stat_wide = spec_string_ref_in_image(
                mem,
                base,
                wide_bytes(utf16_of("STAT_FCurlHttpRequest_ProcessRequest"@).push(0u16)),
            );
            let queue_wide = spec_string_ref_in_image(
                mem,
                base,
                wide_bytes(
                    utf16_of(
                        "%p: request (easy handle:%p) has been added to threaded queue for processing"@,
                    ).push(0u16),
                ),
            );
            let stat_bytes = spec_string_ref_in_image(
                mem,
                base,
                "STAT_FCurlHttpRequest_ProcessRequest".spec_bytes().push(0u8),
            );
            let str_ref = if stat_wide != 0 {
                stat_wide
            } else if queue_wide != 0 {
                queue_wide
            } else {
                stat_bytes
            };
            let start = spec_find_function_prologue(mem.window, str_ref, is_eos);
            let slot = if mem.window.covers(rs, rsize) {
                spec_find_vtable_entry(rs, mem.window.slice_at(rs, rsize), start)
            } else {
                0
            };
            spec_locate_process_request(mem, base, is_eos) == if str_ref == 0 {
                Err(LocateError::NoStringRef)
            } else if start == 0 {
                Err(LocateError::NoPrologue)
            } else if slot == 0 {
                Err(LocateError::NoVtableEntry)
            } else {
                Ok((slot, start))
            }
        }),
{
    assert(STAT_NAME@ == "STAT_FCurlHttpRequest_ProcessRequest"@);
    assert(STAT_NAME.spec_bytes() == "STAT_FCurlHttpRequest_ProcessRequest".spec_bytes());
    assert(QUEUE_MESSAGE@
        == "%p: request (easy handle:%p) has been added to threaded queue for processing"@);
}

/// Signatures of `PushWidget`, tried in order.
pub open spec fn spec_push_widget_signatures() -> Seq<&'static str> {
    seq![
        "48 89 5C 24 ? 48 89 6C 24 ? 48 89 74 24 ? 57 48 83 EC 30 48 8B E9 49 8B D9 48 8D 0D ? ? ? ? 49 8B F8 48 8B F2 E8 ? ? ? ? 4C 8B CF 48 89 5C 24 ? 4C 8B C6 48 8B D5 48 8B 48 78",
        "48 8B C4 4C 89 40 18 48 89 50 10 48 89 48 08 55 53 56 57 41 54 41 55 41 56 41 57 48 8D 68 B8 48 81 EC ? ? ? ? 65 48 8B 04 25",
        "48 8B C4 48 89 58 ? 48 89 70 ? 48 89 78 ? 55 41 56 41 57 48 8D 68 A1 48 81 EC ? ? ? ? 65 48 8B 04 25 ? ? ? ? 48 8B F9 B9 ? ? ? ?",
        "48 89 5C 24 ? 48 89 74 24 ? 55 57 41 54 41 56 41 57 48 8D 6C 24 ? 48 81 EC ? ? ? ? 49 8B D9 49 8B F8 4C 8B E2 4C 8B F1",
    ]
}

fn push_widget_signatures() -> (r: Vec<&'static str>)
    ensures
        r@ == spec_push_widget_signatures(),
{
    let mut r: Vec<&'static str> = Vec::new();
    r.push("48 89 5C 24 ? 48 89 6C 24 ? 48 89 74 24 ? 57 48 83 EC 30 48 8B E9 49 8B D9 48 8D 0D ? ? ? ? 49 8B F8 48 8B F2 E8 ? ? ? ? 4C 8B CF 48 89 5C 24 ? 4C 8B C6 48 8B D5 48 8B 48 78");
    r.push("48 8B C4 4C 89 40 18 48 89 50 10 48 89 48 08 55 53 56 57 41 54 41 55 41 56 41 57 48 8D 68 B8 48 81 EC ? ? ? ? 65 48 8B 04 25");
    r.push("48 8B C4 48 89 58 ? 48 89 70 ? 48 89 78 ? 55 41 56 41 57 48 8D 68 A1 48 81 EC ? ? ? ? 65 48 8B 04 25 ? ? ? ? 48 8B F9 B9 ? ? ? ?");
    r.push("48 89 5C 24 ? 48 89 74 24 ? 55 57 41 54 41 56 41 57 48 8D 6C 24 ? 48 81 EC ? ? ? ? 49 8B D9 49 8B F8 4C 8B E2 4C 8B F1");
    assert(r@ =~= spec_push_widget_signatures());
    r
}

/// Signatures of the exit function, tried in order.
pub open spec fn spec_exit_signatures() -> Seq<&'static str> {
    seq![
        "48 89 5C 24 ? 57 48 83 EC 40 41 B9 ? ? ? ? 0F B6 F9 44 38 0D ? ? ? ? 0F B6 DA 72 24 89 5C 24 30 48 8D 05 ? ? ? ? 89 7C 24 28 4C 8D 05 ? ? ? ? 33 D2 48 89 44 24 ? 33 C9 E8 ? ? ? ?",
        "48 8B C4 48 89 58 18 88 50 10 88 48 08 57 48 83 EC 30",
        "4C 8B DC 49 89 5B 08 49 89 6B 10 49 89 73 18 49 89 7B 20 41 56 48 83 EC 30 80 3D ? ? ? ? ? 49 8B",
    ]
}

fn exit_signatures() -> (r: Vec<&'static str>)
    ensures
        r@ == spec_exit_signatures(),
{
    let mut r: Vec<&'static str> = Vec::new();
    r.push("48 89 5C 24 ? 57 48 83 EC 40 41 B9 ? ? ? ? 0F B6 F9 44 38 0D ? ? ? ? 0F B6 DA 72 24 89 5C 24 30 48 8D 05 ? ? ? ? 89 7C 24 28 4C 8D 05 ? ? ? ? 33 D2 48 89 44 24 ? 33 C9 E8 ? ? ? ?");
    r.push("48 8B C4 48 89 58 18 88 50 10 88 48 08 57 48 83 EC 30");
    r.push("4C 8B DC 49 89 5B 08 49 89 6B 10 49 89 73 18 49 89 7B 20 41 56 48 83 EC 30 80 3D ? ? ? ? ? 49 8B");
    assert(r@ =~= spec_exit_signatures());
    r
}

/// Signatures of the environment check, tried in order.
pub open spec fn spec_environment_signatures() -> Seq<&'static str> {
    seq![
        "4C 8B DC 55 49 8D AB ? ? ? ? 48 81 EC ? ? ? ? 48 8B 05 ? ? ? ? 48 33 C4 48 89 85 ? ? ? ? 49 89 73 F0 49 89 7B E8 48 8B F9 4D 89 63 E0 4D 8B E0 4D 89 6B D8",
        "48 89 5C 24 ? 55 56 57 41 54 41 55 41 56 41 57 48 8D 6C 24 ? 48 81 EC ? ? ? ? 48 8B 05 ? ? ? ? 48 33 C4 48 89 45 ? 41 0F B6 D8 48 89 55 ? 88 5C 24 ?",
        "48 89 5C 24 ? 55 56 57 41 54 41 55 41 56 41 57 48 8D AC 24 ? ? ? ? 48 81 EC ? ? ? ? 48 8B 05 ? ? ? ? 48 33 C4 48 89 85 ? ? ? ? 80 B9 ? ? ? ? ? 48 8B DA 48 8B F1",
        "48 89 5C 24 ? 55 56 57 41 54 41 55 41 56 41 57 48 8D AC 24 ? ? ? ? 48 81 EC ? ? ? ? 48 8B 05 ? ? ? ? 48 33 C4 48 89 85 ? ? ? ? ? 0F B6 ? 44 88 44 24 ?",
        "48 89 5C 24 ? 55 56 57 41 54 41 55 41 56 41 57 48 8D 6C 24 ? 48 81 EC ? ? ? ? 48 8B 05 ? ? ? ? 48 33 C4 48 89 45 ? 45 0F B6 F8",
        "40 55 53 56 57 41 54 41 56 41 57 48 8D AC 24 ? ? ? ? 48 81 EC ? ? ? ? 48 8B 05 ? ? ? ? 48 33 C4 48 89 85 ? ? ? ? ? 0F B6 ?",
        "4C 8B DC 55 49 8D AB ? ? ? ? 48 81 EC ? ? ? ? 48 8B 05 ? ? ? ? 48 33 C4 48 89 85 ? ? ? ?",
    ]
}

fn environment_signatures() -> (r: Vec<&'static str>)
    ensures
        r@ == spec_environment_signatures(),
{
    let mut r: Vec<&'static str> = Vec::new();
    r.push("4C 8B DC 55 49 8D AB ? ? ? ? 48 81 EC ? ? ? ? 48 8B 05 ? ? ? ? 48 33 C4 48 89 85 ? ? ? ? 49 89 73 F0 49 89 7B E8 48 8B F9 4D 89 63 E0 4D 8B E0 4D 89 6B D8");
    r.push("48 89 5C 24 ? 55 56 57 41 54 41 55 41 56 41 57 48 8D 6C 24 ? 48 81 EC ? ? ? ? 48 8B 05 ? ? ? ? 48 33 C4 48 89 45 ? 41 0F B6 D8 48 89 55 ? 88 5C 24 ?");
    r.push("48 89 5C 24 ? 55 56 57 41 54 41 55 41 56 41 57 48 8D AC 24 ? ? ? ? 48 81 EC ? ? ? ? 48 8B 05 ? ? ? ? 48 33 C4 48 89 85 ? ? ? ? 80 B9 ? ? ? ? ? 48 8B DA 48 8B F1");
    r.push("48 89 5C 24 ? 55 56 57 41 54 41 55 41 56 41 57 48 8D AC 24 ? ? ? ? 48 81 EC ? ? ? ? 48 8B 05 ? ? ? ? 48 33 C4 48 89 85 ? ? ? ? ? 0F B6 ? 44 88 44 24 ?");
    r.push("48 89 5C 24 ? 55 56 57 41 54 41 55 41 56 41 57 48 8D 6C 24 ? 48 81 EC ? ? ? ? 48 8B 05 ? ? ? ? 48 33 C4 48 89 45 ? 45 0F B6 F8");
    r.push("40 55 53 56 57 41 54 41 56 41 57 48 8D AC 24 ? ? ? ? 48 81 EC ? ? ? ? 48 8B 05 ? ? ? ? 48 33 C4 48 89 85 ? ? ? ? ? 0F B6 ?");
    r.push("4C 8B DC 55 49 8D AB ? ? ? ? 48 81 EC ? ? ? ? 48 8B 05 ? ? ? ? 48 33 C4 48 89 85 ? ? ? ?");
    assert(r@ =~= spec_environment_signatures());
    r
}

/// Address of the first signature from `i` on that matches in the image's
/// `.text`, or 0.
pub open spec fn first_found_from(mem: ImageMemory, base: int, sigs: Seq<&'static str>, i: int) -> int
    decreases sigs.len() - i,
{
    if i < 0 || i >= sigs.len() {
        0
    } else {
        let a = spec_pattern_in_text(mem, base, pattern_tokens(sigs[i].spec_bytes()));
        if a != 0 {
            a
        } else {
            first_found_from(mem, base, sigs, i + 1)
        }
    }
}

proof fn lemma_first_found_skips(mem: ImageMemory, base: int, sigs: Seq<&'static str>, i: int, k: int)
    requires
        0 <= k <= i <= sigs.len(),
        forall|j: int|
            0 <= j < i ==> spec_pattern_in_text(
                mem,
                base,
                pattern_tokens(#[trigger] sigs[j].spec_bytes()),
            ) == 0,
    ensures
        first_found_from(mem, base, sigs, k) == first_found_from(mem, base, sigs, i),
    decreases i - k,
{
    if k < i {
        assert(spec_pattern_in_text(mem, base, pattern_tokens(sigs[k].spec_bytes())) == 0);
        lemma_first_found_skips(mem, base, sigs, i, k + 1);
    }
}

/// Signatures are tried in list order and the first that matches wins: when
/// signature `i` matches the image's `.text` and no signature before it
/// does, the address found is that of signature `i`; when none matches it
/// is 0.
pub proof fn law_first_matching_signature_wins(mem: ImageMemory, base: int, sigs: Seq<&'static str>, i: int)
    requires
        0 <= i <= sigs.len(),
        forall|j: int|
            0 <= j < i ==> spec_pattern_in_text(
                mem,
                base,
                pattern_tokens(#[trigger] sigs[j].spec_bytes()),
            ) == 0,
    ensures
        i < sigs.len() && spec_pattern_in_text(mem, base, pattern_tokens(sigs[i].spec_bytes())) != 0
            ==> first_found_from(mem, base, sigs, 0) == spec_pattern_in_text(
            mem,
            base,
            pattern_tokens(sigs[i].spec_bytes()),
        ),
        i == sigs.len() ==> first_found_from(mem, base, sigs, 0) == 0,
{
    lemma_first_found_skips(mem, base, sigs, i, 0);
}

fn first_found(image: &ImageInfo, mem: &ImageMemory, sigs: &Vec<&'static str>) -> (r: u64)
    requires
        mem.wf(),
    ensures
        r == first_found_from(*mem, image.base as int, sigs@, 0),
{
    let mut i: usize = 0;
    while i < sigs.len()
        invariant
            i <= sigs@.len(),
            mem.wf(),
            first_found_from(*mem, image.base as int, sigs@, 0) == first_found_from(
                *mem,
                image.base as int,
                sigs@,
                i as int,
            ),
        decreases sigs@.len() - i,
    {
        let pattern = parse_pattern(sigs[i]);
        let a = find_pattern_in_text(image, mem, &pattern);
        if a != 0 {
            return a;
        }
        i = i + 1;
    }
    0
}

/// The functions whose first byte is patched to `ret` so that the game
/// server is not closed: found only when `PushWidget` is; 0 where none is.
pub struct ExitTargets {
    pub push_widget: u64,
    pub exit: u64,
    pub env: u64,
}

/// Looks for `PushWidget`, then for the exit function and the environment
/// check; `None` when the image has no `.text`.
pub fn find_exit_functions(image: &ImageInfo, mem: &ImageMemory) -> (r: Option<ExitTargets>)
    requires
        mem.wf(),
    ensures
        (r is None) == (spec_section_range(
            mem.window,
            mem.regions@,
            image.base as int,
            ".text".spec_bytes(),
        ) is None),
        r matches Some(t) ==> {
            let pw = first_found_from(*mem, image.base as int, spec_push_widget_signatures(), 0);
            &&& t.push_widget == pw
            &&& t.exit == if pw == 0 {
                0
            } else {
                first_found_from(*mem, image.base as int, spec_exit_signatures(), 0)
            }
            &&& t.env == if pw == 0 {
                0
            } else {
                first_found_from(*mem, image.base as int, spec_environment_signatures(), 0)
            }
        },
{
    if image.text_section(mem).is_none() {
        return None;
    }
    let push_widget = first_found(image, mem, &push_widget_signatures());
    if push_widget == 0 {
        return Some(ExitTargets { push_widget: 0, exit: 0, env: 0 });
    }
    let exit = first_found(image, mem, &exit_signatures());
    let env = first_found(image, mem, &environment_signatures());
    Some(ExitTargets { push_widget, exit, env })
}


/// How many times the main module is tried.
pub const MAIN_HOOK_ATTEMPTS: u32 = 3;

/// Where initialisation stands.
#[derive(Clone, Copy, PartialEq, Eq, Structural)]
pub enum InitPhase {
    Start,
    /// Hooking the main module; `attempts` tries made so far, this one included.
    HookingMain { attempts: u32 },
    LoadingEos,
    HookingEos { module: u64 },
    PatchingExits,
    Done,
}

/// What the outside work reports back.
#[derive(Clone, Copy, PartialEq, Eq, Structural)]
pub enum InitEvent {
    /// Console, log, allocator and backend are set up.
    Started,
    /// A try at hooking the main module ended (true: hooked).
    MainHooked(bool),
    /// The EOS SDK was loaded at this base (0: not found).
    EosLoaded(u64),
    /// The try at hooking the EOS SDK ended.
    EosHooked,
    /// The exit functions were looked for and patched.
    ExitsPatched,
}

/// The next piece of outside work.
#[derive(Clone, Copy, PartialEq, Eq, Structural)]
pub enum InitAction {
    /// Try to hook the main module.
    HookMain,
    /// Load the EOS SDK; `main_hooked` says how hooking the main module ended.
    LoadEos { main_hooked: bool },
    /// Try to hook the EOS SDK loaded at this base.
    HookEos(u64),
    /// Look for the exit functions and patch them.
    PatchExits,
    /// Initialisation is over; `exit_patches_skipped` when exit patching is
    /// on but no EOS SDK was found.
    Finish { exit_patches_skipped: bool },
    /// The event does not belong to this phase; nothing to do.
    Nothing,
}

/// One step of initialisation.
pub open spec fn spec_init_step(phase: InitPhase, event: InitEvent) -> (InitPhase, InitAction) {
    match (phase, event) {
        (InitPhase::Start, InitEvent::Started) => (
            InitPhase::HookingMain { attempts: 1 },
            InitAction::HookMain,
        ),
        (InitPhase::HookingMain { attempts }, InitEvent::MainHooked(ok)) => if ok {
            (InitPhase::LoadingEos, InitAction::LoadEos { main_hooked: true })
        } else if attempts >= MAIN_HOOK_ATTEMPTS {
            (InitPhase::LoadingEos, InitAction::LoadEos { main_hooked: false })
        } else {
            (InitPhase::HookingMain { attempts: (attempts + 1) as u32 }, InitAction::HookMain)
        },
        (InitPhase::LoadingEos, InitEvent::EosLoaded(module)) => if module != 0 {
            (InitPhase::HookingEos { module }, InitAction::HookEos(module))
        } else {
            (InitPhase::Done, InitAction::Finish { exit_patches_skipped: opts::B_HAS_PUSH_WIDGET })
        },
        (InitPhase::HookingEos { module }, InitEvent::EosHooked) => if opts::B_HAS_PUSH_WIDGET {
            (InitPhase::PatchingExits, InitAction::PatchExits)
        } else {
            (InitPhase::Done, InitAction::Finish { exit_patches_skipped: false })
        },
        (InitPhase::PatchingExits, InitEvent::ExitsPatched) => (
            InitPhase::Done,
            InitAction::Finish { exit_patches_skipped: false },
        ),
        _ => (phase, InitAction::Nothing),
    }
}

/// The decisions of initialisation: after setup the main module is tried
/// up to three times, then the EOS SDK is loaded and, when found, hooked;
/// with exit patching on, the exit functions are patched once the SDK is in.
pub fn init_hooks(phase: InitPhase, event: InitEvent) -> (r: (InitPhase, InitAction))
    ensures
        r == spec_init_step(phase, event),
{
    match (phase, event) {
        (InitPhase::Start, InitEvent::Started) => (
            InitPhase::HookingMain { attempts: 1 },
            InitAction::HookMain,
        ),
        (InitPhase::HookingMain { attempts }, InitEvent::MainHooked(ok)) => {
            if ok {
                (InitPhase::LoadingEos, InitAction::LoadEos { main_hooked: true })
            } else if attempts >= MAIN_HOOK_ATTEMPTS {
                (InitPhase::LoadingEos, InitAction::LoadEos { main_hooked: false })
            } else {
                (InitPhase::HookingMain { attempts: attempts + 1 }, InitAction::HookMain)
            }
        },
        (InitPhase::LoadingEos, InitEvent::EosLoaded(module)) => {
            if module != 0 {
                (InitPhase::HookingEos { module }, InitAction::HookEos(module))
            } else {
                (InitPhase::Done, InitAction::Finish { exit_patches_skipped: opts::B_HAS_PUSH_WIDGET })
            }
        },
        (InitPhase::HookingEos { module: _ }, InitEvent::EosHooked) => {
            if opts::B_HAS_PUSH_WIDGET {
                (InitPhase::PatchingExits, InitAction::PatchExits)
            } else {
                (InitPhase::Done, InitAction::Finish { exit_patches_skipped: false })
            }
        },
        (InitPhase::PatchingExits, InitEvent::ExitsPatched) => (
            InitPhase::Done,
            InitAction::Finish { exit_patches_skipped: false },
        ),
        _ => (phase, InitAction::Nothing),
    }
}

/// How many `HookMain` actions a run of `events` from `phase` issues.
pub open spec fn main_hook_count(phase: InitPhase, events: Seq<InitEvent>) -> nat
    decreases events.len(),
{
    if events.len() == 0 {
        0
    } else {
        let (next, action) = spec_init_step(phase, events[0]);
        (if action == InitAction::HookMain {
            1nat
        } else {
            0nat
        }) + main_hook_count(next, events.drop_first())
    }
}

/// How many more tries at the main module a phase allows.
pub open spec fn main_hook_budget(phase: InitPhase) -> int {
    match phase {
        InitPhase::Start => MAIN_HOOK_ATTEMPTS as int,
        InitPhase::HookingMain { attempts } => if attempts <= MAIN_HOOK_ATTEMPTS {
            MAIN_HOOK_ATTEMPTS - attempts
        } else {
            0
        },
        _ => 0,
    }
}

proof fn lemma_main_hook_budget(phase: InitPhase, events: Seq<InitEvent>)
    requires
        phase matches InitPhase::HookingMain { attempts } ==> attempts >= 1,
    ensures
        main_hook_count(phase, events) <= main_hook_budget(phase),
    decreases events.len(),
{
    if events.len() > 0 {
        let (next, _) = spec_init_step(phase, events[0]);
        lemma_main_hook_budget(next, events.drop_first());
    }
}

/// Whatever happens, initialisation tries to hook the main module at most
/// three times.
pub proof fn law_main_module_tried_at_most_three_times(events: Seq<InitEvent>)
    ensures
        main_hook_count(InitPhase::Start, events) <= 3,
{
    lemma_main_hook_budget(InitPhase::Start, events);
}


/// The known vtable slot is used only when it points into `.text` at the
/// known `ProcessRequest` prologue.
pub proof fn law_known_slot_is_checked(mem: ImageMemory, base: int, ts: int, tsize: int)
    ensures
        spec_known_vtable_entry(mem, base, ts, tsize) != 0 ==> {
            let t = pointer_at(mem.window, spec_known_vtable_entry(mem, base, ts, tsize));
            &&& ts <= t < ts + tsize
            &&& mem.window.holds(t, known_prologue())
        },
{
}


/// Unicode white space, as `char::is_whitespace` decides it.
pub open spec fn is_white_space(c: char) -> bool {
    let v = c as u32;
    ||| 0x09 <= v <= 0x0D
    ||| v == 0x20
    ||| v == 0x85
    ||| v == 0xA0
    ||| v == 0x1680
    ||| 0x2000 <= v <= 0x200A
    ||| v == 0x2028
    ||| v == 0x2029
    ||| v == 0x202F
    ||| v == 0x205F
    ||| v == 0x3000
}

fn white_space(c: char) -> (r: bool)
    ensures
        r == is_white_space(c),
{
    let v = c as u32;
    (0x09 <= v && v <= 0x0D) || v == 0x20 || v == 0x85 || v == 0xA0 || v == 0x1680 || (0x2000 <= v
        && v <= 0x200A) || v == 0x2028 || v == 0x2029 || v == 0x202F || v == 0x205F || v == 0x3000
}

/// The words of `s` from `i` on, when the current word began at `start`:
/// maximal runs of characters that are not white space.
pub open spec fn words_from(s: Seq<char>, i: int, start: int) -> Seq<Seq<char>>
    decreases s.len() - i,
{
    if i < 0 || i >= s.len() {
        if 0 <= start < s.len() {
            seq![s.subrange(start, s.len() as int)]
        } else {
            Seq::empty()
        }
    } else if is_white_space(s[i]) {
        (if start < i {
            seq![s.subrange(start, i)]
        } else {
            Seq::empty()
        }) + words_from(s, i + 1, i + 1)
    } else {
        words_from(s, i + 1, start)
    }
}

/// The white-space separated words of `s`.
pub open spec fn words(s: Seq<char>) -> Seq<Seq<char>> {
    words_from(s, 0, 0)
}

/// `-backend=`
pub open spec fn backend_prefix() -> Seq<char> {
    seq!['-', 'b', 'a', 'c', 'k', 'e', 'n', 'd', '=']
}

/// `-bConsole=`
pub open spec fn console_prefix() -> Seq<char> {
    seq!['-', 'b', 'C', 'o', 'n', 's', 'o', 'l', 'e', '=']
}

/// What follows `prefix` in `w`, when `w` starts with it.
pub open spec fn arg_value(w: Seq<char>, prefix: Seq<char>) -> Option<Seq<char>> {
    if prefix.len() <= w.len() && w.take(prefix.len() as int) == prefix {
        Some(w.skip(prefix.len() as int))
    } else {
        None
    }
}

/// ASCII upper-case letters in lower case; other characters unchanged.
pub open spec fn ascii_lower(c: char) -> u32 {
    let v = c as u32;
    if 65 <= v <= 90 {
        (v + 32) as u32
    } else {
        v
    }
}

/// `v` is `true` in any ASCII case.
pub open spec fn is_true_word(v: Seq<char>) -> bool {
    &&& v.len() == 4
    &&& ascii_lower(v[0]) == 't' as u32
    &&& ascii_lower(v[1]) == 'r' as u32
    &&& ascii_lower(v[2]) == 'u' as u32
    &&& ascii_lower(v[3]) == 'e' as u32
}

/// The value of the last `-backend=` word.
pub open spec fn backend_arg(ws: Seq<Seq<char>>) -> Option<Seq<char>>
    decreases ws.len(),
{
    if ws.len() == 0 {
        None
    } else {
        match arg_value(ws.last(), backend_prefix()) {
            Some(v) => Some(v),
            None => backend_arg(ws.drop_last()),
        }
    }
}

/// `w` is `-bConsole=true` (the value in any ASCII case).
pub open spec fn is_console_arg(w: Seq<char>) -> bool {
    arg_value(w, console_prefix()) matches Some(v) && is_true_word(v)
}

/// How many of the words are `-bConsole=true`.
pub open spec fn console_args(ws: Seq<Seq<char>>) -> nat
    decreases ws.len(),
{
    if ws.len() == 0 {
        0
    } else {
        console_args(ws.drop_last()) + if is_console_arg(ws.last()) {
            1nat
        } else {
            0nat
        }
    }
}

proof fn lemma_console_args_bound(ws: Seq<Seq<char>>)
    ensures
        console_args(ws) <= ws.len(),
    decreases ws.len(),
{
    if ws.len() > 0 {
        lemma_console_args_bound(ws.drop_last());
    }
}

/// What the command line asks for.
pub struct LaunchOptions {
    /// The value of the last `-backend=` argument.
    pub backend: Option<Vec<char>>,
    /// How many `-bConsole=true` arguments were given.
    pub console_count: usize,
}

fn starts_with_chars(w: &[char], prefix: &Vec<char>) -> (r: bool)
    ensures
        r == (prefix@.len() <= w@.len() && w@.take(prefix@.len() as int) == prefix@),
{
    if prefix.len() > w.len() {
        return false;
    }
    let mut k: usize = 0;
    while k < prefix.len()
        invariant
            prefix@.len() <= w@.len(),
            k <= prefix@.len(),
            forall|j: int| 0 <= j < k ==> w@[j] == prefix@[j],
        decreases prefix@.len() - k,
    {
        if w[k] != prefix[k] {
            assert(w@.take(prefix@.len() as int)[k as int] != prefix@[k as int]);
            return false;
        }
        k = k + 1;
    }
    assert(w@.take(prefix@.len() as int) =~= prefix@);
    true
}

fn lower_ascii(c: char) -> (r: u32)
    ensures
        r == ascii_lower(c),
{
    let v = c as u32;
    if 65 <= v && v <= 90 {
        v + 32
    } else {
        v
    }
}

fn true_word(v: &[char]) -> (r: bool)
    ensures
        r == is_true_word(v@),
{
    v.len() == 4 && lower_ascii(v[0]) == 't' as u32 && lower_ascii(v[1]) == 'r' as u32 && lower_ascii(
        v[2],
    ) == 'u' as u32 && lower_ascii(v[3]) == 'e' as u32
}

fn chars_of(s: &str) -> (r: Vec<char>)
    ensures
        r@ == s@,
{
    let mut out: Vec<char> = Vec::new();
    for c in it: s.chars()
        invariant
            it.seq() == s@,
            out@ == s@.take(it.index()),
    {
        out.push(c);
        assert(out@ =~= s@.take(it.index() + 1));
    }
    assert(s@.take(s@.len() as int) =~= s@);
    out
}

/// `backend` and `console_count` as they stand after the words `ws`.
pub open spec fn options_after(ws: Seq<Seq<char>>, backend: Option<Vec<char>>, console_count: usize) -> bool {
    &&& match (backend, backend_arg(ws)) {
        (Some(b), Some(v)) => b@ == v,
        (None, None) => true,
        _ => false,
    }
    &&& console_count == console_args(ws)
}

fn take_word(
    w: &[char],
    bp: &Vec<char>,
    cp: &Vec<char>,
    backend: &mut Option<Vec<char>>,
    console_count: &mut usize,
    Ghost(done): Ghost<Seq<Seq<char>>>,
)
    requires
        bp@ == backend_prefix(),
        cp@ == console_prefix(),
        done.len() < usize::MAX,
        options_after(done, *old(backend), *old(console_count)),
    ensures
        options_after(done.push(w@), *final(backend), *final(console_count)),
{
    proof {
        lemma_console_args_bound(done);
        assert(done.push(w@).last() == w@);
        assert(done.push(w@).drop_last() =~= done);
    }
    if starts_with_chars(w, bp) {
        let v = &w[bp.len()..w.len()];
        let mut val: Vec<char> = Vec::new();
        let mut k: usize = 0;
        while k < v.len()
            invariant
                k <= v@.len(),
                val@ == v@.take(k as int),
            decreases v@.len() - k,
        {
            val.push(v[k]);
            k = k + 1;
            assert(val@ =~= v@.take(k as int));
        }
        assert(v@.take(v@.len() as int) =~= v@);
        assert(v@ =~= w@.skip(bp@.len() as int));
        *backend = Some(val);
    }
    if starts_with_chars(w, cp) {
        let v = &w[cp.len()..w.len()];
        assert(v@ =~= w@.skip(cp@.len() as int));
        if true_word(v) {
            *console_count = *console_count + 1;
        }
    }
}

/// Reads `-backend=<url>` (the last one wins) and counts the `-bConsole=true`
/// arguments (in any case) among the white-space separated words of the
/// command line.
pub fn launch_options(cmd: &str) -> (r: LaunchOptions)
    ensures
        options_after(words(cmd@), r.backend, r.console_count),
{
    let chars = chars_of(cmd);
    let bp = vec!['-', 'b', 'a', 'c', 'k', 'e', 'n', 'd', '='];
    let cp = vec!['-', 'b', 'C', 'o', 'n', 's', 'o', 'l', 'e', '='];
    assert(bp@ =~= backend_prefix());
    assert(cp@ =~= console_prefix());
    let ghost s = cmd@;
    let ghost mut done: Seq<Seq<char>> = Seq::empty();
    let mut backend: Option<Vec<char>> = None;
    let mut console_count: usize = 0;
    let mut start: usize = 0;
    let mut i: usize = 0;
    let n = chars.len();
    while i < n
        invariant
            n == chars@.len(),
            chars@ == s,
            s == cmd@,
            bp@ == backend_prefix(),
            cp@ == console_prefix(),
            start <= i <= n,
            done.len() <= start,
            words(s) == done + words_from(s, i as int, start as int),
            options_after(done, backend, console_count),
        decreases n - i,
    {
        if white_space(chars[i]) {
            if start < i {
                take_word(&chars[start..i], &bp, &cp, &mut backend, &mut console_count, Ghost(done));
                proof {
                    done = done.push(s.subrange(start as int, i as int));
                }
            }
            proof {
                assert(words(s) =~= done + words_from(s, i + 1, i + 1));
            }
            start = i + 1;
        } else {
            proof {
                assert(words_from(s, i as int, start as int) == words_from(s, i + 1, start as int));
            }
        }
        i = i + 1;
    }
    if start < n {
        take_word(&chars[start..n], &bp, &cp, &mut backend, &mut console_count, Ghost(done));
        proof {
            done = done.push(s.subrange(start as int, n as int));
        }
    }
    proof {
        assert(done =~= words(s));
    }
    LaunchOptions { backend, console_count }
}

} // verus!
