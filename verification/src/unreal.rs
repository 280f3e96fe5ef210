use vstd::prelude::*;
use vstd::string::StringSliceAdditionalSpecFns;

use crate::opts;
use crate::patchfinder::{find_pattern_in_text, parse_pattern, pattern_tokens, spec_pattern_in_text};
use crate::pe::{
    two64, is_readable, le_u32, le_u64, spec_is_readable, ImageInfo, ImageMemory, MemoryBasicInformation,
    MemoryWindow,
};

verus! {

/// Engine string: a buffer of UTF-16 code units whose first `length` units
/// hold the text and its terminator. A null buffer is `None`.
pub struct FString {
    pub string: Option<Vec<u16>>,
    pub length: u32,
    pub max_size: u32,
}

/// The characters of a string model before its last unit (the terminator).
pub open spec fn text_of(m: Option<Seq<u16>>) -> Seq<u16> {
    match m {
        Some(u) => if u.len() > 0 {
            u.drop_last()
        } else {
            Seq::empty()
        },
        None => Seq::empty(),
    }
}

impl View for FString {
    /// `None` for a null buffer, otherwise the `length` units it holds.
    type V = Option<Seq<u16>>;

    open spec fn view(&self) -> Option<Seq<u16>> {
        match self.string {
            Some(v) => Some(v@.take(self.length as int)),
            None => None,
        }
    }
}

impl FString {
    /// The buffer holds at least `length` units.
    pub open spec fn wf(&self) -> bool {
        self.string matches Some(v) ==> self.length <= v@.len()
    }

    /// Its capacity is its length, and a null string has length 0.
    pub open spec fn is_compact(&self) -> bool {
        &&& self.max_size == self.length
        &&& self.string is None ==> self.length == 0
    }

    /// The null string.
    pub fn new() -> (r: FString)
        ensures
            r.wf(),
            r.is_compact(),
            r@ is None,
            r.string is None,
            r.length == 0,
            r.max_size == 0,
    {
        FString { string: None, length: 0, max_size: 0 }
    }

    /// Null, or holding at most the terminator.
    pub fn is_empty(&self) -> (r: bool)
        ensures
            r == (self.string is None || self.length <= 1),
    {
        self.string.is_none() || self.length <= 1
    }

    /// The buffer itself.
    pub fn raw(&self) -> (r: &Option<Vec<u16>>)
        ensures
            *r == self.string,
    {
        &self.string
    }
}


/// Signature of the engine's `FMemory::Realloc`.
pub const REALLOC_SIGNATURE: &'static str =
    "48 89 5C 24 ? 48 89 74 24 10 57 48 83 EC ? 48 8B F1 41 8B D8 48 8B 0D ? ? ? ?";

/// The engine's allocator.
pub struct FMemory;

impl FMemory {
    /// Address of `FMemory::Realloc` in the image's `.text`, or 0.
    pub fn find_realloc(image: &ImageInfo, mem: &ImageMemory) -> (r: u64)
        requires
            mem.wf(),
        ensures
            r == spec_pattern_in_text(
                *mem,
                image.base as int,
                pattern_tokens(REALLOC_SIGNATURE.spec_bytes()),
            ),
    {
        let pattern = parse_pattern(REALLOC_SIGNATURE);
        find_pattern_in_text(image, mem, &pattern)
    }
}

/// `SetURL` index used for the EOS SDK.
pub const EOS_SET_URL_IDX: i64 = 10;

/// `SetURL` index used when detection fails.
pub const DEFAULT_SET_URL_IDX: i64 = 10;

/// The pointer in slot `i` of the vtable at `vtable`; 0 when the window does
/// not hold the slot.
pub open spec fn vtable_slot(mem: MemoryWindow, vtable: int, i: int) -> int {
    if mem.covers(vtable + 8 * i, 8) {
        le_u64(mem.slice_at(vtable + 8 * i, 8))
    } else {
        0
    }
}

/// The URL member offset that the getter at `f` loads with `lea rdx,
/// [rcx+off]`, looking at the first 100 bytes from `f + i` on; 0 when none
/// is found or its operand is not in the window.
pub open spec fn url_offset_from(mem: MemoryWindow, f: int, i: int) -> int
    decreases 100 - i,
{
    if i < 0 || i >= 100 {
        0
    } else if mem.holds(f + i, seq![0x48u8, 0x8Du8, 0x91u8]) {
        if mem.covers(f + i + 3, 4) {
            le_u32(mem.slice_at(f + i + 3, 4))
        } else {
            0
        }
    } else if mem.holds(f + i, seq![0x48u8, 0x8Du8, 0x51u8]) {
        match mem.byte_at(f + i + 3) {
            Some(b) => b as int,
            None => 0,
        }
    } else {
        url_offset_from(mem, f, i + 1)
    }
}

/// At `a` stands `add rcx, off` (32-bit or 8-bit immediate).
pub open spec fn adds_offset_at(mem: MemoryWindow, a: int, off: int) -> bool {
    ||| mem.holds(a, seq![0x48u8, 0x81u8, 0xC1u8]) && mem.covers(a + 3, 4) && le_u32(
        mem.slice_at(a + 3, 4),
    ) == off
    ||| mem.holds(a, seq![0x48u8, 0x83u8, 0xC1u8]) && (mem.byte_at(a + 3) matches Some(b) && b
        == off)
}

/// Some `add rcx, off` stands within the first 0x60 bytes of `f` from `f + j` on.
pub open spec fn adds_offset_from(mem: MemoryWindow, f: int, off: int, j: int) -> bool
    decreases 0x60 - j,
{
    if j < 0 || j >= 0x60 {
        false
    } else {
        adds_offset_at(mem, f + j, off) || adds_offset_from(mem, f, off, j + 1)
    }
}

/// The first slot from `i` on (below 0x20) whose function is readable and
/// adds the URL offset to `this`.
pub open spec fn setter_index_from(
    mem: MemoryWindow,
    regions: Seq<MemoryBasicInformation>,
    vtable: int,
    off: int,
    i: int,
) -> Option<int>
    decreases 0x20 - i,
{
    if i < 1 || i >= 0x20 {
        None
    } else {
        let f = vtable_slot(mem, vtable, i);
        if f != 0 && spec_is_readable(regions, f, 0x80) && adds_offset_from(mem, f, off, 0) {
            Some(i)
        } else {
            setter_index_from(mem, regions, vtable, off, i + 1)
        }
    }
}

/// The `SetURL` vtable index: the configured one; else the first method
/// that adds to `this` the offset at which the URL getter (slot 0) finds
/// the URL; else the default.
pub open spec fn spec_url_index(mem: ImageMemory, vtable: int) -> int {
    if opts::SET_URL_INDEX != 0 {
        opts::SET_URL_INDEX as int
    } else if vtable == 0 {
        DEFAULT_SET_URL_IDX as int
    } else {
        let g = vtable_slot(mem.window, vtable, 0);
        if g == 0 || !spec_is_readable(mem.regions@, g, 0x80) {
            DEFAULT_SET_URL_IDX as int
        } else {
            let off = url_offset_from(mem.window, g, 0);
            if off == 0 {
                DEFAULT_SET_URL_IDX as int
            } else {
                match setter_index_from(mem.window, mem.regions@, vtable, off, 1) {
                    Some(i) => i,
                    None => DEFAULT_SET_URL_IDX as int,
                }
            }
        }
    }
}

/// An engine HTTP request object; `vtable` is its first field.
pub struct FCurlHttpRequest {
    pub vtable: u64,
}

fn read_slot(mem: &MemoryWindow, vtable: u64, i: u64) -> (r: u64)
    requires
        mem.wf(),
        i < 0x20,
    ensures
        r == vtable_slot(*mem, vtable as int, i as int),
{
    match vtable.checked_add(8 * i) {
        None => 0,
        Some(a) => match mem.read_u64(a) {
            Some(v) => v,
            None => 0,
        },
    }
}

fn holds_at(mem: &MemoryWindow, a: u64, b0: u8, b1: u8, b2: u8) -> (r: bool)
    requires
        mem.wf(),
    ensures
        r == mem.holds(a as int, seq![b0, b1, b2]),
{
    match mem.window(a, 3) {
        None => false,
        Some(w) => {
            let r = w.bytes[0] == b0 && w.bytes[1] == b1 && w.bytes[2] == b2;
            assert(r == (w.bytes@ =~= seq![b0, b1, b2]));
            r
        },
    }
}

proof fn lemma_url_offset_beyond(mem: MemoryWindow, f: int, i: int)
    requires
        mem.wf(),
        0 <= i,
        f + i >= two64(),
    ensures
        url_offset_from(mem, f, i) == 0,
    decreases 100 - i,
{
    if i < 100 {
        lemma_url_offset_beyond(mem, f, i + 1);
    }
}

proof fn lemma_adds_offset_beyond(mem: MemoryWindow, f: int, off: int, j: int)
    requires
        mem.wf(),
        0 <= j,
        f + j >= two64(),
    ensures
        !adds_offset_from(mem, f, off, j),
    decreases 0x60 - j,
{
    if j < 0x60 {
        lemma_adds_offset_beyond(mem, f, off, j + 1);
    }
}

fn url_offset(mem: &MemoryWindow, f: u64) -> (r: u32)
    requires
        mem.wf(),
    ensures
        r == url_offset_from(*mem, f as int, 0),
{
    let mut i: u64 = 0;
    while i < 100
        invariant
            i <= 100,
            mem.wf(),
            url_offset_from(*mem, f as int, 0) == url_offset_from(*mem, f as int, i as int),
        decreases 100 - i,
    {
        let addr = match f.checked_add(i) {
            Some(a) => a,
            None => {
                proof {
                    lemma_url_offset_beyond(*mem, f as int, i as int);
                }
                return 0;
            },
        };
        if holds_at(mem, addr, 0x48, 0x8D, 0x91) {
            let operand = match addr.checked_add(3) {
                Some(a) => mem.read_u32(a),
                None => None,
            };
            return match operand {
                Some(v) => v,
                None => 0,
            };
        }
        if holds_at(mem, addr, 0x48, 0x8D, 0x51) {
            let operand = match addr.checked_add(3) {
                Some(a) => mem.read_u8(a),
                None => None,
            };
            return match operand {
                Some(v) => v as u32,
                None => 0,
            };
        }
        i = i + 1;
    }
    0
}

fn adds_offset(mem: &MemoryWindow, f: u64, off: u32) -> (r: bool)
    requires
        mem.wf(),
    ensures
        r == adds_offset_from(*mem, f as int, off as int, 0),
{
    let mut j: u64 = 0;
    while j < 0x60
        invariant
            j <= 0x60,
            mem.wf(),
            adds_offset_from(*mem, f as int, off as int, 0) == adds_offset_from(
                *mem,
                f as int,
                off as int,
                j as int,
            ),
        decreases 0x60 - j,
    {
        let addr = match f.checked_add(j) {
            Some(a) => a,
            None => {
                proof {
                    lemma_adds_offset_beyond(*mem, f as int, off as int, j as int);
                }
                return false;
            },
        };
        let operand_addr = addr.checked_add(3);
        if holds_at(mem, addr, 0x48, 0x81, 0xC1) {
            let v = match operand_addr {
                Some(a) => mem.read_u32(a),
                None => None,
            };
            if v == Some(off) {
                return true;
            }
        }
        if holds_at(mem, addr, 0x48, 0x83, 0xC1) {
            let v = match operand_addr {
                Some(a) => mem.read_u8(a),
                None => None,
            };
            match v {
                Some(b) => {
                    if b as u32 == off {
                        return true;
                    }
                },
                None => {},
            }
        }
        j = j + 1;
    }
    false
}

impl FCurlHttpRequest {
    /// Finds the vtable index of `SetURL` (see `spec_url_index`).
    pub fn initialize_url_index(&self, mem: &ImageMemory) -> (r: i64)
        requires
            mem.wf(),
        ensures
            r == spec_url_index(*mem, self.vtable as int),
    {
        if opts::SET_URL_INDEX != 0 {
            return opts::SET_URL_INDEX;
        }
        let vtable = self.vtable;
        if vtable == 0 {
            return DEFAULT_SET_URL_IDX;
        }
        let window = &mem.window;
        let get_func = read_slot(window, vtable, 0);
        if get_func == 0 || !is_readable(mem.regions, get_func, 0x80) {
            return DEFAULT_SET_URL_IDX;
        }
        let off = url_offset(window, get_func);
        if off == 0 {
            return DEFAULT_SET_URL_IDX;
        }
        let ghost g = *mem;
        let mut i: u64 = 1;
        while i < 0x20
            invariant
                1 <= i <= 0x20,
                mem.wf(),
                g == *mem,
                window == &mem.window,
                vtable == self.vtable,
                vtable != 0,
                spec_url_index(g, vtable as int) == match setter_index_from(
                    g.window,
                    g.regions@,
                    vtable as int,
                    off as int,
                    i as int,
                ) {
                    Some(k) => k,
                    None => DEFAULT_SET_URL_IDX as int,
                },
            decreases 0x20 - i,
        {
            let func = read_slot(window, vtable, i);
            if func != 0 && is_readable(mem.regions, func, 0x80) && adds_offset(window, func, off) {
                return i as i64;
            }
            i = i + 1;
        }
        DEFAULT_SET_URL_IDX
    }

    /// The function that sets the URL: the slot at `EOS_SET_URL_IDX` for the
    /// EOS SDK, else at `set_url_idx`; 0 when there is none to call (index
    /// not positive, null vtable, or null slot).
    pub fn set_url_function(&self, mem: &MemoryWindow, is_eos: bool, set_url_idx: i64) -> (r: u64)
        requires
            mem.wf(),
        ensures
            r == ({
                let idx = if is_eos {
                    EOS_SET_URL_IDX as int
                } else {
                    set_url_idx as int
                };
                if idx <= 0 || self.vtable == 0 {
                    0
                } else {
                    vtable_slot(*mem, self.vtable as int, idx)
                }
            }),
    {
        let idx = if is_eos {
            EOS_SET_URL_IDX
        } else {
            set_url_idx
        };
        if idx <= 0 || self.vtable == 0 {
            return 0;
        }
        let a = (idx as u128) * 8 + self.vtable as u128;
        if a > u64::MAX as u128 {
            return 0;
        }
        match mem.read_u64(a as u64) {
            Some(v) => v,
            None => 0,
        }
    }
}


/// The UTF-16 encoding of one character.
pub open spec fn utf16_of_char(c: char) -> Seq<u16> {
    let v = (c as u32) as int;
    if v < 0x1_0000 {
        seq![v as u16]
    } else {
        let w = v - 0x1_0000;
        seq![(0xD800 + w / 0x400) as u16, (0xDC00 + w % 0x400) as u16]
    }
}

/// The UTF-16 encoding of a text.
pub open spec fn utf16_of(s: Seq<char>) -> Seq<u16>
    decreases s.len(),
{
    if s.len() == 0 {
        Seq::empty()
    } else {
        utf16_of(s.drop_last()) + utf16_of_char(s.last())
    }
}

/// The UTF-16 units of `s` followed by a terminating 0.
pub fn encode_utf16_z(s: &str) -> (r: Vec<u16>)
    ensures
        r@ == utf16_of(s@).push(0u16),
{
    let mut out: Vec<u16> = Vec::new();
    for c in it: s.chars()
        invariant
            it.seq() == s@,
            out@ == utf16_of(s@.take(it.index())),
    {
        proof {
            vstd::utf8::char_is_scalar(c);
        }
        let v = c as u32;
        proof {
            assert(c == s@[it.index()]);
            assert(s@.take(it.index() + 1).drop_last() =~= s@.take(it.index()));
            assert(s@.take(it.index() + 1).last() == c);
            assert(v <= 0x10FFFF);
        }
        if v < 0x1_0000 {
            out.push(v as u16);
        } else {
            let w = v - 0x1_0000;
            out.push((0xD800 + w / 0x400) as u16);
            out.push((0xDC00 + w % 0x400) as u16);
        }
        assert(out@ =~= utf16_of(s@.take(it.index() + 1)));
    }
    assert(s@.take(s@.len() as int) =~= s@);
    out.push(0u16);
    out
}

impl FString {
    /// The UTF-16 encoding of `s` with a terminator; its length is taken
    /// modulo 2^32, as the 32-bit length field holds it.
    pub fn to_wide(s: &str) -> (r: FString)
        ensures
            r.wf(),
            r.string matches Some(v) && v@ == utf16_of(s@).push(0u16),
            r.length as int == (utf16_of(s@).len() + 1) % 0x1_0000_0000,
            r.max_size == r.length,
    {
        let wide = encode_utf16_z(s);
        let n = (wide.len() as u64 % 0x1_0000_0000) as u32;
        FString { string: Some(wide), length: n, max_size: n }
    }
}

} // verus!
