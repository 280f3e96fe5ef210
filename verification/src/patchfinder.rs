use vstd::prelude::*;
use vstd::string::StringSliceAdditionalSpecFns;

use crate::pe::{
    le_u32, le_u64, signed32, spec_section_range, wrap64, ImageInfo, ImageMemory, MemoryWindow,
};

verus! {

/// The value of an ASCII hex digit, if `b` is one.
pub open spec fn hex_value(b: u8) -> Option<u8> {
    if 48 <= b <= 57 {
        Some((b - 48) as u8)
    } else if 97 <= b <= 102 {
        Some((b - 97 + 10) as u8)
    } else if 65 <= b <= 70 {
        Some((b - 65 + 10) as u8)
    } else {
        None
    }
}

/// Nibble value of a hex digit, or `0xFF` for any other byte.
pub fn hex_to_nibble(b: u8) -> (r: u8)
    ensures
        r == (match hex_value(b) {
            Some(v) => v,
            None => 0xFFu8,
        }),
{
    if b >= 48 && b <= 57 {
        b - 48
    } else if b >= 97 && b <= 102 {
        b - 97 + 10
    } else if b >= 65 && b <= 70 {
        b - 65 + 10
    } else {
        0xFF
    }
}


/// The token that the two characters at `i` make: a byte when both are hex
/// digits, otherwise a wildcard.
pub open spec fn token_at(s: Seq<u8>, i: int) -> Option<u8> {
    let hi = hex_value(s[i]);
    let lo = if i + 1 < s.len() {
        hex_value(s[i + 1])
    } else {
        None
    };
    match (hi, lo) {
        (Some(h), Some(l)) => Some((h * 16 + l) as u8),
        _ => None,
    }
}

/// The tokens of a pattern text from `i` on: spaces are skipped, every other
/// character starts a two-character token.
pub open spec fn tokens_from(s: Seq<u8>, i: int) -> Seq<Option<u8>>
    decreases s.len() + 1 - i,
{
    if i < 0 || i >= s.len() {
        Seq::empty()
    } else if s[i] == 32 {
        tokens_from(s, i + 1)
    } else {
        seq![token_at(s, i)] + tokens_from(s, i + 2)
    }
}

/// Bit `i` of `b` is set.
pub open spec fn bit_set(b: u8, i: int) -> bool {
    b & (1u8 << (i as u8)) != 0
}

/// Bit `k` of a bit set stored as bytes, lowest bit first.
pub open spec fn enabled_bit(enabled: Seq<u8>, k: int) -> bool {
    bit_set(enabled[k / 8], k % 8)
}

/// A byte signature of at most 256 positions; wildcard positions have their
/// bit clear in `enabled`.
pub struct ParsedPattern {
    pub bytes: [u8; 256],
    pub enabled: [u8; 32],
    pub count: usize,
}

impl View for ParsedPattern {
    /// The positions in order: the byte to match, or `None` for a wildcard.
    type V = Seq<Option<u8>>;

    open spec fn view(&self) -> Seq<Option<u8>> {
        Seq::new(
            self.count as nat,
            |k: int|
                if self.is_enabled(k) {
                    Some(self.bytes@[k])
                } else {
                    None
                },
        )
    }
}

/// The positions that `parse_pattern` keeps of a pattern text: its tokens,
/// at most 256 of them.
pub open spec fn pattern_tokens(s: Seq<u8>) -> Seq<Option<u8>> {
    let t = tokens_from(s, 0);
    if t.len() < 256 {
        t
    } else {
        t.take(256)
    }
}

impl ParsedPattern {
    pub open spec fn wf(&self) -> bool {
        self.count <= 256
    }

    /// Position `k` must match.
    pub open spec fn is_enabled(&self, k: int) -> bool {
        enabled_bit(self.enabled@, k)
    }

    /// The empty pattern.
    pub fn new() -> (r: ParsedPattern)
        ensures
            r.wf(),
            r.count == 0,
            forall|k: int| 0 <= k < 256 ==> r.bytes@[k] == 0,
            forall|k: int| 0 <= k < 32 ==> r.enabled@[k] == 0,
    {
        ParsedPattern { bytes: [0u8; 256], enabled: [0u8; 32], count: 0 }
    }
}

proof fn lemma_set_bit(b: u8, i: u8, j: u8)
    requires
        i < 8,
        j < 8,
    ensures
        ((b | (1u8 << i)) & (1u8 << j) != 0) == (i == j || b & (1u8 << j) != 0),
{
    assert(((b | (1u8 << i)) & (1u8 << j) != 0) == (i == j || b & (1u8 << j) != 0)) by (bit_vector)
        requires
            i < 8,
            j < 8,
    ;
}

proof fn lemma_combine_nibbles(h: u8, l: u8)
    requires
        h < 16,
        l < 16,
    ensures
        (h << 4) | l == h * 16 + l,
{
    assert((h << 4) | l == h * 16 + l) by (bit_vector)
        requires
            h < 16,
            l < 16,
    ;
}

/// Parses a signature such as `"48 8B ? 05"`: two hex digits make a byte,
/// anything else (such as `?`) a wildcard; at most 256 positions are kept.
pub fn parse_pattern(pattern: &str) -> (r: ParsedPattern)
    ensures
        r.wf(),
        r@ == pattern_tokens(pattern.spec_bytes()),
        ({
            let t = tokens_from(pattern.spec_bytes(), 0);
            &&& r.count == if t.len() < 256 {
                t.len() as int
            } else {
                256
            }
            &&& forall|k: int|
                0 <= k < 256 ==> (#[trigger] r.is_enabled(k) <==> (k < r.count && t[k] is Some))
            &&& forall|k: int|
                0 <= k < 256 ==> #[trigger] r.bytes@[k] == (if k < r.count && t[k] is Some {
                    t[k]->0
                } else {
                    0u8
                })
        }),
{
    let b = pattern.as_bytes();
    let len = b.len();
    let ghost t = tokens_from(b@, 0);
    let mut bytes = [0u8; 256];
    let mut enabled = [0u8; 32];
    let mut i: usize = 0;
    let mut idx: usize = 0;
    let ghost mut done: Seq<Option<u8>> = Seq::empty();
    proof {
        assert forall|k: int| 0 <= k < 256 implies !#[trigger] enabled_bit(enabled@, k) by {
            let j = (k % 8) as u8;
            assert(0u8 & (1u8 << j) == 0) by (bit_vector);
        }
    }
    while i < len && idx < 256
        invariant
            b@ == pattern.spec_bytes(),
            len == b@.len(),
            i <= len,
            idx <= 256,
            done.len() == idx,
            t == tokens_from(b@, 0),
            t == done + tokens_from(b@, i as int),
            forall|k: int|
                0 <= k < 256 ==> (#[trigger] enabled_bit(enabled@, k) <==> (k < idx && done[k] is Some)),
            forall|k: int|
                0 <= k < 256 ==> #[trigger] bytes@[k] == (if k < idx && done[k] is Some {
                    done[k]->0
                } else {
                    0u8
                }),
        decreases len + 2 - i,
    {
        if b[i] == 32 {
            i = i + 1;
            continue;
        }
        let ghost tok = token_at(b@, i as int);
        let b1 = hex_to_nibble(b[i]);
        let b2 = if i + 1 < len {
            hex_to_nibble(b[i + 1])
        } else {
            0xFF
        };
        if b1 == 0xFF || b2 == 0xFF {
            assert(tok is None);
            bytes[idx] = 0;
        } else {
            proof {
                lemma_combine_nibbles(b1, b2);
            }
            bytes[idx] = (b1 << 4) | b2;
            let byte_idx = idx / 8;
            let bit_idx = (idx % 8) as u8;
            let old_byte = enabled[byte_idx];
            let ghost old_enabled = enabled@;
            enabled[byte_idx] = old_byte | (1u8 << bit_idx);
            proof {
                assert forall|k: int| 0 <= k < 256 implies (#[trigger] enabled_bit(enabled@, k)
                    <==> (enabled_bit(old_enabled, k) || k == idx)) by {
                    if k / 8 == byte_idx {
                        lemma_set_bit(old_byte, bit_idx, (k % 8) as u8);
                    }
                }
            }
        }
        proof {
            done = done.push(tok);
            assert(tokens_from(b@, i as int) == seq![tok] + tokens_from(b@, i + 2));
            assert(t =~= done + tokens_from(b@, i + 2));
            if i + 2 > len {
                assert(tokens_from(b@, i + 2) =~= tokens_from(b@, len as int));
            }
        }
        idx = idx + 1;
        i = if len - i >= 2 {
            i + 2
        } else {
            len
        };
        if i < len && b[i] == 32 {
            i = i + 1;
        }
    }
    proof {
        if i >= len {
            assert(t =~= done);
        } else {
            assert(t.take(256) =~= done);
        }
    }
    let r = ParsedPattern { bytes, enabled, count: idx };
    assert(r@ =~= pattern_tokens(pattern.spec_bytes()));
    r
}


/// `w` (at least as long as `p`) agrees with every non-wildcard position of `p`.
pub open spec fn pattern_matches(w: Seq<u8>, p: Seq<Option<u8>>) -> bool {
    forall|j: int| 0 <= j < p.len() && #[trigger] p[j] is Some ==> w[j] == p[j]->0
}

/// `p` matches `data` at offset `o`.
pub open spec fn matches_at(data: Seq<u8>, p: Seq<Option<u8>>, o: int) -> bool {
    0 <= o && o + p.len() <= data.len() && pattern_matches(data.subrange(o, o + p.len()), p)
}

/// The first offset from `o` on where `p` matches `data`.
pub open spec fn first_match_from(data: Seq<u8>, p: Seq<Option<u8>>, o: int) -> Option<int>
    decreases data.len() - o,
{
    if o < 0 || o >= data.len() || o + p.len() > data.len() {
        None
    } else if matches_at(data, p, o) {
        Some(o)
    } else {
        first_match_from(data, p, o + 1)
    }
}

/// Some position of `p` is not a wildcard.
pub open spec fn has_enabled(p: Seq<Option<u8>>) -> bool {
    exists|j: int| 0 <= j < p.len() && #[trigger] p[j] is Some
}

/// Address of the first match of `p` in the `data` at `address`, or 0; a
/// pattern of wildcards only finds nothing.
pub open spec fn spec_find_pattern(address: int, data: Seq<u8>, p: Seq<Option<u8>>) -> int {
    if p.len() == 0 || !has_enabled(p) {
        0
    } else {
        match first_match_from(data, p, 0) {
            Some(o) => address + o,
            None => 0,
        }
    }
}

proof fn lemma_first_match_from(data: Seq<u8>, p: Seq<Option<u8>>, o: int)
    requires
        0 <= o,
        p.len() > 0,
    ensures
        first_match_from(data, p, o) matches Some(k) ==> o <= k && matches_at(data, p, k)
            && forall|j: int| o <= j < k ==> !#[trigger] matches_at(data, p, j),
        first_match_from(data, p, o) is None ==> forall|j: int|
            o <= j ==> !#[trigger] matches_at(data, p, j),
    decreases data.len() - o,
{
    if o < data.len() && o + p.len() <= data.len() && !matches_at(data, p, o) {
        lemma_first_match_from(data, p, o + 1);
    }
}

/// A signature scan finds the first place where the signature matches:
/// the result is a match, and no earlier offset matches; a result of 0
/// (from a signature with some fixed byte) means no offset matches.
pub proof fn law_find_pattern_is_first_match(address: int, data: Seq<u8>, p: Seq<Option<u8>>)
    requires
        p.len() > 0,
        has_enabled(p),
    ensures
        match first_match_from(data, p, 0) {
            Some(o) => spec_find_pattern(address, data, p) == address + o && matches_at(data, p, o)
                && forall|j: int| 0 <= j < o ==> !#[trigger] matches_at(data, p, j),
            None => spec_find_pattern(address, data, p) == 0 && forall|j: int|
                0 <= j ==> !#[trigger] matches_at(data, p, j),
        },
{
    lemma_first_match_from(data, p, 0);
}

/// Bit `k` of the enabled set, computed as the scanner computes it.
fn pattern_enabled(p: &ParsedPattern, k: usize) -> (r: bool)
    requires
        k < 256,
    ensures
        r == p.is_enabled(k as int),
{
    p.enabled[k / 8] & (1u8 << ((k % 8) as u8)) != 0
}

/// Whether `p` matches `data` at `offset`.
fn check_pattern(data: &[u8], offset: usize, p: &ParsedPattern) -> (r: bool)
    requires
        p.wf(),
        offset + p.count <= data@.len(),
    ensures
        r == matches_at(data@, p@, offset as int),
{
    let ghost w = data@.subrange(offset as int, offset + p.count);
    let dlen = data.len();
    let mut j: usize = 0;
    while j < p.count
        invariant
            dlen == data@.len(),
            p.wf(),
            offset + p.count <= data@.len(),
            w == data@.subrange(offset as int, offset + p.count),
            j <= p.count,
            forall|k: int| 0 <= k < j && #[trigger] p@[k] is Some ==> w[k] == p@[k]->0,
        decreases p.count - j,
    {
        if pattern_enabled(p, j) {
            if data[offset + j] != p.bytes[j] {
                assert(p@[j as int] is Some);
                assert(w[j as int] != p@[j as int]->0);
                return false;
            }
        }
        j = j + 1;
    }
    true
}

/// Address of the first place in `text` where `pattern` matches, or 0.
pub fn find_pattern(text: &MemoryWindow, pattern: &ParsedPattern) -> (r: u64)
    requires
        text.wf(),
        pattern.wf(),
    ensures
        r == spec_find_pattern(text.address as int, text.bytes@, pattern@),
{
    let data = text.bytes;
    let count = pattern.count;
    if count == 0 {
        return 0;
    }
    if data.len() < count {
        proof {
            assert(first_match_from(data@, pattern@, 0) is None);
        }
        return 0;
    }
    let limit = data.len() - count;
    let mut first_enabled: usize = 0;
    while first_enabled < count && !pattern_enabled(pattern, first_enabled)
        invariant
            first_enabled <= count <= 256,
            forall|k: int| 0 <= k < first_enabled ==> !#[trigger] pattern.is_enabled(k),
        decreases count - first_enabled,
    {
        first_enabled = first_enabled + 1;
    }
    if first_enabled >= count {
        proof {
            assert forall|k: int| 0 <= k < pattern@.len() implies !(#[trigger] pattern@[k] is Some) by {
                assert(!pattern.is_enabled(k));
            }
        }
        return 0;
    }
    assert(pattern@[first_enabled as int] is Some);
    let target = pattern.bytes[first_enabled];
    let dlen = data.len();
    let mut j: usize = 0;
    while j <= limit
        invariant
            dlen == data@.len(),
            text.wf(),
            pattern.wf(),
            data@ == text.bytes@,
            count == pattern.count,
            limit + count == data@.len(),
            first_enabled < count,
            pattern.is_enabled(first_enabled as int),
            target == pattern.bytes@[first_enabled as int],
            pattern@[first_enabled as int] is Some,
            first_match_from(data@, pattern@, 0) == first_match_from(data@, pattern@, j as int),
        decreases limit + 1 - j,
    {
        if data[j + first_enabled] == target && check_pattern(data, j, pattern) {
            return text.address + j as u64;
        }
        proof {
            if data@[j + first_enabled] != target {
                assert(data@.subrange(j as int, j + count)[first_enabled as int] != target);
            }
        }
        j = j + 1;
    }
    0
}

/// `b` is a REX.W prefix (`0x48` or `0x4C`), as in front of a RIP-relative `lea`.
pub open spec fn spec_is_rip_lea_prefix(b: u8) -> bool {
    b & 0xFB == 0x48
}

fn is_rip_lea_prefix(b: u8) -> (r: bool)
    ensures
        r == spec_is_rip_lea_prefix(b),
{
    b & 0xFB == 0x48
}

/// Where the RIP-relative `lea` whose opcode is at `pos` of the code at
/// `address` points: the end of the instruction plus its 32-bit displacement.
pub open spec fn lea_target(address: int, code: Seq<u8>, pos: int) -> int {
    wrap64(address + pos + 6 + signed32(le_u32(code.subrange(pos + 2, pos + 6))))
}

/// At `pos` of the code stands a `lea` opcode behind a REX.W prefix, and it
/// points into `.rdata` at a copy of `needle`.
pub open spec fn string_ref_at(
    taddr: int,
    code: Seq<u8>,
    raddr: int,
    rdata: Seq<u8>,
    needle: Seq<u8>,
    pos: int,
) -> bool {
    let t = lea_target(taddr, code, pos);
    &&& 1 <= pos < code.len() - 6
    &&& code[pos] == 0x8D
    &&& spec_is_rip_lea_prefix(code[pos - 1])
    &&& raddr <= t
    &&& t + needle.len() <= raddr + rdata.len()
    &&& rdata.subrange(t - raddr, t - raddr + needle.len()) == needle
}

/// The first opcode position from `pos` on that references `needle`.
pub open spec fn first_string_ref_from(
    taddr: int,
    code: Seq<u8>,
    raddr: int,
    rdata: Seq<u8>,
    needle: Seq<u8>,
    pos: int,
) -> Option<int>
    decreases code.len() - pos,
{
    if pos < 0 || pos >= code.len() {
        None
    } else if string_ref_at(taddr, code, raddr, rdata, needle, pos) {
        Some(pos)
    } else {
        first_string_ref_from(taddr, code, raddr, rdata, needle, pos + 1)
    }
}

/// Address of the first `lea` (prefix included) in the code at `taddr` that
/// loads the address of a copy of `needle` in the `.rdata` at `raddr`, or 0.
pub open spec fn spec_find_string_ref(
    taddr: int,
    code: Seq<u8>,
    raddr: int,
    rdata: Seq<u8>,
    needle: Seq<u8>,
) -> int {
    if needle.len() == 0 || rdata.len() < needle.len() || code.len() < 7 {
        0
    } else {
        match first_string_ref_from(taddr, code, raddr, rdata, needle, 0) {
            Some(pos) => taddr + pos - 1,
            None => 0,
        }
    }
}

/// Whether the `lea` at `pos` references `needle`.
fn check_string_ref(text: &MemoryWindow, rdata: &MemoryWindow, needle: &[u8], pos: usize) -> (r: bool)
    requires
        text.wf(),
        rdata.wf(),
        pos < text.bytes@.len(),
        text.bytes@[pos as int] == 0x8D,
    ensures
        r == string_ref_at(
            text.address as int,
            text.bytes@,
            rdata.address as int,
            rdata.bytes@,
            needle@,
            pos as int,
        ),
{
    let code = text.bytes;
    if pos < 1 || code.len() < 7 || pos >= code.len() - 6 {
        return false;
    }
    if !is_rip_lea_prefix(code[pos - 1]) {
        return false;
    }
    let raw = code[pos + 2] as u32 + 256 * (code[pos + 3] as u32) + 0x1_0000 * (code[pos + 4] as u32)
        + 0x100_0000 * (code[pos + 5] as u32);
    let disp: i64 = if raw >= 0x8000_0000 {
        raw as i64 - 0x1_0000_0000
    } else {
        raw as i64
    };
    let next = text.address + (pos + 6) as u64;
    let target = next.wrapping_add_signed(disp);
    assert(target == lea_target(text.address as int, code@, pos as int));
    match rdata.window(target, needle.len() as u64) {
        None => false,
        Some(w) => bytes_equal(w.bytes, needle),
    }
}

/// The two slices hold the same bytes.
fn bytes_equal(a: &[u8], b: &[u8]) -> (r: bool)
    requires
        a@.len() == b@.len(),
    ensures
        r == (a@ == b@),
{
    let mut i: usize = 0;
    while i < a.len()
        invariant
            a@.len() == b@.len(),
            i <= a@.len(),
            forall|k: int| 0 <= k < i ==> a@[k] == b@[k],
        decreases a@.len() - i,
    {
        if a[i] != b[i] {
            return false;
        }
        i = i + 1;
    }
    assert(a@ =~= b@);
    true
}

/// Address of the first RIP-relative `lea` in `text` that loads the address
/// of a copy of `needle` in `rdata`, or 0.
fn find_string_ref(text: &MemoryWindow, rdata: &MemoryWindow, needle: &[u8]) -> (r: u64)
    requires
        text.wf(),
        rdata.wf(),
    ensures
        r == spec_find_string_ref(
            text.address as int,
            text.bytes@,
            rdata.address as int,
            rdata.bytes@,
            needle@,
        ),
{
    let code = text.bytes;
    if needle.len() == 0 || rdata.bytes.len() < needle.len() {
        return 0;
    }
    if code.len() < 7 {
        return 0;
    }
    let ghost taddr = text.address as int;
    let ghost raddr = rdata.address as int;
    let mut pos: usize = 0;
    while pos < code.len()
        invariant
            text.wf(),
            rdata.wf(),
            code@ == text.bytes@,
            code@.len() >= 7,
            needle@.len() > 0,
            rdata.bytes@.len() >= needle@.len(),
            first_string_ref_from(taddr, code@, raddr, rdata.bytes@, needle@, 0)
                == first_string_ref_from(taddr, code@, raddr, rdata.bytes@, needle@, pos as int),
            taddr == text.address,
            raddr == rdata.address,
        decreases code@.len() - pos,
    {
        if code[pos] == 0x8D && check_string_ref(text, rdata, needle, pos) {
            return text.address + pos as u64 - 1;
        }
        pos = pos + 1;
    }
    0
}

/// The address that `offset` bytes up from (or, with `upwards` false, down
/// from) `base` names, with wrapping arithmetic.
pub open spec fn offset_address(base: int, offset: int, upwards: bool) -> int {
    if upwards {
        wrap64(base - offset)
    } else {
        wrap64(base + offset)
    }
}

/// `bytes` stand at the address `offset` from `base`: an empty byte string
/// stands everywhere, others where the window holds them.
pub open spec fn bytes_at(mem: MemoryWindow, base: int, offset: int, bytes: Seq<u8>, upwards: bool) -> bool {
    bytes.len() == 0 || mem.holds(offset_address(base, offset, upwards), bytes)
}

/// Whether `bytes` stand at the address `offset` before `base` (`upwards`)
/// or after it; an empty byte string matches at any address, and bytes that
/// the window does not hold never match.
pub fn check_bytes_at(mem: &MemoryWindow, base: u64, offset: i32, bytes: &[u8], upwards: bool) -> (r:
    bool)
    requires
        mem.wf(),
    ensures
        r == bytes_at(*mem, base as int, offset as int, bytes@, upwards),
{
    let addr = if upwards {
        base.wrapping_add_signed(-(offset as i64))
    } else {
        base.wrapping_add_signed(offset as i64)
    };
    if bytes.len() == 0 {
        return true;
    }
    match mem.window(addr, bytes.len() as u64) {
        None => false,
        Some(w) => bytes_equal(w.bytes, bytes),
    }
}


/// The bytes of UTF-16 units, low byte first.
pub open spec fn wide_bytes(s: Seq<u16>) -> Seq<u8> {
    Seq::new(
        2 * s.len(),
        |k: int|
            if k % 2 == 0 {
                (s[k / 2] % 256) as u8
            } else {
                (s[k / 2] / 256) as u8
            },
    )
}

/// Address of the first `lea` in the image's `.text` that loads the address
/// of a copy of `needle` in its `.rdata`, or 0 (also when the image lacks a
/// section, or the window lacks its bytes).
pub open spec fn spec_string_ref_in_image(mem: ImageMemory, base: int, needle: Seq<u8>) -> int {
    match (
        spec_section_range(mem.window, mem.regions@, base, ".text".spec_bytes()),
        spec_section_range(mem.window, mem.regions@, base, ".rdata".spec_bytes()),
    ) {
        (Some((ta, ts)), Some((ra, rs))) => if mem.window.covers(ta, ts) && mem.window.covers(
            ra,
            rs,
        ) {
            spec_find_string_ref(ta, mem.window.slice_at(ta, ts), ra, mem.window.slice_at(ra, rs), needle)
        } else {
            0
        },
        _ => 0,
    }
}

fn string_ref_in_image(image: &ImageInfo, mem: &ImageMemory, needle: &[u8]) -> (r: u64)
    requires
        mem.wf(),
    ensures
        r == spec_string_ref_in_image(*mem, image.base as int, needle@),
{
    let (ts, tsize) = match image.text_section(mem) {
        Some(s) => s,
        None => {
            return 0;
        },
    };
    let (rs, rsize) = match image.rdata_section(mem) {
        Some(s) => s,
        None => {
            return 0;
        },
    };
    let text = match mem.window.window(ts, tsize as u64) {
        Some(w) => w,
        None => {
            return 0;
        },
    };
    let rdata = match mem.window.window(rs, rsize as u64) {
        Some(w) => w,
        None => {
            return 0;
        },
    };
    find_string_ref(&text, &rdata, needle)
}

/// Address of the first `lea` in `.text` that loads the address of the
/// UTF-16 string `string` (compared byte for byte) in `.rdata`, or 0.
pub fn find_string_ref_wide(image: &ImageInfo, mem: &ImageMemory, string: &[u16]) -> (r: u64)
    requires
        mem.wf(),
    ensures
        r == spec_string_ref_in_image(*mem, image.base as int, wide_bytes(string@)),
{
    let mut needle: Vec<u8> = Vec::new();
    let mut i: usize = 0;
    while i < string.len()
        invariant
            i <= string@.len(),
            needle@ =~= wide_bytes(string@.take(i as int)),
        decreases string@.len() - i,
    {
        let c = string[i];
        needle.push((c % 256) as u8);
        needle.push((c / 256) as u8);
        i = i + 1;
        assert(needle@ =~= wide_bytes(string@.take(i as int)));
    }
    assert(string@.take(string@.len() as int) =~= string@);
    string_ref_in_image(image, mem, needle.as_slice())
}

/// Address of the first `lea` in `.text` that loads the address of the byte
/// string `string` in `.rdata`, or 0.
pub fn find_string_ref_ascii(image: &ImageInfo, mem: &ImageMemory, string: &[u8]) -> (r: u64)
    requires
        mem.wf(),
    ensures
        r == spec_string_ref_in_image(*mem, image.base as int, string@),
{
    string_ref_in_image(image, mem, string)
}

/// The first qword index from `i` on whose little-endian value is `f`.
pub open spec fn first_qword_from(data: Seq<u8>, f: int, i: int) -> Option<int>
    decreases data.len() / 8 - i,
{
    if i < 0 || i >= data.len() / 8 {
        None
    } else if le_u64(data.subrange(8 * i, 8 * i + 8)) == f {
        Some(i)
    } else {
        first_qword_from(data, f, i + 1)
    }
}

/// Address of the first 8-aligned slot (from the start) of the data at
/// `address` that holds `f`, or 0.
pub open spec fn spec_find_vtable_entry(address: int, data: Seq<u8>, f: int) -> int {
    match first_qword_from(data, f, 0) {
        Some(i) => address + 8 * i,
        None => 0,
    }
}

/// Address of the first pointer slot in `rdata` that holds `func_addr`, or 0.
pub fn find_vtable_entry(rdata: &MemoryWindow, func_addr: u64) -> (r: u64)
    requires
        rdata.wf(),
    ensures
        r == spec_find_vtable_entry(rdata.address as int, rdata.bytes@, func_addr as int),
{
    let count = rdata.bytes.len() / 8;
    let mut i: usize = 0;
    while i < count
        invariant
            rdata.wf(),
            count == rdata.bytes@.len() / 8,
            first_qword_from(rdata.bytes@, func_addr as int, 0) == first_qword_from(
                rdata.bytes@,
                func_addr as int,
                i as int,
            ),
        decreases count - i,
    {
        let addr = rdata.address + 8 * i as u64;
        let v = rdata.read_u64(addr);
        assert(rdata.slice_at(addr as int, 8) =~= rdata.bytes@.subrange(8 * i, 8 * i + 8));
        if v == Some(func_addr) {
            return addr;
        }
        i = i + 1;
    }
    0
}

/// A frame setup (`mov r11, rsp`, `mov rax, rsp` or `mov [rsp+..], rbx`) at
/// `k` bytes before `r`.
pub open spec fn frame_setup_at(mem: MemoryWindow, r: int, k: int) -> bool {
    ||| bytes_at(mem, r, k, seq![0x4Cu8, 0x8Bu8, 0xDCu8], true)
    ||| bytes_at(mem, r, k, seq![0x48u8, 0x8Bu8, 0xC4u8], true)
    ||| bytes_at(mem, r, k, seq![0x48u8, 0x89u8, 0x5Cu8], true)
}

/// A `sub rsp, imm` at `k` bytes before `r`.
pub open spec fn stack_alloc_at(mem: MemoryWindow, r: int, k: int) -> bool {
    ||| bytes_at(mem, r, k, seq![0x48u8, 0x81u8, 0xECu8], true)
    ||| bytes_at(mem, r, k, seq![0x48u8, 0x83u8, 0xECu8], true)
}

/// Behind a stack allocation at `i`: the first of the next 50 offsets from
/// `i` (from `i + x` on) with a frame setup or a REX prefix.
pub open spec fn prologue_hit_from(mem: MemoryWindow, r: int, i: int, x: int) -> Option<int>
    decreases 50 - x,
{
    if x < 0 || x >= 50 {
        None
    } else if frame_setup_at(mem, r, i + x) || bytes_at(mem, r, i + x, seq![0x40u8], true) {
        Some(i + x)
    } else {
        prologue_hit_from(mem, r, i, x + 1)
    }
}

/// What the search decides at offset `i` before `r`.
pub open spec fn prologue_step(mem: MemoryWindow, r: int, i: int, is_eos: bool) -> Option<int> {
    if is_eos {
        if bytes_at(mem, r, i, seq![0x48u8, 0x89u8, 0x5Cu8], true) {
            Some(i)
        } else {
            None
        }
    } else if frame_setup_at(mem, r, i) {
        Some(i)
    } else if stack_alloc_at(mem, r, i) {
        prologue_hit_from(mem, r, i, 0)
    } else {
        None
    }
}

/// The distance before `r` of the first prologue found from offset `i` on,
/// among the first 4096.
pub open spec fn prologue_from(mem: MemoryWindow, r: int, is_eos: bool, i: int) -> Option<int>
    decreases 4096 - i,
{
    if i < 0 || i >= 4096 {
        None
    } else {
        match prologue_step(mem, r, i, is_eos) {
            Some(k) => Some(k),
            None => prologue_from(mem, r, is_eos, i + 1),
        }
    }
}

/// Start of the function around `r`, or 0.
pub open spec fn spec_find_function_prologue(mem: MemoryWindow, r: int, is_eos: bool) -> int {
    match prologue_from(mem, r, is_eos, 0) {
        Some(k) => wrap64(r - k),
        None => 0,
    }
}

fn frame_setup(mem: &MemoryWindow, r: u64, k: i32) -> (b: bool)
    requires
        mem.wf(),
    ensures
        b == frame_setup_at(*mem, r as int, k as int),
{
    let a: [u8; 3] = [0x4C, 0x8B, 0xDC];
    let b: [u8; 3] = [0x48, 0x8B, 0xC4];
    let c: [u8; 3] = [0x48, 0x89, 0x5C];
    assert(a@ =~= seq![0x4Cu8, 0x8Bu8, 0xDCu8]);
    assert(b@ =~= seq![0x48u8, 0x8Bu8, 0xC4u8]);
    assert(c@ =~= seq![0x48u8, 0x89u8, 0x5Cu8]);
    check_bytes_at(mem, r, k, a.as_slice(), true) || check_bytes_at(mem, r, k, b.as_slice(), true)
        || check_bytes_at(mem, r, k, c.as_slice(), true)
}

fn stack_alloc(mem: &MemoryWindow, r: u64, k: i32) -> (b: bool)
    requires
        mem.wf(),
    ensures
        b == stack_alloc_at(*mem, r as int, k as int),
{
    let a: [u8; 3] = [0x48, 0x81, 0xEC];
    let b: [u8; 3] = [0x48, 0x83, 0xEC];
    assert(a@ =~= seq![0x48u8, 0x81u8, 0xECu8]);
    assert(b@ =~= seq![0x48u8, 0x83u8, 0xECu8]);
    check_bytes_at(mem, r, k, a.as_slice(), true) || check_bytes_at(mem, r, k, b.as_slice(), true)
}

/// Start of the function that holds the instruction at `str_ref`: walking
/// back up to 4096 bytes, the first frame setup, or behind a stack
/// allocation the first frame setup or REX prefix of the next 50 bytes; for
/// the EOS SDK only `mov [rsp+..], rbx` counts. 0 when none is found.
pub fn find_function_prologue(mem: &MemoryWindow, str_ref: u64, is_eos: bool) -> (r: u64)
    requires
        mem.wf(),
    ensures
        r == spec_find_function_prologue(*mem, str_ref as int, is_eos),
{
    let eos_frame: [u8; 3] = [0x48, 0x89, 0x5C];
    let rex: [u8; 1] = [0x40];
    assert(eos_frame@ =~= seq![0x48u8, 0x89u8, 0x5Cu8]);
    assert(rex@ =~= seq![0x40u8]);
    let ghost g = *mem;
    let ghost rr = str_ref as int;
    let mut i: i32 = 0;
    while i < 4096
        invariant
            0 <= i <= 4096,
            mem.wf(),
            g == *mem,
            rr == str_ref,
            eos_frame@ == seq![0x48u8, 0x89u8, 0x5Cu8],
            rex@ == seq![0x40u8],
            prologue_from(g, rr, is_eos, 0) == prologue_from(g, rr, is_eos, i as int),
        decreases 4096 - i,
    {
        if is_eos {
            if check_bytes_at(mem, str_ref, i, eos_frame.as_slice(), true) {
                return str_ref.wrapping_sub(i as u64);
            }
        } else {
            if frame_setup(mem, str_ref, i) {
                return str_ref.wrapping_sub(i as u64);
            }
            if stack_alloc(mem, str_ref, i) {
                let mut x: i32 = 0;
                while x < 50
                    invariant
                        0 <= x <= 50,
                        0 <= i < 4096,
                        mem.wf(),
                        g == *mem,
                        rr == str_ref,
                        rex@ == seq![0x40u8],
                        !is_eos,
                        !frame_setup_at(g, rr, i as int),
                        stack_alloc_at(g, rr, i as int),
                        prologue_from(g, rr, is_eos, 0) == prologue_from(g, rr, is_eos, i as int),
                        prologue_hit_from(g, rr, i as int, 0) == prologue_hit_from(
                            g,
                            rr,
                            i as int,
                            x as int,
                        ),
                    decreases 50 - x,
                {
                    let inner = i + x;
                    if frame_setup(mem, str_ref, inner) || check_bytes_at(
                        mem,
                        str_ref,
                        inner,
                        rex.as_slice(),
                        true,
                    ) {
                        return str_ref.wrapping_sub(inner as u64);
                    }
                    x = x + 1;
                }
            }
        }
        i = i + 1;
    }
    0
}


/// Address of the first match of `p` in the image's `.text`, or 0 (also when
/// the image has no `.text`, or the window lacks its bytes).
pub open spec fn spec_pattern_in_text(mem: ImageMemory, base: int, p: Seq<Option<u8>>) -> int {
    match spec_section_range(mem.window, mem.regions@, base, ".text".spec_bytes()) {
        Some((a, s)) => if mem.window.covers(a, s) {
            spec_find_pattern(a, mem.window.slice_at(a, s), p)
        } else {
            0
        },
        None => 0,
    }
}

/// Address of the first match of `pattern` in the image's `.text`, or 0.
pub fn find_pattern_in_text(image: &ImageInfo, mem: &ImageMemory, pattern: &ParsedPattern) -> (r:
    u64)
    requires
        mem.wf(),
        pattern.wf(),
    ensures
        r == spec_pattern_in_text(*mem, image.base as int, pattern@),
{
    let (ts, tsize) = match image.text_section(mem) {
        Some(s) => s,
        None => {
            return 0;
        },
    };
    match mem.window.window(ts, tsize as u64) {
        Some(text) => find_pattern(&text, pattern),
        None => 0,
    }
}


/// Some frame setup or stack allocation stands `j` bytes before `r`.
pub open spec fn prologue_marker_before(mem: MemoryWindow, r: int, j: int) -> bool {
    let a = wrap64(r - j);
    ||| mem.holds(a, seq![0x4Cu8, 0x8Bu8, 0xDCu8])
    ||| mem.holds(a, seq![0x48u8, 0x8Bu8, 0xC4u8])
    ||| mem.holds(a, seq![0x48u8, 0x89u8, 0x5Cu8])
    ||| mem.holds(a, seq![0x48u8, 0x81u8, 0xECu8])
    ||| mem.holds(a, seq![0x48u8, 0x83u8, 0xECu8])
}

proof fn lemma_walk_past_plain_code(mem: MemoryWindow, r: int, k: int, i: int)
    requires
        0 <= i <= k < 4096,
        forall|j: int| i <= j < k ==> !#[trigger] prologue_marker_before(mem, r, j),
    ensures
        prologue_from(mem, r, false, i) == prologue_from(mem, r, false, k),
    decreases k - i,
{
    if i < k {
        assert(!prologue_marker_before(mem, r, i));
        lemma_walk_past_plain_code(mem, r, k, i + 1);
    }
}

/// Walking back from a reference outside the EOS SDK, the function starts at
/// the nearest frame setup (`mov r11, rsp`, `mov rax, rsp` or
/// `mov [rsp+..], rbx`): when one of them stands `k` bytes before `r`
/// (`k` below 4096) and no frame setup or stack allocation stands closer,
/// the start found is `r - k`.
pub proof fn law_prologue_is_nearest_frame_setup(mem: MemoryWindow, r: int, k: int, setup: Seq<u8>)
    requires
        0 <= k < 4096,
        setup == seq![0x4Cu8, 0x8Bu8, 0xDCu8] || setup == seq![0x48u8, 0x8Bu8, 0xC4u8] || setup
            == seq![0x48u8, 0x89u8, 0x5Cu8],
        mem.holds(wrap64(r - k), setup),
        forall|j: int| 0 <= j < k ==> !#[trigger] prologue_marker_before(mem, r, j),
    ensures
        spec_find_function_prologue(mem, r, false) == wrap64(r - k),
{
    lemma_walk_past_plain_code(mem, r, k, 0);
    assert(frame_setup_at(mem, r, k));
}

proof fn lemma_walk_past_eos_code(mem: MemoryWindow, r: int, k: int, i: int)
    requires
        0 <= i <= k < 4096,
        forall|j: int|
            i <= j < k ==> !mem.holds(#[trigger] wrap64(r - j), seq![0x48u8, 0x89u8, 0x5Cu8]),
    ensures
        prologue_from(mem, r, true, i) == prologue_from(mem, r, true, k),
    decreases k - i,
{
    if i < k {
        assert(!mem.holds(wrap64(r - i), seq![0x48u8, 0x89u8, 0x5Cu8]));
        lemma_walk_past_eos_code(mem, r, k, i + 1);
    }
}

/// In the EOS SDK the function starts at the nearest `mov [rsp+..], rbx`:
/// when it stands `k` bytes before `r` (`k` below 4096) and not closer, the
/// start found is `r - k`.
pub proof fn law_eos_prologue_is_nearest_rbx_save(mem: MemoryWindow, r: int, k: int)
    requires
        0 <= k < 4096,
        mem.holds(wrap64(r - k), seq![0x48u8, 0x89u8, 0x5Cu8]),
        forall|j: int|
            0 <= j < k ==> !mem.holds(#[trigger] wrap64(r - j), seq![0x48u8, 0x89u8, 0x5Cu8]),
    ensures
        spec_find_function_prologue(mem, r, true) == wrap64(r - k),
{
    lemma_walk_past_eos_code(mem, r, k, 0);
}

proof fn lemma_first_string_ref_reaches(
    taddr: int,
    code: Seq<u8>,
    raddr: int,
    rdata: Seq<u8>,
    needle: Seq<u8>,
    i: int,
    pos: int,
)
    requires
        0 <= i <= pos,
        string_ref_at(taddr, code, raddr, rdata, needle, pos),
    ensures
        first_string_ref_from(taddr, code, raddr, rdata, needle, i) matches Some(p) && i <= p
            <= pos,
    decreases pos - i,
{
    if i < pos && !string_ref_at(taddr, code, raddr, rdata, needle, i) {
        lemma_first_string_ref_reaches(taddr, code, raddr, rdata, needle, i + 1, pos);
    }
}

/// A string reference is a `lea` opcode (0x8D) behind a REX.W prefix (0x48
/// or 0x4C) whose 32-bit displacement points at a copy of the needle in
/// `.rdata`, whatever register it loads: such an instruction at `pos` is
/// found, or one before it.
pub proof fn law_string_ref_any_register(
    taddr: int,
    code: Seq<u8>,
    raddr: int,
    rdata: Seq<u8>,
    needle: Seq<u8>,
    pos: int,
)
    requires
        1 <= pos,
        pos + 6 < code.len(),
        code[pos] == 0x8D,
        code[pos - 1] == 0x48 || code[pos - 1] == 0x4C,
        needle.len() > 0,
        raddr <= lea_target(taddr, code, pos),
        lea_target(taddr, code, pos) + needle.len() <= raddr + rdata.len(),
        rdata.subrange(
            lea_target(taddr, code, pos) - raddr,
            lea_target(taddr, code, pos) - raddr + needle.len(),
        ) == needle,
    ensures
        first_string_ref_from(taddr, code, raddr, rdata, needle, 0) matches Some(p) && 1 <= p <= pos
            && spec_find_string_ref(taddr, code, raddr, rdata, needle) == taddr + p - 1,
{
    let b = code[pos - 1];
    assert(b == 0x48 || b == 0x4C ==> b & 0xFB == 0x48) by (bit_vector);
    assert(string_ref_at(taddr, code, raddr, rdata, needle, pos));
    lemma_first_string_ref_reaches(taddr, code, raddr, rdata, needle, 0, pos);
    lemma_first_string_ref_is_ref(taddr, code, raddr, rdata, needle, 0);
}

proof fn lemma_first_string_ref_is_ref(
    taddr: int,
    code: Seq<u8>,
    raddr: int,
    rdata: Seq<u8>,
    needle: Seq<u8>,
    i: int,
)
    ensures
        first_string_ref_from(taddr, code, raddr, rdata, needle, i) matches Some(p) ==> string_ref_at(
            taddr,
            code,
            raddr,
            rdata,
            needle,
            p,
        ),
    decreases code.len() - i,
{
    if 0 <= i < code.len() && !string_ref_at(taddr, code, raddr, rdata, needle, i) {
        lemma_first_string_ref_is_ref(taddr, code, raddr, rdata, needle, i + 1);
    }
}

} // verus!
