use vstd::prelude::*;
use vstd::string::StringSliceAdditionalSpecFns;

verus! {

/// 2^64.
pub open spec fn two64() -> int {
    0x1_0000_0000_0000_0000
}

/// An integer in (-2^64, 2^65) taken modulo 2^64, as wrapping address
/// arithmetic gives it.
pub open spec fn wrap64(x: int) -> int {
    if x < 0 {
        x + two64()
    } else if x >= two64() {
        x - two64()
    } else {
        x
    }
}

/// Little-endian value of two bytes.
pub open spec fn le_u16(s: Seq<u8>) -> int {
    s[0] + 256 * s[1]
}

/// Little-endian value of four bytes.
pub open spec fn le_u32(s: Seq<u8>) -> int {
    s[0] + 256 * s[1] + 0x1_0000 * s[2] + 0x100_0000 * s[3]
}

/// Little-endian value of eight bytes.
pub open spec fn le_u64(s: Seq<u8>) -> int {
    le_u32(s.take(4)) + 0x1_0000_0000 * le_u32(s.subrange(4, 8))
}

/// A 32-bit value read as two's complement.
pub open spec fn signed32(x: int) -> int {
    if x >= 0x8000_0000 {
        x - 0x1_0000_0000
    } else {
        x
    }
}

/// A copy of the process memory that starts at `address`.
pub struct MemoryWindow<'a> {
    pub address: u64,
    pub bytes: &'a [u8],
}

impl<'a> MemoryWindow<'a> {
    /// The window ends within the 64-bit address space.
    pub open spec fn wf(&self) -> bool {
        self.address + self.bytes@.len() <= two64()
    }

    /// One past the last address of the window.
    pub open spec fn end(&self) -> int {
        self.address + self.bytes@.len()
    }

    /// The window holds the `n` bytes at `a`.
    pub open spec fn covers(&self, a: int, n: int) -> bool {
        self.address <= a && a + n <= self.end()
    }

    /// The `n` bytes at `a` (meaningful where the window covers them).
    pub open spec fn slice_at(&self, a: int, n: int) -> Seq<u8> {
        self.bytes@.subrange(a - self.address, a - self.address + n)
    }

    /// The byte at `a`, if the window holds it.
    pub open spec fn byte_at(&self, a: int) -> Option<u8> {
        if self.covers(a, 1) {
            Some(self.bytes@[a - self.address])
        } else {
            None
        }
    }

    /// The window holds the `n` bytes at `a` and they are `s`.
    pub open spec fn holds(&self, a: int, s: Seq<u8>) -> bool {
        self.covers(a, s.len() as int) && self.slice_at(a, s.len() as int) == s
    }

    /// The `size` bytes at `start`, when the window holds them all.
    pub fn window(&self, start: u64, size: u64) -> (r: Option<MemoryWindow<'a>>)
        requires
            self.wf(),
        ensures
            r is Some <==> self.covers(start as int, size as int),
            r matches Some(w) ==> w.address == start && w.bytes@ == self.slice_at(
                start as int,
                size as int,
            ) && w.wf(),
    {
        if start < self.address {
            return None;
        }
        let off = start - self.address;
        let len = self.bytes.len();
        if off as u128 > len as u128 || (len as u128 - off as u128) < size as u128 {
            return None;
        }
        let off = off as usize;
        let n = size as usize;
        Some(MemoryWindow { address: start, bytes: &self.bytes[off..off + n] })
    }

    /// The byte at `a`.
    pub fn read_u8(&self, a: u64) -> (r: Option<u8>)
        requires
            self.wf(),
        ensures
            r == self.byte_at(a as int),
    {
        if a < self.address {
            return None;
        }
        let off = a - self.address;
        if off as u128 >= self.bytes.len() as u128 {
            return None;
        }
        Some(self.bytes[off as usize])
    }

    /// The little-endian `u16` at `a`.
    pub fn read_u16(&self, a: u64) -> (r: Option<u16>)
        requires
            self.wf(),
        ensures
            r is Some <==> self.covers(a as int, 2),
            r matches Some(v) ==> v == le_u16(self.slice_at(a as int, 2)),
    {
        match self.window(a, 2) {
            None => None,
            Some(w) => Some(w.bytes[0] as u16 + 256 * (w.bytes[1] as u16)),
        }
    }

    /// The little-endian `u32` at `a`.
    pub fn read_u32(&self, a: u64) -> (r: Option<u32>)
        requires
            self.wf(),
        ensures
            r is Some <==> self.covers(a as int, 4),
            r matches Some(v) ==> v == le_u32(self.slice_at(a as int, 4)),
    {
        match self.window(a, 4) {
            None => None,
            Some(w) => Some(
                w.bytes[0] as u32 + 256 * (w.bytes[1] as u32) + 0x1_0000 * (w.bytes[2] as u32)
                    + 0x100_0000 * (w.bytes[3] as u32),
            ),
        }
    }

    /// The little-endian `u64` at `a`.
    pub fn read_u64(&self, a: u64) -> (r: Option<u64>)
        requires
            self.wf(),
        ensures
            r is Some <==> self.covers(a as int, 8),
            r matches Some(v) ==> v == le_u64(self.slice_at(a as int, 8)),
    {
        match self.window(a, 8) {
            None => None,
            Some(w) => {
                let lo = w.bytes[0] as u64 + 256 * (w.bytes[1] as u64) + 0x1_0000 * (
                w.bytes[2] as u64) + 0x100_0000 * (w.bytes[3] as u64);
                let hi = w.bytes[4] as u64 + 256 * (w.bytes[5] as u64) + 0x1_0000 * (
                w.bytes[6] as u64) + 0x100_0000 * (w.bytes[7] as u64);
                proof {
                    assert(w.bytes@.take(4) =~= seq![w.bytes@[0], w.bytes@[1], w.bytes@[2], w.bytes@[3]]);
                    assert(w.bytes@.subrange(4, 8) =~= seq![w.bytes@[4], w.bytes@[5], w.bytes@[6], w.bytes@[7]]);
                }
                Some(lo + 0x1_0000_0000 * hi)
            },
        }
    }
}

/// What `VirtualQuery` reports of one region of the address space.
#[derive(Clone, Copy)]
pub struct MemoryBasicInformation {
    pub base_address: u64,
    pub region_size: u64,
    pub state: u32,
    pub protect: u32,
}

/// `MEM_COMMIT`.
pub const MEM_COMMIT: u32 = 0x1000;

/// `PAGE_GUARD`.
pub const PAGE_GUARD: u32 = 0x100;

/// Every readable page protection.
pub const PAGE_READABLE_MASK: u32 = 0xEE;

/// The region contains `addr`.
pub open spec fn region_contains(r: MemoryBasicInformation, addr: int) -> bool {
    r.base_address <= addr < r.base_address + r.region_size
}

/// Index of the first region from `i` on that contains `addr`: the region
/// that the query on `addr` answers with.
pub open spec fn region_index_from(regions: Seq<MemoryBasicInformation>, addr: int, i: int) -> Option<int>
    decreases regions.len() - i,
{
    if i < 0 || i >= regions.len() {
        None
    } else if region_contains(regions[i], addr) {
        Some(i)
    } else {
        region_index_from(regions, addr, i + 1)
    }
}

/// The region that the query on `addr` answers with.
pub open spec fn region_of(regions: Seq<MemoryBasicInformation>, addr: int) -> Option<
    MemoryBasicInformation,
> {
    match region_index_from(regions, addr, 0) {
        Some(i) => Some(regions[i]),
        None => None,
    }
}

proof fn lemma_region_index(regions: Seq<MemoryBasicInformation>, addr: int, i: int)
    requires
        0 <= i,
    ensures
        region_index_from(regions, addr, i) matches Some(k) ==> i <= k < regions.len()
            && region_contains(regions[k], addr),
    decreases regions.len() - i,
{
    if i < regions.len() && !region_contains(regions[i], addr) {
        lemma_region_index(regions, addr, i + 1);
    }
}

fn region_lookup(regions: &[MemoryBasicInformation], addr: u64) -> (r: Option<MemoryBasicInformation>)
    ensures
        r == region_of(regions@, addr as int),
        r matches Some(x) ==> region_contains(x, addr as int),
{
    proof {
        lemma_region_index(regions@, addr as int, 0);
    }
    let mut i: usize = 0;
    while i < regions.len()
        invariant
            i <= regions@.len(),
            region_index_from(regions@, addr as int, 0) == region_index_from(
                regions@,
                addr as int,
                i as int,
            ),
        decreases regions@.len() - i,
    {
        let r = regions[i];
        if r.base_address <= addr && (addr - r.base_address) < r.region_size {
            return Some(r);
        }
        i = i + 1;
    }
    None
}

/// Whether the `len` bytes at `addr` lie in one committed, readable,
/// unguarded region.
pub open spec fn spec_is_readable(regions: Seq<MemoryBasicInformation>, addr: int, len: int) -> bool {
    &&& addr != 0
    &&& len != 0
    &&& region_of(regions, addr) matches Some(r)
    &&& r.state == MEM_COMMIT
    &&& r.protect & PAGE_GUARD == 0
    &&& r.protect & PAGE_READABLE_MASK != 0
    &&& (if addr + len > u64::MAX {
        u64::MAX as int
    } else {
        addr + len
    }) <= r.base_address + r.region_size
}

/// Whether the `len` bytes at `addr` can be read, by the regions that the
/// memory query reports.
pub fn is_readable(regions: &[MemoryBasicInformation], addr: u64, len: usize) -> (r: bool)
    ensures
        r == spec_is_readable(regions@, addr as int, len as int),
{
    if addr == 0 || len == 0 {
        return false;
    }
    let region = match region_lookup(regions, addr) {
        None => {
            return false;
        },
        Some(r) => r,
    };
    if region.state != MEM_COMMIT {
        return false;
    }
    if region.protect & PAGE_GUARD != 0 {
        return false;
    }
    if region.protect & PAGE_READABLE_MASK == 0 {
        return false;
    }
    let end = addr as u128 + len as u128;
    let sat = if end > u64::MAX as u128 {
        u64::MAX as u128
    } else {
        end
    };
    sat <= region.base_address as u128 + region.region_size as u128
}

/// Committed bytes from `addr` to the end of its region, or 0.
pub open spec fn spec_committed_from(regions: Seq<MemoryBasicInformation>, addr: int) -> int {
    match region_of(regions, addr) {
        Some(r) => if r.state == MEM_COMMIT {
            r.base_address + r.region_size - addr
        } else {
            0
        },
        None => 0,
    }
}

fn query_region_size(regions: &[MemoryBasicInformation], addr: u64) -> (r: u64)
    ensures
        r == spec_committed_from(regions@, addr as int),
{
    match region_lookup(regions, addr) {
        None => 0,
        Some(region) => {
            if region.state != MEM_COMMIT {
                0
            } else {
                region.region_size - (addr - region.base_address)
            }
        },
    }
}


/// One entry of the section table.
#[derive(Clone, Copy)]
pub struct SectionHeader {
    pub name: [u8; 8],
    pub virtual_size: u32,
    pub virtual_address: u32,
    pub size_of_raw_data: u32,
    pub pointer_to_raw_data: u32,
    pub relocations: u32,
    pub line_numbers: u32,
    pub number_of_relocations: u16,
    pub number_of_line_numbers: u16,
    pub characteristics: u32,
}

/// `h` is the 40-byte section table entry `raw`, field by field.
pub open spec fn decodes(h: SectionHeader, raw: Seq<u8>) -> bool {
    &&& h.name@ == raw.take(8)
    &&& h.virtual_size == le_u32(raw.subrange(8, 12))
    &&& h.virtual_address == le_u32(raw.subrange(12, 16))
    &&& h.size_of_raw_data == le_u32(raw.subrange(16, 20))
    &&& h.pointer_to_raw_data == le_u32(raw.subrange(20, 24))
    &&& h.relocations == le_u32(raw.subrange(24, 28))
    &&& h.line_numbers == le_u32(raw.subrange(28, 32))
    &&& h.number_of_relocations == le_u16(raw.subrange(32, 34))
    &&& h.number_of_line_numbers == le_u16(raw.subrange(34, 36))
    &&& h.characteristics == le_u32(raw.subrange(36, 40))
}

fn le32_at(b: &[u8], off: usize) -> (r: u32)
    requires
        off + 4 <= b@.len(),
    ensures
        r == le_u32(b@.subrange(off as int, off + 4)),
{
    b[off] as u32 + 256 * (b[off + 1] as u32) + 0x1_0000 * (b[off + 2] as u32) + 0x100_0000 * (
    b[off + 3] as u32)
}

fn le16_at(b: &[u8], off: usize) -> (r: u16)
    requires
        off + 2 <= b@.len(),
    ensures
        r == le_u16(b@.subrange(off as int, off + 2)),
{
    b[off] as u16 + 256 * (b[off + 1] as u16)
}

fn decode_section(b: &[u8]) -> (r: SectionHeader)
    requires
        b@.len() == 40,
    ensures
        decodes(r, b@),
{
    let name = [b[0], b[1], b[2], b[3], b[4], b[5], b[6], b[7]];
    let r = SectionHeader {
        name,
        virtual_size: le32_at(b, 8),
        virtual_address: le32_at(b, 12),
        size_of_raw_data: le32_at(b, 16),
        pointer_to_raw_data: le32_at(b, 20),
        relocations: le32_at(b, 24),
        line_numbers: le32_at(b, 28),
        number_of_relocations: le16_at(b, 32),
        number_of_line_numbers: le16_at(b, 34),
        characteristics: le32_at(b, 36),
    };
    assert(r.name@ =~= b@.take(8));
    r
}

/// The `e_lfanew` field of the headers at `base`.
pub open spec fn spec_lfanew(mem: MemoryWindow, base: int) -> Option<int> {
    if mem.covers(base + 60, 4) {
        Some(signed32(le_u32(mem.slice_at(base + 60, 4))))
    } else {
        None
    }
}

/// Where the section table of the image at `base` starts, and how many
/// entries it has.
pub open spec fn spec_section_table(mem: MemoryWindow, base: int) -> Option<(int, int)> {
    match spec_lfanew(mem, base) {
        Some(e) => {
            let coff = wrap64(base + e + 4);
            if mem.covers(coff + 2, 2) && mem.covers(coff + 16, 2) {
                Some(
                    (
                        wrap64(base + e + 24 + le_u16(mem.slice_at(coff + 16, 2))),
                        le_u16(mem.slice_at(coff + 2, 2)),
                    ),
                )
            } else {
                None
            }
        },
        None => None,
    }
}

/// The entry's name field starts with `name`, of at most 8 bytes.
pub open spec fn section_name_matches(raw: Seq<u8>, name: Seq<u8>) -> bool {
    name.len() <= 8 && raw.take(name.len() as int) == name
}

/// Index of the first entry from `i` on whose name matches; the search stops
/// without a result at an entry that the window does not hold.
pub open spec fn find_section_from(
    mem: MemoryWindow,
    first: int,
    count: int,
    name: Seq<u8>,
    i: int,
) -> Option<int>
    decreases count - i,
{
    if i < 0 || i >= count {
        None
    } else if !mem.covers(first + 40 * i, 40) {
        None
    } else if section_name_matches(mem.slice_at(first + 40 * i, 40), name) {
        Some(i)
    } else {
        find_section_from(mem, first, count, name, i + 1)
    }
}

/// The raw entry of the first section named `name` in the image at `base`.
pub open spec fn spec_section_raw(mem: MemoryWindow, base: int, name: Seq<u8>) -> Option<Seq<u8>> {
    match spec_section_table(mem, base) {
        Some((first, count)) => match find_section_from(mem, first, count, name, 0) {
            Some(i) => Some(mem.slice_at(first + 40 * i, 40)),
            None => None,
        },
        None => None,
    }
}

/// Start and size of the section named `name`: its virtual address from
/// `base`, and its virtual size cut to the committed bytes from there when
/// those are fewer.
pub open spec fn spec_section_range(
    mem: MemoryWindow,
    regions: Seq<MemoryBasicInformation>,
    base: int,
    name: Seq<u8>,
) -> Option<(int, int)> {
    match spec_section_raw(mem, base, name) {
        Some(raw) => {
            let vs = le_u32(raw.subrange(8, 12));
            let addr = wrap64(base + le_u32(raw.subrange(12, 16)));
            let c = spec_committed_from(regions, addr);
            Some((addr, if c > 0 && c < vs { c } else { vs }))
        },
        None => None,
    }
}

/// A loaded PE image.
pub struct ImageInfo {
    pub base: u64,
}

/// The image in memory: a window on its bytes and the regions that the
/// memory query reports for it.
pub struct ImageMemory<'a> {
    pub window: MemoryWindow<'a>,
    pub regions: &'a [MemoryBasicInformation],
}

impl<'a> ImageMemory<'a> {
    pub open spec fn wf(&self) -> bool {
        self.window.wf()
    }
}

impl ImageInfo {
    /// The image loaded at `base`.
    pub fn with_base(base: u64) -> (r: ImageInfo)
        ensures
            r.base == base,
    {
        ImageInfo { base }
    }

    /// The first section table entry whose name starts with `name` (at most 8 bytes).
    pub fn get_section(&self, mem: &MemoryWindow, name: &str) -> (r: Option<SectionHeader>)
        requires
            mem.wf(),
        ensures
            match spec_section_raw(*mem, self.base as int, name.spec_bytes()) {
                Some(raw) => r matches Some(h) && decodes(h, raw),
                None => r is None,
            },
    {
        let base = self.base;
        let lf_addr = match base.checked_add(60) {
            Some(a) => a,
            None => {
                return None;
            },
        };
        let e = match mem.read_u32(lf_addr) {
            Some(v) => v,
            None => {
                return None;
            },
        };
        let e: i64 = if e >= 0x8000_0000 {
            e as i64 - 0x1_0000_0000
        } else {
            e as i64
        };
        let coff = base.wrapping_add_signed(e + 4);
        let nsec_addr = match coff.checked_add(2) {
            Some(a) => a,
            None => {
                return None;
            },
        };
        let opt_addr = match coff.checked_add(16) {
            Some(a) => a,
            None => {
                return None;
            },
        };
        let nsec = match mem.read_u16(nsec_addr) {
            Some(v) => v,
            None => {
                return None;
            },
        };
        let size_opt = match mem.read_u16(opt_addr) {
            Some(v) => v,
            None => {
                return None;
            },
        };
        let first = base.wrapping_add_signed(e + 24 + size_opt as i64);
        let ghost gmem = *mem;
        let ghost gname = name.spec_bytes();
        assert(spec_section_table(gmem, base as int) == Some((first as int, nsec as int)));
        let name_bytes = name.as_bytes();
        let mut i: u16 = 0;
        while i < nsec
            invariant
                i <= nsec,
                mem.wf(),
                gmem == *mem,
                name_bytes@ == gname,
                gname == name.spec_bytes(),
                spec_section_table(gmem, self.base as int) == Some((first as int, nsec as int)),
                find_section_from(gmem, first as int, nsec as int, gname, 0) == find_section_from(
                    gmem,
                    first as int,
                    nsec as int,
                    gname,
                    i as int,
                ),
            decreases nsec - i,
        {
            let addr = match first.checked_add(40 * i as u64) {
                Some(a) => a,
                None => {
                    assert(!gmem.covers(first + 40 * i, 40));
                    return None;
                },
            };
            let w = match mem.window(addr, 40) {
                Some(w) => w,
                None => {
                    return None;
                },
            };
            if name_bytes.len() <= 8 && prefix_eq(w.bytes, name_bytes) {
                assert(w.bytes@ == gmem.slice_at(first + 40 * i, 40));
                return Some(decode_section(w.bytes));
            }
            i = i + 1;
        }
        None
    }

    /// Start and size of `.text`, if the image has it.
    pub fn text_section(&self, mem: &ImageMemory) -> (r: Option<(u64, u32)>)
        requires
            mem.wf(),
        ensures
            match spec_section_range(mem.window, mem.regions@, self.base as int, ".text".spec_bytes()) {
                Some((a, s)) => r == Some((a as u64, s as u32)),
                None => r is None,
            },
    {
        self.section_range(mem, ".text")
    }

    /// Start and size of `.rdata`, if the image has it.
    pub fn rdata_section(&self, mem: &ImageMemory) -> (r: Option<(u64, u32)>)
        requires
            mem.wf(),
        ensures
            match spec_section_range(mem.window, mem.regions@, self.base as int, ".rdata".spec_bytes()) {
                Some((a, s)) => r == Some((a as u64, s as u32)),
                None => r is None,
            },
    {
        self.section_range(mem, ".rdata")
    }

    fn section_range(&self, mem: &ImageMemory, name: &str) -> (r: Option<(u64, u32)>)
        requires
            mem.wf(),
        ensures
            match spec_section_range(mem.window, mem.regions@, self.base as int, name.spec_bytes()) {
                Some((a, s)) => r == Some((a as u64, s as u32)),
                None => r is None,
            },
    {
        let s = match self.get_section(&mem.window, name) {
            Some(s) => s,
            None => {
                return None;
            },
        };
        let addr = self.base.wrapping_add(s.virtual_address as u64);
        let committed = query_region_size(mem.regions, addr);
        let size = if committed > 0 && committed < s.virtual_size as u64 {
            committed as u32
        } else {
            s.virtual_size
        };
        Some((addr, size))
    }
}

/// The first `b.len()` bytes of `a` are `b`.
fn prefix_eq(a: &[u8], b: &[u8]) -> (r: bool)
    requires
        b@.len() <= a@.len(),
    ensures
        r == (a@.take(b@.len() as int) == b@),
{
    let mut j: usize = 0;
    while j < b.len()
        invariant
            j <= b@.len(),
            b@.len() <= a@.len(),
            forall|k: int| 0 <= k < j ==> a@[k] == b@[k],
        decreases b@.len() - j,
    {
        if a[j] != b[j] {
            assert(a@.take(b@.len() as int)[j as int] != b@[j as int]);
            return false;
        }
        j = j + 1;
    }
    assert(a@.take(b@.len() as int) =~= b@);
    true
}

} // verus!
