//! Snapshot model of a foreign process's readable memory.
//!
//! A [`ProcessImage`] holds the bytes that remote reads have returned, as a
//! set of disjoint regions of the foreign address space. Its view is a partial
//! map from address to byte: a read succeeds exactly when every requested
//! address is in the map's domain, which models remote reads of inaccessible
//! memory failing.

use vstd::prelude::*;

verus! {

/// Why a read out of a [`ProcessImage`] failed.
#[derive(Clone, Copy, Debug)]
pub enum MemoryReadError {
    InaccessibleMemoryAddress { address: u64 },
    LessBytesRead { expected: usize, actual: usize },
}

/// Every address of the span `[address, address + len)` is readable in `m`.
pub open spec fn read_ok(m: Map<u64, u8>, address: u64, len: int) -> bool {
    &&& address + len <= u64::MAX
    &&& forall|a: u64| address <= a < address + len ==> m.dom().contains(a)
}

/// The `len` bytes of `m` starting at `address`.
pub open spec fn bytes_at(m: Map<u64, u8>, address: u64, len: int) -> Seq<u8> {
    Seq::new(len as nat, |k: int| m[(address + k) as u64])
}

/// The zero-terminated byte string of `m` starting at `address`, without its
/// terminator; `None` if an unreadable address comes before the first zero
/// byte (or the address space ends).
pub open spec fn cstr_at(m: Map<u64, u8>, address: int) -> Option<Seq<u8>>
    decreases u64::MAX - address,
{
    if !(0 <= address <= u64::MAX) {
        None
    } else if !m.dom().contains(address as u64) {
        None
    } else if m[address as u64] == 0 {
        Some(Seq::empty())
    } else if address == u64::MAX {
        None
    } else {
        match cstr_at(m, address + 1) {
            Some(s) => Some(seq![m[address as u64]] + s),
            None => None,
        }
    }
}

/// The address a failed zero-terminated read stopped at: the first address of
/// the string that is unreadable (or the last address of the space, when the
/// string runs into its end).
pub open spec fn cstr_fail_addr(m: Map<u64, u8>, address: int) -> int
    decreases u64::MAX - address,
{
    if !(0 <= address <= u64::MAX) {
        address
    } else if !m.dom().contains(address as u64) {
        address
    } else if m[address as u64] == 0 {
        address
    } else if address == u64::MAX {
        address
    } else {
        cstr_fail_addr(m, address + 1)
    }
}

/// The map covering `[base, base + bytes.len())` with the bytes in order.
pub open spec fn span_map(base: u64, bytes: Seq<u8>) -> Map<u64, u8> {
    Map::new(|a: u64| base <= a < base + bytes.len(), |a: u64| bytes[a - base])
}

/// `rest` with `pre` prepended to a successful zero-terminated read.
spec fn byte_prefix(pre: Seq<u8>, rest: Option<Seq<u8>>) -> Option<Seq<u8>> {
    match rest {
        Some(r) => Some(pre + r),
        None => None,
    }
}

/// What the sequence of characters decoded from a byte string by the
/// replacement-decoding of this crate's string reads is. Pinned down only for
/// valid UTF-8 input (see [`ProcessImage::read_string`]).
pub uninterp spec fn utf8_lossy_of(bytes: Seq<u8>) -> Seq<char>;

/// Relies on alloc's `String::from_utf8_lossy`: invalid UTF-8 sequences are
/// replaced with U+FFFD, and valid UTF-8 input decodes unchanged.
#[verifier::external_body]
fn lossy_string(bytes: &Vec<u8>) -> (r: String)
    ensures
        r@ == utf8_lossy_of(bytes@),
        vstd::utf8::valid_utf8(bytes@) ==> r@ == vstd::utf8::decode_utf8(bytes@),
{
    String::from_utf8_lossy(bytes.as_slice()).into_owned()
}

/// One contiguous span of captured foreign memory.
struct Region {
    base: u64,
    bytes: Vec<u8>,
}

impl Region {
    /// The addresses this region covers, each mapped to its byte.
    spec fn to_map(&self) -> Map<u64, u8> {
        span_map(self.base, self.bytes@)
    }

    spec fn wf(&self) -> bool {
        self.base + self.bytes@.len() <= u64::MAX
    }

    spec fn covers(&self, a: u64) -> bool {
        self.base <= a < self.base + self.bytes@.len()
    }
}

/// The joined address-to-byte map of a sequence of regions; a later region
/// wins where regions overlap, but well-formed images keep them disjoint.
spec fn regions_map(rs: Seq<Region>) -> Map<u64, u8>
    decreases rs.len(),
{
    if rs.len() == 0 {
        Map::empty()
    } else {
        regions_map(rs.drop_last()).union_prefer_right(rs.last().to_map())
    }
}

/// An address is in the joined map exactly when some region covers it.
proof fn lemma_regions_map_dom(rs: Seq<Region>, a: u64)
    ensures
        regions_map(rs).dom().contains(a) <==> exists|i: int|
            0 <= i < rs.len() && (#[trigger] rs[i]).covers(a),
    decreases rs.len(),
{
    if rs.len() > 0 {
        lemma_regions_map_dom(rs.drop_last(), a);
        if regions_map(rs.drop_last()).dom().contains(a) {
            let i = choose|i: int| 0 <= i < rs.drop_last().len() && (#[trigger] rs.drop_last()[
                i]).covers(a);
            assert(rs[i].covers(a));
        }
        if rs.last().covers(a) {
            assert(rs[rs.len() - 1].covers(a));
        }
        if exists|i: int| 0 <= i < rs.len() && (#[trigger] rs[i]).covers(a) {
            let i = choose|i: int| 0 <= i < rs.len() && (#[trigger] rs[i]).covers(a);
            if i < rs.len() - 1 {
                assert(rs.drop_last()[i].covers(a));
            }
        }
    }
}

/// The joined map agrees with region `i` on any address it covers, provided
/// no later region also covers that address.
proof fn lemma_regions_map_at(rs: Seq<Region>, i: int, a: u64)
    requires
        0 <= i < rs.len(),
        rs[i].covers(a),
        forall|j: int| i < j < rs.len() ==> !(#[trigger] rs[j]).covers(a),
    ensures
        regions_map(rs).dom().contains(a),
        regions_map(rs)[a] == rs[i].bytes@[a - rs[i].base],
    decreases rs.len(),
{
    if i == rs.len() - 1 {
        assert(rs.last().to_map().dom().contains(a));
    } else {
        assert(rs.drop_last()[i].covers(a));
        lemma_regions_map_at(rs.drop_last(), i, a);
        assert(!rs.last().covers(a));
    }
}

/// A snapshot of the readable parts of one foreign process's address space.
pub struct ProcessImage {
    regions: Vec<Region>,
}

impl View for ProcessImage {
    type V = Map<u64, u8>;

    closed spec fn view(&self) -> Map<u64, u8> {
        regions_map(self.regions@)
    }
}

impl ProcessImage {
    /// Regions stay inside the address space and pairwise disjoint.
    pub closed spec fn wf(&self) -> bool {
        &&& forall|i: int| 0 <= i < self.regions@.len() ==> (#[trigger] self.regions@[i]).wf()
        &&& forall|i: int, j: int, a: u64|
            0 <= i < j < self.regions@.len() ==> !((#[trigger] self.regions@[i].covers(a))
                && (#[trigger] self.regions@[j].covers(a)))
    }

    /// An image with nothing readable.
    pub fn new() -> (r: ProcessImage)
        ensures
            r.wf(),
            r@ == Map::<u64, u8>::empty(),
    {
        ProcessImage { regions: Vec::new() }
    }

    /// Records one span of captured bytes. The span is refused (and the image
    /// left unchanged) when it would overlap an already captured span or run
    /// past the end of the address space.
    pub fn add_region(&mut self, base: u64, bytes: Vec<u8>) -> (added: bool)
        requires
            old(self).wf(),
        ensures
            final(self).wf(),
            added <==> (base + bytes@.len() <= u64::MAX && forall|a: u64|
                base <= a < base + bytes@.len() ==> !old(self)@.dom().contains(a)),
            added ==> final(self)@ == old(self)@.union_prefer_right(span_map(base, bytes@)),
            !added ==> *final(self) == *old(self),
    {
        if bytes.len() as u64 > u64::MAX - base {
            proof {
                assert(base + bytes@.len() > u64::MAX);
            }
            return false;
        }
        let end: u64 = base + bytes.len() as u64;
        let n = self.regions.len();
        let mut i: usize = 0;
        while i < n
            invariant
                self.wf(),
                n == self.regions@.len(),
                i <= n,
                end == base + bytes@.len() <= u64::MAX,
                forall|j: int, a: u64|
                    0 <= j < i && base <= a < end ==> !(#[trigger] self.regions@[j].covers(a)),
            decreases n - i,
        {
            proof {
                assert(self.regions@[i as int].wf());
            }
            let reg_base = self.regions[i].base;
            let reg_len = self.regions[i].bytes.len() as u64;
            if base < reg_base + reg_len && reg_base < end && bytes.len() > 0 && reg_len > 0 {
                proof {
                    let c: u64 = if base <= reg_base {
                        reg_base
                    } else {
                        base
                    };
                    assert(self.regions@[i as int].covers(c));
                    assert(base <= c < end);
                    lemma_regions_map_dom(self.regions@, c);
                    assert(self@.dom().contains(c));
                }
                return false;
            }
            i += 1;
        }
        proof {
            assert forall|a: u64| base <= a < base + bytes@.len() implies !self@.dom().contains(
                a,
            ) by {
                lemma_regions_map_dom(self.regions@, a);
            }
        }
        let ghost old_regions = self.regions@;
        let region = Region { base, bytes };
        self.regions.push(region);
        proof {
            assert(self.regions@.drop_last() =~= old_regions);
            assert forall|i2: int, j2: int, a: u64|
                0 <= i2 < j2 < self.regions@.len() implies !((#[trigger] self.regions@[
                i2].covers(a)) && (#[trigger] self.regions@[j2].covers(a))) by {
                if j2 == self.regions@.len() - 1 {
                    if self.regions@[i2].covers(a) && self.regions@[j2].covers(a) {
                        lemma_regions_map_dom(old_regions, a);
                    }
                }
            }
        }
        true
    }

    /// The byte at one address, when that address is readable.
    pub fn read_byte(&self, a: u64) -> (r: Option<u8>)
        requires
            self.wf(),
        ensures
            match r {
                Some(b) => self@.dom().contains(a) && self@[a] == b,
                None => !self@.dom().contains(a),
            },
    {
        let n = self.regions.len();
        let mut i: usize = 0;
        while i < n
            invariant
                self.wf(),
                n == self.regions@.len(),
                i <= n,
                forall|j: int| 0 <= j < i ==> !(#[trigger] self.regions@[j]).covers(a),
            decreases n - i,
        {
            let reg = &self.regions[i];
            if reg.base <= a {
                let off = a - reg.base;
                if off < reg.bytes.len() as u64 {
                    proof {
                        assert(self.regions@[i as int].covers(a));
                        assert forall|j: int|
                            i < j < self.regions@.len() implies !(#[trigger] self.regions@[
                        j]).covers(a) by {
                            if self.regions@[j].covers(a) {
                                assert(self.regions@[i as int].covers(a) && self.regions@[
                                j].covers(a));
                            }
                        }
                        lemma_regions_map_at(self.regions@, i as int, a);
                    }
                    return Some(reg.bytes[off as usize]);
                }
            }
            i += 1;
        }
        proof {
            lemma_regions_map_dom(self.regions@, a);
        }
        None
    }

    /// Reads `len` bytes starting at `address`; the whole span must be
    /// readable, else the read fails with the requested address.
    pub fn read_bytes(&self, address: u64, len: usize) -> (r: Result<Vec<u8>, MemoryReadError>)
        requires
            self.wf(),
        ensures
            match r {
                Ok(v) => read_ok(self@, address, len as int) && v@ == bytes_at(
                    self@,
                    address,
                    len as int,
                ),
                Err(e) => e matches MemoryReadError::InaccessibleMemoryAddress { address: a }
                    && a == address && !read_ok(self@, address, len as int),
            },
    {
        if len as u64 > u64::MAX - address {
            return Err(MemoryReadError::InaccessibleMemoryAddress { address });
        }
        let mut out: Vec<u8> = Vec::new();
        let mut k: usize = 0;
        while k < len
            invariant
                self.wf(),
                k <= len,
                address + len <= u64::MAX,
                out@.len() == k,
                forall|a2: u64| address <= a2 < address + k ==> self@.dom().contains(a2),
                forall|j: int| 0 <= j < k ==> out@[j] == self@[(address + j) as u64],
            decreases len - k,
        {
            match self.read_byte(address + k as u64) {
                Some(b) => {
                    out.push(b);
                },
                None => {
                    return Err(MemoryReadError::InaccessibleMemoryAddress { address });
                },
            }
            k += 1;
        }
        proof {
            assert(out@ =~= bytes_at(self@, address, len as int));
        }
        Ok(out)
    }

    /// One byte at `address`.
    pub fn read_u8(&self, address: u64) -> (r: Result<u8, MemoryReadError>)
        requires
            self.wf(),
        ensures
            match r {
                Ok(b) => self@.dom().contains(address) && b == self@[address],
                Err(e) => e matches MemoryReadError::InaccessibleMemoryAddress { address: a }
                    && a == address && !self@.dom().contains(address),
            },
    {
        match self.read_byte(address) {
            Some(b) => Ok(b),
            None => Err(MemoryReadError::InaccessibleMemoryAddress { address }),
        }
    }

    /// A 4-byte little-endian unsigned integer at `address`.
    pub fn read_u32(&self, address: u64) -> (r: Result<u32, MemoryReadError>)
        requires
            self.wf(),
        ensures
            match r {
                Ok(x) => read_ok(self@, address, 4) && x == vstd::bytes::spec_u32_from_le_bytes(
                    bytes_at(self@, address, 4),
                ),
                Err(e) => e matches MemoryReadError::InaccessibleMemoryAddress { address: a }
                    && a == address && !read_ok(self@, address, 4),
            },
    {
        let v = self.read_bytes(address, 4)?;
        Ok(vstd::bytes::u32_from_le_bytes(v.as_slice()))
    }

    /// An 8-byte little-endian unsigned integer at `address`.
    pub fn read_u64(&self, address: u64) -> (r: Result<u64, MemoryReadError>)
        requires
            self.wf(),
        ensures
            match r {
                Ok(x) => read_ok(self@, address, 8) && x == vstd::bytes::spec_u64_from_le_bytes(
                    bytes_at(self@, address, 8),
                ),
                Err(e) => e matches MemoryReadError::InaccessibleMemoryAddress { address: a }
                    && a == address && !read_ok(self@, address, 8),
            },
    {
        let v = self.read_bytes(address, 8)?;
        Ok(vstd::bytes::u64_from_le_bytes(v.as_slice()))
    }

    /// Reads the zero-terminated byte string at `address` and decodes it,
    /// replacing invalid UTF-8 sequences rather than failing the read.
    pub fn read_string(&self, address: u64) -> (r: Result<String, MemoryReadError>)
        requires
            self.wf(),
        ensures
            match r {
                Ok(s) => cstr_at(self@, address as int) matches Some(bs) && s@ == utf8_lossy_of(
                    bs,
                ) && (vstd::utf8::valid_utf8(bs) ==> s@ == vstd::utf8::decode_utf8(bs)),
                Err(e) => e matches MemoryReadError::InaccessibleMemoryAddress { address: a }
                    && a as int == cstr_fail_addr(self@, address as int) && cstr_at(
                    self@,
                    address as int,
                ) is None,
            },
    {
        let mut bytes: Vec<u8> = Vec::new();
        let mut cur: u64 = address;
        loop
            invariant
                self.wf(),
                address <= cur,
                cur == address + bytes@.len(),
                cstr_at(self@, address as int) == byte_prefix(
                    bytes@,
                    cstr_at(self@, cur as int),
                ),
                cstr_fail_addr(self@, address as int) == cstr_fail_addr(self@, cur as int),
            decreases u64::MAX - cur,
        {
            match self.read_byte(cur) {
                None => {
                    return Err(MemoryReadError::InaccessibleMemoryAddress { address: cur });
                },
                Some(b) => {
                    if b == 0 {
                        proof {
                            assert(bytes@ + Seq::<u8>::empty() =~= bytes@);
                        }
                        return Ok(lossy_string(&bytes));
                    }
                    if cur == u64::MAX {
                        return Err(MemoryReadError::InaccessibleMemoryAddress { address: cur });
                    }
                    let ghost done = bytes@;
                    bytes.push(b);
                    proof {
                        if let Some(rest) = cstr_at(self@, cur as int + 1) {
                            assert(done + (seq![b] + rest) =~= (done + seq![b]) + rest);
                        }
                    }
                    cur += 1;
                },
            }
        }
    }
}

} // verus!
