use vstd::prelude::*;

use vstd::bytes::spec_u32_from_le_bytes;
use vstd::bytes::spec_u32_to_le_bytes;
use vstd::utf8::decode_utf8;
use vstd::utf8::decode_utf8_encode_utf8;
use vstd::utf8::encode_utf8;
use vstd::utf8::valid_utf8;

use crate::error::EngineError;
use crate::error::GuestTrap;
use crate::engine::ExportSig;
use crate::memory::lemma_align_up_bounds;
use crate::memory::GuestMemory;

verus! {

/// HTTP method of a guest-bound request, carried across the boundary as a
/// small integer tag with an explicit, exhaustive mapping.
#[derive(Clone, Copy, Debug, PartialEq, Eq, Structural)]
pub enum Method {
    Get,
    Post,
    Put,
    Delete,
    Patch,
}

/// The integer tag each method is encoded as.
pub open spec fn method_tag(m: Method) -> u32 {
    match m {
        Method::Get => 0,
        Method::Post => 1,
        Method::Put => 2,
        Method::Delete => 3,
        Method::Patch => 4,
    }
}

impl Method {
    /// Encode this method as its integer tag.
    pub fn tag(&self) -> (r: u32)
        ensures
            r == method_tag(*self),
    {
        match self {
            Method::Get => 0,
            Method::Post => 1,
            Method::Put => 2,
            Method::Delete => 3,
            Method::Patch => 4,
        }
    }

    /// Name of this method, for logs.
    pub fn name(&self) -> (r: String)
        ensures
            (*self == Method::Get ==> r@ == "GET"@) && (*self == Method::Post ==> r@ == "POST"@)
                && (*self == Method::Put ==> r@ == "PUT"@) && (*self == Method::Delete ==> r@
                == "DELETE"@) && (*self == Method::Patch ==> r@ == "PATCH"@),
    {
        match self {
            Method::Get => String::from_str("GET"),
            Method::Post => String::from_str("POST"),
            Method::Put => String::from_str("PUT"),
            Method::Delete => String::from_str("DELETE"),
            Method::Patch => String::from_str("PATCH"),
        }
    }
}

/// A request at the host/guest boundary: the method, the URI, serialized
/// `name:value` header strings, optional parameters, and an optional body.
pub struct HttpRequest {
    pub method: Method,
    pub uri: String,
    pub headers: Vec<String>,
    pub params: Option<Vec<String>>,
    pub body: Option<Vec<u8>>,
}

/// A response lifted back from the guest: a status code, optional serialized
/// header strings, and an optional body.
pub struct HttpResponse {
    pub status: u16,
    pub headers: Option<Vec<String>>,
    pub body: Option<Vec<u8>>,
}

/// The flat-integer argument list of the guest's `handler` export: the
/// method tag, the URI region, the header list region, and the two optional
/// regions, each as a discriminant plus a pointer/length pair.
#[derive(Clone, Copy, Debug, PartialEq, Eq, Structural)]
pub struct HandlerArgs {
    pub method: u32,
    pub uri_ptr: u32,
    pub uri_len: u32,
    pub headers_ptr: u32,
    pub headers_len: u32,
    pub params_tag: u32,
    pub params_ptr: u32,
    pub params_len: u32,
    pub body_tag: u32,
    pub body_ptr: u32,
    pub body_len: u32,
}

/// Auxiliary per-instance state carried for the guest's exports; the
/// interface needs none beyond its memory and entry points.
#[derive(Default)]
pub struct DeislabsHttpV01Data {
}

/// A guest module's `handler` entry point at the flat calling convention:
/// it receives the lowered request and returns the address of its result
/// area, or traps. The guest may read and mutate its linear memory and
/// allocator arbitrarily through `GuestMemory`'s operations.
pub trait HttpGuest {
    fn handler(&mut self, mem: &mut GuestMemory, args: HandlerArgs) -> Result<u32, GuestTrap>;
}

/// The little-endian 32-bit integer stored at `p`.
pub open spec fn le32_at(m: Seq<u8>, p: int) -> u32
    recommends
        0 <= p,
        p + 4 <= m.len(),
{
    spec_u32_from_le_bytes(m.subrange(p, p + 4))
}

/// Entry `i` of a pointer/length list at `base` points at exactly the bytes
/// `item`.
pub open spec fn str_entry_ok(m: Seq<u8>, base: int, i: int, item: Seq<u8>) -> bool {
    let p = le32_at(m, base + 8 * i) as int;
    let n = le32_at(m, base + 8 * i + 4) as int;
    &&& n == item.len()
    &&& 0 <= p
    &&& p + n <= m.len()
    &&& m.subrange(p, p + n) == item
}

/// A list of `count` pointer/length pairs at `base` encodes `items`.
pub open spec fn encodes_str_list(m: Seq<u8>, base: int, count: int, items: Seq<Seq<u8>>) -> bool {
    &&& items.len() == count
    &&& 0 <= base
    &&& base + 8 * count <= m.len()
    &&& forall|i: int| 0 <= i < count ==> #[trigger] str_entry_ok(m, base, i, items[i])
}

/// Every cell the list at `base` touches, including the regions its entries
/// point at, lies below `bound`.
pub open spec fn str_list_below(m: Seq<u8>, base: int, count: int, bound: int) -> bool {
    &&& base + 8 * count <= bound
    &&& forall|i: int|
        0 <= i < count ==> (le32_at(m, base + 8 * i) as int) + (le32_at(m, base + 8 * i + 4) as int)
            <= #[trigger] entry_bound(m, base, i, bound)
}

/// Helper trigger: the bound against which entry `i` of the list at `base`
/// is measured.
pub open spec fn entry_bound(m: Seq<u8>, base: int, i: int, bound: int) -> int {
    bound
}

/// The UTF-8 byte strings of a sequence of strings.
pub open spec fn str_bytes_seq(v: Seq<String>) -> Seq<Seq<u8>> {
    v.map_values(|s: String| encode_utf8(s@))
}

/// Bytes below `bound` are untouched between `m1` and `m2`, so any region
/// lying wholly below `bound` keeps its contents.
pub proof fn lemma_frame_subrange(m1: Seq<u8>, m2: Seq<u8>, bound: int, a: int, n: int)
    requires
        m1.len() == m2.len(),
        0 <= a,
        0 <= n,
        a + n <= bound,
        bound <= m1.len(),
        forall|k: int| 0 <= k < bound ==> m2[k] == m1[k],
    ensures
        m2.subrange(a, a + n) == m1.subrange(a, a + n),
{
    assert(m2.subrange(a, a + n) =~= m1.subrange(a, a + n));
}

/// A pointer/length list whose cells all lie below an untouched bound keeps
/// encoding the same items.
pub proof fn lemma_str_list_frame(
    m1: Seq<u8>,
    m2: Seq<u8>,
    base: int,
    count: int,
    items: Seq<Seq<u8>>,
    bound: int,
)
    requires
        encodes_str_list(m1, base, count, items),
        str_list_below(m1, base, count, bound),
        m1.len() == m2.len(),
        bound <= m1.len(),
        forall|k: int| 0 <= k < bound ==> m2[k] == m1[k],
    ensures
        encodes_str_list(m2, base, count, items),
        str_list_below(m2, base, count, bound),
{
    assert forall|i: int| 0 <= i < count implies #[trigger] str_entry_ok(m2, base, i, items[i]) by {
        lemma_str_entry_frame(m1, m2, base, count, items, bound, i);
    }
    assert forall|i: int|
        0 <= i < count implies (le32_at(m2, base + 8 * i) as int) + (le32_at(
        m2,
        base + 8 * i + 4,
    ) as int) <= #[trigger] entry_bound(m2, base, i, bound) by {
        lemma_str_entry_frame(m1, m2, base, count, items, bound, i);
    }
}

/// One entry of a pointer/length list below an untouched bound keeps its
/// pointer, its length, and the bytes it points at.
proof fn lemma_str_entry_frame(
    m1: Seq<u8>,
    m2: Seq<u8>,
    base: int,
    count: int,
    items: Seq<Seq<u8>>,
    bound: int,
    i: int,
)
    requires
        encodes_str_list(m1, base, count, items),
        str_list_below(m1, base, count, bound),
        m1.len() == m2.len(),
        bound <= m1.len(),
        forall|k: int| 0 <= k < bound ==> m2[k] == m1[k],
        0 <= i < count,
    ensures
        str_entry_ok(m2, base, i, items[i]),
        (le32_at(m2, base + 8 * i) as int) + (le32_at(m2, base + 8 * i + 4) as int) <= bound,
{
        assert(str_entry_ok(m1, base, i, items[i]));
        assert((le32_at(m1, base + 8 * i) as int) + (le32_at(m1, base + 8 * i + 4) as int)
            <= entry_bound(m1, base, i, bound));
        lemma_frame_subrange(m1, m2, bound, base + 8 * i, 4);
        lemma_frame_subrange(m1, m2, bound, base + 8 * i + 4, 4);
        assert(le32_at(m2, base + 8 * i) == le32_at(m1, base + 8 * i));
        assert(le32_at(m2, base + 8 * i + 4) == le32_at(m1, base + 8 * i + 4));
        let p = le32_at(m1, base + 8 * i) as int;
        let n = le32_at(m1, base + 8 * i + 4) as int;
        lemma_frame_subrange(m1, m2, bound, p, n);
}

/// A region disjoint from the written window `[wlo, whi)` keeps its
/// contents.
pub proof fn lemma_frame_subrange_disjoint(
    m1: Seq<u8>,
    m2: Seq<u8>,
    wlo: int,
    whi: int,
    a: int,
    n: int,
)
    requires
        m1.len() == m2.len(),
        0 <= a,
        0 <= n,
        a + n <= m1.len(),
        forall|k: int| 0 <= k < m1.len() && !(wlo <= k < whi) ==> m2[k] == m1[k],
        a + n <= wlo || whi <= a,
    ensures
        m2.subrange(a, a + n) == m1.subrange(a, a + n),
{
    assert(m2.subrange(a, a + n) =~= m1.subrange(a, a + n));
}

/// A pointer/length list wholly below one bound is wholly below any larger
/// bound.
pub proof fn lemma_str_list_below_mono(m: Seq<u8>, base: int, count: int, b1: int, b2: int)
    requires
        str_list_below(m, base, count, b1),
        b1 <= b2,
    ensures
        str_list_below(m, base, count, b2),
{
    assert forall|i: int|
        0 <= i < count implies (le32_at(m, base + 8 * i) as int) + (le32_at(
        m,
        base + 8 * i + 4,
    ) as int) <= #[trigger] entry_bound(m, base, i, b2) by {
        assert((le32_at(m, base + 8 * i) as int) + (le32_at(m, base + 8 * i + 4) as int)
            <= entry_bound(m, base, i, b1));
    }
}

/// Entry `i` of the list at `base` holds exactly the pointer/length pair
/// `pr`.
pub open spec fn entry_cells(m: Seq<u8>, base: int, i: int, pr: (u32, u32)) -> bool {
    le32_at(m, base + 8 * i) == pr.0 && le32_at(m, base + 8 * i + 4) == pr.1
}

/// One step of filling the pointer/length list: after storing entry `j`'s
/// length (giving `m2`) and pointer (giving `m3`), every region above the
/// list is untouched, the cells of entries up to and including `j` hold
/// their pairs, and memory below `oldnext` is untouched.
#[verifier::spinoff_prover]
proof fn lemma_lower_list_step(
    m1: Seq<u8>,
    m2: Seq<u8>,
    m3: Seq<u8>,
    base: int,
    count: int,
    j: int,
    ptrs: Seq<(u32, u32)>,
    oldnext: int,
)
    requires
        m1.len() == m2.len(),
        m2.len() == m3.len(),
        0 <= base,
        0 <= oldnext <= base,
        base + 8 * count <= m1.len(),
        0 <= j < count,
        ptrs.len() == count,
        forall|q: int| 0 <= q < j ==> #[trigger] entry_cells(m1, base, q, ptrs[q]),
        forall|k: int|
            0 <= k < m1.len() && !(base + 8 * j + 4 <= k < base + 8 * j + 8) ==> m2[k] == m1[k],
        m2.subrange(base + 8 * j + 4, base + 8 * j + 8) == spec_u32_to_le_bytes(ptrs[j].1),
        forall|k: int|
            0 <= k < m2.len() && !(base + 8 * j <= k < base + 8 * j + 4) ==> m3[k] == m2[k],
        m3.subrange(base + 8 * j, base + 8 * j + 4) == spec_u32_to_le_bytes(ptrs[j].0),
    ensures
        forall|k: int|
            0 <= k < m1.len() && !(base + 8 * j <= k < base + 8 * j + 8) ==> m3[k] == m1[k],
        forall|q: int| 0 <= q < j + 1 ==> #[trigger] entry_cells(m3, base, q, ptrs[q]),
        forall|k: int| 0 <= k < oldnext ==> m3[k] == m1[k],
{
    let off = base + 8 * j;
    vstd::bytes::lemma_auto_spec_u32_to_from_le_bytes();
    assert forall|q: int| 0 <= q < j + 1 implies #[trigger] entry_cells(m3, base, q, ptrs[q]) by {
        if q < j {
            lemma_frame_subrange_disjoint(m1, m2, off + 4, off + 8, base + 8 * q, 4);
            lemma_frame_subrange_disjoint(m2, m3, off, off + 4, base + 8 * q, 4);
            lemma_frame_subrange_disjoint(m1, m2, off + 4, off + 8, base + 8 * q + 4, 4);
            lemma_frame_subrange_disjoint(m2, m3, off, off + 4, base + 8 * q + 4, 4);
            assert(entry_cells(m1, base, q, ptrs[q]));
        } else {
            lemma_frame_subrange_disjoint(m2, m3, off, off + 4, off + 4, 4);
            assert(m3.subrange(off + 4, off + 8) == spec_u32_to_le_bytes(ptrs[j].1));
            assert(m3.subrange(off, off + 4) == spec_u32_to_le_bytes(ptrs[j].0));
            assert(spec_u32_to_le_bytes(ptrs[j].0).len() == 4);
            assert(spec_u32_to_le_bytes(ptrs[j].1).len() == 4);
            assert(spec_u32_from_le_bytes(spec_u32_to_le_bytes(ptrs[j].0)) == ptrs[j].0);
            assert(spec_u32_from_le_bytes(spec_u32_to_le_bytes(ptrs[j].1)) == ptrs[j].1);
            assert(le32_at(m3, off) == ptrs[j].0);
            assert(le32_at(m3, off + 4) == ptrs[j].1);
        }
    }
}

/// Total UTF-8 byte length of the strings from position `i` on.
pub open spec fn total_str_bytes(items: Seq<String>, i: int) -> int
    decreases items.len() - i,
{
    if i < 0 || i >= items.len() {
        0
    } else {
        encode_utf8(items[i]@).len() + total_str_bytes(items, i + 1)
    }
}

/// A byte total is never negative.
pub proof fn lemma_total_str_bytes_nonneg(items: Seq<String>, i: int)
    ensures
        total_str_bytes(items, i) >= 0,
    decreases items.len() - i,
{
    if 0 <= i < items.len() {
        lemma_total_str_bytes_nonneg(items, i + 1);
    }
}

/// The space one lowered string list needs: alignment slack for the list,
/// the list's pointer/length cells, and every string's bytes.
pub open spec fn str_list_budget(items: Seq<String>) -> int {
    3 + 8 * items.len() + total_str_bytes(items, 0)
}

/// Lower a list of strings into guest memory: allocate the pointer/length
/// list, then each string's bytes, then write every pair into the list.
/// Returns the list's base address.
#[verifier::loop_isolation(false)]
pub fn lower_string_list(mem: &mut GuestMemory, items: &Vec<String>) -> (r: Result<
    u32,
    EngineError,
>)
    ensures
        match r {
            Ok(base) => {
                &&& final (mem)@.len() == old(mem)@.len()
                &&& old(mem).spec_next() <= base
                &&& final (mem).spec_next() >= old(mem).spec_next()
                &&& final (mem).spec_next() <= final (mem)@.len()
                &&& final (mem).spec_next() <= old(mem).spec_next() + str_list_budget(items@)
                &&& forall|k: int|
                    0 <= k < old(mem).spec_next() ==> final (mem)@[k] == old(mem)@[k]
                &&& encodes_str_list(
                    final (mem)@,
                    base as int,
                    items@.len() as int,
                    str_bytes_seq(items@),
                )
                &&& str_list_below(
                    final (mem)@,
                    base as int,
                    items@.len() as int,
                    final (mem).spec_next() as int,
                )
                &&& final (mem).live_view().len() == old(mem).live_view().len() + 1 + items@.len()
                &&& forall|j: int|
                    0 <= j < old(mem).live_view().len() ==> final (mem).live_view()[j] == old(
                        mem,
                    ).live_view()[j]
            },
            Err(e) => {
                &&& (e == EngineError::SizeOverflow || e == EngineError::AllocFailed || e
                    == EngineError::OutOfBounds)
                &&& final (mem)@.len() == old(mem)@.len()
                &&& final (mem).spec_next() >= old(mem).spec_next()
                &&& final (mem).spec_next() <= final (mem)@.len()
                &&& forall|k: int|
                    0 <= k < old(mem).spec_next() ==> final (mem)@[k] == old(mem)@[k]
                &&& final (mem).live_view().len() >= old(mem).live_view().len()
                &&& forall|j: int|
                    0 <= j < old(mem).live_view().len() ==> final (mem).live_view()[j] == old(
                        mem,
                    ).live_view()[j]
            },
        },
        old(mem).spec_next() + str_list_budget(items@) <= old(mem)@.len() ==> r is Ok,
{
    let _msize = mem.mem_size();
    let ghost lowerable = old(mem).spec_next() + str_list_budget(items@) <= old(mem)@.len();
    let ghost sb = str_bytes_seq(items@);
    let count = items.len();
    if count > (u32::MAX / 8) as usize {
        proof {
            if lowerable {
                lemma_total_str_bytes_nonneg(items@, 0);
                assert(false);
            }
        }
        return Err(EngineError::SizeOverflow);
    }
    let list_size: u32 = (count as u32) * 8;
    let base = match mem.allocate(list_size, 4) {
        Ok(p) => p,
        Err(e) => {
            proof {
                if lowerable {
                    lemma_align_up_bounds(old(mem).spec_next() as int, 4);
                    lemma_total_str_bytes_nonneg(items@, 0);
                    assert(false);
                }
            }
            return Err(e);
        },
    };
    proof {
        lemma_align_up_bounds(old(mem).spec_next() as int, 4);
    }
    // First pass: allocate and fill each string's byte region, remembering
    // every pointer/length pair.
    let mut ptrs: Vec<(u32, u32)> = Vec::new();
    let mut i: usize = 0;
    while i < count
        invariant
            count == items@.len(),
            0 <= i <= count,
            ptrs@.len() == i,
            mem@.len() == old(mem)@.len(),
            base >= old(mem).spec_next(),
            base + list_size <= mem@.len(),
            base + list_size <= mem.spec_next(),
            mem.spec_next() <= mem@.len(),
            forall|k: int| 0 <= k < old(mem).spec_next() ==> mem@[k] == old(mem)@[k],
            forall|j: int|
                0 <= j < i ==> {
                    let p = (#[trigger] ptrs@[j]).0 as int;
                    let n = ptrs@[j].1 as int;
                    &&& base + list_size <= p
                    &&& p + n <= mem.spec_next()
                    &&& n == sb[j].len()
                    &&& mem@.subrange(p, p + n) == sb[j]
                },
            mem.live_view().len() == old(mem).live_view().len() + 1 + i,
            forall|j: int|
                0 <= j < old(mem).live_view().len() ==> mem.live_view()[j] == old(
                    mem,
                ).live_view()[j],
            mem.spec_next() + total_str_bytes(items@, i as int) <= old(mem).spec_next()
                + str_list_budget(items@),
        decreases count - i,
    {
        let hb = items[i].as_str().as_bytes_vec();
        proof {
            assert(total_str_bytes(items@, i as int) == hb@.len() + total_str_bytes(
                items@,
                i as int + 1,
            ));
            lemma_total_str_bytes_nonneg(items@, i as int + 1);
        }
        if hb.len() as u64 > u32::MAX as u64 {
            proof {
                if lowerable {
                    assert(false);
                }
            }
            return Err(EngineError::SizeOverflow);
        }
        let ghost m1 = mem@;
        let ghost next1 = mem.spec_next();
        let p = match mem.allocate(hb.len() as u32, 1) {
            Ok(p) => p,
            Err(e) => {
                proof {
                    if lowerable {
                        lemma_align_up_bounds(next1 as int, 1);
                        assert(false);
                    }
                }
                return Err(e);
            },
        };
        proof {
            lemma_align_up_bounds(next1 as int, 1);
        }
        let ghost m2 = mem@;
        match mem.write_bytes(p, &hb) {
            Ok(_) => {},
            Err(e) => {
                return Err(e);
            },
        }
        proof {
            assert forall|j: int|
                0 <= j < i implies {
                let pj = (#[trigger] ptrs@[j]).0 as int;
                let nj = ptrs@[j].1 as int;
                mem@.subrange(pj, pj + nj) == sb[j]
            } by {
                let pj = ptrs@[j].0 as int;
                let nj = ptrs@[j].1 as int;
                lemma_frame_subrange_disjoint(m2, mem@, p as int, p as int + hb@.len(), pj, nj);
            }
            assert(mem@.subrange(p as int, p as int + hb@.len()) =~= hb@);
        }
        ptrs.push((p, hb.len() as u32));
        i = i + 1;
    }
    // Second pass: write each pointer/length pair into the list region.
    let mut j: usize = 0;
    while j < count
        invariant
            count == items@.len(),
            ptrs@.len() == count,
            0 <= j <= count,
            mem@.len() == old(mem)@.len(),
            base >= old(mem).spec_next(),
            base + list_size <= mem@.len(),
            base + list_size <= mem.spec_next(),
            mem.spec_next() <= mem@.len(),
            forall|k: int| 0 <= k < old(mem).spec_next() ==> mem@[k] == old(mem)@[k],
            forall|q: int|
                0 <= q < count ==> {
                    let p = (#[trigger] ptrs@[q]).0 as int;
                    let n = ptrs@[q].1 as int;
                    &&& base + list_size <= p
                    &&& p + n <= mem.spec_next()
                    &&& n == sb[q].len()
                    &&& mem@.subrange(p, p + n) == sb[q]
                },
            forall|q: int| 0 <= q < j ==> #[trigger] entry_cells(mem@, base as int, q, ptrs@[q]),
            mem.spec_next() <= old(mem).spec_next() + str_list_budget(items@),
            mem.live_view().len() == old(mem).live_view().len() + 1 + count,
            forall|q: int|
                0 <= q < old(mem).live_view().len() ==> mem.live_view()[q] == old(
                    mem,
                ).live_view()[q],
        decreases count - j,
    {
        let off: u32 = base + (j as u32) * 8;
        let e = ptrs[j];
        let ghost m1 = mem@;
        match mem.store_u32(off + 4, e.1) {
            Ok(_) => {},
            Err(er) => {
                return Err(er);
            },
        }
        let ghost m2 = mem@;
        match mem.store_u32(off, e.0) {
            Ok(_) => {},
            Err(er) => {
                return Err(er);
            },
        }
        proof {
            lemma_lower_list_step(
                m1,
                m2,
                mem@,
                base as int,
                count as int,
                j as int,
                ptrs@,
                old(mem).spec_next() as int,
            );
            assert forall|q: int|
                0 <= q < count implies {
                let p = (#[trigger] ptrs@[q]).0 as int;
                let n = ptrs@[q].1 as int;
                mem@.subrange(p, p + n) == sb[q]
            } by {
                let p = ptrs@[q].0 as int;
                let n = ptrs@[q].1 as int;
                lemma_frame_subrange_disjoint(
                    m1,
                    mem@,
                    base as int + 8 * j,
                    base as int + 8 * j + 8,
                    p,
                    n,
                );
            }
        }
        j = j + 1;
    }
    proof {
        assert forall|q: int|
            0 <= q < count implies #[trigger] str_entry_ok(
            mem@,
            base as int,
            q,
            str_bytes_seq(items@)[q],
        ) by {
            assert(entry_cells(mem@, base as int, q, ptrs@[q]));
        }
        assert forall|q: int|
            0 <= q < count implies (le32_at(mem@, base as int + 8 * q) as int) + (le32_at(
            mem@,
            base as int + 8 * q + 4,
        ) as int) <= #[trigger] entry_bound(
            mem@,
            base as int,
            q,
            mem.spec_next() as int,
        ) by {
            assert(entry_cells(mem@, base as int, q, ptrs@[q]));
        }
    }
    Ok(base)
}

/// Relies on `String::from_utf8`: it succeeds exactly on the byte sequences
/// that are valid UTF-8, and returns their decoding.
#[verifier::external_body]
pub(crate) fn bytes_to_string(b: Vec<u8>) -> (r: Result<String, EngineError>)
    ensures
        match r {
            Ok(s) => valid_utf8(b@) && s@ == decode_utf8(b@),
            Err(e) => e == EngineError::InvalidUtf8 && !valid_utf8(b@),
        },
{
    match String::from_utf8(b) {
        Ok(s) => Ok(s),
        Err(_) => Err(EngineError::InvalidUtf8),
    }
}

/// Removing one element keeps every other value present.
pub(crate) proof fn lemma_remove_keeps_others(s: Seq<(u32, u32)>, i: int, x: (u32, u32))
    requires
        0 <= i < s.len(),
        s[i] != x,
        s.contains(x),
    ensures
        s.remove(i).contains(x),
{
    let j = choose|j: int| 0 <= j < s.len() && s[j] == x;
    if j < i {
        assert(s.remove(i)[j] == x);
    } else {
        assert(s.remove(i)[j - 1] == x);
    }
}

/// The regions a pointer/length list hands to the deallocator: each entry's
/// string region, then the list region itself.
pub open spec fn hdr_freed_regions(m: Seq<u8>, hb: int, hc: int) -> Seq<(u32, u32)> {
    Seq::new(
        (hc + 1) as nat,
        |i: int|
            if i < hc {
                (le32_at(m, hb + 8 * i), le32_at(m, hb + 8 * i + 4))
            } else {
                (hb as u32, (8 * hc) as u32)
            },
    )
}

/// No two of the regions coincide.
pub open spec fn regions_distinct(rs: Seq<(u32, u32)>) -> bool {
    forall|i: int, j: int| 0 <= i < j < rs.len() ==> rs[i] != rs[j]
}

/// Every region is currently live.
pub open spec fn regions_live(rs: Seq<(u32, u32)>, live: Seq<(u32, u32)>) -> bool {
    forall|i: int| 0 <= i < rs.len() ==> live.contains(#[trigger] rs[i])
}

/// Entry `i` of the list at `base` points at an in-bounds region holding
/// valid UTF-8.
pub open spec fn str_entry_readable(m: Seq<u8>, base: int, i: int) -> bool {
    let p = le32_at(m, base + 8 * i) as int;
    let n = le32_at(m, base + 8 * i + 4) as int;
    p + n <= m.len() && valid_utf8(m.subrange(p, p + n))
}

/// A guest-produced pointer/length list can be lifted whole: it is in
/// bounds, every entry is readable UTF-8, and every region it will free is
/// live and freed only once.
pub open spec fn str_list_liftable(m: Seq<u8>, live: Seq<(u32, u32)>, hb: int, hc: int) -> bool {
    &&& 0 <= hb
    &&& 0 <= hc
    &&& hb + 8 * hc <= m.len()
    &&& forall|i: int| 0 <= i < hc ==> #[trigger] str_entry_readable(m, hb, i)
    &&& regions_distinct(hdr_freed_regions(m, hb, hc))
    &&& regions_live(hdr_freed_regions(m, hb, hc), live)
}

/// Lift a guest-produced list of strings: read each entry, free its region,
/// decode it as UTF-8, then free the list region itself. Every guest
/// allocation this function reads, it frees exactly once, after copying.
#[verifier::loop_isolation(false)]
pub fn lift_string_list(mem: &mut GuestMemory, hb: u32, hc: u32) -> (r: Result<
    Vec<String>,
    EngineError,
>)
    ensures
        match r {
            Ok(hs) => {
                &&& final (mem)@ == old(mem)@
                &&& final (mem).spec_next() == old(mem).spec_next()
                &&& hs@.len() == hc
                &&& encodes_str_list(old(mem)@, hb as int, hc as int, str_bytes_seq(hs@))
                &&& final (mem).live_view().len() + hc + 1 == old(mem).live_view().len()
                &&& forall|x: (u32, u32)|
                    old(mem).live_view().contains(x) && !hdr_freed_regions(
                        old(mem)@,
                        hb as int,
                        hc as int,
                    ).contains(x) ==> final (mem).live_view().contains(x)
            },
            Err(e) => {
                &&& final (mem)@ == old(mem)@
                &&& final (mem).spec_next() == old(mem).spec_next()
                &&& final (mem).live_view().len() <= old(mem).live_view().len()
                &&& (e == EngineError::OutOfBounds || e == EngineError::InvalidUtf8 || e
                    == EngineError::NotLive)
            },
        },
        str_list_liftable(old(mem)@, old(mem).live_view(), hb as int, hc as int) ==> r is Ok,
{
    let msize = mem.mem_size();
    let ghost m0 = mem@;
    let ghost live0 = mem.live_view();
    let ghost freed = hdr_freed_regions(m0, hb as int, hc as int);
    let ghost liftable = str_list_liftable(m0, live0, hb as int, hc as int);
    if (hb as u64) + (hc as u64) * 8 > msize as u64 {
        return Err(EngineError::OutOfBounds);
    }
    let mut hs: Vec<String> = Vec::new();
    let mut i: u32 = 0;
    while i < hc
        invariant
            0 <= i <= hc,
            hs@.len() == i,
            mem@ == m0,
            mem.spec_next() == old(mem).spec_next(),
            mem.live_view().len() + i == live0.len(),
            forall|q: int|
                0 <= q < i ==> #[trigger] str_entry_ok(m0, hb as int, q, str_bytes_seq(hs@)[q]),
            forall|x: (u32, u32)|
                live0.contains(x) && !freed.contains(x) ==> mem.live_view().contains(x),
            liftable ==> (forall|j: int|
                i <= j < freed.len() ==> mem.live_view().contains(#[trigger] freed[j])),
        decreases hc - i,
    {
        let off: u32 = hb + i * 8;
        let p = match mem.load_u32(off) {
            Ok(v) => v,
            Err(e) => {
                return Err(e);
            },
        };
        let n = match mem.load_u32(off + 4) {
            Ok(v) => v,
            Err(e) => {
                return Err(e);
            },
        };
        let bytes = match mem.read_bytes(p, n) {
            Ok(b) => b,
            Err(e) => {
                proof {
                    if liftable {
                        assert(str_entry_readable(m0, hb as int, i as int));
                        assert(false);
                    }
                }
                return Err(e);
            },
        };
        let ghost live_pre = mem.live_view();
        match mem.free(p, n, 1) {
            Ok(_) => {},
            Err(e) => {
                proof {
                    if liftable {
                        assert(freed[i as int] == (p, n));
                        assert(mem.live_view().contains(freed[i as int]));
                        assert(false);
                    }
                }
                return Err(e);
            },
        }
        proof {
            let ridx = choose|ri: int|
                0 <= ri < live_pre.len() && live_pre[ri] == (p, n) && mem.live_view()
                    == live_pre.remove(ri);
            assert(freed[i as int] == (p, n));
            assert forall|x: (u32, u32)|
                live0.contains(x) && !freed.contains(x) implies mem.live_view().contains(x) by {
                assert(live_pre.contains(x));
                assert(x != (p, n));
                lemma_remove_keeps_others(live_pre, ridx, x);
            }
            if liftable {
                assert forall|j: int|
                    i + 1 <= j < freed.len() implies mem.live_view().contains(
                    #[trigger] freed[j],
                ) by {
                    assert(live_pre.contains(freed[j]));
                    assert(freed[j] != freed[i as int]);
                    lemma_remove_keeps_others(live_pre, ridx, freed[j]);
                }
            }
        }
        let ghost bytes_v = bytes@;
        let s = match bytes_to_string(bytes) {
            Ok(s) => s,
            Err(e) => {
                proof {
                    if liftable {
                        assert(str_entry_readable(m0, hb as int, i as int));
                        assert(false);
                    }
                }
                return Err(e);
            },
        };
        proof {
            decode_utf8_encode_utf8(bytes_v);
            assert(encode_utf8(s@) == bytes_v);
        }
        let ghost hs_old = hs@;
        hs.push(s);
        proof {
            assert forall|q: int|
                0 <= q < i + 1 implies #[trigger] str_entry_ok(
                m0,
                hb as int,
                q,
                str_bytes_seq(hs@)[q],
            ) by {
                if q < i {
                    assert(hs@[q] == hs_old[q]);
                    assert(str_bytes_seq(hs@)[q] == encode_utf8(hs@[q]@));
                    assert(str_bytes_seq(hs_old)[q] == encode_utf8(hs_old[q]@));
                    assert(str_entry_ok(m0, hb as int, q, str_bytes_seq(hs_old)[q]));
                } else {
                    assert(str_bytes_seq(hs@)[q] == encode_utf8(s@));
                    assert(str_entry_ok(m0, hb as int, i as int, encode_utf8(s@)));
                }
            }
        }
        i = i + 1;
    }
    let list_bytes: u32 = hc * 8;
    let ghost live_pre = mem.live_view();
    match mem.free(hb, list_bytes, 4) {
        Ok(_) => {},
        Err(e) => {
            proof {
                if liftable {
                    assert(freed[hc as int] == (hb, list_bytes));
                    assert(mem.live_view().contains(freed[hc as int]));
                    assert(false);
                }
            }
            return Err(e);
        },
    }
    proof {
        let ridx = choose|ri: int|
            0 <= ri < live_pre.len() && live_pre[ri] == (hb, list_bytes) && mem.live_view()
                == live_pre.remove(ri);
        assert(freed[hc as int] == (hb, list_bytes));
        assert forall|x: (u32, u32)|
            live0.contains(x) && !freed.contains(x) implies mem.live_view().contains(x) by {
            assert(live_pre.contains(x));
            assert(x != (hb, list_bytes));
            lemma_remove_keeps_others(live_pre, ridx, x);
        }
    }
    Ok(hs)
}

/// The lowered image of a request in guest memory, as described by the
/// argument list `a`: the URI bytes, the header list, the optional parameter
/// list, and the optional body, each at the address the arguments carry.
pub open spec fn encodes_request(m: Seq<u8>, a: HandlerArgs, req: HttpRequest) -> bool {
    &&& a.method == method_tag(req.method)
    &&& a.uri_len == encode_utf8(req.uri@).len()
    &&& a.uri_ptr + a.uri_len <= m.len()
    &&& m.subrange(a.uri_ptr as int, a.uri_ptr as int + a.uri_len as int) == encode_utf8(req.uri@)
    &&& a.headers_len == req.headers@.len()
    &&& encodes_str_list(m, a.headers_ptr as int, a.headers_len as int, str_bytes_seq(req.headers@))
    &&& match req.params {
        Option::None => a.params_tag == 0 && a.params_ptr == 0 && a.params_len == 0,
        Option::Some(ps) => a.params_tag == 1 && a.params_len == ps@.len() && encodes_str_list(
            m,
            a.params_ptr as int,
            a.params_len as int,
            str_bytes_seq(ps@),
        ),
    }
    &&& match req.body {
        Option::None => a.body_tag == 0 && a.body_ptr == 0 && a.body_len == 0,
        Option::Some(b) => a.body_tag == 1 && a.body_len == b@.len() && a.body_ptr + a.body_len
            <= m.len() && m.subrange(a.body_ptr as int, a.body_ptr as int + a.body_len as int)
            == b@,
    }
}

/// Number of guest allocations one lowered request occupies: the URI, the
/// header list and its strings, the optional parameter list and its strings,
/// and the optional body.
pub open spec fn lowered_alloc_count(req: HttpRequest) -> int {
    2 + req.headers@.len() + (match req.params {
        Option::None => 0int,
        Option::Some(ps) => 1 + ps@.len() as int,
    }) + (match req.body {
        Option::None => 0int,
        Option::Some(b) => 1int,
    })
}

/// The space one lowered request needs: the URI bytes, the header list
/// with its strings, the optional parameter list with its strings, and the
/// optional body, alignment slack included.
pub open spec fn lower_budget(req: HttpRequest) -> int {
    encode_utf8(req.uri@).len() + str_list_budget(req.headers@) + (match req.params {
        Option::None => 0int,
        Option::Some(ps) => str_list_budget(ps@),
    }) + (match req.body {
        Option::None => 0int,
        Option::Some(b) => b@.len() as int,
    })
}

/// The request fits in the memory's free space above the bump pointer, so
/// lowering it cannot fail.
pub open spec fn request_lowerable(mem: GuestMemory, req: HttpRequest) -> bool {
    mem.spec_next() + lower_budget(req) <= mem@.len()
}

/// Lower a request into guest memory using the guest's allocator: the URI
/// bytes, the header list, the optional parameter list, and the optional
/// body, in that order; absent optional values are encoded as a zero
/// discriminant with no payload.
pub fn lower_request(mem: &mut GuestMemory, req: &HttpRequest) -> (r: Result<
    HandlerArgs,
    EngineError,
>)
    ensures
        match r {
            Ok(a) => {
                &&& encodes_request(final (mem)@, a, *req)
                &&& final (mem)@.len() == old(mem)@.len()
                &&& final (mem).spec_next() >= old(mem).spec_next()
                &&& forall|k: int|
                    0 <= k < old(mem).spec_next() ==> final (mem)@[k] == old(mem)@[k]
                &&& final (mem).live_view().len() == old(mem).live_view().len()
                    + lowered_alloc_count(*req)
                &&& forall|j: int|
                    0 <= j < old(mem).live_view().len() ==> final (mem).live_view()[j] == old(
                        mem,
                    ).live_view()[j]
            },
            Err(e) => {
                &&& (e == EngineError::SizeOverflow || e == EngineError::AllocFailed || e
                    == EngineError::OutOfBounds)
                &&& final (mem)@.len() == old(mem)@.len()
                &&& final (mem).spec_next() >= old(mem).spec_next()
                &&& forall|k: int|
                    0 <= k < old(mem).spec_next() ==> final (mem)@[k] == old(mem)@[k]
                &&& final (mem).live_view().len() >= old(mem).live_view().len()
                &&& forall|j: int|
                    0 <= j < old(mem).live_view().len() ==> final (mem).live_view()[j] == old(
                        mem,
                    ).live_view()[j]
            },
        },
        request_lowerable(*old(mem), *req) ==> r is Ok,
{
    let _msize = mem.mem_size();
    let ghost lowerable = request_lowerable(*old(mem), *req);
    proof {
        lemma_total_str_bytes_nonneg(req.headers@, 0);
        match &req.params {
            Option::Some(ps) => {
                lemma_total_str_bytes_nonneg(ps@, 0);
            },
            Option::None => {},
        }
    }
    // The URI bytes.
    let ub = req.uri.as_str().as_bytes_vec();
    if ub.len() as u64 > u32::MAX as u64 {
        proof {
            if lowerable {
                assert(false);
            }
        }
        return Err(EngineError::SizeOverflow);
    }
    let uri_ptr = match mem.allocate(ub.len() as u32, 1) {
        Ok(p) => p,
        Err(e) => {
            proof {
                if lowerable {
                    lemma_align_up_bounds(old(mem).spec_next() as int, 1);
                    assert(false);
                }
            }
            return Err(e);
        },
    };
    proof {
        lemma_align_up_bounds(old(mem).spec_next() as int, 1);
    }
    match mem.write_bytes(uri_ptr, &ub) {
        Ok(_) => {},
        Err(e) => {
            return Err(e);
        },
    }
    let ghost m1 = mem@;
    let ghost next1 = mem.spec_next();
    proof {
        assert(m1.subrange(uri_ptr as int, uri_ptr as int + ub@.len() as int) =~= ub@);
    }
    // The header list.
    let hdr_base = match lower_string_list(mem, &req.headers) {
        Ok(b) => b,
        Err(e) => {
            proof {
                if lowerable {
                    assert(false);
                }
            }
            return Err(e);
        },
    };
    let ghost m2 = mem@;
    let ghost next2 = mem.spec_next();
    proof {
        lemma_frame_subrange(m1, m2, next1 as int, uri_ptr as int, ub@.len() as int);
    }
    // The optional parameter list.
    let mut params_tag: u32 = 0;
    let mut params_ptr: u32 = 0;
    let mut params_len: u32 = 0;
    match &req.params {
        Option::Some(ps) => {
            let pb = match lower_string_list(mem, ps) {
                Ok(b) => b,
                Err(e) => {
                    proof {
                        if lowerable {
                            assert(false);
                        }
                    }
                    return Err(e);
                },
            };
            proof {
                assert(ps@.len() <= u32::MAX / 8) by {
                    assert(pb as int + 8 * ps@.len() <= mem@.len());
                }
            }
            params_tag = 1;
            params_ptr = pb;
            params_len = ps.len() as u32;
        },
        Option::None => {},
    }
    let ghost m3 = mem@;
    let ghost next3 = mem.spec_next();
    proof {
        lemma_frame_subrange(m2, m3, next2 as int, uri_ptr as int, ub@.len() as int);
        lemma_str_list_frame(
            m2,
            m3,
            hdr_base as int,
            req.headers@.len() as int,
            str_bytes_seq(req.headers@),
            next2 as int,
        );
        lemma_str_list_below_mono(
            m3,
            hdr_base as int,
            req.headers@.len() as int,
            next2 as int,
            next3 as int,
        );
    }
    // The optional body.
    let mut body_tag: u32 = 0;
    let mut body_ptr: u32 = 0;
    let mut body_len: u32 = 0;
    match &req.body {
        Option::Some(b) => {
            if b.len() as u64 > u32::MAX as u64 {
                proof {
                    if lowerable {
                        assert(false);
                    }
                }
                return Err(EngineError::SizeOverflow);
            }
            let bp = match mem.allocate(b.len() as u32, 1) {
                Ok(p) => p,
                Err(e) => {
                    proof {
                        if lowerable {
                            lemma_align_up_bounds(next3 as int, 1);
                            assert(false);
                        }
                    }
                    return Err(e);
                },
            };
            match mem.write_bytes(bp, b) {
                Ok(_) => {},
                Err(e) => {
                    return Err(e);
                },
            }
            proof {
                assert(mem@.subrange(bp as int, bp as int + b@.len() as int) =~= b@);
            }
            body_tag = 1;
            body_ptr = bp;
            body_len = b.len() as u32;
        },
        Option::None => {},
    }
    let ghost m4 = mem@;
    let ghost next4 = mem.spec_next();
    proof {
        lemma_frame_subrange(m3, m4, next3 as int, uri_ptr as int, ub@.len() as int);
        lemma_str_list_frame(
            m3,
            m4,
            hdr_base as int,
            req.headers@.len() as int,
            str_bytes_seq(req.headers@),
            next3 as int,
        );
        match &req.params {
            Option::Some(ps) => {
                lemma_str_list_frame(
                    m3,
                    m4,
                    params_ptr as int,
                    ps@.len() as int,
                    str_bytes_seq(ps@),
                    next3 as int,
                );
                lemma_str_list_below_mono(
                    m4,
                    params_ptr as int,
                    ps@.len() as int,
                    next3 as int,
                    next4 as int,
                );
            },
            Option::None => {},
        }
        assert(req.headers@.len() <= u32::MAX / 8) by {
            assert(hdr_base as int + 8 * req.headers@.len() <= mem@.len());
        }
    }
    let a = HandlerArgs {
        method: req.method.tag(),
        uri_ptr,
        uri_len: ub.len() as u32,
        headers_ptr: hdr_base,
        headers_len: req.headers.len() as u32,
        params_tag,
        params_ptr,
        params_len,
        body_tag,
        body_ptr,
        body_len,
    };
    Ok(a)
}

/// The response `resp` is exactly what memory `m` encodes at result address
/// `ret`: the status word, then each optional part behind its discriminant.
pub open spec fn decodes_response(m: Seq<u8>, ret: int, resp: HttpResponse) -> bool {
    &&& 0 <= ret
    &&& ret + 52 <= m.len()
    &&& resp.status == le32_at(m, ret)
    &&& match resp.headers {
        Option::None => le32_at(m, ret + 8) == 0,
        Option::Some(hs) => le32_at(m, ret + 8) == 1 && hs@.len() == le32_at(m, ret + 24)
            && encodes_str_list(
            m,
            le32_at(m, ret + 16) as int,
            le32_at(m, ret + 24) as int,
            str_bytes_seq(hs@),
        ),
    }
    &&& match resp.body {
        Option::None => le32_at(m, ret + 32) == 0,
        Option::Some(b) => le32_at(m, ret + 32) == 1 && b@.len() == le32_at(m, ret + 48) && b@
            == m.subrange(
            le32_at(m, ret + 40) as int,
            le32_at(m, ret + 40) as int + le32_at(m, ret + 48) as int,
        ),
    }
}

/// The regions lifting a response hands to the deallocator: the header
/// strings and list when present, then the body when present.
pub open spec fn resp_freed_regions(m: Seq<u8>, ret: int) -> Seq<(u32, u32)> {
    (if le32_at(m, ret + 8) == 1 {
        hdr_freed_regions(m, le32_at(m, ret + 16) as int, le32_at(m, ret + 24) as int)
    } else {
        Seq::<(u32, u32)>::empty()
    }) + (if le32_at(m, ret + 32) == 1 {
        seq![(le32_at(m, ret + 40), le32_at(m, ret + 48))]
    } else {
        Seq::<(u32, u32)>::empty()
    })
}

/// Number of regions lifting a response frees.
pub open spec fn lifted_free_count(m: Seq<u8>, ret: int) -> int {
    resp_freed_regions(m, ret).len() as int
}

/// A guest-left result area can be lifted whole: in bounds, status in range,
/// known discriminants, readable UTF-8 headers, and every region to be freed
/// live and freed only once.
pub open spec fn response_liftable(m: Seq<u8>, live: Seq<(u32, u32)>, ret: int) -> bool {
    &&& 0 <= ret
    &&& ret + 52 <= m.len()
    &&& le32_at(m, ret) <= 65535
    &&& (le32_at(m, ret + 8) == 0 || le32_at(m, ret + 8) == 1)
    &&& (le32_at(m, ret + 32) == 0 || le32_at(m, ret + 32) == 1)
    &&& (le32_at(m, ret + 8) == 1 ==> {
        let hb = le32_at(m, ret + 16) as int;
        let hc = le32_at(m, ret + 24) as int;
        hb + 8 * hc <= m.len() && (forall|i: int|
            0 <= i < hc ==> #[trigger] str_entry_readable(m, hb, i))
    })
    &&& (le32_at(m, ret + 32) == 1 ==> le32_at(m, ret + 40) + le32_at(m, ret + 48) <= m.len())
    &&& regions_distinct(resp_freed_regions(m, ret))
    &&& regions_live(resp_freed_regions(m, ret), live)
}

/// Lift the guest's response from its result area: load the status word and
/// the discriminants, copy each guest-owned buffer out, and free every
/// buffer read, exactly once. A status outside the 16-bit range, an unknown
/// discriminant, or invalid UTF-8 is a boundary error, never a panic.
pub fn lift_response(mem: &mut GuestMemory, ret: u32) -> (r: Result<HttpResponse, EngineError>)
    ensures
        match r {
            Ok(resp) => {
                &&& final (mem)@ == old(mem)@
                &&& final (mem).spec_next() == old(mem).spec_next()
                &&& decodes_response(old(mem)@, ret as int, resp)
                &&& le32_at(old(mem)@, ret as int) <= 65535
                &&& final (mem).live_view().len() + lifted_free_count(old(mem)@, ret as int)
                    == old(mem).live_view().len()
                &&& forall|x: (u32, u32)|
                    old(mem).live_view().contains(x) && !resp_freed_regions(
                        old(mem)@,
                        ret as int,
                    ).contains(x) ==> final (mem).live_view().contains(x)
            },
            Err(e) => {
                &&& final (mem)@ == old(mem)@
                &&& final (mem).spec_next() == old(mem).spec_next()
                &&& final (mem).live_view().len() <= old(mem).live_view().len()
                &&& (e == EngineError::OutOfBounds || e == EngineError::BadInt || e
                    == EngineError::InvalidVariant || e == EngineError::InvalidUtf8 || e
                    == EngineError::NotLive)
                &&& (e == EngineError::BadInt ==> le32_at(old(mem)@, ret as int) > 65535)
                &&& (e == EngineError::InvalidVariant ==> (le32_at(old(mem)@, ret as int + 8) >= 2
                    || le32_at(old(mem)@, ret as int + 32) >= 2))
            },
        },
        response_liftable(old(mem)@, old(mem).live_view(), ret as int) ==> r is Ok,
{
    let msize = mem.mem_size();
    let ghost m0 = mem@;
    let ghost live0 = mem.live_view();
    let ghost liftable = response_liftable(m0, live0, ret as int);
    let ghost freed = resp_freed_regions(m0, ret as int);
    if ret as u64 + 52 > msize as u64 {
        return Err(EngineError::OutOfBounds);
    }
    let status_w = match mem.load_u32(ret) {
        Ok(v) => v,
        Err(e) => {
            return Err(e);
        },
    };
    if status_w > 65535 {
        return Err(EngineError::BadInt);
    }
    let hdisc = match mem.load_u32(ret + 8) {
        Ok(v) => v,
        Err(e) => {
            return Err(e);
        },
    };
    let headers: Option<Vec<String>> = if hdisc == 0 {
        Option::None
    } else if hdisc == 1 {
        let hb = match mem.load_u32(ret + 16) {
            Ok(v) => v,
            Err(e) => {
                return Err(e);
            },
        };
        let hc = match mem.load_u32(ret + 24) {
            Ok(v) => v,
            Err(e) => {
                return Err(e);
            },
        };
        proof {
            if liftable {
                assert(str_list_liftable(m0, live0, hb as int, hc as int)) by {
                    assert forall|i: int|
                        0 <= i < (hc as int) + 1 implies live0.contains(
                        #[trigger] hdr_freed_regions(m0, hb as int, hc as int)[i],
                    ) by {
                        assert(resp_freed_regions(m0, ret as int)[i] == hdr_freed_regions(
                            m0,
                            hb as int,
                            hc as int,
                        )[i]);
                    }
                    assert forall|i: int, j: int|
                        0 <= i < j < (hc as int) + 1 implies hdr_freed_regions(
                        m0,
                        hb as int,
                        hc as int,
                    )[i] != hdr_freed_regions(m0, hb as int, hc as int)[j] by {
                        assert(resp_freed_regions(m0, ret as int)[i] == hdr_freed_regions(
                            m0,
                            hb as int,
                            hc as int,
                        )[i]);
                        assert(resp_freed_regions(m0, ret as int)[j] == hdr_freed_regions(
                            m0,
                            hb as int,
                            hc as int,
                        )[j]);
                    }
                }
            }
        }
        match lift_string_list(mem, hb, hc) {
            Ok(hs) => Option::Some(hs),
            Err(e) => {
                return Err(e);
            },
        }
    } else {
        return Err(EngineError::InvalidVariant);
    };
    let ghost live_mid = mem.live_view();
    proof {
        assert forall|x: (u32, u32)|
            live0.contains(x) && !freed.contains(x) implies live_mid.contains(x) by {
            if hdisc == 1 {
                let hb0 = le32_at(m0, ret as int + 16) as int;
                let hc0 = le32_at(m0, ret as int + 24) as int;
                if hdr_freed_regions(m0, hb0, hc0).contains(x) {
                    let j = choose|j: int|
                        0 <= j < hdr_freed_regions(m0, hb0, hc0).len() && hdr_freed_regions(
                            m0,
                            hb0,
                            hc0,
                        )[j] == x;
                    assert(freed[j] == x);
                    assert(false);
                }
            }
        }
    }
    let bdisc = match mem.load_u32(ret + 32) {
        Ok(v) => v,
        Err(e) => {
            return Err(e);
        },
    };
    let body: Option<Vec<u8>> = if bdisc == 0 {
        Option::None
    } else if bdisc == 1 {
        let bp = match mem.load_u32(ret + 40) {
            Ok(v) => v,
            Err(e) => {
                return Err(e);
            },
        };
        let bl = match mem.load_u32(ret + 48) {
            Ok(v) => v,
            Err(e) => {
                proof {
                    if liftable {
                        assert(false);
                    }
                }
                return Err(e);
            },
        };
        let b = match mem.read_bytes(bp, bl) {
            Ok(b) => b,
            Err(e) => {
                proof {
                    if liftable {
                        assert(false);
                    }
                }
                return Err(e);
            },
        };
        proof {
            if liftable {
                let last = freed.len() - 1;
                assert(freed[last] == (bp, bl));
                assert(live0.contains(freed[last]));
                if hdisc == 1 {
                    let hb0 = le32_at(m0, ret as int + 16) as int;
                    let hc0 = le32_at(m0, ret as int + 24) as int;
                    if hdr_freed_regions(m0, hb0, hc0).contains((bp, bl)) {
                        let j = choose|j: int|
                            0 <= j < hdr_freed_regions(m0, hb0, hc0).len()
                                && hdr_freed_regions(m0, hb0, hc0)[j] == (bp, bl);
                        assert(freed[j] == (bp, bl));
                        assert(freed[j] != freed[last]);
                        assert(false);
                    }
                    assert(mem.live_view().contains((bp, bl)));
                } else {
                    assert(mem.live_view().contains((bp, bl)));
                }
            }
        }
        let ghost live_pre = mem.live_view();
        match mem.free(bp, bl, 1) {
            Ok(_) => {},
            Err(e) => {
                proof {
                    if liftable {
                        assert(false);
                    }
                }
                return Err(e);
            },
        }
        proof {
            let ridx = choose|ri: int|
                0 <= ri < live_pre.len() && live_pre[ri] == (bp, bl) && mem.live_view()
                    == live_pre.remove(ri);
            assert(freed[freed.len() - 1] == (bp, bl));
            assert forall|x: (u32, u32)|
                live0.contains(x) && !freed.contains(x) implies mem.live_view().contains(x) by {
                assert(live_mid.contains(x));
                assert(freed.contains((bp, bl)));
                assert(x != (bp, bl));
                lemma_remove_keeps_others(live_pre, ridx, x);
            }
        }
        Option::Some(b)
    } else {
        return Err(EngineError::InvalidVariant);
    };
    let resp = HttpResponse { status: status_w as u16, headers, body };
    Ok(resp)
}

/// The resolved `handler` interface of an instantiated guest module: its
/// construction checks that the canonical allocator exports, the `handler`
/// entry point, and the linear memory are all present.
pub struct DeislabsHttpV01 {
}

/// True when the export list holds `name` with exactly the shape `sig`.
pub fn has_export(exports: &Vec<(String, ExportSig)>, name: &str, sig: ExportSig) -> (r: bool)
    ensures
        r == exists|i: int|
            0 <= i < exports@.len() && (#[trigger] exports@[i]).0@ == name@ && exports@[i].1
                == sig,
{
    let target = String::from_str(name);
    let mut i: usize = 0;
    while i < exports.len()
        invariant
            0 <= i <= exports@.len(),
            forall|j: int|
                0 <= j < i ==> !((#[trigger] exports@[j]).0@ == name@ && exports@[j].1 == sig),
            target@ == name@,
        decreases exports@.len() - i,
    {
        if exports[i].0 == target && exports[i].1 == sig {
            return true;
        }
        i = i + 1;
    }
    false
}

/// One export of the given name and shape is present.
pub open spec fn export_present(exports: Seq<(String, ExportSig)>, name: Seq<char>, sig: ExportSig) -> bool {
    exists|i: int|
        0 <= i < exports.len() && (#[trigger] exports[i]).0@ == name && exports[i].1 == sig
}

/// The exports the HTTP interface requires of a guest module, with the
/// shapes its calling convention fixes: the canonical allocator pair, the
/// eleven-argument `handler`, and the linear memory.
pub open spec fn http_exports_present(exports: Seq<(String, ExportSig)>) -> bool {
    &&& export_present(exports, "canonical_abi_realloc"@, ExportSig::Func(4, 1))
    &&& export_present(exports, "canonical_abi_free"@, ExportSig::Func(3, 0))
    &&& export_present(exports, "handler"@, ExportSig::Func(11, 1))
    &&& export_present(exports, "memory"@, ExportSig::Memory)
}

impl DeislabsHttpV01 {
    /// Resolve the HTTP interface against an instance's export list; a
    /// required export that is absent or has the wrong shape fails this
    /// single invocation only.
    pub fn new(exports: &Vec<(String, ExportSig)>) -> (r: Result<DeislabsHttpV01, EngineError>)
        ensures
            match r {
                Ok(_) => http_exports_present(exports@),
                Err(e) => e == EngineError::MissingExport && !http_exports_present(exports@),
            },
    {
        if !has_export(exports, "canonical_abi_realloc", ExportSig::Func(4, 1)) {
            return Err(EngineError::MissingExport);
        }
        if !has_export(exports, "canonical_abi_free", ExportSig::Func(3, 0)) {
            return Err(EngineError::MissingExport);
        }
        if !has_export(exports, "handler", ExportSig::Func(11, 1)) {
            return Err(EngineError::MissingExport);
        }
        if !has_export(exports, "memory", ExportSig::Memory) {
            return Err(EngineError::MissingExport);
        }
        Ok(DeislabsHttpV01 {  })
    }

    /// Run one request through a guest: lower it into the instance's linear
    /// memory, invoke the guest's `handler` entry point, and lift the
    /// response it left, freeing every guest buffer that was read. On
    /// success the returned response is exactly what the final memory
    /// encodes at the guest's result address.
    pub fn handler<G: HttpGuest>(
        &self,
        guest: &mut G,
        mem: &mut GuestMemory,
        req: &HttpRequest,
    ) -> (r: Result<HttpResponse, EngineError>)
        ensures
            match r {
                Ok(resp) => exists|rp: int|
                    #[trigger] decodes_response(final (mem)@, rp, resp),
                Err(e) => (e == EngineError::GuestTrap || e == EngineError::SizeOverflow || e
                    == EngineError::AllocFailed || e == EngineError::OutOfBounds || e
                    == EngineError::BadInt || e == EngineError::InvalidVariant || e
                    == EngineError::InvalidUtf8 || e == EngineError::NotLive),
            },
            (r == Result::<HttpResponse, EngineError>::Err(EngineError::SizeOverflow) || r
                == Result::<HttpResponse, EngineError>::Err(EngineError::AllocFailed))
                ==> !request_lowerable(*old(mem), *req),
    {
        let args = match lower_request(mem, req) {
            Ok(a) => a,
            Err(e) => {
                proof {
                    assert(!request_lowerable(*old(mem), *req));
                }
                return Err(e);
            },
        };
        let ret = match guest.handler(mem, args) {
            Ok(v) => v,
            Err(_t) => {
                return Err(EngineError::GuestTrap);
            },
        };
        match lift_response(mem, ret) {
            Ok(resp) => {
                proof {
                    assert(decodes_response(mem@, ret as int, resp));
                }
                Ok(resp)
            },
            Err(e) => Err(e),
        }
    }
}

/// Law: lowering a request with a body of bytes `B`, then lifting a
/// response whose body region holds exactly the bytes the lowered request's
/// body region held, yields back exactly `B`.
pub proof fn lemma_body_round_trip(
    m1: Seq<u8>,
    a: HandlerArgs,
    req: HttpRequest,
    m2: Seq<u8>,
    rp: int,
    resp: HttpResponse,
)
    requires
        encodes_request(m1, a, req),
        req.body is Some,
        decodes_response(m2, rp, resp),
        resp.body is Some,
        le32_at(m2, rp + 48) == a.body_len,
        m2.subrange(
            le32_at(m2, rp + 40) as int,
            le32_at(m2, rp + 40) as int + le32_at(m2, rp + 48) as int,
        ) == m1.subrange(a.body_ptr as int, a.body_ptr as int + a.body_len as int),
    ensures
        resp.body.unwrap()@ == req.body.unwrap()@,
{
}

} // verus!
