//! Finding interned property names in linear memory: the offset of a
//! NUL-terminated string is its name id.

use vstd::prelude::*;
use vstd::string::StringSliceAdditionalSpecFns;

verus! {

/// `n` occurs in `h` at `p`.
pub open spec fn occurs_at(h: Seq<u8>, n: Seq<u8>, p: int) -> bool {
    0 <= p && p + n.len() <= h.len() && h.subrange(p, p + n.len()) == n
}

/// Where the search for the `i`-th occurrence of `r` starts: the start,
/// or just past the occurrence before it.
pub open spec fn search_start(r: Seq<usize>, n: Seq<u8>, i: int) -> int {
    if i == 0 {
        0
    } else {
        r[i - 1] + n.len()
    }
}

/// `r[i]` is the first occurrence of `n` in `h` at or past where the
/// search for it starts.
pub open spec fn first_from(h: Seq<u8>, n: Seq<u8>, r: Seq<usize>, i: int) -> bool {
    &&& occurs_at(h, n, r[i] as int)
    &&& r[i] >= search_start(r, n, i)
    &&& forall|q: int| #![trigger occurs_at(h, n, q)] search_start(r, n, i) <= q < r[i] ==> !occurs_at(h, n, q)
}

/// No occurrence of `n` in `h` starts at or past `from`.
pub open spec fn none_from(h: Seq<u8>, n: Seq<u8>, from: int) -> bool {
    forall|q: int| #![trigger occurs_at(h, n, q)] q >= from ==> !occurs_at(h, n, q)
}

/// `r` lists the non-overlapping occurrences of `n` in `h` from the left:
/// each one is the first occurrence at or past the end of the one before,
/// and none follows the last.
#[verifier::opaque]
pub open spec fn greedy_occurrences(h: Seq<u8>, n: Seq<u8>, r: Seq<usize>) -> bool {
    &&& forall|i: int| 0 <= i < r.len() ==> #[trigger] first_from(h, n, r, i)
    &&& none_from(h, n, search_start(r, n, r.len() as int))
}

proof fn lemma_greedy(h: Seq<u8>, n: Seq<u8>, r: Seq<usize>, i: int)
    requires
        greedy_occurrences(h, n, r),
    ensures
        0 <= i < r.len() ==> first_from(h, n, r, i),
        none_from(h, n, search_start(r, n, r.len() as int)),
{
    reveal(greedy_occurrences);
}

/// `memchr::memmem::find_iter` over the first `end` bytes of `data`: the
/// starts of the non-overlapping occurrences of `needle`, leftmost first.
#[verifier::external_body]
fn memmem_occurrences(data: &[u8], end: usize, needle: &[u8]) -> (r: Vec<usize>)
    requires
        end <= data@.len(),
        needle@.len() > 0,
    ensures
        greedy_occurrences(data@.take(end as int), needle@, r@),
{
    memchr::memmem::find_iter(&data[..end], needle).collect()
}

/// `name` followed by a NUL starts at `p` within the first `end` bytes of
/// `data`, right at the start or right after a NUL.
pub open spec fn c_string_at(data: Seq<u8>, end: int, name: Seq<u8>, p: int) -> bool {
    &&& occurs_at(data.take(end), name.push(0u8), p)
    &&& (p == 0 || data[p - 1] == 0)
}

/// How much of memory is scanned: the allocated part, within memory.
pub open spec fn scan_len(data: Seq<u8>, heap_end: usize) -> int {
    if heap_end < data.len() {
        heap_end as int
    } else {
        data.len() as int
    }
}

/// The first occurrence listed in `occ`, from index `j` on, that begins
/// memory or follows a NUL, as a 32-bit offset.
pub open spec fn first_boundary_from(data: Seq<u8>, occ: Seq<usize>, j: int) -> Option<u32>
    decreases occ.len() - j,
{
    if j < 0 || j >= occ.len() {
        None
    } else if occ[j] == 0 || data[occ[j] - 1] == 0 {
        Some(occ[j] as u32)
    } else {
        first_boundary_from(data, occ, j + 1)
    }
}

/// Two listings of the non-overlapping occurrences agree at `i`.
proof fn lemma_greedy_agree_at(h: Seq<u8>, n: Seq<u8>, r1: Seq<usize>, r2: Seq<usize>, i: int)
    requires
        greedy_occurrences(h, n, r1),
        greedy_occurrences(h, n, r2),
        0 <= i < r1.len(),
        i < r2.len(),
    ensures
        r1[i] == r2[i],
    decreases i,
{
    if i > 0 {
        lemma_greedy_agree_at(h, n, r1, r2, i - 1);
    }
    assert(search_start(r1, n, i) == search_start(r2, n, i));
    lemma_greedy(h, n, r1, i);
    lemma_greedy(h, n, r2, i);
    if r1[i] < r2[i] {
        assert(!occurs_at(h, n, r1[i] as int));
    } else if r2[i] < r1[i] {
        assert(!occurs_at(h, n, r2[i] as int));
    }
}

/// The non-overlapping occurrences, leftmost first, are unique.
proof fn lemma_greedy_unique(h: Seq<u8>, n: Seq<u8>, r1: Seq<usize>, r2: Seq<usize>)
    requires
        greedy_occurrences(h, n, r1),
        greedy_occurrences(h, n, r2),
    ensures
        r1 == r2,
{
    assert forall|i: int| 0 <= i < r1.len() && i < r2.len() implies r1[i] == r2[i] by {
        lemma_greedy_agree_at(h, n, r1, r2, i);
    }
    lemma_greedy(h, n, r1, 0);
    lemma_greedy(h, n, r2, 0);
    if r1.len() < r2.len() {
        let k = r1.len() as int;
        lemma_greedy(h, n, r2, k);
        if k > 0 {
            assert(r1[k - 1] == r2[k - 1]);
        }
        assert(search_start(r1, n, k) == search_start(r2, n, k));
        assert(!occurs_at(h, n, r2[k] as int));
    } else if r2.len() < r1.len() {
        let k = r2.len() as int;
        lemma_greedy(h, n, r1, k);
        if k > 0 {
            assert(r1[k - 1] == r2[k - 1]);
        }
        assert(search_start(r1, n, k) == search_start(r2, n, k));
        assert(!occurs_at(h, n, r1[k] as int));
    }
    assert(r1 =~= r2);
}

/// The name contains no NUL byte.
pub open spec fn nul_free(name: Seq<u8>) -> bool {
    forall|k: int| 0 <= k < name.len() ==> #[trigger] name[k] != 0
}

/// Every occurrence at a string start is one of the listed occurrences
/// when the needle holds its only NUL at the end.
proof fn lemma_boundary_occurrence_listed(h: Seq<u8>, n: Seq<u8>, r: Seq<usize>, q: int, i: int)
    requires
        greedy_occurrences(h, n, r),
        n.len() > 0,
        forall|k: int| 0 <= k < n.len() - 1 ==> #[trigger] n[k] != 0,
        occurs_at(h, n, q),
        q == 0 || h[q - 1] == 0,
        0 <= i < r.len(),
        r[i] <= q,
    ensures
        exists|j: int| 0 <= j < r.len() && r[j] == q,
    decreases r.len() - i,
{
    lemma_greedy(h, n, r, i);
    if r[i] as int == q {
        assert(r[i] == q);
    } else if q >= r[i] + n.len() {
        if i + 1 < r.len() {
            lemma_greedy(h, n, r, i + 1);
            if r[i + 1] > q {
                assert(search_start(r, n, i + 1) <= q);
                assert(!occurs_at(h, n, q));
            }
            lemma_boundary_occurrence_listed(h, n, r, q, i + 1);
        } else {
            assert(search_start(r, n, r.len() as int) <= q);
            assert(!occurs_at(h, n, q));
        }
    } else {
        let k = q - 1 - r[i];
        assert(0 <= k < n.len() - 1);
        assert(h.subrange(r[i] as int, r[i] + n.len())[k] == h[q - 1]);
    }
}

/// A valid string start is an occurrence; no occurrence lies before the
/// first listed one.
proof fn lemma_boundary_in_list(h: Seq<u8>, n: Seq<u8>, r: Seq<usize>, q: int)
    requires
        greedy_occurrences(h, n, r),
        n.len() > 0,
        forall|k: int| 0 <= k < n.len() - 1 ==> #[trigger] n[k] != 0,
        occurs_at(h, n, q),
        q == 0 || h[q - 1] == 0,
    ensures
        exists|j: int| 0 <= j < r.len() && r[j] == q,
{
    lemma_greedy(h, n, r, 0);
    if r.len() == 0 {
        assert(search_start(r, n, 0) <= q);
        assert(!occurs_at(h, n, q));
    } else if r[0] > q {
        assert(search_start(r, n, 0) <= q);
        assert(!occurs_at(h, n, q));
    } else {
        lemma_boundary_occurrence_listed(h, n, r, q, 0);
    }
}

/// The offset of the NUL-terminated string `name` among the first
/// `heap_end` bytes of `data` (the allocated part of linear memory): the
/// first non-overlapping occurrence of `name` and its NUL that begins
/// memory or follows a NUL, so that a name never matches inside a longer
/// one. For a name without NUL bytes that is the least such offset.
pub fn find_c_string(data: &[u8], heap_end: usize, name: &str) -> (r: Option<u32>)
    ensures
        forall|occ: Seq<usize>|
            greedy_occurrences(
                data@.take(scan_len(data@, heap_end)),
                name.spec_bytes().push(0u8),
                occ,
            ) ==> r == #[trigger] first_boundary_from(data@, occ, 0),
        r matches Some(x) ==> exists|p: int|
            #[trigger] c_string_at(data@, scan_len(data@, heap_end), name.spec_bytes(), p) && x == (p as usize) as u32,
        nul_free(name.spec_bytes()) ==> (r is None <==> !exists|p: int|
            #[trigger] c_string_at(data@, scan_len(data@, heap_end), name.spec_bytes(), p)),
        nul_free(name.spec_bytes()) ==> (r matches Some(x) ==> exists|p: int|
            #[trigger] c_string_at(data@, scan_len(data@, heap_end), name.spec_bytes(), p) && x == (p as usize) as u32
                && forall|q: int| 0 <= q < p ==> !c_string_at(data@, scan_len(data@, heap_end), name.spec_bytes(), q)),
{
    let bytes = name.as_bytes();
    let mut needle: Vec<u8> = Vec::new();
    let mut i: usize = 0;
    while i < bytes.len()
        invariant
            i <= bytes@.len(),
            needle@ == bytes@.take(i as int),
        decreases bytes@.len() - i,
    {
        needle.push(bytes[i]);
        i += 1;
        proof {
            assert(needle@ =~= bytes@.take(i as int));
        }
    }
    needle.push(0u8);
    proof {
        assert(needle@ =~= bytes@.push(0u8));
    }
    let scan_end = if heap_end < data.len() {
        heap_end
    } else {
        data.len()
    };
    let ghost h = data@.take(scan_end as int);
    let ghost n = needle@;
    let found = memmem_occurrences(data, scan_end, needle.as_slice());
    proof {
        assert forall|t: int| 0 <= t < found@.len() implies found@[t] < scan_end by {
            lemma_greedy(h, n, found@, t);
        }
        if nul_free(bytes@) {
            assert forall|k: int| 0 <= k < n.len() - 1 implies #[trigger] n[k] != 0 by {
                assert(n[k] == bytes@[k]);
            }
        }
    }
    let mut j: usize = 0;
    while j < found.len()
        invariant
            j <= found@.len(),
            greedy_occurrences(h, n, found@),
            h == data@.take(scan_end as int),
            n == bytes@.push(0u8),
            bytes@ == name.spec_bytes(),
            scan_end <= data@.len(),
            scan_end == if heap_end < data@.len() { heap_end as int } else { data@.len() as int },
            nul_free(bytes@) ==> forall|k: int| 0 <= k < n.len() - 1 ==> #[trigger] n[k] != 0,
            forall|t: int| 0 <= t < j ==> !(found@[t] == 0 || data@[found@[t] - 1] == 0),
            first_boundary_from(data@, found@, 0) == first_boundary_from(data@, found@, j as int),
            forall|t: int| 0 <= t < found@.len() ==> found@[t] < scan_end,
        decreases found@.len() - j,
    {
        let offset = found[j];
        proof {
            lemma_greedy(h, n, found@, j as int);
        }
        if offset == 0 || data[offset - 1] == 0 {
            proof {
                lemma_greedy(h, n, found@, j as int);
                assert(occurs_at(h, n, offset as int));
                assert(c_string_at(data@, scan_end as int, bytes@, offset as int));
                if nul_free(bytes@) {
                    assert forall|q: int| 0 <= q < offset implies !c_string_at(data@, scan_end as int, bytes@, q) by {
                        if c_string_at(data@, scan_end as int, bytes@, q) {
                            lemma_boundary_in_list(h, n, found@, q);
                            let t = choose|t: int| 0 <= t < found@.len() && found@[t] == q;
                            if t >= j {
                                if t > j {
                                    lemma_increasing(h, n, found@, j as int, t);
                                }
                            }
                        }
                    }
                }
            }
            proof {
                let end = scan_len(data@, heap_end);
                assert forall|occ: Seq<usize>| greedy_occurrences(h, n, occ) implies Some(offset as u32)
                    == #[trigger] first_boundary_from(data@, occ, 0) by {
                    lemma_greedy_unique(h, n, occ, found@);
                }
                assert(c_string_at(data@, end, name.spec_bytes(), offset as int));
                if nul_free(name.spec_bytes()) {
                    assert(forall|q: int| 0 <= q < offset as int ==> !c_string_at(data@, end, name.spec_bytes(), q));
                }
            }
            return Some(offset as u32);
        }
        j += 1;
    }
    proof {
        assert forall|occ: Seq<usize>| greedy_occurrences(h, n, occ) implies None::<u32>
            == #[trigger] first_boundary_from(data@, occ, 0) by {
            lemma_greedy_unique(h, n, occ, found@);
        }
        if nul_free(bytes@) {
            assert forall|p: int| !c_string_at(data@, scan_end as int, bytes@, p) by {
                if c_string_at(data@, scan_end as int, bytes@, p) {
                    lemma_boundary_in_list(h, n, found@, p);
                }
            }
        }
    }
    None
}

/// The listed occurrences increase.
proof fn lemma_increasing(h: Seq<u8>, n: Seq<u8>, r: Seq<usize>, a: int, b: int)
    requires
        greedy_occurrences(h, n, r),
        n.len() > 0,
        0 <= a < b < r.len(),
    ensures
        r[a] < r[b],
    decreases b - a,
{
    lemma_greedy(h, n, r, b);
    lemma_greedy(h, n, r, b - 1);
    if a + 1 < b {
        lemma_increasing(h, n, r, a, b - 1);
    }
}

} // verus!
