//! Equality of file paths as `std::path::Path` compares them: by their
//! components, so repeated separators, a trailing separator and `.`
//! components after the start do not matter, while a leading `.` does.

use vstd::prelude::*;
use vstd::string::StringSliceAdditionalSpecFns;
use vstd::utf8::encode_utf8;

verus! {

/// The components of a path: whether it starts at the root, whether it
/// starts with a `.` component, and its other components (no empty and no
/// `.` ones), in order.
#[verifier::ext_equal]
pub struct PathId {
    pub rooted: bool,
    pub cur_dir: bool,
    pub parts: Seq<Seq<u8>>,
}

pub open spec fn is_dot(s: Seq<u8>) -> bool {
    s.len() == 1 && s[0] == 46u8
}

/// `acc` with the component `cur` added, unless it is empty or `.`.
pub open spec fn flush_part(acc: Seq<Seq<u8>>, cur: Seq<u8>) -> Seq<Seq<u8>> {
    if cur.len() == 0 || is_dot(cur) {
        acc
    } else {
        acc.push(cur)
    }
}

/// The components of `b` from byte `i` on, given the component `cur`
/// being read and the components `acc` already read.
pub open spec fn scan_parts(b: Seq<u8>, i: int, cur: Seq<u8>, acc: Seq<Seq<u8>>) -> Seq<Seq<u8>>
    decreases b.len() - i,
{
    if i >= b.len() {
        flush_part(acc, cur)
    } else if b[i] == 47u8 {
        scan_parts(b, i + 1, Seq::empty(), flush_part(acc, cur))
    } else {
        scan_parts(b, i + 1, cur.push(b[i]), acc)
    }
}

/// The components of the path whose bytes are `b`.
pub open spec fn path_id(b: Seq<u8>) -> PathId {
    PathId {
        rooted: b.len() > 0 && b[0] == 47u8,
        cur_dir: b.len() > 0 && b[0] == 46u8 && (b.len() == 1 || b[1] == 47u8),
        parts: scan_parts(b, 0, Seq::empty(), Seq::empty()),
    }
}

/// The components of the path `s`.
pub open spec fn string_path_id(s: Seq<char>) -> PathId {
    path_id(encode_utf8(s))
}

pub open spec fn part_views(v: Seq<Vec<u8>>) -> Seq<Seq<u8>> {
    v.map_values(|p: Vec<u8>| p@)
}

fn path_parts(b: &[u8]) -> (r: Vec<Vec<u8>>)
    ensures
        part_views(r@) == scan_parts(b@, 0, Seq::empty(), Seq::empty()),
{
    let mut acc: Vec<Vec<u8>> = Vec::new();
    let mut cur: Vec<u8> = Vec::new();
    let mut i: usize = 0;
    proof {
        assert(part_views(acc@) =~= Seq::<Seq<u8>>::empty());
        assert(cur@ =~= Seq::<u8>::empty());
    }
    while i < b.len()
        invariant
            i <= b@.len(),
            scan_parts(b@, 0, Seq::empty(), Seq::empty()) == scan_parts(b@, i as int, cur@, part_views(acc@)),
        decreases b@.len() - i,
    {
        if b[i] == 47u8 {
            let ghost accv = part_views(acc@);
            let ghost curv = cur@;
            if cur.len() == 0 || (cur.len() == 1 && cur[0] == 46u8) {
            } else {
                acc.push(cur);
                proof {
                    assert(part_views(acc@) =~= accv.push(curv));
                }
            }
            cur = Vec::new();
            proof {
                assert(cur@ =~= Seq::<u8>::empty());
                assert(part_views(acc@) == flush_part(accv, curv));
            }
        } else {
            cur.push(b[i]);
        }
        i += 1;
    }
    let ghost accv = part_views(acc@);
    let ghost curv = cur@;
    if cur.len() == 0 || (cur.len() == 1 && cur[0] == 46u8) {
    } else {
        acc.push(cur);
        proof {
            assert(part_views(acc@) =~= accv.push(curv));
        }
    }
    proof {
        assert(part_views(acc@) == flush_part(accv, curv));
    }
    acc
}

fn bytes_equal(a: &[u8], b: &[u8]) -> (r: bool)
    ensures
        r == (a@ == b@),
{
    if a.len() != b.len() {
        return false;
    }
    let mut i: usize = 0;
    while i < a.len()
        invariant
            i <= a@.len(),
            a@.len() == b@.len(),
            forall|j: int| 0 <= j < i ==> a@[j] == b@[j],
        decreases a@.len() - i,
    {
        if a[i] != b[i] {
            return false;
        }
        i += 1;
    }
    proof {
        assert(a@ =~= b@);
    }
    true
}

fn parts_equal(a: &Vec<Vec<u8>>, b: &Vec<Vec<u8>>) -> (r: bool)
    ensures
        r == (part_views(a@) == part_views(b@)),
{
    if a.len() != b.len() {
        proof {
            assert(part_views(a@).len() != part_views(b@).len());
        }
        return false;
    }
    let mut i: usize = 0;
    while i < a.len()
        invariant
            i <= a@.len(),
            a@.len() == b@.len(),
            forall|j: int| 0 <= j < i ==> a@[j]@ == b@[j]@,
        decreases a@.len() - i,
    {
        if !bytes_equal(a[i].as_slice(), b[i].as_slice()) {
            proof {
                assert(part_views(a@)[i as int] != part_views(b@)[i as int]);
            }
            return false;
        }
        i += 1;
    }
    proof {
        assert(part_views(a@) =~= part_views(b@));
    }
    true
}

/// Whether the paths `a` and `b` are equal as `Path`s: the same components.
pub fn same_path(a: &String, b: &String) -> (r: bool)
    ensures
        r == (string_path_id(a@) == string_path_id(b@)),
{
    let x = a.as_str().as_bytes();
    let y = b.as_str().as_bytes();
    let rooted_x = x.len() > 0 && x[0] == 47u8;
    let rooted_y = y.len() > 0 && y[0] == 47u8;
    let dot_x = x.len() > 0 && x[0] == 46u8 && (x.len() == 1 || x[1] == 47u8);
    let dot_y = y.len() > 0 && y[0] == 46u8 && (y.len() == 1 || y[1] == 47u8);
    let px = path_parts(x);
    let py = path_parts(y);
    let same = rooted_x == rooted_y && dot_x == dot_y && parts_equal(&px, &py);
    proof {
        let ix = path_id(x@);
        let iy = path_id(y@);
        if same {
            assert(ix =~= iy);
        } else if ix == iy {
            assert(ix.rooted == iy.rooted && ix.cur_dir == iy.cur_dir && ix.parts == iy.parts);
        }
    }
    same
}

} // verus!
