//! The resolved command line, and which files it selects.

use vstd::prelude::*;
use vstd::string::StringSliceAdditionalSpecFns;
use vstd::utf8::encode_utf8;

verus! {

/// What the command line asked for.
pub struct Arguments {
    /// The version to put in; when absent the operator is asked for one.
    pub new_version: Option<String>,
    /// Substrings of the paths to process; empty selects every file.
    pub includes: Vec<String>,
}

/// `n` occurs in `h` at byte `i`.
pub open spec fn occurs_at(h: Seq<u8>, n: Seq<u8>, i: int) -> bool {
    0 <= i && i + n.len() <= h.len() && h.subrange(i, i + n.len()) == n
}

/// `n` occurs somewhere in `h`.
pub open spec fn occurs_in(h: Seq<u8>, n: Seq<u8>) -> bool {
    exists|i: int| occurs_at(h, n, i)
}

/// A path is selected when there is no include, or when it contains one of
/// them.
pub open spec fn path_selected(path: Seq<u8>, includes: Seq<Seq<u8>>) -> bool {
    includes.len() == 0 || exists|k: int| 0 <= k < includes.len() && occurs_in(path, includes[k])
}

/// The UTF-8 bytes of each string.
pub open spec fn encoded(ss: Seq<String>) -> Seq<Seq<u8>> {
    ss.map_values(|s: String| encode_utf8(s@))
}

fn occurs_at_exec(h: &[u8], n: &[u8], i: usize) -> (r: bool)
    requires
        i + n@.len() <= h@.len(),
    ensures
        r == occurs_at(h@, n@, i as int),
{
    let hl = h.len();
    let mut k: usize = 0;
    while k < n.len()
        invariant
            k <= n@.len(),
            hl == h@.len(),
            i + n@.len() <= h@.len(),
            forall|j: int| 0 <= j < k ==> h@[i + j] == n@[j],
        decreases n@.len() - k,
    {
        if h[i + k] != n[k] {
            assert(h@.subrange(i as int, i + n@.len())[k as int] != n@[k as int]);
            return false;
        }
        k = k + 1;
    }
    assert(h@.subrange(i as int, i + n@.len()) =~= n@);
    true
}

/// Whether `n` occurs in `h`.
fn occurs_in_exec(h: &[u8], n: &[u8]) -> (r: bool)
    ensures
        r == occurs_in(h@, n@),
{
    if n.len() > h.len() {
        return false;
    }
    if n.len() == 0 {
        assert(h@.subrange(0, 0) =~= n@);
        assert(occurs_at(h@, n@, 0));
        return true;
    }
    let count = h.len() - n.len() + 1;
    let mut i: usize = 0;
    while i < count
        invariant
            count + n@.len() == h@.len() + 1,
            i <= count,
            forall|j: int| 0 <= j < i ==> !occurs_at(h@, n@, j),
        decreases count - i,
    {
        if occurs_at_exec(h, n, i) {
            return true;
        }
        i = i + 1;
    }
    false
}

/// Whether a file path is to be processed under the include filters.
pub fn is_selected(path: &str, includes: &Vec<String>) -> (r: bool)
    ensures
        r == path_selected(path.spec_bytes(), encoded(includes@)),
{
    if includes.len() == 0 {
        return true;
    }
    let p = path.as_bytes();
    let mut k: usize = 0;
    while k < includes.len()
        invariant
            k <= includes@.len(),
            p@ == path.spec_bytes(),
            forall|j: int| 0 <= j < k ==> !occurs_in(p@, #[trigger] encoded(includes@)[j]),
        decreases includes@.len() - k,
    {
        let inc = includes[k].as_str().as_bytes();
        assert(inc@ == encoded(includes@)[k as int]);
        if occurs_in_exec(p, inc) {
            return true;
        }
        k = k + 1;
    }
    false
}

} // verus!
