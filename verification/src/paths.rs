//! Safety of archive entry paths. An archive may name entries whose
//! path climbs out of the directory it is extracted into; extraction
//! must skip such entries. The judgement is a pure function of the
//! path's text, stated here and proved; the extraction itself is plain
//! input and output around it.

use vstd::prelude::*;

use crate::json::str_to_chars;

verus! {

/// A parent-directory segment begins at `i`: the two dots stand at a
/// segment boundary on both sides.
pub open spec fn dotdot_segment_at(p: Seq<char>, i: int) -> bool {
    &&& 0 <= i
    &&& i + 2 <= p.len()
    &&& (i == 0 || p[i - 1] == '/')
    &&& p[i] == '.'
    &&& p[i + 1] == '.'
    &&& (i + 2 == p.len() || p[i + 2] == '/')
}

/// A path that cannot leave the directory it is joined under: it is
/// non-empty and relative, uses no backslash and no drive-like colon,
/// and no segment of it is the parent directory. Joining such a path
/// under a destination always resolves inside the destination, since
/// every segment descends.
pub open spec fn spec_path_is_safe(p: Seq<char>) -> bool {
    &&& p.len() > 0
    &&& p[0] != '/'
    &&& forall|i: int| 0 <= i < p.len() ==> p[i] != '\\' && p[i] != ':'
    &&& forall|i: int| !dotdot_segment_at(p, i)
}

/// Whether an archive entry path may be extracted: exactly the safety
/// judgement of the specification.
pub fn is_safe_entry_path(path: &str) -> (r: bool)
    ensures
        r == spec_path_is_safe(path@),
{
    let v = str_to_chars(path);
    let n = v.len();
    if n == 0 {
        return false;
    }
    if v[0] == '/' {
        return false;
    }
    let mut i: usize = 0;
    while i < n
        invariant
            i <= n,
            n == v@.len(),
            v@ == path@,
            forall|k: int| 0 <= k < i ==> v@[k] != '\\' && v@[k] != ':',
            forall|k: int| 0 <= k < i ==> !dotdot_segment_at(v@, k),
        decreases n - i,
    {
        let c = v[i];
        if c == '\\' || c == ':' {
            return false;
        }
        if c == '.' && (i == 0 || v[i - 1] == '/') && i + 1 < n && v[i + 1] == '.' && (i + 2 == n
            || v[i + 2] == '/') {
            assert(dotdot_segment_at(v@, i as int));
            return false;
        }
        assert(!dotdot_segment_at(v@, i as int));
        i = i + 1;
    }
    assert forall|k: int| !dotdot_segment_at(path@, k) by {
        if 0 <= k < n {
            assert(!dotdot_segment_at(v@, k));
        } else {
            assert(!(0 <= k && k + 2 <= path@.len()));
        }
    }
    true
}

} // verus!
