//! Canonical hierarchical names: absolute, slash-delimited, no empty
//! components, and no trailing slash except on the root itself.
//! Comparison everywhere else in the crate is on the canonical text.

use vstd::prelude::*;
use vstd::string::*;

verus! {

/// `s` with its trailing slashes removed, down to a single character.
pub open spec fn strip_trail(s: Seq<char>) -> Seq<char>
    decreases s.len(),
{
    if s.len() > 1 && s.last() == '/' {
        strip_trail(s.drop_last())
    } else {
        s
    }
}

/// Does `s` hold two slashes in a row, an empty component?
pub open spec fn has_double_slash(s: Seq<char>) -> bool {
    exists|i: int| 0 <= i < s.len() - 1 && s[i] == '/' && #[trigger] s[i + 1] == '/'
}

/// A canonical path: absolute, free of empty components, and without a
/// trailing slash unless it is the root alone.
pub open spec fn is_canonical(s: Seq<char>) -> bool {
    &&& s.len() > 0
    &&& s[0] == '/'
    &&& !has_double_slash(s)
    &&& (s.len() == 1 || s.last() != '/')
}

/// What canonicalizing `s` gives: its trailing slashes stripped, where
/// what remains is an absolute name with no empty component.
pub open spec fn canon_model(s: Seq<char>) -> Option<Seq<char>> {
    let t = strip_trail(s);
    if t.len() > 0 && t[0] == '/' && !has_double_slash(t) {
        Some(t)
    } else {
        None
    }
}

proof fn lemma_strip_trail_at(s: Seq<char>, j: int)
    requires
        1 <= j <= s.len(),
        forall|k: int| j <= k < s.len() ==> s[k] == '/',
        j > 1 ==> s[j - 1] != '/',
    ensures
        strip_trail(s) == s.take(j),
    decreases s.len() - j,
{
    if j == s.len() {
        assert(s.take(j) =~= s);
        if s.len() > 1 {
            assert(s.last() != '/');
        }
    } else {
        assert(s.last() == '/');
        assert(s.len() > 1);
        lemma_strip_trail_at(s.drop_last(), j);
        assert(s.drop_last().take(j) =~= s.take(j));
    }
}

/// A canonical path canonicalizes to itself.
pub proof fn lemma_canonical_idempotent(t: Seq<char>)
    requires
        is_canonical(t),
    ensures
        canon_model(t) == Some(t),
{
    lemma_strip_trail_at(t, t.len() as int);
    assert(t.take(t.len() as int) =~= t);
}

/// Bring a name to canonical form: strip trailing slashes, then insist it
/// is absolute with no empty component. Anything else is no path.
#[verifier::loop_isolation(false)]
pub fn canonical(s: &str) -> (r: Option<String>)
    ensures
        r matches Some(t) ==> canon_model(s@) == Some(t@) && is_canonical(t@),
        r is None ==> canon_model(s@) is None,
{
    let n = s.unicode_len();
    if n == 0 {
        return None;
    }
    let mut j: usize = n;
    while j > 1 && s.get_char(j - 1) == '/'
        invariant
            1 <= j <= n,
            forall|k: int| j <= k < n ==> s@[k] == '/',
        decreases j,
    {
        j -= 1;
    }
    proof {
        lemma_strip_trail_at(s@, j as int);
    }
    let ghost t = strip_trail(s@);
    if s.get_char(0) != '/' {
        return None;
    }
    let mut i: usize = 0;
    while i + 1 < j
        invariant
            0 <= i,
            i + 1 <= j,
            forall|k: int| 0 <= k < i ==> !(s@[k] == '/' && #[trigger] s@[k + 1] == '/'),
        decreases j - i,
    {
        if s.get_char(i) == '/' && s.get_char(i + 1) == '/' {
            proof {
                assert(t[i as int] == '/' && t[i as int + 1] == '/');
            }
            return None;
        }
        i += 1;
    }
    proof {
        if has_double_slash(t) {
            let k = choose|k: int|
                0 <= k < t.len() - 1 && t[k] == '/' && #[trigger] t[k + 1] == '/';
            assert(s@[k] == '/' && s@[k + 1] == '/');
        }
    }
    let out = s.substring_char(0, j);
    proof {
        assert(out@ =~= t);
    }
    Some(String::from_str(out))
}

/// Extend a canonical path by one component, which must be a name: not
/// empty and free of slashes. The result is canonical again.
pub fn append(base: &str, comp: &str) -> (r: String)
    requires
        is_canonical(base@),
        comp@.len() > 0,
        forall|k: int| 0 <= k < comp@.len() ==> comp@[k] != '/',
    ensures
        is_canonical(r@),
        base@.len() == 1 ==> r@ == base@ + comp@,
        base@.len() > 1 ==> r@ == base@ + "/"@ + comp@,
{
    proof {
        reveal_strlit("/");
    }
    let bn = base.unicode_len();
    let mut out = String::from_str(base);
    if bn > 1 {
        out.append("/");
    }
    out.append(comp);
    proof {
        let rv = out@;
        if base@.len() == 1 {
            assert(rv =~= base@ + comp@);
        } else {
            assert(rv =~= base@ + "/"@ + comp@);
        }
        assert(rv[0] == '/');
        assert(rv.last() == comp@.last());
        assert(rv.last() != '/');
        assert forall|i: int|
            0 <= i < rv.len() - 1 implies !(rv[i] == '/' && #[trigger] rv[i + 1]
            == '/') by {
            let bl = base@.len() as int;
            if base@.len() == 1 {
                if i >= 1 {
                    assert(rv[i] == comp@[i - 1]);
                }
            } else {
                if i < bl - 1 {
                    assert(rv[i] == base@[i] && rv[i + 1] == base@[i + 1]);
                    if rv[i] == '/' && rv[i + 1] == '/' {
                        assert(has_double_slash(base@));
                    }
                } else if i == bl - 1 {
                    assert(rv[i] == base@[base@.len() - 1]);
                    assert(rv[i] != '/');
                } else if i == bl {
                    assert(rv[i + 1] == comp@[0]);
                } else {
                    assert(rv[i] == comp@[i - bl - 1]);
                }
            }
        }
    }
    out
}

} // verus!
