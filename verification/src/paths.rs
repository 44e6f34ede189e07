//! Path normalization and child-path synthesis.
//!
//! A node path is absolute (`/`-prefixed) and carries no trailing separator
//! unless it is the root itself. `normalize` turns any user-supplied string
//! into such a path: trailing separators are dropped, a missing leading
//! separator is added, and an empty remainder becomes the root.

use vstd::prelude::*;
use vstd::string::*;

verus! {

/// The given sequence with every trailing `/` removed.
pub open spec fn strip_trailing_slashes(s: Seq<char>) -> Seq<char>
    decreases s.len(),
{
    if s.len() > 0 && s.last() == '/' {
        strip_trailing_slashes(s.drop_last())
    } else {
        s
    }
}

/// Canonical form of a user-supplied path string.
pub open spec fn normalize_spec(s: Seq<char>) -> Seq<char> {
    let t = strip_trailing_slashes(s);
    if t.len() == 0 {
        seq!['/']
    } else if t[0] == '/' {
        t
    } else {
        seq!['/'] + t
    }
}

/// A well-formed node path: non-empty, absolute, and without a trailing
/// separator unless it is exactly the root.
pub open spec fn is_node_path(s: Seq<char>) -> bool {
    &&& s.len() > 0
    &&& s[0] == '/'
    &&& (s.len() == 1 || s.last() != '/')
}

/// `strip_trailing_slashes` shortens its argument, is a prefix of it, and
/// leaves no trailing separator behind.
pub proof fn lemma_strip_trailing_slashes_props(s: Seq<char>)
    ensures
        strip_trailing_slashes(s).len() <= s.len(),
        strip_trailing_slashes(s) == s.subrange(0, strip_trailing_slashes(s).len() as int),
        strip_trailing_slashes(s).len() == 0 || strip_trailing_slashes(s).last() != '/',
    decreases s.len(),
{
    if s.len() > 0 && s.last() == '/' {
        lemma_strip_trailing_slashes_props(s.drop_last());
        let t = strip_trailing_slashes(s);
        assert(s.drop_last() == s.subrange(0, s.len() - 1));
        assert(s.drop_last().subrange(0, t.len() as int) =~= s.subrange(0, t.len() as int));
    } else {
        assert(s.subrange(0, s.len() as int) =~= s);
    }
}

/// If everything from position `k` on is a separator and the character just
/// before `k` (if any) is not, then stripping trailing separators cuts the
/// sequence exactly at `k`.
pub proof fn lemma_strip_cuts_at(s: Seq<char>, k: int)
    requires
        0 <= k <= s.len(),
        forall|i: int| k <= i < s.len() ==> s[i] == '/',
        k == 0 || s[k - 1] != '/',
    ensures
        strip_trailing_slashes(s) == s.subrange(0, k),
    decreases s.len(),
{
    if s.len() == k {
        assert(s.subrange(0, k) =~= s);
        if k > 0 {
            assert(s.last() != '/');
        }
    } else {
        assert(s.last() == '/');
        lemma_strip_cuts_at(s.drop_last(), k);
        assert(s.drop_last().subrange(0, k) =~= s.subrange(0, k));
    }
}

/// Normalization always yields a well-formed node path, and applying it a
/// second time changes nothing.
pub proof fn lemma_normalize_idempotent(s: Seq<char>)
    ensures
        is_node_path(normalize_spec(s)),
        normalize_spec(normalize_spec(s)) == normalize_spec(s),
{
    lemma_strip_trailing_slashes_props(s);
    let t = strip_trailing_slashes(s);
    let r = normalize_spec(s);
    if t.len() == 0 {
        assert(r == seq!['/']);
        assert(r.last() == '/');
        assert(r.drop_last() =~= Seq::<char>::empty());
        assert(strip_trailing_slashes(Seq::<char>::empty()) =~= Seq::<char>::empty());
        assert(strip_trailing_slashes(r) =~= Seq::<char>::empty());
        assert(normalize_spec(r) == seq!['/']);
    } else if t[0] == '/' {
        assert(t.last() != '/');
        assert(t.len() >= 2) by {
            if t.len() == 1 {
                assert(t.last() == t[0]);
            }
        }
        assert(strip_trailing_slashes(r) == r);
        assert(normalize_spec(r) == r);
    } else {
        let p = seq!['/'] + t;
        assert(r == p);
        assert(p.len() == 1 + t.len());
        assert(p[0] == '/');
        assert(p.last() == t.last());
        assert(p.last() != '/');
        assert(strip_trailing_slashes(r) == r);
        assert(normalize_spec(r) == r);
    }
}

/// A path that is already well-formed is left exactly as it is.
pub proof fn lemma_normalize_fixes_node_paths(s: Seq<char>)
    requires
        is_node_path(s),
    ensures
        normalize_spec(s) == s,
{
    if s.len() == 1 {
        assert(s =~= seq!['/']);
        assert(s.drop_last() =~= Seq::<char>::empty());
        assert(strip_trailing_slashes(Seq::<char>::empty()) =~= Seq::<char>::empty());
        assert(normalize_spec(s) =~= seq!['/']);
    } else {
        assert(s.last() != '/');
        assert(strip_trailing_slashes(s) == s);
    }
}

/// Canonicalize a user-supplied path string.
pub fn normalize(raw: &str) -> (r: String)
    ensures
        r@ == normalize_spec(raw@),
        is_node_path(r@),
{
    proof {
        reveal_strlit("/");
        lemma_normalize_idempotent(raw@);
    }
    let n = raw.unicode_len();
    let mut k: usize = n;
    while k > 0 && raw.get_char(k - 1) == '/'
        invariant
            k <= n,
            n == raw@.len(),
            forall|i: int| k <= i < n ==> raw@[i] == '/',
        decreases k,
    {
        k -= 1;
    }
    proof {
        lemma_strip_cuts_at(raw@, k as int);
    }
    if k == 0 {
        let r = String::from_str("/");
        proof {
            assert(r@ =~= seq!['/']);
        }
        r
    } else if raw.get_char(0) == '/' {
        let t = raw.substring_char(0, k);
        String::from_str(t)
    } else {
        let t = raw.substring_char(0, k);
        let mut r = String::from_str("/");
        r.append(t);
        proof {
            assert(r@ =~= seq!['/'] + strip_trailing_slashes(raw@));
        }
        r
    }
}

/// Canonicalize a path in place.
pub fn sanitize_path(path: &mut String)
    ensures
        final(path)@ == normalize_spec(old(path)@),
        is_node_path(final(path)@),
{
    let r = normalize(path.as_str());
    *path = r;
}

/// The path of a child node: the parent path and the bare child name joined
/// by a separator, with the root parent contributing no prefix of its own.
pub open spec fn child_path_spec(parent: Seq<char>, name: Seq<char>) -> Seq<char> {
    if parent == seq!['/'] {
        seq!['/'] + name
    } else {
        parent + seq!['/'] + name
    }
}

/// Whether `p` lies in the subtree rooted at `root`: it is `root` itself,
/// or extends it past a separator. (For the root path, whose single
/// character is the separator already, every extension qualifies.)
pub open spec fn within_subtree(p: Seq<char>, root: Seq<char>) -> bool {
    ||| p == root
    ||| {
        &&& p.len() > root.len()
        &&& p.subrange(0, root.len() as int) == root
        &&& (root.len() == 1 || p[root.len() as int] == '/')
    }
}

/// A synthesized child path lies in the subtree of the node it was
/// synthesized under.
pub proof fn lemma_child_path_within(parent: Seq<char>, name: Seq<char>)
    ensures
        within_subtree(child_path_spec(parent, name), parent),
{
    let c = child_path_spec(parent, name);
    if parent == seq!['/'] {
        if name.len() == 0 {
            assert(c =~= parent);
        } else {
            assert(c.subrange(0, 1) =~= parent);
        }
    } else {
        assert(c.subrange(0, parent.len() as int) =~= parent);
        assert(c[parent.len() as int] == '/');
    }
}

/// Subtree containment is transitive.
pub proof fn lemma_within_subtree_transitive(p: Seq<char>, mid: Seq<char>, root: Seq<char>)
    requires
        within_subtree(p, mid),
        within_subtree(mid, root),
    ensures
        within_subtree(p, root),
{
    if p != mid && mid != root {
        assert(p.subrange(0, root.len() as int) =~= mid.subrange(0, root.len() as int));
        if root.len() > 1 {
            assert(p[root.len() as int] == mid[root.len() as int]);
        }
    }
}

/// Synthesize the path of the child called `name` under `parent`.
pub fn child_path(parent: &str, name: &str) -> (r: String)
    ensures
        r@ == child_path_spec(parent@, name@),
{
    proof {
        reveal_strlit("/");
    }
    let root = parent.unicode_len() == 1 && parent.get_char(0) == '/';
    proof {
        if root {
            assert(parent@ =~= seq!['/']);
        }
        if parent@ == seq!['/'] {
            assert(parent@.len() == 1 && parent@[0] == '/');
        }
    }
    let mut r = if root {
        String::new()
    } else {
        String::from_str(parent)
    };
    r.append("/");
    r.append(name);
    proof {
        if root {
            assert(r@ =~= seq!['/'] + name@);
        } else {
            assert(r@ =~= parent@ + seq!['/'] + name@);
        }
    }
    r
}

} // verus!
