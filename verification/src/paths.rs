//! Path arithmetic on plain strings.
//!
//! The engines treat a path as the characters of its textual form, with `/`
//! as the separator. A path's depth is its number of separators; a path is
//! under a root when it extends the root by a separator and a non-empty
//! remainder. Deleting in order of decreasing depth is what guarantees that
//! children are handled before their parents.

use vstd::prelude::*;

verus! {

/// Whether two path strings read the same.
pub fn str_eq(a: &str, b: &str) -> (r: bool)
    ensures
        r == (a@ == b@),
{
    let na = a.unicode_len();
    let nb = b.unicode_len();
    if na != nb {
        return false;
    }
    let mut i: usize = 0;
    while i < na
        invariant
            i <= na,
            na == a@.len(),
            na == b@.len(),
            forall|k: int| 0 <= k < i ==> a@[k] == b@[k],
        decreases na - i,
    {
        if a.get_char(i) != b.get_char(i) {
            return false;
        }
        i = i + 1;
    }
    proof {
        assert(a@ =~= b@);
    }
    true
}

/// The number of separator characters in a path.
pub open spec fn spec_depth(p: Seq<char>) -> nat
    decreases p.len(),
{
    if p.len() == 0 {
        0
    } else {
        spec_depth(p.drop_last()) + if p.last() == '/' {
            1nat
        } else {
            0nat
        }
    }
}

/// Depth distributes over concatenation.
pub proof fn lemma_depth_concat(x: Seq<char>, y: Seq<char>)
    ensures
        spec_depth(x + y) == spec_depth(x) + spec_depth(y),
    decreases y.len(),
{
    if y.len() == 0 {
        assert(x + y =~= x);
    } else {
        lemma_depth_concat(x, y.drop_last());
        assert((x + y).drop_last() =~= x + y.drop_last());
    }
}

/// Whether `p` lies strictly under the directory `root`: it extends the root
/// by the separator and a non-empty remainder.
pub open spec fn spec_is_under(p: Seq<char>, root: Seq<char>) -> bool {
    &&& p.len() > root.len() + 1
    &&& p.subrange(0, root.len() as int) == root
    &&& p[root.len() as int] == '/'
}

/// Anything under a directory is strictly deeper than the directory.
pub proof fn lemma_under_is_deeper(p: Seq<char>, root: Seq<char>)
    requires
        spec_is_under(p, root),
    ensures
        spec_depth(p) > spec_depth(root),
{
    let k = root.len() as int;
    assert(p =~= p.subrange(0, k + 1) + p.skip(k + 1));
    lemma_depth_concat(p.subrange(0, k + 1), p.skip(k + 1));
    assert(p.subrange(0, k + 1) =~= root.push('/'));
    assert(p.subrange(0, k + 1).drop_last() =~= root);
}

/// Count the separators in a path.
pub fn path_depth(p: &str) -> (d: usize)
    ensures
        d == spec_depth(p@),
{
    let n = p.unicode_len();
    let mut d: usize = 0;
    let mut i: usize = 0;
    proof {
        assert(p@.subrange(0, 0) =~= Seq::<char>::empty());
    }
    while i < n
        invariant
            i <= n,
            n == p@.len(),
            d <= i,
            d == spec_depth(p@.subrange(0, i as int)),
        decreases n - i,
    {
        let c = p.get_char(i);
        proof {
            assert(p@.subrange(0, i + 1).drop_last() =~= p@.subrange(0, i as int));
        }
        if c == '/' {
            d = d + 1;
        }
        i = i + 1;
    }
    proof {
        assert(p@.subrange(0, n as int) =~= p@);
    }
    d
}

/// The joined path `root/rel`.
pub open spec fn spec_join(root: Seq<char>, rel: Seq<char>) -> Seq<char> {
    root.push('/') + rel
}

/// Join a root and a relative path with the separator.
pub fn join_path(root: &str, rel: &str) -> (r: String)
    ensures
        r@ == spec_join(root@, rel@),
{
    let mut r = root.to_owned();
    r.append("/");
    r.append(rel);
    proof {
        reveal_strlit("/");
        assert(root@ + "/"@ + rel@ =~= spec_join(root@, rel@));
    }
    r
}

/// The path relative to `root`, when `p` lies under it.
pub open spec fn spec_rel(p: Seq<char>, root: Seq<char>) -> Seq<char> {
    p.skip(root.len() as int + 1)
}

/// Strip a root prefix: the relative remainder when `p` lies under `root`,
/// and nothing otherwise.
pub fn strip_prefix(p: &str, root: &str) -> (r: Option<String>)
    ensures
        match r {
            Some(rel) => spec_is_under(p@, root@) && rel@ == spec_rel(p@, root@),
            None => !spec_is_under(p@, root@),
        },
{
    let np = p.unicode_len();
    let nr = root.unicode_len();
    if np <= nr || np - nr <= 1 {
        return None;
    }
    let mut i: usize = 0;
    while i < nr
        invariant
            i <= nr,
            nr == root@.len(),
            np == p@.len(),
            np > nr + 1,
            forall|k: int| 0 <= k < i ==> p@[k] == root@[k],
        decreases nr - i,
    {
        if p.get_char(i) != root.get_char(i) {
            proof {
                assert(p@.subrange(0, nr as int)[i as int] != root@[i as int]);
            }
            return None;
        }
        i = i + 1;
    }
    if p.get_char(nr) != '/' {
        return None;
    }
    proof {
        assert(p@.subrange(0, nr as int) =~= root@);
    }
    Some(p.substring_char(nr + 1, np).to_owned())
}

/// How often `c` occurs in `s`.
pub open spec fn spec_count_char(s: Seq<char>, c: char) -> nat
    decreases s.len(),
{
    if s.len() == 0 {
        0
    } else {
        spec_count_char(s.drop_last(), c) + if s.last() == c {
            1nat
        } else {
            0nat
        }
    }
}

/// A character is absent exactly when its count is zero.
pub proof fn lemma_count_zero(s: Seq<char>, c: char)
    ensures
        spec_count_char(s, c) == 0 <==> forall|i: int| 0 <= i < s.len() ==> s[i] != c,
    decreases s.len(),
{
    if s.len() > 0 {
        lemma_count_zero(s.drop_last(), c);
        if spec_count_char(s, c) == 0 {
            assert forall|i: int| 0 <= i < s.len() implies s[i] != c by {
                if i < s.len() - 1 {
                    assert(s.drop_last()[i] == s[i]);
                }
            }
        }
        if forall|i: int| 0 <= i < s.len() ==> s[i] != c {
            assert forall|i: int| 0 <= i < s.drop_last().len() implies s.drop_last()[i] != c by {
                assert(s.drop_last()[i] == s[i]);
            }
        }
    }
}

/// Count the occurrences of one character.
pub fn count_char(s: &str, c: char) -> (n: usize)
    ensures
        n == spec_count_char(s@, c),
{
    let len = s.unicode_len();
    let mut n: usize = 0;
    let mut i: usize = 0;
    proof {
        assert(s@.subrange(0, 0) =~= Seq::<char>::empty());
    }
    while i < len
        invariant
            i <= len,
            len == s@.len(),
            n <= i,
            n == spec_count_char(s@.subrange(0, i as int), c),
        decreases len - i,
    {
        proof {
            assert(s@.subrange(0, i + 1).drop_last() =~= s@.subrange(0, i as int));
        }
        if s.get_char(i) == c {
            n = n + 1;
        }
        i = i + 1;
    }
    proof {
        assert(s@.subrange(0, len as int) =~= s@);
    }
    n
}

/// Split at the first occurrence of `c`: the part before it, which holds no
/// `c`, and the part after it. Nothing when `c` does not occur.
pub fn split_once_char(s: &str, c: char) -> (r: Option<(String, String)>)
    ensures
        match r {
            Some(parts) => s@ == parts.0@ + seq![c] + parts.1@ && spec_count_char(parts.0@, c)
                == 0,
            None => spec_count_char(s@, c) == 0,
        },
{
    let len = s.unicode_len();
    let mut i: usize = 0;
    while i < len
        invariant
            i <= len,
            len == s@.len(),
            forall|k: int| 0 <= k < i ==> s@[k] != c,
        decreases len - i,
    {
        if s.get_char(i) == c {
            let before = s.substring_char(0, i).to_owned();
            let after = s.substring_char(i + 1, len).to_owned();
            proof {
                assert(s@ =~= before@ + seq![c] + after@);
                lemma_count_zero(before@, c);
            }
            return Some((before, after));
        }
        i = i + 1;
    }
    proof {
        lemma_count_zero(s@, c);
    }
    None
}

/// Whitespace as the remote command output is trimmed of it.
pub open spec fn spec_is_ws(c: char) -> bool {
    c == ' ' || c == '\n' || c == '\t' || c == '\r'
}

/// `s` without leading whitespace.
pub open spec fn spec_trim_start(s: Seq<char>) -> Seq<char>
    decreases s.len(),
{
    if s.len() == 0 {
        s
    } else if spec_is_ws(s.first()) {
        spec_trim_start(s.drop_first())
    } else {
        s
    }
}

/// `s` without trailing whitespace.
pub open spec fn spec_trim_end(s: Seq<char>) -> Seq<char>
    decreases s.len(),
{
    if s.len() == 0 {
        s
    } else if spec_is_ws(s.last()) {
        spec_trim_end(s.drop_last())
    } else {
        s
    }
}

/// `s` without leading and trailing whitespace.
pub open spec fn spec_trim(s: Seq<char>) -> Seq<char> {
    spec_trim_end(spec_trim_start(s))
}

/// Whether an executable character is whitespace.
fn is_ws(c: char) -> (r: bool)
    ensures
        r == spec_is_ws(c),
{
    c == ' ' || c == '\n' || c == '\t' || c == '\r'
}

/// Trim leading and trailing whitespace, as a remote command's output is
/// trimmed before it is interpreted.
pub fn trim_str(s: &str) -> (r: String)
    ensures
        r@ == spec_trim(s@),
{
    let len = s.unicode_len();
    let mut lo: usize = 0;
    proof {
        assert(s@.skip(0) =~= s@);
    }
    while lo < len && is_ws(s.get_char(lo))
        invariant
            lo <= len,
            len == s@.len(),
            spec_trim_start(s@) == spec_trim_start(s@.skip(lo as int)),
        decreases len - lo,
    {
        proof {
            assert(s@.skip(lo as int).drop_first() =~= s@.skip(lo + 1));
        }
        lo = lo + 1;
    }
    let mut hi: usize = len;
    proof {
        if lo < len {
            assert(spec_trim_start(s@.skip(lo as int)) == s@.skip(lo as int));
        } else {
            assert(s@.skip(lo as int) =~= Seq::<char>::empty());
        }
        assert(s@.skip(lo as int).subrange(0, hi - lo) =~= s@.subrange(lo as int, hi as int));
    }
    while hi > lo && is_ws(s.get_char(hi - 1))
        invariant
            lo <= hi <= len,
            len == s@.len(),
            spec_trim_start(s@) == s@.skip(lo as int),
            spec_trim_end(s@.skip(lo as int)) == spec_trim_end(
                s@.subrange(lo as int, hi as int),
            ),
        decreases hi,
    {
        proof {
            assert(s@.subrange(lo as int, hi as int).drop_last() =~= s@.subrange(
                lo as int,
                hi - 1,
            ));
            assert(s@.subrange(lo as int, hi as int).last() == s@[hi - 1]);
        }
        hi = hi - 1;
    }
    proof {
        let t = s@.subrange(lo as int, hi as int);
        if hi > lo {
            assert(t.last() == s@[hi - 1]);
            assert(spec_trim_end(t) == t);
        } else {
            assert(t =~= Seq::<char>::empty());
        }
    }
    s.substring_char(lo, hi).to_owned()
}

/// Two different paths under one root keep different remainders: the root,
/// the separator and the remainder reassemble the whole path.
pub proof fn lemma_rel_injective(p1: Seq<char>, p2: Seq<char>, root: Seq<char>)
    requires
        spec_is_under(p1, root),
        spec_is_under(p2, root),
        spec_rel(p1, root) == spec_rel(p2, root),
    ensures
        p1 == p2,
{
    let k = root.len() as int;
    assert(p1.len() == k + 1 + spec_rel(p1, root).len());
    assert(p2.len() == k + 1 + spec_rel(p2, root).len());
    assert forall|i: int| 0 <= i < p1.len() implies p1[i] == p2[i] by {
        if i < k {
            assert(p1.subrange(0, k)[i] == root[i]);
            assert(p2.subrange(0, k)[i] == root[i]);
        } else if i > k {
            assert(spec_rel(p1, root)[i - k - 1] == p1[i]);
            assert(spec_rel(p2, root)[i - k - 1] == p2[i]);
        }
    }
    assert(p1 =~= p2);
}

/// Joining one root with two different remainders yields different paths.
pub proof fn lemma_join_injective(root: Seq<char>, r1: Seq<char>, r2: Seq<char>)
    requires
        spec_join(root, r1) == spec_join(root, r2),
    ensures
        r1 == r2,
{
    assert(spec_join(root, r1).skip(root.len() as int + 1) =~= r1);
    assert(spec_join(root, r2).skip(root.len() as int + 1) =~= r2);
}

/// The largest index of a separator in `p`, and -1 if there is none.
pub open spec fn spec_last_slash(p: Seq<char>) -> int
    decreases p.len(),
{
    if p.len() == 0 {
        -1
    } else if p.last() == '/' {
        p.len() - 1
    } else {
        spec_last_slash(p.drop_last())
    }
}

/// The parent directory of a path: everything before the last separator,
/// and nothing when the path has no separator.
pub open spec fn spec_parent(p: Seq<char>) -> Option<Seq<char>> {
    if spec_last_slash(p) < 0 {
        None
    } else {
        Some(p.subrange(0, spec_last_slash(p)))
    }
}

/// The parent directory of a path, used to create destination directories
/// before the files in them.
pub fn parent_dir(p: &str) -> (r: Option<String>)
    ensures
        match r {
            Some(parent) => spec_parent(p@) == Some(parent@),
            None => spec_parent(p@) is None,
        },
{
    let n = p.unicode_len();
    let mut i: usize = n;
    proof {
        assert(p@.subrange(0, n as int) =~= p@);
    }
    while i > 0
        invariant
            i <= n,
            n == p@.len(),
            spec_last_slash(p@) == spec_last_slash(p@.subrange(0, i as int)),
        decreases i,
    {
        let c = p.get_char(i - 1);
        proof {
            assert(p@.subrange(0, i as int).drop_last() =~= p@.subrange(0, i - 1));
        }
        if c == '/' {
            proof {
                assert(spec_last_slash(p@.subrange(0, i as int)) == i - 1);
            }
            return Some(p.substring_char(0, i - 1).to_owned());
        }
        i = i - 1;
    }
    proof {
        assert(p@.subrange(0, 0) =~= Seq::<char>::empty());
    }
    None
}

} // verus!
