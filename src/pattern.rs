//! Route patterns: syntax and shape.
//!
//! A pattern is an ASCII path such as `/users/:id/repos`. It starts with `/`,
//! has no empty segment but possibly an empty last one (a trailing slash, which
//! makes a distinct pattern), and a segment that starts with `:` is a named
//! parameter whose name is the rest of the segment and is never empty.
//! Two patterns have the same shape when they differ only in the names of
//! their parameters; a table keeps one route per shape.

use vstd::prelude::*;

verus! {

/// A character that may stand in a route pattern.
pub open spec fn pattern_char(c: char) -> bool {
    (c as u32) < 128 && c != '*'
}

/// `p` is a well-formed route pattern.
pub open spec fn valid_pattern(p: Seq<char>) -> bool {
    &&& p.len() >= 1
    &&& p[0] == '/'
    &&& forall|i: int| 0 <= i < p.len() ==> #[trigger] pattern_char(p[i])
    &&& forall|i: int|
        0 <= i < p.len() && #[trigger] p[i] == ':' ==> i > 0 && p[i - 1] == '/' && i + 1 < p.len()
            && p[i + 1] != '/'
    &&& forall|i: int| 0 <= i < p.len() - 1 && #[trigger] p[i] == '/' ==> p[i + 1] != '/'
}

/// After reading `s`, the reader stands inside a parameter name.
pub open spec fn in_param(s: Seq<char>) -> bool
    decreases s.len(),
{
    if s.len() == 0 {
        false
    } else {
        let c = s.last();
        c == ':' || (c != '/' && in_param(s.drop_last()))
    }
}

/// The shape of `s`: the pattern with the names of its parameters erased.
pub open spec fn shape(s: Seq<char>) -> Seq<char>
    decreases s.len(),
{
    if s.len() == 0 {
        Seq::empty()
    } else {
        let c = s.last();
        let init = s.drop_last();
        if c == '/' || c == ':' || !in_param(init) {
            shape(init).push(c)
        } else {
            shape(init)
        }
    }
}

/// Why a pattern was refused.
#[derive(Clone, Copy, Debug, PartialEq, Eq)]
pub enum PatternError {
    /// The pattern breaks the route syntax.
    Malformed,
}

/// Whether `p` is a well-formed route pattern.
pub fn is_valid_pattern(p: &str) -> (r: bool)
    ensures
        r == valid_pattern(p@),
{
    let n = p.unicode_len();
    if n == 0 || p.get_char(0) != '/' {
        return false;
    }
    let mut i: usize = 0;
    while i < n
        invariant
            n == p@.len(),
            i <= n,
            p@[0] == '/',
            forall|k: int| 0 <= k < i ==> #[trigger] pattern_char(p@[k]),
            forall|k: int|
                0 <= k < i && #[trigger] p@[k] == ':' ==> k > 0 && p@[k - 1] == '/' && k + 1
                    < p@.len() && p@[k + 1] != '/',
            forall|k: int| 0 <= k < i && k < n - 1 && #[trigger] p@[k] == '/' ==> p@[k + 1] != '/',
        decreases n - i,
    {
        let c = p.get_char(i);
        if (c as u32) >= 128 || c == '*' {
            assert(!pattern_char(p@[i as int]));
            return false;
        }
        if c == ':' {
            if i == 0 || p.get_char(i - 1) != '/' || i + 1 >= n || p.get_char(i + 1) == '/' {
                return false;
            }
        }
        if c == '/' && i + 1 < n {
            if p.get_char(i + 1) == '/' {
                return false;
            }
        }
        i = i + 1;
    }
    true
}

/// The shape of `p`, as characters.
pub fn shape_of(p: &str) -> (r: Vec<char>)
    ensures
        r@ == shape(p@),
{
    let n = p.unicode_len();
    let mut out: Vec<char> = Vec::new();
    let mut inside = false;
    let mut i: usize = 0;
    while i < n
        invariant
            n == p@.len(),
            i <= n,
            out@ == shape(p@.subrange(0, i as int)),
            inside == in_param(p@.subrange(0, i as int)),
        decreases n - i,
    {
        let c = p.get_char(i);
        proof {
            let next = p@.subrange(0, i + 1);
            assert(next.drop_last() =~= p@.subrange(0, i as int));
            assert(next.last() == c);
        }
        if c == '/' || c == ':' || !inside {
            out.push(c);
        }
        inside = c == ':' || (c != '/' && inside);
        i = i + 1;
    }
    assert(p@.subrange(0, n as int) =~= p@);
    out
}

/// Whether two character sequences are equal.
pub fn same_chars(a: &Vec<char>, b: &Vec<char>) -> (r: bool)
    ensures
        r == (a@ == b@),
{
    if a.len() != b.len() {
        return false;
    }
    let mut i: usize = 0;
    while i < a.len()
        invariant
            a@.len() == b@.len(),
            i <= a@.len(),
            forall|k: int| 0 <= k < i ==> a@[k] == b@[k],
        decreases a@.len() - i,
    {
        if a[i] != b[i] {
            return false;
        }
        i = i + 1;
    }
    assert(a@ =~= b@);
    true
}

} // verus!
