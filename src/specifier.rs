//! Classification and matching of specifier strings.

use vstd::prelude::*;
use vstd::string::*;

verus! {

/// `p` is a prefix of `s`.
pub open spec fn is_prefix_of(p: Seq<char>, s: Seq<char>) -> bool {
    p.len() <= s.len() && s.subrange(0, p.len() as int) == p
}

/// `k` is a prefix entry: it ends in a slash.
pub open spec fn is_prefix_key(k: Seq<char>) -> bool {
    k.len() > 0 && k.last() == '/'
}

/// A mapping key applies to a specifier when it equals the specifier, or when
/// it ends in a slash and the specifier starts with it.
pub open spec fn key_applies(k: Seq<char>, s: Seq<char>) -> bool {
    k == s || (is_prefix_key(k) && is_prefix_of(k, s))
}

/// The specifier is written as a path relative to its referrer.
pub open spec fn is_path_like(s: Seq<char>) -> bool {
    is_prefix_of(seq!['/'], s) || is_prefix_of(seq!['.', '/'], s) || is_prefix_of(
        seq!['.', '.', '/'],
        s,
    )
}

/// Decides `is_prefix_of(p@, s@)`.
pub fn starts_with(s: &str, p: &str) -> (r: bool)
    ensures
        r == is_prefix_of(p@, s@),
{
    let pn = p.unicode_len();
    let sn = s.unicode_len();
    if pn > sn {
        return false;
    }
    let mut i: usize = 0;
    while i < pn
        invariant
            pn == p@.len(),
            sn == s@.len(),
            pn <= sn,
            i <= pn,
            forall|j: int| 0 <= j < i ==> s@[j] == p@[j],
        decreases pn - i,
    {
        if s.get_char(i) != p.get_char(i) {
            assert(s@.subrange(0, pn as int)[i as int] != p@[i as int]);
            return false;
        }
        i = i + 1;
    }
    assert(s@.subrange(0, pn as int) =~= p@);
    true
}

/// Decides `is_prefix_key(k@)`.
pub fn ends_with_slash(k: &str) -> (r: bool)
    ensures
        r == is_prefix_key(k@),
{
    let n = k.unicode_len();
    n > 0 && k.get_char(n - 1) == '/'
}

/// Decides `key_applies(k@, s@)`.
pub fn key_applies_to(k: &str, s: &str) -> (r: bool)
    ensures
        r == key_applies(k@, s@),
{
    if ends_with_slash(k) && starts_with(s, k) {
        return true;
    }
    let kn = k.unicode_len();
    if kn != s.unicode_len() {
        return false;
    }
    let eq = starts_with(s, k);
    proof {
        assert(s@.subrange(0, kn as int) =~= s@);
    }
    eq
}

/// Decides `is_path_like(s@)`: the specifier starts with `/`, `./` or `../`.
pub fn path_like(s: &str) -> (r: bool)
    ensures
        r == is_path_like(s@),
{
    let r = starts_with(s, "/") || starts_with(s, "./") || starts_with(s, "../");
    proof {
        reveal_strlit("/");
        reveal_strlit("./");
        reveal_strlit("../");
        assert("/"@ =~= seq!['/']);
        assert("./"@ =~= seq!['.', '/']);
        assert("../"@ =~= seq!['.', '.', '/']);
    }
    r
}

} // verus!
