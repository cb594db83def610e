//! Resolution of a module specifier against an import map: the scope that
//! applies to the referrer, then the longest key that applies to the
//! specifier.

use vstd::prelude::*;
use vstd::string::*;
use crate::document::{
    entries_view, scopes_view, EntriesView, ImportMap, Scope, ScopesView, SpecifierEntry,
};
use crate::locations::{join_relative, parse_absolute, url_joined, url_parsed};
use crate::specifier::{
    is_path_like, is_prefix_of, key_applies, key_applies_to, path_like, starts_with,
};

verus! {

/// Why a specifier did not resolve.
#[derive(Clone, Copy, Debug, PartialEq, Eq)]
pub enum ResolveError {
    /// The key that applies is mapped to null.
    Blocked,
    /// No key of the mapping in force applies.
    Unmapped,
    /// The address joined with the rest of the specifier is not a URL.
    InvalidResolution,
}

pub open spec fn keys_of(e: EntriesView) -> Seq<Seq<char>> {
    e.map_values(|p: (Seq<char>, Option<Seq<char>>)| p.0)
}

pub open spec fn prefixes_of(s: ScopesView) -> Seq<Seq<char>> {
    s.map_values(|p: (Seq<char>, EntriesView)| p.0)
}

/// A scope prefix applies to a referrer that starts with it; a mapping key
/// applies to a specifier as `key_applies` says.
pub open spec fn applies(k: Seq<char>, s: Seq<char>, scoped: bool) -> bool {
    if scoped {
        is_prefix_of(k, s)
    } else {
        key_applies(k, s)
    }
}

/// Among the first `n` keys, the index of the longest one that applies to
/// `s`; of equally long ones, the last.
pub open spec fn longest(keys: Seq<Seq<char>>, s: Seq<char>, scoped: bool, n: nat) -> Option<int>
    decreases n,
{
    if n == 0 {
        None
    } else {
        let prev = longest(keys, s, scoped, (n - 1) as nat);
        let k = keys[n - 1];
        if applies(k, s, scoped) && (prev is None || keys[prev->0].len() <= k.len()) {
            Some(n - 1)
        } else {
            prev
        }
    }
}

/// The specifier as the mapping keys are written: a path-like specifier
/// resolved against the referrer, an absolute URL in canonical form, and
/// anything else (a bare specifier) as it is.
pub open spec fn normalized(s: Seq<char>, referrer: Seq<char>) -> Seq<char> {
    let u = if is_path_like(s) {
        url_joined(referrer, s)
    } else {
        url_parsed(s)
    };
    match u {
        Some(v) => v,
        None => s,
    }
}

/// The mapping in force for `referrer`: that of the longest scope prefix it
/// starts with, else the top-level one.
pub open spec fn mapping_for(m: (EntriesView, ScopesView), referrer: Seq<char>) -> EntriesView {
    match longest(prefixes_of(m.1), referrer, true, m.1.len()) {
        Some(i) => m.1[i].1,
        None => m.0,
    }
}

/// The result of resolving `s` from `referrer` against the map `m`.
pub open spec fn resolution(m: (EntriesView, ScopesView), s: Seq<char>, referrer: Seq<char>) -> Result<
    Seq<char>,
    ResolveError,
> {
    let n = normalized(s, referrer);
    let entries = mapping_for(m, referrer);
    match longest(keys_of(entries), n, false, entries.len()) {
        None => Err(ResolveError::Unmapped),
        Some(j) => match entries[j].1 {
            None => Err(ResolveError::Blocked),
            Some(a) => if entries[j].0 == n {
                Ok(a)
            } else {
                match url_parsed(a + n.subrange(entries[j].0.len() as int, n.len() as int)) {
                    Some(u) => Ok(u),
                    None => Err(ResolveError::InvalidResolution),
                }
            },
        },
    }
}

pub open spec fn resolved_view(r: Result<String, ResolveError>) -> Result<Seq<char>, ResolveError> {
    match r {
        Ok(u) => Ok(u@),
        Err(e) => Err(e),
    }
}

pub open spec fn index_view(r: Option<usize>) -> Option<int> {
    match r {
        Some(i) => Some(i as int),
        None => None,
    }
}

/// Computes `normalized(s@, referrer@)`.
pub fn normalize(s: &str, referrer: &str) -> (r: String)
    ensures
        r@ == normalized(s@, referrer@),
{
    let u = if path_like(s) {
        join_relative(referrer, s)
    } else {
        parse_absolute(s)
    };
    match u {
        Some(v) => v,
        None => s.to_string(),
    }
}

/// The index of the longest key of `entries` that applies to `s`.
fn longest_entry(entries: &Vec<SpecifierEntry>, s: &str) -> (r: Option<usize>)
    ensures
        index_view(r) == longest(keys_of(entries_view(entries@)), s@, false, entries@.len()),
{
    let ghost keys = keys_of(entries_view(entries@));
    let mut best: Option<usize> = None;
    let mut i: usize = 0;
    while i < entries.len()
        invariant
            i <= entries@.len(),
            keys.len() == entries@.len(),
            forall|j: int| 0 <= j < keys.len() ==> keys[j] == #[trigger] entries@[j].key@,
            index_view(best) == longest(keys, s@, false, i as nat),
            best is Some ==> best->0 < i,
        decreases entries.len() - i,
    {
        let k = entries[i].key.as_str();
        if key_applies_to(k, s) {
            let take = match best {
                None => true,
                Some(b) => entries[b].key.unicode_len() <= k.unicode_len(),
            };
            if take {
                best = Some(i);
            }
        }
        i = i + 1;
    }
    best
}

/// The index of the longest scope prefix that `referrer` starts with.
fn longest_scope(scopes: &Vec<Scope>, referrer: &str) -> (r: Option<usize>)
    ensures
        index_view(r) == longest(
            prefixes_of(scopes_view(scopes@)),
            referrer@,
            true,
            scopes@.len(),
        ),
{
    let ghost keys = prefixes_of(scopes_view(scopes@));
    let mut best: Option<usize> = None;
    let mut i: usize = 0;
    while i < scopes.len()
        invariant
            i <= scopes@.len(),
            keys.len() == scopes@.len(),
            forall|j: int| 0 <= j < keys.len() ==> keys[j] == #[trigger] scopes@[j].prefix@,
            index_view(best) == longest(keys, referrer@, true, i as nat),
            best is Some ==> best->0 < i,
        decreases scopes.len() - i,
    {
        let k = scopes[i].prefix.as_str();
        if starts_with(referrer, k) {
            let take = match best {
                None => true,
                Some(b) => scopes[b].prefix.unicode_len() <= k.unicode_len(),
            };
            if take {
                best = Some(i);
            }
        }
        i = i + 1;
    }
    best
}

/// Resolves `specifier`, imported from `referrer`, against `map`.
///
/// The mapping in force is that of the longest scope prefix that the referrer
/// starts with, or the top-level one. Its longest key that applies to the
/// normalized specifier decides: an exact key gives its address, a prefix key
/// gives its address followed by the rest of the specifier, which must parse
/// as a URL. A key mapped to null blocks; no applicable key leaves the
/// specifier unmapped.
pub fn resolve(specifier: &str, referrer: &str, map: &ImportMap) -> (r: Result<String, ResolveError>)
    ensures
        resolved_view(r) == resolution(map@, specifier@, referrer@),
{
    let n = normalize(specifier, referrer);
    let scope = longest_scope(&map.scopes, referrer);
    proof {
        lemma_longest_applies(
            prefixes_of(scopes_view(map.scopes@)),
            referrer@,
            true,
            map.scopes@.len(),
        );
    }
    let entries: &Vec<SpecifierEntry> = match scope {
        Some(i) => {
            assert(map@.1[i as int] == (map.scopes@[i as int].prefix@, entries_view(
                map.scopes@[i as int].imports@,
            )));
            &map.scopes[i].imports
        },
        None => &map.imports,
    };
    assert(entries_view(entries@) == mapping_for(map@, referrer@));
    let found = longest_entry(entries, n.as_str());
    proof {
        lemma_longest_applies(keys_of(entries_view(entries@)), n@, false, entries@.len());
    }
    match found {
        None => Err(ResolveError::Unmapped),
        Some(j) => {
            let e = &entries[j];
            assert(entries_view(entries@)[j as int] == crate::document::entry_view(*e));
            match &e.address {
                None => Err(ResolveError::Blocked),
                Some(a) => {
                    let kn = e.key.unicode_len();
                    let nn = n.unicode_len();
                    proof {
                        if kn == nn {
                            assert(n@.subrange(0, kn as int) =~= n@);
                        }
                    }
                    if kn == nn {
                        Ok(a.clone())
                    } else {
                        let rest = n.as_str().substring_char(kn, nn);
                        let joined = a.clone().concat(rest);
                        match parse_absolute(joined.as_str()) {
                            Some(u) => Ok(u),
                            None => Err(ResolveError::InvalidResolution),
                        }
                    }
                },
            }
        },
    }
}

/// The longest applicable key: where some key among the first `n` applies to
/// `s`, the one chosen applies and is at least as long as every other that
/// does; where none applies, none is chosen.
pub proof fn lemma_longest_applies(keys: Seq<Seq<char>>, s: Seq<char>, scoped: bool, n: nat)
    requires
        n <= keys.len(),
    ensures
        match longest(keys, s, scoped, n) {
            Some(b) => {
                &&& 0 <= b < n
                &&& applies(keys[b], s, scoped)
                &&& forall|j: int|
                    0 <= j < n && applies(#[trigger] keys[j], s, scoped) ==> keys[j].len()
                        <= keys[b].len()
            },
            None => forall|j: int| 0 <= j < n ==> !applies(#[trigger] keys[j], s, scoped),
        },
    decreases n,
{
    if n > 0 {
        lemma_longest_applies(keys, s, scoped, (n - 1) as nat);
    }
}

/// Where no scope prefix starts the referrer and no top-level key applies to
/// the specifier, the specifier is unmapped. Keys are matched against the
/// specifier's normal form (see `normalized`), so the law holds of a
/// specifier whose normal form no key applies to either: a path-like or
/// absolute specifier that is written otherwise than a key, but resolves to
/// it, is mapped.
pub proof fn unmapped_when_nothing_applies(m: ImportMap, s: Seq<char>, referrer: Seq<char>)
    requires
        forall|i: int| 0 <= i < m@.1.len() ==> !is_prefix_of(#[trigger] m@.1[i].0, referrer),
        forall|j: int| 0 <= j < m@.0.len() ==> !key_applies(#[trigger] m@.0[j].0, s),
        forall|j: int|
            0 <= j < m@.0.len() ==> !key_applies(#[trigger] m@.0[j].0, normalized(s, referrer)),
    ensures
        resolution(m@, s, referrer) == Err::<Seq<char>, ResolveError>(ResolveError::Unmapped),
{
    let prefixes = prefixes_of(m@.1);
    lemma_longest_applies(prefixes, referrer, true, m@.1.len());
    if let Some(b) = longest(prefixes, referrer, true, m@.1.len()) {
        assert(prefixes[b] == m@.1[b].0);
    }
    let keys = keys_of(m@.0);
    let n = normalized(s, referrer);
    lemma_longest_applies(keys, n, false, m@.0.len());
    if let Some(b) = longest(keys, n, false, m@.0.len()) {
        assert(keys[b] == m@.0[b].0);
    }
}

/// A bare specifier (neither path-like nor an absolute URL) is its own normal
/// form: where no scope prefix starts the referrer and no top-level key
/// applies to it, it is unmapped.
pub proof fn unmapped_bare_specifier(m: ImportMap, s: Seq<char>, referrer: Seq<char>)
    requires
        !is_path_like(s),
        url_parsed(s) is None,
        forall|i: int| 0 <= i < m@.1.len() ==> !is_prefix_of(#[trigger] m@.1[i].0, referrer),
        forall|j: int| 0 <= j < m@.0.len() ==> !key_applies(#[trigger] m@.0[j].0, s),
    ensures
        resolution(m@, s, referrer) == Err::<Seq<char>, ResolveError>(ResolveError::Unmapped),
{
    assert(normalized(s, referrer) == s);
    unmapped_when_nothing_applies(m, s, referrer);
}

/// The top-level key that is longest among those that apply to the specifier
/// decides, for a referrer that no scope prefix starts: a key mapped to null
/// blocks, an exact key gives its address, and a prefix key gives its address
/// followed by the rest of the specifier.
pub proof fn longest_key_decides(m: ImportMap, s: Seq<char>, referrer: Seq<char>, j: int)
    requires
        m.wf(),
        forall|i: int| 0 <= i < m@.1.len() ==> !is_prefix_of(#[trigger] m@.1[i].0, referrer),
        0 <= j < m@.0.len(),
        key_applies(m@.0[j].0, normalized(s, referrer)),
        forall|i: int|
            0 <= i < m@.0.len() && key_applies(#[trigger] m@.0[i].0, normalized(s, referrer))
                ==> m@.0[i].0.len() <= m@.0[j].0.len(),
    ensures
        resolution(m@, s, referrer) == match m@.0[j].1 {
            None => Err(ResolveError::Blocked),
            Some(a) => if m@.0[j].0 == normalized(s, referrer) {
                Ok(a)
            } else {
                let n = normalized(s, referrer);
                match url_parsed(a + n.subrange(m@.0[j].0.len() as int, n.len() as int)) {
                    Some(u) => Ok(u),
                    None => Err(ResolveError::InvalidResolution),
                }
            },
        },
{
    let prefixes = prefixes_of(m@.1);
    lemma_longest_applies(prefixes, referrer, true, m@.1.len());
    if let Some(b) = longest(prefixes, referrer, true, m@.1.len()) {
        assert(prefixes[b] == m@.1[b].0);
    }
    let keys = keys_of(m@.0);
    let n = normalized(s, referrer);
    assert(keys[j] == m@.0[j].0);
    lemma_longest_applies(keys, n, false, m@.0.len());
    let b = longest(keys, n, false, m@.0.len())->0;
    assert(keys[b] == m@.0[b].0);
    lemma_same_length_keys(keys[b], keys[j], n);
}

/// Two keys of one length that both apply to a specifier are the same key.
proof fn lemma_same_length_keys(k1: Seq<char>, k2: Seq<char>, n: Seq<char>)
    requires
        key_applies(k1, n),
        key_applies(k2, n),
        k1.len() == k2.len(),
    ensures
        k1 == k2,
{
    if k1 != n && k2 != n {
        assert(k1 =~= n.subrange(0, k1.len() as int));
        assert(k2 =~= n.subrange(0, k2.len() as int));
    } else if k1 == n {
        if k2 != n {
            assert(k2 =~= n.subrange(0, k2.len() as int));
            assert(n.subrange(0, n.len() as int) =~= n);
        }
    } else {
        assert(k1 =~= n.subrange(0, k1.len() as int));
        assert(n.subrange(0, n.len() as int) =~= n);
    }
}

/// A specifier whose own top-level key is mapped to null is blocked, for a
/// referrer that no scope prefix starts.
pub proof fn null_entry_blocks(m: ImportMap, s: Seq<char>, referrer: Seq<char>, j: int)
    requires
        m.wf(),
        forall|i: int| 0 <= i < m@.1.len() ==> !is_prefix_of(#[trigger] m@.1[i].0, referrer),
        0 <= j < m@.0.len(),
        m@.0[j].0 == normalized(s, referrer),
        m@.0[j].1 is None,
    ensures
        resolution(m@, s, referrer) == Err::<Seq<char>, ResolveError>(ResolveError::Blocked),
{
    let n = normalized(s, referrer);
    assert forall|i: int| 0 <= i < m@.0.len() && key_applies(#[trigger] m@.0[i].0, n) implies m@.0[i].0.len()
        <= m@.0[j].0.len() by {
        if m@.0[i].0 != n {
            assert(is_prefix_of(m@.0[i].0, n));
        }
    }
    longest_key_decides(m, s, referrer, j);
}

} // verus!
