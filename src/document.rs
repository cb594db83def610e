//! The parsed import map, held as plain strings, and the parse of a JSON
//! import map document, done by the `import_map` crate.

use vstd::prelude::*;
use vstd::multiset::Multiset;
use crate::locations::url_parsed;

verus! {

/// What a mapping holds: each key with its address, `None` for a key mapped
/// to null.
pub type EntriesView = Seq<(Seq<char>, Option<Seq<char>>)>;

/// What the scopes hold: each scope prefix with its mapping.
pub type ScopesView = Seq<(Seq<char>, EntriesView)>;

/// A mapping key with the absolute URL it maps to; `None` blocks the key.
#[derive(Clone, Debug, PartialEq, Eq)]
pub struct SpecifierEntry {
    pub key: String,
    pub address: Option<String>,
}

/// A mapping that applies to referrers under `prefix`.
#[derive(Clone, Debug, PartialEq, Eq)]
pub struct Scope {
    pub prefix: String,
    pub imports: Vec<SpecifierEntry>,
}

/// An import map: the top-level mapping and the scoped ones.
#[derive(Clone, Debug, PartialEq, Eq)]
pub struct ImportMap {
    pub imports: Vec<SpecifierEntry>,
    pub scopes: Vec<Scope>,
}

/// A parsed import map with the warnings met on the way.
#[derive(Clone, Debug, PartialEq, Eq)]
pub struct ParsedResult {
    pub import_map: ImportMap,
    pub warnings: Vec<String>,
}

pub open spec fn entry_view(e: SpecifierEntry) -> (Seq<char>, Option<Seq<char>>) {
    (
        e.key@,
        match e.address {
            Some(a) => Some(a@),
            None => None,
        },
    )
}

pub open spec fn entries_view(v: Seq<SpecifierEntry>) -> EntriesView {
    v.map_values(|e: SpecifierEntry| entry_view(e))
}

pub open spec fn scopes_view(v: Seq<Scope>) -> ScopesView {
    v.map_values(|s: Scope| (s.prefix@, entries_view(s.imports@)))
}

pub open spec fn strings_view(v: Seq<String>) -> Seq<Seq<char>> {
    v.map_values(|s: String| s@)
}

/// No key stands twice in the mapping.
pub open spec fn keys_distinct(e: EntriesView) -> bool {
    forall|i: int, j: int| 0 <= i < j < e.len() ==> e[i].0 != e[j].0
}

impl View for ImportMap {
    type V = (EntriesView, ScopesView);

    open spec fn view(&self) -> (EntriesView, ScopesView) {
        (entries_view(self.imports@), scopes_view(self.scopes@))
    }
}

impl ImportMap {
    /// Keys are distinct within each mapping, and scope prefixes are distinct.
    pub open spec fn wf(&self) -> bool {
        let (imports, scopes) = self@;
        &&& keys_distinct(imports)
        &&& forall|i: int| 0 <= i < scopes.len() ==> keys_distinct(#[trigger] scopes[i].1)
        &&& forall|i: int, j: int| 0 <= i < j < scopes.len() ==> scopes[i].0 != scopes[j].0
    }
}

/// The map that a parse gives, or the message of its fatal error.
pub open spec fn map_outcome(r: Result<ParsedResult, String>) -> Result<
    (EntriesView, ScopesView),
    Seq<char>,
> {
    match r {
        Ok(p) => Ok(p.import_map@),
        Err(e) => Err(e@),
    }
}

/// The warnings of a successful parse, with their order forgotten.
pub open spec fn warning_bag(p: ParsedResult) -> Multiset<Seq<char>> {
    strings_view(p.warnings@).to_multiset()
}

/// The map that `import_map::parse_from_json` makes of the document `text`
/// against the base URL `base`, or the message of its fatal error.
pub uninterp spec fn parsed_document(text: Seq<char>, base: Seq<char>) -> Result<
    (EntriesView, ScopesView),
    Seq<char>,
>;

/// The messages of the warnings that `import_map::parse_from_json` gives for
/// the document `text` against the base URL `base`, each as often as it
/// comes. Their order is not named: the warnings for unknown top-level keys
/// come in the order of a walk over a hash set.
pub uninterp spec fn parsed_warnings(text: Seq<char>, base: Seq<char>) -> Multiset<Seq<char>>;

#[verifier::external_type_specification]
#[verifier::external_body]
pub struct ExSpecifierMap(import_map::SpecifierMap);

/// Relies on `import_map::SpecifierMap::entries`, which walks an index map:
/// each resolved key comes once.
#[verifier::external_body]
fn entries_of(m: &import_map::SpecifierMap) -> (r: Vec<SpecifierEntry>)
    ensures
        keys_distinct(entries_view(r@)),
{
    m.entries().map(|e| SpecifierEntry { key: e.key.to_string(), address: e.value.map(|u| u.to_string()) }).collect()
}

/// Relies on `url::Url::parse` for the base URL and on
/// `import_map::parse_from_json` for the document; errors and diagnostics
/// are turned into their messages.
#[verifier::external_body]
fn read_document(text: &str, base: &str) -> (r: Result<ParsedResult, String>)
    ensures
        map_outcome(r) == parsed_document(text@, base@),
        r is Ok ==> warning_bag(r->Ok_0) == parsed_warnings(text@, base@),
        url_parsed(base@) is None ==> r is Err,
        r is Ok ==> r->Ok_0.import_map.wf(),
{
    let base = url::Url::parse(base).map_err(|e| e.to_string())?;
    let parsed = import_map::parse_from_json(base, text).map_err(|e| e.to_string())?;
    let m = &parsed.import_map;
    let scopes = m.scopes().map(|s| Scope { prefix: s.key.to_string(), imports: entries_of(s.imports) });
    let warnings = parsed.diagnostics.iter().map(|d| d.to_string()).collect();
    Ok(ParsedResult { import_map: ImportMap { imports: entries_of(m.imports()), scopes: scopes.collect() }, warnings })
}

/// Parses the JSON import map `input` against the base URL `url`.
///
/// Fatal, with the error's message: an unparseable base URL, a document that
/// is not JSON, a document whose top level, `imports` or `scopes` is not an
/// object, and a scope whose value is not an object. Any other bad entry
/// gives a warning: an empty key or an invalid scope prefix is dropped, and a
/// key whose address does not parse stays, mapped to null.
pub fn parse_import_map(input: &str, url: &str) -> (r: Result<ParsedResult, String>)
    ensures
        map_outcome(r) == parsed_document(input@, url@),
        r is Ok ==> warning_bag(r->Ok_0) == parsed_warnings(input@, url@),
        url_parsed(url@) is None ==> r is Err,
        r is Ok ==> r->Ok_0.import_map.wf(),
{
    read_document(input, url)
}

/// Parsing is a function of the text and the base: two parses of the same
/// document against the same base give equal maps and the same warnings,
/// each as often, or equal errors.
pub proof fn parse_is_deterministic(
    text: Seq<char>,
    base: Seq<char>,
    first: Result<ParsedResult, String>,
    second: Result<ParsedResult, String>,
)
    requires
        map_outcome(first) == parsed_document(text, base),
        first is Ok ==> warning_bag(first->Ok_0) == parsed_warnings(text, base),
        map_outcome(second) == parsed_document(text, base),
        second is Ok ==> warning_bag(second->Ok_0) == parsed_warnings(text, base),
    ensures
        map_outcome(first) == map_outcome(second),
        first is Ok <==> second is Ok,
        first is Ok ==> warning_bag(first->Ok_0) == warning_bag(second->Ok_0),
{
}

} // verus!
