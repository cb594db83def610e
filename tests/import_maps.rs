use import_map_wasm::document::{parse_import_map, ImportMap, ParsedResult, SpecifierEntry};
use import_map_wasm::resolver::{normalize, resolve, ResolveError};

const BASE: &str = "https://e.com/";

fn parsed(doc: &str) -> ParsedResult {
    parse_import_map(doc, BASE).expect("document parses")
}

fn map_of(doc: &str) -> ImportMap {
    parsed(doc).import_map
}

#[test]
fn parse_twice_gives_equal_results() {
    let doc = r#"{"imports": {"a/": "/x/", "b": "https://[bad"}, "scopes": {"/s/": {"c": "./c.js"}}}"#;
    let first = parse_import_map(doc, BASE);
    let second = parse_import_map(doc, BASE);
    assert_eq!(first, second);
    assert_eq!(first.unwrap().warnings.len(), 1);
}

#[test]
fn unmapped_without_scope_or_entry() {
    let map = map_of(r#"{"imports": {"a": "/a.js"}, "scopes": {"/s/": {"b": "/b.js"}}}"#);
    assert_eq!(resolve("b", "https://e.com/main.js", &map), Err(ResolveError::Unmapped));
    assert_eq!(resolve("zzz", "https://e.com/main.js", &map), Err(ResolveError::Unmapped));
}

#[test]
fn empty_map_leaves_everything_unmapped() {
    let map = map_of("{}");
    assert!(map.imports.is_empty());
    assert!(map.scopes.is_empty());
    assert_eq!(resolve("a", "https://e.com/main.js", &map), Err(ResolveError::Unmapped));
}

#[test]
fn longest_prefix_wins() {
    let map = map_of(r#"{"imports": {"a/": "/x/", "a/b/": "/y/"}}"#);
    assert_eq!(
        resolve("a/b/c", "https://e.com/main.js", &map),
        Ok("https://e.com/y/c".to_string())
    );
    assert_eq!(
        resolve("a/z", "https://e.com/main.js", &map),
        Ok("https://e.com/x/z".to_string())
    );
}

#[test]
fn exact_key_gives_its_address() {
    let map = map_of(r#"{"imports": {"lodash": "/vendor/lodash.js"}}"#);
    assert_eq!(
        resolve("lodash", "https://e.com/main.js", &map),
        Ok("https://e.com/vendor/lodash.js".to_string())
    );
    assert_eq!(resolve("lodash/fp", "https://e.com/main.js", &map), Err(ResolveError::Unmapped));
}

#[test]
fn null_entry_blocks() {
    let map = map_of(r#"{"imports": {"a": null}}"#);
    assert_eq!(map.imports, vec![SpecifierEntry { key: "a".to_string(), address: None }]);
    assert_eq!(resolve("a", "https://e.com/main.js", &map), Err(ResolveError::Blocked));
}

#[test]
fn imports_not_an_object_is_fatal() {
    let r = parse_import_map(r#"{"imports": "x"}"#, BASE);
    assert!(r.is_err());
    assert!(r.unwrap_err().contains("'imports' must be an object"));
}

#[test]
fn scopes_not_an_object_is_fatal() {
    assert!(parse_import_map(r#"{"scopes": []}"#, BASE).is_err());
}

#[test]
fn top_level_not_an_object_is_fatal() {
    assert!(parse_import_map("[1, 2]", BASE).is_err());
    assert!(parse_import_map("not json", BASE).is_err());
}

#[test]
fn invalid_base_is_fatal() {
    assert!(parse_import_map("{}", "not a url").is_err());
}

#[test]
fn slash_colon_address_resolves_against_base() {
    let result = parsed(r#"{"imports": {"b": "/bad:url"}}"#);
    assert_eq!(
        result.import_map.imports,
        vec![SpecifierEntry { key: "b".to_string(), address: Some("https://e.com/bad:url".to_string()) }]
    );
    assert!(result.warnings.is_empty());
}

#[test]
fn unparseable_address_becomes_null_with_one_warning() {
    let result = parsed(r#"{"imports": {"b": "https://[bad", "c": "/c.js"}}"#);
    assert_eq!(
        result.import_map.imports,
        vec![
            SpecifierEntry { key: "c".to_string(), address: Some("https://e.com/c.js".to_string()) },
            SpecifierEntry { key: "b".to_string(), address: None },
        ]
    );
    assert_eq!(result.warnings.len(), 1);
    assert!(result.warnings[0].contains("Invalid address"));
    assert_eq!(resolve("b", "https://e.com/main.js", &result.import_map), Err(ResolveError::Blocked));
}

#[test]
fn scope_applies_to_referrers_under_it() {
    let map = map_of(r#"{"scopes": {"/foo/": {"x": "/y"}}}"#);
    assert_eq!(map.scopes[0].prefix, "https://e.com/foo/");
    assert_eq!(
        resolve("x", "https://e.com/foo/bar.js", &map),
        Ok("https://e.com/y".to_string())
    );
    assert_eq!(resolve("x", "https://e.com/baz.js", &map), Err(ResolveError::Unmapped));
}

#[test]
fn longest_scope_wins() {
    let map = map_of(
        r#"{"imports": {"x": "/top"}, "scopes": {"/a/": {"x": "/one"}, "/a/b/": {"x": "/two"}}}"#,
    );
    assert_eq!(resolve("x", "https://e.com/a/b/c.js", &map), Ok("https://e.com/two".to_string()));
    assert_eq!(resolve("x", "https://e.com/a/c.js", &map), Ok("https://e.com/one".to_string()));
    assert_eq!(resolve("x", "https://e.com/c.js", &map), Ok("https://e.com/top".to_string()));
}

#[test]
fn prefix_result_that_is_no_url_is_invalid() {
    let map = ImportMap {
        imports: vec![SpecifierEntry { key: "p/".to_string(), address: Some("x".to_string()) }],
        scopes: vec![],
    };
    assert_eq!(resolve("p/q", "https://e.com/main.js", &map), Err(ResolveError::InvalidResolution));
}

#[test]
fn relative_specifier_is_resolved_against_referrer() {
    assert_eq!(normalize("./x.js", "https://e.com/a/b.js"), "https://e.com/a/x.js");
    assert_eq!(normalize("../x.js", "https://e.com/a/b.js"), "https://e.com/x.js");
    let map = map_of(r#"{"imports": {"/a/x.js": "/y.js"}}"#);
    assert_eq!(resolve("./x.js", "https://e.com/a/b.js", &map), Ok("https://e.com/y.js".to_string()));
}

#[test]
fn absolute_specifier_is_put_in_canonical_form() {
    assert_eq!(normalize("HTTPS://E.COM/a/../b", "https://e.com/"), "https://e.com/b");
    assert_eq!(normalize("lodash", "https://e.com/"), "lodash");
}

#[test]
fn later_duplicate_key_overwrites_earlier() {
    let map = map_of(r#"{"imports": {"a": "/1.js", "a": "/2.js"}}"#);
    assert_eq!(
        map.imports,
        vec![SpecifierEntry { key: "a".to_string(), address: Some("https://e.com/2.js".to_string()) }]
    );
}

#[test]
fn empty_key_is_dropped_with_a_warning() {
    let result = parsed(r#"{"imports": {"": "/x.js", "y": "/y.js"}}"#);
    assert_eq!(result.import_map.imports.len(), 1);
    assert_eq!(result.import_map.imports[0].key, "y");
    assert_eq!(result.warnings, vec!["Invalid empty string specifier.".to_string()]);
}

#[test]
fn unknown_top_level_keys_warn_once_each_in_any_order() {
    let doc = r#"{"a": 1, "b": 2, "imports": {}}"#;
    let mut first = parsed(doc).warnings;
    let mut second = parsed(doc).warnings;
    first.sort();
    second.sort();
    assert_eq!(first, second);
    assert_eq!(first.len(), 2);
    assert!(first[0].contains("\"a\""));
    assert!(first[1].contains("\"b\""));
}

#[test]
fn bare_specifier_without_applicable_key_is_unmapped() {
    let map = map_of(r#"{"imports": {"a/": "/x/", "ab": "/ab.js"}}"#);
    assert_eq!(resolve("a", "https://e.com/main.js", &map), Err(ResolveError::Unmapped));
    assert_eq!(resolve("abc", "https://e.com/main.js", &map), Err(ResolveError::Unmapped));
}
