//! Versions, requirements, resolution and text utilities, on concrete
//! values.
use tlk::installer::{is_range, normalize_version, range_satisfies, render_template};
use tlk::specs::{canonicalize_spec, parse_spec};
use tlk::text;
use tlk::version::{parse_version, version_lt_exec, version_string};
use tlk::versioning::{
    hashicorp_versions, normalize_version_list, prefixed_tags_to_versions,
    release_tags_to_versions, VersionCache,
};
use tlk::vreq::{parse_req, req_matches_exec};

fn ver(s: &str) -> tlk::version::Version {
    parse_version(s).expect("version must parse")
}

#[test]
fn parses_plain_versions() {
    let v = ver("1.7.5");
    assert_eq!(v.major, 1);
    assert_eq!(v.minor, 7);
    assert_eq!(v.patch, 5);
    assert!(v.pre.is_empty());
    assert!(v.build.is_empty());
    assert_eq!(version_string(&v), "1.7.5");
}

#[test]
fn parses_pre_release_and_build() {
    let v = ver("1.2.3-rc.1+build.7");
    assert_eq!(v.pre, vec!["rc".to_string(), "1".to_string()]);
    assert_eq!(v.build, vec!["build".to_string(), "7".to_string()]);
    assert_eq!(version_string(&v), "1.2.3-rc.1+build.7");
}

#[test]
fn rejects_malformed_versions() {
    assert!(parse_version("1.2").is_none());
    assert!(parse_version("1.02.3").is_none());
    assert!(parse_version("v1.2.3").is_none());
    assert!(parse_version("1.2.3-").is_none());
    assert!(parse_version("").is_none());
    assert!(parse_version("1.2.3.4").is_none());
}

#[test]
fn orders_versions_by_precedence() {
    assert!(version_lt_exec(&ver("1.2.3"), &ver("1.2.4")));
    assert!(version_lt_exec(&ver("1.2.3"), &ver("1.10.0")));
    assert!(version_lt_exec(&ver("1.2.3-rc.1"), &ver("1.2.3")));
    assert!(version_lt_exec(&ver("1.2.3-alpha"), &ver("1.2.3-beta")));
    assert!(version_lt_exec(&ver("1.2.3-alpha"), &ver("1.2.3-alpha.1")));
    assert!(version_lt_exec(&ver("1.2.3-2"), &ver("1.2.3-10")));
    assert!(version_lt_exec(&ver("1.2.3-9"), &ver("1.2.3-alpha")));
    assert!(!version_lt_exec(&ver("2.0.0"), &ver("1.9.9")));
}

#[test]
fn requirement_caret_and_tilde() {
    let caret = parse_req("^3.14.0").expect("caret parses");
    assert!(req_matches_exec(&caret, &ver("3.14.3")));
    assert!(req_matches_exec(&caret, &ver("3.15.0")));
    assert!(!req_matches_exec(&caret, &ver("4.0.0")));
    assert!(!req_matches_exec(&caret, &ver("3.13.9")));
    let tilde = parse_req("~1.2.3").expect("tilde parses");
    assert!(req_matches_exec(&tilde, &ver("1.2.9")));
    assert!(!req_matches_exec(&tilde, &ver("1.3.0")));
}

#[test]
fn requirement_wildcard_and_comparators() {
    let wild = parse_req("1.30.x").expect("wildcard parses");
    assert!(req_matches_exec(&wild, &ver("1.30.7")));
    assert!(!req_matches_exec(&wild, &ver("1.31.0")));
    let range = parse_req(">=1 <=1.30").expect("comparators parse");
    assert!(req_matches_exec(&range, &ver("1.30.0")));
    assert!(req_matches_exec(&range, &ver("1.5.2")));
    assert!(!req_matches_exec(&range, &ver("0.9.0")));
    let star = parse_req("*").expect("star parses");
    assert!(star.is_empty());
    assert!(req_matches_exec(&star, &ver("9.9.9")));
    assert!(!req_matches_exec(&star, &ver("1.0.0-rc.1")));
}

fn cache_with(name: &str, raw: &[&str]) -> VersionCache {
    let mut cache = VersionCache::new();
    let list: Vec<String> = raw.iter().map(|s| s.to_string()).collect();
    cache.ingest(name, &list);
    cache
}

#[test]
fn resolves_caret_to_newest_match() {
    let cache = cache_with("helm", &["3.14.3", "3.14.2", "3.13.9"]);
    let v = cache.resolve_version("helm", "^3.14.0").expect("resolves");
    assert_eq!(version_string(&v), "3.14.3");
}

#[test]
fn resolves_hyphen_range() {
    let cache = cache_with("buf", &["1.30.0", "1.29.0"]);
    let v = cache.resolve_version("buf", "1 - 1.30").expect("resolves");
    assert_eq!(version_string(&v), "1.30.0");
}

#[test]
fn resolves_exact_without_index() {
    let cache = VersionCache::new();
    let v = cache.resolve_version("terraform", "1.7.5").expect("exact needs no index");
    assert_eq!(version_string(&v), "1.7.5");
}

#[test]
fn resolves_partials_and_wildcards() {
    let cache = cache_with("node", &["20.11.1", "20.10.0", "18.19.0"]);
    assert_eq!(
        version_string(&cache.resolve_version("node", "20").expect("major partial")),
        "20.11.1"
    );
    assert_eq!(
        version_string(&cache.resolve_version("node", "18.19").expect("minor partial")),
        "18.19.0"
    );
    assert_eq!(version_string(&cache.resolve_version("node", "*").expect("star")), "20.11.1");
}

#[test]
fn resolves_or_to_greatest_clause() {
    let cache = cache_with("just", &["1.25.2", "1.24.0", "0.11.2"]);
    let v = cache.resolve_version("just", "0.11.2 || ^1.24").expect("or resolves");
    assert_eq!(version_string(&v), "1.25.2");
}

#[test]
fn resolution_reports_failures() {
    let cache = cache_with("gh", &["2.40.0"]);
    assert!(cache.resolve_version("gh", "^3").is_err());
    assert!(cache.resolve_version("missing", "^1").is_err());
}

#[test]
fn second_resolution_agrees_with_first() {
    let cache = cache_with("helm", &["3.14.3", "3.14.2", "3.13.9"]);
    let a = cache.resolve_version("helm", "^3.14.0").expect("first");
    let b = cache.resolve_version("helm", "^3.14.0").expect("second");
    assert_eq!(version_string(&a), version_string(&b));
}

#[test]
fn version_lists_are_descending_without_prereleases() {
    let raw: Vec<String> = ["1.2.3", "banana", "1.10.0", "1.2.3", "2.0.0-rc.1", "1.9.9"]
        .iter()
        .map(|s| s.to_string())
        .collect();
    let list = normalize_version_list(&raw);
    let texts: Vec<String> = list.iter().map(version_string).collect();
    assert_eq!(texts, vec!["1.10.0", "1.9.9", "1.2.3"]);
}

#[test]
fn fetch_latest_takes_the_head() {
    let cache = cache_with("helm", &["3.14.3", "3.13.9"]);
    assert_eq!(cache.fetch_latest("helm").expect("latest"), "3.14.3");
    let empty = cache_with("gh", &[]);
    assert!(empty.fetch_latest("gh").is_err());
    assert!(empty.fetch_latest("unknown").is_err());
}

#[test]
fn fetch_all_versions_returns_the_stored_list() {
    let cache = cache_with("buf", &["1.29.0", "1.30.0"]);
    let list = cache.fetch_all_versions("buf").expect("list");
    let texts: Vec<String> = list.iter().map(version_string).collect();
    assert_eq!(texts, vec!["1.30.0", "1.29.0"]);
}

#[test]
fn renders_all_three_placeholders() {
    let url = render_template(
        "https://releases.hashicorp.com/terraform/{version}/terraform_{version}_{os}_{arch}.zip",
        "1.7.5",
        "linux",
        "amd64",
    );
    assert_eq!(
        url,
        "https://releases.hashicorp.com/terraform/1.7.5/terraform_1.7.5_linux_amd64.zip"
    );
    assert_eq!(render_template("{os}-{arch}", "9.9.9", "darwin", "arm64"), "darwin-arm64");
    assert_eq!(render_template("plain", "1.0.0", "linux", "amd64"), "plain");
}

#[test]
fn normalize_version_splits_exact_and_requested() {
    let (exact, requested) = normalize_version("^3.14.0");
    assert_eq!(exact, "3.14.0");
    assert_eq!(requested.as_deref(), Some("^3.14.0"));
    let (exact2, requested2) = normalize_version("1.7.5");
    assert_eq!(exact2, "1.7.5");
    assert!(requested2.is_none());
    let (exact3, requested3) = normalize_version("1 - 1.30");
    assert_eq!(exact3, "1 - 1.30");
    assert!(requested3.is_none());
}

#[test]
fn is_range_tells_ranges_from_exact_versions() {
    assert!(!is_range("1.7.5"));
    assert!(is_range("^3.14.0"));
    assert!(is_range("1 - 1.30"));
    assert!(is_range("1.30.x"));
    assert!(is_range(">=1.2.3"));
}

#[test]
fn range_satisfaction_matches_resolution() {
    assert!(range_satisfies("^3.14.0", "3.14.3"));
    assert!(!range_satisfies("^3.14.0", "3.13.0"));
    assert!(range_satisfies("1 - 1.30", "1.30.0"));
    assert!(!range_satisfies("1 - 1.30", "1.31.0"));
    assert!(range_satisfies("0.11.2 || ^1.24", "1.25.2"));
    assert!(!range_satisfies("0.11.2 || ^1.24", "2.0.0"));
}

#[test]
fn parse_spec_splits_at_the_marker() {
    let (name, v) = parse_spec("terraform@1.7.5");
    assert_eq!(name, "terraform");
    assert_eq!(v.as_deref(), Some("1.7.5"));
    let (name2, v2) = parse_spec("helm");
    assert_eq!(name2, "helm");
    assert!(v2.is_none());
}

#[test]
fn canonicalize_spec_widens_and_keeps() {
    assert_eq!(canonicalize_spec(Some("^3.14.0"), "3.14.3", false, false), "^3.14.0");
    assert_eq!(canonicalize_spec(Some("1.7.5"), "1.7.5", true, false), "1.7.5");
    assert_eq!(canonicalize_spec(Some("1.7.5"), "1.7.5", false, false), "^1.7.5");
    assert_eq!(canonicalize_spec(Some("20"), "20.11.1", false, false), "20.x");
    assert_eq!(canonicalize_spec(None, "3.14.3", false, true), "^3.14.3");
    assert_eq!(canonicalize_spec(None, "3.14.3", true, false), "3.14.3");
}

#[test]
fn text_search_and_replace() {
    assert_eq!(text::replace_all("a{x}b{x}", "{x}", "1"), "a1b1");
    assert_eq!(text::trim("  hi\t"), "hi");
    assert!(text::contains_str("abc||def", "||"));
    assert_eq!(text::split_all("a||b||", "||"), vec!["a", "b", ""]);
    assert_eq!(text::strip_leading_exec("vvv1.2.3", 'v'), "1.2.3");
}

#[test]
fn release_tags_drop_prereleases_and_v_prefixes() {
    let items: Vec<(String, bool)> = vec![
        ("v3.14.3".to_string(), false),
        ("v4.0.0-rc.1".to_string(), true),
        ("3.13.9".to_string(), false),
    ];
    assert_eq!(release_tags_to_versions(&items), vec!["3.14.3", "3.13.9"]);
}

#[test]
fn prefixed_tags_strip_their_prefix() {
    let items: Vec<(String, bool)> = vec![
        ("jq-1.7.1".to_string(), false),
        ("jq-1.8.0".to_string(), true),
        ("other-1.0.0".to_string(), false),
    ];
    assert_eq!(prefixed_tags_to_versions(&items, "jq-"), vec!["1.7.1"]);
}

#[test]
fn hashicorp_page_scrape_finds_directories() {
    let body = "<a href=\"/terraform/1.7.5/\">terraform_1.7.5</a>\
                <a href=\"/terraform/1.7.4/\">terraform_1.7.4</a>\
                <a href=\"/terraform/nope/\">x</a>";
    let found = hashicorp_versions(body, "terraform");
    assert!(found.contains(&"1.7.5".to_string()));
    assert!(found.contains(&"1.7.4".to_string()));
    assert!(!found.contains(&"nope".to_string()));
}

#[test]
fn hashicorp_page_scrape_returns_every_directory() {
    let body = "/other/9.9.9/ /terraform/1.7.5/x/terraform/1.7.4/ /terraform//";
    let found = hashicorp_versions(body, "terraform");
    // exactly the digits-and-dots directories under the tool, in page order
    assert_eq!(found, vec!["1.7.5".to_string(), "1.7.4".to_string()]);
}

#[test]
fn hyphen_range_entry_keeps_the_request() {
    let cache = cache_with("bufr", &["1.30.0", "1.29.0"]);
    let v = cache.resolve_version("bufr", "1 - 1.30").expect("resolves");
    let (name, entry) = tlk::lock::to_locked_entry(
        "buf",
        &version_string(&v),
        Some("1 - 1.30"),
        "https://github.com/bufbuild/buf/releases/download/v1.30.0/buf-linux-amd64",
        "https://github.com/bufbuild/buf/releases/download/v{version}/buf-{os}-{arch}",
        &None,
        None,
        "linux",
        "amd64",
    );
    assert_eq!(name, "buf");
    assert_eq!(entry.version, "1.30.0");
    assert_eq!(entry.requested_version.as_deref(), Some("1 - 1.30"));
}

#[test]
fn splits_inline_entries_at_top_level_commas() {
    let parts = tlk::config::split_top_level(
        "terraform = \"1.7.5\", tools = [{ name = \"gh\" }, { name = \"buf\" }]",
    );
    assert_eq!(parts.len(), 2);
    assert_eq!(parts[0], "terraform = \"1.7.5\"");
    assert_eq!(parts[1], "tools = [{ name = \"gh\" }, { name = \"buf\" }]");
    let quoted = tlk::config::split_top_level("a = \"x,y\", b = 1");
    assert_eq!(quoted.len(), 2);
    assert_eq!(quoted[0], "a = \"x,y\"");
}

#[test]
fn splits_inline_tables_into_bodies() {
    let tables = tlk::config::split_inline_tables(
        "{ name = \"gh\", version = \"2.40.0\" }, { name = \"buf\" }",
    );
    assert_eq!(tables.len(), 2);
    assert_eq!(tables[0], "name = \"gh\", version = \"2.40.0\"");
    assert_eq!(tables[1], "name = \"buf\"");
}

#[test]
fn repairs_an_inline_root_manifest() {
    let src = "{ terraform = \"1.7.5\", tools = [{ name = \"gh\", version = \"2.40.0\", source = \"https://x\" }] }";
    let repaired = tlk::config::repair_inline_root(src).expect("repairs");
    assert!(repaired.contains("terraform = \"1.7.5\"\n"));
    assert!(repaired.contains("[[tools]]\n"));
    assert!(repaired.contains("name = \"gh\"\n"));
    assert!(repaired.contains("version = \"2.40.0\"\n"));
    assert!(tlk::config::repair_inline_root("plain = 1").is_err());
}

#[test]
fn falls_back_to_textual_prefix_match() {
    let cache = cache_with("kubectl", &["1.30.0", "1.29.4"]);
    let v = cache.resolve_version("kubectl", "1.3").expect("prefix fallback");
    assert_eq!(version_string(&v), "1.30.0");
}

#[test]
fn unresolvable_errors_carry_name_and_spec() {
    let cache = cache_with("cosign", &["2.2.4"]);
    let e = cache.resolve_version("cosign", "==9").expect_err("cannot resolve");
    assert!(matches!(e, tlk::versioning::ResolutionError::Unresolvable { name, spec }
        if name == "cosign" && spec == "==9"));
    let e2 = cache.resolve_version("nope", "^1").expect_err("no index");
    assert!(matches!(e2, tlk::versioning::ResolutionError::NoIndex { name } if name == "nope"));
}
