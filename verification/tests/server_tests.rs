use crate_helper::crates_client::{CratesClient, SearchCrateItem};
use crate_helper::hover::{
    hover_markdown, hover_target, version_actions, version_hint, wants_version_hint,
};
use crate_helper::position::{Position, Range};
use crate_helper::replacer::{
    bad_request_response, replace_request, replacement_range, updated_response,
};
use crate_helper::server::{
    crate_completions, latest_version_for, needs_version_lookup, trigger_characters,
    version_completions, CompletionKind,
};
use crate_helper::toml_parser::CargoTomlParser;
use crate_helper::versions::{CrateVersionInfo, ParsedVersion, SparseIndexLine};

fn info(v: &str) -> CrateVersionInfo {
    CrateVersionInfo {
        version: v.to_string(),
        parsed: ParsedVersion::parse(v),
        yanked: false,
        pubtime: None,
        is_prerelease: false,
    }
}

fn info_full(v: &str, yanked: bool, pre: bool, pubtime: Option<&str>) -> CrateVersionInfo {
    CrateVersionInfo {
        version: v.to_string(),
        parsed: ParsedVersion::parse(v),
        yanked,
        pubtime: pubtime.map(|s| s.to_string()),
        is_prerelease: pre,
    }
}

fn range(l: u32, a: u32, b: u32) -> Range {
    Range { start: Position { line: l, character: a }, end: Position { line: l, character: b } }
}

#[test]
fn version_completions_mark_latest_stable() {
    let versions = vec![
        info_full("2.0.0-beta.1", false, true, Some("2024-05-01T10:00:00Z")),
        info_full("1.1.0", true, false, None),
        info_full("1.0.5", false, false, Some("2024-03-02T08:00:00Z")),
        info_full("1.0.4", false, false, Some("2024-01-01T00:00:00Z")),
        info_full("0.9.0", false, false, None),
    ];
    let r = range(2, 9, 9);
    let items = version_completions("serde", "", r, &versions);
    assert_eq!(items.len(), 5);
    let labels: Vec<&str> = items.iter().map(|i| i.label.as_str()).collect();
    assert_eq!(labels, vec!["1.0.5", "2.0.0-beta.1", "1.1.0", "1.0.4", "0.9.0"]);
    assert_eq!(items[0].detail, "latest stable (2024-03-02)");
    assert_eq!(
        items[0].documentation.as_deref(),
        Some("### `serde` v1.0.5\n**Latest stable release**\n")
    );
    assert_eq!(items[1].detail, "pre-release");
    assert_eq!(items[2].detail, "yanked");
    assert_eq!(items[3].detail, "released 2024-01-01");
    assert_eq!(items[3].documentation.as_deref(), Some("### `serde` v1.0.4\n"));
    assert_eq!(items[4].detail, "");
    let sorts: Vec<&str> = items.iter().map(|i| i.sort_text.as_str()).collect();
    assert_eq!(sorts, vec!["00000", "00001", "00002", "00003", "00004"]);
    assert_eq!(items[0].kind, CompletionKind::Value);
    assert_eq!(items[0].new_text, "1.0.5");
    assert_eq!(items[0].replace_range, r);
    assert!(!items[0].snippet);
}

#[test]
fn version_completions_without_a_stable_release() {
    let versions = vec![
        info_full("2.0.0-rc.1", false, true, None),
        info_full("1.0.0", true, false, None),
    ];
    let items = version_completions("x", "", range(0, 0, 0), &versions);
    let labels: Vec<&str> = items.iter().map(|i| i.label.as_str()).collect();
    assert_eq!(labels, vec!["2.0.0-rc.1", "1.0.0"]);
    assert_eq!(items[0].detail, "pre-release");
    assert_eq!(items[1].detail, "yanked");
    // The latest stable release among those typed so far comes first.
    let more = vec![
        info_full("2.0.0-rc.1", false, true, None),
        info("1.9.0"),
        info_full("2.0.0-alpha", false, true, None),
    ];
    let typed = version_completions("x", "2", range(0, 0, 0), &more);
    let labels: Vec<&str> = typed.iter().map(|i| i.label.as_str()).collect();
    assert_eq!(labels, vec!["2.0.0-rc.1", "2.0.0-alpha"]);
    let all = version_completions("x", "", range(0, 0, 0), &more);
    assert_eq!(all[0].label, "1.9.0");
    assert_eq!(all[0].detail, "latest stable");
    assert_eq!(all[1].label, "2.0.0-rc.1");
}

#[test]
fn version_completions_filter_by_prefix() {
    let versions = vec![info("1.10.0"), info("1.2.0"), info("0.1.0")];
    let items = version_completions("x", "1.", range(0, 0, 0), &versions);
    let labels: Vec<&str> = items.iter().map(|i| i.label.as_str()).collect();
    assert_eq!(labels, vec!["1.10.0", "1.2.0"]);
    assert_eq!(items[1].sort_text, "00001");
    let none = version_completions("x", "3", range(0, 0, 0), &versions);
    assert!(none.is_empty());
}

#[test]
fn short_publication_dates_are_kept_whole() {
    let versions = vec![info_full("1.0.0", false, false, Some("2024"))];
    let items = version_completions("x", "", range(0, 0, 0), &versions);
    assert_eq!(items[0].detail, "latest stable (2024)");
}

#[test]
fn crate_completions_insert_name_and_version() {
    let results = vec![
        SearchCrateItem {
            name: "serde".to_string(),
            max_version: String::new(),
            description: Some("A serialization framework".to_string()),
        },
        SearchCrateItem { name: "foo".to_string(), max_version: "0.3.1".to_string(), description: None },
    ];
    let latest = vec!["1.0.229".to_string(), "0.3.1".to_string()];
    let r = range(4, 0, 3);
    let items = crate_completions(&results, &latest, r);
    assert_eq!(items.len(), 2);
    assert_eq!(items[0].label, "serde");
    assert_eq!(items[0].kind, CompletionKind::Module);
    assert_eq!(items[0].detail, "v1.0.229 • A serialization framework");
    assert_eq!(
        items[0].documentation.as_deref(),
        Some("### **serde** (v1.0.229)\n\nA serialization framework\n\n[crates.io](https://crates.io/crates/serde)")
    );
    assert_eq!(items[0].sort_text, "0000_serde");
    assert_eq!(items[0].new_text, "serde = \"1.0.229\"");
    assert!(items[0].snippet);
    assert_eq!(items[1].detail, "v0.3.1 • ");
    assert_eq!(items[1].documentation, None);
    assert_eq!(items[1].sort_text, "0001_foo");
    assert_eq!(items[1].replace_range, r);
}

#[test]
fn latest_version_of_search_results() {
    let item = SearchCrateItem { name: "a".to_string(), max_version: String::new(), description: None };
    assert!(needs_version_lookup(&item));
    let item2 = SearchCrateItem { name: "a".to_string(), max_version: "1.2.3".to_string(), description: None };
    assert!(!needs_version_lookup(&item2));
    assert_eq!(latest_version_for("1.2.3", None), "1.2.3");
    assert_eq!(latest_version_for("", None), "1.0");
    let versions = vec![
        info_full("2.0.0-rc.1", false, true, None),
        info_full("1.5.0", true, false, None),
        info("1.4.0"),
    ];
    assert_eq!(latest_version_for("", Some(&versions)), "1.4.0");
    let only_pre = vec![info_full("2.0.0-rc.1", false, true, None)];
    assert_eq!(latest_version_for("", Some(&only_pre)), "1.0");
}

#[test]
fn completion_triggers() {
    assert_eq!(trigger_characters(), vec!["\"", "'", ".", "=", " "]);
}

#[test]
fn hover_lists_versions_with_links() {
    let versions = vec![
        info("1.0.229"),
        info_full("1.0.228", true, false, None),
        info_full("1.1.0-rc.1", false, true, None),
        info("1.0.100"),
    ];
    let md = hover_markdown(4321, "file:///a b/Cargo.toml", "serde", Some("1.0.100"), Some(&versions));
    let expected = "### serde\n\n\
- [1.0.229](http://127.0.0.1:4321/replace?uri=file%3A%2F%2F%2Fa%20b%2FCargo.toml&crate=serde&version=1.0.229) *(latest)*\n\
- [1.0.228](http://127.0.0.1:4321/replace?uri=file%3A%2F%2F%2Fa%20b%2FCargo.toml&crate=serde&version=1.0.228) *(yanked)*\n\
- [1.1.0-rc.1](http://127.0.0.1:4321/replace?uri=file%3A%2F%2F%2Fa%20b%2FCargo.toml&crate=serde&version=1.1.0-rc.1) *(pre-release)*\n\
- [1.0.100](http://127.0.0.1:4321/replace?uri=file%3A%2F%2F%2Fa%20b%2FCargo.toml&crate=serde&version=1.0.100) *(current)*\n";
    assert_eq!(md, expected);
}

#[test]
fn hover_shows_at_most_twenty_versions() {
    let versions: Vec<CrateVersionInfo> = (0..30).map(|i| info(&format!("1.0.{}", 30 - i))).collect();
    let md = hover_markdown(1, "u", "c", None, Some(&versions));
    assert_eq!(md.lines().filter(|l| l.starts_with("- [")).count(), 20);
    assert!(md.contains("[1.0.11]"));
    assert!(!md.contains("[1.0.10]"));
}

#[test]
fn hover_without_versions() {
    let md = hover_markdown(1, "u", "tokio", None, None);
    assert_eq!(md, "### tokio\n\n*Could not fetch versions from crates.io*\n");
}

#[test]
fn hover_targets_dependency_lines_only() {
    let text = "[package]\nname = \"x\"\n\n[dependencies]\n# a comment\nserde = \"1.0\"\n\n";
    let on_dep = hover_target(text, &Position { line: 5, character: 2 }).unwrap();
    assert_eq!(on_dep.crate_name, "serde");
    assert!(hover_target(text, &Position { line: 4, character: 2 }).is_none());
    assert!(hover_target(text, &Position { line: 6, character: 0 }).is_none());
    assert!(hover_target(text, &Position { line: 1, character: 0 }).is_none());
    assert!(hover_target(text, &Position { line: 40, character: 0 }).is_none());
}

#[test]
fn quick_fixes_skip_the_current_version() {
    let versions = vec![info("1.0.229"), info("1.0.228"), info("1.0.100")];
    let actions = version_actions(Some("1.0.228"), &versions);
    assert_eq!(actions.len(), 2);
    assert_eq!(actions[0].title, "Replace with v1.0.229 (latest)");
    assert_eq!(actions[0].new_text, "1.0.229");
    assert!(actions[0].is_preferred);
    assert_eq!(actions[1].title, "Replace with v1.0.100");
    assert!(!actions[1].is_preferred);

    let on_latest = version_actions(Some("1.0.229"), &versions);
    assert_eq!(on_latest.len(), 2);
    assert_eq!(on_latest[0].title, "Replace with v1.0.228");
    assert!(!on_latest[0].is_preferred);

    let pre_first = vec![info_full("2.0.0-rc.1", false, true, None), info("1.0.0")];
    let acts = version_actions(None, &pre_first);
    assert_eq!(acts[0].title, "Replace with v2.0.0-rc.1");
    assert!(!acts[0].is_preferred);
    assert!(!acts[1].is_preferred);

    let many: Vec<CrateVersionInfo> = (0..25).map(|i| info(&format!("0.{}.0", 25 - i))).collect();
    assert_eq!(version_actions(None, &many).len(), 20);
}

#[test]
fn inline_hints_follow_the_status() {
    let text = "[dependencies]\nserde = \"1.0.100\"\nlocal = { path = \"../local\" }\ntokio = \"1.0.229\"\n";
    let deps = CargoTomlParser::parse_dependencies(text);
    assert_eq!(deps.len(), 3);
    assert!(wants_version_hint(&deps[0]));
    assert!(!wants_version_hint(&deps[1]));
    let versions = vec![info("1.0.229"), info("1.0.228"), info("1.0.100")];
    let hint = version_hint(&deps[0], &versions).unwrap();
    assert_eq!(hint.label, " ⭡ 1.0.229");
    assert_eq!(hint.tooltip, "Update available: 1.0.100 ➔ 1.0.229");
    assert_eq!(hint.position, deps[0].hint_position);
    let ok = version_hint(&deps[2], &versions).unwrap();
    assert_eq!(ok.label, " ✓");
    assert_eq!(ok.tooltip, "Up to date");
    let unknown = vec![info("0.1.0")];
    let none = version_hint(&deps[2], &unknown);
    assert!(none.is_none());
}

#[test]
fn replace_request_reads_a_clicked_link() {
    let req = b"GET /replace?uri=file%3A%2F%2F%2Fa%20b%2FCargo.toml&crate=serde&version=1.0.229 HTTP/1.1\r\nHost: 127.0.0.1\r\n\r\n";
    let r = replace_request(req).unwrap();
    assert_eq!(r.uri, "file:///a%20b/Cargo.toml");
    assert_eq!(r.crate_name, "serde");
    assert_eq!(r.version, "1.0.229");
}

#[test]
fn replace_request_decodes_and_normalizes() {
    let req = b"GET /replace?version=%31.0&crate=a%2Bb&uri=FILE:///x&extra HTTP/1.1\r\n";
    let r = replace_request(req).unwrap();
    assert_eq!(r.version, "1.0");
    assert_eq!(r.crate_name, "a+b");
    assert_eq!(r.uri, "file:///x");
    // The last value of a key wins.
    let twice = b"GET /replace?uri=file:///x&crate=a&crate=b&version=1 HTTP/1.1\r\n";
    assert_eq!(replace_request(twice).unwrap().crate_name, "b");
    // Invalid UTF-8 is read lossily.
    let lossy = b"GET /replace?uri=file:///x&crate=a\xffb&version=1 HTTP/1.1\r\n";
    assert_eq!(replace_request(lossy).unwrap().crate_name, "a\u{FFFD}b");
}

#[test]
fn replace_request_refuses_incomplete_requests() {
    assert!(replace_request(b"GET /other?uri=file:///x&crate=a&version=1 HTTP/1.1\r\n").is_none());
    assert!(replace_request(b"GET /replace?uri=file:///x&crate=a HTTP/1.1\r\n").is_none());
    assert!(replace_request(b"GET /replace?uri=not%20a%20url&crate=a&version=1 HTTP/1.1\r\n").is_none());
    assert!(replace_request(b"").is_none());
    // Only the first line counts.
    assert!(replace_request(b"GET / HTTP/1.1\r\nX: /replace?uri=file:///x&crate=a&version=1\r\n").is_none());
}

#[test]
fn hover_link_round_trip() {
    let versions = vec![info("1.0.0")];
    let uri = "file:///home/me/my%20crate/Cargo.toml";
    let md = hover_markdown(8080, uri, "serde_json", None, Some(&versions));
    let start = md.find("/replace?").unwrap();
    let end = md[start..].find(')').unwrap() + start;
    let path = &md[start..end];
    let req = format!("GET {} HTTP/1.1\r\nHost: localhost\r\n\r\n", path);
    let r = replace_request(req.as_bytes()).unwrap();
    assert_eq!(r.uri, uri);
    assert_eq!(r.crate_name, "serde_json");
    assert_eq!(r.version, "1.0.0");
}

#[test]
fn replacement_targets_the_version_string() {
    let text = "[dependencies]\nfoo = { package = \"real-foo\", version = \"0.1\" }\nbar = { git = \"x\" }\n";
    let by_key = replacement_range(text, "foo").unwrap();
    let by_name = replacement_range(text, "real-foo").unwrap();
    assert_eq!(by_key, by_name);
    assert_eq!(by_key, Range { start: Position { line: 1, character: 41 }, end: Position { line: 1, character: 44 } });
    assert!(replacement_range(text, "bar").is_none());
    assert!(replacement_range(text, "missing").is_none());
}

#[test]
fn answers_to_the_browser() {
    let ok = updated_response("serde", "1.0.229");
    let (head, body) = ok.split_once("\r\n\r\n").unwrap();
    assert_eq!(
        head,
        format!(
            "HTTP/1.1 200 OK\r\nContent-Type: text/html; charset=utf-8\r\nContent-Length: {}\r\nConnection: close",
            body.len()
        )
    );
    assert!(body.starts_with("<!DOCTYPE html>"));
    assert!(body.contains("&#10004; Updated <code>serde</code> to <code>1.0.229</code></h2>"));
    assert!(body.ends_with("setTimeout(function(){ window.close(); }, 400);</script></body></html>"));
    assert_eq!(
        bad_request_response(),
        "HTTP/1.1 400 Bad Request\r\nContent-Length: 0\r\nConnection: close\r\n\r\n"
    );
}

#[test]
fn latest_release_gets_the_check_mark() {
    let versions = vec![info_full("2.0.0-rc.1", false, true, None), info("1.5.0"), info("1.4.0")];
    let text = "[dependencies]\nx = \"1.5.0\"\n";
    let deps = CargoTomlParser::parse_dependencies(text);
    let hint = version_hint(&deps[0], &versions).unwrap();
    assert_eq!(hint.label, " ✓");
}

#[test]
fn dependencies_come_in_document_order() {
    let text = "[dependencies]\na = \"1\"\nb = { version = \"2\",\n  features = [\"x\"] }\n\n[dependencies.c]\nversion = \"3\"\n\n[dev-dependencies]\nd = \"4\"\n";
    let deps = CargoTomlParser::parse_dependencies(text);
    let names: Vec<&str> = deps.iter().map(|d| d.crate_name.as_str()).collect();
    assert_eq!(names, vec!["a", "b", "c", "d"]);
    for w in deps.windows(2) {
        assert!(w[0].full_range.end.line < w[1].full_range.start.line);
    }
    for d in &deps {
        for line in d.full_range.start.line..=d.full_range.end.line {
            let found = CargoTomlParser::find_dependency_at(&deps, &Position { line, character: 0 });
            assert_eq!(found.unwrap().crate_name, d.crate_name);
        }
    }
}

#[test]
fn version_ranges_hold_the_versions() {
    let text = "[dependencies]\n\"café-x\" = \"1.0\"\nb = { version = \"2.3\", features = [\"é\"] }\n\n[dependencies.c]\n  version = '0.1.2'\n";
    let deps = CargoTomlParser::parse_dependencies(text);
    assert_eq!(deps.len(), 3);
    let lines: Vec<&str> = text.lines().collect();
    for d in &deps {
        let r = d.version_val_range.unwrap();
        assert_eq!(r.start.line, r.end.line);
        let line = lines[r.start.line as usize];
        let inside: String = line
            .chars()
            .skip(r.start.character as usize)
            .take((r.end.character - r.start.character) as usize)
            .collect();
        assert_eq!(Some(inside), d.version.clone());
    }
    let r = replacement_range(text, "b").unwrap();
    assert_eq!(r, deps[1].version_val_range.unwrap());
}

fn index_entry(v: &str, yanked: bool) -> SparseIndexLine {
    SparseIndexLine {
        name: "x".to_string(),
        vers: v.to_string(),
        yanked,
        pubtime: None,
        features: std::collections::HashMap::new(),
    }
}

#[test]
fn first_completion_is_the_newest_stable_release() {
    let entries = vec![
        index_entry("0.3.0", false),
        index_entry("2.0.0-alpha.1", false),
        index_entry("1.4.2", false),
        index_entry("5.0.0", true),
        index_entry("1.10.0", false),
        index_entry("1.9.0", false),
        index_entry("garbage", false),
    ];
    let vs = CratesClient::versions_from_entries(entries);
    let items = version_completions("x", "", range(0, 0, 0), &vs);
    assert_eq!(items.len(), 7);
    assert_eq!(items[0].label, "1.10.0");
    assert!(items[0].detail.starts_with("latest stable"));
    let typed = version_completions("x", "1.", range(0, 0, 0), &vs);
    assert_eq!(typed[0].label, "1.10.0");
    let older = version_completions("x", "0", range(0, 0, 0), &vs);
    assert_eq!(older[0].label, "0.3.0");
}
