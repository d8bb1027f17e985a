use std::collections::HashMap;

use crate_helper::crates_client::{CratesClient, SearchCrateItem};
use crate_helper::popular_crates::{popular_crates, search_popular_crates};
use crate_helper::versions::{CrateVersionInfo, ParsedVersion, SparseIndexLine, VersionStatus};

fn info(v: &str) -> CrateVersionInfo {
    CrateVersionInfo {
        version: v.to_string(),
        parsed: ParsedVersion::parse(v),
        yanked: false,
        pubtime: None,
        is_prerelease: false,
    }
}

#[test]
fn test_sparse_index_paths() {
    assert_eq!(CratesClient::sparse_index_path("a"), "1/a");
    assert_eq!(CratesClient::sparse_index_path("ab"), "2/ab");
    assert_eq!(CratesClient::sparse_index_path("abc"), "3/a/abc");
    assert_eq!(CratesClient::sparse_index_path("serde"), "se/rd/serde");
    assert_eq!(CratesClient::sparse_index_path("tokio"), "to/ki/tokio");
}

#[test]
fn test_version_status() {
    let v1 = info("1.0.229");
    let v2 = info("1.0.228");
    let v3 = info("1.0.100");

    let versions = vec![v1, v2, v3];

    // Exact match latest
    match CratesClient::check_version_status("1.0.229", &versions) {
        VersionStatus::UpToDate { .. } => {}
        other => panic!("expected UpToDate, got {:?}", other),
    }

    // Outdated
    match CratesClient::check_version_status("1.0.100", &versions) {
        VersionStatus::Outdated { current, latest, .. } => {
            assert_eq!(current, "1.0.100");
            assert_eq!(latest, "1.0.229");
        }
        other => panic!("expected Outdated, got {:?}", other),
    }
}

#[test]
fn version_status_cases() {
    let versions = vec![info("1.2.0"), info("1.1.0"), info("1.0.0")];
    assert_eq!(
        CratesClient::check_version_status("  \"^1.0.0\" ", &versions),
        VersionStatus::Outdated {
            current: "^1.0.0".to_string(),
            latest: "1.2.0".to_string(),
            newer_versions_count: 2
        }
    );
    assert_eq!(
        CratesClient::check_version_status("=1.2.0", &versions),
        VersionStatus::UpToDate { current: "=1.2.0".to_string(), latest: "1.2.0".to_string() }
    );
    assert_eq!(
        CratesClient::check_version_status("2.0.0", &versions),
        VersionStatus::PreRelease { current: "2.0.0".to_string(), latest_stable: "1.2.0".to_string() }
    );
    assert_eq!(
        CratesClient::check_version_status("1.2", &versions),
        VersionStatus::UpToDate { current: "1.2".to_string(), latest: "1.2.0".to_string() }
    );
    assert_eq!(
        CratesClient::check_version_status("0.9", &versions),
        VersionStatus::Outdated {
            current: "0.9".to_string(),
            latest: "1.2.0".to_string(),
            newer_versions_count: 3
        }
    );
    assert_eq!(
        CratesClient::check_version_status("\"\"", &versions),
        VersionStatus::Invalid { current: "".to_string() }
    );
    assert_eq!(
        CratesClient::check_version_status("1", &[]),
        VersionStatus::NotFound { current: "1".to_string() }
    );
}

#[test]
fn version_status_prefers_stable_released() {
    let mut pre = info("2.0.0-rc.1");
    pre.is_prerelease = true;
    let mut yanked = info("1.5.0");
    yanked.yanked = true;
    let versions = vec![pre, yanked, info("1.4.0")];
    assert_eq!(
        CratesClient::check_version_status("1.4.0", &versions),
        VersionStatus::UpToDate { current: "1.4.0".to_string(), latest: "1.4.0".to_string() }
    );
}

fn entry(v: &str, yanked: bool) -> SparseIndexLine {
    SparseIndexLine {
        name: "x".to_string(),
        vers: v.to_string(),
        yanked,
        pubtime: None,
        features: HashMap::new(),
    }
}

#[test]
fn versions_are_listed_newest_first() {
    let entries = vec![
        entry("1.0.0", false),
        entry("1.10.0", false),
        entry("not-a-version", false),
        entry("2.0.0", true),
        entry("1.2.0-beta.1", false),
    ];
    let vs = CratesClient::versions_from_entries(entries);
    let order: Vec<&str> = vs.iter().map(|v| v.version.as_str()).collect();
    assert_eq!(order, vec!["1.10.0", "1.2.0-beta.1", "1.0.0", "not-a-version", "2.0.0"]);
    assert!(vs[1].is_prerelease);
    assert!(vs[3].parsed.is_none());
}

#[test]
fn parsed_version_parts() {
    let v = ParsedVersion::parse("3.14.15-alpha+build").unwrap();
    assert_eq!((v.major(), v.minor(), v.patch()), (3, 14, 15));
    assert!(v.is_prerelease());
    assert_eq!(v.as_str(), "3.14.15-alpha+build");
    assert!(ParsedVersion::parse("1.0").is_none());
    let a = ParsedVersion::parse("1.0.0-alpha").unwrap();
    let b = ParsedVersion::parse("1.0.0").unwrap();
    assert_eq!(a.order(&b), -1);
    assert_eq!(b.order(&a), 1);
}

#[test]
fn index_lines_are_trimmed() {
    let lines = CratesClient::index_lines("  {\"a\":1}  \n\n \t\n{\"b\":2}");
    assert_eq!(lines, vec!["{\"a\":1}".to_string(), "{\"b\":2}".to_string()]);
}

#[test]
fn query_encoding() {
    assert_eq!(crate_helper::crates_client::urlencoding_query("serde json"), "serde+json");
    assert_eq!(crate_helper::crates_client::urlencoding_query("a/b~é"), "a%2Fb%7E%C3%A9");
    assert_eq!(
        CratesClient::search_url("to k"),
        "https://crates.io/api/v1/crates?q=to+k&per_page=10"
    );
    assert!(CratesClient::should_search_api(" x "));
    assert!(!CratesClient::should_search_api("  "));
}

#[test]
fn urls_and_paths() {
    assert_eq!(CratesClient::index_url("Serde"), Some("https://index.crates.io/se/rd/serde".to_string()));
    assert_eq!(CratesClient::index_url(""), None);
    assert_eq!(CratesClient::try_sparse_index_path("ÉÉÉ"), Some("é/é/ééé".to_string()));
    assert_eq!(CratesClient::try_sparse_index_path("aéb"), None);
    assert_eq!(CratesClient::metadata_url("Tokio"), "https://crates.io/api/v1/crates/tokio");
    let c = CratesClient::new();
    assert!(c.is_fresh(599_999_999_999));
    assert!(!c.is_fresh(600_000_000_000));
}

#[test]
fn popular_search_orders_matches() {
    let r = search_popular_crates("SERDE");
    let names: Vec<&str> = r.iter().map(|c| c.name).collect();
    assert_eq!(names[0], "serde");
    assert_eq!(&names[1..3], &["serde_json", "serde_yaml"]);
    assert!(names.contains(&"csv"));
    assert_eq!(popular_crates().len(), 65);
    assert_eq!(search_popular_crates("").len(), 65);
}

#[test]
fn search_results_merge_without_duplicates() {
    let popular = CratesClient::popular_search_items("tokio");
    assert_eq!(popular[0].name, "tokio");
    assert_eq!(popular[0].max_version, "");
    let api = vec![
        SearchCrateItem { name: "tokio".to_string(), max_version: "1.0.0".to_string(), description: None },
        SearchCrateItem { name: "tokio-util".to_string(), max_version: "0.7.0".to_string(), description: None },
        SearchCrateItem { name: "tokio-util".to_string(), max_version: "0.7.1".to_string(), description: None },
    ];
    let n = popular.len();
    let merged = CratesClient::merge_search_results(popular, api);
    assert_eq!(merged.len(), n + 1);
    assert_eq!(merged[n].name, "tokio-util");
    assert_eq!(merged[n].max_version, "0.7.0");
}

#[test]
fn popular_names_are_distinct() {
    let all = popular_crates();
    let mut names: Vec<&str> = all.iter().map(|c| c.name).collect();
    names.sort();
    names.dedup();
    assert_eq!(names.len(), all.len());
    for q in ["", "se", "serde", "json", "a"] {
        let found = search_popular_crates(q);
        let mut n: Vec<&str> = found.iter().map(|c| c.name).collect();
        let len = n.len();
        n.sort();
        n.dedup();
        assert_eq!(n.len(), len);
    }
}

#[test]
fn ascii_names_are_lowercased_for_paths_and_urls() {
    assert_eq!(CratesClient::sparse_index_path("serde"), "se/rd/serde");
    assert_eq!(CratesClient::try_sparse_index_path("SeRdE"), Some("se/rd/serde".to_string()));
    assert_eq!(CratesClient::try_sparse_index_path("Syn"), Some("3/s/syn".to_string()));
    assert_eq!(CratesClient::try_sparse_index_path("Ab"), Some("2/ab".to_string()));
    assert_eq!(CratesClient::try_sparse_index_path("X"), Some("1/x".to_string()));
    assert_eq!(CratesClient::try_sparse_index_path(""), None);
    assert_eq!(
        CratesClient::metadata_url("Tokio-Util_2"),
        "https://crates.io/api/v1/crates/tokio-util_2"
    );
    assert_eq!(
        CratesClient::index_url("PROC-MACRO2"),
        Some("https://index.crates.io/pr/oc/proc-macro2".to_string())
    );
}

#[test]
fn sorted_versions_keep_every_pair_in_order() {
    let entries = vec![
        entry("0.9.0", false),
        entry("1.10.0", false),
        entry("zzz", false),
        entry("1.2.0", false),
        entry("3.0.0", true),
        entry("aaa", false),
        entry("1.10.0-rc.1", false),
        entry("1.9.9", false),
    ];
    let vs = CratesClient::versions_from_entries(entries);
    let order: Vec<&str> = vs.iter().map(|v| v.version.as_str()).collect();
    assert_eq!(
        order,
        vec!["1.10.0", "1.10.0-rc.1", "1.9.9", "1.2.0", "0.9.0", "zzz", "aaa", "3.0.0"]
    );
    for i in 0..vs.len() {
        for j in i + 1..vs.len() {
            if let (Some(a), Some(b)) = (&vs[i].parsed, &vs[j].parsed) {
                if vs[i].yanked == vs[j].yanked {
                    assert!(a.order(b) >= 0);
                }
            }
        }
    }
}
