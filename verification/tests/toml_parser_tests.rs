use crate_helper::position::Position;
use crate_helper::toml_parser::{CargoTomlParser, CursorContext, SectionType};

const ALL_ORIENTATIONS: &str = r#"
[package]
name = "my-app"
version = "0.1.0"

[dependencies]
serde = "1.0.100"
tokio = { version = "1.0.0", features = ["full"] }

sea-orm-migration = { version = "2.0.3", features = [
    "runtime-tokio-rustls",
    "sqlx-postgres"
]
}

sea-orm-migration-multiline = {
    version = "2.0.3",
    features = [
        "sqlx-postgres"
    ]
}

local-lib = { path = "../local" }
workspace-dep = { workspace = true }

[dependencies.sea-orm-migration-table]
version = "2.0.3"
features = ["sqlx-postgres"]

[target.'cfg(unix)'.dependencies.sea-orm-migration-target]
version = "2.0.3"

[dev-dependencies]
tempfile = "3.2.0"
"#;

#[test]
fn test_parse_dependencies_all_orientations() {
    let deps = CargoTomlParser::parse_dependencies(ALL_ORIENTATIONS);

    // Ensure crate names are never property names like "version" or "features"
    for dep in &deps {
        assert_ne!(dep.crate_name, "version", "Found dep erroneously named 'version'!");
        assert_ne!(dep.crate_name, "features", "Found dep erroneously named 'features'!");
        assert_ne!(dep.crate_name, "my-app", "Package should not be parsed as dep");
    }

    let serde_dep = deps.iter().find(|d| d.crate_name == "serde").unwrap();
    assert_eq!(serde_dep.version.as_deref(), Some("1.0.100"));

    let tokio_dep = deps.iter().find(|d| d.crate_name == "tokio").unwrap();
    assert_eq!(tokio_dep.version.as_deref(), Some("1.0.0"));

    let sea_dep1 = deps.iter().find(|d| d.crate_name == "sea-orm-migration").unwrap();
    assert_eq!(sea_dep1.version.as_deref(), Some("2.0.3"));
    // hint_position must be on the version line (line 9), not at end of the features array
    assert_eq!(sea_dep1.hint_position.line, 9);

    let sea_dep2 = deps.iter().find(|d| d.crate_name == "sea-orm-migration-multiline").unwrap();
    assert_eq!(sea_dep2.version.as_deref(), Some("2.0.3"));
    assert_eq!(sea_dep2.hint_position.line, 16);

    let sea_dep3 = deps.iter().find(|d| d.crate_name == "sea-orm-migration-table").unwrap();
    assert_eq!(sea_dep3.version.as_deref(), Some("2.0.3"));
    assert_eq!(sea_dep3.hint_position.line, 26);

    let sea_dep4 = deps.iter().find(|d| d.crate_name == "sea-orm-migration-target").unwrap();
    assert_eq!(sea_dep4.version.as_deref(), Some("2.0.3"));
    assert_eq!(sea_dep4.hint_position.line, 30);

    let tempfile_dep = deps.iter().find(|d| d.crate_name == "tempfile").unwrap();
    assert_eq!(tempfile_dep.version.as_deref(), Some("3.2.0"));
}

#[test]
fn test_find_dependency_at_multiline() {
    let toml = r#"
[dependencies]
sea-orm-migration = {
    version = "2.0.3",
    features = ["full"]
}
"#;
    let deps = CargoTomlParser::parse_dependencies(toml);
    assert_eq!(deps.len(), 1);

    // Hover on line 3 (version = "2.0.3")
    let pos_ver = Position { line: 3, character: 8 };
    let dep = CargoTomlParser::find_dependency_at(&deps, &pos_ver).unwrap();
    assert_eq!(dep.crate_name, "sea-orm-migration");
    assert_ne!(dep.crate_name, "version");

    // Hover on line 4 (features = ["full"])
    let pos_feat = Position { line: 4, character: 6 };
    let dep = CargoTomlParser::find_dependency_at(&deps, &pos_feat).unwrap();
    assert_eq!(dep.crate_name, "sea-orm-migration");
}

#[test]
fn test_find_dependency_at_table_block() {
    let toml = r#"
[dependencies.sea-orm-migration]
version = "2.0.3"
features = ["full"]
"#;
    let deps = CargoTomlParser::parse_dependencies(toml);
    assert_eq!(deps.len(), 1);

    // Hover on header line 1
    let pos_header = Position { line: 1, character: 16 };
    let dep1 = CargoTomlParser::find_dependency_at(&deps, &pos_header).unwrap();
    assert_eq!(dep1.crate_name, "sea-orm-migration");

    // Hover on version line 2
    let pos_ver = Position { line: 2, character: 5 };
    let dep2 = CargoTomlParser::find_dependency_at(&deps, &pos_ver).unwrap();
    assert_eq!(dep2.crate_name, "sea-orm-migration");
    assert_ne!(dep2.crate_name, "version");
}

#[test]
fn test_cursor_context_version() {
    let toml = "[dependencies]\nserde = \"1.\"\n";
    let pos = Position { line: 1, character: 11 };
    let ctx = CargoTomlParser::get_cursor_context(toml, &pos);
    match ctx {
        CursorContext::InVersionString { crate_name, prefix, .. } => {
            assert_eq!(crate_name, "serde");
            assert_eq!(prefix, "1.");
        }
        other => panic!("expected InVersionString, got {:?}", other),
    }
}

#[test]
fn test_cursor_context_table_block() {
    let toml = "[dependencies.sea-orm-migration]\nversion = \"2.\"\n";
    let pos = Position { line: 1, character: 13 };
    let ctx = CargoTomlParser::get_cursor_context(toml, &pos);
    match ctx {
        CursorContext::InVersionString { crate_name, prefix, .. } => {
            assert_eq!(crate_name, "sea-orm-migration");
            assert_eq!(prefix, "2.");
        }
        other => panic!("expected InVersionString, got {:?}", other),
    }
}

#[test]
fn test_cursor_context_crate_name() {
    let toml = "[dependencies]\ntok\n";
    let pos = Position { line: 1, character: 3 };
    let ctx = CargoTomlParser::get_cursor_context(toml, &pos);
    match ctx {
        CursorContext::InCrateKey { prefix, .. } => {
            assert_eq!(prefix, "tok");
        }
        other => panic!("expected InCrateKey, got {:?}", other),
    }
}

// ---------------------------------------------------------------------------
// Further cases
// ---------------------------------------------------------------------------

#[test]
fn parse_exact_ranges_of_simple_dependency() {
    let deps = CargoTomlParser::parse_dependencies("[dependencies]\nserde = \"1.0.100\"\n");
    assert_eq!(deps.len(), 1);
    let d = &deps[0];
    assert_eq!(d.crate_name, "serde");
    assert_eq!(d.alias_name, "serde");
    assert_eq!(d.table_name, "dependencies");
    assert_eq!(d.name_range.start, Position { line: 1, character: 0 });
    assert_eq!(d.name_range.end, Position { line: 1, character: 5 });
    let vr = d.version_range.unwrap();
    assert_eq!((vr.start.character, vr.end.character), (8, 17));
    let vvr = d.version_val_range.unwrap();
    assert_eq!((vvr.start.character, vvr.end.character), (9, 16));
    assert_eq!(d.hint_position, Position { line: 1, character: 17 });
    assert_eq!(d.full_range.end, Position { line: 1, character: 17 });
    assert!(!d.is_path && !d.is_git && !d.is_workspace);
}

#[test]
fn parse_flags_and_renamed_package() {
    let toml = "[dependencies]\nlocal-lib = { path = \"../local\" }\nws = { workspace = true }\nalias = { package = \"real-name\", version = \"0.3\" }\ng = { git = \"https://x\" }\n";
    let deps = CargoTomlParser::parse_dependencies(toml);
    assert_eq!(deps.len(), 4);
    assert!(deps[0].is_path && deps[0].version.is_none());
    assert!(deps[1].is_workspace);
    assert_eq!(deps[2].crate_name, "real-name");
    assert_eq!(deps[2].alias_name, "alias");
    assert_eq!(deps[2].version.as_deref(), Some("0.3"));
    assert!(deps[3].is_git);
}

#[test]
fn parse_skips_reserved_keys_comments_and_arrays() {
    let toml = "[dependencies]\n# serde = \"1\"\nversion = \"1\"\n[[bin]]\nname = \"x\"\n";
    let deps = CargoTomlParser::parse_dependencies(toml);
    // `[[bin]]` does not open a new section, so `name` is read as a dependency of the list
    assert_eq!(deps.len(), 1);
    assert_eq!(deps[0].crate_name, "name");
}

#[test]
fn parse_unclosed_inline_table_at_end() {
    let toml = "[dependencies]\nfoo = {\n  version = \"1.2\",\n";
    let deps = CargoTomlParser::parse_dependencies(toml);
    assert_eq!(deps.len(), 1);
    assert_eq!(deps[0].version.as_deref(), Some("1.2"));
    assert_eq!(deps[0].full_range.start.line, 1);
    assert_eq!(deps[0].full_range.end.line, 2);
}

#[test]
fn parse_empty_text() {
    assert!(CargoTomlParser::parse_dependencies("").is_empty());
}

#[test]
fn parse_crlf_lines() {
    let deps = CargoTomlParser::parse_dependencies("[dependencies]\r\nserde = \"1\"\r\n");
    assert_eq!(deps.len(), 1);
    assert_eq!(deps[0].full_range.end.character, 11);
}

#[test]
fn classify_sections() {
    assert_eq!(
        CargoTomlParser::classify_section(" dependencies "),
        SectionType::DependencyList("dependencies".to_string())
    );
    assert_eq!(
        CargoTomlParser::classify_section("dev-dependencies.\"serde\""),
        SectionType::SingleDependency {
            table_name: "dev-dependencies.\"serde\"".to_string(),
            crate_key: "serde".to_string()
        }
    );
    assert_eq!(
        CargoTomlParser::classify_section("target.'cfg(unix)'.build-dependencies"),
        SectionType::DependencyList("target.'cfg(unix)'.build-dependencies".to_string())
    );
    assert_eq!(CargoTomlParser::classify_section("package"), SectionType::Other);
    assert_eq!(CargoTomlParser::classify_section("dependencies."), SectionType::Other);
    assert!(CargoTomlParser::is_dependency_section("[workspace.dependencies]"));
    assert!(!CargoTomlParser::is_dependency_section("[package]"));
}

#[test]
fn quoted_strings_and_packages() {
    assert_eq!(CargoTomlParser::find_quoted_string("x = \"abc\" y"), Some(("abc", 4, 8)));
    assert_eq!(CargoTomlParser::find_quoted_string("é = 'a'"), Some(("a", 5, 7)));
    assert_eq!(CargoTomlParser::find_quoted_string("x = \"abc"), None);
    assert_eq!(
        CargoTomlParser::extract_package_from_line("a = { package = \"b\" }"),
        Some("b".to_string())
    );
    assert_eq!(CargoTomlParser::extract_package_from_line("a = { mypackage = \"b\" }"), None);
}

#[test]
fn brace_deltas() {
    assert_eq!(CargoTomlParser::count_brace_delta("a = { b = { c"), 2);
    assert_eq!(CargoTomlParser::count_brace_delta("} # {"), -1);
    assert_eq!(CargoTomlParser::count_brace_delta("\"{\" \\{ {"), 1);
}

#[test]
fn cursor_context_in_existing_version_and_section() {
    let toml = "[dependencies]\nserde = \"1.0.100\"\n\n";
    let ctx = CargoTomlParser::get_cursor_context(toml, &Position { line: 1, character: 11 });
    match ctx {
        CursorContext::InVersionString { crate_name, prefix, replace_range } => {
            assert_eq!(crate_name, "serde");
            assert_eq!(prefix, "1.");
            assert_eq!(replace_range.start.character, 9);
        }
        other => panic!("expected InVersionString, got {:?}", other),
    }
    let ctx = CargoTomlParser::get_cursor_context(toml, &Position { line: 2, character: 0 });
    assert!(matches!(ctx, CursorContext::InCrateKey { .. }));
    let ctx = CargoTomlParser::get_cursor_context("[package]\nname = \"x\"\n", &Position { line: 1, character: 3 });
    assert_eq!(ctx, CursorContext::NoContext);
    let ctx = CargoTomlParser::get_cursor_context("[dependencies]\n", &Position { line: 9, character: 0 });
    assert_eq!(ctx, CursorContext::NoContext);
    assert!(CargoTomlParser::cursor_context_is_defined(toml, &Position { line: 1, character: 11 }));
    assert!(!CargoTomlParser::cursor_context_is_defined("[dependencies]\né", &Position { line: 1, character: 1 }));
}

#[test]
fn cursor_in_version_completes_its_crate() {
    let toml = "[dependencies]\nfoo = { package = \"real-foo\", version = \"0.12.3\", features = [] }\n";
    let deps = CargoTomlParser::parse_dependencies(toml);
    let vr = deps[0].version_val_range.unwrap();
    for col in vr.start.character..=vr.end.character + 1 {
        let pos = Position { line: 1, character: col };
        assert!(CargoTomlParser::cursor_context_is_defined(toml, &pos));
        let expected_prefix: String = "0.12.3".chars().take((col - vr.start.character) as usize).collect();
        assert_eq!(
            CargoTomlParser::get_cursor_context(toml, &pos),
            CursorContext::InVersionString {
                crate_name: "real-foo".to_string(),
                prefix: expected_prefix,
                replace_range: vr,
            }
        );
    }
}

#[test]
fn version_key_must_stand_on_its_own() {
    let toml = "[dependencies.x]\nversion = \"1.0\"\nmyversion = \"9.0\"\néversion = \"8.0\"\n_version = \"7.0\"\n";
    let deps = CargoTomlParser::parse_dependencies(toml);
    assert_eq!(deps.len(), 1);
    assert_eq!(deps[0].version.as_deref(), Some("1.0"));
    let toml2 = "[dependencies.x]\nversion = \"1.0\"\n(version = \"2.0\"\n";
    let deps2 = CargoTomlParser::parse_dependencies(toml2);
    assert_eq!(deps2[0].version.as_deref(), Some("2.0"));
}

#[test]
fn section_headers_ignore_blanks_and_brackets() {
    assert_eq!(
        CargoTomlParser::classify_section("  dependencies \t"),
        SectionType::DependencyList("dependencies".to_string())
    );
    assert_eq!(
        CargoTomlParser::classify_section(" dependencies.\"serde\" "),
        SectionType::SingleDependency {
            table_name: "dependencies.\"serde\"".to_string(),
            crate_key: "serde".to_string()
        }
    );
    assert_eq!(CargoTomlParser::classify_section("dependencies. "), SectionType::Other);
    for h in ["dependencies", "dependencies.serde", "  workspace.dependencies ", "target.x.dev-dependencies"] {
        assert!(CargoTomlParser::is_dependency_section(h));
        assert!(CargoTomlParser::is_dependency_section(&format!("[{}]", h)));
        assert_ne!(CargoTomlParser::classify_section(h), SectionType::Other);
        assert!(h.contains("dependencies"));
    }
    assert!(!CargoTomlParser::is_dependency_section("[package]"));
    assert!(!CargoTomlParser::is_dependency_section("package"));
}

#[test]
fn dependencies_only_from_dependency_tables() {
    assert!(CargoTomlParser::parse_dependencies("[package]\nname = \"my-app\"\nversion = \"0.1.0\"\n").is_empty());
    let text = "[package]\nname = \"x\"\n[dev-dependencies]\na = \"1\"\n[target.'cfg(unix)'.dependencies]\nb = { version = \"2\" }\n[dependencies.c]\nversion = \"3\"\n[features]\nd = []\n";
    let deps = CargoTomlParser::parse_dependencies(text);
    assert_eq!(deps.len(), 3);
    for d in &deps {
        assert_ne!(CargoTomlParser::classify_section(&d.table_name), SectionType::Other);
    }
}

#[test]
fn versions_ranges_and_hints_agree() {
    let text = "[dependencies]\na = \"1.0\"\nb = { git = \"x\" }\nc = { version = '0.2', features = [] }\n";
    let deps = CargoTomlParser::parse_dependencies(text);
    for d in &deps {
        match (&d.version, d.version_range, d.version_val_range) {
            (Some(_), Some(vr), Some(vvr)) => {
                assert_eq!(d.hint_position, vr.end);
                assert_eq!(vvr.start.character, vr.start.character + 1);
                assert_eq!(vvr.end.character + 1, vr.end.character);
                assert_eq!(vr.start.line, vr.end.line);
            }
            (None, None, None) => assert_eq!(d.hint_position, d.full_range.end),
            _ => panic!("version and ranges disagree"),
        }
    }
}

#[test]
fn ascii_positions_are_always_boundaries() {
    let text = "[dependencies]\nserde = { version = \"1.0\" }\n\n[dependencies.x]\nversion = '2'\n";
    for line in 0..7u32 {
        for character in 0..40u32 {
            assert!(CargoTomlParser::cursor_context_is_defined(text, &Position { line, character }));
        }
    }
}
