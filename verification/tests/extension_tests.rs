use crate_helper::binary_lookup::{BinaryLookup, LookupAction, LookupStage, Probe};

const MISSING: &str = "'crate-helper-lsp' not found in PATH, ~/.cargo/bin, or ~/.local/bin. Run 'cargo install --path lsp' in the crate-helper repository or run 'make install'.";

#[test]
fn lookup_prefers_the_path() {
    let mut l = BinaryLookup::new();
    assert_eq!(l.step(Probe::Begin), LookupAction::FindInPath("crate-helper-lsp".to_string()));
    assert_eq!(
        l.step(Probe::Found(Some("/usr/bin/crate-helper-lsp".to_string()))),
        LookupAction::Use("/usr/bin/crate-helper-lsp".to_string())
    );
    assert_eq!(l.cached_binary_path.as_deref(), Some("/usr/bin/crate-helper-lsp"));
    assert_eq!(l.stage, LookupStage::Start);
    // The next lookup checks the remembered path first.
    assert_eq!(l.step(Probe::Begin), LookupAction::CheckFile("/usr/bin/crate-helper-lsp".to_string()));
    assert_eq!(l.step(Probe::IsFile(true)), LookupAction::Use("/usr/bin/crate-helper-lsp".to_string()));
}

#[test]
fn lookup_falls_back_to_home_directories() {
    let mut l = BinaryLookup::new();
    l.step(Probe::Begin);
    assert_eq!(l.step(Probe::Found(None)), LookupAction::ReadHome);
    assert_eq!(
        l.step(Probe::HomeDir(Some("/home/u".to_string()))),
        LookupAction::CheckFile("/home/u/.cargo/bin/crate-helper-lsp".to_string())
    );
    assert_eq!(
        l.step(Probe::IsFile(false)),
        LookupAction::CheckFile("/home/u/.local/bin/crate-helper-lsp".to_string())
    );
    assert_eq!(
        l.step(Probe::IsFile(true)),
        LookupAction::Use("/home/u/.local/bin/crate-helper-lsp".to_string())
    );
    assert_eq!(l.cached_binary_path.as_deref(), Some("/home/u/.local/bin/crate-helper-lsp"));
}

#[test]
fn lookup_reports_a_missing_program() {
    let mut l = BinaryLookup::new();
    l.step(Probe::Begin);
    l.step(Probe::Found(None));
    assert_eq!(l.step(Probe::HomeDir(None)), LookupAction::Fail(MISSING.to_string()));
    assert!(l.cached_binary_path.is_none());

    let mut m = BinaryLookup::new();
    m.step(Probe::Begin);
    m.step(Probe::Found(None));
    m.step(Probe::HomeDir(Some("/h".to_string())));
    m.step(Probe::IsFile(false));
    assert_eq!(m.step(Probe::IsFile(false)), LookupAction::Fail(MISSING.to_string()));
}

#[test]
fn stale_cached_path_is_searched_again() {
    let mut l = BinaryLookup::new();
    l.cached_binary_path = Some("/gone/crate-helper-lsp".to_string());
    assert_eq!(l.step(Probe::Begin), LookupAction::CheckFile("/gone/crate-helper-lsp".to_string()));
    assert_eq!(l.step(Probe::IsFile(false)), LookupAction::FindInPath("crate-helper-lsp".to_string()));
    // An answer to another question repeats the pending one.
    assert_eq!(l.step(Probe::IsFile(true)), LookupAction::FindInPath("crate-helper-lsp".to_string()));
    assert_eq!(
        l.step(Probe::Found(Some("/bin/crate-helper-lsp".to_string()))),
        LookupAction::Use("/bin/crate-helper-lsp".to_string())
    );
}
