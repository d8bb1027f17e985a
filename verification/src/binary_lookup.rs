//! How the editor extension finds the language server's program: the path
//! found before if it is still a file, else the program on the `PATH`, else
//! `~/.cargo/bin` or `~/.local/bin`. The host answers the questions (is this
//! a file, where is the program on the `PATH`, what is `$HOME`); this decides
//! which question comes next and what the answer is.
use vstd::prelude::*;
use crate::text::{push_str, string_from_chars};

verus! {

/// The program's name.
pub open spec fn binary_name() -> Seq<char> {
    "crate-helper-lsp"@
}

/// The message when the program is nowhere to be found.
pub open spec fn not_found_message() -> Seq<char> {
    "'crate-helper-lsp' not found in PATH, ~/.cargo/bin, or ~/.local/bin. Run 'cargo install --path lsp' in the crate-helper repository or run 'make install'."@
}

/// The program under `~/.cargo/bin`.
pub open spec fn cargo_bin(home: Seq<char>) -> Seq<char> {
    home + "/.cargo/bin/"@ + binary_name()
}

/// The program under `~/.local/bin`.
pub open spec fn local_bin(home: Seq<char>) -> Seq<char> {
    home + "/.local/bin/"@ + binary_name()
}

/// The question the lookup waits on.
#[derive(Debug, PartialEq, Eq)]
pub enum LookupStage {
    /// Nothing asked yet.
    Start,
    /// Whether the path found before is still a file.
    CachedFile { path: String },
    /// Where the program is on the `PATH`.
    InPath,
    /// What `$HOME` is.
    Home,
    /// Whether `~/.cargo/bin/crate-helper-lsp` is a file.
    CargoBin { home: String },
    /// Whether `~/.local/bin/crate-helper-lsp` is a file.
    LocalBin { home: String },
}

/// An answer of the host.
#[derive(Debug, PartialEq, Eq)]
pub enum Probe {
    /// The host starts a lookup.
    Begin,
    /// Whether the path asked about is a file.
    IsFile(bool),
    /// Where the program was found on the `PATH`, if anywhere.
    Found(Option<String>),
    /// `$HOME`, if it is set.
    HomeDir(Option<String>),
}

/// What the host is to do next.
#[derive(Debug, PartialEq, Eq)]
pub enum LookupAction {
    /// Tell whether this path is a file.
    CheckFile(String),
    /// Find this program on the `PATH`.
    FindInPath(String),
    /// Read `$HOME`.
    ReadHome,
    /// Run the program at this path.
    Use(String),
    /// Report this error.
    Fail(String),
}

pub enum SpecStage {
    Start,
    CachedFile { path: Seq<char> },
    InPath,
    Home,
    CargoBin { home: Seq<char> },
    LocalBin { home: Seq<char> },
}

pub enum SpecProbe {
    Begin,
    IsFile(bool),
    Found(Option<Seq<char>>),
    HomeDir(Option<Seq<char>>),
}

pub enum SpecAction {
    CheckFile(Seq<char>),
    FindInPath(Seq<char>),
    ReadHome,
    Use(Seq<char>),
    Fail(Seq<char>),
}

impl View for LookupStage {
    type V = SpecStage;

    open spec fn view(&self) -> SpecStage {
        match self {
            LookupStage::Start => SpecStage::Start,
            LookupStage::CachedFile { path } => SpecStage::CachedFile { path: path@ },
            LookupStage::InPath => SpecStage::InPath,
            LookupStage::Home => SpecStage::Home,
            LookupStage::CargoBin { home } => SpecStage::CargoBin { home: home@ },
            LookupStage::LocalBin { home } => SpecStage::LocalBin { home: home@ },
        }
    }
}

impl View for Probe {
    type V = SpecProbe;

    open spec fn view(&self) -> SpecProbe {
        match self {
            Probe::Begin => SpecProbe::Begin,
            Probe::IsFile(b) => SpecProbe::IsFile(*b),
            Probe::Found(p) => SpecProbe::Found(
                match p {
                    Some(s) => Some(s@),
                    None => None,
                },
            ),
            Probe::HomeDir(h) => SpecProbe::HomeDir(
                match h {
                    Some(s) => Some(s@),
                    None => None,
                },
            ),
        }
    }
}

impl View for LookupAction {
    type V = SpecAction;

    open spec fn view(&self) -> SpecAction {
        match self {
            LookupAction::CheckFile(p) => SpecAction::CheckFile(p@),
            LookupAction::FindInPath(p) => SpecAction::FindInPath(p@),
            LookupAction::ReadHome => SpecAction::ReadHome,
            LookupAction::Use(p) => SpecAction::Use(p@),
            LookupAction::Fail(m) => SpecAction::Fail(m@),
        }
    }
}

/// The question asked in a stage (the one repeated when the host answers
/// another); at the start, the first question.
pub open spec fn question(cached: Option<Seq<char>>, stage: SpecStage) -> SpecAction {
    match stage {
        SpecStage::Start => match cached {
            Some(p) => SpecAction::CheckFile(p),
            None => SpecAction::FindInPath(binary_name()),
        },
        SpecStage::CachedFile { path } => SpecAction::CheckFile(path),
        SpecStage::InPath => SpecAction::FindInPath(binary_name()),
        SpecStage::Home => SpecAction::ReadHome,
        SpecStage::CargoBin { home } => SpecAction::CheckFile(cargo_bin(home)),
        SpecStage::LocalBin { home } => SpecAction::CheckFile(local_bin(home)),
    }
}

/// One step of the lookup: from the path found before, the stage and the
/// host's answer, the next stage, the next action and the path to remember.
pub open spec fn lookup_next(cached: Option<Seq<char>>, stage: SpecStage, probe: SpecProbe) -> (
    SpecStage,
    SpecAction,
    Option<Seq<char>>,
) {
    match (stage, probe) {
        (SpecStage::Start, _) => match cached {
            Some(p) => (SpecStage::CachedFile { path: p }, SpecAction::CheckFile(p), cached),
            None => (SpecStage::InPath, SpecAction::FindInPath(binary_name()), cached),
        },
        (SpecStage::CachedFile { path }, SpecProbe::IsFile(true)) => (
            SpecStage::Start,
            SpecAction::Use(path),
            cached,
        ),
        (SpecStage::CachedFile { path }, SpecProbe::IsFile(false)) => (
            SpecStage::InPath,
            SpecAction::FindInPath(binary_name()),
            cached,
        ),
        (SpecStage::InPath, SpecProbe::Found(Some(p))) => (
            SpecStage::Start,
            SpecAction::Use(p),
            Some(p),
        ),
        (SpecStage::InPath, SpecProbe::Found(None)) => (
            SpecStage::Home,
            SpecAction::ReadHome,
            cached,
        ),
        (SpecStage::Home, SpecProbe::HomeDir(Some(h))) => (
            SpecStage::CargoBin { home: h },
            SpecAction::CheckFile(cargo_bin(h)),
            cached,
        ),
        (SpecStage::Home, SpecProbe::HomeDir(None)) => (
            SpecStage::Start,
            SpecAction::Fail(not_found_message()),
            cached,
        ),
        (SpecStage::CargoBin { home }, SpecProbe::IsFile(true)) => (
            SpecStage::Start,
            SpecAction::Use(cargo_bin(home)),
            Some(cargo_bin(home)),
        ),
        (SpecStage::CargoBin { home }, SpecProbe::IsFile(false)) => (
            SpecStage::LocalBin { home },
            SpecAction::CheckFile(local_bin(home)),
            cached,
        ),
        (SpecStage::LocalBin { home }, SpecProbe::IsFile(true)) => (
            SpecStage::Start,
            SpecAction::Use(local_bin(home)),
            Some(local_bin(home)),
        ),
        (SpecStage::LocalBin { home }, SpecProbe::IsFile(false)) => (
            SpecStage::Start,
            SpecAction::Fail(not_found_message()),
            cached,
        ),
        (s, _) => (s, question(cached, s), cached),
    }
}

/// The extension's state: the program's path once found, and the question
/// pending.
#[derive(Debug)]
pub struct BinaryLookup {
    pub cached_binary_path: Option<String>,
    pub stage: LookupStage,
}

pub open spec fn opt_text(o: Option<String>) -> Option<Seq<char>> {
    match o {
        Some(s) => Some(s@),
        None => None,
    }
}

fn with_program(dir: &str, sub: &str) -> (r: String)
    ensures
        r@ == dir@ + sub@ + binary_name(),
{
    let mut v: Vec<char> = Vec::new();
    push_str(&mut v, dir);
    push_str(&mut v, sub);
    push_str(&mut v, "crate-helper-lsp");
    string_from_chars(v.as_slice())
}

fn clone_text(s: &String) -> (r: String)
    ensures
        r@ == s@,
{
    s.clone()
}

impl BinaryLookup {
    /// No path found yet, nothing asked.
    pub fn new() -> (r: Self)
        ensures
            r.cached_binary_path is None,
            r.stage@ == SpecStage::Start,
    {
        BinaryLookup { cached_binary_path: None, stage: LookupStage::Start }
    }

    /// Takes the host's answer and says what to do next.
    pub fn step(&mut self, probe: Probe) -> (r: LookupAction)
        ensures
            ({
                let (stage, action, cached) = lookup_next(
                    opt_text(old(self).cached_binary_path),
                    old(self).stage@,
                    probe@,
                );
                &&& final(self).stage@ == stage
                &&& r@ == action
                &&& opt_text(final(self).cached_binary_path) == cached
            }),
    {
        let mut stage = LookupStage::Start;
        std::mem::swap(&mut stage, &mut self.stage);
        match (stage, probe) {
            (LookupStage::Start, _) => match &self.cached_binary_path {
                Some(p) => {
                    self.stage = LookupStage::CachedFile { path: clone_text(p) };
                    LookupAction::CheckFile(clone_text(p))
                },
                None => {
                    self.stage = LookupStage::InPath;
                    LookupAction::FindInPath(String::from_str("crate-helper-lsp"))
                },
            },
            (LookupStage::CachedFile { path }, Probe::IsFile(true)) => LookupAction::Use(path),
            (LookupStage::CachedFile { path: _ }, Probe::IsFile(false)) => {
                self.stage = LookupStage::InPath;
                LookupAction::FindInPath(String::from_str("crate-helper-lsp"))
            },
            (LookupStage::InPath, Probe::Found(Some(p))) => {
                self.cached_binary_path = Some(clone_text(&p));
                LookupAction::Use(p)
            },
            (LookupStage::InPath, Probe::Found(None)) => {
                self.stage = LookupStage::Home;
                LookupAction::ReadHome
            },
            (LookupStage::Home, Probe::HomeDir(Some(h))) => {
                let c = with_program(h.as_str(), "/.cargo/bin/");
                self.stage = LookupStage::CargoBin { home: h };
                LookupAction::CheckFile(c)
            },
            (LookupStage::Home, Probe::HomeDir(None)) => LookupAction::Fail(
                String::from_str(
                    "'crate-helper-lsp' not found in PATH, ~/.cargo/bin, or ~/.local/bin. Run 'cargo install --path lsp' in the crate-helper repository or run 'make install'.",
                ),
            ),
            (LookupStage::CargoBin { home }, Probe::IsFile(true)) => {
                let c = with_program(home.as_str(), "/.cargo/bin/");
                self.cached_binary_path = Some(clone_text(&c));
                LookupAction::Use(c)
            },
            (LookupStage::CargoBin { home }, Probe::IsFile(false)) => {
                let l = with_program(home.as_str(), "/.local/bin/");
                self.stage = LookupStage::LocalBin { home };
                LookupAction::CheckFile(l)
            },
            (LookupStage::LocalBin { home }, Probe::IsFile(true)) => {
                let l = with_program(home.as_str(), "/.local/bin/");
                self.cached_binary_path = Some(clone_text(&l));
                LookupAction::Use(l)
            },
            (LookupStage::LocalBin { home: _ }, Probe::IsFile(false)) => LookupAction::Fail(
                String::from_str(
                    "'crate-helper-lsp' not found in PATH, ~/.cargo/bin, or ~/.local/bin. Run 'cargo install --path lsp' in the crate-helper repository or run 'make install'.",
                ),
            ),
            (LookupStage::CachedFile { path }, _) => {
                let q = clone_text(&path);
                self.stage = LookupStage::CachedFile { path };
                LookupAction::CheckFile(q)
            },
            (LookupStage::InPath, _) => {
                self.stage = LookupStage::InPath;
                LookupAction::FindInPath(String::from_str("crate-helper-lsp"))
            },
            (LookupStage::Home, _) => {
                self.stage = LookupStage::Home;
                LookupAction::ReadHome
            },
            (LookupStage::CargoBin { home }, _) => {
                let c = with_program(home.as_str(), "/.cargo/bin/");
                self.stage = LookupStage::CargoBin { home };
                LookupAction::CheckFile(c)
            },
            (LookupStage::LocalBin { home }, _) => {
                let l = with_program(home.as_str(), "/.local/bin/");
                self.stage = LookupStage::LocalBin { home };
                LookupAction::CheckFile(l)
            },
        }
    }
}

} // verus!
