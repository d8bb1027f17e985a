//! A resilient, line-based scanner for the dependencies of a `Cargo.toml`
//! document, and the cursor context that completion uses.
use vstd::prelude::*;
use vstd::slice::slice_subrange;
use vstd::slice::slice_to_vec;
use crate::position::{Position, Range, pos};
use crate::text::{
    chars_of, string_from_chars, trim, quote_chars, lines_of, views, trim_bounds, trimmed_start,
    strip_quotes, find_in_set_in, find_char_in, find_char_exec, find_seq_exec, starts_with_exec,
    contains_seq_exec, contains_char_exec, chars_eq, is_alphanumeric, split_lines,
    lemma_find_in_set_from_ge, lemma_find_char_from_some, lemma_lines_from_len,
};
use crate::toml_model::{
    SpecSection, SpecValue, SpecDependency, SpecPending, SpecActive, ScanState, ListEntry,
    key_after_prefix, target_section, classify, find_quoted, value_at, keyed_value,
    version_on_line, package_on_line, simple_version, key_range, brace_delta_from, brace_delta,
    lemma_brace_delta_bound, reserved_keys, line_chars, finish_active, last_line_index,
    finish_pending, list_table_or_default, marks_workspace, marks_path, marks_git, update_pending,
    update_active, list_entry, header_step, scan_step, scan, finish_scan, dependencies_of,
    make_dependency, SpecCursorContext, dep_at_from, dep_at, chars_within_from, byte_prefix,
    is_byte_boundary, section_through, open_quote, typed_value, in_value, offset_in_value,
    typed_range, context_in_dependency, context_in_list, cursor_context, cursor_cuts_on_boundaries,
};
use crate::text::{
    utf8_len, utf8_len_exec, lemma_utf8_len_take_step, lemma_utf8_len_concat, char_len_utf8,
    rfind_char_exec, trim_start_index, trimmed_end, strip_start, strip_end, stripped_start,
    stripped_end,
};
use crate::text::{
    trimmed, total_len, lemma_total_len_take_step, lemma_total_len_take_le, lemma_lines_from_total,
    lemma_total_len_nonneg,
};

verus! {

// ---------------------------------------------------------------------------
// Public types
// ---------------------------------------------------------------------------

/// A dependency declared in a `Cargo.toml`.
#[derive(Debug, PartialEq, Eq)]
pub struct ParsedDependency {
    /// The crate's name on the registry (`package = ...` if given, else the key).
    pub crate_name: String,
    /// The key under which the dependency is declared.
    pub alias_name: String,
    /// The table it is declared in (`dependencies`, `dev-dependencies`, ...).
    pub table_name: String,
    /// The version requirement's text, without its quotes.
    pub version: Option<String>,
    pub is_workspace: bool,
    pub is_path: bool,
    pub is_git: bool,
    pub name_range: Range,
    /// From the opening to just after the closing quote of the version.
    pub version_range: Option<Range>,
    /// Strictly inside the quotes of the version.
    pub version_val_range: Option<Range>,
    /// Where an inline hint (`✓` or `⭡ x.y.z`) is rendered.
    pub hint_position: Position,
    /// The lines that declare the dependency.
    pub full_range: Range,
}

pub open spec fn opt_view(o: Option<String>) -> Option<Seq<char>> {
    match o {
        Some(s) => Some(s@),
        None => None,
    }
}

impl View for ParsedDependency {
    type V = SpecDependency;

    open spec fn view(&self) -> SpecDependency {
        SpecDependency {
            crate_name: self.crate_name@,
            alias_name: self.alias_name@,
            table_name: self.table_name@,
            version: opt_view(self.version),
            is_workspace: self.is_workspace,
            is_path: self.is_path,
            is_git: self.is_git,
            name_range: self.name_range,
            version_range: self.version_range,
            version_val_range: self.version_val_range,
            hint_position: self.hint_position,
            full_range: self.full_range,
        }
    }
}

pub fn clone_opt_string(o: &Option<String>) -> (r: Option<String>)
    ensures
        r == *o,
{
    match o {
        Some(s) => Some(s.clone()),
        None => None,
    }
}

impl Clone for ParsedDependency {
    fn clone(&self) -> (r: Self)
        ensures
            r == *self,
    {
        ParsedDependency {
            crate_name: self.crate_name.clone(),
            alias_name: self.alias_name.clone(),
            table_name: self.table_name.clone(),
            version: clone_opt_string(&self.version),
            is_workspace: self.is_workspace,
            is_path: self.is_path,
            is_git: self.is_git,
            name_range: self.name_range,
            version_range: self.version_range,
            version_val_range: self.version_val_range,
            hint_position: self.hint_position,
            full_range: self.full_range,
        }
    }
}

/// The views of a sequence of dependencies.
pub open spec fn deps_view(d: Seq<ParsedDependency>) -> Seq<SpecDependency> {
    d.map_values(|x: ParsedDependency| x@)
}

/// What a section header opens.
#[derive(Debug, PartialEq, Eq)]
pub enum SectionType {
    DependencyList(String),
    SingleDependency { table_name: String, crate_key: String },
    Other,
}

impl View for SectionType {
    type V = SpecSection;

    open spec fn view(&self) -> SpecSection {
        match self {
            SectionType::DependencyList(t) => SpecSection::DependencyList(t@),
            SectionType::SingleDependency { table_name, crate_key } => SpecSection::SingleDependency {
                table_name: table_name@,
                crate_key: crate_key@,
            },
            SectionType::Other => SpecSection::Other,
        }
    }
}

/// The scanner of `Cargo.toml` documents.
pub struct CargoTomlParser;

// ---------------------------------------------------------------------------
// Internal state of the scan
// ---------------------------------------------------------------------------

enum Section {
    List(Vec<char>),
    Single(Vec<char>, Vec<char>),
    Other,
}

impl View for Section {
    type V = SpecSection;

    closed spec fn view(&self) -> SpecSection {
        match self {
            Section::List(t) => SpecSection::DependencyList(t@),
            Section::Single(t, k) => SpecSection::SingleDependency { table_name: t@, crate_key: k@ },
            Section::Other => SpecSection::Other,
        }
    }
}

struct Value {
    text: Vec<char>,
    range: Range,
    val_range: Range,
    hint: Position,
}

impl View for Value {
    type V = SpecValue;

    closed spec fn view(&self) -> SpecValue {
        SpecValue { text: self.text@, range: self.range, val_range: self.val_range, hint: self.hint }
    }
}

spec fn value_opt_view(v: Option<Value>) -> Option<SpecValue> {
    match v {
        Some(x) => Some(x@),
        None => None,
    }
}

spec fn chars_opt_view(v: Option<Vec<char>>) -> Option<Seq<char>> {
    match v {
        Some(x) => Some(x@),
        None => None,
    }
}

struct PendingDep {
    table_name: Vec<char>,
    crate_key: Vec<char>,
    header_line: u32,
    header_name_range: Range,
    version: Option<Value>,
    package_name: Option<Vec<char>>,
    is_workspace: bool,
    is_path: bool,
    is_git: bool,
    last_line: u32,
}

impl View for PendingDep {
    type V = SpecPending;

    closed spec fn view(&self) -> SpecPending {
        SpecPending {
            table_name: self.table_name@,
            crate_key: self.crate_key@,
            header_line: self.header_line,
            header_name_range: self.header_name_range,
            version: value_opt_view(self.version),
            package_name: chars_opt_view(self.package_name),
            is_workspace: self.is_workspace,
            is_path: self.is_path,
            is_git: self.is_git,
            last_line: self.last_line,
        }
    }
}

struct ActiveTable {
    crate_key: Vec<char>,
    start_line: u32,
    name_range: Range,
    brace_depth: i32,
    version: Option<Value>,
    package_name: Option<Vec<char>>,
    is_workspace: bool,
    is_path: bool,
    is_git: bool,
}

impl View for ActiveTable {
    type V = SpecActive;

    closed spec fn view(&self) -> SpecActive {
        SpecActive {
            crate_key: self.crate_key@,
            start_line: self.start_line,
            name_range: self.name_range,
            brace_depth: self.brace_depth as int,
            version: value_opt_view(self.version),
            package_name: chars_opt_view(self.package_name),
            is_workspace: self.is_workspace,
            is_path: self.is_path,
            is_git: self.is_git,
        }
    }
}

struct Scanner {
    section: Section,
    pending: Option<PendingDep>,
    active: Option<ActiveTable>,
    deps: Vec<ParsedDependency>,
}

impl View for Scanner {
    type V = ScanState;

    closed spec fn view(&self) -> ScanState {
        ScanState {
            section: self.section@,
            pending: match self.pending {
                Some(p) => Some(p@),
                None => None,
            },
            active: match self.active {
                Some(a) => Some(a@),
                None => None,
            },
            deps: deps_view(self.deps@),
        }
    }
}

// ---------------------------------------------------------------------------
// Line-level helpers
// ---------------------------------------------------------------------------

fn lit(s: &str) -> (v: Vec<char>)
    ensures
        v@ == s@,
{
    chars_of(s)
}

fn clone_chars(v: &Vec<char>) -> (r: Vec<char>)
    ensures
        r@ == v@,
{
    slice_to_vec(v.as_slice())
}

fn key_after_prefix_exec(h: &[char], prefix: &str) -> (r: Option<Vec<char>>)
    ensures
        chars_opt_view(r) == key_after_prefix(h@, prefix@),
{
    let p = lit(prefix);
    if starts_with_exec(h, p.as_slice()) {
        let rest = slice_subrange(h, p.len(), h.len());
        assert(rest@ == h@.skip(p@.len() as int));
        let unquoted = strip_quotes(rest);
        let (a, b) = trim_bounds(unquoted.as_slice());
        let key = slice_to_vec(slice_subrange(unquoted.as_slice(), a, b));
        if key.len() > 0 {
            Some(key)
        } else {
            None
        }
    } else {
        None
    }
}

fn target_section_exec(h: &[char], rest: &[char], mid: &str) -> (r: Option<Section>)
    ensures
        match r {
            Some(s) => target_section(h@, rest@, mid@) == Some(s@),
            None => target_section(h@, rest@, mid@) is None,
        },
{
    let m = lit(mid);
    let rest_len = rest.len();
    match find_seq_exec(rest, m.as_slice()) {
        None => None,
        Some(idx) => {
            proof {
                crate::text::lemma_find_seq_bound(rest@, m@);
            }
            let after = slice_subrange(rest, idx + m.len(), rest_len);
            assert(after@ == rest@.skip(idx + m@.len()));
            if after.len() == 0 {
                Some(Section::List(slice_to_vec(h)))
            } else {
                let dot = lit(".");
                if starts_with_exec(after, dot.as_slice()) {
                    let part = slice_subrange(after, 1, after.len());
                    assert(part@ == after@.skip(1));
                    let unquoted = strip_quotes(part);
                    let (a, b) = trim_bounds(unquoted.as_slice());
                    let key = slice_to_vec(slice_subrange(unquoted.as_slice(), a, b));
                    if key.len() > 0 {
                        Some(Section::Single(slice_to_vec(h), key))
                    } else {
                        None
                    }
                } else {
                    None
                }
            }
        },
    }
}

fn classify_chars(raw: &[char]) -> (r: Section)
    ensures
        r@ == classify(raw@),
{
    let (a, b) = trim_bounds(raw);
    let h = slice_subrange(raw, a, b);
    if chars_eq(h, lit("dependencies").as_slice()) || chars_eq(h, lit("dev-dependencies").as_slice())
        || chars_eq(h, lit("build-dependencies").as_slice()) || chars_eq(
        h,
        lit("workspace.dependencies").as_slice(),
    ) {
        return Section::List(slice_to_vec(h));
    }
    if let Some(k) = key_after_prefix_exec(h, "dependencies.") {
        return Section::Single(slice_to_vec(h), k);
    }
    if let Some(k) = key_after_prefix_exec(h, "dev-dependencies.") {
        return Section::Single(slice_to_vec(h), k);
    }
    if let Some(k) = key_after_prefix_exec(h, "build-dependencies.") {
        return Section::Single(slice_to_vec(h), k);
    }
    if let Some(k) = key_after_prefix_exec(h, "workspace.dependencies.") {
        return Section::Single(slice_to_vec(h), k);
    }
    let tp = lit("target.");
    if starts_with_exec(h, tp.as_slice()) {
        let rest = slice_subrange(h, tp.len(), h.len());
        assert(rest@ == h@.skip("target."@.len() as int));
        if let Some(s) = target_section_exec(h, rest, ".dependencies") {
            return s;
        }
        if let Some(s) = target_section_exec(h, rest, ".dev-dependencies") {
            return s;
        }
        if let Some(s) = target_section_exec(h, rest, ".build-dependencies") {
            return s;
        }
    }
    Section::Other
}

/// The quote indices of `find_quoted(s)`, computed.
fn find_quoted_exec(s: &[char]) -> (r: Option<(usize, usize)>)
    ensures
        match r {
            Some((a, b)) => a < b < s@.len() && find_quoted(s@) == Some(
                (s@.subrange(a + 1, b as int), a as int, b as int),
            ),
            None => find_quoted(s@) is None,
        },
{
    let q = vec!['"', '\''];
    assert(q@ =~= quote_chars());
    proof {
        lemma_find_in_set_from_ge(s@, quote_chars(), 0);
    }
    match find_in_set_in(s, q.as_slice(), 0) {
        None => None,
        Some(sq) => {
            proof {
                crate::text::lemma_find_char_from_ge(s@, s@[sq as int], sq + 1);
            }
            match find_char_in(s, s[sq], sq + 1) {
                None => None,
                Some(eq) => Some((sq, eq)),
            }
        },
    }
}

fn keyed_value_exec(line: &[char], key: &[char]) -> (r: Option<(Vec<char>, usize, usize, usize)>)
    ensures
        match r {
            Some((v, base, qs, qe)) => keyed_value(line@, key@) == Some(
                (v@, base as int, qs as int, qe as int),
            ) && base + qe < line@.len() && base + qe + 1 <= usize::MAX && qs < qe,
            None => keyed_value(line@, key@) is None,
        },
{
    let line_len = line.len();
    match find_seq_exec(line, key) {
        None => None,
        Some(ki) => {
            proof {
                crate::text::lemma_find_seq_bound(line@, key@);
            }
            if ki > 0 && (is_alphanumeric(line[ki - 1]) || line[ki - 1] == '_' || line[ki - 1]
                == '-') {
                return None;
            }
            proof {
                crate::text::lemma_find_char_from_ge(line@, '=', ki + key@.len());
            }
            match find_char_in(line, '=', ki + key.len()) {
                None => None,
                Some(eq) => {
                    let after = slice_subrange(line, eq + 1, line_len);
                    assert(after@ == line@.skip(eq + 1));
                    match find_quoted_exec(after) {
                        None => None,
                        Some((qs, qe)) => {
                            let v = slice_to_vec(slice_subrange(after, qs + 1, qe));
                            Some((v, eq + 1, qs, qe))
                        },
                    }
                },
            }
        },
    }
}

fn value_at_exec(text: Vec<char>, ln: u32, base: usize, qs: usize, qe: usize) -> (r: Value)
    requires
        base + qe + 1 <= usize::MAX,
        qs < qe,
    ensures
        r@ == value_at(text@, ln as int, base as int, qs as int, qe as int),
{
    let q_start = base + qs;
    let q_end = base + qe + 1;
    Value {
        text,
        range: Range {
            start: Position { line: ln, character: q_start as u32 },
            end: Position { line: ln, character: q_end as u32 },
        },
        val_range: Range {
            start: Position { line: ln, character: (q_start + 1) as u32 },
            end: Position { line: ln, character: (q_end - 1) as u32 },
        },
        hint: Position { line: ln, character: q_end as u32 },
    }
}

fn version_on_line_exec(line: &[char], ln: u32) -> (r: Option<Value>)
    ensures
        value_opt_view(r) == version_on_line(line@, ln as int),
{
    let key = lit("version");
    match keyed_value_exec(line, key.as_slice()) {
        None => None,
        Some((v, base, qs, qe)) => Some(value_at_exec(v, ln, base, qs, qe)),
    }
}

fn package_on_line_exec(line: &[char]) -> (r: Option<Vec<char>>)
    ensures
        chars_opt_view(r) == package_on_line(line@),
{
    let key = lit("package");
    match keyed_value_exec(line, key.as_slice()) {
        None => None,
        Some((v, _, _, _)) => Some(v),
    }
}

fn simple_version_exec(line: &[char], eq: usize, ln: u32) -> (r: Option<Value>)
    requires
        eq < line@.len(),
    ensures
        value_opt_view(r) == simple_version(line@, eq as int, ln as int),
{
    let line_len = line.len();
    let after = slice_subrange(line, eq + 1, line_len);
    assert(after@ == line@.skip(eq + 1));
    match find_quoted_exec(after) {
        None => None,
        Some((qs, qe)) => {
            let v = slice_to_vec(slice_subrange(after, qs + 1, qe));
            Some(value_at_exec(v, ln, eq + 1, qs, qe))
        },
    }
}

fn key_range_exec(line: &[char], key: &[char], ln: u32) -> (r: Range)
    ensures
        r == key_range(line@, key@, ln as int),
{
    let line_len = line.len();
    let key_len = key.len();
    let ks: usize = match find_seq_exec(line, key) {
        Some(i) => i,
        None => 0,
    };
    proof {
        crate::text::lemma_find_seq_bound(line@, key@);
    }
    Range {
        start: Position { line: ln, character: ks as u32 },
        end: Position { line: ln, character: (ks + key.len()) as u32 },
    }
}

fn brace_delta_exec(s: &[char]) -> (r: i32)
    requires
        s@.len() <= i32::MAX,
    ensures
        r == brace_delta(s@),
{
    let mut delta: i32 = 0;
    let mut in_quote: Option<char> = None;
    let mut i: usize = 0;
    proof {
        lemma_brace_delta_bound(s@, 0, None);
    }
    while i < s.len()
        invariant
            s@.len() <= i32::MAX,
            i <= s@.len() + 1,
            -(i as int) <= delta <= i,
            brace_delta(s@) == delta + brace_delta_from(s@, i as int, in_quote),
        decreases s@.len() + 1 - i,
    {
        let c = s[i];
        if c == '\\' {
            i = i + 2;
            continue;
        }
        match in_quote {
            Some(q) => {
                if c == q {
                    in_quote = None;
                }
            },
            None => {
                if c == '"' || c == '\'' {
                    in_quote = Some(c);
                } else if c == '#' {
                    return delta;
                } else if c == '{' {
                    delta = delta + 1;
                } else if c == '}' {
                    delta = delta - 1;
                }
            },
        }
        i = i + 1;
    }
    delta
}

fn is_reserved(key: &[char]) -> (r: bool)
    ensures
        r == reserved_keys().contains(key@),
{
    let keys: Vec<&str> = vec![
        "version",
        "features",
        "default-features",
        "default_features",
        "optional",
        "path",
        "git",
        "branch",
        "tag",
        "rev",
        "package",
        "workspace",
        "registry",
    ];
    let ghost rk = reserved_keys();
    assert(keys@.map_values(|s: &str| s@) =~= rk);
    let mut k: usize = 0;
    while k < keys.len()
        invariant
            rk == reserved_keys(),
            keys@.len() == rk.len(),
            keys@.map_values(|s: &str| s@) == rk,
            k <= keys@.len(),
            forall|j: int| 0 <= j < k ==> rk[j] != key@,
        decreases keys@.len() - k,
    {
        assert(keys@.map_values(|s: &str| s@)[k as int] == keys@[k as int]@);
        assert(rk[k as int] == keys@[k as int]@);
        let kk = keys[k];
        if chars_eq(key, lit(kk).as_slice()) {
            assert(rk[k as int] == key@);
            assert(reserved_keys().contains(key@));
            return true;
        }
        k = k + 1;
    }
    false
}

// ---------------------------------------------------------------------------
// The scan
// ---------------------------------------------------------------------------

enum Entry {
    Skip,
    Open(ActiveTable),
    Whole(ParsedDependency),
}

impl View for Entry {
    type V = ListEntry;

    closed spec fn view(&self) -> ListEntry {
        match self {
            Entry::Skip => ListEntry::Skip,
            Entry::Open(a) => ListEntry::Open(a@),
            Entry::Whole(d) => ListEntry::Whole(d@),
        }
    }
}

fn build_dependency(
    crate_name: &[char],
    alias_name: &[char],
    table_name: &[char],
    v: Option<Value>,
    is_workspace: bool,
    is_path: bool,
    is_git: bool,
    name_range: Range,
    full: Range,
) -> (r: ParsedDependency)
    ensures
        r@ == make_dependency(
            crate_name@,
            alias_name@,
            table_name@,
            value_opt_view(v),
            is_workspace,
            is_path,
            is_git,
            name_range,
            full,
        ),
{
    let (version, version_range, version_val_range, hint_position) = match v {
        Some(x) => (Some(string_from_chars(x.text.as_slice())), Some(x.range), Some(x.val_range), x.hint),
        None => (None, None, None, full.end),
    };
    ParsedDependency {
        crate_name: string_from_chars(crate_name),
        alias_name: string_from_chars(alias_name),
        table_name: string_from_chars(table_name),
        version,
        is_workspace,
        is_path,
        is_git,
        name_range,
        version_range,
        version_val_range,
        hint_position,
        full_range: full,
    }
}

fn last_line_exec(lines: &Vec<Vec<char>>) -> (r: u32)
    ensures
        r == last_line_index(views(lines@)),
{
    if lines.len() == 0 {
        0
    } else {
        (lines.len() - 1) as u32
    }
}

fn line_chars_exec(lines: &Vec<Vec<char>>, l: u32) -> (r: u32)
    ensures
        r == line_chars(views(lines@), l as int) as u32,
{
    let k = l as usize;
    if k < lines.len() {
        assert(views(lines@)[k as int] == lines@[k as int]@);
        lines[k].len() as u32
    } else {
        0
    }
}

fn finish_active_exec(a: ActiveTable, end_line: u32, table: &[char], lines: &Vec<Vec<char>>) -> (r:
    ParsedDependency)
    ensures
        r@ == finish_active(a@, end_line, table@, views(lines@)),
{
    let full = Range {
        start: Position { line: a.start_line, character: 0 },
        end: Position { line: end_line, character: line_chars_exec(lines, end_line) },
    };
    let name = match &a.package_name {
        Some(p) => clone_chars(p),
        None => clone_chars(&a.crate_key),
    };
    build_dependency(
        name.as_slice(),
        a.crate_key.as_slice(),
        table,
        a.version,
        a.is_workspace,
        a.is_path,
        a.is_git,
        a.name_range,
        full,
    )
}

fn finish_pending_exec(p: PendingDep, lines: &Vec<Vec<char>>) -> (r: ParsedDependency)
    ensures
        r@ == finish_pending(p@, views(lines@)),
{
    let last = last_line_exec(lines);
    let end_line = if p.last_line <= last {
        p.last_line
    } else {
        last
    };
    let full = Range {
        start: Position { line: p.header_line, character: 0 },
        end: Position { line: end_line, character: line_chars_exec(lines, end_line) },
    };
    let name = match &p.package_name {
        Some(n) => clone_chars(n),
        None => clone_chars(&p.crate_key),
    };
    build_dependency(
        name.as_slice(),
        p.crate_key.as_slice(),
        p.table_name.as_slice(),
        p.version,
        p.is_workspace,
        p.is_path,
        p.is_git,
        p.header_name_range,
        full,
    )
}

fn marks_workspace_exec(s: &[char]) -> (r: bool)
    ensures
        r == marks_workspace(s@),
{
    contains_seq_exec(s, lit("workspace").as_slice()) && contains_seq_exec(s, lit("true").as_slice())
}

fn marks_path_exec(s: &[char]) -> (r: bool)
    ensures
        r == marks_path(s@),
{
    contains_seq_exec(s, lit("path").as_slice()) && contains_char_exec(s, '=')
}

fn marks_git_exec(s: &[char]) -> (r: bool)
    ensures
        r == marks_git(s@),
{
    contains_seq_exec(s, lit("git").as_slice()) && contains_char_exec(s, '=')
}

fn update_pending_exec(p: &mut PendingDep, line: &[char], ln: u32)
    ensures
        final(p)@ == update_pending(old(p)@, line@, ln),
{
    let t = trimmed(line);
    if t.len() > 0 {
        p.last_line = ln;
    }
    if let Some(v) = version_on_line_exec(line, ln) {
        p.version = Some(v);
    }
    if let Some(n) = package_on_line_exec(line) {
        p.package_name = Some(n);
    }
    if marks_workspace_exec(line) {
        p.is_workspace = true;
    }
    if marks_path_exec(line) {
        p.is_path = true;
    }
    if marks_git_exec(line) {
        p.is_git = true;
    }
}

fn update_active_exec(a: &mut ActiveTable, line: &[char], ln: u32)
    requires
        line@.len() <= i32::MAX,
        -(i32::MAX as int) <= old(a).brace_depth + line@.len() <= i32::MAX,
        -(i32::MAX as int) <= old(a).brace_depth - line@.len() <= i32::MAX,
    ensures
        final(a)@ == update_active(old(a)@, line@, ln),
{
    let delta = brace_delta_exec(line);
    proof {
        lemma_brace_delta_bound(line@, 0, None);
    }
    a.brace_depth = a.brace_depth + delta;
    if a.version.is_none() {
        a.version = version_on_line_exec(line, ln);
    }
    if a.package_name.is_none() {
        a.package_name = package_on_line_exec(line);
    }
    if marks_workspace_exec(line) {
        a.is_workspace = true;
    }
    if marks_path_exec(line) {
        a.is_path = true;
    }
    if marks_git_exec(line) {
        a.is_git = true;
    }
}

fn list_entry_exec(line: &[char], ln: u32, table: &[char]) -> (r: Entry)
    requires
        line@.len() <= i32::MAX,
    ensures
        r@ == list_entry(line@, ln, table@),
        r matches Entry::Open(a) ==> -(line@.len() as int) <= a.brace_depth <= line@.len(),
{
    let line_len = line.len();
    let tl = trimmed_start(line);
    if tl.len() == 0 || starts_with_exec(tl.as_slice(), lit("#").as_slice()) {
        return Entry::Skip;
    }
    let eq = match find_char_exec(line, '=') {
        None => {
            return Entry::Skip;
        },
        Some(e) => e,
    };
    proof {
        lemma_find_char_from_some(line@, '=', 0);
    }
    let head = slice_subrange(line, 0, eq);
    assert(head@ == line@.take(eq as int));
    let (a, b) = trim_bounds(head);
    let raw_key = slice_to_vec(slice_subrange(head, a, b));
    let key = strip_quotes(raw_key.as_slice());
    if raw_key.len() == 0 || is_reserved(key.as_slice()) {
        return Entry::Skip;
    }
    let name_range = key_range_exec(line, raw_key.as_slice(), ln);
    let raw_val = slice_subrange(line, eq + 1, line_len);
    assert(raw_val@ == line@.skip(eq + 1));
    let delta = brace_delta_exec(raw_val);
    proof {
        lemma_brace_delta_bound(raw_val@, 0, None);
    }
    let has_brace = contains_char_exec(raw_val, '{');
    if has_brace && delta > 0 {
        Entry::Open(
            ActiveTable {
                crate_key: key,
                start_line: ln,
                name_range,
                brace_depth: delta,
                version: version_on_line_exec(line, ln),
                package_name: package_on_line_exec(line),
                is_workspace: marks_workspace_exec(raw_val),
                is_path: contains_seq_exec(raw_val, lit("path").as_slice()),
                is_git: contains_seq_exec(raw_val, lit("git").as_slice()),
            },
        )
    } else if has_brace {
        let v = version_on_line_exec(line, ln);
        let pkg = package_on_line_exec(line);
        let full = Range {
            start: Position { line: ln, character: 0 },
            end: Position { line: ln, character: line_len as u32 },
        };
        let name = match &pkg {
            Some(n) => clone_chars(n),
            None => clone_chars(&key),
        };
        let d = build_dependency(
            name.as_slice(),
            key.as_slice(),
            table,
            v,
            marks_workspace_exec(raw_val),
            contains_seq_exec(raw_val, lit("path").as_slice()),
            contains_seq_exec(raw_val, lit("git").as_slice()),
            name_range,
            full,
        );
        Entry::Whole(d)
    } else {
        let v = simple_version_exec(line, eq, ln);
        let full = Range {
            start: Position { line: ln, character: 0 },
            end: Position { line: ln, character: line_len as u32 },
        };
        let d = build_dependency(
            key.as_slice(),
            key.as_slice(),
            table,
            v,
            false,
            false,
            false,
            name_range,
            full,
        );
        Entry::Whole(d)
    }
}

/// The active table's depth stays within the characters read so far.
spec fn depth_within(st: ScanState, b: int) -> bool {
    st.active matches Some(a) ==> -b <= a.brace_depth <= b
}

fn table_or_default(s: &Section) -> (r: Vec<char>)
    ensures
        r@ == list_table_or_default(s@),
{
    match s {
        Section::List(t) => clone_chars(t),
        _ => lit("dependencies"),
    }
}

fn scan_line(st: &mut Scanner, lines: &Vec<Vec<char>>, idx: usize)
    requires
        idx < lines@.len(),
        total_len(views(lines@)) <= i32::MAX,
        depth_within(old(st)@, total_len(views(lines@).take(idx as int))),
    ensures
        final(st)@ == scan_step(views(lines@), old(st)@, idx as int),
        depth_within(final(st)@, total_len(views(lines@).take(idx + 1))),
{
    let ghost ls = views(lines@);
    proof {
        lemma_total_len_take_step(ls, idx as int);
        lemma_total_len_take_le(ls, idx + 1);
        lemma_total_len_nonneg(ls.take(idx as int));
        assert(ls[idx as int] == lines@[idx as int]@);
    }
    let line = lines[idx].as_slice();
    let ln = idx as u32;
    let t = trimmed(line);
    if starts_with_exec(t.as_slice(), lit("#").as_slice()) {
        return;
    }
    let opens = starts_with_exec(t.as_slice(), lit("[").as_slice()) && !starts_with_exec(
        t.as_slice(),
        lit("[[").as_slice(),
    );
    if opens {
        if let Some(cb) = find_char_exec(t.as_slice(), ']') {
            proof {
                reveal_strlit("[");
                lemma_find_char_from_some(t@, ']', 0);
                assert(t@.subrange(0, 1)[0] == t@[0]);
                assert(t@[0] == '[');
            }
            if let Some(p) = st.pending.take() {
                let d = finish_pending_exec(p, lines);
                st.deps.push(d);
            }
            if let Some(a) = st.active.take() {
                let tbl = table_or_default(&st.section);
                let d = finish_active_exec(a, if ln == 0 { 0 } else { ln - 1 }, tbl.as_slice(), lines);
                st.deps.push(d);
            }
            let content = slice_subrange(t.as_slice(), 1, cb);
            let sec = classify_chars(content);
            st.pending = match &sec {
                Section::Single(tn, ck) => Some(
                    PendingDep {
                        table_name: clone_chars(tn),
                        crate_key: clone_chars(ck),
                        header_line: ln,
                        header_name_range: key_range_exec(line, ck.as_slice(), ln),
                        version: None,
                        package_name: None,
                        is_workspace: false,
                        is_path: false,
                        is_git: false,
                        last_line: ln,
                    },
                ),
                _ => None,
            };
            st.section = sec;
            assert(deps_view(st.deps@) =~= header_step(ls, old(st)@, line@, ln, t@, cb as int).deps);
            return;
        }
    }
    if st.pending.is_some() {
        let mut p = st.pending.take().unwrap();
        update_pending_exec(&mut p, line, ln);
        st.pending = Some(p);
        return;
    }
    let table = match &st.section {
        Section::List(tn) => clone_chars(tn),
        _ => {
            return;
        },
    };
    if st.active.is_some() {
        proof {
            lemma_brace_delta_bound(line@, 0, None);
        }
        let mut a = st.active.take().unwrap();
        update_active_exec(&mut a, line, ln);
        if a.brace_depth <= 0 {
            let d = finish_active_exec(a, ln, table.as_slice(), lines);
            st.deps.push(d);
            assert(deps_view(st.deps@) =~= deps_view(old(st).deps@).push(d@));
        } else {
            st.active = Some(a);
        }
        return;
    }
    match list_entry_exec(line, ln, table.as_slice()) {
        Entry::Skip => {},
        Entry::Open(a) => {
            st.active = Some(a);
        },
        Entry::Whole(d) => {
            st.deps.push(d);
            assert(deps_view(st.deps@) =~= deps_view(old(st).deps@).push(d@));
        },
    }
}

fn finish_scanner(st: Scanner, lines: &Vec<Vec<char>>) -> (r: Vec<ParsedDependency>)
    ensures
        deps_view(r@) == finish_scan(views(lines@), st@),
{
    let mut deps = st.deps;
    if let Some(p) = st.pending {
        let d = finish_pending_exec(p, lines);
        deps.push(d);
    }
    if let Some(a) = st.active {
        let tbl = table_or_default(&st.section);
        let d = finish_active_exec(a, last_line_exec(lines), tbl.as_slice(), lines);
        deps.push(d);
    }
    assert(deps_view(deps@) =~= finish_scan(views(lines@), st@));
    deps
}

impl CargoTomlParser {
    /// Extract all dependencies from the document across all orientations:
    /// simple strings (`serde = "1.0.100"`), single-line and multi-line inline
    /// tables (`tokio = { version = "1.0.0" }`) and table blocks
    /// (`[dependencies.sea-orm-migration]`).
    pub fn parse_dependencies(text: &str) -> (r: Vec<ParsedDependency>)
        requires
            text@.len() <= i32::MAX,
        ensures
            deps_view(r@) == dependencies_of(text@),
    {
        let chars = chars_of(text);
        let lines = split_lines(chars.as_slice());
        let ghost ls = views(lines@);
        proof {
            lemma_lines_from_total(text@, 0);
        }
        let mut st = Scanner { section: Section::Other, pending: None, active: None, deps: Vec::new() };
        assert(st@.deps =~= scan(ls, 0).deps);
        assert(st@ == scan(ls, 0));
        let mut i: usize = 0;
        while i < lines.len()
            invariant
                ls == views(lines@),
                ls == lines_of(text@),
                total_len(ls) <= i32::MAX,
                i <= lines@.len(),
                st@ == scan(ls, i as int),
                depth_within(st@, total_len(ls.take(i as int))),
            decreases lines@.len() - i,
        {
            scan_line(&mut st, &lines, i);
            i = i + 1;
        }
        finish_scanner(st, &lines)
    }
}

// ---------------------------------------------------------------------------
// Cursor context
// ---------------------------------------------------------------------------

/// What the cursor stands in, for autocompletion.
#[derive(Debug, PartialEq, Eq)]
pub enum CursorContext {
    /// Inside the quotes of a version requirement of `crate_name`.
    InVersionString { crate_name: String, prefix: String, replace_range: Range },
    /// Typing a crate's name as a key of a dependency list.
    InCrateKey { prefix: String, replace_range: Range },
    /// Elsewhere in a dependency list.
    InDependencySection { replace_range: Range },
    /// Nowhere that completion helps with.
    NoContext,
}

impl View for CursorContext {
    type V = SpecCursorContext;

    open spec fn view(&self) -> SpecCursorContext {
        match self {
            CursorContext::InVersionString { crate_name, prefix, replace_range } =>
                SpecCursorContext::InVersionString {
                crate_name: crate_name@,
                prefix: prefix@,
                replace_range: *replace_range,
            },
            CursorContext::InCrateKey { prefix, replace_range } => SpecCursorContext::InCrateKey {
                prefix: prefix@,
                replace_range: *replace_range,
            },
            CursorContext::InDependencySection { replace_range } =>
                SpecCursorContext::InDependencySection { replace_range: *replace_range },
            CursorContext::NoContext => SpecCursorContext::NoContext,
        }
    }
}

/// The number of leading characters of `s` that fit in `b` bytes, and their byte length.
fn byte_prefix_exec(s: &[char], b: u128) -> (r: (usize, u128))
    requires
        b <= 0x1_0000_0000_0000_0000_0000,
    ensures
        r.0 == chars_within_from(s@, b as int, 0),
        r.0 <= s@.len(),
        r.1 == utf8_len(s@.take(r.0 as int)),
        s@.take(r.0 as int) == byte_prefix(s@, b as int),
{
    let len = s.len();
    let mut k: usize = 0;
    let mut acc: u128 = 0;
    assert(s@.take(0) =~= Seq::<char>::empty());
    let mut done = false;
    while k < len && !done
        invariant
            b <= 0x1_0000_0000_0000_0000_0000,
            len == s@.len(),
            k <= len,
            acc == utf8_len(s@.take(k as int)),
            acc <= b,
            done ==> chars_within_from(s@, b as int, 0) == k,
            !done ==> chars_within_from(s@, b as int, 0) == chars_within_from(s@, b as int, k as int),
        decreases len - k, if done { 0int } else { 1int },
    {
        proof {
            lemma_utf8_len_take_step(s@, k as int);
        }
        let w = char_len_utf8(s[k]) as u128;
        if acc + w > b {
            done = true;
        } else {
            acc = acc + w;
            k = k + 1;
        }
    }
    (k, acc)
}

/// Whether byte offset `b` of `s` is a character boundary, computed.
fn is_byte_boundary_exec(s: &[char], b: u128) -> (r: bool)
    requires
        b <= 0x1_0000_0000_0000_0000_0000,
    ensures
        r == is_byte_boundary(s@, b as int),
{
    let (_, acc) = byte_prefix_exec(s, b);
    acc == b
}

/// The first dependency from index `i` on whose lines include `line`, computed.
fn dep_at_exec(deps: &Vec<ParsedDependency>, line: u32) -> (r: Option<usize>)
    ensures
        match r {
            Some(i) => i < deps@.len() && dep_at(deps_view(deps@), line) == Some(i as int),
            None => dep_at(deps_view(deps@), line) is None,
        },
{
    let ghost dv = deps_view(deps@);
    let mut i: usize = 0;
    while i < deps.len()
        invariant
            dv == deps_view(deps@),
            i <= deps@.len(),
            dep_at(dv, line) == dep_at_from(dv, line, i as int),
        decreases deps@.len() - i,
    {
        assert(dv[i as int] == deps@[i as int]@);
        let r = deps[i].full_range;
        if r.start.line <= line && line <= r.end.line {
            return Some(i);
        }
        i = i + 1;
    }
    None
}

/// Index of the quote that opens a value being typed in `s`.
fn open_quote_exec(s: &[char]) -> (r: Option<usize>)
    ensures
        match r {
            Some(q) => open_quote(s@) == Some(q as int) && q < s@.len(),
            None => open_quote(s@) is None,
        },
{
    proof {
        crate::text::lemma_rfind_char_bound(s@, '"');
        crate::text::lemma_rfind_char_bound(s@, '\'');
    }
    match rfind_char_exec(s, '"') {
        Some(q) => Some(q),
        None => rfind_char_exec(s, '\''),
    }
}

fn typed_value_exec(before: &[char]) -> (r: Option<(Vec<char>, u128)>)
    ensures
        match r {
            Some((v, start)) => typed_value(before@) == Some((v@, start as int)),
            None => typed_value(before@) is None,
        },
{
    let len = before.len();
    match find_char_exec(before, '=') {
        None => None,
        Some(ec) => {
            proof {
                lemma_find_char_from_some(before@, '=', 0);
            }
            let after = slice_subrange(before, ec + 1, len);
            assert(after@ == before@.skip(ec + 1));
            match open_quote_exec(after) {
                None => None,
                Some(qc) => {
                    let prefix = slice_to_vec(slice_subrange(after, qc + 1, after.len()));
                    assert(prefix@ == after@.skip(qc + 1));
                    let head = slice_subrange(before, 0, ec);
                    assert(head@ == before@.take(ec as int));
                    let mid = slice_subrange(after, 0, qc);
                    assert(mid@ == after@.take(qc as int));
                    let start = utf8_len_exec(head) + 1 + utf8_len_exec(mid) + 1;
                    Some((prefix, start))
                },
            }
        },
    }
}

fn typed_range_exec(p: &Position, start: u128) -> (r: Range)
    ensures
        r == typed_range(*p, start as int),
{
    Range { start: Position { line: p.line, character: start as u32 }, end: *p }
}

fn context_in_dependency_exec(d: &ParsedDependency, p: &Position, before: &[char]) -> (r: Option<
    CursorContext,
>)
    requires
        (d@.version_val_range is Some && in_value(*p, d@.version_val_range->0)
            && d@.version is Some && offset_in_value(*p, d@.version_val_range->0) <= utf8_len(
            d@.version->0,
        )) ==> is_byte_boundary(d@.version->0, offset_in_value(*p, d@.version_val_range->0)),
    ensures
        match r {
            Some(c) => context_in_dependency(d@, *p, before@) == Some(c@),
            None => context_in_dependency(d@, *p, before@) is None,
        },
{
    if let Some(vr) = d.version_val_range {
        if p.line == vr.start.line && p.character >= vr.start.character && (p.character as u64)
            <= (vr.end.character as u64) + 1 {
            let off: u128 = (p.character - vr.start.character) as u128;
            let prefix = match &d.version {
                Some(v) => {
                    let vc = chars_of(v.as_str());
                    let vb = utf8_len_exec(vc.as_slice());
                    if off <= vb {
                        let (k, _) = byte_prefix_exec(vc.as_slice(), off);
                        string_from_chars(slice_subrange(vc.as_slice(), 0, k))
                    } else {
                        v.clone()
                    }
                },
                None => String::new(),
            };
            return Some(
                CursorContext::InVersionString {
                    crate_name: d.crate_name.clone(),
                    prefix,
                    replace_range: vr,
                },
            );
        }
    }
    match typed_value_exec(before) {
        Some((prefix, start)) => Some(
            CursorContext::InVersionString {
                crate_name: d.crate_name.clone(),
                prefix: string_from_chars(prefix.as_slice()),
                replace_range: typed_range_exec(p, start),
            },
        ),
        None => None,
    }
}

fn context_in_list_exec(p: &Position, before: &[char]) -> (r: CursorContext)
    ensures
        r@ == context_in_list(*p, before@),
{
    match find_char_exec(before, '=') {
        Some(ec) => {
            proof {
                lemma_find_char_from_some(before@, '=', 0);
            }
            let head = slice_subrange(before, 0, ec);
            assert(head@ == before@.take(ec as int));
            let (a, b) = trim_bounds(head);
            let key = strip_quotes(slice_subrange(head, a, b));
            match typed_value_exec(before) {
                Some((prefix, start)) => CursorContext::InVersionString {
                    crate_name: string_from_chars(key.as_slice()),
                    prefix: string_from_chars(prefix.as_slice()),
                    replace_range: typed_range_exec(p, start),
                },
                None => CursorContext::InDependencySection {
                    replace_range: Range { start: *p, end: *p },
                },
            }
        },
        None => {
            let a = trim_start_index(before);
            let tb = slice_subrange(before, a, before.len());
            let lead = slice_subrange(before, 0, a);
            proof {
                assert(before@ =~= lead@ + tb@);
                lemma_utf8_len_concat(lead@, tb@);
            }
            let prefix = trimmed_end(tb);
            CursorContext::InCrateKey {
                prefix: string_from_chars(prefix.as_slice()),
                replace_range: typed_range_exec(p, utf8_len_exec(lead)),
            }
        },
    }
}

fn section_through_exec(lines: &Vec<Vec<char>>, n: usize) -> (r: Section)
    requires
        n <= lines@.len(),
    ensures
        r@ == section_through(views(lines@), n as int),
{
    let ghost ls = views(lines@);
    let mut sec = Section::Other;
    let mut k: usize = 0;
    while k < n
        invariant
            ls == views(lines@),
            n <= lines@.len(),
            k <= n,
            sec@ == section_through(ls, k as int),
        decreases n - k,
    {
        assert(ls[k as int] == lines@[k as int]@);
        let t = trimmed(lines[k].as_slice());
        let opens = starts_with_exec(t.as_slice(), lit("[").as_slice()) && !starts_with_exec(
            t.as_slice(),
            lit("[[").as_slice(),
        );
        if opens {
            if let Some(cb) = find_char_exec(t.as_slice(), ']') {
                proof {
                    reveal_strlit("[");
                    lemma_find_char_from_some(t@, ']', 0);
                    assert(t@.subrange(0, 1)[0] == t@[0]);
                }
                sec = classify_chars(slice_subrange(t.as_slice(), 1, cb));
            }
        }
        k = k + 1;
    }
    sec
}

impl CargoTomlParser {
    /// Determine the cursor context for autocompletion.
    ///
    /// Like the byte-indexed slicing it stands for, this requires that the
    /// cursor's column (and its offset into a version value it stands in) falls
    /// on a character boundary; `cursor_context_is_defined` tells whether it does.
    pub fn get_cursor_context(text: &str, pos: &Position) -> (r: CursorContext)
        requires
            text@.len() <= i32::MAX,
            cursor_cuts_on_boundaries(text@, *pos),
        ensures
            r@ == cursor_context(text@, *pos),
    {
        let chars = chars_of(text);
        let lines = split_lines(chars.as_slice());
        let line_idx = pos.line as usize;
        if line_idx >= lines.len() {
            return CursorContext::NoContext;
        }
        let ghost ls = views(lines@);
        assert(ls[line_idx as int] == lines@[line_idx as int]@);
        let line = lines[line_idx].as_slice();
        proof {
            lemma_lines_from_len(text@, 0);
            crate::text::lemma_utf8_len_le(line@);
        }
        let line_bytes = utf8_len_exec(line);
        let col: u128 = if (pos.character as u128) <= line_bytes {
            pos.character as u128
        } else {
            line_bytes
        };
        let (kb, _) = byte_prefix_exec(line, col);
        let before = slice_subrange(line, 0, kb);
        let deps = Self::parse_dependencies(text);
        if let Some(i) = dep_at_exec(&deps, pos.line) {
            assert(deps_view(deps@)[i as int] == deps@[i as int]@);
            if let Some(c) = context_in_dependency_exec(&deps[i], pos, before) {
                return c;
            }
        }
        let sec = section_through_exec(&lines, line_idx + 1);
        match sec {
            Section::List(_) => context_in_list_exec(pos, before),
            Section::Single(_, key) => match typed_value_exec(before) {
                Some((prefix, start)) => CursorContext::InVersionString {
                    crate_name: string_from_chars(key.as_slice()),
                    prefix: string_from_chars(prefix.as_slice()),
                    replace_range: typed_range_exec(pos, start),
                },
                None => CursorContext::NoContext,
            },
            Section::Other => CursorContext::NoContext,
        }
    }

    /// Whether `get_cursor_context` may be asked about `pos` in `text`: the byte
    /// offsets at which it cuts strings fall on character boundaries.
    pub fn cursor_context_is_defined(text: &str, pos: &Position) -> (r: bool)
        requires
            text@.len() <= i32::MAX,
        ensures
            r == cursor_cuts_on_boundaries(text@, *pos),
    {
        let chars = chars_of(text);
        let lines = split_lines(chars.as_slice());
        let line_idx = pos.line as usize;
        if line_idx >= lines.len() {
            return true;
        }
        let ghost ls = views(lines@);
        assert(ls[line_idx as int] == lines@[line_idx as int]@);
        let line = lines[line_idx].as_slice();
        proof {
            lemma_lines_from_len(text@, 0);
            crate::text::lemma_utf8_len_le(line@);
        }
        let line_bytes = utf8_len_exec(line);
        let col: u128 = if (pos.character as u128) <= line_bytes {
            pos.character as u128
        } else {
            line_bytes
        };
        if !is_byte_boundary_exec(line, col) {
            return false;
        }
        let deps = Self::parse_dependencies(text);
        match dep_at_exec(&deps, pos.line) {
            None => true,
            Some(i) => {
                assert(deps_view(deps@)[i as int] == deps@[i as int]@);
                let d = &deps[i];
                match (&d.version_val_range, &d.version) {
                    (Some(vr), Some(v)) => {
                        if pos.line == vr.start.line && pos.character >= vr.start.character && (
                        pos.character as u64) <= (vr.end.character as u64) + 1 {
                            let off: u128 = (pos.character - vr.start.character) as u128;
                            let vc = chars_of(v.as_str());
                            let vb = utf8_len_exec(vc.as_slice());
                            if off <= vb {
                                is_byte_boundary_exec(vc.as_slice(), off)
                            } else {
                                true
                            }
                        } else {
                            true
                        }
                    },
                    _ => true,
                }
            },
        }
    }

    /// Find the dependency at or containing the cursor's line: the first one
    /// whose lines include it.
    pub fn find_dependency_at(deps: &[ParsedDependency], pos: &Position) -> (r: Option<
        ParsedDependency,
    >)
        ensures
            match dep_at(deps_view(deps@), pos.line) {
                Some(i) => r == Some(deps@[i]),
                None => r is None,
            },
    {
        let ghost dv = deps_view(deps@);
        let mut i: usize = 0;
        while i < deps.len()
            invariant
                dv == deps_view(deps@),
                i <= deps@.len(),
                dep_at(dv, pos.line) == dep_at_from(dv, pos.line, i as int),
            decreases deps@.len() - i,
        {
            assert(dv[i as int] == deps@[i as int]@);
            let r = deps[i].full_range;
            if pos.line >= r.start.line && pos.line <= r.end.line {
                return Some(deps[i].clone());
            }
            i = i + 1;
        }
        None
    }
}

// ---------------------------------------------------------------------------
// Public helpers on strings
// ---------------------------------------------------------------------------

/// The characters that `is_dependency_section` strips from a header's ends.
pub open spec fn header_content(header: Seq<char>) -> Seq<char> {
    trim(strip_end(strip_start(trim(header), seq!['[']), seq![']']))
}

/// The byte offset of the `k`-th character of `s`, computed.
fn byte_offset_exec(s: &[char], k: usize) -> (r: usize)
    requires
        k <= s@.len(),
        utf8_len(s@) <= usize::MAX,
    ensures
        r == utf8_len(s@.take(k as int)),
{
    let head = slice_subrange(s, 0, k);
    proof {
        crate::text::lemma_utf8_len_take_le(s@, k as int);
    }
    utf8_len_exec(head) as usize
}

impl CargoTomlParser {
    /// Classify a section header (e.g. `dependencies`,
    /// `dependencies.sea-orm-migration`, `package`).
    pub fn classify_section(raw_header: &str) -> (r: SectionType)
        ensures
            r@ == classify(raw_header@),
    {
        let raw = chars_of(raw_header);
        match classify_chars(raw.as_slice()) {
            Section::List(t) => SectionType::DependencyList(string_from_chars(t.as_slice())),
            Section::Single(t, k) => SectionType::SingleDependency {
                table_name: string_from_chars(t.as_slice()),
                crate_key: string_from_chars(k.as_slice()),
            },
            Section::Other => SectionType::Other,
        }
    }

    /// Whether a header line (with or without its brackets) opens a
    /// dependency list or a single dependency's table.
    pub fn is_dependency_section(header: &str) -> (r: bool)
        ensures
            r == !(classify(header_content(header@)) is Other),
    {
        let h = chars_of(header);
        let t = trimmed(h.as_slice());
        let open = vec!['['];
        let close = vec![']'];
        assert(open@ =~= seq!['[']);
        assert(close@ =~= seq![']']);
        let a = stripped_start(t.as_slice(), open.as_slice());
        let b = stripped_end(a.as_slice(), close.as_slice());
        let c = trimmed(b.as_slice());
        match classify_chars(c.as_slice()) {
            Section::Other => false,
            _ => true,
        }
    }

    /// The first quoted string in `slice`: its content, and the byte offsets of
    /// its opening and closing quote.
    pub fn find_quoted_string(slice: &str) -> (r: Option<(&str, usize, usize)>)
        ensures
            match find_quoted(slice@) {
                None => r is None,
                Some((v, a, b)) => r matches Some((s, x, y)) && s@ == v && x == utf8_len(
                    slice@.take(a),
                ) && y == utf8_len(slice@.take(b)),
            },
    {
        let total = crate::text::str_utf8_len(slice);
        let chars = chars_of(slice);
        match find_quoted_exec(chars.as_slice()) {
            None => None,
            Some((a, b)) => {
                let sub = slice.substring_char(a + 1, b);
                let x = byte_offset_exec(chars.as_slice(), a);
                let y = byte_offset_exec(chars.as_slice(), b);
                Some((sub, x, y))
            },
        }
    }

    /// The value of `package = "..."` on a line, where `package` stands on its own.
    pub fn extract_package_from_line(line: &str) -> (r: Option<String>)
        ensures
            opt_view(r) == package_on_line(line@),
    {
        let chars = chars_of(line);
        match package_on_line_exec(chars.as_slice()) {
            Some(v) => Some(string_from_chars(v.as_slice())),
            None => None,
        }
    }

    /// The net number of `{` over `}` on a line, outside quoted strings and
    /// before a `#` comment.
    pub fn count_brace_delta(line: &str) -> (r: i32)
        requires
            line@.len() <= i32::MAX,
        ensures
            r == brace_delta(line@),
    {
        let chars = chars_of(line);
        brace_delta_exec(chars.as_slice())
    }
}

} // verus!
