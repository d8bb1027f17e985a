//! The mathematical model of the `Cargo.toml` scanner: what each step of the
//! line-by-line scan does, over sequences of characters.
use vstd::prelude::*;
use crate::position::{Position, Range, pos, line_range};
use crate::text::{
    trim, trim_start, strip_both, quote_chars, starts_with, find_seq, find_char, find_char_from,
    find_in_set_from, contains_seq, contains_char, char_is_alphanumeric, lines_of, rfind_char,
    trim_end, utf8_len,
};

verus! {

// ---------------------------------------------------------------------------
// Sections
// ---------------------------------------------------------------------------

/// What a `[...]` header opens.
pub enum SpecSection {
    /// A table of dependencies, one per key (`[dependencies]`).
    DependencyList(Seq<char>),
    /// A table that describes one dependency (`[dependencies.serde]`).
    SingleDependency { table_name: Seq<char>, crate_key: Seq<char> },
    /// Any other table.
    Other,
}

/// The headers that name a dependency list as a whole.
pub open spec fn is_list_header(h: Seq<char>) -> bool {
    ||| h == "dependencies"@
    ||| h == "dev-dependencies"@
    ||| h == "build-dependencies"@
    ||| h == "workspace.dependencies"@
}

/// The key of a dependency named after `prefix` in `header`, when there is one.
pub open spec fn key_after_prefix(header: Seq<char>, prefix: Seq<char>) -> Option<Seq<char>> {
    if starts_with(header, prefix) {
        let key = trim(strip_both(header.skip(prefix.len() as int), quote_chars()));
        if key.len() > 0 {
            Some(key)
        } else {
            None
        }
    } else {
        None
    }
}

/// How `header` (a `target.` header with `rest` after `target.`) ends when it
/// holds the table name `mid`: as a list, as one dependency, or not decided.
pub open spec fn target_section(header: Seq<char>, rest: Seq<char>, mid: Seq<char>) -> Option<
    SpecSection,
> {
    match find_seq(rest, mid) {
        None => None,
        Some(idx) => {
            let after = rest.skip(idx + mid.len());
            if after.len() == 0 {
                Some(SpecSection::DependencyList(header))
            } else if starts_with(after, "."@) {
                let key = trim(strip_both(after.skip(1), quote_chars()));
                if key.len() > 0 {
                    Some(SpecSection::SingleDependency { table_name: header, crate_key: key })
                } else {
                    None
                }
            } else {
                None
            }
        },
    }
}

/// The section that a header's content (the text between `[` and `]`) opens.
pub open spec fn classify(raw: Seq<char>) -> SpecSection {
    let h = trim(raw);
    if is_list_header(h) {
        SpecSection::DependencyList(h)
    } else if key_after_prefix(h, "dependencies."@) is Some {
        SpecSection::SingleDependency {
            table_name: h,
            crate_key: key_after_prefix(h, "dependencies."@)->0,
        }
    } else if key_after_prefix(h, "dev-dependencies."@) is Some {
        SpecSection::SingleDependency {
            table_name: h,
            crate_key: key_after_prefix(h, "dev-dependencies."@)->0,
        }
    } else if key_after_prefix(h, "build-dependencies."@) is Some {
        SpecSection::SingleDependency {
            table_name: h,
            crate_key: key_after_prefix(h, "build-dependencies."@)->0,
        }
    } else if key_after_prefix(h, "workspace.dependencies."@) is Some {
        SpecSection::SingleDependency {
            table_name: h,
            crate_key: key_after_prefix(h, "workspace.dependencies."@)->0,
        }
    } else if starts_with(h, "target."@) {
        let rest = h.skip("target."@.len() as int);
        if target_section(h, rest, ".dependencies"@) is Some {
            target_section(h, rest, ".dependencies"@)->0
        } else if target_section(h, rest, ".dev-dependencies"@) is Some {
            target_section(h, rest, ".dev-dependencies"@)->0
        } else if target_section(h, rest, ".build-dependencies"@) is Some {
            target_section(h, rest, ".build-dependencies"@)->0
        } else {
            SpecSection::Other
        }
    } else {
        SpecSection::Other
    }
}

// ---------------------------------------------------------------------------
// Values on a line
// ---------------------------------------------------------------------------

/// The first quoted string in `s`: its content, and the indices of its opening
/// and closing quote (the closing quote is the same character as the opening one).
pub open spec fn find_quoted(s: Seq<char>) -> Option<(Seq<char>, int, int)> {
    match find_in_set_from(s, quote_chars(), 0) {
        None => None,
        Some(sq) => match find_char_from(s, s[sq], sq + 1) {
            None => None,
            Some(eq) => Some((s.subrange(sq + 1, eq), sq, eq)),
        },
    }
}

/// A quoted value found on a line, with where it stands.
pub struct SpecValue {
    /// The text between the quotes.
    pub text: Seq<char>,
    /// From the opening quote to just after the closing quote.
    pub range: Range,
    /// The text strictly inside the quotes.
    pub val_range: Range,
    /// Where an inline hint for the value belongs: just after its closing quote.
    pub hint: Position,
}

/// The value whose quotes stand at `base + qs` and `base + qe` on line `ln`.
pub open spec fn value_at(text: Seq<char>, ln: int, base: int, qs: int, qe: int) -> SpecValue {
    let q_start = base + qs;
    let q_end = base + qe + 1;
    SpecValue {
        text: text,
        range: line_range(ln, q_start, q_end),
        val_range: line_range(ln, q_start + 1, q_end - 1),
        hint: pos(ln, q_end),
    }
}

/// Characters that may belong to a bare key, so that a key name found right
/// after one of them is only part of a longer key.
pub open spec fn is_key_char(c: char) -> bool {
    char_is_alphanumeric(c) || c == '_' || c == '-'
}

/// The quoted value of `key = "..."` on `line`, where `key` is the first
/// occurrence of that word on the line and stands on its own.
/// Yields the value, the index after the `=` and the quote indices relative to it.
pub open spec fn keyed_value(line: Seq<char>, key: Seq<char>) -> Option<
    (Seq<char>, int, int, int),
> {
    match find_seq(line, key) {
        None => None,
        Some(ki) => if ki > 0 && is_key_char(line[ki - 1]) {
            None
        } else {
            match find_char_from(line, '=', ki + key.len()) {
                None => None,
                Some(eq) => match find_quoted(line.skip(eq + 1)) {
                    None => None,
                    Some((v, qs, qe)) => Some((v, eq + 1, qs, qe)),
                },
            }
        },
    }
}

/// The `version = "..."` value on line `ln`.
pub open spec fn version_on_line(line: Seq<char>, ln: int) -> Option<SpecValue> {
    match keyed_value(line, "version"@) {
        None => None,
        Some((v, base, qs, qe)) => Some(value_at(v, ln, base, qs, qe)),
    }
}

/// The `package = "..."` value on a line.
pub open spec fn package_on_line(line: Seq<char>) -> Option<Seq<char>> {
    match keyed_value(line, "package"@) {
        None => None,
        Some((v, _, _, _)) => Some(v),
    }
}

/// The first quoted value after the `=` at index `eq` of line `ln` (`name = "1.0"`).
pub open spec fn simple_version(line: Seq<char>, eq: int, ln: int) -> Option<SpecValue> {
    match find_quoted(line.skip(eq + 1)) {
        None => None,
        Some((v, qs, qe)) => Some(value_at(v, ln, eq + 1, qs, qe)),
    }
}

/// Where `key` stands on line `ln`: at its first occurrence (or at column 0).
pub open spec fn key_range(line: Seq<char>, key: Seq<char>, ln: int) -> Range {
    let ks = match find_seq(line, key) {
        Some(i) => i,
        None => 0,
    };
    line_range(ln, ks, ks + key.len())
}

/// The net number of `{` over `}` in `s` from index `i` on, outside quoted
/// strings and before a `#` comment; a backslash hides the character after it.
pub open spec fn brace_delta_from(s: Seq<char>, i: int, in_quote: Option<char>) -> int
    decreases s.len() + 1 - i,
{
    if i < 0 || i >= s.len() {
        0
    } else {
        let c = s[i];
        if c == '\\' {
            brace_delta_from(s, i + 2, in_quote)
        } else if in_quote is Some {
            if c == in_quote->0 {
                brace_delta_from(s, i + 1, None)
            } else {
                brace_delta_from(s, i + 1, in_quote)
            }
        } else if c == '"' || c == '\'' {
            brace_delta_from(s, i + 1, Some(c))
        } else if c == '#' {
            0
        } else if c == '{' {
            1 + brace_delta_from(s, i + 1, None)
        } else if c == '}' {
            -1 + brace_delta_from(s, i + 1, None)
        } else {
            brace_delta_from(s, i + 1, None)
        }
    }
}

/// The net number of opened braces on a line.
pub open spec fn brace_delta(s: Seq<char>) -> int {
    brace_delta_from(s, 0, None)
}

pub proof fn lemma_brace_delta_bound(s: Seq<char>, i: int, q: Option<char>)
    requires
        0 <= i,
    ensures
        -(s.len() as int) <= brace_delta_from(s, i, q) <= s.len(),
        i <= s.len() ==> -(s.len() - i) <= brace_delta_from(s, i, q) <= s.len() - i,
    decreases s.len() + 1 - i,
{
    if i < s.len() {
        lemma_brace_delta_bound(s, i + 1, q);
        lemma_brace_delta_bound(s, i + 2, q);
        lemma_brace_delta_bound(s, i + 1, None);
        lemma_brace_delta_bound(s, i + 1, Some(s[i]));
    }
}

/// The keys that describe a dependency and never name one.
pub open spec fn reserved_keys() -> Seq<Seq<char>> {
    seq![
        "version"@,
        "features"@,
        "default-features"@,
        "default_features"@,
        "optional"@,
        "path"@,
        "git"@,
        "branch"@,
        "tag"@,
        "rev"@,
        "package"@,
        "workspace"@,
        "registry"@,
    ]
}

// ---------------------------------------------------------------------------
// Dependencies and the scan's state
// ---------------------------------------------------------------------------

/// A dependency found in the document.
pub struct SpecDependency {
    pub crate_name: Seq<char>,
    pub alias_name: Seq<char>,
    pub table_name: Seq<char>,
    pub version: Option<Seq<char>>,
    pub is_workspace: bool,
    pub is_path: bool,
    pub is_git: bool,
    pub name_range: Range,
    pub version_range: Option<Range>,
    pub version_val_range: Option<Range>,
    pub hint_position: Position,
    pub full_range: Range,
}

/// A `[dependencies.name]` table being read.
pub struct SpecPending {
    pub table_name: Seq<char>,
    pub crate_key: Seq<char>,
    pub header_line: u32,
    pub header_name_range: Range,
    pub version: Option<SpecValue>,
    pub package_name: Option<Seq<char>>,
    pub is_workspace: bool,
    pub is_path: bool,
    pub is_git: bool,
    pub last_line: u32,
}

/// An inline table `name = { ...` that spans several lines, being read.
pub struct SpecActive {
    pub crate_key: Seq<char>,
    pub start_line: u32,
    pub name_range: Range,
    pub brace_depth: int,
    pub version: Option<SpecValue>,
    pub package_name: Option<Seq<char>>,
    pub is_workspace: bool,
    pub is_path: bool,
    pub is_git: bool,
}

/// The scan's state between two lines.
pub struct ScanState {
    pub section: SpecSection,
    pub pending: Option<SpecPending>,
    pub active: Option<SpecActive>,
    pub deps: Seq<SpecDependency>,
}

pub open spec fn initial_state() -> ScanState {
    ScanState { section: SpecSection::Other, pending: None, active: None, deps: seq![] }
}

/// The number of characters of line `l`, or 0 past the last line.
pub open spec fn line_chars(lines: Seq<Seq<char>>, l: int) -> int {
    if 0 <= l < lines.len() {
        lines[l].len() as int
    } else {
        0
    }
}

/// The hint position of a dependency: after its version, else at the end of its text.
pub open spec fn hint_for(version: Option<SpecValue>, full: Range) -> Position {
    match version {
        Some(v) => v.hint,
        None => full.end,
    }
}

/// The dependency with the given parts; its hint follows its version.
pub open spec fn make_dependency(
    crate_name: Seq<char>,
    alias_name: Seq<char>,
    table_name: Seq<char>,
    v: Option<SpecValue>,
    is_workspace: bool,
    is_path: bool,
    is_git: bool,
    name_range: Range,
    full: Range,
) -> SpecDependency {
    SpecDependency {
        crate_name: crate_name,
        alias_name: alias_name,
        table_name: table_name,
        version: match v {
            Some(x) => Some(x.text),
            None => None,
        },
        is_workspace: is_workspace,
        is_path: is_path,
        is_git: is_git,
        name_range: name_range,
        version_range: match v {
            Some(x) => Some(x.range),
            None => None,
        },
        version_val_range: match v {
            Some(x) => Some(x.val_range),
            None => None,
        },
        hint_position: hint_for(v, full),
        full_range: full,
    }
}

/// The dependency that a finished inline table describes.
pub open spec fn finish_active(
    a: SpecActive,
    end_line: u32,
    table_name: Seq<char>,
    lines: Seq<Seq<char>>,
) -> SpecDependency {
    let full = Range {
        start: pos(a.start_line as int, 0),
        end: pos(end_line as int, line_chars(lines, end_line as int)),
    };
    make_dependency(
        match a.package_name {
            Some(p) => p,
            None => a.crate_key,
        },
        a.crate_key,
        table_name,
        a.version,
        a.is_workspace,
        a.is_path,
        a.is_git,
        a.name_range,
        full,
    )
}

/// The last line's index, as `u32` (0 for an empty document).
pub open spec fn last_line_index(lines: Seq<Seq<char>>) -> u32 {
    (if lines.len() == 0 {
        0
    } else {
        lines.len() - 1
    }) as u32
}

/// The dependency that a finished `[dependencies.name]` table describes.
pub open spec fn finish_pending(p: SpecPending, lines: Seq<Seq<char>>) -> SpecDependency {
    let end_line: u32 = if p.last_line <= last_line_index(lines) {
        p.last_line
    } else {
        last_line_index(lines)
    };
    let full = Range {
        start: pos(p.header_line as int, 0),
        end: pos(end_line as int, line_chars(lines, end_line as int)),
    };
    make_dependency(
        match p.package_name {
            Some(n) => n,
            None => p.crate_key,
        },
        p.crate_key,
        p.table_name,
        p.version,
        p.is_workspace,
        p.is_path,
        p.is_git,
        p.header_name_range,
        full,
    )
}

/// The table a pending inline table belongs to when a header or the end interrupts it.
pub open spec fn list_table_or_default(s: SpecSection) -> Seq<char> {
    match s {
        SpecSection::DependencyList(t) => t,
        _ => "dependencies"@,
    }
}

/// Whether a trimmed line opens a `[table]` (and not an `[[array]]`).
pub open spec fn opens_table(t: Seq<char>) -> bool {
    starts_with(t, "["@) && !starts_with(t, "[["@)
}

/// `ln - 1`, or 0.
pub open spec fn line_before(ln: u32) -> u32 {
    if ln == 0 {
        0
    } else {
        (ln - 1) as u32
    }
}

/// Whether a line marks a dependency as coming from the workspace.
pub open spec fn marks_workspace(s: Seq<char>) -> bool {
    contains_seq(s, "workspace"@) && contains_seq(s, "true"@)
}

/// Whether a line of a dependency table gives a `path`.
pub open spec fn marks_path(line: Seq<char>) -> bool {
    contains_seq(line, "path"@) && contains_char(line, '=')
}

/// Whether a line of a dependency table gives a `git` source.
pub open spec fn marks_git(line: Seq<char>) -> bool {
    contains_seq(line, "git"@) && contains_char(line, '=')
}

/// A line read inside a `[dependencies.name]` table.
pub open spec fn update_pending(p: SpecPending, line: Seq<char>, ln: u32) -> SpecPending {
    SpecPending {
        last_line: if trim(line).len() > 0 {
            ln
        } else {
            p.last_line
        },
        version: match version_on_line(line, ln as int) {
            Some(v) => Some(v),
            None => p.version,
        },
        package_name: match package_on_line(line) {
            Some(n) => Some(n),
            None => p.package_name,
        },
        is_workspace: p.is_workspace || marks_workspace(line),
        is_path: p.is_path || marks_path(line),
        is_git: p.is_git || marks_git(line),
        ..p
    }
}

/// A line read inside a multi-line inline table.
pub open spec fn update_active(a: SpecActive, line: Seq<char>, ln: u32) -> SpecActive {
    SpecActive {
        brace_depth: a.brace_depth + brace_delta(line),
        version: match a.version {
            Some(v) => Some(v),
            None => version_on_line(line, ln as int),
        },
        package_name: match a.package_name {
            Some(n) => Some(n),
            None => package_on_line(line),
        },
        is_workspace: a.is_workspace || marks_workspace(line),
        is_path: a.is_path || marks_path(line),
        is_git: a.is_git || marks_git(line),
        ..a
    }
}

/// What a line of a dependency list holds.
pub enum ListEntry {
    /// No dependency: blank, a comment, no `=`, no key, or a reserved key.
    Skip,
    /// An inline table left open at the end of the line.
    Open(SpecActive),
    /// A whole dependency.
    Whole(SpecDependency),
}

/// The range of a whole line `ln` of `lines`.
pub open spec fn whole_line(line: Seq<char>, ln: u32) -> Range {
    Range { start: pos(ln as int, 0), end: pos(ln as int, line.len() as int) }
}

/// What line `ln` of a dependency list named `table` declares.
pub open spec fn list_entry(line: Seq<char>, ln: u32, table: Seq<char>) -> ListEntry {
    let tl = trim_start(line);
    if tl.len() == 0 || starts_with(tl, "#"@) {
        ListEntry::Skip
    } else {
        match find_char(line, '=') {
            None => ListEntry::Skip,
            Some(eq) => {
                let raw_key = trim(line.take(eq));
                let key = strip_both(raw_key, quote_chars());
                if raw_key.len() == 0 || reserved_keys().contains(key) {
                    ListEntry::Skip
                } else {
                    let name_range = key_range(line, raw_key, ln as int);
                    let raw_val = line.skip(eq + 1);
                    let delta = brace_delta(raw_val);
                    if contains_char(raw_val, '{') && delta > 0 {
                        ListEntry::Open(
                            SpecActive {
                                crate_key: key,
                                start_line: ln,
                                name_range: name_range,
                                brace_depth: delta,
                                version: version_on_line(line, ln as int),
                                package_name: package_on_line(line),
                                is_workspace: marks_workspace(raw_val),
                                is_path: contains_seq(raw_val, "path"@),
                                is_git: contains_seq(raw_val, "git"@),
                            },
                        )
                    } else if contains_char(raw_val, '{') {
                        let v = version_on_line(line, ln as int);
                        let full = whole_line(line, ln);
                        ListEntry::Whole(
                            make_dependency(
                                match package_on_line(line) {
                                    Some(n) => n,
                                    None => key,
                                },
                                key,
                                table,
                                v,
                                marks_workspace(raw_val),
                                contains_seq(raw_val, "path"@),
                                contains_seq(raw_val, "git"@),
                                name_range,
                                full,
                            ),
                        )
                    } else {
                        let v = simple_version(line, eq, ln as int);
                        let full = whole_line(line, ln);
                        ListEntry::Whole(
                            make_dependency(
                                key,
                                key,
                                table,
                                v,
                                false,
                                false,
                                false,
                                name_range,
                                full,
                            ),
                        )
                    }
                }
            },
        }
    }
}

/// The state after reading a header line whose trimmed text `t` has its `]` at `cb`.
pub open spec fn header_step(
    lines: Seq<Seq<char>>,
    st: ScanState,
    line: Seq<char>,
    ln: u32,
    t: Seq<char>,
    cb: int,
) -> ScanState {
    let deps1 = match st.pending {
        Some(p) => st.deps.push(finish_pending(p, lines)),
        None => st.deps,
    };
    let deps2 = match st.active {
        Some(a) => deps1.push(
            finish_active(a, line_before(ln), list_table_or_default(st.section), lines),
        ),
        None => deps1,
    };
    let sec = classify(t.subrange(1, cb));
    ScanState {
        section: sec,
        pending: match sec {
            SpecSection::SingleDependency { table_name, crate_key } => Some(
                SpecPending {
                    table_name: table_name,
                    crate_key: crate_key,
                    header_line: ln,
                    header_name_range: key_range(line, crate_key, ln as int),
                    version: None,
                    package_name: None,
                    is_workspace: false,
                    is_path: false,
                    is_git: false,
                    last_line: ln,
                },
            ),
            _ => None,
        },
        active: None,
        deps: deps2,
    }
}

/// The state after reading line `idx` of `lines`.
pub open spec fn scan_step(lines: Seq<Seq<char>>, st: ScanState, idx: int) -> ScanState {
    let line = lines[idx];
    let ln = idx as u32;
    let t = trim(line);
    if starts_with(t, "#"@) {
        st
    } else if opens_table(t) && find_char(t, ']') is Some {
        header_step(lines, st, line, ln, t, find_char(t, ']')->0)
    } else if st.pending is Some {
        ScanState { pending: Some(update_pending(st.pending->0, line, ln)), ..st }
    } else {
        match st.section {
            SpecSection::DependencyList(table) => match st.active {
                Some(a) => {
                    let a1 = update_active(a, line, ln);
                    if a1.brace_depth <= 0 {
                        ScanState {
                            active: None,
                            deps: st.deps.push(finish_active(a1, ln, table, lines)),
                            ..st
                        }
                    } else {
                        ScanState { active: Some(a1), ..st }
                    }
                },
                None => match list_entry(line, ln, table) {
                    ListEntry::Skip => st,
                    ListEntry::Open(a) => ScanState { active: Some(a), ..st },
                    ListEntry::Whole(d) => ScanState { deps: st.deps.push(d), ..st },
                },
            },
            _ => st,
        }
    }
}

/// The state after reading the first `n` lines.
pub open spec fn scan(lines: Seq<Seq<char>>, n: int) -> ScanState
    decreases n,
{
    if n <= 0 {
        initial_state()
    } else {
        scan_step(lines, scan(lines, n - 1), n - 1)
    }
}

/// The dependencies once the last line is read: tables still open are closed.
pub open spec fn finish_scan(lines: Seq<Seq<char>>, st: ScanState) -> Seq<SpecDependency> {
    let deps1 = match st.pending {
        Some(p) => st.deps.push(finish_pending(p, lines)),
        None => st.deps,
    };
    match st.active {
        Some(a) => deps1.push(
            finish_active(a, last_line_index(lines), list_table_or_default(st.section), lines),
        ),
        None => deps1,
    }
}

/// All dependencies declared in a `Cargo.toml` text.
pub open spec fn dependencies_of(text: Seq<char>) -> Seq<SpecDependency> {
    let lines = lines_of(text);
    finish_scan(lines, scan(lines, lines.len() as int))
}

} // verus!

verus! {

// ---------------------------------------------------------------------------
// Cursor context
// ---------------------------------------------------------------------------

/// What the cursor stands in, for completion.
pub enum SpecCursorContext {
    InVersionString { crate_name: Seq<char>, prefix: Seq<char>, replace_range: Range },
    InCrateKey { prefix: Seq<char>, replace_range: Range },
    InDependencySection { replace_range: Range },
    NoContext,
}

/// The first dependency from index `i` on whose lines include `line`.
pub open spec fn dep_at_from(deps: Seq<SpecDependency>, line: u32, i: int) -> Option<int>
    decreases deps.len() - i,
{
    if i < 0 || i >= deps.len() {
        None
    } else if deps[i].full_range.start.line <= line <= deps[i].full_range.end.line {
        Some(i)
    } else {
        dep_at_from(deps, line, i + 1)
    }
}

/// The first dependency whose lines include `line`.
pub open spec fn dep_at(deps: Seq<SpecDependency>, line: u32) -> Option<int> {
    dep_at_from(deps, line, 0)
}

/// The number of leading characters of `s`, from `k` on, whose UTF-8
/// encoding fits in `b` bytes.
pub open spec fn chars_within_from(s: Seq<char>, b: int, k: int) -> int
    decreases s.len() - k,
{
    if k < 0 || k >= s.len() || utf8_len(s.take(k + 1)) > b {
        k
    } else {
        chars_within_from(s, b, k + 1)
    }
}

/// The longest prefix of `s` whose UTF-8 encoding fits in `b` bytes: `&s[..b]`
/// where `b` falls on a character boundary.
pub open spec fn byte_prefix(s: Seq<char>, b: int) -> Seq<char> {
    s.take(chars_within_from(s, b, 0))
}

/// Whether byte offset `b` of `s` falls on a character boundary (so `&s[..b]` does not panic).
pub open spec fn is_byte_boundary(s: Seq<char>, b: int) -> bool {
    utf8_len(byte_prefix(s, b)) == b
}

/// The section in force after reading the first `n` lines.
pub open spec fn section_through(lines: Seq<Seq<char>>, n: int) -> SpecSection
    decreases n,
{
    if n <= 0 {
        SpecSection::Other
    } else {
        let t = trim(lines[n - 1]);
        if opens_table(t) && find_char(t, ']') is Some {
            classify(t.subrange(1, find_char(t, ']')->0))
        } else {
            section_through(lines, n - 1)
        }
    }
}

/// The quote before the cursor that opens a value: the last `"`, else the last `'`.
pub open spec fn open_quote(s: Seq<char>) -> Option<int> {
    match rfind_char(s, '"') {
        Some(q) => Some(q),
        None => rfind_char(s, '\''),
    }
}

/// A value being typed before the cursor after `=` and an opening quote:
/// the text typed so far, and the byte column just after the quote.
pub open spec fn typed_value(before: Seq<char>) -> Option<(Seq<char>, int)> {
    match find_char(before, '=') {
        None => None,
        Some(ec) => {
            let after = before.skip(ec + 1);
            match open_quote(after) {
                None => None,
                Some(qc) => Some(
                    (
                        after.skip(qc + 1),
                        (utf8_len(before.take(ec)) + 1 + utf8_len(after.take(qc)) + 1) as int,
                    ),
                ),
            }
        },
    }
}

/// The byte column where line `line` is cut: the cursor's column, at most the line's length.
pub open spec fn cut_column(line: Seq<char>, character: u32) -> int {
    if character <= utf8_len(line) {
        character as int
    } else {
        utf8_len(line) as int
    }
}

/// Whether the cursor stands inside the quotes of the version range `vr` (or just after them).
pub open spec fn in_value(p: Position, vr: Range) -> bool {
    p.line == vr.start.line && p.character >= vr.start.character && p.character
        <= vr.end.character + 1
}

/// The byte offset of the cursor into a version value.
pub open spec fn offset_in_value(p: Position, vr: Range) -> int {
    if p.character >= vr.start.character {
        p.character - vr.start.character
    } else {
        0
    }
}

/// The part of version `v` before byte offset `off` (all of it when `off` is past its end).
pub open spec fn version_prefix(v: Option<Seq<char>>, off: int) -> Seq<char> {
    match v {
        Some(s) => if off <= utf8_len(s) {
            byte_prefix(s, off)
        } else {
            s
        },
        None => Seq::<char>::empty(),
    }
}

/// The range from byte column `start` on the cursor's line to the cursor.
pub open spec fn typed_range(p: Position, start: int) -> Range {
    Range { start: pos(p.line as int, start), end: p }
}

/// The context that an existing dependency gives to a cursor on its lines.
pub open spec fn context_in_dependency(d: SpecDependency, p: Position, before: Seq<char>) -> Option<
    SpecCursorContext,
> {
    if d.version_val_range is Some && in_value(p, d.version_val_range->0) {
        let vr = d.version_val_range->0;
        Some(
            SpecCursorContext::InVersionString {
                crate_name: d.crate_name,
                prefix: version_prefix(d.version, offset_in_value(p, vr)),
                replace_range: vr,
            },
        )
    } else {
        match typed_value(before) {
            Some((prefix, start)) => Some(
                SpecCursorContext::InVersionString {
                    crate_name: d.crate_name,
                    prefix: prefix,
                    replace_range: typed_range(p, start),
                },
            ),
            None => None,
        }
    }
}

/// The context of a cursor in a dependency list, off any dependency.
pub open spec fn context_in_list(p: Position, before: Seq<char>) -> SpecCursorContext {
    match find_char(before, '=') {
        Some(ec) => {
            let key = strip_both(trim(before.take(ec)), quote_chars());
            match typed_value(before) {
                Some((prefix, start)) => SpecCursorContext::InVersionString {
                    crate_name: key,
                    prefix: prefix,
                    replace_range: typed_range(p, start),
                },
                None => SpecCursorContext::InDependencySection {
                    replace_range: Range { start: p, end: p },
                },
            }
        },
        None => {
            let tb = trim_start(before);
            SpecCursorContext::InCrateKey {
                prefix: trim_end(tb),
                replace_range: typed_range(p, utf8_len(before) - utf8_len(tb)),
            }
        },
    }
}

/// The cursor context at position `p` of `text`.
pub open spec fn cursor_context(text: Seq<char>, p: Position) -> SpecCursorContext {
    let lines = lines_of(text);
    if p.line >= lines.len() {
        SpecCursorContext::NoContext
    } else {
        let line = lines[p.line as int];
        let before = byte_prefix(line, cut_column(line, p.character));
        let deps = dependencies_of(text);
        let from_dep = match dep_at(deps, p.line) {
            Some(i) => context_in_dependency(deps[i], p, before),
            None => None,
        };
        if from_dep is Some {
            from_dep->0
        } else {
            match section_through(lines, p.line + 1) {
                SpecSection::DependencyList(_) => context_in_list(p, before),
                SpecSection::SingleDependency { crate_key, .. } => match typed_value(before) {
                    Some((prefix, start)) => SpecCursorContext::InVersionString {
                        crate_name: crate_key,
                        prefix: prefix,
                        replace_range: typed_range(p, start),
                    },
                    None => SpecCursorContext::NoContext,
                },
                SpecSection::Other => SpecCursorContext::NoContext,
            }
        }
    }
}

/// Whether every byte offset at which the cursor context cuts a string falls on
/// a character boundary: the cursor's column on its line and, inside a version
/// value, the cursor's offset into that value.
pub open spec fn cursor_cuts_on_boundaries(text: Seq<char>, p: Position) -> bool {
    let lines = lines_of(text);
    p.line < lines.len() ==> {
        let line = lines[p.line as int];
        let deps = dependencies_of(text);
        &&& is_byte_boundary(line, cut_column(line, p.character))
        &&& match dep_at(deps, p.line) {
            Some(i) => {
                let d = deps[i];
                (d.version_val_range is Some && in_value(p, d.version_val_range->0)
                    && d.version is Some && offset_in_value(p, d.version_val_range->0)
                    <= utf8_len(d.version->0)) ==> is_byte_boundary(
                    d.version->0,
                    offset_in_value(p, d.version_val_range->0),
                )
            },
            None => true,
        }
    }
}

} // verus!

verus! {

/// `chars_within_from` never goes back, nor past the end.
pub proof fn lemma_chars_within_from_bounds(s: Seq<char>, b: int, k: int)
    requires
        0 <= k <= s.len(),
    ensures
        k <= chars_within_from(s, b, k) <= s.len(),
    decreases s.len() - k,
{
    if k < s.len() && utf8_len(s.take(k + 1)) <= b {
        lemma_chars_within_from_bounds(s, b, k + 1);
    }
}

} // verus!
