//! Where a dependency's version is read from is where a replacement writes:
//! the range inside the quotes of a version holds exactly the version read.
use vstd::prelude::*;
use crate::text::{
    all_ascii,
    lines_of, find_char, find_seq, find_in_set_from, quote_chars,
    lemma_lines_from_count, lemma_lines_from_len, lemma_find_char_from_ge,
    lemma_find_in_set_from_ge, lemma_find_seq_bound,
};
use crate::toml_model::{
    SpecDependency, SpecValue, ScanState, SpecSection, ListEntry, scan, scan_step, finish_scan,
    finish_pending, finish_active, dependencies_of, list_entry, header_step, update_active,
    update_pending, make_dependency, version_on_line, simple_version, find_quoted, keyed_value,
    value_at,
};
use crate::replacer::{replacement_range_of, first_named_from};
use crate::position::Position;
use crate::text::{is_ws, trim, trim_start, trim_end, occurs_at};
use crate::toml_model::{SpecCursorContext, cursor_context, in_value, offset_in_value, version_prefix};
use crate::toml_laws::{covers, law_dependency_at_line};

verus! {

/// Whether the inside of a value's quotes, on its line, holds exactly its
/// text: its range runs from the opening to just after the closing quote,
/// the inner range is one narrower at each end, and its hint follows it.
pub open spec fn value_in_place(lines: Seq<Seq<char>>, v: SpecValue) -> bool {
    let r = v.val_range;
    &&& r.start.line == r.end.line
    &&& r.start.line < lines.len()
    &&& r.start.character <= r.end.character <= lines[r.start.line as int].len()
    &&& lines[r.start.line as int].subrange(r.start.character as int, r.end.character as int)
        == v.text
    &&& v.range.start.line == r.start.line && v.range.end.line == r.start.line
    &&& v.range.start.character + 1 == r.start.character
    &&& r.end.character + 1 == v.range.end.character
    &&& v.hint == v.range.end
}

/// Whether a dependency's version, its ranges and its hint agree: the
/// version and both ranges are present together; then the outer range runs
/// from the opening to just after the closing quote on one line, the inner
/// range is one narrower at each end and holds exactly the version, and the
/// hint stands at the end of the outer range. Without a version, the hint
/// stands at the end of the dependency's text.
pub open spec fn version_in_place(lines: Seq<Seq<char>>, d: SpecDependency) -> bool {
    &&& (d.version is Some <==> d.version_val_range is Some)
    &&& (d.version is Some <==> d.version_range is Some)
    &&& d.version is None ==> d.hint_position == d.full_range.end
    &&& d.version_val_range matches Some(r) ==> {
        &&& r.start.line == r.end.line
        &&& r.start.line < lines.len()
        &&& r.start.character <= r.end.character <= lines[r.start.line as int].len()
        &&& lines[r.start.line as int].subrange(r.start.character as int, r.end.character as int)
            == d.version->0
        &&& d.version_range matches Some(vr) && vr.start.line == r.start.line && vr.end.line
            == r.start.line && vr.start.character + 1 == r.start.character && r.end.character
            + 1 == vr.end.character && d.hint_position == vr.end
    }
}

spec fn opt_in_place(lines: Seq<Seq<char>>, v: Option<SpecValue>) -> bool {
    v matches Some(x) ==> value_in_place(lines, x)
}

spec fn all_in_place(lines: Seq<Seq<char>>, deps: Seq<SpecDependency>) -> bool {
    forall|i: int| 0 <= i < deps.len() ==> version_in_place(lines, #[trigger] deps[i])
}

spec fn values_inv(lines: Seq<Seq<char>>, st: ScanState) -> bool {
    &&& all_in_place(lines, st.deps)
    &&& st.pending matches Some(p) ==> opt_in_place(lines, p.version)
    &&& st.active matches Some(a) ==> opt_in_place(lines, a.version)
}

proof fn lemma_find_quoted(s: Seq<char>)
    ensures
        find_quoted(s) matches Some((v, a, b)) ==> 0 <= a < b < s.len() && v == s.subrange(
            a + 1,
            b,
        ),
{
    lemma_find_in_set_from_ge(s, quote_chars(), 0);
    match find_in_set_from(s, quote_chars(), 0) {
        None => {},
        Some(sq) => {
            lemma_find_char_from_ge(s, s[sq], sq + 1);
        },
    }
}

/// A value found at `base` of line `n` sits where it says.
proof fn lemma_value_at(
    lines: Seq<Seq<char>>,
    n: int,
    base: int,
    v: Seq<char>,
    qs: int,
    qe: int,
)
    requires
        0 <= n < lines.len() <= u32::MAX,
        lines[n].len() <= i32::MAX,
        0 <= base <= lines[n].len(),
        find_quoted(lines[n].skip(base)) == Some((v, qs, qe)),
    ensures
        value_in_place(lines, value_at(v, n, base, qs, qe)),
{
    let line = lines[n];
    let s = line.skip(base);
    lemma_find_quoted(s);
    assert(line.subrange(base + qs + 1, base + qe) =~= s.subrange(qs + 1, qe));
}

/// The values read on a line sit where they say.
proof fn lemma_line_values(lines: Seq<Seq<char>>, n: int, eq: int)
    requires
        0 <= n < lines.len() <= u32::MAX,
        lines[n].len() <= i32::MAX,
        0 <= eq < lines[n].len(),
    ensures
        opt_in_place(lines, version_on_line(lines[n], n)),
        opt_in_place(lines, simple_version(lines[n], eq, n)),
{
    let line = lines[n];
    match find_quoted(line.skip(eq + 1)) {
        None => {},
        Some((v, qs, qe)) => {
            lemma_value_at(lines, n, eq + 1, v, qs, qe);
        },
    }
    reveal_strlit("version");
    lemma_find_seq_bound(line, "version"@);
    match find_seq(line, "version"@) {
        None => {},
        Some(ki) => {
            lemma_find_char_from_ge(line, '=', ki + 7);
            match keyed_value(line, "version"@) {
                None => {},
                Some((v, base, qs, qe)) => {
                    lemma_value_at(lines, n, base, v, qs, qe);
                },
            }
        },
    }
}

proof fn lemma_make_in_place(
    lines: Seq<Seq<char>>,
    crate_name: Seq<char>,
    alias_name: Seq<char>,
    table_name: Seq<char>,
    v: Option<SpecValue>,
    ws: bool,
    path: bool,
    git: bool,
    name_range: crate::position::Range,
    full: crate::position::Range,
)
    requires
        opt_in_place(lines, v),
    ensures
        version_in_place(
            lines,
            make_dependency(crate_name, alias_name, table_name, v, ws, path, git, name_range, full),
        ),
{
}

proof fn lemma_push_in_place(lines: Seq<Seq<char>>, deps: Seq<SpecDependency>, d: SpecDependency)
    requires
        all_in_place(lines, deps),
        version_in_place(lines, d),
    ensures
        all_in_place(lines, deps.push(d)),
{
    assert forall|i: int| 0 <= i < deps.push(d).len() implies version_in_place(
        lines,
        #[trigger] deps.push(d)[i],
    ) by {
        if i < deps.len() {
            assert(deps.push(d)[i] == deps[i]);
        }
    }
}

proof fn lemma_finish_pending_in_place(
    lines: Seq<Seq<char>>,
    p: crate::toml_model::SpecPending,
)
    requires
        opt_in_place(lines, p.version),
    ensures
        version_in_place(lines, finish_pending(p, lines)),
{
    let d = finish_pending(p, lines);
    lemma_make_in_place(
        lines,
        match p.package_name {
            Some(x) => x,
            None => p.crate_key,
        },
        p.crate_key,
        p.table_name,
        p.version,
        p.is_workspace,
        p.is_path,
        p.is_git,
        p.header_name_range,
        d.full_range,
    );
}

proof fn lemma_finish_active_in_place(
    lines: Seq<Seq<char>>,
    a: crate::toml_model::SpecActive,
    end: u32,
    table: Seq<char>,
)
    requires
        opt_in_place(lines, a.version),
    ensures
        version_in_place(lines, finish_active(a, end, table, lines)),
{
    let d = finish_active(a, end, table, lines);
    lemma_make_in_place(
        lines,
        match a.package_name {
            Some(x) => x,
            None => a.crate_key,
        },
        a.crate_key,
        table,
        a.version,
        a.is_workspace,
        a.is_path,
        a.is_git,
        a.name_range,
        d.full_range,
    );
}

proof fn lemma_step_values(lines: Seq<Seq<char>>, st: ScanState, n: int)
    requires
        0 <= n < lines.len() <= u32::MAX,
        forall|k: int| 0 <= k < lines.len() ==> (#[trigger] lines[k]).len() <= i32::MAX,
        values_inv(lines, st),
    ensures
        values_inv(lines, scan_step(lines, st, n)),
{
    let line = lines[n];
    let ln = n as u32;
    assert(ln == n);
    assert(line.len() <= i32::MAX);
    let t = crate::text::trim(line);
    if crate::text::starts_with(t, "#"@) {
    } else if crate::toml_model::opens_table(t) && find_char(t, ']') is Some {
        let cb = find_char(t, ']')->0;
        let deps1 = match st.pending {
            Some(p) => st.deps.push(finish_pending(p, lines)),
            None => st.deps,
        };
        match st.pending {
            Some(p) => {
                lemma_finish_pending_in_place(lines, p);
                lemma_push_in_place(lines, st.deps, finish_pending(p, lines));
            },
            None => {},
        }
        match st.active {
            Some(a) => {
                let table = crate::toml_model::list_table_or_default(st.section);
                let end = crate::toml_model::line_before(ln);
                lemma_finish_active_in_place(lines, a, end, table);
                lemma_push_in_place(lines, deps1, finish_active(a, end, table, lines));
            },
            None => {},
        }
        assert(scan_step(lines, st, n) == header_step(lines, st, line, ln, t, cb));
    } else if st.pending is Some {
        if line.len() > 0 {
            lemma_line_values(lines, n, 0);
        } else {
            assert(version_on_line(line, n) is None) by {
                assert(find_seq(line, "version"@) is None) by {
                    reveal_strlit("version");
                    lemma_find_seq_bound(line, "version"@);
                }
            }
        }
        let p = st.pending->0;
        assert(opt_in_place(lines, update_pending(p, line, ln).version));
    } else {
        match st.section {
            SpecSection::DependencyList(table) => match st.active {
                Some(a) => {
                    if line.len() > 0 {
                        lemma_line_values(lines, n, 0);
                    } else {
                        assert(version_on_line(line, n) is None) by {
                            assert(find_seq(line, "version"@) is None) by {
                                reveal_strlit("version");
                                lemma_find_seq_bound(line, "version"@);
                            }
                        }
                    }
                    let a1 = update_active(a, line, ln);
                    assert(opt_in_place(lines, a1.version));
                    if a1.brace_depth <= 0 {
                        lemma_finish_active_in_place(lines, a1, ln, table);
                        lemma_push_in_place(lines, st.deps, finish_active(a1, ln, table, lines));
                    }
                },
                None => match list_entry(line, ln, table) {
                    ListEntry::Skip => {},
                    ListEntry::Open(a) => {
                        let eq = find_char(line, '=')->0;
                        lemma_find_char_from_ge(line, '=', 0);
                        lemma_line_values(lines, n, eq);
                    },
                    ListEntry::Whole(d) => {
                        let eq = find_char(line, '=')->0;
                        lemma_find_char_from_ge(line, '=', 0);
                        lemma_line_values(lines, n, eq);
                        let key = crate::text::strip_both(
                            crate::text::trim(line.take(eq)),
                            quote_chars(),
                        );
                        let raw_val = line.skip(eq + 1);
                        if crate::text::contains_char(raw_val, '{') {
                            lemma_make_in_place(
                                lines,
                                match crate::toml_model::package_on_line(line) {
                                    Some(x) => x,
                                    None => key,
                                },
                                key,
                                table,
                                version_on_line(line, n),
                                crate::toml_model::marks_workspace(raw_val),
                                crate::text::contains_seq(raw_val, "path"@),
                                crate::text::contains_seq(raw_val, "git"@),
                                d.name_range,
                                d.full_range,
                            );
                        } else {
                            lemma_make_in_place(
                                lines,
                                key,
                                key,
                                table,
                                simple_version(line, eq, n),
                                false,
                                false,
                                false,
                                d.name_range,
                                d.full_range,
                            );
                        }
                        lemma_push_in_place(lines, st.deps, d);
                    },
                },
            },
            _ => {},
        }
    }
}

proof fn lemma_scan_values(lines: Seq<Seq<char>>, n: int)
    requires
        0 <= n <= lines.len() <= u32::MAX,
        forall|k: int| 0 <= k < lines.len() ==> (#[trigger] lines[k]).len() <= i32::MAX,
    ensures
        values_inv(lines, scan(lines, n)),
    decreases n,
{
    if n > 0 {
        lemma_scan_values(lines, n - 1);
        lemma_step_values(lines, scan(lines, n - 1), n - 1);
    }
}

/// The version of every dependency is read from one line, and the range
/// inside its quotes holds exactly that version: a quick fix or a click that
/// rewrites the range rewrites the version and nothing else. The version and
/// its two ranges come together; the outer range is one wider at each end
/// and the hint stands at its end; without a version the hint stands at the
/// end of the dependency's text.
pub proof fn law_version_range_holds_the_version(text: Seq<char>)
    requires
        text.len() <= i32::MAX,
    ensures
        forall|i: int|
            0 <= i < dependencies_of(text).len() ==> version_in_place(
                lines_of(text),
                #[trigger] dependencies_of(text)[i],
            ),
{
    let lines = lines_of(text);
    lemma_lines_from_count(text, 0);
    lemma_lines_from_len(text, 0);
    let n = lines.len() as int;
    lemma_scan_values(lines, n);
    let st = scan(lines, n);
    let deps1 = match st.pending {
        Some(p) => st.deps.push(finish_pending(p, lines)),
        None => st.deps,
    };
    match st.pending {
        Some(p) => {
            lemma_finish_pending_in_place(lines, p);
            lemma_push_in_place(lines, st.deps, finish_pending(p, lines));
        },
        None => {},
    }
    match st.active {
        Some(a) => {
            let table = crate::toml_model::list_table_or_default(st.section);
            let end = crate::toml_model::last_line_index(lines);
            lemma_finish_active_in_place(lines, a, end, table);
            lemma_push_in_place(lines, deps1, finish_active(a, end, table, lines));
        },
        None => {},
    }
    assert(dependencies_of(text) == finish_scan(lines, st));
}

proof fn lemma_first_named_bound(deps: Seq<SpecDependency>, name: Seq<char>, i: int)
    requires
        0 <= i,
    ensures
        first_named_from(deps, name, i) matches Some(k) ==> i <= k < deps.len() && (
        deps[k].crate_name == name || deps[k].alias_name == name),
    decreases deps.len() - i,
{
    if i < deps.len() && !(deps[i].crate_name == name || deps[i].alias_name == name) {
        lemma_first_named_bound(deps, name, i + 1);
    }
}

/// A click on a version link rewrites exactly the current version of the
/// crate it names: the range it replaces is the inside of the quotes of the
/// first dependency of that crate name or key, on one line, and holds that
/// dependency's version.
pub proof fn law_replacement_rewrites_the_version(text: Seq<char>, name: Seq<char>)
    requires
        text.len() <= i32::MAX,
    ensures
        replacement_range_of(text, name) matches Some(r) ==> {
            let deps = dependencies_of(text);
            let k = first_named_from(deps, name, 0)->0;
            &&& 0 <= k < deps.len()
            &&& (deps[k].crate_name == name || deps[k].alias_name == name)
            &&& r.start.line == r.end.line
            &&& r.start.line < lines_of(text).len()
            &&& r.start.character <= r.end.character <= lines_of(text)[r.start.line as int].len()
            &&& lines_of(text)[r.start.line as int].subrange(
                r.start.character as int,
                r.end.character as int,
            ) == deps[k].version->0
        },
{
    law_version_range_holds_the_version(text);
    lemma_first_named_bound(dependencies_of(text), name, 0);
}

// ---------------------------------------------------------------------------
// A version stands on one of its dependency's lines
// ---------------------------------------------------------------------------

proof fn lemma_trim_start_keeps(s: Seq<char>, i: int)
    requires
        0 <= i < s.len(),
        !is_ws(s[i]),
    ensures
        exists|j: int| 0 <= j < trim_start(s).len() && !is_ws(#[trigger] trim_start(s)[j]),
    decreases s.len(),
{
    if s.len() > 0 && is_ws(s[0]) {
        assert(s.drop_first()[i - 1] == s[i]);
        lemma_trim_start_keeps(s.drop_first(), i - 1);
        assert(trim_start(s) == trim_start(s.drop_first()));
        let t = trim_start(s.drop_first());
        let j = choose|j: int| 0 <= j < t.len() && !is_ws(#[trigger] t[j]);
        assert(!is_ws(trim_start(s)[j]));
    } else {
        assert(!is_ws(trim_start(s)[i]));
    }
}

proof fn lemma_trim_end_nonempty(s: Seq<char>, i: int)
    requires
        0 <= i < s.len(),
        !is_ws(s[i]),
    ensures
        trim_end(s).len() > 0,
    decreases s.len(),
{
    if s.len() > 0 && is_ws(s.last()) {
        assert(s.drop_last()[i] == s[i]);
        lemma_trim_end_nonempty(s.drop_last(), i);
    }
}

/// A line that holds a visible character is not blank.
proof fn lemma_not_blank(s: Seq<char>, i: int)
    requires
        0 <= i < s.len(),
        !is_ws(s[i]),
    ensures
        trim(s).len() > 0,
{
    lemma_trim_start_keeps(s, i);
    let t = trim_start(s);
    let j = choose|j: int| 0 <= j < t.len() && !is_ws(#[trigger] t[j]);
    lemma_trim_end_nonempty(t, j);
}

/// A line with a `version = "..."` value is not blank.
proof fn lemma_version_line_not_blank(line: Seq<char>, n: int)
    requires
        version_on_line(line, n) is Some,
    ensures
        trim(line).len() > 0,
{
    reveal_strlit("version");
    lemma_find_seq_bound(line, "version"@);
    let ki = find_seq(line, "version"@)->0;
    assert(occurs_at(line, "version"@, ki));
    assert(line[ki] == line.subrange(ki, ki + 7)[0]);
    lemma_not_blank(line, ki);
}

/// The line of a value.
spec fn value_line(v: SpecValue) -> int {
    v.val_range.start.line as int
}

/// Whether a dependency's version stands on one of its lines.
spec fn version_within(d: SpecDependency) -> bool {
    d.version_val_range matches Some(r) ==> d.full_range.start.line <= r.start.line
        <= d.full_range.end.line
}

spec fn all_within(deps: Seq<SpecDependency>) -> bool {
    forall|i: int| 0 <= i < deps.len() ==> version_within(#[trigger] deps[i])
}

spec fn within_inv(lines: Seq<Seq<char>>, st: ScanState, n: int) -> bool {
    &&& all_within(st.deps)
    &&& st.pending matches Some(p) ==> {
        &&& p.header_line < n
        &&& p.last_line < n
        &&& p.version matches Some(v) ==> p.header_line <= value_line(v) <= p.last_line
    }
    &&& st.active matches Some(a) ==> {
        &&& a.start_line < n
        &&& a.version matches Some(v) ==> a.start_line <= value_line(v) < n
    }
}

proof fn lemma_push_within(deps: Seq<SpecDependency>, d: SpecDependency)
    requires
        all_within(deps),
        version_within(d),
    ensures
        all_within(deps.push(d)),
{
    assert forall|i: int| 0 <= i < deps.push(d).len() implies version_within(
        #[trigger] deps.push(d)[i],
    ) by {
        if i < deps.len() {
            assert(deps.push(d)[i] == deps[i]);
        }
    }
}

/// The values read on line `n` stand on line `n`.
proof fn lemma_value_lines(lines: Seq<Seq<char>>, n: int, eq: int)
    requires
        0 <= n < lines.len() <= u32::MAX,
    ensures
        version_on_line(lines[n], n) matches Some(v) ==> value_line(v) == n,
        simple_version(lines[n], eq, n) matches Some(v) ==> value_line(v) == n,
{
}

proof fn lemma_step_within(lines: Seq<Seq<char>>, st: ScanState, n: int)
    requires
        0 <= n < lines.len() <= u32::MAX,
        forall|k: int| 0 <= k < lines.len() ==> (#[trigger] lines[k]).len() <= i32::MAX,
        values_inv(lines, st),
        within_inv(lines, st, n),
    ensures
        within_inv(lines, scan_step(lines, st, n), n + 1),
{
    let line = lines[n];
    let ln = n as u32;
    assert(ln == n);
    let t = crate::text::trim(line);
    lemma_value_lines(lines, n, 0);
    if crate::text::starts_with(t, "#"@) {
    } else if crate::toml_model::opens_table(t) && find_char(t, ']') is Some {
        let cb = find_char(t, ']')->0;
        let deps1 = match st.pending {
            Some(p) => st.deps.push(finish_pending(p, lines)),
            None => st.deps,
        };
        match st.pending {
            Some(p) => {
                match p.version {
                    Some(v) => {
                        assert(value_line(v) < lines.len()) by {
                            assert(value_in_place(lines, v));
                        }
                    },
                    None => {},
                }
                lemma_push_within(st.deps, finish_pending(p, lines));
            },
            None => {},
        }
        match st.active {
            Some(a) => {
                let table = crate::toml_model::list_table_or_default(st.section);
                let end = crate::toml_model::line_before(ln);
                lemma_push_within(deps1, finish_active(a, end, table, lines));
            },
            None => {},
        }
        assert(scan_step(lines, st, n) == header_step(lines, st, line, ln, t, cb));
    } else if st.pending is Some {
        let p = st.pending->0;
        if version_on_line(line, n) is Some {
            lemma_version_line_not_blank(line, n);
        }
        let p1 = update_pending(p, line, ln);
        assert(p1.last_line < n + 1);
        assert(p1.version matches Some(v) ==> p1.header_line <= value_line(v) <= p1.last_line);
    } else {
        match st.section {
            SpecSection::DependencyList(table) => match st.active {
                Some(a) => {
                    let a1 = update_active(a, line, ln);
                    if a1.brace_depth <= 0 {
                        lemma_push_within(st.deps, finish_active(a1, ln, table, lines));
                    }
                },
                None => match list_entry(line, ln, table) {
                    ListEntry::Skip => {},
                    ListEntry::Open(a) => {},
                    ListEntry::Whole(d) => {
                        let eq = find_char(line, '=')->0;
                        lemma_value_lines(lines, n, eq);
                        lemma_push_within(st.deps, d);
                    },
                },
            },
            _ => {},
        }
    }
}

proof fn lemma_scan_within(lines: Seq<Seq<char>>, n: int)
    requires
        0 <= n <= lines.len() <= u32::MAX,
        forall|k: int| 0 <= k < lines.len() ==> (#[trigger] lines[k]).len() <= i32::MAX,
    ensures
        within_inv(lines, scan(lines, n), n),
    decreases n,
{
    if n > 0 {
        lemma_scan_within(lines, n - 1);
        lemma_scan_values(lines, n - 1);
        lemma_step_within(lines, scan(lines, n - 1), n - 1);
    }
}

proof fn lemma_versions_within(text: Seq<char>)
    requires
        text.len() <= i32::MAX,
    ensures
        forall|i: int|
            0 <= i < dependencies_of(text).len() ==> version_within(
                #[trigger] dependencies_of(text)[i],
            ),
{
    let lines = lines_of(text);
    lemma_lines_from_count(text, 0);
    lemma_lines_from_len(text, 0);
    let n = lines.len() as int;
    lemma_scan_within(lines, n);
    lemma_scan_values(lines, n);
    let st = scan(lines, n);
    let deps1 = match st.pending {
        Some(p) => st.deps.push(finish_pending(p, lines)),
        None => st.deps,
    };
    match st.pending {
        Some(p) => {
            match p.version {
                Some(v) => {
                    assert(value_line(v) < lines.len()) by {
                        assert(value_in_place(lines, v));
                    }
                },
                None => {},
            }
            lemma_push_within(st.deps, finish_pending(p, lines));
        },
        None => {},
    }
    match st.active {
        Some(a) => {
            let table = crate::toml_model::list_table_or_default(st.section);
            let end = crate::toml_model::last_line_index(lines);
            lemma_push_within(deps1, finish_active(a, end, table, lines));
        },
        None => {},
    }
    assert(dependencies_of(text) == finish_scan(lines, st));
}

/// Typing inside the quotes of a dependency's version (or just after them)
/// asks for that crate's versions: the completion context names the crate,
/// holds the part of the version before the cursor, and replaces the inside
/// of the quotes.
pub proof fn law_cursor_in_version_completes_its_crate(text: Seq<char>, k: int, p: Position)
    requires
        text.len() <= i32::MAX,
        0 <= k < dependencies_of(text).len(),
        dependencies_of(text)[k].version_val_range matches Some(r) && in_value(p, r),
    ensures
        ({
            let d = dependencies_of(text)[k];
            let r = d.version_val_range->0;
            cursor_context(text, p) == (SpecCursorContext::InVersionString {
                crate_name: d.crate_name,
                prefix: version_prefix(d.version, offset_in_value(p, r)),
                replace_range: r,
            })
        }),
{
    let deps = dependencies_of(text);
    law_version_range_holds_the_version(text);
    lemma_versions_within(text);
    assert(version_in_place(lines_of(text), deps[k]));
    assert(version_within(deps[k]));
    assert(covers(deps[k], p.line));
    law_dependency_at_line(text, p.line, k);
}

// ---------------------------------------------------------------------------
// ASCII text is always cut on character boundaries
// ---------------------------------------------------------------------------

pub(crate) proof fn lemma_ascii_lengths(x: Seq<char>, k: int)
    requires
        all_ascii(x),
        0 <= k <= x.len(),
    ensures
        crate::text::utf8_len(x.take(k)) == k,
    decreases k,
{
    if k > 0 {
        lemma_ascii_lengths(x, k - 1);
        crate::text::lemma_utf8_len_take_step(x, k - 1);
    } else {
        assert(x.take(0) =~= Seq::<char>::empty());
    }
}

pub(crate) proof fn lemma_ascii_boundary(x: Seq<char>, b: int)
    requires
        all_ascii(x),
        0 <= b <= x.len(),
    ensures
        crate::toml_model::is_byte_boundary(x, b),
        crate::text::utf8_len(x) == x.len(),
{
    lemma_ascii_lengths(x, b);
    lemma_ascii_lengths(x, x.len() as int);
    assert(x.take(x.len() as int) =~= x);
    crate::line_index::lemma_prefix_boundary(x, b);
}

proof fn lemma_lines_ascii(s: Seq<char>, i: int)
    requires
        all_ascii(s),
    ensures
        forall|k: int|
            0 <= k < crate::text::lines_from(s, i).len() ==> all_ascii(
                #[trigger] crate::text::lines_from(s, i)[k],
            ),
    decreases s.len() - i,
{
    if 0 <= i < s.len() {
        lemma_find_char_from_ge(s, '\n', i);
        match crate::text::find_char_from(s, '\n', i) {
            None => {
                let x = s.subrange(i, s.len() as int);
                assert forall|j: int| 0 <= j < x.len() implies (#[trigger] x[j] as u32) < 0x80 by {
                    assert(x[j] == s[i + j]);
                }
            },
            Some(j) => {
                if i <= j < s.len() {
                    lemma_lines_ascii(s, j + 1);
                    let x = crate::text::strip_cr(s.subrange(i, j));
                    assert forall|q: int| 0 <= q < x.len() implies (#[trigger] x[q] as u32) < 0x80 by {
                        assert(x[q] == s[i + q]);
                    }
                    let all = crate::text::lines_from(s, i);
                    let rest = crate::text::lines_from(s, j + 1);
                    assert forall|k: int| 0 <= k < all.len() implies all_ascii(#[trigger] all[k]) by {
                        if k > 0 {
                            assert(all[k] == rest[k - 1]);
                        }
                    }
                }
            },
        }
    }
}

proof fn lemma_dep_at_from_in(deps: Seq<SpecDependency>, line: u32, i: int)
    requires
        0 <= i,
    ensures
        crate::toml_model::dep_at_from(deps, line, i) matches Some(k) ==> i <= k < deps.len(),
    decreases deps.len() - i,
{
    if i < deps.len() && !(deps[i].full_range.start.line <= line <= deps[i].full_range.end.line) {
        lemma_dep_at_from_in(deps, line, i + 1);
    }
}

/// In an ASCII text every cursor position is cut on character boundaries:
/// completion never has to refuse a position of such a text.
pub proof fn law_ascii_cursor_cuts_on_boundaries(text: Seq<char>, p: Position)
    requires
        text.len() <= i32::MAX,
        all_ascii(text),
    ensures
        crate::toml_model::cursor_cuts_on_boundaries(text, p),
{
    let lines = lines_of(text);
    lemma_lines_ascii(text, 0);
    if p.line < lines.len() {
        let line = lines[p.line as int];
        lemma_ascii_boundary(line, 0);
        let cut = crate::toml_model::cut_column(line, p.character);
        lemma_ascii_boundary(line, cut);
        let deps = dependencies_of(text);
        lemma_dep_at_from_in(deps, p.line, 0);
        match crate::toml_model::dep_at(deps, p.line) {
            Some(i) => {
                let d = deps[i];
                law_version_range_holds_the_version(text);
                assert(version_in_place(lines, d));
                if d.version_val_range is Some && in_value(p, d.version_val_range->0)
                    && d.version is Some {
                    let r = d.version_val_range->0;
                    let v = d.version->0;
                    let l2 = lines[r.start.line as int];
                    assert(all_ascii(l2));
                    assert forall|q: int| 0 <= q < v.len() implies (#[trigger] v[q] as u32)
                        < 0x80 by {
                        assert(v[q] == l2[r.start.character + q]);
                    }
                    let off = offset_in_value(p, r);
                    lemma_ascii_boundary(v, 0);
                    if off <= crate::text::utf8_len(v) {
                        lemma_ascii_boundary(v, off);
                    }
                }
            },
            None => {},
        }
    }
}

} // verus!
