//! Laws of the `Cargo.toml` scanner: dependencies come in document order,
//! each spans whole lines that no other dependency shares, and each hint
//! stands right after its version.
use vstd::prelude::*;
use crate::position::Range;
use crate::text::{lines_of, lemma_lines_from_count};
use crate::toml_model::{
    SpecDependency, SpecValue, ScanState, SpecSection, ListEntry, scan, scan_step, finish_scan,
    finish_pending, finish_active, dependencies_of, dep_at, dep_at_from, list_entry, header_step,
    update_active, make_dependency, version_on_line, simple_version, last_line_index, line_before,
};

verus! {

/// Whether line `l` is one of the lines of dependency `d`.
pub open spec fn covers(d: SpecDependency, l: u32) -> bool {
    d.full_range.start.line <= l <= d.full_range.end.line
}

/// A dependency's lines run forward, and a hint after a version stands just
/// after the version's closing quote.
pub open spec fn well_placed(d: SpecDependency) -> bool {
    &&& d.full_range.start.line <= d.full_range.end.line
    &&& d.version_range matches Some(r) ==> d.hint_position == r.end
}

/// Each dependency ends before the next one starts.
pub open spec fn in_document_order(deps: Seq<SpecDependency>) -> bool {
    forall|i: int, j: int|
        0 <= i < j < deps.len() ==> #[trigger] deps[i].full_range.end.line
            < #[trigger] deps[j].full_range.start.line
}

spec fn value_ok(v: Option<SpecValue>) -> bool {
    v matches Some(x) ==> x.hint == x.range.end
}

spec fn all_before(deps: Seq<SpecDependency>, l: int) -> bool {
    forall|i: int| 0 <= i < deps.len() ==> (#[trigger] deps[i]).full_range.end.line < l
}

spec fn all_well_placed(deps: Seq<SpecDependency>) -> bool {
    forall|i: int| 0 <= i < deps.len() ==> well_placed(#[trigger] deps[i])
}

/// What holds of the scan's state after reading `n` lines.
spec fn scan_inv(st: ScanState, n: int) -> bool {
    &&& all_well_placed(st.deps)
    &&& in_document_order(st.deps)
    &&& all_before(st.deps, n)
    &&& st.pending matches Some(p) ==> {
        &&& p.header_line <= p.last_line < n
        &&& all_before(st.deps, p.header_line as int)
        &&& value_ok(p.version)
        &&& st.active is None
    }
    &&& st.active matches Some(a) ==> {
        &&& a.start_line < n
        &&& all_before(st.deps, a.start_line as int)
        &&& value_ok(a.version)
    }
}

proof fn lemma_push_keeps(deps: Seq<SpecDependency>, d: SpecDependency, n: int)
    requires
        all_well_placed(deps),
        in_document_order(deps),
        all_before(deps, d.full_range.start.line as int),
        well_placed(d),
        d.full_range.end.line < n,
        all_before(deps, n),
    ensures
        all_well_placed(deps.push(d)),
        in_document_order(deps.push(d)),
        all_before(deps.push(d), n),
        all_before(deps.push(d), d.full_range.end.line + 1),
{
    let e = deps.push(d);
    assert forall|i: int, j: int| 0 <= i < j < e.len() implies #[trigger] e[i].full_range.end.line
        < #[trigger] e[j].full_range.start.line by {
        if j == deps.len() {
            assert(e[i] == deps[i]);
        } else {
            assert(e[i] == deps[i] && e[j] == deps[j]);
        }
    }
    assert forall|i: int| 0 <= i < e.len() implies well_placed(#[trigger] e[i]) by {
        if i < deps.len() {
            assert(e[i] == deps[i]);
        }
    }
    assert forall|i: int| 0 <= i < e.len() implies (#[trigger] e[i]).full_range.end.line < n by {
        if i < deps.len() {
            assert(e[i] == deps[i]);
        }
    }
    assert forall|i: int| 0 <= i < e.len() implies (#[trigger] e[i]).full_range.end.line
        < d.full_range.end.line + 1 by {
        if i < deps.len() {
            assert(e[i] == deps[i]);
        }
    }
}

proof fn lemma_make_dependency_placed(
    crate_name: Seq<char>,
    alias_name: Seq<char>,
    table_name: Seq<char>,
    v: Option<SpecValue>,
    ws: bool,
    path: bool,
    git: bool,
    name_range: Range,
    full: Range,
)
    requires
        value_ok(v),
        full.start.line <= full.end.line,
    ensures
        well_placed(
            make_dependency(crate_name, alias_name, table_name, v, ws, path, git, name_range, full),
        ),
{
}

proof fn lemma_values_ok(line: Seq<char>, eq: int, ln: int)
    ensures
        value_ok(version_on_line(line, ln)),
        value_ok(simple_version(line, eq, ln)),
{
}

proof fn lemma_step_inv(lines: Seq<Seq<char>>, st: ScanState, n: int)
    requires
        0 <= n < lines.len(),
        lines.len() <= u32::MAX,
        scan_inv(st, n),
    ensures
        scan_inv(scan_step(lines, st, n), n + 1),
{
    let line = lines[n];
    let ln = n as u32;
    assert(ln == n);
    let next = scan_step(lines, st, n);
    lemma_values_ok(line, 0, n);
    if crate::text::starts_with(crate::text::trim(line), "#"@) {
        assert(next == st);
        assert(all_before(st.deps, n + 1));
    } else if crate::toml_model::opens_table(crate::text::trim(line)) && crate::text::find_char(
        crate::text::trim(line),
        ']',
    ) is Some {
        let t = crate::text::trim(line);
        let cb = crate::text::find_char(t, ']')->0;
        let deps1 = match st.pending {
            Some(p) => st.deps.push(finish_pending(p, lines)),
            None => st.deps,
        };
        match st.pending {
            Some(p) => {
                let d = finish_pending(p, lines);
                assert(p.last_line <= last_line_index(lines));
                lemma_make_dependency_placed(
                    match p.package_name {
                        Some(x) => x,
                        None => p.crate_key,
                    },
                    p.crate_key,
                    p.table_name,
                    p.version,
                    p.is_workspace,
                    p.is_path,
                    p.is_git,
                    p.header_name_range,
                    d.full_range,
                );
                lemma_push_keeps(st.deps, d, n);
            },
            None => {},
        }
        assert(all_before(deps1, n));
        match st.active {
            Some(a) => {
                assert(st.pending is None);
                let d = finish_active(
                    a,
                    line_before(ln),
                    crate::toml_model::list_table_or_default(st.section),
                    lines,
                );
                lemma_make_dependency_placed(
                    match a.package_name {
                        Some(x) => x,
                        None => a.crate_key,
                    },
                    a.crate_key,
                    crate::toml_model::list_table_or_default(st.section),
                    a.version,
                    a.is_workspace,
                    a.is_path,
                    a.is_git,
                    a.name_range,
                    d.full_range,
                );
                lemma_push_keeps(deps1, d, n);
            },
            None => {},
        }
        assert(next == header_step(lines, st, line, ln, t, cb));
        assert(all_before(next.deps, n + 1)) by {
            assert forall|i: int| 0 <= i < next.deps.len() implies (
            #[trigger] next.deps[i]).full_range.end.line < n + 1 by {}
        }
    } else if st.pending is Some {
        let p = st.pending->0;
        assert(next.deps == st.deps);
        assert(all_before(st.deps, n + 1)) by {
            assert forall|i: int| 0 <= i < st.deps.len() implies (
            #[trigger] st.deps[i]).full_range.end.line < n + 1 by {}
        }
    } else {
        match st.section {
            SpecSection::DependencyList(table) => match st.active {
                Some(a) => {
                    let a1 = update_active(a, line, ln);
                    if a1.brace_depth <= 0 {
                        let d = finish_active(a1, ln, table, lines);
                        lemma_make_dependency_placed(
                            match a1.package_name {
                                Some(x) => x,
                                None => a1.crate_key,
                            },
                            a1.crate_key,
                            table,
                            a1.version,
                            a1.is_workspace,
                            a1.is_path,
                            a1.is_git,
                            a1.name_range,
                            d.full_range,
                        );
                        lemma_push_keeps(st.deps, d, n + 1);
                    } else {
                        assert(all_before(st.deps, n + 1)) by {
                            assert forall|i: int| 0 <= i < st.deps.len() implies (
                            #[trigger] st.deps[i]).full_range.end.line < n + 1 by {}
                        }
                    }
                },
                None => {
                    assert(all_before(st.deps, n + 1)) by {
                        assert forall|i: int| 0 <= i < st.deps.len() implies (
                        #[trigger] st.deps[i]).full_range.end.line < n + 1 by {}
                    }
                    match list_entry(line, ln, table) {
                        ListEntry::Skip => {},
                        ListEntry::Open(a) => {},
                        ListEntry::Whole(d) => {
                            let eq = crate::text::find_char(line, '=')->0;
                            lemma_values_ok(line, eq, n);
                            lemma_push_keeps(st.deps, d, n + 1);
                        },
                    }
                },
            },
            _ => {
                assert(all_before(st.deps, n + 1)) by {
                    assert forall|i: int| 0 <= i < st.deps.len() implies (
                    #[trigger] st.deps[i]).full_range.end.line < n + 1 by {}
                }
            },
        }
    }
}

proof fn lemma_scan_inv(lines: Seq<Seq<char>>, n: int)
    requires
        0 <= n <= lines.len(),
        lines.len() <= u32::MAX,
    ensures
        scan_inv(scan(lines, n), n),
    decreases n,
{
    if n > 0 {
        lemma_scan_inv(lines, n - 1);
        lemma_step_inv(lines, scan(lines, n - 1), n - 1);
    }
}

/// The dependencies of a document come in document order, each spanning
/// lines that run forward, with its hint right after its version.
pub proof fn law_dependencies_in_document_order(text: Seq<char>)
    requires
        text.len() <= i32::MAX,
    ensures
        in_document_order(dependencies_of(text)),
        forall|i: int|
            0 <= i < dependencies_of(text).len() ==> well_placed(#[trigger] dependencies_of(text)[i]),
{
    let lines = lines_of(text);
    lemma_lines_from_count(text, 0);
    let n = lines.len() as int;
    lemma_scan_inv(lines, n);
    let st = scan(lines, n);
    let deps1 = match st.pending {
        Some(p) => st.deps.push(finish_pending(p, lines)),
        None => st.deps,
    };
    match st.pending {
        Some(p) => {
            let d = finish_pending(p, lines);
            assert(p.last_line <= last_line_index(lines));
            lemma_make_dependency_placed(
                match p.package_name {
                    Some(x) => x,
                    None => p.crate_key,
                },
                p.crate_key,
                p.table_name,
                p.version,
                p.is_workspace,
                p.is_path,
                p.is_git,
                p.header_name_range,
                d.full_range,
            );
            lemma_push_keeps(st.deps, d, n);
        },
        None => {},
    }
    match st.active {
        Some(a) => {
            let d = finish_active(
                a,
                last_line_index(lines),
                crate::toml_model::list_table_or_default(st.section),
                lines,
            );
            lemma_make_dependency_placed(
                match a.package_name {
                    Some(x) => x,
                    None => a.crate_key,
                },
                a.crate_key,
                crate::toml_model::list_table_or_default(st.section),
                a.version,
                a.is_workspace,
                a.is_path,
                a.is_git,
                a.name_range,
                d.full_range,
            );
            lemma_push_keeps(deps1, d, n);
        },
        None => {},
    }
    assert(dependencies_of(text) == finish_scan(lines, st));
}

proof fn lemma_dep_at_from_finds(deps: Seq<SpecDependency>, l: u32, k: int, i: int)
    requires
        in_document_order(deps),
        forall|j: int| 0 <= j < deps.len() ==> well_placed(#[trigger] deps[j]),
        0 <= i <= k < deps.len(),
        covers(deps[k], l),
    ensures
        dep_at_from(deps, l, i) == Some(k),
    decreases k - i,
{
    if i < k {
        assert(deps[i].full_range.end.line < deps[k].full_range.start.line);
        lemma_dep_at_from_finds(deps, l, k, i + 1);
    }
}

/// A line of a document belongs to at most one dependency, and the
/// dependency found at that line (`find_dependency_at`) is that one.
pub proof fn law_dependency_at_line(text: Seq<char>, l: u32, k: int)
    requires
        text.len() <= i32::MAX,
        0 <= k < dependencies_of(text).len(),
        covers(dependencies_of(text)[k], l),
    ensures
        dep_at(dependencies_of(text), l) == Some(k),
        forall|j: int|
            0 <= j < dependencies_of(text).len() && j != k ==> !covers(
                #[trigger] dependencies_of(text)[j],
                l,
            ),
{
    law_dependencies_in_document_order(text);
    let deps = dependencies_of(text);
    lemma_dep_at_from_finds(deps, l, k, 0);
    assert forall|j: int| 0 <= j < deps.len() && j != k implies !covers(#[trigger] deps[j], l) by {
        if j < k {
            assert(deps[j].full_range.end.line < deps[k].full_range.start.line);
        } else {
            assert(deps[k].full_range.end.line < deps[j].full_range.start.line);
        }
    }
}

} // verus!
