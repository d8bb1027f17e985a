//! Laws of table headers: how a header is classified does not depend on the
//! blanks around it, the names it gives are trimmed, `is_dependency_section`
//! agrees with `classify_section` with or without brackets, and every
//! dependency comes from a dependency table.
use vstd::prelude::*;
use crate::text::{find_char, is_ws, trim, trim_start, trim_end, strip_start, strip_end, lines_of};
use crate::toml_model::{
    SpecSection, SpecCursorContext, cursor_context, section_through, opens_table, dep_at, SpecDependency, ScanState, ListEntry, classify, scan, scan_step, finish_scan,
    header_step, list_entry, finish_pending, finish_active, dependencies_of, update_active,
    list_table_or_default,
};
use crate::toml_parser::header_content;
use crate::position::Position;

verus! {

proof fn lemma_trim_start_range(s: Seq<char>) -> (a: int)
    ensures
        0 <= a <= s.len(),
        trim_start(s) == s.skip(a),
        forall|j: int| 0 <= j < a ==> is_ws(#[trigger] s[j]),
        a < s.len() ==> !is_ws(s[a]),
    decreases s.len(),
{
    if s.len() > 0 && is_ws(s[0]) {
        let a1 = lemma_trim_start_range(s.drop_first());
        assert(s.drop_first().skip(a1) =~= s.skip(a1 + 1));
        assert forall|j: int| 0 <= j < a1 + 1 implies is_ws(#[trigger] s[j]) by {
            if j > 0 {
                assert(s[j] == s.drop_first()[j - 1]);
            }
        }
        a1 + 1
    } else {
        assert(s.skip(0) =~= s);
        0
    }
}

proof fn lemma_trim_end_range(s: Seq<char>) -> (b: int)
    ensures
        0 <= b <= s.len(),
        trim_end(s) == s.take(b),
        forall|j: int| b <= j < s.len() ==> is_ws(#[trigger] s[j]),
        b > 0 ==> !is_ws(s[b - 1]),
    decreases s.len(),
{
    if s.len() > 0 && is_ws(s.last()) {
        let b1 = lemma_trim_end_range(s.drop_last());
        assert(s.drop_last().take(b1) =~= s.take(b1));
        assert forall|j: int| b1 <= j < s.len() implies is_ws(#[trigger] s[j]) by {
            if j < s.len() - 1 {
                assert(s[j] == s.drop_last()[j]);
            }
        }
        b1
    } else {
        assert(s.take(s.len() as int) =~= s);
        s.len() as int
    }
}

/// `trim(s)` is the part of `s` between its leading and its trailing blanks.
proof fn lemma_trim_range(s: Seq<char>) -> (r: (int, int))
    ensures
        0 <= r.0 <= r.1 <= s.len(),
        trim(s) == s.subrange(r.0, r.1),
        forall|j: int| 0 <= j < r.0 ==> is_ws(#[trigger] s[j]),
        forall|j: int| r.1 <= j < s.len() ==> is_ws(#[trigger] s[j]),
        r.0 < r.1 ==> !is_ws(s[r.0]) && !is_ws(s[r.1 - 1]),
{
    let a = lemma_trim_start_range(s);
    let u = s.skip(a);
    let b = lemma_trim_end_range(u);
    assert(u.take(b) =~= s.subrange(a, a + b));
    assert forall|j: int| a + b <= j < s.len() implies is_ws(#[trigger] s[j]) by {
        assert(s[j] == u[j - a]);
    }
    if b > 0 {
        assert(s[a + b - 1] == u[b - 1]);
    }
    (a, a + b)
}

/// Trimming twice trims once.
pub proof fn lemma_trim_idempotent(s: Seq<char>)
    ensures
        trim(trim(s)) == trim(s),
{
    let (a, b) = lemma_trim_range(s);
    let t = trim(s);
    let (c, d) = lemma_trim_range(t);
    if a < b {
        assert(t[0] == s[a]);
        assert(t[t.len() - 1] == s[b - 1]);
        if c > 0 {
            assert(is_ws(t[0]));
        }
        if d < t.len() {
            assert(is_ws(t[t.len() - 1]));
        }
        assert(t.subrange(c, d) =~= t);
    } else {
        assert(t.subrange(c, d) =~= t);
    }
}

/// How a header is classified does not depend on the blanks around it; a
/// list is named by the trimmed header, and a single dependency's table is
/// the trimmed header and its key is trimmed and not empty.
pub proof fn law_classify_ignores_blanks(s: Seq<char>)
    ensures
        classify(trim(s)) == classify(s),
        classify(s) matches SpecSection::DependencyList(t) ==> t == trim(s),
        classify(s) matches SpecSection::SingleDependency { table_name, crate_key } ==> {
            &&& table_name == trim(s)
            &&& crate_key.len() > 0
            &&& trim(crate_key) == crate_key
        },
{
    lemma_trim_idempotent(s);
    let h = trim(s);
    lemma_trim_idempotent(crate::text::strip_both(h.skip("dependencies."@.len() as int), crate::text::quote_chars()));
    lemma_trim_idempotent(crate::text::strip_both(h.skip("dev-dependencies."@.len() as int), crate::text::quote_chars()));
    lemma_trim_idempotent(crate::text::strip_both(h.skip("build-dependencies."@.len() as int), crate::text::quote_chars()));
    lemma_trim_idempotent(crate::text::strip_both(h.skip("workspace.dependencies."@.len() as int), crate::text::quote_chars()));
    if crate::text::starts_with(h, "target."@) {
        let rest = h.skip("target."@.len() as int);
        lemma_target_key(h, rest, ".dependencies"@);
        lemma_target_key(h, rest, ".dev-dependencies"@);
        lemma_target_key(h, rest, ".build-dependencies"@);
    }
}

proof fn lemma_target_key(h: Seq<char>, rest: Seq<char>, mid: Seq<char>)
    ensures
        crate::toml_model::target_section(h, rest, mid) matches Some(sec) ==> match sec {
            SpecSection::DependencyList(t) => t == h,
            SpecSection::SingleDependency { table_name, crate_key } => table_name == h
                && crate_key.len() > 0 && trim(crate_key) == crate_key,
            SpecSection::Other => false,
        },
{
    match crate::text::find_seq(rest, mid) {
        None => {},
        Some(idx) => {
            let after = rest.skip(idx + mid.len());
            lemma_trim_idempotent(crate::text::strip_both(after.skip(1), crate::text::quote_chars()));
        },
    }
}

/// A header with or without its brackets: `is_dependency_section` reads
/// both as `classify_section` reads the header itself (when the trimmed
/// header neither starts with `[` nor ends with `]`).
pub proof fn law_dependency_section_brackets(s: Seq<char>)
    requires
        !(trim(s).len() > 0 && (trim(s)[0] == '[' || trim(s).last() == ']')),
    ensures
        header_content(s) == trim(s),
        header_content(seq!['['] + s + seq![']']) == trim(s),
        classify(header_content(s)) == classify(s),
        classify(header_content(seq!['['] + s + seq![']'])) == classify(s),
{
    law_classify_ignores_blanks(s);
    lemma_trim_idempotent(s);
    let t = trim(s);
    let (a, b) = lemma_trim_range(s);
    // Without brackets.
    assert(strip_start(t, seq!['[']) == t) by {
        if t.len() > 0 {
            assert(!seq!['['].contains(t[0])) by {
                if seq!['['].contains(t[0]) {
                    assert(seq!['['][0] == '[');
                }
            }
        }
    }
    assert(strip_end(t, seq![']']) == t) by {
        if t.len() > 0 {
            assert(!seq![']'].contains(t.last())) by {
                if seq![']'].contains(t.last()) {
                    assert(seq![']'][0] == ']');
                }
            }
        }
    }
    // With brackets.
    let x = seq!['['] + s + seq![']'];
    let (c, d) = lemma_trim_range(x);
    assert(!is_ws(x[0]));
    assert(!is_ws(x[x.len() - 1]));
    assert(c == 0) by {
        if c > 0 {
            assert(is_ws(x[0]));
        }
    }
    assert(d == x.len()) by {
        if d < x.len() {
            assert(is_ws(x[x.len() - 1]));
        }
    }
    assert(trim(x) =~= x);
    let y = s + seq![']'];
    assert(x.drop_first() =~= y);
    assert(seq!['['].contains('['));
    assert(strip_start(y, seq!['[']) == y) by {
        if y.len() > 0 && seq!['['].contains(y[0]) {
            assert(y[0] == '[');
            if s.len() > 0 {
                assert(y[0] == s[0]);
                assert(!is_ws(s[0]));
                assert(a == 0);
                assert(t[0] == s[0]);
            }
        }
    }
    assert(strip_start(x, seq!['[']) == y);
    assert(y.drop_last() =~= s);
    assert(seq![']'].contains(']'));
    assert(strip_end(s, seq![']']) == s) by {
        if s.len() > 0 && seq![']'].contains(s.last()) {
            assert(s.last() == ']');
            assert(!is_ws(s[s.len() - 1]));
            assert(b == s.len());
            assert(t.last() == s.last());
        }
    }
    assert(strip_end(y, seq![']']) == s);
}

// ---------------------------------------------------------------------------
// Every dependency comes from a dependency table
// ---------------------------------------------------------------------------

/// Whether a table name is one of dependencies.
pub open spec fn names_dependency_table(name: Seq<char>) -> bool {
    !(classify(name) is Other)
}

spec fn section_ok(sec: SpecSection) -> bool {
    match sec {
        SpecSection::DependencyList(t) => names_dependency_table(t),
        SpecSection::SingleDependency { table_name, .. } => names_dependency_table(table_name),
        SpecSection::Other => true,
    }
}

spec fn tables_ok(deps: Seq<SpecDependency>) -> bool {
    forall|i: int| 0 <= i < deps.len() ==> names_dependency_table(#[trigger] deps[i].table_name)
}

spec fn tables_inv(st: ScanState) -> bool {
    &&& section_ok(st.section)
    &&& tables_ok(st.deps)
    &&& st.pending matches Some(p) ==> names_dependency_table(p.table_name)
}

proof fn lemma_push_table(deps: Seq<SpecDependency>, d: SpecDependency)
    requires
        tables_ok(deps),
        names_dependency_table(d.table_name),
    ensures
        tables_ok(deps.push(d)),
{
    assert forall|i: int| 0 <= i < deps.push(d).len() implies names_dependency_table(
        #[trigger] deps.push(d)[i].table_name,
    ) by {
        if i < deps.len() {
            assert(deps.push(d)[i] == deps[i]);
        }
    }
}

proof fn lemma_default_table()
    ensures
        names_dependency_table("dependencies"@),
{
    reveal_strlit("dependencies");
    let d = "dependencies"@;
    let (a, b) = lemma_trim_range(d);
    assert(!is_ws(d[0]));
    assert(!is_ws(d[d.len() - 1]));
    assert(a == 0) by {
        if a > 0 {
            assert(is_ws(d[0]));
        }
    }
    assert(b == d.len()) by {
        if b < d.len() {
            assert(is_ws(d[d.len() - 1]));
        }
    }
    assert(trim(d) =~= d);
}

proof fn lemma_default_ok(sec: SpecSection)
    requires
        section_ok(sec),
    ensures
        names_dependency_table(list_table_or_default(sec)),
{
    lemma_default_table();
}

/// The section a header opens names a dependency table by itself.
proof fn lemma_classified_ok(raw: Seq<char>)
    ensures
        section_ok(classify(raw)),
{
    law_classify_ignores_blanks(raw);
}

proof fn lemma_step_tables(lines: Seq<Seq<char>>, st: ScanState, n: int)
    requires
        0 <= n < lines.len(),
        tables_inv(st),
    ensures
        tables_inv(scan_step(lines, st, n)),
{
    let line = lines[n];
    let ln = n as u32;
    let t = trim(line);
    if crate::text::starts_with(t, "#"@) {
    } else if crate::toml_model::opens_table(t) && crate::text::find_char(t, ']') is Some {
        let cb = crate::text::find_char(t, ']')->0;
        let deps1 = match st.pending {
            Some(p) => st.deps.push(finish_pending(p, lines)),
            None => st.deps,
        };
        match st.pending {
            Some(p) => {
                lemma_push_table(st.deps, finish_pending(p, lines));
            },
            None => {},
        }
        match st.active {
            Some(a) => {
                let table = list_table_or_default(st.section);
                lemma_default_ok(st.section);
                lemma_push_table(
                    deps1,
                    finish_active(a, crate::toml_model::line_before(ln), table, lines),
                );
            },
            None => {},
        }
        lemma_classified_ok(t.subrange(1, cb));
        assert(scan_step(lines, st, n) == header_step(lines, st, line, ln, t, cb));
    } else if st.pending is Some {
    } else {
        match st.section {
            SpecSection::DependencyList(table) => match st.active {
                Some(a) => {
                    let a1 = update_active(a, line, ln);
                    if a1.brace_depth <= 0 {
                        lemma_push_table(st.deps, finish_active(a1, ln, table, lines));
                    }
                },
                None => match list_entry(line, ln, table) {
                    ListEntry::Whole(d) => {
                        assert(d.table_name == table);
                        lemma_push_table(st.deps, d);
                    },
                    _ => {},
                },
            },
            _ => {},
        }
    }
}

proof fn lemma_scan_tables(lines: Seq<Seq<char>>, n: int)
    requires
        0 <= n <= lines.len(),
    ensures
        tables_inv(scan(lines, n)),
    decreases n,
{
    if n > 0 {
        lemma_scan_tables(lines, n - 1);
        lemma_step_tables(lines, scan(lines, n - 1), n - 1);
    }
}

/// Every dependency comes from a dependency table: its table's name is
/// classified as a dependency list or a single dependency's table.
pub proof fn law_dependencies_from_dependency_tables(text: Seq<char>)
    ensures
        forall|i: int|
            0 <= i < dependencies_of(text).len() ==> names_dependency_table(
                #[trigger] dependencies_of(text)[i].table_name,
            ),
{
    let lines = lines_of(text);
    let n = lines.len() as int;
    lemma_scan_tables(lines, n);
    let st = scan(lines, n);
    let deps1 = match st.pending {
        Some(p) => st.deps.push(finish_pending(p, lines)),
        None => st.deps,
    };
    match st.pending {
        Some(p) => {
            lemma_push_table(st.deps, finish_pending(p, lines));
        },
        None => {},
    }
    match st.active {
        Some(a) => {
            lemma_default_ok(st.section);
            lemma_push_table(
                deps1,
                finish_active(
                    a,
                    crate::toml_model::last_line_index(lines),
                    list_table_or_default(st.section),
                    lines,
                ),
            );
        },
        None => {},
    }
    assert(dependencies_of(text) == finish_scan(lines, st));
}

// ---------------------------------------------------------------------------
// A dependency table's header names dependencies
// ---------------------------------------------------------------------------

proof fn lemma_occurs_within(h: Seq<char>, big: Seq<char>, j: int, off: int, small: Seq<char>)
    requires
        crate::text::occurs_at(h, big, j),
        0 <= off,
        off + small.len() <= big.len(),
        big.subrange(off, off + small.len()) == small,
    ensures
        crate::text::occurs_at(h, small, j + off),
{
    assert(h.subrange(j + off, j + off + small.len()) =~= big.subrange(off, off + small.len()));
}

proof fn lemma_occurs_finds(s: Seq<char>, pat: Seq<char>, i: int, k: int)
    requires
        0 <= i <= k,
        crate::text::occurs_at(s, pat, k),
    ensures
        crate::text::find_seq_from(s, pat, i) is Some,
    decreases k - i,
{
    if i < k && !crate::text::occurs_at(s, pat, i) {
        lemma_occurs_finds(s, pat, i + 1, k);
    }
}

/// Where `"dependencies"` stands in the names that hold it.
proof fn lemma_word_in(big: Seq<char>, off: int)
    requires
        big == "dependencies"@ && off == 0 || big == "dev-dependencies"@ && off == 4 || big
            == "build-dependencies"@ && off == 6 || big == "workspace.dependencies"@ && off == 10
            || big == "dependencies."@ && off == 0 || big == "dev-dependencies."@ && off == 4
            || big == "build-dependencies."@ && off == 6 || big == "workspace.dependencies."@ && off
            == 10 || big == ".dependencies"@ && off == 1 || big == ".dev-dependencies"@ && off == 5
            || big == ".build-dependencies"@ && off == 7,
    ensures
        off + 12 <= big.len(),
        big.subrange(off, off + 12) == "dependencies"@,
{
    reveal_strlit("dependencies");
    reveal_strlit("dev-dependencies");
    reveal_strlit("build-dependencies");
    reveal_strlit("workspace.dependencies");
    reveal_strlit("dependencies.");
    reveal_strlit("dev-dependencies.");
    reveal_strlit("build-dependencies.");
    reveal_strlit("workspace.dependencies.");
    reveal_strlit(".dependencies");
    reveal_strlit(".dev-dependencies");
    reveal_strlit(".build-dependencies");
    assert(big.subrange(off, off + 12) =~= "dependencies"@);
}

proof fn lemma_prefix_word(h: Seq<char>, prefix: Seq<char>, off: int)
    requires
        crate::toml_model::key_after_prefix(h, prefix) is Some,
        off + 12 <= prefix.len(),
        0 <= off,
        prefix.subrange(off, off + 12) == "dependencies"@,
    ensures
        crate::text::occurs_at(h, "dependencies"@, off),
{
    assert(crate::text::occurs_at(h, prefix, 0));
    lemma_occurs_within(h, prefix, 0, off, "dependencies"@);
}

proof fn lemma_target_word(h: Seq<char>, mid: Seq<char>, off: int)
    requires
        h.len() >= 7,
        crate::toml_model::target_section(h, h.skip(7), mid) is Some,
        0 <= off,
        off + 12 <= mid.len(),
        mid.subrange(off, off + 12) == "dependencies"@,
    ensures
        exists|i: int| crate::text::occurs_at(h, "dependencies"@, i),
{
    let rest = h.skip(7);
    crate::text::lemma_find_seq_bound(rest, mid);
    let idx = crate::text::find_seq(rest, mid)->0;
    assert(h.subrange(7 + idx, 7 + idx + mid.len()) =~= rest.subrange(idx, idx + mid.len()));
    assert(crate::text::occurs_at(h, mid, 7 + idx));
    lemma_occurs_within(h, mid, 7 + idx, off, "dependencies"@);
}

/// A header that opens a dependency table holds the word `dependencies`.
pub proof fn law_dependency_headers_say_dependencies(s: Seq<char>)
    ensures
        !(classify(s) is Other) ==> crate::text::contains_seq(s, "dependencies"@),
{
    let h = trim(s);
    let (a, b) = lemma_trim_range(s);
    if !(classify(s) is Other) {
        reveal_strlit("target.");
        let found: int = if crate::toml_model::is_list_header(h) {
            if h == "dependencies"@ {
                lemma_word_in(h, 0);
                0
            } else if h == "dev-dependencies"@ {
                lemma_word_in(h, 4);
                4
            } else if h == "build-dependencies"@ {
                lemma_word_in(h, 6);
                6
            } else {
                lemma_word_in(h, 10);
                10
            }
        } else if crate::toml_model::key_after_prefix(h, "dependencies."@) is Some {
            lemma_word_in("dependencies."@, 0);
            lemma_prefix_word(h, "dependencies."@, 0);
            0
        } else if crate::toml_model::key_after_prefix(h, "dev-dependencies."@) is Some {
            lemma_word_in("dev-dependencies."@, 4);
            lemma_prefix_word(h, "dev-dependencies."@, 4);
            4
        } else if crate::toml_model::key_after_prefix(h, "build-dependencies."@) is Some {
            lemma_word_in("build-dependencies."@, 6);
            lemma_prefix_word(h, "build-dependencies."@, 6);
            6
        } else if crate::toml_model::key_after_prefix(h, "workspace.dependencies."@) is Some {
            lemma_word_in("workspace.dependencies."@, 10);
            lemma_prefix_word(h, "workspace.dependencies."@, 10);
            10
        } else {
            assert(crate::text::starts_with(h, "target."@));
            let rest = h.skip(7);
            assert(rest == h.skip("target."@.len() as int));
            if crate::toml_model::target_section(h, rest, ".dependencies"@) is Some {
                lemma_word_in(".dependencies"@, 1);
                lemma_target_word(h, ".dependencies"@, 1);
            } else if crate::toml_model::target_section(h, rest, ".dev-dependencies"@) is Some {
                lemma_word_in(".dev-dependencies"@, 5);
                lemma_target_word(h, ".dev-dependencies"@, 5);
            } else {
                lemma_word_in(".build-dependencies"@, 7);
                lemma_target_word(h, ".build-dependencies"@, 7);
            }
            choose|i: int| crate::text::occurs_at(h, "dependencies"@, i)
        };
        assert(crate::text::occurs_at(h, "dependencies"@, found));
        assert(s.subrange(a + found, a + found + 12) =~= h.subrange(found, found + 12));
        lemma_occurs_finds(s, "dependencies"@, 0, a + found);
    }
}

/// The four list headers (`dependencies`, `dev-dependencies`,
/// `build-dependencies`, `workspace.dependencies`), with any blanks around
/// them, open a dependency list named by the header itself.
pub proof fn law_list_headers_open_lists(raw: Seq<char>)
    requires
        trim(raw) == "dependencies"@ || trim(raw) == "dev-dependencies"@ || trim(raw)
            == "build-dependencies"@ || trim(raw) == "workspace.dependencies"@,
    ensures
        classify(raw) == SpecSection::DependencyList(trim(raw)),
{
}

/// Whether line `k` of `lines` is a `[table]` header.
pub open spec fn is_header_line(lines: Seq<Seq<char>>, k: int) -> bool {
    opens_table(trim(lines[k])) && find_char(trim(lines[k]), ']') is Some
}

/// The section in force after a header is the one that header opens, until
/// the next header.
proof fn lemma_section_after_header(lines: Seq<Seq<char>>, h: int, n: int)
    requires
        0 <= h < n <= lines.len(),
        is_header_line(lines, h),
        forall|k: int| h < k < n ==> !is_header_line(lines, k),
    ensures
        section_through(lines, n) == classify(
            trim(lines[h]).subrange(1, find_char(trim(lines[h]), ']')->0),
        ),
    decreases n - h,
{
    if n > h + 1 {
        lemma_section_after_header(lines, h, n - 1);
        assert(!is_header_line(lines, n - 1));
    }
}

/// A cursor off any dependency, under a header that opens no dependency table
/// (such as `[features]`, `[package]` or `[profile.release]`) with no other
/// header between them, has no completion context: the last header at or
/// before the cursor's line decides the section, whatever came before it.
pub proof fn law_other_header_ends_dependencies(text: Seq<char>, p: Position, h: int)
    requires
        0 <= h <= p.line < lines_of(text).len(),
        is_header_line(lines_of(text), h),
        classify(
            trim(lines_of(text)[h]).subrange(1, find_char(trim(lines_of(text)[h]), ']')->0),
        ) is Other,
        forall|k: int| h < k <= p.line ==> !is_header_line(lines_of(text), k),
        dep_at(dependencies_of(text), p.line) is None,
    ensures
        cursor_context(text, p) == SpecCursorContext::NoContext,
{
    lemma_section_after_header(lines_of(text), h, p.line + 1);
}

} // verus!
