//! What a plain `name = "version"` line under a dependency list header gives:
//! a dependency of that name and version, in that table.
use vstd::prelude::*;
use crate::text::{
    find_char, find_char_from, find_in_set_from, contains_char, quote_chars, trim,
    trim_start, trim_end, strip_start, strip_end, strip_both, starts_with, lines_of,
};
use crate::toml_model::{
    SpecSection, SpecDependency, ScanState, scan, scan_step, finish_scan, list_entry,
    dependencies_of, reserved_keys, opens_table, find_quoted, simple_version,
};
use crate::section_laws::{is_header_line, law_list_headers_open_lists};

verus! {

/// A character that may stand in a bare TOML key: an ASCII letter or digit,
/// `-` or `_`.
pub open spec fn is_bare_key_char(c: char) -> bool {
    ('a' <= c && c <= 'z') || ('A' <= c && c <= 'Z') || ('0' <= c && c <= '9') || c == '-' || c
        == '_'
}

proof fn lemma_find_char_at(s: Seq<char>, c: char, i: int, k: int)
    requires
        0 <= i <= k < s.len(),
        s[k] == c,
        forall|j: int| i <= j < k ==> s[j] != c,
    ensures
        find_char_from(s, c, i) == Some(k),
    decreases k - i,
{
    if i < k {
        lemma_find_char_at(s, c, i + 1, k);
    }
}

proof fn lemma_find_char_absent(s: Seq<char>, c: char, i: int)
    requires
        0 <= i,
        forall|j: int| i <= j < s.len() ==> s[j] != c,
    ensures
        find_char_from(s, c, i) is None,
    decreases s.len() - i,
{
    if i < s.len() {
        lemma_find_char_absent(s, c, i + 1);
    }
}

proof fn lemma_not_a_quote(c: char)
    requires
        c != '"',
        c != '\'',
    ensures
        !quote_chars().contains(c),
{
    if quote_chars().contains(c) {
        let k = choose|k: int| 0 <= k < quote_chars().len() && quote_chars()[k] == c;
        assert(k == 0 || k == 1);
    }
}

/// A step of the scan keeps every dependency found so far.
proof fn lemma_step_keeps(lines: Seq<Seq<char>>, st: ScanState, n: int, d: SpecDependency)
    requires
        0 <= n < lines.len(),
        st.deps.contains(d),
    ensures
        scan_step(lines, st, n).deps.contains(d),
{
    let i = choose|i: int| 0 <= i < st.deps.len() && st.deps[i] == d;
    let nd = scan_step(lines, st, n).deps;
    assert(nd.len() >= st.deps.len() && nd.subrange(0, st.deps.len() as int) =~= st.deps) by {
        let t = trim(lines[n]);
        if !starts_with(t, "#"@) && opens_table(t) && find_char(t, ']') is Some {
            let deps1 = match st.pending {
                Some(p) => st.deps.push(crate::toml_model::finish_pending(p, lines)),
                None => st.deps,
            };
            assert(deps1.subrange(0, st.deps.len() as int) =~= st.deps);
        }
    }
    assert(nd[i] == nd.subrange(0, st.deps.len() as int)[i]);
}

/// The scan keeps every dependency it has found.
proof fn lemma_scan_keeps(lines: Seq<Seq<char>>, n: int, m: int, d: SpecDependency)
    requires
        0 <= n <= m <= lines.len(),
        scan(lines, n).deps.contains(d),
    ensures
        scan(lines, m).deps.contains(d),
    decreases m - n,
{
    if m > n {
        lemma_scan_keeps(lines, n, m - 1, d);
        lemma_step_keeps(lines, scan(lines, m - 1), m - 1, d);
    }
}

/// A list header leaves the scan in that list, with no table being read.
proof fn lemma_header_opens_list(lines: Seq<Seq<char>>, k: int, h: Seq<char>)
    requires
        0 <= k < lines.len(),
        is_header_line(lines, k),
        trim(trim(lines[k]).subrange(1, find_char(trim(lines[k]), ']')->0)) == h,
        h == "dependencies"@ || h == "dev-dependencies"@ || h == "build-dependencies"@ || h
            == "workspace.dependencies"@,
    ensures
        scan(lines, k + 1).section == SpecSection::DependencyList(h),
        scan(lines, k + 1).pending is None,
        scan(lines, k + 1).active is None,
{
    let t = trim(lines[k]);
    let cb = find_char(t, ']')->0;
    reveal_strlit("#");
    reveal_strlit("[");
    assert("#"@.len() == 1 && "#"@[0] == '#');
    assert("["@.len() == 1 && "["@[0] == '[');
    assert(t.subrange(0, 1)[0] == t[0]);
    assert(!starts_with(t, "#"@)) by {
        if starts_with(t, "#"@) {
            assert(t.subrange(0, 1)[0] == '#');
        }
    }
    law_list_headers_open_lists(t.subrange(1, cb));
    assert(scan(lines, k + 1) == scan_step(lines, scan(lines, k), k));
}

/// The key of the line `name = "ver"` is `name`, and its `=` follows it.
proof fn lemma_entry_key(line: Seq<char>, name: Seq<char>, ver: Seq<char>)
    requires
        name.len() >= 1,
        forall|i: int| 0 <= i < name.len() ==> is_bare_key_char(#[trigger] name[i]),
        line == name + seq![' ', '=', ' ', '"'] + ver + seq!['"'],
    ensures
        trim(line) == line,
        trim_start(line) == line,
        !starts_with(line, "#"@),
        !opens_table(line),
        find_char(line, '=') == Some(name.len() as int + 1),
        trim(line.take(name.len() as int + 1)) == name,
        strip_both(name, quote_chars()) == name,
{
    let nl = name.len() as int;
    reveal_strlit("#");
    reveal_strlit("[");
    assert("#"@.len() == 1 && "#"@[0] == '#');
    assert("["@.len() == 1 && "["@[0] == '[');
    assert(line.len() == nl + ver.len() + 5);
    assert(line[0] == name[0]);
    assert(is_bare_key_char(name[0]));
    assert(line[line.len() - 1] == '"');
    assert(trim_start(line) == line);
    assert(trim_end(line) == line);
    assert(!starts_with(line, "#"@)) by {
        if starts_with(line, "#"@) {
            assert(line.subrange(0, 1)[0] == '#');
        }
    }
    assert(!starts_with(line, "["@)) by {
        if starts_with(line, "["@) {
            assert(line.subrange(0, 1)[0] == '[');
        }
    }
    assert forall|j: int| 0 <= j < nl implies #[trigger] line[j] != '=' by {
        assert(line[j] == name[j]);
        assert(is_bare_key_char(name[j]));
    }
    assert(line[nl] == ' ' && line[nl + 1] == '=');
    lemma_find_char_at(line, '=', 0, nl + 1);
    let kt = line.take(nl + 1);
    assert(kt =~= name.push(' '));
    assert(kt.drop_last() =~= name);
    assert(is_bare_key_char(name[nl - 1]));
    assert(trim_end(kt) == trim_end(name));
    assert(trim_end(name) == name);
    assert(kt[0] == name[0]);
    assert(trim_start(kt) == kt);
    lemma_not_a_quote(name[0]);
    lemma_not_a_quote(name[nl - 1]);
    assert(strip_start(name, quote_chars()) == name);
    assert(strip_end(name, quote_chars()) == name);
}

/// The value after the `=` of `name = "ver"` is `ver`, with no brace.
proof fn lemma_entry_value(line: Seq<char>, name: Seq<char>, ver: Seq<char>, ln: int)
    requires
        forall|i: int| 0 <= i < ver.len() ==> #[trigger] ver[i] != '"' && ver[i] != '{',
        line == name + seq![' ', '=', ' ', '"'] + ver + seq!['"'],
    ensures
        !contains_char(line.skip(name.len() as int + 2), '{'),
        simple_version(line, name.len() as int + 1, ln) matches Some(v) && v.text == ver,
{
    let eq = name.len() as int + 1;
    let rv = line.skip(eq + 1);
    assert(rv =~= seq![' ', '"'] + ver + seq!['"']);
    assert forall|j: int| 0 <= j < rv.len() implies #[trigger] rv[j] != '{' by {
        if 2 <= j < 2 + ver.len() {
            assert(rv[j] == ver[j - 2]);
        }
    }
    lemma_find_char_absent(rv, '{', 0);
    lemma_not_a_quote(' ');
    assert(quote_chars().contains(rv[1])) by {
        assert(quote_chars()[0] == '"');
    }
    assert(find_in_set_from(rv, quote_chars(), 1) == Some(1int));
    assert(find_in_set_from(rv, quote_chars(), 0) == Some(1int));
    let qe = (ver.len() + 2) as int;
    assert forall|j: int| 2 <= j < qe implies #[trigger] rv[j] != '"' by {
        assert(rv[j] == ver[j - 2]);
    }
    lemma_find_char_at(rv, '"', 2, qe);
    assert(rv.subrange(2, qe) =~= ver);
    assert(find_quoted(rv) == Some((ver, 1int, qe)));
}

/// Under a `[dependencies]`, `[dev-dependencies]`, `[build-dependencies]` or
/// `[workspace.dependencies]` header, the next line `name = "version"`, with a
/// bare key and a version without quotes or braces, declares a dependency of
/// that name and version in that table.
pub proof fn law_simple_entry_under_list_header(
    text: Seq<char>,
    k: int,
    h: Seq<char>,
    name: Seq<char>,
    ver: Seq<char>,
)
    requires
        0 <= k,
        k + 1 < lines_of(text).len(),
        is_header_line(lines_of(text), k),
        trim(
            trim(lines_of(text)[k]).subrange(1, find_char(trim(lines_of(text)[k]), ']')->0),
        ) == h,
        h == "dependencies"@ || h == "dev-dependencies"@ || h == "build-dependencies"@ || h
            == "workspace.dependencies"@,
        name.len() >= 1,
        forall|i: int| 0 <= i < name.len() ==> is_bare_key_char(#[trigger] name[i]),
        !reserved_keys().contains(name),
        forall|i: int| 0 <= i < ver.len() ==> #[trigger] ver[i] != '"' && ver[i] != '{',
        lines_of(text)[k + 1] == name + seq![' ', '=', ' ', '"'] + ver + seq!['"'],
    ensures
        exists|d: SpecDependency|
            #[trigger] dependencies_of(text).contains(d) && d.crate_name == name && d.table_name
                == h && d.version == Some(ver),
{
    let lines = lines_of(text);
    lemma_header_opens_list(lines, k, h);
    let st1 = scan(lines, k + 1);
    let line = lines[k + 1];
    lemma_entry_key(line, name, ver);
    lemma_entry_value(line, name, ver, k + 1);
    let le = list_entry(line, (k + 1) as u32, h);
    assert(le is Whole);
    let d = le->Whole_0;
    assert(d.crate_name == name && d.table_name == h && d.version == Some(ver));
    let st2 = scan(lines, k + 2);
    assert(st2 == scan_step(lines, st1, k + 1));
    assert(st2.deps == st1.deps.push(d));
    assert(st2.deps[st1.deps.len() as int] == d);
    assert(st2.deps.contains(d));
    let n = lines.len() as int;
    lemma_scan_keeps(lines, k + 2, n, d);
    let st = scan(lines, n);
    let j = choose|j: int| 0 <= j < st.deps.len() && st.deps[j] == d;
    let all = finish_scan(lines, st);
    assert(all.len() >= st.deps.len() && all[j] == st.deps[j]) by {
        let deps1 = match st.pending {
            Some(p) => st.deps.push(crate::toml_model::finish_pending(p, lines)),
            None => st.deps,
        };
        assert(deps1[j] == st.deps[j]);
    }
    assert(dependencies_of(text) == all);
    assert(all.contains(d));
}

} // verus!
