//! The language server's decisions: which completions, hover text, inlay
//! hints and code actions to offer, and how a click on a version link is
//! understood. The protocol plumbing itself is driven by the application.
use vstd::prelude::*;
use vstd::slice::slice_subrange;
use crate::position::Range;
use crate::text::{
    chars_of, string_from_chars, push_str, push_chars, utf8_len, utf8_len_exec, starts_with,
    starts_with_exec,
};
use crate::toml_model::{byte_prefix, is_byte_boundary, chars_within_from};
use crate::versions::{
    CrateVersionInfo, SpecVersionInfo, infos_view, decimal, decimal_chars, first_candidate_from,
    first_candidate_exec,
};
use crate::crates_client::{SearchCrateItem, SpecItem};

verus! {

// ---------------------------------------------------------------------------
// Completion entries
// ---------------------------------------------------------------------------

/// What a completion item completes.
#[derive(Clone, Copy, Debug, PartialEq, Eq, Structural)]
pub enum CompletionKind {
    /// A version value.
    Value,
    /// A crate name.
    Module,
}

/// A completion item, as the editor will show it.
#[derive(Debug)]
pub struct CompletionEntry {
    pub label: String,
    pub kind: CompletionKind,
    pub detail: String,
    /// Markdown.
    pub documentation: Option<String>,
    pub sort_text: String,
    /// Whether `new_text` is a snippet.
    pub snippet: bool,
    pub replace_range: Range,
    pub new_text: String,
}

pub struct SpecCompletion {
    pub label: Seq<char>,
    pub kind: CompletionKind,
    pub detail: Seq<char>,
    pub documentation: Option<Seq<char>>,
    pub sort_text: Seq<char>,
    pub snippet: bool,
    pub replace_range: Range,
    pub new_text: Seq<char>,
}

impl View for CompletionEntry {
    type V = SpecCompletion;

    open spec fn view(&self) -> SpecCompletion {
        SpecCompletion {
            label: self.label@,
            kind: self.kind,
            detail: self.detail@,
            documentation: match self.documentation {
                Some(d) => Some(d@),
                None => None,
            },
            sort_text: self.sort_text@,
            snippet: self.snippet,
            replace_range: self.replace_range,
            new_text: self.new_text@,
        }
    }
}

pub open spec fn entries_view(s: Seq<CompletionEntry>) -> Seq<SpecCompletion> {
    s.map_values(|e: CompletionEntry| e@)
}

/// `k` zeros (none when `k` is not positive).
pub open spec fn zeros(k: int) -> Seq<char> {
    Seq::new(if k > 0 { k as nat } else { 0 }, |i: int| '0')
}

/// The decimal notation of `n`, padded with zeros to at least `w` digits (`{:0w}`).
pub open spec fn padded(n: nat, w: int) -> Seq<char> {
    zeros(w - decimal(n).len()) + decimal(n)
}

/// The date of a publication time: its first ten bytes.
pub open spec fn date_part(d: Seq<char>) -> Seq<char> {
    byte_prefix(d, if utf8_len(d) < 10 { utf8_len(d) as int } else { 10 })
}

/// Whether the date of a publication time is cut on a character boundary.
pub open spec fn date_cuts_cleanly(d: Seq<char>) -> bool {
    is_byte_boundary(d, if utf8_len(d) < 10 { utf8_len(d) as int } else { 10 })
}

/// The detail line of a version's completion.
pub open spec fn version_detail(v: SpecVersionInfo, is_latest: bool) -> Seq<char> {
    if is_latest {
        "latest stable"@ + match v.pubtime {
            Some(d) => " ("@ + date_part(d) + ")"@,
            None => Seq::<char>::empty(),
        }
    } else if v.yanked {
        "yanked"@
    } else if v.is_prerelease {
        "pre-release"@
    } else {
        match v.pubtime {
            Some(d) => "released "@ + date_part(d),
            None => Seq::<char>::empty(),
        }
    }
}

/// The documentation of a version's completion.
pub open spec fn version_doc(crate_name: Seq<char>, v: SpecVersionInfo, is_latest: bool) -> Seq<char> {
    "### `"@ + crate_name + "` v"@ + v.version + "\n"@ + if is_latest {
        "**Latest stable release**\n"@
    } else {
        Seq::<char>::empty()
    }
}

/// The completion of version `v`, the `idx`-th of the list.
pub open spec fn version_entry(
    crate_name: Seq<char>,
    v: SpecVersionInfo,
    idx: int,
    is_latest: bool,
    range: Range,
) -> SpecCompletion {
    SpecCompletion {
        label: v.version,
        kind: CompletionKind::Value,
        detail: version_detail(v, is_latest),
        documentation: Some(version_doc(crate_name, v, is_latest)),
        sort_text: padded(idx as nat, 5),
        snippet: false,
        replace_range: range,
        new_text: v.version,
    }
}

/// Whether a version is offered for the text typed so far.
pub open spec fn offered(v: SpecVersionInfo, prefix: Seq<char>) -> bool {
    prefix.len() == 0 || starts_with(v.version, prefix)
}

/// The first version from index `i` on that is offered, released and stable:
/// the latest stable release of a list given newest first.
pub open spec fn latest_offered_from(vs: Seq<SpecVersionInfo>, prefix: Seq<char>, i: int) -> Option<
    int,
>
    decreases vs.len() - i,
{
    if i < 0 || i >= vs.len() {
        None
    } else if offered(vs[i], prefix) && !vs[i].yanked && !vs[i].is_prerelease {
        Some(i)
    } else {
        latest_offered_from(vs, prefix, i + 1)
    }
}

/// The offered versions from index `i` on, but the one at index `skip`, in order.
pub open spec fn offered_but_from(vs: Seq<SpecVersionInfo>, prefix: Seq<char>, skip: int, i: int) -> Seq<
    SpecVersionInfo,
>
    decreases vs.len() - i,
{
    if i < 0 || i >= vs.len() {
        seq![]
    } else if offered(vs[i], prefix) && i != skip {
        seq![vs[i]] + offered_but_from(vs, prefix, skip, i + 1)
    } else {
        offered_but_from(vs, prefix, skip, i + 1)
    }
}

/// The order of version completions: the latest stable release first, then
/// the other offered versions in the order given.
pub open spec fn completion_order(vs: Seq<SpecVersionInfo>, prefix: Seq<char>) -> Seq<
    SpecVersionInfo,
> {
    match latest_offered_from(vs, prefix, 0) {
        Some(l) => seq![vs[l]] + offered_but_from(vs, prefix, l, 0),
        None => offered_but_from(vs, prefix, -1, 0),
    }
}

/// The version completions: one per version in `completion_order`, sorted by
/// their position, the first marked as the latest stable release when there
/// is one.
pub open spec fn version_entries(
    vs: Seq<SpecVersionInfo>,
    crate_name: Seq<char>,
    prefix: Seq<char>,
    range: Range,
) -> Seq<SpecCompletion> {
    let order = completion_order(vs, prefix);
    let has_latest = latest_offered_from(vs, prefix, 0) is Some;
    Seq::new(
        order.len(),
        |j: int| version_entry(crate_name, order[j], j, j == 0 && has_latest, range),
    )
}

/// Whether the dates of the versions that completion shows with a date are
/// cut on character boundaries.
pub open spec fn version_dates_cut_cleanly(vs: Seq<SpecVersionInfo>, prefix: Seq<char>) -> bool {
    forall|i: int|
        0 <= i < vs.len() && offered(#[trigger] vs[i], prefix) && !vs[i].yanked
            && !vs[i].is_prerelease && vs[i].pubtime is Some ==> date_cuts_cleanly(
            vs[i].pubtime->0,
        )
}

fn zero_padded(n: u64, w: usize) -> (r: Vec<char>)
    ensures
        r@ == padded(n as nat, w as int),
{
    let d = decimal_chars(n);
    let mut r: Vec<char> = Vec::new();
    let mut k: usize = 0;
    let pad: usize = if d.len() < w {
        w - d.len()
    } else {
        0
    };
    while k < pad
        invariant
            k <= pad,
            r@ == zeros(k as int),
        decreases pad - k,
    {
        r.push('0');
        assert(r@ =~= zeros(k + 1));
        k = k + 1;
    }
    assert(zeros(pad as int) =~= zeros(w - d@.len()));
    push_chars(&mut r, d.as_slice());
    r
}

fn date_part_exec(d: &String) -> (r: Vec<char>)
    ensures
        r@ == date_part(d@),
{
    let dc = chars_of(d.as_str());
    proof {
        crate::text::lemma_utf8_len_le(dc@);
    }
    let n = utf8_len_exec(dc.as_slice());
    let b: u128 = if n < 10 {
        n
    } else {
        10
    };
    let len = dc.len();
    let mut k: usize = 0;
    let mut acc: u128 = 0;
    let mut done = false;
    assert(dc@.take(0) =~= Seq::<char>::empty());
    while k < len && !done
        invariant
            b <= 10,
            len == dc@.len(),
            k <= len,
            acc == utf8_len(dc@.take(k as int)),
            acc <= b,
            done ==> chars_within_from(dc@, b as int, 0) == k,
            !done ==> chars_within_from(dc@, b as int, 0) == chars_within_from(dc@, b as int, k as int),
        decreases len - k, if done { 0int } else { 1int },
    {
        proof {
            crate::text::lemma_utf8_len_take_step(dc@, k as int);
        }
        let w = crate::text::char_len_utf8(dc[k]) as u128;
        if acc + w > b {
            done = true;
        } else {
            acc = acc + w;
            k = k + 1;
        }
    }
    vstd::slice::slice_to_vec(slice_subrange(dc.as_slice(), 0, k))
}

fn version_detail_exec(v: &CrateVersionInfo, is_latest: bool) -> (r: Vec<char>)
    ensures
        r@ == version_detail(v@, is_latest),
{
    let mut r: Vec<char> = Vec::new();
    if is_latest {
        push_str(&mut r, "latest stable");
        if let Some(d) = &v.pubtime {
            push_str(&mut r, " (");
            push_chars(&mut r, date_part_exec(d).as_slice());
            push_str(&mut r, ")");
        }
    } else if v.yanked {
        push_str(&mut r, "yanked");
    } else if v.is_prerelease {
        push_str(&mut r, "pre-release");
    } else if let Some(d) = &v.pubtime {
        push_str(&mut r, "released ");
        push_chars(&mut r, date_part_exec(d).as_slice());
    }
    r
}

fn version_entry_exec(crate_name: &str, v: &CrateVersionInfo, idx: usize, is_latest: bool, range: Range) -> (r:
    CompletionEntry)
    ensures
        r@ == version_entry(crate_name@, v@, idx as int, is_latest, range),
{
    let mut doc: Vec<char> = Vec::new();
    push_str(&mut doc, "### `");
    push_str(&mut doc, crate_name);
    push_str(&mut doc, "` v");
    push_str(&mut doc, v.version.as_str());
    push_str(&mut doc, "\n");
    if is_latest {
        push_str(&mut doc, "**Latest stable release**\n");
    }
    let detail = version_detail_exec(v, is_latest);
    let sort = zero_padded(idx as u64, 5);
    CompletionEntry {
        label: v.version.clone(),
        kind: CompletionKind::Value,
        detail: string_from_chars(detail.as_slice()),
        documentation: Some(string_from_chars(doc.as_slice())),
        sort_text: string_from_chars(sort.as_slice()),
        snippet: false,
        replace_range: range,
        new_text: v.version.clone(),
    }
}

fn date_cuts_exec(d: &String) -> (r: bool)
    ensures
        r == date_cuts_cleanly(d@),
{
    let p = date_part_exec(d);
    let dc = chars_of(d.as_str());
    proof {
        crate::text::lemma_utf8_len_le(dc@);
        crate::text::lemma_utf8_len_le(p@);
    }
    let n = utf8_len_exec(dc.as_slice());
    let b: u128 = if n < 10 {
        n
    } else {
        10
    };
    utf8_len_exec(p.as_slice()) == b
}

/// Whether every publication date that version completion would show can be
/// cut to its first ten bytes on a character boundary (the condition of
/// `version_completions`).
pub fn version_dates_are_whole(prefix: &str, versions: &[CrateVersionInfo]) -> (r: bool)
    ensures
        r == version_dates_cut_cleanly(infos_view(versions@), prefix@),
{
    let ghost iv = infos_view(versions@);
    let p = chars_of(prefix);
    let mut i: usize = 0;
    while i < versions.len()
        invariant
            iv == infos_view(versions@),
            p@ == prefix@,
            i <= versions@.len(),
            forall|j: int|
                0 <= j < i && offered(#[trigger] iv[j], prefix@) && !iv[j].yanked
                    && !iv[j].is_prerelease && iv[j].pubtime is Some ==> date_cuts_cleanly(
                    iv[j].pubtime->0,
                ),
        decreases versions@.len() - i,
    {
        let v = &versions[i];
        assert(iv[i as int] == v@);
        let vc = chars_of(v.version.as_str());
        if (p.len() == 0 || starts_with_exec(vc.as_slice(), p.as_slice())) && !v.yanked
            && !v.is_prerelease {
            if let Some(d) = &v.pubtime {
                if !date_cuts_exec(d) {
                    return false;
                }
            }
        }
        i = i + 1;
    }
    true
}

/// The completions inside a version string of `crate_name`: every version
/// that starts with the text typed so far (all of them when nothing is
/// typed); the latest stable release comes first, marked as such, then the
/// others in the order given (newest first, as the index lists them).
pub fn version_completions(
    crate_name: &str,
    prefix: &str,
    replace_range: Range,
    versions: &[CrateVersionInfo],
) -> (r: Vec<CompletionEntry>)
    requires
        version_dates_cut_cleanly(infos_view(versions@), prefix@),
    ensures
        entries_view(r@) == version_entries(
            infos_view(versions@),
            crate_name@,
            prefix@,
            replace_range,
        ),
        latest_offered_from(infos_view(versions@), prefix@, 0) matches Some(l) ==> (r@.len() > 0
            && r@[0].label@ == versions@[l].version@ && r@[0].sort_text@ == padded(0, 5)),
{
    let ghost iv = infos_view(versions@);
    let p = chars_of(prefix);
    // The latest stable release among the offered versions.
    let mut latest: Option<usize> = None;
    let mut k: usize = 0;
    while k < versions.len() && latest.is_none()
        invariant
            iv == infos_view(versions@),
            p@ == prefix@,
            k <= versions@.len(),
            latest matches Some(l) ==> l < versions@.len() && latest_offered_from(iv, prefix@, 0)
                == Some(l as int),
            latest is None ==> latest_offered_from(iv, prefix@, 0) == latest_offered_from(
                iv,
                prefix@,
                k as int,
            ),
        decreases versions@.len() - k,
    {
        let v = &versions[k];
        assert(iv[k as int] == v@);
        let vc = chars_of(v.version.as_str());
        if (p.len() == 0 || starts_with_exec(vc.as_slice(), p.as_slice())) && !v.yanked
            && !v.is_prerelease {
            latest = Some(k);
        }
        k = k + 1;
    }
    let ghost skip: int = match latest {
        Some(l) => l as int,
        None => -1,
    };
    let ghost has = latest is Some;
    let ghost head: Seq<SpecVersionInfo> = match latest {
        Some(l) => seq![iv[l as int]],
        None => seq![],
    };
    let ghost order = completion_order(iv, prefix@);
    assert(order == head + offered_but_from(iv, prefix@, skip, 0));
    let mut out: Vec<CompletionEntry> = Vec::new();
    if let Some(l) = latest {
        assert(iv[l as int] == versions@[l as int]@);
        out.push(version_entry_exec(crate_name, &versions[l], 0, true, replace_range));
    }
    let ghost mut taken: Seq<SpecVersionInfo> = head;
    assert(entries_view(out@) =~= Seq::new(
        taken.len(),
        |j: int| version_entry(crate_name@, taken[j], j, j == 0 && has, replace_range),
    ));
    let mut i: usize = 0;
    while i < versions.len()
        invariant
            iv == infos_view(versions@),
            p@ == prefix@,
            i <= versions@.len(),
            has == (latest is Some),
            skip == (match latest {
                Some(l) => l as int,
                None => -1,
            }),
            latest matches Some(l) ==> l < versions@.len(),
            order == completion_order(iv, prefix@),
            order == taken + offered_but_from(iv, prefix@, skip, i as int),
            taken.len() == out@.len(),
            has ==> taken.len() >= 1,
            entries_view(out@) == Seq::new(
                taken.len(),
                |j: int| version_entry(crate_name@, taken[j], j, j == 0 && has, replace_range),
            ),
        decreases versions@.len() - i,
    {
        let v = &versions[i];
        assert(iv[i as int] == v@);
        let vc = chars_of(v.version.as_str());
        let not_latest = match latest {
            Some(l) => l != i,
            None => true,
        };
        if (p.len() == 0 || starts_with_exec(vc.as_slice(), p.as_slice())) && not_latest {
            let n = out.len();
            let e = version_entry_exec(crate_name, v, n, false, replace_range);
            let ghost before = entries_view(out@);
            let ghost old_taken = taken;
            out.push(e);
            proof {
                assert(order == taken.push(iv[i as int]) + offered_but_from(
                    iv,
                    prefix@,
                    skip,
                    i + 1,
                )) by {
                    assert(taken + (seq![iv[i as int]] + offered_but_from(iv, prefix@, skip, i + 1))
                        =~= taken.push(iv[i as int]) + offered_but_from(iv, prefix@, skip, i + 1));
                }
                taken = taken.push(iv[i as int]);
                assert(entries_view(out@) =~= before.push(e@));
                assert forall|j: int| 0 <= j < taken.len() implies #[trigger] entries_view(out@)[j]
                    == version_entry(crate_name@, taken[j], j, j == 0 && has, replace_range) by {
                    if j < old_taken.len() {
                        assert(taken[j] == old_taken[j]);
                        assert(entries_view(out@)[j] == before[j]);
                    } else {
                        assert(j == n);
                        assert(taken[j] == iv[i as int]);
                    }
                }
                assert(entries_view(out@) =~= Seq::new(
                    taken.len(),
                    |j: int| version_entry(crate_name@, taken[j], j, j == 0 && has, replace_range),
                ));
            }
        }
        i = i + 1;
    }
    assert(offered_but_from(iv, prefix@, skip, i as int) =~= Seq::<SpecVersionInfo>::empty());
    assert(taken =~= order);
    proof {
        if let Some(l) = latest {
            assert(order[0] == iv[l as int]);
            assert(entries_view(out@)[0] == out@[0]@);
            assert(iv[l as int] == versions@[l as int]@);
        }
    }
    out
}

/// The version shown for a crate found by a search: its `max_version` when
/// known, else the first stable release among the versions fetched, else `1.0`.
pub open spec fn latest_for(max_version: Seq<char>, fetched: Option<Seq<SpecVersionInfo>>) -> Seq<
    char,
> {
    if max_version.len() > 0 {
        max_version
    } else {
        match fetched {
            Some(vs) => match first_candidate_from(vs, true, 0) {
                Some(i) => vs[i].version,
                None => "1.0"@,
            },
            None => "1.0"@,
        }
    }
}

/// Whether the latest version of a search result must be fetched (it has no `max_version`).
pub fn needs_version_lookup(item: &SearchCrateItem) -> (r: bool)
    ensures
        r == (item.max_version@.len() == 0),
{
    item.max_version.as_str().is_empty()
}

/// The version shown for a search result, from the versions fetched for it
/// (`None` when fetching failed or was not needed).
pub fn latest_version_for(max_version: &str, fetched: Option<&[CrateVersionInfo]>) -> (r: String)
    ensures
        r@ == latest_for(
            max_version@,
            match fetched {
                Some(vs) => Some(infos_view(vs@)),
                None => None,
            },
        ),
{
    if !max_version.is_empty() {
        return String::from_str(max_version);
    }
    match fetched {
        Some(vs) => match first_candidate_exec(vs, true) {
            Some(i) => {
                assert(infos_view(vs@)[i as int] == vs@[i as int]@);
                vs[i].version.clone()
            },
            None => String::from_str("1.0"),
        },
        None => String::from_str("1.0"),
    }
}

/// The completion of a crate found by a search, the `idx`-th of the list.
pub open spec fn crate_entry(item: SpecItem, latest: Seq<char>, idx: int, range: Range) -> SpecCompletion {
    SpecCompletion {
        label: item.name,
        kind: CompletionKind::Module,
        detail: "v"@ + latest + " • "@ + match item.description {
            Some(d) => d,
            None => Seq::<char>::empty(),
        },
        documentation: match item.description {
            Some(d) => Some(
                "### **"@ + item.name + "** (v"@ + latest + ")\n\n"@ + d
                    + "\n\n[crates.io](https://crates.io/crates/"@ + item.name + ")"@,
            ),
            None => None,
        },
        sort_text: padded(idx as nat, 4) + "_"@ + item.name,
        snippet: true,
        replace_range: range,
        new_text: item.name + " = \""@ + latest + "\""@,
    }
}

/// The completions of crate names: one per search result, with the version
/// shown for it (`latest[i]` for `results[i]`).
pub fn crate_completions(results: &[SearchCrateItem], latest: &[String], replace_range: Range) -> (r: Vec<
    CompletionEntry,
>)
    requires
        latest@.len() == results@.len(),
    ensures
        r@.len() == results@.len(),
        forall|i: int|
            0 <= i < results@.len() ==> #[trigger] r@[i]@ == crate_entry(
                results@[i]@,
                latest@[i]@,
                i,
                replace_range,
            ),
{
    let mut out: Vec<CompletionEntry> = Vec::new();
    let mut i: usize = 0;
    while i < results.len()
        invariant
            latest@.len() == results@.len(),
            i <= results@.len(),
            out@.len() == i,
            forall|k: int|
                0 <= k < i ==> #[trigger] out@[k]@ == crate_entry(
                    results@[k]@,
                    latest@[k]@,
                    k,
                    replace_range,
                ),
        decreases results@.len() - i,
    {
        let res = &results[i];
        let lv = latest[i].as_str();
        let mut detail: Vec<char> = Vec::new();
        push_str(&mut detail, "v");
        push_str(&mut detail, lv);
        push_str(&mut detail, " • ");
        let documentation = match &res.description {
            Some(d) => {
                push_str(&mut detail, d.as_str());
                let mut doc: Vec<char> = Vec::new();
                push_str(&mut doc, "### **");
                push_str(&mut doc, res.name.as_str());
                push_str(&mut doc, "** (v");
                push_str(&mut doc, lv);
                push_str(&mut doc, ")\n\n");
                push_str(&mut doc, d.as_str());
                push_str(&mut doc, "\n\n[crates.io](https://crates.io/crates/");
                push_str(&mut doc, res.name.as_str());
                push_str(&mut doc, ")");
                Some(string_from_chars(doc.as_slice()))
            },
            None => None,
        };
        let mut sort = zero_padded(i as u64, 4);
        push_str(&mut sort, "_");
        push_str(&mut sort, res.name.as_str());
        let mut new_text: Vec<char> = Vec::new();
        push_str(&mut new_text, res.name.as_str());
        push_str(&mut new_text, " = \"");
        push_str(&mut new_text, lv);
        push_str(&mut new_text, "\"");
        let e = CompletionEntry {
            label: res.name.clone(),
            kind: CompletionKind::Module,
            detail: string_from_chars(detail.as_slice()),
            documentation,
            sort_text: string_from_chars(sort.as_slice()),
            snippet: true,
            replace_range,
            new_text: string_from_chars(new_text.as_slice()),
        };
        proof {
            assert(e@.detail =~= crate_entry(results@[i as int]@, latest@[i as int]@, i as int, replace_range).detail);
            assert(e@.sort_text =~= crate_entry(results@[i as int]@, latest@[i as int]@, i as int, replace_range).sort_text);
            assert(e@.new_text =~= crate_entry(results@[i as int]@, latest@[i as int]@, i as int, replace_range).new_text);
            if res.description is Some {
                assert(e@.documentation->0 =~= crate_entry(results@[i as int]@, latest@[i as int]@, i as int, replace_range).documentation->0);
            }
        }
        out.push(e);
        i = i + 1;
    }
    out
}

/// The characters that make the editor ask for completions.
pub fn trigger_characters() -> (r: Vec<String>)
    ensures
        r@.map_values(|s: String| s@) == seq!["\""@, "'"@, "."@, "="@, " "@],
{
    let r = vec![
        String::from_str("\""),
        String::from_str("'"),
        String::from_str("."),
        String::from_str("="),
        String::from_str(" "),
    ];
    assert(r@.map_values(|s: String| s@) =~= seq!["\""@, "'"@, "."@, "="@, " "@]);
    r
}

} // verus!
