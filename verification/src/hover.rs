//! What the server shows about a dependency: the hover with its clickable
//! version links, the quick fixes that replace the version, and the inline
//! hint that tells whether the version is up to date.
use vstd::prelude::*;
use vstd::utf8::encode_utf8;
use crate::position::Position;
use crate::text::{
    chars_of, string_from_chars, push_str, push_chars, trim, trimmed, lines_of, split_lines, views,
};
use crate::toml_model::{SpecDependency, dependencies_of, dep_at, dep_at_from};
use crate::toml_parser::{CargoTomlParser, ParsedDependency, deps_view};
use crate::versions::{
    CrateVersionInfo, SpecVersionInfo, VersionStatus, SpecVersionStatus, infos_view, decimal,
    decimal_chars, version_status,
};
use crate::crates_client::CratesClient;
use crate::percent::{percent_encoding, url_encode};

verus! {

// ---------------------------------------------------------------------------
// Hover
// ---------------------------------------------------------------------------

/// The text of line `l` of a document (empty past its end).
pub open spec fn line_text(text: Seq<char>, l: int) -> Seq<char> {
    if 0 <= l < lines_of(text).len() {
        lines_of(text)[l]
    } else {
        Seq::empty()
    }
}

/// Whether a line shows no hover: it is blank or a comment.
pub open spec fn is_quiet_line(line: Seq<char>) -> bool {
    trim(line).len() == 0 || trim(line)[0] == '#'
}

/// The dependency a hover at `pos` is about: the one declared on that line,
/// unless the line is blank or a comment.
pub open spec fn hover_target_of(text: Seq<char>, pos: Position) -> Option<SpecDependency> {
    if is_quiet_line(line_text(text, pos.line as int)) {
        None
    } else {
        match dep_at(dependencies_of(text), pos.line) {
            Some(i) => Some(dependencies_of(text)[i]),
            None => None,
        }
    }
}

proof fn lemma_dep_at_from_bound(deps: Seq<SpecDependency>, line: u32, i: int)
    requires
        0 <= i,
    ensures
        dep_at_from(deps, line, i) matches Some(k) ==> i <= k < deps.len(),
    decreases deps.len() - i,
{
    if i < deps.len() && !(deps[i].full_range.start.line <= line <= deps[i].full_range.end.line) {
        lemma_dep_at_from_bound(deps, line, i + 1);
    }
}

/// The dependency that a hover at `pos` in a manifest is about, if any.
pub fn hover_target(text: &str, pos: &Position) -> (r: Option<ParsedDependency>)
    requires
        text@.len() <= i32::MAX,
    ensures
        match r {
            Some(d) => hover_target_of(text@, *pos) == Some(d@),
            None => hover_target_of(text@, *pos) is None,
        },
{
    let chars = chars_of(text);
    let lines = split_lines(chars.as_slice());
    let l = pos.line as usize;
    let line: Vec<char> = if l < lines.len() {
        assert(views(lines@)[l as int] == lines@[l as int]@);
        vstd::slice::slice_to_vec(lines[l].as_slice())
    } else {
        Vec::new()
    };
    assert(line@ == line_text(text@, pos.line as int));
    let t = trimmed(line.as_slice());
    if t.len() == 0 || t[0] == '#' {
        return None;
    }
    let deps = CargoTomlParser::parse_dependencies(text);
    match CargoTomlParser::find_dependency_at(deps.as_slice(), pos) {
        Some(d) => {
            proof {
                lemma_dep_at_from_bound(deps_view(deps@), pos.line, 0);
                let i = dep_at(deps_view(deps@), pos.line)->0;
                assert(deps_view(deps@)[i] == deps@[i]@);
            }
            Some(d)
        },
        None => None,
    }
}

/// The query of a version link: the document, the crate and the version,
/// each percent-encoded.
pub open spec fn link_query(uri: Seq<char>, crate_name: Seq<char>, version: Seq<char>) -> Seq<
    char,
> {
    "uri="@ + percent_encoding(encode_utf8(uri)) + "&crate="@ + percent_encoding(
        encode_utf8(crate_name),
    ) + "&version="@ + percent_encoding(encode_utf8(version))
}

/// The link that replaces the version of `crate_name` in the document at
/// `uri` by `version`, served on `port` of the local machine.
pub open spec fn replace_link(port: u16, uri: Seq<char>, crate_name: Seq<char>, version: Seq<char>) -> Seq<
    char,
> {
    "http://127.0.0.1:"@ + decimal(port as nat) + "/replace?"@ + link_query(uri, crate_name, version)
}

/// The mark after the `idx`-th version of the list.
pub open spec fn version_tag(v: SpecVersionInfo, idx: int, current: Option<Seq<char>>) -> Seq<char> {
    if current == Some(v.version) {
        " *(current)*"@
    } else if idx == 0 && !v.yanked && !v.is_prerelease {
        " *(latest)*"@
    } else if v.yanked {
        " *(yanked)*"@
    } else if v.is_prerelease {
        " *(pre-release)*"@
    } else {
        Seq::empty()
    }
}

/// The markdown line of the `idx`-th version: a link that replaces the
/// current version by it, and its mark.
pub open spec fn version_line(
    port: u16,
    uri: Seq<char>,
    crate_name: Seq<char>,
    current: Option<Seq<char>>,
    v: SpecVersionInfo,
    idx: int,
) -> Seq<char> {
    "- ["@ + v.version + "]("@ + replace_link(port, uri, crate_name, v.version) + ")"@
        + version_tag(v, idx, current) + "\n"@
}

/// The lines of the first `n` versions.
pub open spec fn version_lines(
    port: u16,
    uri: Seq<char>,
    crate_name: Seq<char>,
    current: Option<Seq<char>>,
    vs: Seq<SpecVersionInfo>,
    n: int,
) -> Seq<char>
    decreases n,
{
    if n <= 0 {
        Seq::empty()
    } else {
        version_lines(port, uri, crate_name, current, vs, n - 1) + version_line(
            port,
            uri,
            crate_name,
            current,
            vs[n - 1],
            n - 1,
        )
    }
}

/// How many versions a hover or the quick fixes offer at most.
pub open spec fn listed_count(vs: Seq<SpecVersionInfo>) -> int {
    if vs.len() < 20 {
        vs.len() as int
    } else {
        20
    }
}

/// The text of an optional string.
pub open spec fn str_opt(o: Option<&str>) -> Option<Seq<char>> {
    match o {
        Some(c) => Some(c@),
        None => None,
    }
}

/// Whether the version requirement `current` is exactly `version`.
fn is_current_version(current: Option<&str>, version: &String) -> (r: bool)
    ensures
        r == (str_opt(current) == Some(version@)),
{
    match current {
        Some(c) => {
            let a = chars_of(c);
            let b = chars_of(version.as_str());
            crate::text::chars_eq(a.as_slice(), b.as_slice())
        },
        None => false,
    }
}

/// Appends the markdown line of the `idx`-th version.
fn push_version_line(
    md: &mut Vec<char>,
    port: u16,
    port_text: &Vec<char>,
    uri_enc: &String,
    crate_enc: &String,
    current: Option<&str>,
    v: &CrateVersionInfo,
    idx: usize,
    Ghost(uri): Ghost<Seq<char>>,
    Ghost(crate_name): Ghost<Seq<char>>,
)
    requires
        port_text@ == decimal(port as nat),
        uri_enc@ == percent_encoding(encode_utf8(uri)),
        crate_enc@ == percent_encoding(encode_utf8(crate_name)),
    ensures
        final(md)@ == old(md)@ + version_line(
            port,
            uri,
            crate_name,
            str_opt(current),
            v@,
            idx as int,
        ),
{
    let version_enc = url_encode(v.version.as_str());
    push_str(md, "- [");
    push_str(md, v.version.as_str());
    push_str(md, "](http://127.0.0.1:");
    push_chars(md, port_text.as_slice());
    push_str(md, "/replace?uri=");
    push_str(md, uri_enc.as_str());
    push_str(md, "&crate=");
    push_str(md, crate_enc.as_str());
    push_str(md, "&version=");
    push_str(md, version_enc.as_str());
    push_str(md, ")");
    if is_current_version(current, &v.version) {
        push_str(md, " *(current)*");
    } else if idx == 0 && !v.yanked && !v.is_prerelease {
        push_str(md, " *(latest)*");
    } else if v.yanked {
        push_str(md, " *(yanked)*");
    } else if v.is_prerelease {
        push_str(md, " *(pre-release)*");
    }
    push_str(md, "\n");
    proof {
        reveal_strlit("](http://127.0.0.1:");
        reveal_strlit("](");
        reveal_strlit("http://127.0.0.1:");
        reveal_strlit("/replace?uri=");
        reveal_strlit("/replace?");
        reveal_strlit("uri=");
        assert("](http://127.0.0.1:"@ =~= "]("@ + "http://127.0.0.1:"@);
        assert("/replace?uri="@ =~= "/replace?"@ + "uri="@);
        assert(final(md)@ =~= old(md)@ + version_line(
            port,
            uri,
            crate_name,
            str_opt(current),
            v@,
            idx as int,
        ));
    }
}

/// The hover of a dependency: its crate name as a heading, then one line per
/// version among the first twenty, or a note when the versions could not be
/// fetched.
pub open spec fn hover_markdown_of(
    port: u16,
    uri: Seq<char>,
    crate_name: Seq<char>,
    current: Option<Seq<char>>,
    versions: Option<Seq<SpecVersionInfo>>,
) -> Seq<char> {
    "### "@ + crate_name + "\n\n"@ + match versions {
        Some(vs) => version_lines(port, uri, crate_name, current, vs, listed_count(vs)),
        None => "*Could not fetch versions from crates.io*\n"@,
    }
}

/// The hover text of the dependency `crate_name` of the document `uri`,
/// whose version requirement is `current`, given its versions (`None` when
/// they could not be fetched); the links point at the local port `port`.
pub fn hover_markdown(
    port: u16,
    uri: &str,
    crate_name: &str,
    current: Option<&str>,
    versions: Option<&[CrateVersionInfo]>,
) -> (r: String)
    ensures
        r@ == hover_markdown_of(
            port,
            uri@,
            crate_name@,
            str_opt(current),
            match versions {
                Some(vs) => Some(infos_view(vs@)),
                None => None,
            },
        ),
{
    let ghost cur = str_opt(current);
    let mut md: Vec<char> = Vec::new();
    push_str(&mut md, "### ");
    push_str(&mut md, crate_name);
    push_str(&mut md, "\n\n");
    let ghost head = md@;
    match versions {
        Some(vs) => {
            let ghost iv = infos_view(vs@);
            let n: usize = if vs.len() < 20 {
                vs.len()
            } else {
                20
            };
            let port_text = decimal_chars(port as u64);
            let uri_enc = url_encode(uri);
            let crate_enc = url_encode(crate_name);
            let mut i: usize = 0;
            while i < n
                invariant
                    iv == infos_view(vs@),
                    cur == str_opt(current),
                    n == listed_count(iv),
                    n <= vs@.len(),
                    i <= n,
                    port_text@ == decimal(port as nat),
                    uri_enc@ == percent_encoding(encode_utf8(uri@)),
                    crate_enc@ == percent_encoding(encode_utf8(crate_name@)),
                    md@ == head + version_lines(port, uri@, crate_name@, cur, iv, i as int),
                decreases n - i,
            {
                let v = &vs[i];
                assert(iv[i as int] == v@);
                push_version_line(
                    &mut md,
                    port,
                    &port_text,
                    &uri_enc,
                    &crate_enc,
                    current,
                    v,
                    i,
                    Ghost(uri@),
                    Ghost(crate_name@),
                );
                assert(md@ =~= head + version_lines(port, uri@, crate_name@, cur, iv, i + 1));
                i = i + 1;
            }
        },
        None => {
            push_str(&mut md, "*Could not fetch versions from crates.io*\n");
        },
    }
    string_from_chars(md.as_slice())
}

// ---------------------------------------------------------------------------
// Quick fixes
// ---------------------------------------------------------------------------

/// A quick fix that replaces the version of a dependency.
pub struct VersionAction {
    pub title: String,
    /// The version written in place of the current one.
    pub new_text: String,
    pub is_preferred: bool,
}

pub struct SpecAction {
    pub title: Seq<char>,
    pub new_text: Seq<char>,
    pub is_preferred: bool,
}

impl View for VersionAction {
    type V = SpecAction;

    open spec fn view(&self) -> SpecAction {
        SpecAction { title: self.title@, new_text: self.new_text@, is_preferred: self.is_preferred }
    }
}

pub open spec fn actions_view(s: Seq<VersionAction>) -> Seq<SpecAction> {
    s.map_values(|a: VersionAction| a@)
}

/// The quick fix for the `idx`-th version; `first` tells whether no fix was
/// offered before it.
pub open spec fn version_action(v: SpecVersionInfo, idx: int, first: bool) -> SpecAction {
    let is_latest = idx == 0 && !v.yanked && !v.is_prerelease;
    SpecAction {
        title: "Replace with v"@ + v.version + if is_latest {
            " (latest)"@
        } else {
            Seq::empty()
        },
        new_text: v.version,
        is_preferred: is_latest && first,
    }
}

/// The quick fixes for the first `n` versions: each version but the current
/// one, in order.
pub open spec fn version_actions_upto(
    vs: Seq<SpecVersionInfo>,
    current: Option<Seq<char>>,
    n: int,
) -> Seq<SpecAction>
    decreases n,
{
    if n <= 0 {
        Seq::empty()
    } else {
        let before = version_actions_upto(vs, current, n - 1);
        if current == Some(vs[n - 1].version) {
            before
        } else {
            before.push(version_action(vs[n - 1], n - 1, before.len() == 0))
        }
    }
}

proof fn lemma_actions_shape(vs: Seq<SpecVersionInfo>, current: Option<Seq<char>>, n: int)
    requires
        0 <= n <= vs.len(),
    ensures
        version_actions_upto(vs, current, n).len() <= n,
        forall|k: int|
            0 <= k < version_actions_upto(vs, current, n).len() ==> Some(
                (#[trigger] version_actions_upto(vs, current, n)[k]).new_text,
            ) != current,
        forall|k: int|
            0 < k < version_actions_upto(vs, current, n).len() ==> !(
            #[trigger] version_actions_upto(vs, current, n)[k]).is_preferred,
    decreases n,
{
    if n > 0 {
        lemma_actions_shape(vs, current, n - 1);
        let before = version_actions_upto(vs, current, n - 1);
        if current != Some(vs[n - 1].version) {
            let a = version_action(vs[n - 1], n - 1, before.len() == 0);
            assert(before.len() > 0 ==> !a.is_preferred);
            assert forall|k: int|
                0 < k < before.push(a).len() implies !(#[trigger] before.push(a)[k]).is_preferred by {
                if k < before.len() {
                    assert(before.push(a)[k] == before[k]);
                }
            }
            assert forall|k: int|
                0 <= k < before.push(a).len() implies Some((#[trigger] before.push(a)[k]).new_text)
                != current by {
                if k < before.len() {
                    assert(before.push(a)[k] == before[k]);
                }
            }
        }
    }
}

/// The quick fixes for a dependency whose version requirement is `current`:
/// "Replace with v…" for each of the first twenty versions but the current
/// one, the latest release marked and preferred. No fix writes the current
/// version, and only the first fix can be preferred.
pub fn version_actions(current: Option<&str>, versions: &[CrateVersionInfo]) -> (r: Vec<
    VersionAction,
>)
    ensures
        actions_view(r@) == version_actions_upto(
            infos_view(versions@),
            str_opt(current),
            listed_count(infos_view(versions@)),
        ),
        forall|k: int|
            0 <= k < r@.len() ==> match current {
                Some(c) => (#[trigger] r@[k]).new_text@ != c@,
                None => true,
            },
        forall|k: int| 0 < k < r@.len() ==> !(#[trigger] r@[k]).is_preferred,
        r@.len() <= 20,
{
    let ghost cur = str_opt(current);
    let ghost iv = infos_view(versions@);
    let n: usize = if versions.len() < 20 {
        versions.len()
    } else {
        20
    };
    let mut out: Vec<VersionAction> = Vec::new();
    let mut i: usize = 0;
    while i < n
        invariant
            iv == infos_view(versions@),
            cur == str_opt(current),
            n == listed_count(iv),
            n <= versions@.len(),
            i <= n,
            actions_view(out@) == version_actions_upto(iv, cur, i as int),
        decreases n - i,
    {
        let v = &versions[i];
        assert(iv[i as int] == v@);
        let is_current = is_current_version(current, &v.version);
        if !is_current {
            let is_latest = i == 0 && !v.yanked && !v.is_prerelease;
            let mut title: Vec<char> = Vec::new();
            push_str(&mut title, "Replace with v");
            push_str(&mut title, v.version.as_str());
            if is_latest {
                push_str(&mut title, " (latest)");
            }
            let a = VersionAction {
                title: string_from_chars(title.as_slice()),
                new_text: v.version.clone(),
                is_preferred: is_latest && out.len() == 0,
            };
            let ghost before = actions_view(out@);
            assert(before.len() == out@.len());
            out.push(a);
            assert(actions_view(out@) =~= before.push(a@));
            assert(a@ == version_action(iv[i as int], i as int, before.len() == 0));
            assert(version_actions_upto(iv, cur, i + 1) == before.push(
                version_action(iv[i as int], i as int, before.len() == 0),
            ));
        } else {
            assert(version_actions_upto(iv, cur, i + 1) == version_actions_upto(iv, cur, i as int));
        }
        i = i + 1;
    }
    proof {
        lemma_actions_shape(iv, cur, n as int);
        assert forall|k: int| 0 <= k < out@.len() implies match current {
            Some(c) => (#[trigger] out@[k]).new_text@ != c@,
            None => true,
        } by {
            assert(actions_view(out@)[k] == out@[k]@);
        }
        assert forall|k: int| 0 < k < out@.len() implies !(#[trigger] out@[k]).is_preferred by {
            assert(actions_view(out@)[k] == out@[k]@);
        }
    }
    out
}

// ---------------------------------------------------------------------------
// Inline hints
// ---------------------------------------------------------------------------

/// An inline hint after a dependency's version.
pub struct HintEntry {
    pub position: Position,
    pub label: String,
    pub tooltip: String,
}

pub struct SpecHint {
    pub position: Position,
    pub label: Seq<char>,
    pub tooltip: Seq<char>,
}

impl View for HintEntry {
    type V = SpecHint;

    open spec fn view(&self) -> SpecHint {
        SpecHint { position: self.position, label: self.label@, tooltip: self.tooltip@ }
    }
}

/// Whether a dependency gets a version hint: it has a version of its own and
/// does not come from a path, a git repository or the workspace.
pub open spec fn wants_hint(d: SpecDependency) -> bool {
    d.version is Some && !d.is_path && !d.is_git && !d.is_workspace
}

/// Whether the versions of a dependency are to be fetched for its hint.
pub fn wants_version_hint(dep: &ParsedDependency) -> (r: bool)
    ensures
        r == wants_hint(dep@),
{
    dep.version.is_some() && !dep.is_path && !dep.is_git && !dep.is_workspace
}

/// The hint for a version status: `⭡ latest` when outdated, `✓` when up to
/// date, none otherwise.
pub open spec fn hint_of(position: Position, status: SpecVersionStatus) -> Option<SpecHint> {
    match status {
        SpecVersionStatus::Outdated { current, latest, .. } => Some(
            SpecHint {
                position,
                label: " ⭡ "@ + latest,
                tooltip: "Update available: "@ + current + " ➔ "@ + latest,
            },
        ),
        SpecVersionStatus::UpToDate { .. } => Some(
            SpecHint { position, label: " ✓"@, tooltip: "Up to date"@ },
        ),
        _ => None,
    }
}

/// The hint of a dependency, given the versions fetched for it.
pub fn version_hint(dep: &ParsedDependency, versions: &[CrateVersionInfo]) -> (r: Option<HintEntry>)
    requires
        wants_hint(dep@),
    ensures
        match r {
            Some(h) => hint_of(
                dep@.hint_position,
                version_status(dep@.version->0, infos_view(versions@)),
            ) == Some(h@),
            None => hint_of(
                dep@.hint_position,
                version_status(dep@.version->0, infos_view(versions@)),
            ) is None,
        },
{
    let req = match &dep.version {
        Some(v) => v.as_str(),
        None => "",
    };
    let status = CratesClient::check_version_status(req, versions);
    match status {
        VersionStatus::Outdated { current, latest, .. } => {
            let mut label: Vec<char> = Vec::new();
            push_str(&mut label, " ⭡ ");
            push_str(&mut label, latest.as_str());
            let mut tooltip: Vec<char> = Vec::new();
            push_str(&mut tooltip, "Update available: ");
            push_str(&mut tooltip, current.as_str());
            push_str(&mut tooltip, " ➔ ");
            push_str(&mut tooltip, latest.as_str());
            Some(
                HintEntry {
                    position: dep.hint_position,
                    label: string_from_chars(label.as_slice()),
                    tooltip: string_from_chars(tooltip.as_slice()),
                },
            )
        },
        VersionStatus::UpToDate { .. } => Some(
            HintEntry {
                position: dep.hint_position,
                label: String::from_str(" ✓"),
                tooltip: String::from_str("Up to date"),
            },
        ),
        _ => None,
    }
}

} // verus!
