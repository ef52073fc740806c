//! Release versions: reading release tags as semantic versions, picking the
//! newest release, and the update reminder kept between starts.
use vstd::prelude::*;

use crate::text::{push_str, str_eq};

verus! {

/// A semantic version, as the `semver` crate parses it.
#[verifier::external_type_specification]
#[verifier::external_body]
pub struct ExVersion(semver::Version);

/// Whether `semver::Version::parse` accepts `text`.
pub uninterp spec fn semver_parses(text: Seq<char>) -> bool;

/// Whether the version parsed from `a` is greater than the one parsed from
/// `b`, in the total order of `semver::Version`.
pub uninterp spec fn semver_greater(a: Seq<char>, b: Seq<char>) -> bool;

/// A version together with the text it was parsed from.
pub struct ParsedVersion {
    text: String,
    version: semver::Version,
}

impl ParsedVersion {
    /// The text the version was parsed from.
    pub closed spec fn text(&self) -> Seq<char> {
        self.text@
    }

    /// The text the version was parsed from.
    pub fn as_str(&self) -> (s: &str)
        ensures
            s@ == self.text(),
    {
        self.text.as_str()
    }

    /// The version parsed from the text.
    pub closed spec fn parsed(&self) -> semver::Version {
        self.version
    }

    /// The parsed version.
    pub fn version(&self) -> (v: &semver::Version)
        ensures
            *v == self.parsed(),
    {
        &self.version
    }
}

/// Parses `text` with `semver::Version::parse`.  The contract claims that
/// the parse succeeds exactly when `semver_parses` holds of the text, that
/// the version remembers the text it came from, and that a parsed version
/// is not greater than itself (the derived `Ord` of `Version` is a total
/// order, and parsing is deterministic).
#[verifier::external_body]
fn parse_semver(text: &str) -> (r: Option<ParsedVersion>)
    ensures
        r is Some <==> semver_parses(text@),
        r matches Some(p) ==> p.text() == text@,
        r is Some ==> !semver_greater(text@, text@),
{
    match semver::Version::parse(text) {
        Ok(version) => Some(ParsedVersion { text: text.to_string(), version }),
        Err(_) => None,
    }
}

/// Compares two parsed versions with `>` of `semver::Version`, whose order
/// is derived and total.  The contract claims the result is
/// `semver_greater` of the two texts, that a text is never greater than
/// itself (parsing is deterministic and `>` irreflexive), that `>` is
/// asymmetric, and that when `a` is not greater than `b`, every version
/// greater than `b` is greater than `a` (`>` of a total order is
/// transitive).
#[verifier::external_body]
fn version_greater(a: &ParsedVersion, b: &ParsedVersion) -> (r: bool)
    ensures
        r == semver_greater(a.text(), b.text()),
        a.text() == b.text() ==> !r,
        r ==> !semver_greater(b.text(), a.text()),
        !r ==> forall|c: Seq<char>|
            semver_parses(c) && #[trigger] semver_greater(c, b.text()) ==> semver_greater(c, a.text()),
{
    a.version > b.version
}

/// A release tag without its leading `v`, if it has one.
pub open spec fn tag_version_text(tag: Seq<char>) -> Seq<char> {
    if tag.len() > 0 && tag[0] == 'v' {
        tag.skip(1)
    } else {
        tag
    }
}

/// Whether a tag names a semantic version (with or without a leading `v`).
pub open spec fn tag_is_version(tag: Seq<char>) -> bool {
    semver_parses(tag_version_text(tag))
}

/// Whether `latest` names a version greater than `current`; false when
/// either is not a version.
pub open spec fn newer(current: Seq<char>, latest: Seq<char>) -> bool {
    tag_is_version(current) && tag_is_version(latest) && semver_greater(
        tag_version_text(latest),
        tag_version_text(current),
    )
}

/// Reads a release tag as a version: a leading `v` is dropped.
pub fn parse_version_tag(tag: &str) -> (r: Option<ParsedVersion>)
    ensures
        r is Some <==> tag_is_version(tag@),
        r matches Some(p) ==> p.text() == tag_version_text(tag@),
        r is Some ==> !semver_greater(tag_version_text(tag@), tag_version_text(tag@)),
{
    let v = crate::text::chars_of(tag);
    if v.len() > 0 && v[0] == 'v' {
        let rest = crate::text::string_from_range(&v, 1, v.len());
        assert(rest@ =~= tag@.skip(1));
        parse_semver(rest.as_str())
    } else {
        parse_semver(tag)
    }
}

/// Whether the release `latest` is newer than the running `current`.  A
/// release is never newer than itself, whatever form its tag takes, and of
/// two releases at most one is newer than the other.
pub fn is_newer_version(current: &str, latest: &str) -> (r: bool)
    ensures
        r == newer(current@, latest@),
        tag_version_text(current@) == tag_version_text(latest@) ==> !r,
        r ==> !newer(latest@, current@),
{
    match (parse_version_tag(current), parse_version_tag(latest)) {
        (Some(c), Some(l)) => version_greater(&l, &c),
        _ => false,
    }
}

/// The newest of the tags that name versions, as `Iterator::max_by` picks
/// it: a later tag replaces the best so far unless the best so far is
/// greater.  Entries without a tag, or whose tag is not a version, are
/// passed over.
pub open spec fn best_tag(tags: Seq<Option<Seq<char>>>) -> Option<Seq<char>>
    decreases tags.len(),
{
    if tags.len() == 0 {
        None
    } else {
        let best = best_tag(tags.drop_last());
        match tags.last() {
            Some(t) => if tag_is_version(t) {
                match best {
                    Some(b) => if semver_greater(tag_version_text(b), tag_version_text(t)) {
                        Some(b)
                    } else {
                        Some(t)
                    },
                    None => Some(t),
                }
            } else {
                best
            },
            None => best,
        }
    }
}

/// The view of a list of optional strings.
pub open spec fn opt_views(xs: Seq<Option<String>>) -> Seq<Option<Seq<char>>> {
    xs.map_values(
        |x: Option<String>|
            match x {
                Some(s) => Some(s@),
                None => None,
            },
    )
}

/// A copy of `s`.
fn copy_string(s: &String) -> (out: String)
    ensures
        out@ == s@,
{
    let mut out = String::new();
    push_str(&mut out, s.as_str());
    out
}

/// Entry `i` of `tags` is a tag that names a version.
pub open spec fn version_tag_at(tags: Seq<Option<Seq<char>>>, i: int) -> bool {
    0 <= i < tags.len() && tags[i] is Some && tag_is_version(tags[i]->0)
}

/// `t` is the newest version among `tags`: it is one of them, it names a
/// version, and no tag of the list names a greater version.
pub open spec fn newest_of(tags: Seq<Option<Seq<char>>>, t: Seq<char>) -> bool {
    &&& exists|i: int| 0 <= i < tags.len() && tags[i] == Some(t)
    &&& tag_is_version(t)
    &&& forall|i: int|
        #[trigger] version_tag_at(tags, i) ==> !semver_greater(
            tag_version_text(tags[i]->0),
            tag_version_text(t),
        )
}

/// The newest release among the tag names of a release list: a tag of the
/// list that no other version tag of it exceeds, or none when no tag names
/// a version.
pub fn highest_tag_among(tag_names: &[Option<String>]) -> (r: Option<String>)
    ensures
        match r {
            Some(t) => best_tag(opt_views(tag_names@)) == Some(t@),
            None => best_tag(opt_views(tag_names@)) is None,
        },
        r is None <==> !exists|i: int| version_tag_at(opt_views(tag_names@), i),
        r matches Some(t) ==> newest_of(opt_views(tag_names@), t@),
{
    let ghost all = opt_views(tag_names@);
    let mut best: Option<(String, ParsedVersion)> = None;
    let mut i: usize = 0;
    while i < tag_names.len()
        invariant
            0 <= i <= tag_names@.len(),
            all == opt_views(tag_names@),
            match best {
                Some((t, p)) => best_tag(all.take(i as int)) == Some(t@) && p.text()
                    == tag_version_text(t@) && (exists|j: int| 0 <= j < i && all[j] == Some(t@))
                    && tag_is_version(t@) && forall|j: int|
                    0 <= j < i && #[trigger] version_tag_at(all, j) ==> !semver_greater(
                        tag_version_text(all[j]->0),
                        tag_version_text(t@),
                    ),
                None => best_tag(all.take(i as int)) is None && forall|j: int|
                    0 <= j < i ==> !#[trigger] version_tag_at(all, j),
            },
        decreases tag_names@.len() - i,
    {
        assert(all.take(i + 1).drop_last() =~= all.take(i as int));
        assert(all.take(i + 1).last() == all[i as int]);
        assert(all[i as int] == match tag_names@[i as int] {
            Some(s) => Some(s@),
            None => None::<Seq<char>>,
        });
        let ghost prev_best = best;
        match &tag_names[i] {
            Some(tag) => {
                match parse_version_tag(tag.as_str()) {
                    Some(p) => {
                        let replace = match &best {
                            Some((_, bp)) => !version_greater(bp, &p),
                            None => true,
                        };
                        if replace {
                            proof {
                                if let Some((bt, bp)) = prev_best {
                                    assert forall|j: int|
                                        0 <= j < i + 1 && #[trigger] version_tag_at(all, j) implies !semver_greater(
                                        tag_version_text(all[j]->0),
                                        tag_version_text(tag@),
                                    ) by {
                                        if j < i {
                                            let c = tag_version_text(all[j]->0);
                                            assert(semver_parses(c));
                                            if semver_greater(c, p.text()) {
                                                assert(semver_greater(c, bp.text()));
                                            }
                                        }
                                    }
                                }
                            }
                            best = Some((copy_string(tag), p));
                        } else {
                            proof {
                                let (bt, bp) = prev_best->0;
                                assert(!semver_greater(p.text(), bp.text()));
                            }
                        }
                    },
                    None => {
                        assert(!version_tag_at(all, i as int));
                    },
                }
            },
            None => {
                assert(!version_tag_at(all, i as int));
            },
        }
        i += 1;
    }
    assert(all.take(tag_names@.len() as int) =~= all);
    let ghost fin = best;
    proof {
        if let Some((t, _)) = fin {
            let j = choose|j: int| 0 <= j < tag_names@.len() && all[j] == Some(t@);
            assert(version_tag_at(all, j));
        }
    }
    match best {
        Some((t, _)) => Some(t),
        None => None,
    }
}

/// The `tag_name` of each release in a release list as GitHub's API writes
/// it (a JSON array of objects): `None` when the text is not a JSON array;
/// for each release, its `tag_name` when that is a string.
pub uninterp spec fn release_tag_names(body: Seq<char>) -> Option<Seq<Option<Seq<char>>>>;

/// Reads the tag names of a release list with `serde_json::from_str` into a
/// list of JSON values, taking each value's `tag_name` field when it is a
/// string.  The result is named by `release_tag_names`; JSON parsing is not
/// stated here.
#[verifier::external_body]
fn parse_release_tag_names(body: &str) -> (r: Option<Vec<Option<String>>>)
    ensures
        match r {
            Some(v) => release_tag_names(body@) == Some(opt_views(v@)),
            None => release_tag_names(body@) is None,
        },
{
    serde_json::from_str::<Vec<serde_json::Value>>(body).ok().map(|releases| {
        releases
            .iter()
            .map(|release| release.get("tag_name").and_then(|t| t.as_str()).map(|t| t.to_string()))
            .collect()
    })
}

/// The newest release in a release list as GitHub's API writes it: none
/// when the text is not a release list or no tag names a version.
pub fn highest_release_tag(body: &str) -> (r: Option<String>)
    ensures
        match release_tag_names(body@) {
            None => r is None,
            Some(names) => match r {
                Some(t) => best_tag(names) == Some(t@),
                None => best_tag(names) is None,
            },
        },
        match release_tag_names(body@) {
            None => true,
            Some(names) => (r is None <==> !exists|i: int| version_tag_at(names, i)) && (r matches Some(
                t,
            ) ==> newest_of(names, t@)),
        },
{
    match parse_release_tag_names(body) {
        None => None,
        Some(names) => highest_tag_among(names.as_slice()),
    }
}

/// Where release pages live.
pub const RELEASES_URL: &'static str = "https://github.com/iamazy/termua/releases/tag";

/// What an update check found.
#[derive(Clone, Debug, PartialEq, Eq)]
pub enum CheckResult {
    UpdateAvailable { tag: String, url: String },
    UpToDate,
}

/// The outcome of a check that found `tag` as the newest release while
/// `current` runs: an update, with the release page, when `tag` is newer.
pub fn check_result_for(current: &str, tag: String) -> (r: CheckResult)
    ensures
        newer(current@, tag@) ==> (r matches CheckResult::UpdateAvailable { tag: t, url: u } && t@
            == tag@ && u@ == RELEASES_URL@ + "/"@ + tag@),
        !newer(current@, tag@) ==> r == CheckResult::UpToDate,
{
    if is_newer_version(current, tag.as_str()) {
        let mut url = String::new();
        push_str(&mut url, RELEASES_URL);
        push_str(&mut url, "/");
        push_str(&mut url, tag.as_str());
        CheckResult::UpdateAvailable { tag, url }
    } else {
        CheckResult::UpToDate
    }
}

/// The update reminder remembered between starts.
#[derive(Clone, Debug, PartialEq, Eq)]
pub struct StartupUpdate {
    pub tag: String,
    pub url: String,
    pub suppressed: bool,
}

/// The reminder to show at start-up: the remembered release, unless the
/// user silenced it or it is not newer than the running version.
pub fn startup_update_to_show(saved: StartupUpdate, current: &str) -> (r: Option<CheckResult>)
    ensures
        (!saved.suppressed && newer(current@, saved.tag@)) ==> (r matches Some(
            CheckResult::UpdateAvailable { tag, url },
        ) && tag@ == saved.tag@ && url@ == saved.url@),
        !(!saved.suppressed && newer(current@, saved.tag@)) ==> r is None,
{
    if !saved.suppressed && is_newer_version(current, saved.tag.as_str()) {
        Some(CheckResult::UpdateAvailable { tag: saved.tag, url: saved.url })
    } else {
        None
    }
}

/// The reminder to remember after a check found release `tag` at `url`:
/// silenced only if the user had silenced this same release.
pub fn startup_update_after_check(previous: Option<&StartupUpdate>, tag: &str, url: &str) -> (r: StartupUpdate)
    ensures
        r.tag@ == tag@,
        r.url@ == url@,
        r.suppressed == match previous {
            Some(p) => p.tag@ == tag@ && p.suppressed,
            None => false,
        },
{
    let suppressed = match previous {
        Some(p) => str_eq(p.tag.as_str(), tag) && p.suppressed,
        None => false,
    };
    let mut t = String::new();
    push_str(&mut t, tag);
    let mut u = String::new();
    push_str(&mut u, url);
    StartupUpdate { tag: t, url: u, suppressed }
}

/// The reminder to remember when the user silences (or un-silences) the
/// reminder for release `tag`: the remembered one when it is for that
/// release, else a fresh one for `tag` at `url`.
pub fn startup_update_with_suppression(
    previous: Option<StartupUpdate>,
    tag: &str,
    url: &str,
    suppressed: bool,
) -> (r: StartupUpdate)
    ensures
        r.suppressed == suppressed,
        match previous {
            Some(p) if p.tag@ == tag@ => r.tag@ == p.tag@ && r.url@ == p.url@,
            _ => r.tag@ == tag@ && r.url@ == url@,
        },
{
    match previous {
        Some(p) => {
            if str_eq(p.tag.as_str(), tag) {
                return StartupUpdate { tag: p.tag, url: p.url, suppressed };
            }
        },
        None => {},
    }
    let mut t = String::new();
    push_str(&mut t, tag);
    let mut u = String::new();
    push_str(&mut u, url);
    StartupUpdate { tag: t, url: u, suppressed }
}

} // verus!
