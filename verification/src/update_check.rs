//! The opt-in update check's decision: among the published releases, the
//! highest semver version (prereleases included, drafts skipped) is offered
//! when it is strictly newer than the installed build.
//!
//! Versions travel through the library as their canonical semver text (what
//! `semver::Version` prints after parsing); parsing and ordering are
//! `semver`'s.
use vstd::prelude::*;

use crate::shortcuts::opt_view;
use crate::text::{chars_of, string_from_chars};

verus! {

/// The canonical text of `text` parsed as a semver version
/// (`major.minor.patch[-pre][+build]`), or `None` when it is not semver.
pub uninterp spec fn semver_canonical(text: Seq<char>) -> Option<Seq<char>>;

/// `semver::Version::parse(text)`, printed back with its `Display`.
///
/// Trusted: the result is `semver_canonical` of the text; nothing more is
/// claimed of semver's grammar.
#[verifier::external_body]
fn canonical_version(text: &str) -> (r: Option<String>)
    ensures
        opt_view(r) == semver_canonical(text@),
{
    semver::Version::parse(text).ok().map(|v| v.to_string())
}

/// `a` parses as a semver version that orders strictly after `b`'s
/// (`semver::Version`'s `Ord`: major, minor, patch, then prerelease with a
/// release above its prereleases, then build metadata); false when either
/// does not parse.
pub uninterp spec fn semver_greater(a: Seq<char>, b: Seq<char>) -> bool;

/// Parses both texts with `semver::Version::parse` and compares them with `>`.
///
/// Trusted: the result is `semver_greater` of the two texts.
#[verifier::external_body]
fn version_greater(a: &str, b: &str) -> (r: bool)
    ensures
        r == semver_greater(a@, b@),
{
    match (semver::Version::parse(a), semver::Version::parse(b)) {
        (Ok(x), Ok(y)) => x > y,
        _ => false,
    }
}

/// One published release, as read off the releases list.
pub struct Release {
    pub tag_name: String,
    pub html_url: String,
    pub body: Option<String>,
    pub draft: bool,
}

/// What the "update available" card shows.
pub struct UpdateInfo {
    pub version: String,
    pub url: String,
    pub notes: Option<String>,
}

/// `tag` without one leading `v`.
pub open spec fn strip_v(tag: Seq<char>) -> Seq<char> {
    if tag.len() > 0 && tag[0] == 'v' {
        tag.drop_first()
    } else {
        tag
    }
}

/// The version a release tag names (`v0.3.0-beta.7` or `0.3.0-beta.7`).
pub open spec fn tag_version(tag: Seq<char>) -> Option<Seq<char>> {
    semver_canonical(strip_v(tag))
}

/// The version a release tag names, as canonical text: one leading `v` is
/// tolerated; a tag that is not semver gives `None`.
pub fn parse_tag(tag: &str) -> (r: Option<String>)
    ensures
        opt_view(r) == tag_version(tag@),
{
    let v = chars_of(tag);
    if v.len() > 0 && v[0] == 'v' {
        let mut rest: Vec<char> = Vec::new();
        let mut i: usize = 1;
        while i < v.len()
            invariant
                1 <= i <= v@.len(),
                v@ == tag@,
                rest@ == v@.subrange(1, i as int),
            decreases v.len() - i,
        {
            rest.push(v[i]);
            i = i + 1;
            assert(rest@ =~= v@.subrange(1, i as int));
        }
        assert(rest@ =~= strip_v(tag@));
        let s = string_from_chars(&rest);
        canonical_version(s.as_str())
    } else {
        canonical_version(tag)
    }
}

/// The highest version among the first `n` tags, the last of equals winning;
/// tags that are not semver are skipped.
pub open spec fn highest_of(tags: Seq<Seq<char>>, n: int) -> Option<Seq<char>>
    decreases n,
{
    if n <= 0 {
        None
    } else {
        let best = highest_of(tags, n - 1);
        match tag_version(tags[n - 1]) {
            None => best,
            Some(c) => match best {
                Some(b) => if semver_greater(b, c) { Some(b) } else { Some(c) },
                None => Some(c),
            },
        }
    }
}

/// The highest version among `tags` when it is strictly newer than
/// `installed`.
pub open spec fn newer_of(tags: Seq<Seq<char>>, installed: Seq<char>) -> Option<Seq<char>> {
    match highest_of(tags, tags.len() as int) {
        Some(h) => if semver_greater(h, installed) { Some(h) } else { None },
        None => None,
    }
}

pub open spec fn str_views(tags: Seq<&str>) -> Seq<Seq<char>> {
    tags.map_values(|t: &str| t@)
}

/// Among `tags`, the highest semver version (prereleases included, ordered
/// per semver), returned only when it is strictly greater than `installed`;
/// tags that are not semver are ignored.
pub fn newer_version(tags: &[&str], installed: &str) -> (r: Option<String>)
    ensures
        opt_view(r) == newer_of(str_views(tags@), installed@),
{
    let ghost views = str_views(tags@);
    let mut best: Option<String> = None;
    let mut i: usize = 0;
    while i < tags.len()
        invariant
            i <= tags@.len(),
            views == str_views(tags@),
            opt_view(best) == highest_of(views, i as int),
        decreases tags.len() - i,
    {
        assert(views[i as int] == tags@[i as int]@);
        match parse_tag(tags[i]) {
            None => {},
            Some(c) => {
                let replace = match &best {
                    Some(b) => !version_greater(b.as_str(), c.as_str()),
                    None => true,
                };
                if replace {
                    best = Some(c);
                }
            },
        }
        i = i + 1;
    }
    match best {
        Some(h) => if version_greater(h.as_str(), installed) {
            Some(h)
        } else {
            None
        },
        None => None,
    }
}

/// The tags of the releases that are not drafts, in order.
pub open spec fn live_tags(rs: Seq<Release>) -> Seq<Seq<char>>
    decreases rs.len(),
{
    if rs.len() == 0 {
        seq![]
    } else {
        let rest = live_tags(rs.drop_last());
        if rs.last().draft {
            rest
        } else {
            rest.push(rs.last().tag_name@)
        }
    }
}

/// The first release that is not a draft and whose tag names `version`.
pub open spec fn release_with(rs: Seq<Release>, version: Seq<char>, j: int) -> bool {
    &&& 0 <= j < rs.len()
    &&& !rs[j].draft
    &&& tag_version(rs[j].tag_name@) == Some(version)
    &&& forall|k: int| 0 <= k < j ==> !(!(#[trigger] rs[k]).draft && tag_version(rs[k].tag_name@) == Some(version))
}

proof fn lemma_highest_is_some_tag(tags: Seq<Seq<char>>, n: int)
    requires
        0 <= n <= tags.len(),
    ensures
        highest_of(tags, n) matches Some(h) ==> exists|k: int|
            0 <= k < n && tag_version(#[trigger] tags[k]) == Some(h),
    decreases n,
{
    if n > 0 {
        lemma_highest_is_some_tag(tags, n - 1);
        if tag_version(tags[n - 1]) is Some {
            let h = highest_of(tags, n);
            if h != highest_of(tags, n - 1) {
                assert(tag_version(tags[n - 1]) == h);
            }
        }
    }
}

proof fn lemma_live_tag_has_release(rs: Seq<Release>, k: int)
    requires
        0 <= k < live_tags(rs).len(),
    ensures
        exists|j: int| 0 <= j < rs.len() && !(#[trigger] rs[j]).draft && rs[j].tag_name@ == live_tags(rs)[k],
    decreases rs.len(),
{
    let rest = live_tags(rs.drop_last());
    if k < rest.len() {
        lemma_live_tag_has_release(rs.drop_last(), k);
        let j = choose|j: int| 0 <= j < rs.drop_last().len() && !(#[trigger] rs.drop_last()[j]).draft
            && rs.drop_last()[j].tag_name@ == rest[k];
        assert(rs[j] == rs.drop_last()[j]);
    } else {
        assert(rs[rs.len() - 1] == rs.last());
    }
}

/// The newest non-draft release strictly newer than `installed`, with its
/// page and notes; `None` when the installed build is up to date.
pub fn choose_update(releases: &[Release], installed: &str) -> (r: Option<UpdateInfo>)
    ensures
        r is Some <==> newer_of(live_tags(releases@), installed@) is Some,
        r matches Some(u) ==> exists|j: int|
            release_with(releases@, u.version@, j) && newer_of(live_tags(releases@), installed@)
                == Some(u.version@) && u.url@ == releases@[j].html_url@ && opt_view(u.notes)
                == opt_view(releases@[j].body),
{
    let mut live: Vec<&str> = Vec::new();
    let mut i: usize = 0;
    while i < releases.len()
        invariant
            i <= releases@.len(),
            str_views(live@) == live_tags(releases@.take(i as int)),
        decreases releases.len() - i,
    {
        assert(releases@.take(i as int + 1).drop_last() =~= releases@.take(i as int));
        if !releases[i].draft {
            live.push(releases[i].tag_name.as_str());
        }
        i = i + 1;
        assert(str_views(live@) =~= live_tags(releases@.take(i as int)));
    }
    assert(releases@.take(releases@.len() as int) =~= releases@);
    let chosen = match newer_version(live.as_slice(), installed) {
        Some(c) => c,
        None => return None,
    };
    let ghost tags = live_tags(releases@);
    proof {
        lemma_highest_is_some_tag(tags, tags.len() as int);
        let k = choose|k: int| 0 <= k < tags.len() && tag_version(#[trigger] tags[k]) == Some(chosen@);
        lemma_live_tag_has_release(releases@, k);
    }
    let mut j: usize = 0;
    while j < releases.len()
        invariant
            j <= releases@.len(),
            newer_of(live_tags(releases@), installed@) == Some(chosen@),
            exists|m: int| j <= m < releases@.len() && !(#[trigger] releases@[m]).draft
                && tag_version(releases@[m].tag_name@) == Some(chosen@),
            forall|k: int| 0 <= k < j ==> !(!(#[trigger] releases@[k]).draft && tag_version(
                releases@[k].tag_name@,
            ) == Some(chosen@)),
        decreases releases.len() - j,
    {
        let rel = &releases[j];
        if !rel.draft {
            match parse_tag(rel.tag_name.as_str()) {
                Some(t) => {
                    if crate::text::str_eq(t.as_str(), chosen.as_str()) {
                        let url = rel.html_url.clone();
                        let notes = match &rel.body {
                            Some(b) => Some(b.clone()),
                            None => None,
                        };
                        assert(release_with(releases@, chosen@, j as int));
                        assert(url@ == releases@[j as int].html_url@);
                        assert(opt_view(notes) == opt_view(releases@[j as int].body));
                        let u = UpdateInfo { version: chosen, url, notes };
                        assert(release_with(releases@, u.version@, j as int));
                        return Some(u);
                    }
                },
                None => {},
            }
        }
        j = j + 1;
    }
    None
}

} // verus!
