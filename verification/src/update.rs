//! Telling the user a newer build exists.
//!
//! Not an updater: nothing is downloaded or installed here. The app asks the
//! service what the newest published release is, compares it to its own
//! version, and — if it is behind — says so and points at the download page.
//!
//! The bar for showing this is deliberately high. A banner that appears when
//! it should not is worse than one that occasionally fails to appear, because
//! the first teaches people to ignore it. So anything unclear — an
//! unparseable version, a pre-release, a service that cannot be reached —
//! results in silence rather than a guess.

use std::cmp::Ordering;
use vstd::prelude::*;
use vstd::slice::slice_subrange;

use crate::text::{
    chars_of, decimal, digits_number, opt_view, parse_digits, push_decimal, seqs, string_of,
    strip_end, strip_leading, strip_start, strip_trailing, trim, trimmed,
};

verus! {

/// What the service says of the newest release.
#[derive(Debug)]
pub struct LatestRelease {
    /// A git tag, so `v0.1.4` rather than `0.1.4`.
    pub version: Option<String>,
    pub prerelease: bool,
    /// False when there is no published release the public can reach.
    pub available: bool,
}

#[derive(Debug)]
pub struct UpdateStatus {
    /// This build's version, without a leading `v`.
    pub current: String,
    /// The newest published release, when there is one worth naming.
    pub latest: Option<String>,
    pub update_available: bool,
    /// Where to send someone who wants it. The service redirects this to the
    /// right asset for their platform, so it never goes stale.
    pub download_url: String,
}

/// What an update status says.
#[verifier::ext_equal]
pub struct StatusView {
    pub current: Seq<char>,
    pub latest: Option<Seq<char>>,
    pub update_available: bool,
    pub download_url: Seq<char>,
}

impl View for UpdateStatus {
    type V = StatusView;

    open spec fn view(&self) -> StatusView {
        StatusView {
            current: self.current@,
            latest: opt_view(self.latest),
            update_available: self.update_available,
            download_url: self.download_url@,
        }
    }
}

/// Everything before the first pre-release or build sign.
pub open spec fn before_suffix(s: Seq<char>) -> Seq<char>
    decreases s.len(),
{
    if s.len() == 0 || s.first() == '-' || s.first() == '+' {
        Seq::empty()
    } else {
        seq![s.first()] + before_suffix(s.drop_first())
    }
}

/// The numbers of a version without its `v` and its suffix.
pub open spec fn version_core(raw: Seq<char>) -> Seq<char> {
    let t = trimmed(raw);
    before_suffix(
        if t.len() > 0 && (t.first() == 'v' || t.first() == 'V') {
            t.drop_first()
        } else {
            t
        },
    )
}

/// The pieces of `s` between its dots.
pub open spec fn dotted(s: Seq<char>) -> Seq<Seq<char>>
    decreases s.len(),
{
    if s.len() == 0 {
        seq![Seq::empty()]
    } else if s.last() == '.' {
        dotted(s.drop_last()).push(Seq::empty())
    } else {
        let parts = dotted(s.drop_last());
        parts.drop_last().push(parts.last().push(s.last()))
    }
}

/// The `i`th number of a version; one that is missing is zero.
pub open spec fn component(parts: Seq<Seq<char>>, i: int) -> Option<u64> {
    if i < parts.len() {
        digits_number(parts[i])
    } else {
        Some(0)
    }
}

/// A version as three numbers, when it has that shape.
pub open spec fn version_numbers(raw: Seq<char>) -> Option<(u64, u64, u64)> {
    let parts = dotted(version_core(raw));
    match (component(parts, 0), component(parts, 1), component(parts, 2)) {
        (Some(major), Some(minor), Some(patch)) => if parts.len() <= 3 {
            Some((major, minor, patch))
        } else {
            None
        },
        _ => None,
    }
}

fn cut_suffix<'a>(s: &'a [char]) -> (r: &'a [char])
    ensures
        r@ == before_suffix(s@),
{
    let n: usize = s.len();
    let mut i: usize = 0;
    assert(s@.skip(0) =~= s@);
    assert(s@.take(0) + before_suffix(s@) =~= before_suffix(s@));
    while i < n && s[i] != '-' && s[i] != '+'
        invariant
            i <= n == s.len(),
            s@.take(i as int) + before_suffix(s@.skip(i as int)) == before_suffix(s@),
        decreases n - i,
    {
        proof {
            let rest = s@.skip(i as int);
            assert(rest.drop_first() =~= s@.skip(i + 1));
            assert(s@.take(i as int) + (seq![rest.first()] + before_suffix(rest.drop_first()))
                =~= s@.take(i + 1) + before_suffix(s@.skip(i + 1)));
        }
        i = i + 1;
    }
    assert(s@.take(i as int) + Seq::<char>::empty() =~= s@.take(i as int));
    assert(s@.subrange(0, i as int) =~= s@.take(i as int));
    slice_subrange(s, 0, i)
}

fn split_dots(s: &[char]) -> (r: Vec<Vec<char>>)
    ensures
        seqs(r@) == dotted(s@),
{
    let mut r: Vec<Vec<char>> = Vec::new();
    let mut current: Vec<char> = Vec::new();
    let mut i: usize = 0;
    assert(seqs(r@).push(current@) =~= dotted(s@.take(0)));
    while i < s.len()
        invariant
            i <= s.len(),
            seqs(r@).push(current@) == dotted(s@.take(i as int)),
        decreases s.len() - i,
    {
        let ghost before = seqs(r@);
        let ghost word = current@;
        proof {
            assert(s@.take(i + 1).drop_last() =~= s@.take(i as int));
            assert(before.push(word).drop_last() =~= before);
            assert(before.push(word).last() == word);
        }
        if s[i] == '.' {
            let done = current;
            current = Vec::new();
            r.push(done);
            assert(seqs(r@) =~= before.push(word));
            assert(current@ =~= Seq::<char>::empty());
        } else {
            current.push(s[i]);
        }
        i = i + 1;
        assert(seqs(r@).push(current@) =~= dotted(s@.take(i as int)));
    }
    assert(s@.take(s@.len() as int) =~= s@);
    let ghost before = seqs(r@);
    r.push(current);
    assert(seqs(r@) =~= before.push(current@));
    r
}

fn component_of(parts: &Vec<Vec<char>>, i: usize) -> (r: Option<u64>)
    ensures
        r == component(seqs(parts@), i as int),
{
    if i < parts.len() {
        parse_digits(parts[i].as_slice())
    } else {
        Some(0)
    }
}

/// A version as three numbers, which is all that is needed to order two
/// releases of this app.
///
/// Anything that is not that shape — a tag someone typed by hand, a build
/// suffix, a release named after a branch — parses to `None` and is treated as
/// "cannot tell", never as "older" or "newer".
pub fn parse_version(raw: &str) -> (r: Option<(u64, u64, u64)>)
    ensures
        r == version_numbers(raw@),
{
    let chars = chars_of(raw);
    let t = trim(chars.as_slice());
    let n: usize = t.len();
    let without_v = if n > 0 && (t[0] == 'v' || t[0] == 'V') {
        assert(t@.subrange(1, n as int) =~= t@.drop_first());
        slice_subrange(t, 1, n)
    } else {
        t
    };
    let core = cut_suffix(without_v);
    let parts = split_dots(core);
    // A fourth component means this is not the versioning scheme assumed here,
    // and guessing which way it orders is exactly the wrong move.
    if parts.len() > 3 {
        return None;
    }
    match (component_of(&parts, 0), component_of(&parts, 1), component_of(&parts, 2)) {
        (Some(major), Some(minor), Some(patch)) => Some((major, minor, patch)),
        _ => None,
    }
}

/// Whether one version comes before another.
pub open spec fn older(a: (u64, u64, u64), b: (u64, u64, u64)) -> bool {
    ||| a.0 < b.0
    ||| a.0 == b.0 && a.1 < b.1
    ||| a.0 == b.0 && a.1 == b.1 && a.2 < b.2
}

/// How two versions are ordered; unknown when either cannot be understood.
pub open spec fn version_order(a: Seq<char>, b: Seq<char>) -> Option<Ordering> {
    match (version_numbers(a), version_numbers(b)) {
        (Some(x), Some(y)) => if older(x, y) {
            Some(Ordering::Less)
        } else if older(y, x) {
            Some(Ordering::Greater)
        } else {
            Some(Ordering::Equal)
        },
        _ => None,
    }
}

/// `None` when either side cannot be understood.
pub fn compare_versions(current: &str, latest: &str) -> (r: Option<Ordering>)
    ensures
        r == version_order(current@, latest@),
{
    match (parse_version(current), parse_version(latest)) {
        (Some(a), Some(b)) => {
            let before: bool = a.0 < b.0 || (a.0 == b.0 && (a.1 < b.1 || (a.1 == b.1 && a.2
                < b.2)));
            let same: bool = a.0 == b.0 && a.1 == b.1 && a.2 == b.2;
            if before {
                Some(Ordering::Less)
            } else if same {
                Some(Ordering::Equal)
            } else {
                Some(Ordering::Greater)
            }
        },
        _ => None,
    }
}

/// A version written out.
pub open spec fn version_text(v: (u64, u64, u64)) -> Seq<char> {
    decimal(v.0 as nat) + "."@ + decimal(v.1 as nat) + "."@ + decimal(v.2 as nat)
}

/// The release to name: published, and no pre-release.
pub open spec fn nameable(release: LatestRelease) -> Option<Seq<char>> {
    if release.available && !release.prerelease {
        opt_view(release.version)
    } else {
        None
    }
}

/// What to tell the user, given what the service said.
pub open spec fn status_for(
    service_url: Seq<char>,
    current: Seq<char>,
    release: LatestRelease,
) -> StatusView {
    StatusView {
        current: match version_numbers(current) {
            Some(v) => version_text(v),
            None => strip_start(current, 'v'),
        },
        latest: match nameable(release) {
            Some(tag) => Some(strip_start(tag, 'v')),
            None => None,
        },
        update_available: match nameable(release) {
            Some(tag) => version_order(current, tag) == Some(Ordering::Less),
            None => false,
        },
        download_url: strip_end(service_url, '/') + "/download"@,
    }
}

fn without_leading_v(s: &str) -> (r: String)
    ensures
        r@ == strip_start(s@, 'v'),
{
    let chars = chars_of(s);
    string_of(strip_leading(chars.as_slice(), 'v'))
}

/// `url` without the slashes at its end, and `path` behind it.
pub fn service_path(url: &str, path: &str) -> (r: String)
    ensures
        r@ == strip_end(url@, '/') + path@,
{
    let chars = chars_of(url);
    let mut r = string_of(strip_trailing(chars.as_slice(), '/'));
    r.append(path);
    r
}

fn is_behind(current: &str, tag: &str) -> (r: bool)
    ensures
        r == (version_order(current@, tag@) == Some(Ordering::Less)),
{
    match compare_versions(current, tag) {
        Some(order) => matches!(order, Ordering::Less),
        None => false,
    }
}

/// What to tell the user, given what the service said.
///
/// A pre-release is something you go looking for, not something you are told
/// about. A release that is not available is no published release at all.
pub fn update_status(service_url: &str, current_version: &str, release: LatestRelease) -> (r:
    UpdateStatus)
    ensures
        r@ == status_for(service_url@, current_version@, release),
{
    let current = match parse_version(current_version) {
        Some(v) => {
            let mut text = String::new();
            push_decimal(&mut text, v.0);
            text.append(".");
            push_decimal(&mut text, v.1);
            text.append(".");
            push_decimal(&mut text, v.2);
            assert(text@ =~= version_text(v));
            text
        },
        None => without_leading_v(current_version),
    };
    let download_url = service_path(service_url, "/download");
    let tag: Option<String> = if release.available && !release.prerelease {
        release.version
    } else {
        None
    };
    match tag {
        Some(tag) => {
            let update_available = is_behind(current_version, tag.as_str());
            let latest = without_leading_v(tag.as_str());
            UpdateStatus { current, latest: Some(latest), update_available, download_url }
        },
        None => UpdateStatus { current, latest: None, update_available: false, download_url },
    }
}

/// Anything unclear is silence: an update is announced only when both versions
/// are understood, the release is published and no pre-release, and it is
/// strictly newer.
pub proof fn law_unclear_is_silence(
    service_url: Seq<char>,
    current: Seq<char>,
    release: LatestRelease,
)
    requires
        status_for(service_url, current, release).update_available,
    ensures
        release.available,
        !release.prerelease,
        release.version is Some,
        version_numbers(current) is Some,
        version_numbers(release.version->0@) is Some,
        older(version_numbers(current)->0, version_numbers(release.version->0@)->0),
{
}

/// Two versions swapped are ordered the other way round.
pub proof fn law_order_is_antisymmetric(a: Seq<char>, b: Seq<char>)
    ensures
        version_order(a, b) == Some(Ordering::Less) <==> version_order(b, a) == Some(
            Ordering::Greater,
        ),
        version_order(a, b) == Some(Ordering::Equal) <==> version_order(b, a) == Some(
            Ordering::Equal,
        ),
        version_order(a, b) is None <==> version_order(b, a) is None,
{
}

/// Versions are compared by their numbers: two are equal exactly when all three
/// numbers are.
pub proof fn law_equal_versions_have_equal_numbers(a: Seq<char>, b: Seq<char>)
    requires
        version_numbers(a) is Some,
        version_numbers(b) is Some,
    ensures
        version_order(a, b) == Some(Ordering::Equal) <==> version_numbers(a) == version_numbers(b),
{
}

} // verus!
