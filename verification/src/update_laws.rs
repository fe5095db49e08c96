//! What telling of a newer build promises, over all versions.

use std::cmp::Ordering;
use vstd::prelude::*;

use crate::text::{
    decimal, is_digit, is_trimmed, is_white_space, lemma_trimmed, strip_end, strip_start,
};
use crate::text_laws::{is_blank, law_decimal_reads_back, law_trimming_takes_the_white_space_around};
use crate::update::{
    before_suffix, dotted, status_for, version_numbers, version_order, version_text, LatestRelease,
};

verus! {

proof fn lemma_undotted(s: Seq<char>)
    requires
        !s.contains('.'),
    ensures
        dotted(s) == seq![s],
    decreases s.len(),
{
    if s.len() > 0 {
        let init = s.drop_last();
        assert(!init.contains('.')) by {
            if init.contains('.') {
                let i = choose|i: int| 0 <= i < init.len() && init[i] == '.';
                assert(s[i] == '.');
            }
        }
        lemma_undotted(init);
        assert(s[s.len() - 1] == s.last());
        assert(s.last() != '.');
        assert(init.push(s.last()) =~= s);
        assert(dotted(s) =~= seq![s]);
    } else {
        assert(s =~= Seq::<char>::empty());
    }
}

/// A part without dots behind a dot is the last of the parts.
proof fn lemma_dotted_on(a: Seq<char>, b: Seq<char>)
    requires
        !b.contains('.'),
    ensures
        dotted(a + "."@ + b) == dotted(a).push(b),
    decreases b.len(),
{
    reveal_strlit(".");
    let s = a + "."@ + b;
    if b.len() == 0 {
        assert(s.drop_last() =~= a);
        assert(b =~= Seq::<char>::empty());
    } else {
        let init = b.drop_last();
        assert(!init.contains('.')) by {
            if init.contains('.') {
                let i = choose|i: int| 0 <= i < init.len() && init[i] == '.';
                assert(b[i] == '.');
            }
        }
        lemma_dotted_on(a, init);
        assert(s.drop_last() =~= a + "."@ + init);
        assert(b[b.len() - 1] == b.last());
        assert(s.last() != '.');
        assert(init.push(b.last()) =~= b);
        assert(dotted(s) =~= dotted(a).push(b));
    }
}

/// Whether a character can stand in the numbers of a version.
pub open spec fn is_version_char(c: char) -> bool {
    '0' <= c <= '9' || c == '.'
}

proof fn lemma_before_suffix(core: Seq<char>, suffix: Seq<char>)
    requires
        forall|i: int| 0 <= i < core.len() ==> is_version_char(#[trigger] core[i]),
        suffix.len() > 0 ==> suffix[0] == '-' || suffix[0] == '+',
    ensures
        before_suffix(core + suffix) == core,
    decreases core.len(),
{
    let s = core + suffix;
    if core.len() == 0 {
        assert(s =~= suffix);
        assert(before_suffix(s) =~= core);
    } else {
        assert(is_version_char(core[0]));
        assert(s.first() == core[0]);
        assert(s.drop_first() =~= core.drop_first() + suffix);
        assert forall|i: int| 0 <= i < core.drop_first().len() implies is_version_char(
            #[trigger] core.drop_first()[i],
        ) by {
            assert(core[i + 1] == core.drop_first()[i]);
        }
        lemma_before_suffix(core.drop_first(), suffix);
        assert(seq![core[0]] + core.drop_first() =~= core);
    }
}

proof fn lemma_no_dot(n: nat)
    ensures
        !decimal(n).contains('.'),
{
    law_decimal_reads_back(n);
    if decimal(n).contains('.') {
        let i = choose|i: int| 0 <= i < decimal(n).len() && decimal(n)[i] == '.';
        assert(is_digit(decimal(n)[i]));
    }
}

proof fn lemma_parts(v: (u64, u64, u64))
    ensures
        dotted(version_text(v)) == seq![
            decimal(v.0 as nat),
            decimal(v.1 as nat),
            decimal(v.2 as nat),
        ],
        dotted(decimal(v.0 as nat) + "."@ + decimal(v.1 as nat)) == seq![
            decimal(v.0 as nat),
            decimal(v.1 as nat),
        ],
        dotted(decimal(v.0 as nat)) == seq![decimal(v.0 as nat)],
        forall|i: int| 0 <= i < version_text(v).len() ==> is_version_char(
            #[trigger] version_text(v)[i],
        ),
        version_text(v).len() > 0,
{
    let (a, b, c) = (decimal(v.0 as nat), decimal(v.1 as nat), decimal(v.2 as nat));
    lemma_no_dot(v.0 as nat);
    lemma_no_dot(v.1 as nat);
    lemma_no_dot(v.2 as nat);
    lemma_undotted(a);
    lemma_dotted_on(a, b);
    lemma_dotted_on(a + "."@ + b, c);
    assert(seq![a].push(b) =~= seq![a, b]);
    assert(seq![a].push(b).push(c) =~= seq![a, b, c]);
    law_decimal_reads_back(v.0 as nat);
    law_decimal_reads_back(v.1 as nat);
    law_decimal_reads_back(v.2 as nat);
    reveal_strlit(".");
    let t = version_text(v);
    assert forall|i: int| 0 <= i < t.len() implies is_version_char(#[trigger] t[i]) by {
        if i < a.len() {
            assert(is_digit(a[i]));
        } else if i == a.len() {
        } else if i < a.len() + 1 + b.len() {
            assert(is_digit(b[i - a.len() - 1]));
        } else if i == a.len() + 1 + b.len() {
        } else {
            assert(is_digit(c[i - a.len() - b.len() - 2]));
        }
    }
}

/// A version that is written out is read back as its three numbers: with a `v` of
/// either case in front or without, with white space around it, and with anything
/// behind a dash or a plus sign.
pub proof fn law_versions_are_read_back(
    v: (u64, u64, u64),
    before: Seq<char>,
    prefix: Seq<char>,
    suffix: Seq<char>,
    after: Seq<char>,
)
    requires
        is_blank(before),
        is_blank(after),
        prefix.len() == 0 || prefix == seq!['v'] || prefix == seq!['V'],
        suffix.len() > 0 ==> (suffix[0] == '-' || suffix[0] == '+') && !is_white_space(
            suffix.last(),
        ),
    ensures
        version_numbers(before + (prefix + version_text(v) + suffix) + after) == Some(v),
{
    lemma_parts(v);
    let t = version_text(v);
    let s = prefix + t + suffix;
    assert(is_version_char(t[0]));
    assert(is_version_char(t[t.len() - 1]));
    if suffix.len() == 0 {
        assert(s.last() == t[t.len() - 1]);
    } else {
        assert(s.last() == suffix.last());
    }
    if prefix.len() == 0 {
        assert(s.first() == t[0]);
        assert(s =~= t + suffix);
    } else {
        assert(s.first() == prefix[0]);
        assert(s.drop_first() =~= t + suffix);
    }
    assert(is_trimmed(s));
    law_trimming_takes_the_white_space_around(before, s, after);
    lemma_before_suffix(t, suffix);
    law_decimal_reads_back(v.0 as nat);
    law_decimal_reads_back(v.1 as nat);
    law_decimal_reads_back(v.2 as nat);
}

/// A number that is left out is zero.
pub proof fn law_missing_numbers_are_zero(major: u64, minor: u64)
    ensures
        version_numbers(decimal(major as nat)) == Some((major, 0u64, 0u64)),
        version_numbers(decimal(major as nat) + "."@ + decimal(minor as nat)) == Some(
            (major, minor, 0u64),
        ),
{
    let v = (major, minor, 0u64);
    lemma_parts(v);
    reveal_strlit(".");
    let (a, b) = (decimal(major as nat), decimal(minor as nat));
    let ab = a + "."@ + b;
    law_decimal_reads_back(major as nat);
    law_decimal_reads_back(minor as nat);
    let none = Seq::<char>::empty();
    assert forall|i: int| 0 <= i < a.len() implies is_version_char(#[trigger] a[i]) by {
        assert(is_digit(a[i]));
    }
    assert forall|i: int| 0 <= i < ab.len() implies is_version_char(#[trigger] ab[i]) by {
        if i < a.len() {
            assert(is_digit(a[i]));
        } else if i > a.len() {
            assert(is_digit(b[i - a.len() - 1]));
        }
    }
    lemma_before_suffix(a, none);
    lemma_before_suffix(ab, none);
    assert(a + none =~= a);
    assert(ab + none =~= ab);
    assert(is_digit(a[0]) && is_digit(a[a.len() - 1]) && is_digit(b[b.len() - 1]));
    assert(ab[0] == a[0] && ab.last() == b[b.len() - 1]);
    lemma_trimmed(a);
    lemma_trimmed(ab);
}

/// A version with a fourth number cannot be told.
pub proof fn law_four_numbers_cannot_be_told(v: (u64, u64, u64), fourth: u64)
    ensures
        version_numbers(version_text(v) + "."@ + decimal(fourth as nat)) is None,
{
    lemma_parts(v);
    lemma_no_dot(fourth as nat);
    law_decimal_reads_back(fourth as nat);
    reveal_strlit(".");
    let t = version_text(v);
    let d = decimal(fourth as nat);
    let s = t + "."@ + d;
    lemma_dotted_on(t, d);
    let none = Seq::<char>::empty();
    assert forall|i: int| 0 <= i < s.len() implies is_version_char(#[trigger] s[i]) by {
        if i < t.len() {
            assert(is_version_char(t[i]));
        } else if i > t.len() {
            assert(is_digit(d[i - t.len() - 1]));
        }
    }
    lemma_before_suffix(s, none);
    assert(s + none =~= s);
    assert(is_version_char(t[0]) && is_digit(d[d.len() - 1]));
    assert(s[0] == t[0] && s.last() == d[d.len() - 1]);
    lemma_trimmed(s);
}

/// Versions are ordered by their first number that differs.
pub proof fn law_versions_are_ordered_by_number(a: Seq<char>, b: Seq<char>)
    requires
        version_numbers(a) is Some,
        version_numbers(b) is Some,
    ensures
        ({
            let x = version_numbers(a)->0;
            let y = version_numbers(b)->0;
            let order = version_order(a, b);
            &&& x.0 < y.0 ==> order == Some(Ordering::Less)
            &&& x.0 > y.0 ==> order == Some(Ordering::Greater)
            &&& x.0 == y.0 && x.1 < y.1 ==> order == Some(Ordering::Less)
            &&& x.0 == y.0 && x.1 > y.1 ==> order == Some(Ordering::Greater)
            &&& x.0 == y.0 && x.1 == y.1 && x.2 < y.2 ==> order == Some(Ordering::Less)
            &&& x.0 == y.0 && x.1 == y.1 && x.2 > y.2 ==> order == Some(Ordering::Greater)
            &&& x == y ==> order == Some(Ordering::Equal)
        }),
{
}

/// What cannot be understood has no order.
pub proof fn law_unclear_versions_have_no_order(a: Seq<char>, b: Seq<char>)
    ensures
        version_numbers(a) is None || version_numbers(b) is None <==> version_order(a, b) is None,
{
}

/// An update is told exactly when a release is published, is no pre-release, and
/// is newer than this build; a release that is named is named without its `v`;
/// and the way to it does not depend on a slash behind the address.
pub proof fn law_when_an_update_is_told(
    service_url: Seq<char>,
    current: Seq<char>,
    release: LatestRelease,
)
    ensures
        ({
            let s = status_for(service_url, current, release);
            let public = release.available && !release.prerelease && release.version is Some;
            &&& s.update_available <==> public && version_order(current, release.version->0@) == Some(
                Ordering::Less,
            )
            &&& s.latest is Some <==> public
            &&& public ==> s.latest == Some(strip_start(release.version->0@, 'v'))
            &&& s.download_url == strip_end(service_url, '/') + "/download"@
            &&& s.download_url == status_for(service_url.push('/'), current, release).download_url
            &&& version_numbers(current) is Some ==> s.current == version_text(
                version_numbers(current)->0,
            )
            &&& version_numbers(current) is None ==> s.current == strip_start(current, 'v')
        }),
{
    assert(service_url.push('/').drop_last() =~= service_url);
}

} // verus!
