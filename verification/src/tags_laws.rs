//! What reading a file's tags and its name promises, over all files.

use vstd::prelude::*;

use crate::normalize::normalized;
use crate::order::{in_order, lemma_in_order_stable};
use crate::tags::{
    audio_name, credited, described, extension, first_artist, identity, is_readable_track,
    named_before, named_in, temp_name, uppercase, LocalView, RawTags, AUDIO_EXTENSIONS,
    TEMP_EXTENSIONS,
};
use crate::text::{
    contains, decimal, find, is_trimmed, is_white_space, join, lemma_find, lemma_find_from,
    lemma_rfind_below, lemma_trimmed, lower_ascii, occurs_at, rfind, trimmed,
};
use crate::text_laws::law_decimal_tells_numbers_apart;
use crate::title::{artist_names, parsed_title, ParsedTitle};
use crate::wordset::lemma_before_asymmetric;

verus! {

/// Whether a tag is there and says something.
pub open spec fn says_something(tag: Option<String>) -> bool {
    match tag {
        Some(s) => exists|i: int| 0 <= i < s@.len() && !is_white_space(#[trigger] s@[i]),
        None => false,
    }
}

proof fn lemma_says_something(s: Seq<char>)
    ensures
        trimmed(s).len() > 0 <==> exists|i: int|
            0 <= i < s.len() && !is_white_space(#[trigger] s[i]),
    decreases s.len(),
{
    crate::text::lemma_trimmed(s);
    if trimmed(s).len() > 0 {
        lemma_trimmed_within(s);
    } else {
        if exists|i: int| 0 <= i < s.len() && !is_white_space(#[trigger] s[i]) {
            let i = choose|i: int| 0 <= i < s.len() && !is_white_space(#[trigger] s[i]);
            let needle = seq![s[i]];
            assert(s.subrange(i, i + 1) =~= needle);
            assert(occurs_at(s, needle, i));
            crate::text::lemma_trimmed_keeps(s, needle);
            let j = choose|j: int| occurs_at(trimmed(s), needle, j);
            assert(occurs_at(trimmed(s), needle, j));
        }
    }
}

proof fn lemma_trimmed_within(s: Seq<char>)
    requires
        trimmed(s).len() > 0,
    ensures
        exists|i: int| 0 <= i < s.len() && !is_white_space(#[trigger] s[i]),
    decreases s.len(),
{
    if is_white_space(s.first()) {
        let rest = s.drop_first();
        assert(trimmed(s) == trimmed(rest));
        lemma_trimmed_within(rest);
        let i = choose|i: int| 0 <= i < rest.len() && !is_white_space(#[trigger] rest[i]);
        assert(s[i + 1] == rest[i]);
    } else {
        assert(!is_white_space(s[0]));
    }
}

/// A tag beats the file name: where the artist tag says something the artist is
/// that tag, and where the title tag does the title is, whatever the file is
/// called and wherever it lies.
pub proof fn law_tags_beat_the_file_name(path: Seq<char>, file_name: Seq<char>, tags: RawTags)
    ensures
        says_something(tags.artist) ==> described(path, file_name, tags).artist
            == tags.artist->0@,
        says_something(tags.title) ==> described(path, file_name, tags).title == tags.title->0@,
{
    if says_something(tags.artist) {
        lemma_says_something(tags.artist->0@);
    }
    if says_something(tags.title) {
        lemma_says_something(tags.title->0@);
    }
}

/// Only for a missing tag, or a blank one, the file name stands in.
pub proof fn law_file_name_stands_in(path: Seq<char>, file_name: Seq<char>, tags: RawTags)
    ensures
        !says_something(tags.artist) ==> described(path, file_name, tags).artist == named_in(
            file_name,
        ).0,
        !says_something(tags.title) ==> described(path, file_name, tags).title == named_in(
            file_name,
        ).1,
{
    if tags.artist is Some {
        lemma_says_something(tags.artist->0@);
    }
    if tags.title is Some {
        lemma_says_something(tags.title->0@);
    }
}

/// Two files with the same full tags are the same track, whatever they are
/// called: they differ in where they lie alone.
pub proof fn law_same_tags_same_track(
    path_a: Seq<char>,
    name_a: Seq<char>,
    path_b: Seq<char>,
    name_b: Seq<char>,
    tags: RawTags,
)
    requires
        says_something(tags.artist),
        says_something(tags.title),
    ensures
        ({
            let a = described(path_a, name_a, tags);
            let b = described(path_b, name_b, tags);
            &&& a == (LocalView { path: path_a, file_name: name_a, ..b })
            &&& identity(a) == identity(b)
        }),
{
    law_tags_beat_the_file_name(path_a, name_a, tags);
    law_tags_beat_the_file_name(path_b, name_b, tags);
}

/// The other tags are taken as they are: an album that says something as it is
/// written, the tempo and the key without the white space around them, the code
/// in upper case; a tempo in whole beats before any other; and none of them where
/// they say nothing. The title is taken apart.
pub proof fn law_other_tags_are_taken_over(path: Seq<char>, file_name: Seq<char>, tags: RawTags)
    ensures
        ({
            let t = described(path, file_name, tags);
            let tempo = if tags.integer_bpm is Some {
                tags.integer_bpm
            } else {
                tags.bpm
            };
            &&& t.path == path && t.file_name == file_name
            &&& t.duration_ms == tags.duration_ms && t.file_size == tags.file_size
            &&& t.parsed == parsed_title(t.title)
            &&& t.album == if says_something(tags.album) {
                Some(tags.album->0@)
            } else {
                None
            }
            &&& t.bpm == if says_something(tempo) {
                Some(trimmed(tempo->0@))
            } else {
                None
            }
            &&& t.musical_key == if says_something(tags.musical_key) {
                Some(trimmed(tags.musical_key->0@))
            } else {
                None
            }
            &&& tags.isrc is None ==> t.isrc is None
            &&& tags.isrc is Some && uppercase(trimmed(tags.isrc->0@)).len() > 0 ==> t.isrc == Some(
                uppercase(trimmed(tags.isrc->0@)),
            )
            &&& tags.isrc is Some && uppercase(trimmed(tags.isrc->0@)).len() == 0 ==> t.isrc is None
        }),
{
    if tags.album is Some {
        lemma_says_something(tags.album->0@);
    }
    if tags.integer_bpm is Some {
        lemma_says_something(tags.integer_bpm->0@);
    }
    if tags.bpm is Some {
        lemma_says_something(tags.bpm->0@);
    }
    if tags.musical_key is Some {
        lemma_says_something(tags.musical_key->0@);
    }
}

/// What stands before the last dot of a name, and what stands behind it.
proof fn lemma_last_dot(name: Seq<char>, ext: Seq<char>)
    requires
        !ext.contains('.'),
    ensures
        rfind(name + seq!['.'] + ext, seq!['.']) == Some(name.len() as int),
{
    let s = name + seq!['.'] + ext;
    let dot = seq!['.'];
    let at = name.len() as int;
    lemma_rfind_below(s, dot, s.len() as int + 1);
    assert(s.subrange(at, at + 1) =~= dot);
    assert(occurs_at(s, dot, at));
    let i = rfind(s, dot)->0;
    if i > at {
        assert(s.subrange(i, i + 1)[0] == '.');
        assert(ext[i - at - 1] == '.');
    }
}

proof fn lemma_first_dash(artist: Seq<char>, title: Seq<char>)
    requires
        artist.len() > 0,
        is_trimmed(artist),
        !contains(artist + " "@, " - "@),
    ensures
        find(artist + " - "@ + title, " - "@) == Some(artist.len() as int),
{
    reveal_strlit(" - ");
    reveal_strlit(" ");
    let dash = " - "@;
    let s = artist + dash + title;
    let at = artist.len() as int;
    lemma_find_from(s, dash, 0);
    assert(s.subrange(at, at + 3) =~= dash);
    assert(occurs_at(s, dash, at));
    let j = find(s, dash)->0;
    if j < at {
        let spaced = artist + " "@;
        if j + 3 <= spaced.len() {
            assert(spaced.subrange(j, j + 3) =~= s.subrange(j, j + 3));
            assert(occurs_at(spaced, dash, j));
        } else {
            assert(s.subrange(j, j + 3)[0] == ' ');
            assert(artist.last() == ' ');
        }
    }
}

/// A file called `Artist - Title.ext` is by the artist and has the title.
pub proof fn law_file_name_names_artist_and_title(
    artist: Seq<char>,
    title: Seq<char>,
    ext: Seq<char>,
)
    requires
        artist.len() > 0,
        title.len() > 0,
        is_trimmed(artist),
        is_trimmed(title),
        !contains(artist + " "@, " - "@),
        !ext.contains('.'),
    ensures
        named_in(artist + " - "@ + title + seq!['.'] + ext) == (artist, title),
{
    reveal_strlit(" - ");
    reveal_strlit(" ");
    let dash = " - "@;
    let s = artist + dash + title;
    let whole = s + seq!['.'] + ext;
    lemma_last_dot(s, ext);
    assert(whole.take(s.len() as int) =~= s);
    assert(s.first() == artist.first() && s.last() == title.last());
    lemma_trimmed(s);
    let at = artist.len() as int;
    lemma_first_dash(artist, title);
    assert(s.take(at) =~= artist);
    assert(s.skip(at + 3) =~= title);
    lemma_trimmed(artist);
    lemma_trimmed(title);
}

/// A file whose name has no such dash has all of it for its title, and nobody
/// for its artist.
pub proof fn law_file_name_without_a_dash_is_a_title(title: Seq<char>, ext: Seq<char>)
    requires
        is_trimmed(title),
        !contains(title, " - "@),
        !ext.contains('.'),
    ensures
        named_in(title + seq!['.'] + ext).0.len() == 0,
        named_in(title + seq!['.'] + ext).1 == title,
{
    let whole = title + seq!['.'] + ext;
    lemma_last_dot(title, ext);
    assert(whole.take(title.len() as int) =~= title);
    lemma_trimmed(title);
    lemma_find(title, " - "@);
}

proof fn lemma_extension(name: Seq<char>, ext: Seq<char>)
    requires
        name.len() > 0,
        !ext.contains('.'),
    ensures
        extension(name + seq!['.'] + ext) == Some(lower_ascii(ext)),
{
    let whole = name + seq!['.'] + ext;
    lemma_last_dot(name, ext);
    assert(whole.skip(name.len() as int + 1) =~= ext);
}

/// Whether an extension, in lower case, is one of audio.
pub open spec fn is_audio_extension(e: Seq<char>) -> bool {
    e == "mp3"@ || e == "aiff"@ || e == "aif"@ || e == "aifc"@ || e == "wav"@ || e == "flac"@ || e
        == "m4a"@ || e == "aac"@ || e == "ogg"@ || e == "opus"@ || e == "wv"@
}

/// Whether an extension, in lower case, is one that downloaders use.
pub open spec fn is_download_extension(e: Seq<char>) -> bool {
    e == "part"@ || e == "crdownload"@ || e == "download"@ || e == "tmp"@ || e == "partial"@
}

/// A file holds audio exactly when what follows the last dot of its name is an
/// extension of audio, capitals or not.
pub proof fn law_audio_files_are_known_by_extension(name: Seq<char>, ext: Seq<char>)
    requires
        name.len() > 0,
        !ext.contains('.'),
    ensures
        audio_name(name + seq!['.'] + ext) <==> is_audio_extension(lower_ascii(ext)),
{
    lemma_extension(name, ext);
    let e = lower_ascii(ext);
    let l = AUDIO_EXTENSIONS@;
    assert(l.len() == 11);
    assert(l[0]@ == "mp3"@ && l[1]@ == "aiff"@ && l[2]@ == "aif"@ && l[3]@ == "aifc"@ && l[4]@
        == "wav"@ && l[5]@ == "flac"@ && l[6]@ == "m4a"@ && l[7]@ == "aac"@ && l[8]@ == "ogg"@
        && l[9]@ == "opus"@ && l[10]@ == "wv"@);
}

/// A file is left alone exactly when it is hidden, or what follows the last dot
/// of its name is an extension that downloaders use, capitals or not.
pub proof fn law_unfinished_files_are_left_alone(name: Seq<char>, ext: Seq<char>)
    requires
        name.len() > 0,
        !ext.contains('.'),
    ensures
        temp_name(name + seq!['.'] + ext) <==> name[0] == '.' || name[0] == '~'
            || is_download_extension(lower_ascii(ext)),
{
    lemma_extension(name, ext);
    let whole = name + seq!['.'] + ext;
    assert(whole[0] == name[0]);
    let l = TEMP_EXTENSIONS@;
    assert(l.len() == 5);
    assert(l[0]@ == "part"@ && l[1]@ == "crdownload"@ && l[2]@ == "download"@ && l[3]@ == "tmp"@
        && l[4]@ == "partial"@);
}

/// A file without an extension holds no audio.
pub proof fn law_no_extension_is_no_audio(name: Seq<char>)
    requires
        !name.contains('.'),
    ensures
        !audio_name(name),
        !audio_name(seq!['.'] + name),
{
    lemma_rfind_below(name, seq!['.'], name.len() as int + 1);
    if rfind(name, seq!['.']) is Some {
        let i = rfind(name, seq!['.'])->0;
        assert(name.subrange(i, i + 1)[0] == '.');
        assert(name[i] == '.');
    }
    let empty = Seq::<char>::empty();
    lemma_last_dot(empty, name);
    assert(empty + seq!['.'] + name =~= seq!['.'] + name);
}

/// Everyone credited is compared: the artist field comes first, as it is, and
/// each guest of the title stands in what follows.
pub proof fn law_guests_are_compared_too(t: LocalView, i: int)
    requires
        0 <= i < t.parsed.featured.len(),
    ensures
        t.artist.is_prefix_of(credited(t)),
        contains(credited(t).skip(t.artist.len() as int), t.parsed.featured[i]),
{
    let guests = t.parsed.featured;
    lemma_joined(guests, " "@, i);
    let line = join(guests, " "@);
    let k = choose|k: int| occurs_at(line, guests[i], k);
    reveal_strlit(" ");
    let tail = credited(t).skip(t.artist.len() as int);
    assert(tail =~= " "@ + line);
    assert(tail.subrange(k + 1, k + 1 + guests[i].len()) =~= line.subrange(
        k,
        k + guests[i].len(),
    ));
    assert(occurs_at(tail, guests[i], k + 1));
}

/// Without guests the artist field is compared as it is.
pub proof fn law_no_guests_add_nothing(t: LocalView)
    requires
        t.parsed.featured.len() == 0,
    ensures
        credited(t) == t.artist,
{
}

/// Every part of a joined list stands in it.
pub proof fn lemma_joined(parts: Seq<Seq<char>>, sep: Seq<char>, i: int)
    requires
        0 <= i < parts.len(),
    ensures
        contains(join(parts, sep), parts[i]),
    decreases parts.len(),
{
    let line = join(parts, sep);
    if parts.len() == 1 {
        assert(line.subrange(0, line.len() as int) =~= line);
        assert(occurs_at(line, parts[i], 0));
    } else {
        let init = parts.drop_last();
        let front = join(init, sep);
        if i < init.len() {
            lemma_joined(init, sep, i);
            let k = choose|k: int| occurs_at(front, init[i], k);
            assert(line.subrange(k, k + init[i].len()) =~= front.subrange(k, k + init[i].len()));
            assert(occurs_at(line, parts[i], k));
        } else {
            let k = front.len() as int + sep.len();
            assert(line.subrange(k, k + parts[i].len()) =~= parts[i]);
            assert(occurs_at(line, parts[i], k));
        }
    }
}

/// The artist that stands first in a field is the first of its names, and no
/// name of the field is left before it.
pub proof fn law_first_artist_is_the_first_name(artist: Seq<char>)
    ensures
        artist_names(artist).len() > 0 ==> first_artist(artist) == artist_names(artist).first(),
        artist_names(artist).len() == 0 ==> first_artist(artist) == artist,
{
}

/// A track with a code is never taken for one without.
pub proof fn law_code_and_metadata_never_meet(t: LocalView, u: LocalView)
    requires
        t.isrc is Some,
        u.isrc is None,
    ensures
        identity(t) != identity(u),
{
    reveal_strlit("isrc:");
    reveal_strlit("meta:");
    assert(identity(t)[0] == 'i');
    assert(identity(u)[0] == 'm');
}

/// Two codes make two tracks.
pub proof fn law_codes_tell_tracks_apart(t: LocalView, u: LocalView)
    requires
        t.isrc is Some,
        u.isrc is Some,
        identity(t) == identity(u),
    ensures
        t.isrc == u.isrc,
{
    reveal_strlit("isrc:");
    assert(identity(t).skip(5) =~= t.isrc->0);
    assert(identity(u).skip(5) =~= u.isrc->0);
}

/// Without a code, spelling that normalizes away, and a length within the same
/// five seconds, make no difference to who a track is.
pub proof fn law_identity_overlooks_spelling_and_seconds(t: LocalView, u: LocalView)
    requires
        t.isrc is None,
        u.isrc is None,
        normalized(t.artist) == normalized(u.artist),
        t.parsed.base_norm == u.parsed.base_norm,
        t.parsed.kind == u.parsed.kind,
        t.parsed.remixer == u.parsed.remixer,
        t.duration_ms / 5_000 == u.duration_ms / 5_000,
    ensures
        identity(t) == identity(u),
{
}

proof fn lemma_same_ends(front: Seq<char>, a: Seq<char>, b: Seq<char>, back: Seq<char>)
    requires
        front + a + back == front + b + back,
    ensures
        a == b,
{
    let l = front + a + back;
    let r = front + b + back;
    assert(l.len() == r.len());
    assert(l.subrange(front.len() as int, (front.len() + a.len()) as int) =~= a);
    assert(r.subrange(front.len() as int, (front.len() + b.len()) as int) =~= b);
}

/// Without a code, tracks that agree in three of artist, song, version and length
/// are one only if they agree in the fourth: two versions of a song are two
/// tracks, and so are two songs, two artists, and two lengths five seconds apart.
pub proof fn law_identity_tells_tracks_apart(t: LocalView, u: LocalView)
    requires
        t.isrc is None,
        u.isrc is None,
        identity(t) == identity(u),
    ensures
        ({
            let artist = normalized(t.artist) == normalized(u.artist);
            let song = t.parsed.base_norm == u.parsed.base_norm;
            let version = ParsedTitle::label(t.parsed) == ParsedTitle::label(u.parsed);
            let length = t.duration_ms / 5_000 == u.duration_ms / 5_000;
            &&& song && version && length ==> artist
            &&& artist && version && length ==> song
            &&& artist && song && length ==> version
            &&& artist && song && version ==> length
        }),
{
    let artist = normalized(t.artist) == normalized(u.artist);
    let song = t.parsed.base_norm == u.parsed.base_norm;
    let version = ParsedTitle::label(t.parsed) == ParsedTitle::label(u.parsed);
    let length = t.duration_ms / 5_000 == u.duration_ms / 5_000;
    let m = "meta:"@;
    let bar = "|"@;
    let (ta, ts, tv, tl) = (
        normalized(t.artist),
        t.parsed.base_norm,
        ParsedTitle::label(t.parsed),
        decimal((t.duration_ms / 5_000) as nat),
    );
    let (ua, us, uv, ul) = (
        normalized(u.artist),
        u.parsed.base_norm,
        ParsedTitle::label(u.parsed),
        decimal((u.duration_ms / 5_000) as nat),
    );
    if song && version && length {
        let back = bar + ts + bar + tv + bar + tl;
        assert(identity(t) =~= m + ta + back);
        assert(identity(u) =~= m + ua + back);
        lemma_same_ends(m, ta, ua, back);
    }
    if artist && version && length {
        let front = m + ta + bar;
        let back = bar + tv + bar + tl;
        assert(identity(t) =~= front + ts + back);
        assert(identity(u) =~= front + us + back);
        lemma_same_ends(front, ts, us, back);
    }
    if artist && song && length {
        let front = m + ta + bar + ts + bar;
        let back = bar + tl;
        assert(identity(t) =~= front + tv + back);
        assert(identity(u) =~= front + uv + back);
        lemma_same_ends(front, tv, uv, back);
    }
    if artist && song && version {
        let front = m + ta + bar + ts + bar + tv + bar;
        let back = Seq::<char>::empty();
        assert(identity(t) =~= front + tl + back);
        assert(identity(u) =~= front + ul + back);
        lemma_same_ends(front, tl, ul, back);
        law_decimal_tells_numbers_apart(
            (t.duration_ms / 5_000) as nat,
            (u.duration_ms / 5_000) as nat,
        );
    }
}

/// Sorting by file name leaves tracks of one name as they stood.
pub proof fn law_one_file_name_keeps_its_order(v: Seq<LocalView>, name: Seq<char>)
    ensures
        in_order(v, |a: LocalView, b: LocalView| named_before(a, b)).filter(
            |t: LocalView| t.file_name == name,
        ) == v.filter(|t: LocalView| t.file_name == name),
{
    let ahead = |a: LocalView, b: LocalView| named_before(a, b);
    let p = |t: LocalView| t.file_name == name;
    assert forall|a: LocalView, b: LocalView| p(a) && p(b) implies !(#[trigger] ahead(a, b)) by {
        lemma_before_asymmetric(a.file_name, b.file_name);
    }
    lemma_in_order_stable(v, ahead, p);
}

/// A file is read exactly when it is audio, by its name, and complete.
pub proof fn law_which_files_are_read(file_name: &str, r: bool)
    requires
        call_ensures(is_readable_track, (file_name,), r),
    ensures
        r <==> audio_name(file_name@) && !temp_name(file_name@),
{
}

} // verus!
