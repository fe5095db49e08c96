//! Identity of local audio files.

use vstd::prelude::*;
use vstd::slice::slice_subrange;

use crate::normalize::{is_ascii_text, normalize, normalized};
use crate::order::{in_order, is_in_order, lemma_in_order, lemma_placed_at};
use crate::text::{
    chars_of, decimal, find, index_of, join, join_strings, last_index_of, length_text, lower_ascii,
    lower_chars, minutes_seconds, opt_view, push_decimal, reads, rfind, string_from, string_of,
    trim, trimmed, views,
};
use crate::title::{artist_names, parse_title, parsed_title, split_artists, ParsedTitle, TitleView};
use crate::wordset::{comes_before, is_before, lemma_before_asymmetric, lemma_not_before_transitive};

verus! {

pub const AUDIO_EXTENSIONS: [&'static str; 11] = [
    "mp3",
    "aiff",
    "aif",
    "aifc",
    "wav",
    "flac",
    "m4a",
    "aac",
    "ogg",
    "opus",
    "wv",
];

/// Files a downloader is still writing. Never read these.
pub const TEMP_EXTENSIONS: [&'static str; 5] = ["part", "crdownload", "download", "tmp", "partial"];

/// Whether a list holds a word.
pub open spec fn listed(list: Seq<&str>, w: Seq<char>) -> bool {
    exists|i: int| 0 <= i < list.len() && #[trigger] list[i]@ == w
}

fn is_listed(list: &[&'static str], w: &[char]) -> (r: bool)
    ensures
        r == listed(list@, w@),
{
    let mut i: usize = 0;
    while i < list.len()
        invariant
            i <= list.len(),
            forall|k: int| 0 <= k < i ==> #[trigger] list@[k]@ != w@,
        decreases list.len() - i,
    {
        if reads(w, list[i]) {
            return true;
        }
        i = i + 1;
    }
    false
}

/// What follows the last dot of a file name, in lower case; nothing when there
/// is no dot but perhaps a leading one.
pub open spec fn extension(file_name: Seq<char>) -> Option<Seq<char>> {
    match rfind(file_name, seq!['.']) {
        Some(i) => if i == 0 {
            None
        } else {
            Some(lower_ascii(file_name.skip(i + 1)))
        },
        None => None,
    }
}

fn extension_of(file_name: &[char]) -> (r: Option<Vec<char>>)
    ensures
        (match r {
            Some(e) => Some(e@),
            None => None::<Seq<char>>,
        }) == extension(file_name@),
{
    let n: usize = file_name.len();
    let mut dot: Vec<char> = Vec::new();
    dot.push('.');
    assert(dot@ =~= seq!['.']);
    match last_index_of(file_name, dot.as_slice()) {
        Some(i) => {
            if i == 0 {
                None
            } else {
                assert(file_name@.skip(i + 1) =~= file_name@.subrange(i + 1, n as int));
                Some(lower_chars(slice_subrange(file_name, i + 1, n)))
            }
        },
        None => None,
    }
}

/// Whether a file name has an audio extension.
pub open spec fn audio_name(file_name: Seq<char>) -> bool {
    match extension(file_name) {
        Some(e) => listed(AUDIO_EXTENSIONS@, e),
        None => false,
    }
}

/// Whether a file name is hidden or has a downloader's extension.
pub open spec fn temp_name(file_name: Seq<char>) -> bool {
    ||| file_name.len() > 0 && (file_name[0] == '.' || file_name[0] == '~')
    ||| match extension(file_name) {
        Some(e) => listed(TEMP_EXTENSIONS@, e),
        None => false,
    }
}

/// Whether a file of this name, the last component of its path, holds audio.
pub fn is_audio_file(file_name: &str) -> (r: bool)
    ensures
        r == audio_name(file_name@),
{
    let name = chars_of(file_name);
    match extension_of(name.as_slice()) {
        Some(e) => is_listed(&AUDIO_EXTENSIONS, e.as_slice()),
        None => false,
    }
}

/// Whether a file of this name, the last component of its path, is hidden or
/// still being written.
pub fn is_temp_file(file_name: &str) -> (r: bool)
    ensures
        r == temp_name(file_name@),
{
    let name = chars_of(file_name);
    if name.len() > 0 && (name[0] == '.' || name[0] == '~') {
        return true;
    }
    match extension_of(name.as_slice()) {
        Some(e) => is_listed(&TEMP_EXTENSIONS, e.as_slice()),
        None => false,
    }
}

/// Whether a file of this name is worth reading: audio, and complete.
pub fn is_readable_track(file_name: &str) -> (r: bool)
    ensures
        r == (!temp_name(file_name@) && audio_name(file_name@)),
{
    !is_temp_file(file_name) && is_audio_file(file_name)
}

/// A file name without what follows its last dot, trimmed.
pub open spec fn stem(file_name: Seq<char>) -> Seq<char> {
    match rfind(file_name, seq!['.']) {
        Some(i) => trimmed(file_name.take(i)),
        None => trimmed(file_name),
    }
}

/// The artist and the title that a file name of the form `Artist - Title.ext`
/// gives; without the dash all of it is the title.
pub open spec fn named_in(file_name: Seq<char>) -> (Seq<char>, Seq<char>) {
    let s = stem(file_name);
    match find(s, " - "@) {
        Some(i) => (trimmed(s.take(i)), trimmed(s.skip(i + " - "@.len()))),
        None => (Seq::empty(), s),
    }
}

/// Best-effort "Artist - Title.mp3" split for untagged files.
pub fn artist_title_from_filename(file_name: &str) -> (r: (String, String))
    ensures
        (r.0@, r.1@) == named_in(file_name@),
{
    let name = chars_of(file_name);
    let mut dot: Vec<char> = Vec::new();
    dot.push('.');
    assert(dot@ =~= seq!['.']);
    let n: usize = name.len();
    let cut: usize = match last_index_of(name.as_slice(), dot.as_slice()) {
        Some(i) => i,
        None => n,
    };
    assert(name@.take(name@.len() as int) =~= name@);
    assert(name@.subrange(0, cut as int) =~= name@.take(cut as int));
    let s = trim(slice_subrange(name.as_slice(), 0, cut));
    assert(s@ == stem(file_name@));
    let dash = chars_of(" - ");
    let m: usize = s.len();
    match index_of(s, dash.as_slice()) {
        Some(i) => {
            let after: usize = i + dash.len();
            assert(s@.subrange(0, i as int) =~= s@.take(i as int));
            assert(s@.subrange(after as int, m as int) =~= s@.skip(after as int));
            (
                string_of(trim(slice_subrange(s, 0, i))),
                string_of(trim(slice_subrange(s, after, m))),
            )
        },
        None => (String::new(), string_of(s)),
    }
}

/// An ASCII small letter in upper case; every other character as it is.
pub open spec fn ascii_upper(c: char) -> char {
    if 'a' <= c <= 'z' {
        (c as u8 - 32) as u8 as char
    } else {
        c
    }
}

/// A text in upper case.
pub uninterp spec fn uppercase(s: Seq<char>) -> Seq<char>;

/// `str::to_uppercase`: the upper-case form of the text, which depends on the
/// text alone. An ASCII text has its small letters raised one by one.
#[verifier::external_body]
pub(crate) fn uppercase_of(s: &str) -> (r: String)
    ensures
        r@ == uppercase(s@),
        is_ascii_text(s@) ==> r@ == s@.map_values(|c: char| ascii_upper(c)),
{
    s.to_uppercase()
}

/// What the tags of a file and its properties say, as they were read.
#[derive(Debug)]
pub struct RawTags {
    pub artist: Option<String>,
    pub title: Option<String>,
    pub album: Option<String>,
    pub isrc: Option<String>,
    pub integer_bpm: Option<String>,
    pub bpm: Option<String>,
    pub musical_key: Option<String>,
    pub duration_ms: u64,
    pub file_size: u64,
}

/// The tag, unless it is blank.
pub open spec fn not_blank(o: Option<Seq<char>>) -> Option<Seq<char>> {
    match o {
        Some(s) => if trimmed(s).len() > 0 {
            Some(s)
        } else {
            None
        },
        None => None,
    }
}

/// The tag trimmed, unless nothing is left of it.
pub open spec fn tidy(o: Option<Seq<char>>) -> Option<Seq<char>> {
    match o {
        Some(s) => if trimmed(s).len() > 0 {
            Some(trimmed(s))
        } else {
            None
        },
        None => None,
    }
}

/// The code trimmed and in upper case, unless nothing is left of it.
pub open spec fn tidy_code(o: Option<Seq<char>>) -> Option<Seq<char>> {
    match o {
        Some(s) => if uppercase(trimmed(s)).len() > 0 {
            Some(uppercase(trimmed(s)))
        } else {
            None
        },
        None => None,
    }
}

fn keep_unless_blank(o: Option<String>) -> (r: Option<String>)
    ensures
        opt_view(r) == not_blank(opt_view(o)),
{
    match o {
        Some(s) => {
            let chars = chars_of(s.as_str());
            if trim(chars.as_slice()).len() > 0 {
                Some(s)
            } else {
                None
            }
        },
        None => None,
    }
}

fn tidied(o: Option<String>) -> (r: Option<String>)
    ensures
        opt_view(r) == tidy(opt_view(o)),
{
    match o {
        Some(s) => {
            let chars = chars_of(s.as_str());
            let t = trim(chars.as_slice());
            if t.len() > 0 {
                Some(string_of(t))
            } else {
                None
            }
        },
        None => None,
    }
}

fn tidied_code(o: Option<String>) -> (r: Option<String>)
    ensures
        opt_view(r) == tidy_code(opt_view(o)),
{
    match o {
        Some(s) => {
            let chars = chars_of(s.as_str());
            let t = string_of(trim(chars.as_slice()));
            let code = uppercase_of(t.as_str());
            if code.as_str().is_empty() {
                None
            } else {
                Some(code)
            }
        },
        None => None,
    }
}

/// A track as it exists on disk.
#[derive(Debug)]
pub struct LocalTrack {
    pub path: String,
    pub file_name: String,
    pub artist: String,
    pub title: String,
    pub album: Option<String>,
    pub isrc: Option<String>,
    pub bpm: Option<String>,
    pub musical_key: Option<String>,
    pub duration_ms: u64,
    pub file_size: u64,
    /// Title split into base name + version information.
    pub parsed: ParsedTitle,
}

/// What a local track says.
#[verifier::ext_equal]
pub struct LocalView {
    pub path: Seq<char>,
    pub file_name: Seq<char>,
    pub artist: Seq<char>,
    pub title: Seq<char>,
    pub album: Option<Seq<char>>,
    pub isrc: Option<Seq<char>>,
    pub bpm: Option<Seq<char>>,
    pub musical_key: Option<Seq<char>>,
    pub duration_ms: u64,
    pub file_size: u64,
    pub parsed: TitleView,
}

impl View for LocalTrack {
    type V = LocalView;

    open spec fn view(&self) -> LocalView {
        LocalView {
            path: self.path@,
            file_name: self.file_name@,
            artist: self.artist@,
            title: self.title@,
            album: opt_view(self.album),
            isrc: opt_view(self.isrc),
            bpm: opt_view(self.bpm),
            musical_key: opt_view(self.musical_key),
            duration_ms: self.duration_ms,
            file_size: self.file_size,
            parsed: self.parsed@,
        }
    }
}

/// The artist field with the guests of the title after it.
pub open spec fn credited(t: LocalView) -> Seq<char> {
    if t.parsed.featured.len() == 0 {
        t.artist
    } else {
        t.artist + " "@ + join(t.parsed.featured, " "@)
    }
}

/// The track that tags describe: blank tags do not count, and the file name
/// stands in for a missing artist or title.
pub open spec fn described(path: Seq<char>, file_name: Seq<char>, tags: RawTags) -> LocalView {
    let title = match not_blank(opt_view(tags.title)) {
        Some(t) => t,
        None => named_in(file_name).1,
    };
    LocalView {
        path,
        file_name,
        artist: match not_blank(opt_view(tags.artist)) {
            Some(a) => a,
            None => named_in(file_name).0,
        },
        title,
        album: not_blank(opt_view(tags.album)),
        isrc: tidy_code(opt_view(tags.isrc)),
        bpm: tidy(
            match opt_view(tags.integer_bpm) {
                Some(b) => Some(b),
                None => opt_view(tags.bpm),
            },
        ),
        musical_key: tidy(opt_view(tags.musical_key)),
        duration_ms: tags.duration_ms,
        file_size: tags.file_size,
        parsed: parsed_title(title),
    }
}

/// The artist that stands first; the whole field when it names none.
pub open spec fn first_artist(artist: Seq<char>) -> Seq<char> {
    if artist_names(artist).len() > 0 {
        artist_names(artist)[0]
    } else {
        artist
    }
}

/// The identity of a track: its code where it has one, else what is left of it
/// when spelling, folder and a few seconds of length are set aside.
pub open spec fn identity(t: LocalView) -> Seq<char> {
    match t.isrc {
        Some(code) => "isrc:"@ + code,
        None => "meta:"@ + normalized(t.artist) + "|"@ + t.parsed.base_norm + "|"@
            + ParsedTitle::label(t.parsed) + "|"@ + decimal((t.duration_ms / 5000) as nat),
    }
}

impl LocalTrack {
    /// The track in a file, from the tags and properties read out of it. Falls
    /// back to the filename when the file is untagged, since a white label
    /// with no tags still deserves an attempt.
    pub fn from_tags(path: String, file_name: String, tags: RawTags) -> (r: LocalTrack)
        ensures
            r@ == described(path@, file_name@, tags),
    {
        let (fallback_artist, fallback_title) = artist_title_from_filename(file_name.as_str());
        let artist = match keep_unless_blank(tags.artist) {
            Some(a) => a,
            None => fallback_artist,
        };
        let title = match keep_unless_blank(tags.title) {
            Some(t) => t,
            None => fallback_title,
        };
        let bpm = match tags.integer_bpm {
            Some(b) => Some(b),
            None => tags.bpm,
        };
        LocalTrack {
            parsed: parse_title(title.as_str()),
            path,
            file_name,
            artist,
            title,
            album: keep_unless_blank(tags.album),
            isrc: tidied_code(tags.isrc),
            bpm: tidied(bpm),
            musical_key: tidied(tags.musical_key),
            duration_ms: tags.duration_ms,
            file_size: tags.file_size,
        }
    }

    pub fn primary_artist(&self) -> (r: String)
        ensures
            r@ == first_artist(self@.artist),
    {
        let names = split_artists(self.artist.as_str());
        if names.len() > 0 {
            assert(views(names@)[0] == names@[0]@);
            names[0].clone()
        } else {
            self.artist.clone()
        }
    }

    /// Stable identity that survives a re-tag by Rekordbox/Serato or a move to
    /// a different folder. Prefer ISRC; otherwise artist + base title + a
    /// coarse duration bucket.
    pub fn identity_key(&self) -> (r: String)
        ensures
            r@ == identity(self@),
    {
        match &self.isrc {
            Some(code) => {
                let mut r = string_from("isrc:");
                r.append(code.as_str());
                r
            },
            None => {
                let mut r = string_from("meta:");
                r.append(normalize(self.artist.as_str()).as_str());
                r.append("|");
                r.append(self.parsed.base_norm.as_str());
                r.append("|");
                r.append(self.parsed.descriptor_label().as_str());
                r.append("|");
                push_decimal(&mut r, self.duration_ms / 5000);
                r
            },
        }
    }

    /// All credited names, including guests lifted out of the title, as one
    /// string for token-set comparison.
    pub fn artist_field_for_matching(&self) -> (r: String)
        ensures
            r@ == credited(self@),
    {
        assert(views(self.parsed.featured@).len() == self.parsed.featured@.len());
        if self.parsed.featured.len() == 0 {
            self.artist.clone()
        } else {
            let mut r = self.artist.clone();
            r.append(" ");
            r.append(join_strings(&self.parsed.featured, " ").as_str());
            r
        }
    }

    pub fn duration_display(&self) -> (r: String)
        ensures
            r@ == minutes_seconds(self.duration_ms as nat),
    {
        length_text(self.duration_ms)
    }
}

/// Whether the file name of one track comes before that of another.
pub open spec fn named_before(a: LocalView, b: LocalView) -> bool {
    comes_before(a.file_name, b.file_name)
}

/// What each of the tracks says.
pub open spec fn local_views(v: Seq<LocalTrack>) -> Seq<LocalView> {
    v.map_values(|t: LocalTrack| t@)
}

/// The tracks by file name, equals as they stood.
pub fn by_file_name(tracks: Vec<LocalTrack>) -> (r: Vec<LocalTrack>)
    ensures
        local_views(r@) == in_order(
            local_views(tracks@),
            |a: LocalView, b: LocalView| named_before(a, b),
        ),
{
    let ghost ahead = |a: LocalView, b: LocalView| named_before(a, b);
    let ghost all = local_views(tracks@);
    let mut sorted: Vec<LocalTrack> = Vec::new();
    assert(local_views(sorted@) =~= in_order(all.take(0), ahead));
    for t in it: tracks.into_iter()
        invariant
            ahead == |a: LocalView, b: LocalView| named_before(a, b),
            it.seq().len() == all.len(),
            all == local_views(it.seq()),
            local_views(sorted@) == in_order(all.take(it.index() as int), ahead),
    {
        let ghost i = it.index();
        let ghost before = sorted@;
        proof {
            assert(all.take(i + 1).drop_last() =~= all.take(i as int));
            assert(all.take(i + 1).last() == t@);
        }
        let name = chars_of(t.file_name.as_str());
        let mut p: usize = sorted.len();
        let mut searching: bool = true;
        while p > 0 && searching
            invariant
                ahead == |a: LocalView, b: LocalView| named_before(a, b),
                sorted@ == before,
                name@ == t.file_name@,
                p <= sorted.len(),
                !searching ==> p > 0 && !ahead(t@, sorted@[p - 1]@),
                forall|q: int| p <= q < sorted.len() ==> ahead(t@, #[trigger] sorted@[q]@),
            decreases p, searching as int,
        {
            let other = chars_of(sorted[p - 1].file_name.as_str());
            if is_before(name.as_slice(), other.as_slice()) {
                p = p - 1;
            } else {
                searching = false;
            }
        }
        proof {
            assert forall|q: int| p <= q < local_views(before).len() implies ahead(
                t@,
                #[trigger] local_views(before)[q],
            ) by {
                assert(local_views(before)[q] == before[q]@);
            }
            lemma_placed_at(local_views(before), t@, ahead, p as int);
        }
        sorted.insert(p, t);
        assert(local_views(sorted@) =~= local_views(before).insert(p as int, t@));
    }
    assert(all.take(all.len() as int) =~= all);
    sorted
}

/// Sorting by file name puts the names in dictionary order and neither drops
/// nor adds a track.
pub proof fn law_by_file_name(v: Seq<LocalView>)
    ensures
        is_in_order(
            in_order(v, |a: LocalView, b: LocalView| named_before(a, b)),
            |a: LocalView, b: LocalView| named_before(a, b),
        ),
        in_order(v, |a: LocalView, b: LocalView| named_before(a, b)).to_multiset()
            == v.to_multiset(),
{
    let ahead = |a: LocalView, b: LocalView| named_before(a, b);
    assert forall|a: LocalView, b: LocalView| #[trigger] ahead(a, b) implies !ahead(b, a) by {
        lemma_before_asymmetric(a.file_name, b.file_name);
    }
    assert forall|a: LocalView, b: LocalView, c: LocalView|
        !(#[trigger] ahead(a, b)) && !(#[trigger] ahead(b, c)) implies !ahead(a, c) by {
        lemma_not_before_transitive(a.file_name, b.file_name, c.file_name);
    }
    lemma_in_order(v, ahead);
}

/// The identity of a track survives a move to another folder, a rename, and a
/// re-tag of anything but its artist, its title and its code.
pub proof fn law_identity_survives_moves_and_retags(t: LocalView, u: LocalView)
    requires
        t.isrc == u.isrc,
        t.artist == u.artist,
        t.parsed == u.parsed,
        t.duration_ms == u.duration_ms,
    ensures
        identity(t) == identity(u),
{
}

/// A track that carries a code is known by it, whatever else its tags say.
pub proof fn law_code_alone_identifies(t: LocalView, u: LocalView)
    requires
        t.isrc is Some,
        t.isrc == u.isrc,
    ensures
        identity(t) == identity(u),
{
}

} // verus!
