//! Text as a sequence of characters: trimming, searching, splitting, joining.
//!
//! Everything here works on slices of `char`, so a position is always a
//! character position and never falls inside one.

use vstd::prelude::*;
use vstd::slice::{slice_subrange, slice_to_vec};

verus! {

/// `String::push`: appends the character to the end of the string.
pub assume_specification[ String::push ](s: &mut String, c: char)
    ensures
        final(s)@ == old(s)@.push(c),
;

/// The characters of a string slice.
pub fn chars_of(s: &str) -> (r: Vec<char>)
    ensures
        r@ == s@,
{
    let mut r: Vec<char> = Vec::new();
    for c in it: s.chars()
        invariant
            it.seq() == s@,
            r@ == s@.take(it.index()),
    {
        r.push(c);
    }
    r
}

/// A string holding exactly these characters.
pub fn string_of(chars: &[char]) -> (r: String)
    ensures
        r@ == chars@,
{
    let mut r = String::new();
    let mut i: usize = 0;
    while i < chars.len()
        invariant
            i <= chars.len(),
            r@ == chars@.take(i as int),
        decreases chars.len() - i,
    {
        r.push(chars[i]);
        i = i + 1;
    }
    r
}

/// The Unicode `White_Space` property.
pub open spec fn is_white_space(c: char) -> bool {
    let u = c as u32;
    ||| 0x09 <= u <= 0x0d
    ||| u == 0x20
    ||| u == 0x85
    ||| u == 0xa0
    ||| u == 0x1680
    ||| 0x2000 <= u <= 0x200a
    ||| u == 0x2028
    ||| u == 0x2029
    ||| u == 0x202f
    ||| u == 0x205f
    ||| u == 0x3000
}

/// Whether `c` is white space.
pub fn white_space(c: char) -> (r: bool)
    ensures
        r == is_white_space(c),
{
    let u: u32 = c as u32;
    (0x09 <= u && u <= 0x0d) || u == 0x20 || u == 0x85 || u == 0xa0 || u == 0x1680 || (0x2000 <= u
        && u <= 0x200a) || u == 0x2028 || u == 0x2029 || u == 0x202f || u == 0x205f || u == 0x3000
}

/// `s` without its leading white space.
pub open spec fn trim_start(s: Seq<char>) -> Seq<char>
    decreases s.len(),
{
    if s.len() > 0 && is_white_space(s.first()) {
        trim_start(s.drop_first())
    } else {
        s
    }
}

/// `s` without its trailing white space.
pub open spec fn trim_end(s: Seq<char>) -> Seq<char>
    decreases s.len(),
{
    if s.len() > 0 && is_white_space(s.last()) {
        trim_end(s.drop_last())
    } else {
        s
    }
}

/// `s` without the white space at either end.
pub open spec fn trimmed(s: Seq<char>) -> Seq<char> {
    trim_end(trim_start(s))
}

/// Whether `s` neither starts nor ends with white space.
pub open spec fn is_trimmed(s: Seq<char>) -> bool {
    s.len() > 0 ==> !is_white_space(s.first()) && !is_white_space(s.last())
}

/// Trimming leaves nothing to trim, and what is trimmed already stays as it is.
pub proof fn lemma_trimmed(s: Seq<char>)
    ensures
        is_trimmed(trimmed(s)),
        is_trimmed(s) ==> trimmed(s) == s,
        trimmed(s).len() <= s.len(),
{
    lemma_trim_start(s);
    lemma_trim_end(trim_start(s));
}

proof fn lemma_trim_start(s: Seq<char>)
    ensures
        trim_start(s).len() > 0 ==> !is_white_space(trim_start(s).first()),
        trim_start(s).len() <= s.len(),
        trim_start(s) == s.skip(s.len() - trim_start(s).len()),
    decreases s.len(),
{
    if s.len() > 0 && is_white_space(s.first()) {
        lemma_trim_start(s.drop_first());
        assert(s.drop_first().skip(s.drop_first().len() - trim_start(s.drop_first()).len())
            =~= s.skip(s.len() - trim_start(s).len()));
    } else {
        assert(s.skip(0) =~= s);
    }
}

proof fn lemma_trim_end(s: Seq<char>)
    ensures
        trim_end(s).len() > 0 ==> !is_white_space(trim_end(s).last()),
        trim_end(s).len() <= s.len(),
        trim_end(s) == s.take(trim_end(s).len() as int),
    decreases s.len(),
{
    if s.len() > 0 && is_white_space(s.last()) {
        lemma_trim_end(s.drop_last());
        assert(s.drop_last().take(trim_end(s.drop_last()).len() as int) =~= s.take(
            trim_end(s).len() as int,
        ));
    } else {
        assert(s.take(s.len() as int) =~= s);
    }
}

/// A passage that starts and ends with anything but white space survives
/// trimming.
pub proof fn lemma_trimmed_keeps(s: Seq<char>, needle: Seq<char>)
    requires
        contains(s, needle),
        needle.len() > 0,
        is_trimmed(needle),
    ensures
        contains(trimmed(s), needle),
{
    let i = choose|i: int| occurs_at(s, needle, i);
    assert(s.subrange(i, i + needle.len())[0] == needle[0]);
    lemma_trim_start_at(s, i);
    let t = trim_start(s);
    let front = s.len() - t.len();
    let j = i - front;
    assert(t == s.skip(front));
    assert(t.subrange(j, j + needle.len()) =~= s.subrange(i, i + needle.len()));
    assert(t[j + needle.len() - 1] == needle.last());
    lemma_trim_end_at(t, j + needle.len() - 1);
    let u = trim_end(t);
    assert(u == t.take(u.len() as int));
    assert(u.subrange(j, j + needle.len()) =~= t.subrange(j, j + needle.len()));
    assert(occurs_at(u, needle, j));
}

/// Trimming a text that does not end with white space leaves its end alone.
pub proof fn lemma_trimmed_last(s: Seq<char>)
    requires
        s.len() > 0,
        !is_white_space(s.last()),
    ensures
        trimmed(s).len() > 0,
        trimmed(s).last() == s.last(),
{
    lemma_trim_start_at(s, s.len() - 1);
    let t = trim_start(s);
    assert(t == s.skip(s.len() - t.len()));
    assert(t.last() == s.last());
}

proof fn lemma_trim_start_at(s: Seq<char>, i: int)
    requires
        0 <= i < s.len(),
        !is_white_space(s[i]),
    ensures
        0 <= s.len() - trim_start(s).len() <= i,
        trim_start(s) == s.skip(s.len() - trim_start(s).len()),
    decreases s.len(),
{
    lemma_trim_start(s);
    if is_white_space(s.first()) {
        lemma_trim_start_at(s.drop_first(), i - 1);
    }
}

proof fn lemma_trim_end_at(s: Seq<char>, i: int)
    requires
        0 <= i < s.len(),
        !is_white_space(s[i]),
    ensures
        i < trim_end(s).len() <= s.len(),
        trim_end(s) == s.take(trim_end(s).len() as int),
    decreases s.len(),
{
    lemma_trim_end(s);
    if is_white_space(s.last()) {
        lemma_trim_end_at(s.drop_last(), i);
    }
}

/// The slice without the white space at either end.
pub fn trim<'a>(s: &'a [char]) -> (r: &'a [char])
    ensures
        r@ == trimmed(s@),
{
    let n: usize = s.len();
    let mut i: usize = 0;
    assert(s@.subrange(0, n as int) =~= s@);
    while i < n && white_space(s[i])
        invariant
            i <= n == s.len(),
            trim_start(s@) == trim_start(s@.subrange(i as int, n as int)),
        decreases n - i,
    {
        assert(s@.subrange(i as int, n as int).drop_first() =~= s@.subrange(i + 1, n as int));
        i = i + 1;
    }
    assert(trim_start(s@) == s@.subrange(i as int, n as int));
    let mut j: usize = n;
    while j > i && white_space(s[j - 1])
        invariant
            i <= j <= n == s.len(),
            trim_end(trim_start(s@)) == trim_end(s@.subrange(i as int, j as int)),
        decreases j,
    {
        assert(s@.subrange(i as int, j as int).drop_last() =~= s@.subrange(i as int, j - 1));
        j = j - 1;
    }
    slice_subrange(s, i, j)
}

/// `s` without the run of `c` that it starts with.
pub open spec fn strip_start(s: Seq<char>, c: char) -> Seq<char>
    decreases s.len(),
{
    if s.len() > 0 && s.first() == c {
        strip_start(s.drop_first(), c)
    } else {
        s
    }
}

/// `s` without the run of `c` that it ends with.
pub open spec fn strip_end(s: Seq<char>, c: char) -> Seq<char>
    decreases s.len(),
{
    if s.len() > 0 && s.last() == c {
        strip_end(s.drop_last(), c)
    } else {
        s
    }
}

/// The slice without the run of `c` that it starts with.
pub fn strip_leading<'a>(s: &'a [char], c: char) -> (r: &'a [char])
    ensures
        r@ == strip_start(s@, c),
{
    let n: usize = s.len();
    let mut i: usize = 0;
    assert(s@.subrange(0, n as int) =~= s@);
    while i < n && s[i] == c
        invariant
            i <= n == s.len(),
            strip_start(s@, c) == strip_start(s@.subrange(i as int, n as int), c),
        decreases n - i,
    {
        assert(s@.subrange(i as int, n as int).drop_first() =~= s@.subrange(i + 1, n as int));
        i = i + 1;
    }
    slice_subrange(s, i, n)
}

/// The slice without the run of `c` that it ends with.
pub fn strip_trailing<'a>(s: &'a [char], c: char) -> (r: &'a [char])
    ensures
        r@ == strip_end(s@, c),
{
    let mut j: usize = s.len();
    assert(s@.subrange(0, j as int) =~= s@);
    while j > 0 && s[j - 1] == c
        invariant
            j <= s.len(),
            strip_end(s@, c) == strip_end(s@.subrange(0, j as int), c),
        decreases j,
    {
        assert(s@.subrange(0, j as int).drop_last() =~= s@.subrange(0, j - 1));
        j = j - 1;
    }
    slice_subrange(s, 0, j)
}

/// Whether `needle` stands in `hay` at position `i`.
pub open spec fn occurs_at(hay: Seq<char>, needle: Seq<char>, i: int) -> bool {
    &&& 0 <= i
    &&& i + needle.len() <= hay.len()
    &&& hay.subrange(i, i + needle.len()) == needle
}

/// Whether `needle` stands anywhere in `hay`.
pub open spec fn contains(hay: Seq<char>, needle: Seq<char>) -> bool {
    exists|i: int| occurs_at(hay, needle, i)
}

/// The first position at or after `from` where `needle` stands in `hay`.
pub open spec fn find_from(hay: Seq<char>, needle: Seq<char>, from: int) -> Option<int>
    decreases hay.len() + 1 - from,
{
    if from < 0 || from + needle.len() > hay.len() {
        None
    } else if occurs_at(hay, needle, from) {
        Some(from)
    } else {
        find_from(hay, needle, from + 1)
    }
}

/// The first position where `needle` stands in `hay`.
pub open spec fn find(hay: Seq<char>, needle: Seq<char>) -> Option<int> {
    find_from(hay, needle, 0)
}

/// The position `find_from` gives is an occurrence, and none comes before it.
pub proof fn lemma_find_from(hay: Seq<char>, needle: Seq<char>, from: int)
    requires
        0 <= from,
    ensures
        find_from(hay, needle, from) matches Some(i) ==> from <= i && occurs_at(hay, needle, i)
            && forall|j: int| from <= j < i ==> !occurs_at(hay, needle, j),
        find_from(hay, needle, from) is None ==> forall|j: int|
            from <= j ==> !occurs_at(hay, needle, j),
    decreases hay.len() + 1 - from,
{
    if from + needle.len() <= hay.len() && !occurs_at(hay, needle, from) {
        lemma_find_from(hay, needle, from + 1);
    }
}

/// A needle is found exactly when the text contains it.
pub proof fn lemma_find(hay: Seq<char>, needle: Seq<char>)
    ensures
        find(hay, needle) is Some <==> contains(hay, needle),
        find(hay, needle) matches Some(i) ==> 0 <= i && i + needle.len() <= hay.len(),
{
    lemma_find_from(hay, needle, 0);
}

/// Whether `needle` stands in `hay` at position `i`.
pub fn matches_at(hay: &[char], needle: &[char], i: usize) -> (r: bool)
    ensures
        r == occurs_at(hay@, needle@, i as int),
{
    let n: usize = needle.len();
    if i > hay.len() || hay.len() - i < n {
        return false;
    }
    let mut k: usize = 0;
    while k < n
        invariant
            k <= n == needle.len(),
            i + n <= hay.len(),
            forall|j: int| 0 <= j < k ==> hay@[i + j] == needle@[j],
        decreases n - k,
    {
        if hay[i + k] != needle[k] {
            assert(hay@.subrange(i as int, i + n)[k as int] != needle@[k as int]);
            return false;
        }
        k = k + 1;
    }
    assert(hay@.subrange(i as int, i + n) =~= needle@);
    true
}

/// Position of the first occurrence of `needle`.
pub fn index_of(hay: &[char], needle: &[char]) -> (r: Option<usize>)
    ensures
        r is Some <==> find(hay@, needle@) is Some,
        r matches Some(i) ==> find(hay@, needle@) == Some(i as int) && i + needle@.len()
            <= hay@.len(),
{
    proof {
        lemma_find(hay@, needle@);
    }
    let mut i: usize = 0;
    while i <= hay.len() && hay.len() - i >= needle.len()
        invariant
            i <= hay.len() + 1,
            find(hay@, needle@) == find_from(hay@, needle@, i as int),
        decreases hay.len() + 1 - i,
    {
        if matches_at(hay, needle, i) {
            return Some(i);
        }
        if i == hay.len() {
            assert(find_from(hay@, needle@, i + 1) is None);
            return None;
        }
        i = i + 1;
    }
    None
}

/// Whether `needle` stands anywhere in `hay`.
pub fn has(hay: &[char], needle: &[char]) -> (r: bool)
    ensures
        r == contains(hay@, needle@),
{
    proof {
        lemma_find(hay@, needle@);
    }
    index_of(hay, needle).is_some()
}

/// The last position where `needle` stands in `hay`, among those below `end`.
pub open spec fn rfind_below(hay: Seq<char>, needle: Seq<char>, end: int) -> Option<int>
    decreases end,
{
    if end <= 0 {
        None
    } else if occurs_at(hay, needle, end - 1) {
        Some(end - 1)
    } else {
        rfind_below(hay, needle, end - 1)
    }
}

/// The last position where `needle` stands in `hay`.
pub open spec fn rfind(hay: Seq<char>, needle: Seq<char>) -> Option<int> {
    rfind_below(hay, needle, hay.len() as int + 1)
}

/// The position `rfind_below` gives is an occurrence, and none comes after it.
pub proof fn lemma_rfind_below(hay: Seq<char>, needle: Seq<char>, end: int)
    ensures
        rfind_below(hay, needle, end) matches Some(i) ==> i < end && occurs_at(hay, needle, i)
            && forall|j: int| i < j < end ==> !occurs_at(hay, needle, j),
        rfind_below(hay, needle, end) is None ==> forall|j: int|
            j < end ==> !occurs_at(hay, needle, j),
    decreases end,
{
    if end > 0 && !occurs_at(hay, needle, end - 1) {
        lemma_rfind_below(hay, needle, end - 1);
    }
}

/// Position of the last occurrence of `needle`.
pub fn last_index_of(hay: &[char], needle: &[char]) -> (r: Option<usize>)
    ensures
        r is Some <==> rfind(hay@, needle@) is Some,
        r matches Some(i) ==> rfind(hay@, needle@) == Some(i as int) && i + needle@.len()
            <= hay@.len(),
{
    if needle.len() > hay.len() {
        proof {
            lemma_rfind_below(hay@, needle@, hay@.len() as int + 1);
        }
        return None;
    }
    let mut end: usize = hay.len() - needle.len();
    proof {
        lemma_rfind_skip(hay@, needle@, end + 1, hay@.len() as int + 1);
    }
    loop
        invariant
            end + needle@.len() <= hay@.len(),
            rfind(hay@, needle@) == rfind_below(hay@, needle@, end + 1),
        decreases end,
    {
        if matches_at(hay, needle, end) {
            return Some(end);
        }
        if end == 0 {
            assert(rfind_below(hay@, needle@, 0) is None);
            return None;
        }
        end = end - 1;
    }
}

proof fn lemma_rfind_skip(hay: Seq<char>, needle: Seq<char>, low: int, high: int)
    requires
        0 <= low <= high,
        low + needle.len() > hay.len(),
    ensures
        rfind_below(hay, needle, high) == rfind_below(hay, needle, low),
    decreases high,
{
    if low < high {
        lemma_rfind_skip(hay, needle, low, high - 1);
    }
}

/// An ASCII capital in lower case; every other character as it is.
pub open spec fn ascii_lower(c: char) -> char {
    if 'A' <= c <= 'Z' {
        (c as u8 + 32) as char
    } else {
        c
    }
}

/// `s` with its ASCII capitals in lower case.
pub open spec fn lower_ascii(s: Seq<char>) -> Seq<char> {
    s.map_values(|c: char| ascii_lower(c))
}

/// An ASCII capital in lower case; every other character as it is.
pub fn lower_char(c: char) -> (r: char)
    ensures
        r == ascii_lower(c),
{
    if 'A' <= c && c <= 'Z' {
        (c as u8 + 32) as char
    } else {
        c
    }
}

/// The characters with ASCII capitals in lower case.
pub fn lower_chars(s: &[char]) -> (r: Vec<char>)
    ensures
        r@ == lower_ascii(s@),
{
    let mut r: Vec<char> = Vec::new();
    let mut i: usize = 0;
    while i < s.len()
        invariant
            i <= s.len(),
            r@ == lower_ascii(s@.take(i as int)),
        decreases s.len() - i,
    {
        r.push(lower_char(s[i]));
        i = i + 1;
        assert(r@ =~= lower_ascii(s@.take(i as int)));
    }
    assert(s@.take(s@.len() as int) =~= s@);
    r
}

/// Whether the two slices hold the same characters.
pub fn same(a: &[char], b: &[char]) -> (r: bool)
    ensures
        r == (a@ == b@),
{
    if a.len() != b.len() {
        return false;
    }
    let mut i: usize = 0;
    while i < a.len()
        invariant
            i <= a.len() == b.len(),
            forall|j: int| 0 <= j < i ==> a@[j] == b@[j],
        decreases a.len() - i,
    {
        if a[i] != b[i] {
            return false;
        }
        i = i + 1;
    }
    assert(a@ =~= b@);
    true
}

/// Whether the string holds the characters of the literal.
pub fn same_str(a: &str, b: &str) -> (r: bool)
    ensures
        r == (a@ == b@),
{
    let x = chars_of(a);
    let y = chars_of(b);
    same(x.as_slice(), y.as_slice())
}

/// Whether the slice holds the characters of the literal.
pub fn reads(a: &[char], b: &str) -> (r: bool)
    ensures
        r == (a@ == b@),
{
    let y = chars_of(b);
    same(a, y.as_slice())
}

/// How many characters that are not white space `s` starts with.
pub open spec fn word_len(s: Seq<char>) -> nat
    decreases s.len(),
{
    if s.len() > 0 && !is_white_space(s.first()) {
        1 + word_len(s.drop_first())
    } else {
        0
    }
}

/// A word is no longer than the text it starts.
pub proof fn lemma_word_len(s: Seq<char>)
    ensures
        word_len(s) <= s.len(),
    decreases s.len(),
{
    if s.len() > 0 {
        lemma_word_len(s.drop_first());
    }
}

/// The words of `s`: its maximal runs without white space, in order.
pub open spec fn words(s: Seq<char>) -> Seq<Seq<char>>
    decreases s.len(),
{
    if s.len() == 0 {
        Seq::empty()
    } else if is_white_space(s.first()) {
        words(s.drop_first())
    } else {
        proof {
            lemma_word_len(s);
        }
        seq![s.take(word_len(s) as int)] + words(s.skip(word_len(s) as int))
    }
}

/// What a list of character vectors holds.
pub open spec fn seqs(v: Seq<Vec<char>>) -> Seq<Seq<char>> {
    v.map_values(|w: Vec<char>| w@)
}

/// What a list of strings holds.
pub open spec fn views(v: Seq<String>) -> Seq<Seq<char>> {
    v.map_values(|w: String| w@)
}

/// What an optional string holds.
pub open spec fn opt_view(o: Option<String>) -> Option<Seq<char>> {
    match o {
        Some(s) => Some(s@),
        None => None,
    }
}

/// A list with one more vector holds one more sequence.
pub broadcast proof fn lemma_seqs_push(v: Seq<Vec<char>>, w: Vec<char>)
    ensures
        #[trigger] seqs(v.push(w)) == seqs(v).push(w@),
{
    assert(seqs(v.push(w)) =~= seqs(v).push(w@));
}

/// A list with one more string holds one more text.
pub broadcast proof fn lemma_views_push(v: Seq<String>, w: String)
    ensures
        #[trigger] views(v.push(w)) == views(v).push(w@),
{
    assert(views(v.push(w)) =~= views(v).push(w@));
}

/// The words of the slice, in order.
pub fn split_words(s: &[char]) -> (r: Vec<Vec<char>>)
    ensures
        seqs(r@) == words(s@),
{
    let n: usize = s.len();
    let mut r: Vec<Vec<char>> = Vec::new();
    let mut i: usize = 0;
    assert(s@.skip(0) =~= s@);
    assert(seqs(r@) + words(s@) =~= words(s@));
    while i < n
        invariant
            i <= n == s.len(),
            seqs(r@) + words(s@.skip(i as int)) == words(s@),
        decreases n - i,
    {
        if white_space(s[i]) {
            assert(s@.skip(i as int).drop_first() =~= s@.skip(i + 1));
            i = i + 1;
        } else {
            let start: usize = i;
            let ghost rest = s@.skip(start as int);
            assert(rest.skip(0) =~= rest);
            while i < n && !white_space(s[i])
                invariant
                    start <= i <= n == s.len(),
                    rest == s@.skip(start as int),
                    word_len(rest) == (i - start) + word_len(rest.skip(i - start)),
                decreases n - i,
            {
                assert(rest.skip(i - start).first() == s@[i as int]);
                assert(rest.skip(i - start).drop_first() =~= rest.skip(i + 1 - start));
                i = i + 1;
            }
            assert(word_len(rest.skip(i - start)) == 0);
            let ghost before = r@;
            r.push(slice_to_vec(slice_subrange(s, start, i)));
            proof {
                assert(rest.first() == s@[start as int]);
                assert(s@.subrange(start as int, i as int) =~= rest.take(i - start));
                assert(rest.skip(i - start) =~= s@.skip(i as int));
                assert(seqs(r@) =~= seqs(before).push(rest.take(i - start)));
                assert(seqs(r@) + words(s@.skip(i as int)) =~= seqs(before) + (seq![
                    rest.take(i - start),
                ] + words(s@.skip(i as int))));
            }
        }
    }
    assert(s@.skip(n as int).len() == 0);
    assert(seqs(r@) + words(s@.skip(n as int)) =~= seqs(r@));
    r
}

/// The parts one after another, with `sep` between them.
pub open spec fn join(parts: Seq<Seq<char>>, sep: Seq<char>) -> Seq<char>
    decreases parts.len(),
{
    if parts.len() == 0 {
        Seq::empty()
    } else if parts.len() == 1 {
        parts[0]
    } else {
        join(parts.drop_last(), sep) + sep + parts.last()
    }
}

/// Appends the characters of a slice to a vector.
pub fn extend(v: &mut Vec<char>, s: &[char])
    ensures
        final(v)@ == old(v)@ + s@,
{
    let mut i: usize = 0;
    while i < s.len()
        invariant
            i <= s.len(),
            v@ == old(v)@ + s@.take(i as int),
        decreases s.len() - i,
    {
        v.push(s[i]);
        i = i + 1;
        assert(v@ =~= old(v)@ + s@.take(i as int));
    }
    assert(s@.take(s@.len() as int) =~= s@);
}

/// The parts one after another, with `sep` between them.
pub fn join_chars(parts: &Vec<Vec<char>>, sep: &[char]) -> (r: Vec<char>)
    ensures
        r@ == join(seqs(parts@), sep@),
{
    let mut r: Vec<char> = Vec::new();
    let mut i: usize = 0;
    while i < parts.len()
        invariant
            i <= parts.len(),
            r@ == join(seqs(parts@).take(i as int), sep@),
        decreases parts.len() - i,
    {
        if i > 0 {
            extend(&mut r, sep);
        }
        extend(&mut r, parts[i].as_slice());
        i = i + 1;
        proof {
            let whole = seqs(parts@).take(i as int);
            assert(whole.drop_last() =~= seqs(parts@).take(i - 1));
            assert(r@ =~= join(whole, sep@));
        }
    }
    assert(seqs(parts@).take(parts@.len() as int) =~= seqs(parts@));
    r
}

/// The strings one after another, with `sep` between them.
pub fn join_strings(parts: &Vec<String>, sep: &str) -> (r: String)
    ensures
        r@ == join(views(parts@), sep@),
{
    let mut r = String::new();
    let mut i: usize = 0;
    while i < parts.len()
        invariant
            i <= parts.len(),
            r@ == join(views(parts@).take(i as int), sep@),
        decreases parts.len() - i,
    {
        if i > 0 {
            r.append(sep);
        }
        r.append(parts[i].as_str());
        i = i + 1;
        proof {
            let whole = views(parts@).take(i as int);
            assert(whole.drop_last() =~= views(parts@).take(i - 1));
            assert(r@ =~= join(whole, sep@));
        }
    }
    assert(views(parts@).take(parts@.len() as int) =~= views(parts@));
    r
}

/// The character of a decimal digit.
pub open spec fn digit(d: int) -> char {
    (48 + d) as u8 as char
}

/// A number written in decimal.
pub open spec fn decimal(n: nat) -> Seq<char>
    decreases n,
{
    if n < 10 {
        seq![digit(n as int)]
    } else {
        decimal(n / 10).push(digit((n % 10) as int))
    }
}

/// A number written in decimal, with two digits at least.
pub open spec fn two_digits(n: nat) -> Seq<char> {
    if n < 10 {
        seq!['0'] + decimal(n)
    } else {
        decimal(n)
    }
}

/// A signed number written in decimal.
pub open spec fn signed_decimal(n: int) -> Seq<char> {
    if n < 0 {
        seq!['-'] + decimal((-n) as nat)
    } else {
        decimal(n as nat)
    }
}

/// The character of a decimal digit.
pub fn digit_of(d: u8) -> (r: char)
    requires
        d < 10,
    ensures
        r == digit(d as int),
{
    (48 + d) as char
}

/// Writes a large number in decimal.
pub fn push_large(out: &mut String, n: u128)
    ensures
        final(out)@ == old(out)@ + decimal(n as nat),
    decreases n,
{
    if n >= 10 {
        push_large(out, n / 10);
    }
    out.push(digit_of((n % 10) as u8));
    assert(out@ =~= old(out)@ + decimal(n as nat));
}

/// Writes a number in decimal.
pub fn push_decimal(out: &mut String, n: u64)
    ensures
        final(out)@ == old(out)@ + decimal(n as nat),
{
    push_large(out, n as u128);
}

/// Writes a number in decimal, with two digits at least.
pub fn push_two_digits(out: &mut String, n: u64)
    ensures
        final(out)@ == old(out)@ + two_digits(n as nat),
{
    if n < 10 {
        out.push('0');
    }
    push_decimal(out, n);
    assert(out@ =~= old(out)@ + two_digits(n as nat));
}

/// Writes a signed number in decimal.
pub fn push_signed(out: &mut String, n: i64)
    ensures
        final(out)@ == old(out)@ + signed_decimal(n as int),
{
    if n < 0 {
        out.push('-');
        if n == i64::MIN {
            push_decimal(out, 0x8000_0000_0000_0000);
        } else {
            push_decimal(out, (-n) as u64);
        }
    } else {
        push_decimal(out, n as u64);
    }
    assert(out@ =~= old(out)@ + signed_decimal(n as int));
}

/// A length in milliseconds as minutes and seconds.
pub open spec fn minutes_seconds(ms: nat) -> Seq<char> {
    decimal(ms / 1000 / 60) + ":"@ + two_digits(ms / 1000 % 60)
}

/// A length in milliseconds as minutes and seconds.
pub fn length_text(ms: u64) -> (r: String)
    ensures
        r@ == minutes_seconds(ms as nat),
{
    let total: u64 = ms / 1000;
    let mut r = String::new();
    push_decimal(&mut r, total / 60);
    r.append(":");
    push_two_digits(&mut r, total % 60);
    assert(r@ =~= minutes_seconds(ms as nat));
    r
}

/// The same strings, in a vector of their own.
pub fn clone_strings(v: &Vec<String>) -> (r: Vec<String>)
    ensures
        views(r@) == views(v@),
{
    let mut r: Vec<String> = Vec::new();
    let mut i: usize = 0;
    while i < v.len()
        invariant
            i <= v.len(),
            views(r@) == views(v@).take(i as int),
        decreases v.len() - i,
    {
        let ghost before = r@;
        r.push(v[i].clone());
        i = i + 1;
        proof {
            assert(views(v@).take(i as int) =~= views(v@).take(i - 1).push(v@[i - 1]@));
            lemma_views_push(before, r@.last());
        }
    }
    assert(views(v@).take(v@.len() as int) =~= views(v@));
    r
}

/// The same optional string, on its own.
pub fn clone_opt(o: &Option<String>) -> (r: Option<String>)
    ensures
        opt_view(r) == opt_view(*o),
{
    match o {
        Some(s) => Some(s.clone()),
        None => None,
    }
}

/// A string of its own with the given text.
pub fn string_from(s: &str) -> (r: String)
    ensures
        r@ == s@,
{
    let mut r = String::new();
    r.append(s);
    assert(r@ =~= s@);
    r
}

/// The string, or the empty one when there is none.
pub open spec fn or_empty(o: Option<Seq<char>>) -> Seq<char> {
    match o {
        Some(s) => s,
        None => Seq::empty(),
    }
}

/// The string, or the empty one when there is none.
pub fn string_or_empty(o: &Option<String>) -> (r: String)
    ensures
        r@ == or_empty(opt_view(*o)),
{
    match o {
        Some(s) => s.clone(),
        None => String::new(),
    }
}

/// Whether `c` is a decimal digit.
pub open spec fn is_digit(c: char) -> bool {
    '0' <= c <= '9'
}

/// Whether there are digits, and nothing else.
pub open spec fn is_number(s: Seq<char>) -> bool {
    s.len() > 0 && forall|i: int| 0 <= i < s.len() ==> is_digit(#[trigger] s[i])
}

/// The number that digits stand for.
pub open spec fn value_of(s: Seq<char>) -> int
    decreases s.len(),
{
    if s.len() == 0 {
        0
    } else {
        10 * value_of(s.drop_last()) + (s.last() as int - '0' as int)
    }
}

/// The number that digits stand for, when there are only digits and the number
/// fits 64 bits.
pub open spec fn digits_number(s: Seq<char>) -> Option<u64> {
    if is_number(s) && value_of(s) <= u64::MAX {
        Some(value_of(s) as u64)
    } else {
        None
    }
}

/// The number a text stands for: digits, perhaps behind a plus sign, of a value
/// that fits 64 bits.
pub open spec fn unsigned_number(s: Seq<char>) -> Option<u64> {
    if s.len() > 0 && s[0] == '+' {
        digits_number(s.drop_first())
    } else {
        digits_number(s)
    }
}

proof fn lemma_value_of(s: Seq<char>, n: int)
    requires
        is_number(s),
        0 <= n <= s.len(),
    ensures
        0 <= value_of(s.take(n)) <= value_of(s),
    decreases s.len() - n,
{
    if n < s.len() {
        lemma_value_of(s, n + 1);
        lemma_value_nonnegative(s, n);
        assert(s.take(n + 1).drop_last() =~= s.take(n));
        assert(is_digit(s[n]));
    } else {
        assert(s.take(n) =~= s);
        lemma_value_nonnegative(s, n);
    }
}

proof fn lemma_value_nonnegative(s: Seq<char>, n: int)
    requires
        is_number(s),
        0 <= n <= s.len(),
    ensures
        0 <= value_of(s.take(n)),
    decreases n,
{
    if n > 0 {
        lemma_value_nonnegative(s, n - 1);
        assert(s.take(n).drop_last() =~= s.take(n - 1));
        assert(is_digit(s[n - 1]));
    }
}

/// Reads digits as a number.
pub fn parse_digits(s: &[char]) -> (r: Option<u64>)
    ensures
        r == digits_number(s@),
{
    if s.len() == 0 {
        return None;
    }
    let mut i: usize = 0;
    while i < s.len() && '0' <= s[i] && s[i] <= '9'
        invariant
            i <= s.len(),
            forall|k: int| 0 <= k < i ==> is_digit(#[trigger] s@[k]),
        decreases s.len() - i,
    {
        i = i + 1;
    }
    if i < s.len() {
        assert(!is_digit(s@[i as int]));
        return None;
    }
    let mut value: u64 = 0;
    let mut j: usize = 0;
    while j < s.len()
        invariant
            j <= s.len(),
            is_number(s@),
            value == value_of(s@.take(j as int)),
        decreases s.len() - j,
    {
        proof {
            lemma_value_of(s@, j + 1);
            assert(s@.take(j + 1).drop_last() =~= s@.take(j as int));
            assert(is_digit(s@[j as int]));
        }
        let d: u64 = (s[j] as u32 - 48) as u64;
        if value > (0xffff_ffff_ffff_ffff - d) / 10 {
            return None;
        }
        value = 10 * value + d;
        j = j + 1;
    }
    assert(s@.take(s@.len() as int) =~= s@);
    Some(value)
}

/// Reads a text as a number.
pub fn parse_unsigned(s: &[char]) -> (r: Option<u64>)
    ensures
        r == unsigned_number(s@),
{
    let n: usize = s.len();
    if n > 0 && s[0] == '+' {
        assert(s@.subrange(1, n as int) =~= s@.drop_first());
        parse_digits(slice_subrange(s, 1, n))
    } else {
        parse_digits(s)
    }
}

} // verus!
