//! Ordered sets of words.
//!
//! A set of words is a vector without repetitions, in the order that strings
//! have: character by character, by code point.

use vstd::prelude::*;

use crate::text::{same, seqs};

verus! {

/// Whether `a` comes strictly before `b` in dictionary order by code point.
pub open spec fn comes_before(a: Seq<char>, b: Seq<char>) -> bool
    decreases a.len(),
{
    if b.len() == 0 {
        false
    } else if a.len() == 0 {
        true
    } else if a.first() == b.first() {
        comes_before(a.drop_first(), b.drop_first())
    } else {
        a.first() < b.first()
    }
}

proof fn lemma_before_irreflexive(a: Seq<char>)
    ensures
        !comes_before(a, a),
    decreases a.len(),
{
    if a.len() > 0 {
        lemma_before_irreflexive(a.drop_first());
    }
}

proof fn lemma_before_transitive(a: Seq<char>, b: Seq<char>, c: Seq<char>)
    requires
        comes_before(a, b),
        comes_before(b, c),
    ensures
        comes_before(a, c),
    decreases a.len(),
{
    if a.len() > 0 {
        if a.first() == b.first() && b.first() == c.first() {
            lemma_before_transitive(a.drop_first(), b.drop_first(), c.drop_first());
        }
    }
}

proof fn lemma_before_total(a: Seq<char>, b: Seq<char>)
    ensures
        a == b || comes_before(a, b) || comes_before(b, a),
    decreases a.len(),
{
    if a.len() > 0 && b.len() > 0 && a.first() == b.first() {
        lemma_before_total(a.drop_first(), b.drop_first());
        if a.drop_first() == b.drop_first() {
            assert(a =~= seq![a.first()] + a.drop_first());
            assert(b =~= seq![b.first()] + b.drop_first());
        }
    } else if a.len() == 0 && b.len() == 0 {
        assert(a =~= b);
    }
}

/// Of two words at most one comes before the other.
pub proof fn lemma_before_asymmetric(a: Seq<char>, b: Seq<char>)
    ensures
        comes_before(a, b) ==> !comes_before(b, a),
{
    if comes_before(a, b) && comes_before(b, a) {
        lemma_before_transitive(a, b, a);
        lemma_before_irreflexive(a);
    }
}

/// A word that does not come before a second, which does not come before a
/// third, does not come before the third.
pub proof fn lemma_not_before_transitive(a: Seq<char>, b: Seq<char>, c: Seq<char>)
    ensures
        !comes_before(a, b) && !comes_before(b, c) ==> !comes_before(a, c),
{
    if !comes_before(a, b) && !comes_before(b, c) && comes_before(a, c) {
        lemma_before_total(a, b);
        lemma_before_total(b, c);
        if comes_before(b, a) {
            lemma_before_transitive(b, a, c);
        }
        lemma_before_irreflexive(a);
    }
}

/// Whether every word comes strictly before the ones after it.
pub open spec fn increasing(s: Seq<Seq<char>>) -> bool {
    forall|i: int, j: int| 0 <= i < j < s.len() ==> comes_before(#[trigger] s[i], #[trigger] s[j])
}

/// `s` with `w` at its place; `s` itself when it holds `w` already.
pub open spec fn with_word(s: Seq<Seq<char>>, w: Seq<char>) -> Seq<Seq<char>>
    decreases s.len(),
{
    if s.len() == 0 {
        seq![w]
    } else if w == s.first() {
        s
    } else if comes_before(w, s.first()) {
        seq![w] + s
    } else {
        seq![s.first()] + with_word(s.drop_first(), w)
    }
}

/// The different words of `ws`, in order.
pub open spec fn word_set(ws: Seq<Seq<char>>) -> Seq<Seq<char>>
    decreases ws.len(),
{
    if ws.len() == 0 {
        Seq::empty()
    } else {
        with_word(word_set(ws.drop_last()), ws.last())
    }
}

proof fn lemma_with_word(s: Seq<Seq<char>>, w: Seq<char>)
    requires
        increasing(s),
    ensures
        increasing(with_word(s, w)),
        forall|x: Seq<char>| #[trigger] with_word(s, w).contains(x) <==> (x == w || s.contains(x)),
    decreases s.len(),
{
    let r = with_word(s, w);
    if s.len() == 0 {
        assert(r[0] == w);
        assert forall|x: Seq<char>| #[trigger] r.contains(x) <==> (x == w || s.contains(x)) by {
            if x == w {
                assert(r[0] == x);
            }
        }
    } else if w == s.first() {
        assert(s[0] == w);
    } else if comes_before(w, s.first()) {
        assert forall|i: int, j: int| 0 <= i < j < r.len() implies comes_before(
            #[trigger] r[i],
            #[trigger] r[j],
        ) by {
            assert(r[j] == s[j - 1]);
            if i == 0 {
                if j > 1 {
                    lemma_before_transitive(w, s[0], s[j - 1]);
                }
            } else {
                assert(r[i] == s[i - 1]);
            }
        }
        assert forall|x: Seq<char>| #[trigger] r.contains(x) <==> (x == w || s.contains(x)) by {
            if x == w {
                assert(r[0] == x);
            }
            if s.contains(x) {
                let k = choose|k: int| 0 <= k < s.len() && s[k] == x;
                assert(r[k + 1] == x);
            }
            if r.contains(x) {
                let k = choose|k: int| 0 <= k < r.len() && r[k] == x;
                if k > 0 {
                    assert(s[k - 1] == x);
                }
            }
        }
    } else {
        let t = s.drop_first();
        assert forall|i: int, j: int| 0 <= i < j < t.len() implies comes_before(
            #[trigger] t[i],
            #[trigger] t[j],
        ) by {
            assert(t[i] == s[i + 1] && t[j] == s[j + 1]);
        }
        lemma_with_word(t, w);
        lemma_before_total(w, s[0]);
        let u = with_word(t, w);
        assert(r =~= seq![s[0]] + u);
        assert forall|i: int, j: int| 0 <= i < j < r.len() implies comes_before(
            #[trigger] r[i],
            #[trigger] r[j],
        ) by {
            assert(r[j] == u[j - 1]);
            if i == 0 {
                assert(u.contains(u[j - 1]));
                if u[j - 1] != w {
                    assert(t.contains(u[j - 1]));
                    let k = choose|k: int| 0 <= k < t.len() && t[k] == u[j - 1];
                    assert(t[k] == s[k + 1]);
                }
            } else {
                assert(r[i] == u[i - 1]);
            }
        }
        assert forall|x: Seq<char>| #[trigger] r.contains(x) <==> (x == w || s.contains(x)) by {
            if x == w || s.contains(x) {
                if x == s[0] {
                    assert(r[0] == x);
                } else {
                    if x != w {
                        let k = choose|k: int| 0 <= k < s.len() && s[k] == x;
                        assert(t[k - 1] == x);
                    }
                    assert(u.contains(x));
                    let m = choose|m: int| 0 <= m < u.len() && u[m] == x;
                    assert(r[m + 1] == x);
                }
            }
            if r.contains(x) {
                let k = choose|k: int| 0 <= k < r.len() && r[k] == x;
                if k == 0 {
                    assert(s[0] == x);
                } else {
                    assert(u[k - 1] == x);
                    assert(u.contains(x));
                    if x != w {
                        let m = choose|m: int| 0 <= m < t.len() && t[m] == x;
                        assert(s[m + 1] == x);
                    }
                }
            }
        }
    }
}

/// A word set is in order, repeats nothing and holds exactly the words given.
pub proof fn lemma_word_set(ws: Seq<Seq<char>>)
    ensures
        increasing(word_set(ws)),
        word_set(ws).no_duplicates(),
        forall|x: Seq<char>| #[trigger] word_set(ws).contains(x) <==> ws.contains(x),
    decreases ws.len(),
{
    let r = word_set(ws);
    if ws.len() > 0 {
        lemma_word_set(ws.drop_last());
        lemma_with_word(word_set(ws.drop_last()), ws.last());
        assert forall|x: Seq<char>| #[trigger] r.contains(x) <==> ws.contains(x) by {
            if ws.contains(x) {
                let k = choose|k: int| 0 <= k < ws.len() && ws[k] == x;
                if k < ws.len() - 1 {
                    assert(ws.drop_last()[k] == x);
                    assert(ws.drop_last().contains(x));
                }
            }
            if ws.drop_last().contains(x) {
                let k = choose|k: int| 0 <= k < ws.drop_last().len() && ws.drop_last()[k] == x;
                assert(ws[k] == x);
            }
            assert(ws[ws.len() - 1] == ws.last());
        }
    }
    assert forall|i: int, j: int| 0 <= i < r.len() && 0 <= j < r.len() && i != j implies r[i]
        != r[j] by {
        lemma_before_irreflexive(r[i]);
        if i < j {
            assert(comes_before(r[i], r[j]));
        } else {
            assert(comes_before(r[j], r[i]));
        }
    }
}

/// Whether `a` comes strictly before `b`.
pub fn is_before(a: &[char], b: &[char]) -> (r: bool)
    ensures
        r == comes_before(a@, b@),
{
    let mut i: usize = 0;
    assert(a@.skip(0) =~= a@);
    assert(b@.skip(0) =~= b@);
    while i < a.len() && i < b.len()
        invariant
            i <= a.len(),
            i <= b.len(),
            comes_before(a@, b@) == comes_before(a@.skip(i as int), b@.skip(i as int)),
        decreases a.len() - i,
    {
        if a[i] != b[i] {
            return a[i] < b[i];
        }
        assert(a@.skip(i as int).drop_first() =~= a@.skip(i + 1));
        assert(b@.skip(i as int).drop_first() =~= b@.skip(i + 1));
        i = i + 1;
    }
    i < b.len()
}

proof fn lemma_with_word_at(s: Seq<Seq<char>>, w: Seq<char>, p: int)
    requires
        0 <= p <= s.len(),
        forall|j: int| 0 <= j < p ==> #[trigger] s[j] != w && !comes_before(w, s[j]),
    ensures
        p < s.len() && s[p] == w ==> with_word(s, w) == s,
        p < s.len() && s[p] != w && comes_before(w, s[p]) ==> with_word(s, w) == s.insert(p, w),
        p == s.len() ==> with_word(s, w) == s.insert(p, w),
    decreases p,
{
    if p == 0 {
        assert(s.insert(0, w) =~= seq![w] + s);
        if s.len() == 0 {
            assert(s.insert(0, w) =~= seq![w]);
        }
    } else {
        assert(s[0] != w && !comes_before(w, s[0]));
        let t = s.drop_first();
        assert forall|j: int| 0 <= j < p - 1 implies #[trigger] t[j] != w && !comes_before(
            w,
            t[j],
        ) by {
            assert(t[j] == s[j + 1]);
        }
        lemma_with_word_at(t, w, p - 1);
        assert(s.insert(p, w) =~= seq![s[0]] + t.insert(p - 1, w));
        assert(seq![s[0]] + t =~= s);
    }
}

/// Puts a word at its place, unless the set holds it already.
pub fn insert_word(set: &mut Vec<Vec<char>>, w: Vec<char>)
    ensures
        seqs(final(set)@) == with_word(seqs(old(set)@), w@),
{
    let ghost s = seqs(set@);
    let mut p: usize = 0;
    while p < set.len() && !same(set[p].as_slice(), w.as_slice()) && !is_before(
        w.as_slice(),
        set[p].as_slice(),
    )
        invariant
            p <= set.len(),
            s == seqs(set@),
            set@ == old(set)@,
            forall|j: int| 0 <= j < p ==> #[trigger] s[j] != w@ && !comes_before(w@, s[j]),
        decreases set.len() - p,
    {
        assert(s[p as int] == set@[p as int]@);
        p = p + 1;
    }
    proof {
        lemma_with_word_at(s, w@, p as int);
        assert(seqs(set@.insert(p as int, w)) =~= s.insert(p as int, w@));
    }
    if p < set.len() && same(set[p].as_slice(), w.as_slice()) {
        assert(s[p as int] == set@[p as int]@);
        return ;
    }
    assert(p < set@.len() ==> s[p as int] == set@[p as int]@);
    set.insert(p, w);
}

/// Whether the list holds the word.
pub fn holds(set: &Vec<Vec<char>>, w: &[char]) -> (r: bool)
    ensures
        r == seqs(set@).contains(w@),
{
    let mut i: usize = 0;
    while i < set.len()
        invariant
            i <= set.len(),
            forall|j: int| 0 <= j < i ==> #[trigger] seqs(set@)[j] != w@,
        decreases set.len() - i,
    {
        if same(set[i].as_slice(), w) {
            assert(seqs(set@)[i as int] == w@);
            return true;
        }
        i = i + 1;
    }
    false
}

/// How many words of `a` the other list holds too.
pub open spec fn shared(a: Seq<Seq<char>>, b: Seq<Seq<char>>) -> nat
    decreases a.len(),
{
    if a.len() == 0 {
        0
    } else {
        shared(a.drop_last(), b) + if b.contains(a.last()) {
            1nat
        } else {
            0nat
        }
    }
}

/// Every word of a list is shared with a list that holds them all.
pub proof fn lemma_shared_all(a: Seq<Seq<char>>, b: Seq<Seq<char>>)
    requires
        forall|i: int| 0 <= i < a.len() ==> b.contains(#[trigger] a[i]),
    ensures
        shared(a, b) == a.len(),
    decreases a.len(),
{
    if a.len() > 0 {
        assert forall|i: int| 0 <= i < a.drop_last().len() implies b.contains(
            #[trigger] a.drop_last()[i],
        ) by {
            assert(a.drop_last()[i] == a[i]);
        }
        lemma_shared_all(a.drop_last(), b);
        assert(b.contains(a[a.len() - 1]));
    }
}

/// A list without repetitions is no longer than one that holds all of it.
pub proof fn lemma_contained_len(a: Seq<Seq<char>>, b: Seq<Seq<char>>)
    requires
        a.no_duplicates(),
        b.no_duplicates(),
        forall|i: int| 0 <= i < a.len() ==> b.contains(#[trigger] a[i]),
    ensures
        a.len() <= b.len(),
{
    a.unique_seq_to_set();
    b.unique_seq_to_set();
    assert(a.to_set().subset_of(b.to_set()));
    vstd::set_lib::lemma_len_subset(a.to_set(), b.to_set());
}

/// How many words of `a` the other list holds too.
pub fn count_shared(a: &Vec<Vec<char>>, b: &Vec<Vec<char>>) -> (r: usize)
    ensures
        r == shared(seqs(a@), seqs(b@)),
        r <= a@.len(),
{
    let mut n: usize = 0;
    let mut i: usize = 0;
    while i < a.len()
        invariant
            i <= a.len(),
            n <= i,
            n == shared(seqs(a@).take(i as int), seqs(b@)),
        decreases a.len() - i,
    {
        if holds(b, a[i].as_slice()) {
            n = n + 1;
        }
        i = i + 1;
        assert(seqs(a@).take(i as int).drop_last() =~= seqs(a@).take(i - 1));
        assert(seqs(a@).take(i as int).last() == a@[i - 1]@);
    }
    assert(seqs(a@).take(a@.len() as int) =~= seqs(a@));
    n
}

} // verus!
