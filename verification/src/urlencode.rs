//! Percent-encoding of query values.

use vstd::prelude::*;
use vstd::utf8::encode_utf8;

verus! {

/// Whether a byte stands for itself.
pub open spec fn is_unreserved(b: u8) -> bool {
    ||| 65 <= b <= 90
    ||| 97 <= b <= 122
    ||| 48 <= b <= 57
    ||| b == 45
    ||| b == 95
    ||| b == 46
    ||| b == 126
}

/// The capital hexadecimal digit of a number.
pub open spec fn hex_capital(d: int) -> char {
    if d < 10 {
        (48 + d) as u8 as char
    } else {
        (55 + d) as u8 as char
    }
}

/// A byte encoded. A space is a plus sign in a form, and escaped elsewhere.
pub open spec fn encoded_byte(b: u8, form: bool) -> Seq<char> {
    if is_unreserved(b) {
        seq![b as char]
    } else if b == 32 && form {
        seq!['+']
    } else {
        seq!['%', hex_capital(b as int / 16), hex_capital(b as int % 16)]
    }
}

/// Bytes encoded.
pub open spec fn encoded(bytes: Seq<u8>, form: bool) -> Seq<char>
    decreases bytes.len(),
{
    if bytes.len() == 0 {
        Seq::empty()
    } else {
        encoded(bytes.drop_last(), form) + encoded_byte(bytes.last(), form)
    }
}

fn hex_of(d: u8) -> (r: char)
    requires
        d < 16,
    ensures
        r == hex_capital(d as int),
{
    if d < 10 {
        (48 + d) as char
    } else {
        (55 + d) as char
    }
}

/// Encodes a query value. A space is a plus sign in a form, and escaped
/// elsewhere.
pub fn encode_query(value: &str, form: bool) -> (r: String)
    ensures
        r@ == encoded(encode_utf8(value@), form),
{
    let bytes = value.as_bytes();
    let mut out = String::new();
    let mut i: usize = 0;
    while i < bytes.len()
        invariant
            i <= bytes.len(),
            out@ == encoded(bytes@.take(i as int), form),
        decreases bytes.len() - i,
    {
        let b: u8 = bytes[i];
        assert(bytes@.take(i + 1).drop_last() =~= bytes@.take(i as int));
        let ghost before = out@;
        let plain: bool = (65 <= b && b <= 90) || (97 <= b && b <= 122) || (48 <= b && b <= 57) || b
            == 45 || b == 95 || b == 46 || b == 126;
        if plain {
            out.push(b as char);
        } else if b == 32 && form {
            out.push('+');
        } else {
            out.push('%');
            out.push(hex_of(b / 16));
            out.push(hex_of(b % 16));
        }
        i = i + 1;
        assert(out@ =~= before + encoded_byte(b, form));
    }
    assert(bytes@.take(bytes@.len() as int) =~= bytes@);
    out
}

/// The number of a capital hexadecimal digit.
pub open spec fn hex_value(c: char) -> int {
    if c <= '9' {
        c as int - 48
    } else {
        c as int - 55
    }
}

/// The bytes that an encoded value stands for.
pub open spec fn decoded(s: Seq<char>, form: bool) -> Seq<u8>
    decreases s.len(),
{
    if s.len() == 0 {
        Seq::empty()
    } else if s[0] == '%' && s.len() >= 3 {
        seq![(16 * hex_value(s[1]) + hex_value(s[2])) as u8] + decoded(s.skip(3), form)
    } else if s[0] == '+' && form {
        seq![32u8] + decoded(s.skip(1), form)
    } else {
        seq![s[0] as u8] + decoded(s.skip(1), form)
    }
}

proof fn lemma_decoded_first(b: u8, rest: Seq<char>, form: bool)
    ensures
        decoded(encoded_byte(b, form) + rest, form) == seq![b] + decoded(rest, form),
{
    let e = encoded_byte(b, form);
    let s = e + rest;
    if is_unreserved(b) {
        assert(s.skip(1) =~= rest);
        assert((b as char) as u8 == b);
    } else if b == 32 && form {
        assert(s.skip(1) =~= rest);
    } else {
        assert(s.skip(3) =~= rest);
        assert(16 * (b as int / 16) + b as int % 16 == b);
        assert(hex_value(s[1]) == b as int / 16);
        assert(hex_value(s[2]) == b as int % 16);
    }
}

proof fn lemma_decoded(bytes: Seq<u8>, rest: Seq<char>, form: bool)
    ensures
        decoded(encoded(bytes, form) + rest, form) == bytes + decoded(rest, form),
    decreases bytes.len(),
{
    if bytes.len() == 0 {
        assert(encoded(bytes, form) + rest =~= rest);
        assert(bytes + decoded(rest, form) =~= decoded(rest, form));
    } else {
        let init = bytes.drop_last();
        let last = encoded_byte(bytes.last(), form);
        assert(encoded(bytes, form) + rest =~= encoded(init, form) + (last + rest));
        lemma_decoded(init, last + rest, form);
        lemma_decoded_first(bytes.last(), rest, form);
        assert(init + (seq![bytes.last()] + decoded(rest, form)) =~= bytes + decoded(rest, form));
    }
}

/// Nothing is lost by encoding: decoding gives the bytes back.
pub proof fn law_encoding_is_reversible(bytes: Seq<u8>, form: bool)
    ensures
        decoded(encoded(bytes, form), form) == bytes,
{
    lemma_decoded(bytes, Seq::empty(), form);
    assert(encoded(bytes, form) + Seq::empty() =~= encoded(bytes, form));
    assert(bytes + decoded(Seq::empty(), form) =~= bytes);
}

/// Whether a character can stand in a query value as it is.
pub open spec fn is_query_char(c: char) -> bool {
    ||| 'A' <= c <= 'Z'
    ||| 'a' <= c <= 'z'
    ||| '0' <= c <= '9'
    ||| c == '-'
    ||| c == '_'
    ||| c == '.'
    ||| c == '~'
    ||| c == '+'
    ||| c == '%'
}

/// An encoded value holds nothing that could end it or start another.
pub proof fn law_encoded_value_stays_in_place(bytes: Seq<u8>, form: bool, i: int)
    requires
        0 <= i < encoded(bytes, form).len(),
    ensures
        is_query_char(encoded(bytes, form)[i]),
    decreases bytes.len(),
{
    if bytes.len() > 0 {
        let before = encoded(bytes.drop_last(), form);
        let last = encoded_byte(bytes.last(), form);
        if i < before.len() {
            law_encoded_value_stays_in_place(bytes.drop_last(), form, i);
        } else {
            assert(encoded(bytes, form)[i] == last[i - before.len()]);
        }
    }
}

/// Letters, digits and four signs stand for themselves, a space is a plus sign in
/// a form alone, and everything else is escaped; byte by byte, in order.
pub proof fn law_bytes_are_encoded_one_by_one(bytes: Seq<u8>, b: u8, form: bool)
    ensures
        ({
            let before = encoded(bytes, form);
            let after = encoded(bytes.push(b), form);
            let plain = (65 <= b <= 90) || (97 <= b <= 122) || (48 <= b <= 57) || b == 45 || b == 46
                || b == 95 || b == 126;
            &&& before.is_prefix_of(after)
            &&& plain ==> after == before.push(b as char)
            &&& b == 32 && form ==> after == before.push('+')
            &&& !plain && !(b == 32 && form) ==> after.len() == before.len() + 3
                && after[before.len() as int] == '%'
        }),
        encoded(Seq::empty(), form).len() == 0,
{
    assert(bytes.push(b).drop_last() =~= bytes);
    let before = encoded(bytes, form);
    let after = encoded(bytes.push(b), form);
    assert(after == before + encoded_byte(b, form));
    if encoded_byte(b, form).len() == 1 {
        assert(after =~= before.push(encoded_byte(b, form)[0]));
    }
}

} // verus!
