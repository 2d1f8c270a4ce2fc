//! Lines as text: UTF-8 decoding and white-space trimming of command lines.
//!
//! A command line is read the way `str::from_utf8` followed by `str::trim`
//! reads it: the bytes must be valid UTF-8, and Unicode `White_Space`
//! characters are removed from both ends. This module states that reading
//! over `vstd::utf8`'s model of UTF-8 and relates it to the byte-level form
//! the line parser works with.

use vstd::prelude::*;
use crate::uart_handler::{lemma_ws_cons, lemma_ws_uncons, padded, ws_encoding, ws_string};
use vstd::utf8::{
    decode_utf8, decode_utf8_encode_utf8, encode_scalar, encode_utf8,
    encode_utf8_decode_utf8, encode_utf8_valid_utf8, has_width_2_encoding,
    has_width_3_encoding, last_continuation_byte, leading_byte_width_1, leading_byte_width_2,
    leading_byte_width_3, second_last_continuation_byte, valid_utf8,
};

verus! {

/// `c` is a Unicode `White_Space` character, the set `char::is_whitespace`
/// accepts.
pub open spec fn is_ws_char(c: char) -> bool {
    let v = c as u32;
    ||| 0x09 <= v <= 0x0D
    ||| v == 0x20
    ||| v == 0x85
    ||| v == 0xA0
    ||| v == 0x1680
    ||| 0x2000 <= v <= 0x200A
    ||| v == 0x2028
    ||| v == 0x2029
    ||| v == 0x202F
    ||| v == 0x205F
    ||| v == 0x3000
}

/// Every character of `cs` is white space.
pub open spec fn all_ws(cs: Seq<char>) -> bool {
    forall|k: int| 0 <= k < cs.len() ==> is_ws_char(#[trigger] cs[k])
}

/// `cs` without its leading white space.
pub open spec fn trim_start(cs: Seq<char>) -> Seq<char>
    decreases cs.len(),
{
    if cs.len() > 0 && is_ws_char(cs[0]) {
        trim_start(cs.drop_first())
    } else {
        cs
    }
}

/// `cs` without its trailing white space.
pub open spec fn trim_end(cs: Seq<char>) -> Seq<char>
    decreases cs.len(),
{
    if cs.len() > 0 && is_ws_char(cs.last()) {
        trim_end(cs.drop_last())
    } else {
        cs
    }
}

/// `cs` with white space removed from both ends (`str::trim`).
pub open spec fn trim_chars(cs: Seq<char>) -> Seq<char> {
    trim_end(trim_start(cs))
}

/// The characters of an ASCII byte string.
pub open spec fn ascii_chars(t: Seq<u8>) -> Seq<char> {
    Seq::new(t.len(), |k: int| t[k] as char)
}

/// UTF-8 encoding distributes over concatenation.
pub proof fn lemma_encode_concat(a: Seq<char>, b: Seq<char>)
    ensures
        encode_utf8(a + b) == encode_utf8(a) + encode_utf8(b),
    decreases a.len(),
{
    if a.len() > 0 {
        assert((a + b).drop_first() =~= a.drop_first() + b);
        assert((a + b)[0] == a[0]);
        lemma_encode_concat(a.drop_first(), b);
        assert(encode_utf8(a + b) =~= encode_utf8(a) + encode_utf8(b));
    } else {
        assert(a + b =~= b);
        assert(encode_utf8(a) + encode_utf8(b) =~= encode_utf8(b));
    }
}

/// An ASCII byte string is its own UTF-8 encoding.
pub proof fn lemma_ascii_encode(t: Seq<u8>)
    requires
        forall|k: int| 0 <= k < t.len() ==> #[trigger] t[k] < 0x80,
    ensures
        encode_utf8(ascii_chars(t)) == t,
    decreases t.len(),
{
    if t.len() > 0 {
        let b = t[0];
        let v = (b as char) as u32;
        assert(v == b as u32);
        assert(leading_byte_width_1(v) == b) by (bit_vector)
            requires
                v == b as u32,
                b < 0x80,
        ;
        assert(ascii_chars(t).drop_first() =~= ascii_chars(t.drop_first()));
        lemma_ascii_encode(t.drop_first());
        assert(encode_scalar(v) =~= seq![b]);
        assert(encode_utf8(ascii_chars(t)) =~= t);
    } else {
        assert(encode_utf8(ascii_chars(t)) =~= t);
    }
}

/// The bytes of the UTF-8 encodings of the white-space characters.
proof fn lemma_ws_scalar_bytes(v: u32)
    by (bit_vector)
    ensures
        v <= 0x7F ==> leading_byte_width_1(v) == v,
        (v == 0x85 || v == 0xA0) ==> leading_byte_width_2(v) == 0xC2 && last_continuation_byte(v)
            == v,
        v == 0x1680 ==> leading_byte_width_3(v) == 0xE1 && second_last_continuation_byte(v)
            == 0x9A && last_continuation_byte(v) == 0x80,
        0x2000 <= v <= 0x203F ==> leading_byte_width_3(v) == 0xE2
            && second_last_continuation_byte(v) == 0x80 && last_continuation_byte(v) == v
            - 0x1F80,
        v == 0x205F ==> leading_byte_width_3(v) == 0xE2 && second_last_continuation_byte(v)
            == 0x81 && last_continuation_byte(v) == 0x9F,
        v == 0x3000 ==> leading_byte_width_3(v) == 0xE3 && second_last_continuation_byte(v)
            == 0x80 && last_continuation_byte(v) == 0x80,
{
}

/// A white-space character encodes to a white-space encoding.
pub proof fn lemma_ws_char_encoding(c: char)
    requires
        is_ws_char(c),
    ensures
        ws_encoding(encode_scalar(c as u32)),
{
    let v = c as u32;
    let e = encode_scalar(v);
    lemma_ws_scalar_bytes(v);
    if v <= 0x7F {
        assert(e =~= seq![v as u8]);
    } else if v <= 0xA0 {
        assert(has_width_2_encoding(v));
        assert(e[0] == 0xC2 && e[1] == v);
    } else {
        assert(has_width_3_encoding(v));
        assert(e.len() == 3);
    }
}

/// Each white-space encoding is the encoding of a white-space character.
pub proof fn lemma_ws_encoding_char(e: Seq<u8>) -> (c: char)
    requires
        ws_encoding(e),
    ensures
        is_ws_char(c),
        encode_scalar(c as u32) == e,
{
    let v: u32 = if e.len() == 1 {
        e[0] as u32
    } else if e.len() == 2 {
        e[1] as u32
    } else if e[0] == 0xE1 {
        0x1680
    } else if e[0] == 0xE3 {
        0x3000
    } else if e[1] == 0x81 {
        0x205F
    } else {
        (e[2] as u32 + 0x1F80) as u32
    };
    let c = v as char;
    assert(c as u32 == v);
    lemma_ws_scalar_bytes(v);
    if e.len() == 1 {
        assert(encode_scalar(v) =~= e);
    } else if e.len() == 2 {
        assert(encode_scalar(v) =~= e);
    } else {
        assert(encode_scalar(v) =~= e);
    }
    c
}

/// White-space characters encode to a white-space string.
pub proof fn lemma_ws_chars_encode(cs: Seq<char>)
    requires
        all_ws(cs),
    ensures
        ws_string(encode_utf8(cs)),
    decreases cs.len(),
{
    if cs.len() == 0 {
        assert(encode_utf8(cs) =~= Seq::<u8>::empty());
    } else {
        assert(is_ws_char(cs[0]));
        lemma_ws_char_encoding(cs[0]);
        assert(all_ws(cs.drop_first()));
        lemma_ws_chars_encode(cs.drop_first());
        lemma_ws_cons(encode_scalar(cs[0] as u32), encode_utf8(cs.drop_first()));
    }
}

/// A white-space string is the encoding of white-space characters.
pub proof fn lemma_ws_string_chars(s: Seq<u8>) -> (cs: Seq<char>)
    requires
        ws_string(s),
    ensures
        all_ws(cs),
        encode_utf8(cs) == s,
    decreases s.len(),
{
    if s.len() == 0 {
        assert(encode_utf8(Seq::<char>::empty()) =~= s);
        Seq::<char>::empty()
    } else {
        let k = lemma_ws_uncons(s);
        let c = lemma_ws_encoding_char(s.take(k));
        let rest = lemma_ws_string_chars(s.skip(k));
        let cs = seq![c] + rest;
        assert(cs[0] == c);
        assert(cs.drop_first() =~= rest);
        assert(encode_utf8(cs) =~= s.take(k) + s.skip(k));
        assert(s.take(k) + s.skip(k) =~= s);
        assert forall|m: int| 0 <= m < cs.len() implies is_ws_char(#[trigger] cs[m]) by {
            if m > 0 {
                assert(cs[m] == rest[m - 1]);
            }
        }
        cs
    }
}

/// Leading white space does not survive `trim_start`.
pub proof fn lemma_trim_start_ws_prefix(ws: Seq<char>, cs: Seq<char>)
    requires
        all_ws(ws),
    ensures
        trim_start(ws + cs) == trim_start(cs),
    decreases ws.len(),
{
    if ws.len() == 0 {
        assert(ws + cs =~= cs);
    } else {
        assert((ws + cs)[0] == ws[0]);
        assert((ws + cs).drop_first() =~= ws.drop_first() + cs);
        assert(all_ws(ws.drop_first())) by {
            assert forall|k: int| 0 <= k < ws.drop_first().len() implies is_ws_char(
                #[trigger] ws.drop_first()[k],
            ) by {
                assert(ws.drop_first()[k] == ws[k + 1]);
            }
        }
        lemma_trim_start_ws_prefix(ws.drop_first(), cs);
    }
}

/// Trailing white space does not survive `trim_end`.
pub proof fn lemma_trim_end_ws_suffix(cs: Seq<char>, ws: Seq<char>)
    requires
        all_ws(ws),
    ensures
        trim_end(cs + ws) == trim_end(cs),
    decreases ws.len(),
{
    if ws.len() == 0 {
        assert(cs + ws =~= cs);
    } else {
        assert((cs + ws).last() == ws.last());
        assert(is_ws_char(ws[ws.len() - 1]));
        assert((cs + ws).drop_last() =~= cs + ws.drop_last());
        assert(all_ws(ws.drop_last())) by {
            assert forall|k: int| 0 <= k < ws.drop_last().len() implies is_ws_char(
                #[trigger] ws.drop_last()[k],
            ) by {
                assert(ws.drop_last()[k] == ws[k]);
            }
        }
        lemma_trim_end_ws_suffix(cs, ws.drop_last());
    }
}

/// `trim_start` removes a white-space prefix and nothing else.
pub proof fn lemma_trim_start_split(cs: Seq<char>) -> (ws: Seq<char>)
    ensures
        all_ws(ws),
        cs == ws + trim_start(cs),
        trim_start(cs).len() > 0 ==> !is_ws_char(trim_start(cs)[0]),
    decreases cs.len(),
{
    if cs.len() > 0 && is_ws_char(cs[0]) {
        let rest = lemma_trim_start_split(cs.drop_first());
        let ws = seq![cs[0]] + rest;
        assert(trim_start(cs) == trim_start(cs.drop_first()));
        assert(cs =~= seq![cs[0]] + cs.drop_first());
        assert(ws + trim_start(cs) =~= seq![cs[0]] + (rest + trim_start(cs.drop_first())));
        assert forall|k: int| 0 <= k < ws.len() implies is_ws_char(#[trigger] ws[k]) by {
            if k > 0 {
                assert(ws[k] == rest[k - 1]);
            }
        }
        ws
    } else {
        assert(cs =~= Seq::<char>::empty() + cs);
        Seq::<char>::empty()
    }
}

/// `trim_end` removes a white-space suffix and nothing else.
pub proof fn lemma_trim_end_split(cs: Seq<char>) -> (ws: Seq<char>)
    ensures
        all_ws(ws),
        cs == trim_end(cs) + ws,
        trim_end(cs).len() > 0 ==> !is_ws_char(trim_end(cs).last()),
    decreases cs.len(),
{
    if cs.len() > 0 && is_ws_char(cs.last()) {
        let rest = lemma_trim_end_split(cs.drop_last());
        let ws = rest + seq![cs.last()];
        assert(trim_end(cs) == trim_end(cs.drop_last()));
        assert(cs =~= cs.drop_last() + seq![cs.last()]);
        assert(trim_end(cs) + ws =~= (trim_end(cs.drop_last()) + rest) + seq![cs.last()]);
        assert forall|k: int| 0 <= k < ws.len() implies is_ws_char(#[trigger] ws[k]) by {
            if k < rest.len() {
                assert(ws[k] == rest[k]);
            }
        }
        ws
    } else {
        assert(cs =~= cs + Seq::<char>::empty());
        Seq::<char>::empty()
    }
}

/// `t` is a command name: nonempty printable ASCII without spaces.
pub open spec fn is_name_text(t: Seq<u8>) -> bool {
    &&& t.len() > 0
    &&& forall|k: int| 0 <= k < t.len() ==> 0x21 <= #[trigger] t[k] <= 0x7E
}

/// A line is a command name padded with white-space encodings exactly when it
/// is valid UTF-8 and trimming its characters leaves the name: the byte-level
/// reading of a line agrees with `str::from_utf8` followed by `str::trim`.
pub proof fn lemma_padded_iff_trimmed(line: Seq<u8>, t: Seq<u8>)
    requires
        is_name_text(t),
    ensures
        padded(line, t) <==> (valid_utf8(line) && trim_chars(decode_utf8(line)) == ascii_chars(
            t,
        )),
{
    let tc = ascii_chars(t);
    assert(tc.len() > 0 && !is_ws_char(tc[0]) && !is_ws_char(tc.last())) by {
        assert(0x21 <= t[0] <= 0x7E);
        assert(0x21 <= t[t.len() - 1] <= 0x7E);
    }
    lemma_ascii_encode(t);
    if padded(line, t) {
        let (i, j) = choose|i: int, j: int|
            0 <= i <= j <= line.len() && ws_string(#[trigger] line.subrange(0, i))
                && line.subrange(i, j) == t && ws_string(
                #[trigger] line.subrange(j, line.len() as int),
            );
        let a = line.subrange(0, i);
        let b = line.subrange(j, line.len() as int);
        let ca = lemma_ws_string_chars(a);
        let cb = lemma_ws_string_chars(b);
        let cs = ca + tc + cb;
        lemma_encode_concat(ca, tc);
        lemma_encode_concat(ca + tc, cb);
        assert(line =~= a + t + b);
        assert(encode_utf8(cs) == line);
        encode_utf8_valid_utf8(cs);
        encode_utf8_decode_utf8(cs);
        assert(cs =~= ca + (tc + cb));
        lemma_trim_start_ws_prefix(ca, tc + cb);
        assert((tc + cb)[0] == tc[0]);
        assert(trim_start(tc + cb) == tc + cb);
        lemma_trim_end_ws_suffix(tc, cb);
        assert(trim_end(tc) == tc);
    }
    if valid_utf8(line) && trim_chars(decode_utf8(line)) == tc {
        let cs = decode_utf8(line);
        let w1 = lemma_trim_start_split(cs);
        let w2 = lemma_trim_end_split(trim_start(cs));
        assert(cs =~= w1 + tc + w2);
        decode_utf8_encode_utf8(line);
        lemma_encode_concat(w1, tc);
        lemma_encode_concat(w1 + tc, w2);
        let a = encode_utf8(w1);
        let b = encode_utf8(w2);
        assert(line == a + t + b);
        lemma_ws_chars_encode(w1);
        lemma_ws_chars_encode(w2);
        let i = a.len() as int;
        let j = i + t.len();
        assert(line.subrange(0, i) =~= a);
        assert(line.subrange(i, j) =~= t);
        assert(line.subrange(j, line.len() as int) =~= b);
    }
}

} // verus!
