//! Images pasted as data URLs: the payload is split at its first comma, the
//! part before names the type, the part after is base64. Writing the file is
//! the host's part.

use crate::error::{labelled, CommandError, ErrorKind};
use vstd::prelude::*;
use vstd::std_specs::iter::IteratorSpec;

verus! {

/// `index` is the place of the first `wanted` in `text`.
pub open spec fn is_first(text: Seq<char>, wanted: char, index: int) -> bool {
    &&& 0 <= index < text.len()
    &&& text[index] == wanted
    &&& forall|j: int| 0 <= j < index ==> text[j] != wanted
}

/// The place of the first `wanted` in `text`, if it occurs.
pub open spec fn position(text: Seq<char>, wanted: char) -> Option<int> {
    if exists|i: int| is_first(text, wanted, i) {
        Some(choose|i: int| is_first(text, wanted, i))
    } else {
        None
    }
}

/// The first occurrence is the only place that `is_first` holds of.
pub proof fn lemma_position_found(text: Seq<char>, wanted: char, index: int)
    requires
        is_first(text, wanted, index),
    ensures
        position(text, wanted) == Some(index),
{
    let chosen = choose|i: int| is_first(text, wanted, i);
    assert(is_first(text, wanted, chosen));
    if chosen < index {
        assert(text[chosen] != wanted);
    } else if index < chosen {
        assert(text[index] != wanted);
    }
}

/// A character that does not occur has no place.
pub proof fn lemma_position_absent(text: Seq<char>, wanted: char)
    requires
        forall|j: int| 0 <= j < text.len() ==> text[j] != wanted,
    ensures
        position(text, wanted) is None,
{
}

/// The place of the first `wanted` in `text`, if it occurs.
fn find_char(text: &str, wanted: char) -> (r: Option<usize>)
    ensures
        match r {
            Some(index) => position(text@, wanted) == Some(index as int),
            None => position(text@, wanted) is None,
        },
{
    let length = text.unicode_len();
    let mut rest = text.chars();
    let mut i: usize = 0;
    assert(text@.skip(0) =~= text@);
    while i < length
        invariant
            i <= length,
            length == text@.len(),
            rest.remaining() == text@.skip(i as int),
            forall|j: int| 0 <= j < i ==> text@[j] != wanted,
        decreases length - i,
    {
        assert(text@.skip(i as int).drop_first() =~= text@.skip(i + 1));
        match rest.next() {
            Some(c) => {
                if c == wanted {
                    proof {
                        lemma_position_found(text@, wanted, i as int);
                    }
                    return Some(i);
                }
            },
            None => {},
        }
        i += 1;
    }
    proof {
        lemma_position_absent(text@, wanted);
    }
    None
}

/// The file extension that the part before the comma asks for: the MIME
/// subtype, which stands between the first slash and the first semicolon
/// after it, and `png` where there is no slash or nothing behind it.
pub open spec fn extension_of(header: Seq<char>) -> Seq<char> {
    match position(header, '/') {
        None => "png"@,
        Some(slash) => {
            let rest = header.skip(slash + 1);
            let subtype = match position(rest, ';') {
                Some(end) => rest.take(end),
                None => rest,
            };
            if subtype.len() == 0 {
                "png"@
            } else {
                subtype
            }
        },
    }
}

/// The file extension that the part before the comma asks for.
pub fn extension_from_header(header: &str) -> (r: String)
    ensures
        r@ == extension_of(header@),
{
    match find_char(header, '/') {
        None => "png".to_owned(),
        Some(slash) => {
            let length = header.unicode_len();
            let rest = header.substring_char(slash + 1, length);
            let subtype = match find_char(rest, ';') {
                Some(end) => rest.substring_char(0, end),
                None => rest,
            };
            if subtype.unicode_len() == 0 {
                "png".to_owned()
            } else {
                subtype.to_owned()
            }
        },
    }
}

/// The six bits that a character of the base64 alphabet stands for.
pub open spec fn sextet(c: char) -> Option<u8> {
    if 'A' <= c && c <= 'Z' {
        Some((c as u8 - 65) as u8)
    } else if 'a' <= c && c <= 'z' {
        Some((c as u8 - 71) as u8)
    } else if '0' <= c && c <= '9' {
        Some((c as u8 + 4) as u8)
    } else if c == '+' {
        Some(62)
    } else if c == '/' {
        Some(63)
    } else {
        None
    }
}

/// The first of the three bytes that four sextets carry.
pub open spec fn first_byte(p: u8, q: u8) -> u8 {
    (p * 4 + q / 16) as u8
}

/// The second of the three bytes that four sextets carry.
pub open spec fn second_byte(q: u8, r: u8) -> u8 {
    ((q % 16) * 16 + r / 4) as u8
}

/// The third of the three bytes that four sextets carry.
pub open spec fn third_byte(r: u8, s: u8) -> u8 {
    ((r % 4) * 64 + s) as u8
}

/// The three bytes of a group of four characters of the alphabet.
pub open spec fn decode_group(a: char, b: char, c: char, d: char) -> Option<Seq<u8>> {
    match (sextet(a), sextet(b), sextet(c), sextet(d)) {
        (Some(p), Some(q), Some(r), Some(s)) => Some(
            seq![first_byte(p, q), second_byte(q, r), third_byte(r, s)],
        ),
        _ => None,
    }
}

/// The bytes of the last group, which may end in one or two `=`. The bits
/// that the padding leaves unused must be zero.
pub open spec fn decode_final_group(a: char, b: char, c: char, d: char) -> Option<Seq<u8>> {
    if c == '=' && d == '=' {
        match (sextet(a), sextet(b)) {
            (Some(p), Some(q)) => if q % 16 == 0 {
                Some(seq![first_byte(p, q)])
            } else {
                None
            },
            _ => None,
        }
    } else if d == '=' {
        match (sextet(a), sextet(b), sextet(c)) {
            (Some(p), Some(q), Some(r)) => if r % 4 == 0 {
                Some(seq![first_byte(p, q), second_byte(q, r)])
            } else {
                None
            },
            _ => None,
        }
    } else {
        decode_group(a, b, c, d)
    }
}

/// The bytes that a base64 text stands for: standard alphabet, groups of
/// four characters, padding in the last group only. Text that is not of this
/// form stands for nothing.
pub open spec fn base64_decode(text: Seq<char>) -> Option<Seq<u8>>
    decreases text.len(),
{
    if text.len() == 0 {
        Some(Seq::empty())
    } else if text.len() < 4 {
        None
    } else if text.len() == 4 {
        decode_final_group(text[0], text[1], text[2], text[3])
    } else {
        match (decode_group(text[0], text[1], text[2], text[3]), base64_decode(text.skip(4))) {
            (Some(head), Some(tail)) => Some(head + tail),
            _ => None,
        }
    }
}

/// Text that stands for bytes is made of whole groups of ASCII characters.
pub proof fn lemma_base64_shape(text: Seq<char>)
    requires
        base64_decode(text) is Some,
    ensures
        text.len() % 4 == 0,
        forall|i: int| 0 <= i < text.len() ==> '\0' <= #[trigger] text[i] <= '\u{7f}',
    decreases text.len(),
{
    if text.len() > 4 {
        let rest = text.skip(4);
        lemma_base64_shape(rest);
        assert forall|i: int| 0 <= i < text.len() implies '\0' <= #[trigger] text[i]
            <= '\u{7f}' by {
            if i >= 4 {
                assert(text[i] == rest[i - 4]);
            }
        }
    }
}

/// The bytes decoded so far, followed by what the rest of the text stands
/// for.
pub open spec fn followed_by(decoded: Seq<u8>, rest: Option<Seq<u8>>) -> Option<Seq<u8>> {
    match rest {
        Some(tail) => Some(decoded + tail),
        None => None,
    }
}

/// The mathematical value of optional bytes.
pub open spec fn optional_bytes(bytes: Option<Vec<u8>>) -> Option<Seq<u8>> {
    match bytes {
        Some(b) => Some(b@),
        None => None,
    }
}

/// The six bits that an ASCII code of the base64 alphabet stands for.
fn sextet_of(code: u8, Ghost(c): Ghost<char>) -> (r: Option<u8>)
    requires
        c <= '\u{7f}',
        code == c as u8,
    ensures
        r == sextet(c),
        r matches Some(value) ==> value < 64,
{
    if 65 <= code && code <= 90 {
        Some(code - 65)
    } else if 97 <= code && code <= 122 {
        Some(code - 71)
    } else if 48 <= code && code <= 57 {
        Some(code + 4)
    } else if code == 43 {
        Some(62)
    } else if code == 47 {
        Some(63)
    } else {
        None
    }
}

/// The bytes that a base64 text stands for, if it stands for any.
pub fn decode_base64(text: &str) -> (r: Option<Vec<u8>>)
    ensures
        optional_bytes(r) == base64_decode(text@),
{
    if !text.is_ascii() {
        proof {
            if base64_decode(text@) is Some {
                lemma_base64_shape(text@);
            }
        }
        return None;
    }
    let length = text.unicode_len();
    if length % 4 != 0 {
        proof {
            if base64_decode(text@) is Some {
                lemma_base64_shape(text@);
            }
        }
        return None;
    }
    let mut decoded: Vec<u8> = Vec::new();
    let mut i: usize = 0;
    assert(text@.skip(0) =~= text@);
    assert(decoded@ + base64_decode(text@)->0 =~= base64_decode(text@)->0);
    while i < length
        invariant
            i <= length,
            i % 4 == 0,
            length % 4 == 0,
            length == text@.len(),
            text.is_ascii(),
            base64_decode(text@) == followed_by(decoded@, base64_decode(text@.skip(i as int))),
        decreases length - i,
    {
        let ghost rest = text@.skip(i as int);
        let ghost before = decoded@;
        assert(rest.len() >= 4);
        assert(rest[0] == text@[i as int] && rest[1] == text@[i + 1] && rest[2] == text@[i + 2]
            && rest[3] == text@[i + 3]);
        assert(rest.skip(4) =~= text@.skip(i + 4));
        let a = text.get_ascii(i);
        let b = text.get_ascii(i + 1);
        let c = text.get_ascii(i + 2);
        let d = text.get_ascii(i + 3);
        let last = i + 4 == length;
        let p = sextet_of(a, Ghost(rest[0]));
        let q = sextet_of(b, Ghost(rest[1]));
        if last && d == 61 && c == 61 {
            match (p, q) {
                (Some(p), Some(q)) => {
                    if q % 16 != 0 {
                        return None;
                    }
                    decoded.push(p * 4 + q / 16);
                    proof {
                        assert(decoded@ + Seq::<u8>::empty() =~= before + seq![first_byte(p, q)]);
                    }
                },
                _ => {
                    return None;
                },
            }
        } else if last && d == 61 {
            let r = sextet_of(c, Ghost(rest[2]));
            match (p, q, r) {
                (Some(p), Some(q), Some(r)) => {
                    if r % 4 != 0 {
                        return None;
                    }
                    decoded.push(p * 4 + q / 16);
                    decoded.push((q % 16) * 16 + r / 4);
                    proof {
                        assert(decoded@ + Seq::<u8>::empty() =~= before + seq![
                            first_byte(p, q),
                            second_byte(q, r),
                        ]);
                    }
                },
                _ => {
                    return None;
                },
            }
        } else {
            let r = sextet_of(c, Ghost(rest[2]));
            let s = sextet_of(d, Ghost(rest[3]));
            match (p, q, r, s) {
                (Some(p), Some(q), Some(r), Some(s)) => {
                    decoded.push(p * 4 + q / 16);
                    decoded.push((q % 16) * 16 + r / 4);
                    decoded.push((r % 4) * 64 + s);
                    proof {
                        let group = seq![first_byte(p, q), second_byte(q, r), third_byte(r, s)];
                        assert(decoded@ =~= before + group);
                        if base64_decode(rest.skip(4)) is Some {
                            let tail = base64_decode(rest.skip(4))->0;
                            assert(decoded@ + tail =~= before + (group + tail));
                        }
                        if last {
                            assert(rest.skip(4).len() == 0);
                            assert(group + Seq::<u8>::empty() =~= group);
                        }
                    }
                },
                _ => {
                    return None;
                },
            }
        }
        i += 4;
    }
    proof {
        assert(text@.skip(i as int).len() == 0);
        assert(decoded@ + Seq::<u8>::empty() =~= decoded@);
    }
    Some(decoded)
}

/// The character of the base64 alphabet for six bits.
pub open spec fn alphabet(value: u8) -> char {
    if value < 26 {
        (value + 65) as char
    } else if value < 52 {
        (value + 71) as char
    } else if value < 62 {
        (value - 4) as char
    } else if value == 62 {
        '+'
    } else {
        '/'
    }
}

/// The base64 text of a sequence of bytes: four characters for each three
/// bytes, the last group padded with `=`.
pub open spec fn base64_encode(bytes: Seq<u8>) -> Seq<char>
    decreases bytes.len(),
{
    if bytes.len() == 0 {
        Seq::empty()
    } else if bytes.len() == 1 {
        let (p, q, r, s) = sextets_of(bytes[0], 0, 0);
        seq![alphabet(p), alphabet(q), '=', '=']
    } else if bytes.len() == 2 {
        let (p, q, r, s) = sextets_of(bytes[0], bytes[1], 0);
        seq![alphabet(p), alphabet(q), alphabet(r), '=']
    } else {
        let (p, q, r, s) = sextets_of(bytes[0], bytes[1], bytes[2]);
        seq![alphabet(p), alphabet(q), alphabet(r), alphabet(s)] + base64_encode(bytes.skip(3))
    }
}

/// Each character of the alphabet stands for the six bits it was chosen for,
/// and none of them is the padding character.
pub proof fn lemma_alphabet_sextet(value: u8)
    requires
        value < 64,
    ensures
        sextet(alphabet(value)) == Some(value),
        alphabet(value) != '=',
{
}

/// The sextets that three bytes are split into.
pub open spec fn sextets_of(x: u8, y: u8, z: u8) -> (u8, u8, u8, u8) {
    (x / 4, ((x % 4) * 16 + y / 16) as u8, ((y % 16) * 4 + z / 64) as u8, z % 64)
}

/// Splitting three bytes into sextets and joining them gives the bytes back.
pub proof fn lemma_sextets_join(x: u8, y: u8, z: u8)
    ensures
        ({
            let (p, q, r, s) = sextets_of(x, y, z);
            &&& p < 64 && q < 64 && r < 64 && s < 64
            &&& first_byte(p, q) == x
            &&& second_byte(q, r) == y
            &&& third_byte(r, s) == z
            &&& (y == 0 ==> q % 16 == 0)
            &&& (z == 0 ==> r % 4 == 0)
        }),
{
}

/// A full group of the encoding decodes to its three bytes.
pub proof fn lemma_group_round_trip(x: u8, y: u8, z: u8)
    ensures
        ({
            let (p, q, r, s) = sextets_of(x, y, z);
            &&& decode_group(alphabet(p), alphabet(q), alphabet(r), alphabet(s)) == Some(
                seq![x, y, z],
            )
            &&& decode_final_group(alphabet(p), alphabet(q), alphabet(r), alphabet(s)) == Some(
                seq![x, y, z],
            )
        }),
{
    let (p, q, r, s) = sextets_of(x, y, z);
    lemma_sextets_join(x, y, z);
    lemma_alphabet_sextet(p);
    lemma_alphabet_sextet(q);
    lemma_alphabet_sextet(r);
    lemma_alphabet_sextet(s);
}

/// A padded last group of the encoding decodes to its one or two bytes.
pub proof fn lemma_padded_round_trip(x: u8, y: u8)
    ensures
        ({
            let (p, q, r, s) = sextets_of(x, 0, 0);
            decode_final_group(alphabet(p), alphabet(q), '=', '=') == Some(seq![x])
        }),
        ({
            let (p, q, r, s) = sextets_of(x, y, 0);
            decode_final_group(alphabet(p), alphabet(q), alphabet(r), '=') == Some(seq![x, y])
        }),
{
    lemma_sextets_join(x, 0, 0);
    lemma_sextets_join(x, y, 0);
    let (p, q, r, s) = sextets_of(x, 0, 0);
    lemma_alphabet_sextet(p);
    lemma_alphabet_sextet(q);
    let (p2, q2, r2, s2) = sextets_of(x, y, 0);
    lemma_alphabet_sextet(p2);
    lemma_alphabet_sextet(q2);
    lemma_alphabet_sextet(r2);
}

/// Decoding the base64 text of any bytes gives the bytes back.
pub proof fn law_base64_round_trip(bytes: Seq<u8>)
    ensures
        base64_decode(base64_encode(bytes)) == Some(bytes),
    decreases bytes.len(),
{
    let text = base64_encode(bytes);
    if bytes.len() == 0 {
    } else if bytes.len() == 1 {
        lemma_padded_round_trip(bytes[0], 0);
        assert(seq![bytes[0]] =~= bytes);
    } else if bytes.len() == 2 {
        lemma_padded_round_trip(bytes[0], bytes[1]);
        assert(seq![bytes[0], bytes[1]] =~= bytes);
    } else {
        let (p, q, r, s) = sextets_of(bytes[0], bytes[1], bytes[2]);
        let group = seq![alphabet(p), alphabet(q), alphabet(r), alphabet(s)];
        let rest = base64_encode(bytes.skip(3));
        let head = seq![bytes[0], bytes[1], bytes[2]];
        lemma_group_round_trip(bytes[0], bytes[1], bytes[2]);
        law_base64_round_trip(bytes.skip(3));
        assert(text == group + rest);
        assert(text.skip(4) =~= rest);
        assert(text[0] == group[0] && text[1] == group[1] && text[2] == group[2] && text[3]
            == group[3]);
        assert(head + bytes.skip(3) =~= bytes);
        if bytes.len() == 3 {
            assert(rest.len() == 0);
            assert(head =~= bytes);
        } else {
            lemma_encode_nonempty(bytes.skip(3));
        }
    }
}

/// A character of the alphabet is the one chosen for the six bits it stands
/// for.
pub proof fn lemma_sextet_alphabet(c: char)
    requires
        sextet(c) is Some,
    ensures
        sextet(c)->0 < 64,
        alphabet(sextet(c)->0) == c,
{
}

/// Joining four sextets to three bytes and splitting the bytes gives the
/// sextets back.
pub proof fn lemma_sextets_split(p: u8, q: u8, r: u8, s: u8)
    requires
        p < 64,
        q < 64,
        r < 64,
        s < 64,
    ensures
        sextets_of(first_byte(p, q), second_byte(q, r), third_byte(r, s)) == (p, q, r, s),
        q % 16 == 0 ==> sextets_of(first_byte(p, q), 0, 0).0 == p && sextets_of(
            first_byte(p, q),
            0,
            0,
        ).1 == q,
        r % 4 == 0 ==> sextets_of(first_byte(p, q), second_byte(q, r), 0).0 == p && sextets_of(
            first_byte(p, q),
            second_byte(q, r),
            0,
        ).1 == q && sextets_of(first_byte(p, q), second_byte(q, r), 0).2 == r,
{
}

/// Text that is not empty stands for at least one byte, if for any.
pub proof fn lemma_decode_nonempty(text: Seq<char>)
    requires
        text.len() > 0,
        base64_decode(text) is Some,
    ensures
        base64_decode(text)->0.len() >= 1,
{
}

/// A full group stands for three bytes whose base64 text is the group.
pub proof fn lemma_group_spelling(a: char, b: char, c: char, d: char)
    requires
        decode_group(a, b, c, d) is Some,
    ensures
        ({
            let bytes = decode_group(a, b, c, d)->0;
            let (p, q, r, s) = sextets_of(bytes[0], bytes[1], bytes[2]);
            &&& bytes.len() == 3
            &&& alphabet(p) == a
            &&& alphabet(q) == b
            &&& alphabet(r) == c
            &&& alphabet(s) == d
        }),
{
    lemma_sextet_alphabet(a);
    lemma_sextet_alphabet(b);
    lemma_sextet_alphabet(c);
    lemma_sextet_alphabet(d);
    lemma_sextets_split(sextet(a)->0, sextet(b)->0, sextet(c)->0, sextet(d)->0);
}

/// A last group stands for bytes whose base64 text is the group.
pub proof fn lemma_final_spelling(a: char, b: char, c: char, d: char)
    requires
        decode_final_group(a, b, c, d) is Some,
    ensures
        base64_encode(decode_final_group(a, b, c, d)->0) == seq![a, b, c, d],
{
    let bytes = decode_final_group(a, b, c, d)->0;
    lemma_sextet_alphabet(a);
    lemma_sextet_alphabet(b);
    let p = sextet(a)->0;
    let q = sextet(b)->0;
    if c == '=' && d == '=' {
        lemma_sextets_split(p, q, 0, 0);
        assert(bytes.len() == 1);
        assert(bytes[0] == first_byte(p, q));
        assert(base64_encode(bytes) =~= seq![a, b, c, d]);
    } else if d == '=' {
        lemma_sextet_alphabet(c);
        let r = sextet(c)->0;
        lemma_sextets_split(p, q, r, 0);
        assert(bytes.len() == 2);
        assert(bytes[0] == first_byte(p, q) && bytes[1] == second_byte(q, r));
        assert(base64_encode(bytes) =~= seq![a, b, c, d]);
    } else {
        lemma_group_spelling(a, b, c, d);
        assert(bytes.len() == 3);
        assert(bytes.skip(3) =~= Seq::<u8>::empty());
        assert(base64_encode(bytes.skip(3)) =~= Seq::<char>::empty());
        assert(base64_encode(bytes) =~= seq![a, b, c, d]);
    }
}

/// Only the base64 text of some bytes stands for them: the decoder accepts
/// no second spelling.
pub proof fn law_base64_one_spelling(text: Seq<char>)
    requires
        base64_decode(text) is Some,
    ensures
        base64_encode(base64_decode(text)->0) == text,
    decreases text.len(),
{
    let bytes = base64_decode(text)->0;
    if text.len() == 0 {
    } else if text.len() == 4 {
        lemma_final_spelling(text[0], text[1], text[2], text[3]);
        assert(text =~= seq![text[0], text[1], text[2], text[3]]);
    } else {
        let rest = text.skip(4);
        let head = decode_group(text[0], text[1], text[2], text[3])->0;
        let tail = base64_decode(rest)->0;
        lemma_group_spelling(text[0], text[1], text[2], text[3]);
        law_base64_one_spelling(rest);
        lemma_decode_nonempty(rest);
        assert(bytes == head + tail);
        assert(bytes.len() > 3);
        assert(bytes[0] == head[0] && bytes[1] == head[1] && bytes[2] == head[2]);
        assert(bytes.skip(3) =~= tail);
        let group = seq![text[0], text[1], text[2], text[3]];
        assert(base64_encode(bytes) == group + base64_encode(bytes.skip(3)));
        assert(group + rest =~= text);
    }
}

/// The base64 text of some bytes is not empty.
pub proof fn lemma_encode_nonempty(bytes: Seq<u8>)
    requires
        bytes.len() > 0,
    ensures
        base64_encode(bytes).len() >= 4,
{
}

/// An image taken out of a payload: the extension for its file name, and its
/// bytes.
#[derive(Debug, PartialEq, Eq)]
pub struct DecodedImage {
    pub extension: String,
    pub bytes: Vec<u8>,
}

/// What a payload holds: the part before the first comma gives the
/// extension, the part after it the bytes. A payload without a comma, or with
/// anything but base64 after it, holds nothing.
pub open spec fn decode_payload(payload: Seq<char>) -> Option<(Seq<char>, Seq<u8>)> {
    match position(payload, ',') {
        None => None,
        Some(comma) => match base64_decode(payload.skip(comma + 1)) {
            Some(bytes) => Some((extension_of(payload.take(comma)), bytes)),
            None => None,
        },
    }
}

/// What a command reports for a payload that holds no image.
pub open spec fn decode_failure(error: CommandError, payload: Seq<char>) -> bool {
    &&& error.kind == ErrorKind::Decode
    &&& error.message@ == labelled(
        "Failed to decode image"@,
        if position(payload, ',') is None {
            "the payload has no comma"@
        } else {
            "the data is not base64"@
        },
    )
}

/// Takes the image out of a data-URL payload.
pub fn decode_image(payload: &str) -> (r: Result<DecodedImage, CommandError>)
    ensures
        match r {
            Ok(image) => decode_payload(payload@) == Some((image.extension@, image.bytes@)),
            Err(error) => decode_payload(payload@) is None && decode_failure(error, payload@),
        },
{
    match find_char(payload, ',') {
        None => Err(
            CommandError::with_detail(
                ErrorKind::Decode,
                "Failed to decode image",
                "the payload has no comma",
            ),
        ),
        Some(comma) => {
            let length = payload.unicode_len();
            let header = payload.substring_char(0, comma);
            let body = payload.substring_char(comma + 1, length);
            match decode_base64(body) {
                Some(bytes) => Ok(DecodedImage { extension: extension_from_header(header), bytes }),
                None => Err(
                    CommandError::with_detail(
                        ErrorKind::Decode,
                        "Failed to decode image",
                        "the data is not base64",
                    ),
                ),
            }
        },
    }
}

/// An image ready to be written: its path below the workspace folder, and
/// its bytes.
#[derive(Debug, PartialEq, Eq)]
pub struct ImageFile {
    pub relative_path: String,
    pub bytes: Vec<u8>,
}

/// The path of an image below the workspace folder.
pub open spec fn asset_path(stem: Seq<char>, extension: Seq<char>) -> Seq<char> {
    "assets/"@ + stem + "."@ + extension
}

/// Prepares the file for the image in `payload`. `stem` is the fresh name
/// that the caller drew for it. A payload that holds no image fails, and
/// nothing is to be written.
pub fn save_image(payload: &str, stem: &str) -> (r: Result<ImageFile, CommandError>)
    ensures
        match r {
            Ok(file) => match decode_payload(payload@) {
                Some((extension, bytes)) => file.relative_path@ == asset_path(stem@, extension)
                    && file.bytes@ == bytes,
                None => false,
            },
            Err(error) => decode_payload(payload@) is None && decode_failure(error, payload@),
        },
{
    match decode_image(payload) {
        Ok(image) => {
            let mut relative_path = "assets/".to_owned();
            relative_path.append(stem);
            relative_path.append(".");
            relative_path.append(image.extension.as_str());
            Ok(ImageFile { relative_path, bytes: image.bytes })
        },
        Err(error) => Err(error),
    }
}

/// A payload without a comma holds no image.
pub proof fn law_no_comma_no_image(payload: Seq<char>)
    requires
        forall|i: int| 0 <= i < payload.len() ==> payload[i] != ',',
    ensures
        decode_payload(payload) is None,
{
    lemma_position_absent(payload, ',');
}

/// The hexadecimal digit of a number below sixteen.
pub open spec fn hex_char(nibble: int) -> char {
    "0123456789abcdef"@[nibble]
}

/// The bytes written as hexadecimal digits, two for each byte, the high
/// four bits first.
pub open spec fn hex_text(bytes: Seq<u8>) -> Seq<char>
    decreases bytes.len(),
{
    if bytes.len() == 0 {
        Seq::empty()
    } else {
        hex_text(bytes.drop_last()) + seq![
            hex_char(bytes.last() as int / 16),
            hex_char(bytes.last() as int % 16),
        ]
    }
}

/// Sixteen random bytes marked as a random identifier: the high four bits
/// of the seventh byte say version 4, the high two bits of the ninth say
/// variant 1.
pub open spec fn identifier_bytes(random: Seq<u8>) -> Seq<u8> {
    random.update(6, (64 + random[6] % 16) as u8).update(8, (128 + random[8] % 64) as u8)
}

/// The text of the identifier made of sixteen random bytes: five groups of
/// 8, 4, 4, 4 and 12 hexadecimal digits, joined by hyphens.
pub open spec fn identifier_text(random: Seq<u8>) -> Seq<char> {
    let bytes = identifier_bytes(random);
    hex_text(bytes.subrange(0, 4)) + "-"@ + hex_text(bytes.subrange(4, 6)) + "-"@ + hex_text(
        bytes.subrange(6, 8),
    ) + "-"@ + hex_text(bytes.subrange(8, 10)) + "-"@ + hex_text(bytes.subrange(10, 16))
}

/// Appends the hexadecimal digits of the bytes from `from` up to `to`.
fn append_hex(text: &mut String, bytes: &Vec<u8>, from: usize, to: usize)
    requires
        from <= to <= bytes.len(),
    ensures
        final(text)@ == old(text)@ + hex_text(bytes@.subrange(from as int, to as int)),
{
    let digits = "0123456789abcdef";
    proof {
        reveal_strlit("0123456789abcdef");
        assert(bytes@.subrange(from as int, from as int) =~= Seq::<u8>::empty());
        assert(text@ + Seq::<char>::empty() =~= text@);
    }
    let mut i: usize = from;
    while i < to
        invariant
            from <= i <= to <= bytes.len(),
            digits@ == "0123456789abcdef"@,
            digits@.len() == 16,
            digits.is_ascii(),
            text@ == old(text)@ + hex_text(bytes@.subrange(from as int, i as int)),
        decreases to - i,
    {
        let high = (bytes[i] / 16) as usize;
        let low = (bytes[i] % 16) as usize;
        let ghost before = text@;
        text.append(digits.substring_ascii(high, high + 1));
        text.append(digits.substring_ascii(low, low + 1));
        proof {
            let done = bytes@.subrange(from as int, i as int);
            let next = bytes@.subrange(from as int, i + 1);
            assert(next.drop_last() =~= done);
            assert(next.last() == bytes@[i as int]);
            assert(digits@.subrange(high as int, high + 1) =~= seq![hex_char(high as int)]);
            assert(digits@.subrange(low as int, low + 1) =~= seq![hex_char(low as int)]);
            assert(text@ =~= before + seq![hex_char(high as int), hex_char(low as int)]);
            assert(text@ =~= old(text)@ + hex_text(next));
        }
        i += 1;
    }
}

/// The text of the identifier made of sixteen random bytes, for the name of
/// a new file. The caller draws the bytes.
pub fn identifier(random: &[u8; 16]) -> (r: String)
    ensures
        r@ == identifier_text(random@),
{
    let mut bytes: Vec<u8> = Vec::new();
    let mut i: usize = 0;
    while i < 16
        invariant
            i <= 16,
            bytes.len() == i,
            forall|j: int| 0 <= j < i ==> bytes@[j] == identifier_bytes(random@)[j],
        decreases 16 - i,
    {
        let byte = if i == 6 {
            64 + random[i] % 16
        } else if i == 8 {
            128 + random[i] % 64
        } else {
            random[i]
        };
        bytes.push(byte);
        i += 1;
    }
    assert(bytes@ =~= identifier_bytes(random@));
    let mut text = String::new();
    append_hex(&mut text, &bytes, 0, 4);
    text.append("-");
    append_hex(&mut text, &bytes, 4, 6);
    text.append("-");
    append_hex(&mut text, &bytes, 6, 8);
    text.append("-");
    append_hex(&mut text, &bytes, 8, 10);
    text.append("-");
    append_hex(&mut text, &bytes, 10, 16);
    assert(text@ =~= identifier_text(random@));
    text
}

} // verus!
