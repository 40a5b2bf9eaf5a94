//! Percent-encoding and `application/x-www-form-urlencoded` text.

use vstd::prelude::*;
use vstd::utf8::{decode_utf8, encode_utf8};

use crate::text::{join, joined, lemma_find_is, lemma_split_joined, split, split_once, views};

verus! {

/// Whether a byte stands for itself in a query value.
pub open spec fn is_unreserved(b: u8) -> bool {
    ||| 'A' as u8 <= b <= 'Z' as u8
    ||| 'a' as u8 <= b <= 'z' as u8
    ||| '0' as u8 <= b <= '9' as u8
    ||| b == '-' as u8
    ||| b == '_' as u8
    ||| b == '.' as u8
    ||| b == '~' as u8
}

/// The capital hexadecimal digit of a number below sixteen.
pub open spec fn hex_digit(n: u8) -> char {
    if n < 10 {
        ('0' as u8 + n) as char
    } else {
        ('A' as u8 + (n - 10)) as char
    }
}

/// What stands for one byte: itself, or a percent sign and its two hexadecimal digits.
pub open spec fn byte_code(b: u8) -> Seq<char> {
    if is_unreserved(b) {
        seq![b as char]
    } else {
        seq!['%', hex_digit(b / 16), hex_digit(b % 16)]
    }
}

/// The codes of all the bytes, in order.
pub open spec fn byte_codes(bytes: Seq<u8>) -> Seq<char>
    decreases bytes.len(),
{
    if bytes.len() == 0 {
        seq![]
    } else {
        byte_code(bytes[0]) + byte_codes(bytes.skip(1))
    }
}

/// The percent-encoding of a text: that of its UTF-8 bytes.
pub open spec fn percent_encoded(text: Seq<char>) -> Seq<char> {
    byte_codes(encode_utf8(text))
}

/// The value of a capital hexadecimal digit.
pub open spec fn hex_value(c: char) -> int {
    if c <= '9' {
        c as int - '0' as int
    } else {
        c as int - 'A' as int + 10
    }
}

/// The bytes that a percent-encoded text stands for.
pub open spec fn percent_decoded(code: Seq<char>) -> Seq<u8>
    decreases code.len(),
{
    if code.len() == 0 {
        seq![]
    } else if code[0] == '%' && code.len() >= 3 {
        seq![(hex_value(code[1]) * 16 + hex_value(code[2])) as u8] + percent_decoded(code.skip(3))
    } else {
        seq![code[0] as u8] + percent_decoded(code.skip(1))
    }
}

/// A name, an equals sign and the encoded value.
pub open spec fn field(name: Seq<char>, value: Seq<char>) -> Seq<char> {
    name + seq!['='] + percent_encoded(value)
}

/// The fields of a form, one for each pair of a name and a value.
pub open spec fn fields(params: Seq<(Seq<char>, Seq<char>)>) -> Seq<Seq<char>> {
    params.map_values(|p: (Seq<char>, Seq<char>)| field(p.0, p.1))
}

/// A form: its fields with ampersands between them.
pub open spec fn form(params: Seq<(Seq<char>, Seq<char>)>) -> Seq<char> {
    joined(fields(params), seq!['&'])
}

/// The characters of each name and value.
pub open spec fn pairs(params: Seq<(&str, &str)>) -> Seq<(Seq<char>, Seq<char>)> {
    params.map_values(|p: (&str, &str)| (p.0@, p.1@))
}

/// Percent-encode a query value: everything but letters, digits, `-`, `_`, `.` and `~`.
pub fn urlencode(text: &str) -> (code: String)
    ensures
        code@ == percent_encoded(text@),
{
    let bytes = text.as_bytes();
    let mut code = String::new();
    let mut i: usize = 0;
    assert(bytes@.skip(0) =~= bytes@);
    while i < bytes.len()
        invariant
            i <= bytes@.len(),
            byte_codes(bytes@) == code@ + byte_codes(bytes@.skip(i as int)),
        decreases bytes@.len() - i,
    {
        let b: u8 = bytes[i];
        let ghost before = code@;
        assert(bytes@.skip(i as int).skip(1) =~= bytes@.skip(i + 1));
        if ('A' as u8 <= b && b <= 'Z' as u8) || ('a' as u8 <= b && b <= 'z' as u8) || ('0' as u8
            <= b && b <= '9' as u8) || b == '-' as u8 || b == '_' as u8 || b == '.' as u8 || b
            == '~' as u8 {
            code.push(b as char);
        } else {
            code.push('%');
            code.push(hex(b / 16));
            code.push(hex(b % 16));
        }
        assert(code@ =~= before + byte_code(b));
        assert(code@ + byte_codes(bytes@.skip(i + 1)) =~= before + (byte_code(b) + byte_codes(
            bytes@.skip(i + 1),
        )));
        i += 1;
    }
    assert(code@ + byte_codes(bytes@.skip(i as int)) =~= code@);
    code
}

/// The capital hexadecimal digit of a number below sixteen.
fn hex(n: u8) -> (c: char)
    requires
        n < 16,
    ensures
        c == hex_digit(n),
{
    if n < 10 {
        ('0' as u8 + n) as char
    } else {
        ('A' as u8 + (n - 10)) as char
    }
}

/// The form of pairs of a name and a value, in order, each value percent-encoded.
pub fn form_body(params: &[(&str, &str)]) -> (body: String)
    ensures
        body@ == form(pairs(params@)),
{
    let mut list: Vec<String> = Vec::new();
    let ghost expected = fields(pairs(params@));
    let mut i: usize = 0;
    while i < params.len()
        invariant
            i <= params@.len(),
            expected == fields(pairs(params@)),
            list@.len() == i,
            forall|j: int| 0 <= j < i ==> (#[trigger] list@[j])@ == expected[j],
        decreases params@.len() - i,
    {
        let (name, value) = params[i];
        let mut entry = String::new();
        entry.append(name);
        entry.push('=');
        let code = urlencode(value);
        entry.append(code.as_str());
        assert(entry@ =~= field(name@, value@));
        list.push(entry);
        i += 1;
    }
    assert(views(list@) =~= expected);
    assert("&"@ =~= seq!['&']) by {
        reveal_strlit("&");
    }
    join(&list, "&")
}

/// Decoding the codes of bytes gives the bytes back.
pub proof fn codes_decode_to_bytes(bytes: Seq<u8>)
    ensures
        percent_decoded(byte_codes(bytes)) == bytes,
    decreases bytes.len(),
{
    if bytes.len() > 0 {
        let b = bytes[0];
        let rest = byte_codes(bytes.skip(1));
        let code = byte_codes(bytes);
        codes_decode_to_bytes(bytes.skip(1));
        if is_unreserved(b) {
            assert(code.skip(1) =~= rest);
            assert(code[0] == b as char);
            assert(code[0] as u8 == b);
        } else {
            assert(code.skip(3) =~= rest);
            assert(code[0] == '%' && code[1] == hex_digit(b / 16) && code[2] == hex_digit(b % 16));
            assert(hex_value(hex_digit(b / 16)) == b / 16);
            assert(hex_value(hex_digit(b % 16)) == b % 16);
        }
        assert(seq![b] + bytes.skip(1) =~= bytes);
    } else {
        assert(bytes =~= seq![]);
    }
}

/// Percent-encoding loses nothing: decoding an encoded text gives the text back.
pub proof fn encoding_is_invertible(text: Seq<char>)
    ensures
        decode_utf8(percent_decoded(percent_encoded(text))) == text,
{
    codes_decode_to_bytes(encode_utf8(text));
    vstd::utf8::encode_utf8_decode_utf8(text);
}

/// An encoded value holds letters, digits, `-`, `_`, `.`, `~` and percent signs only, so it
/// can hold no character that separates the parts of a query.
pub proof fn encoding_has_no_separators(bytes: Seq<u8>)
    ensures
        forall|i: int|
            0 <= i < byte_codes(bytes).len() ==> {
                let c = #[trigger] byte_codes(bytes)[i];
                c == '%' || exists|b: u8| is_unreserved(b) && c == b as char
            },
    decreases bytes.len(),
{
    if bytes.len() > 0 {
        let head = byte_code(bytes[0]);
        let rest = byte_codes(bytes.skip(1));
        encoding_has_no_separators(bytes.skip(1));
        assert forall|i: int| 0 <= i < byte_codes(bytes).len() implies {
            let c = #[trigger] byte_codes(bytes)[i];
            c == '%' || exists|b: u8| is_unreserved(b) && c == b as char
        } by {
            let c = byte_codes(bytes)[i];
            if i >= head.len() {
                assert(c == rest[i - head.len()]);
            } else if !is_unreserved(bytes[0]) && i > 0 {
                let n: u8 = if i == 1 { bytes[0] / 16 } else { bytes[0] % 16 };
                assert(c == hex_digit(n));
                let b: u8 = if n < 10 { ('0' as u8 + n) as u8 } else { ('A' as u8 + (n - 10)) as u8 };
                assert(is_unreserved(b) && c == b as char);
            }
        }
    }
}

/// Whether a text needs no encoding.
pub open spec fn is_plain(text: Seq<char>) -> bool {
    forall|i: int| 0 <= i < text.len() ==> #[trigger] text[i] <= '\u{7f}' && is_unreserved(
        text[i] as u8,
    )
}

/// Encoding leaves a text of unreserved characters as it is.
pub proof fn plain_text_is_its_own_encoding(text: Seq<char>)
    requires
        is_plain(text),
    ensures
        percent_encoded(text) == text,
{
    lemma_plain_is_ascii(text);
    vstd::utf8::is_ascii_chars_encode_utf8(text);
    let bytes = encode_utf8(text);
    assert forall|i: int| 0 <= i < bytes.len() implies is_unreserved(#[trigger] bytes[i]) && bytes[i] as char == text[i] by {
        assert(text[i] <= '\u{7f}');
    }
    lemma_plain_codes(bytes);
    assert(byte_codes(bytes) =~= text);
}

/// A text of unreserved characters is ASCII, so it has one UTF-8 byte for each character.
pub proof fn lemma_plain_is_ascii(text: Seq<char>)
    requires
        is_plain(text),
    ensures
        vstd::utf8::is_ascii_chars(text),
        encode_utf8(text).len() == text.len(),
{
    assert forall|i: int| 0 <= i < text.len() implies '\0' <= #[trigger] text[i] <= '\u{7f}' by {
        assert(text[i] <= '\u{7f}');
        lemma_char_is_not_negative(text[i]);
    }
    vstd::utf8::is_ascii_chars_encode_utf8(text);
}

proof fn lemma_char_is_not_negative(c: char)
    ensures
        '\0' <= c,
{
}

proof fn lemma_plain_codes(bytes: Seq<u8>)
    requires
        forall|i: int| 0 <= i < bytes.len() ==> is_unreserved(#[trigger] bytes[i]),
    ensures
        byte_codes(bytes) == bytes.map_values(|b: u8| b as char),
    decreases bytes.len(),
{
    if bytes.len() > 0 {
        assert forall|i: int| 0 <= i < bytes.skip(1).len() implies is_unreserved(
            #[trigger] bytes.skip(1)[i],
        ) by {
            assert(bytes.skip(1)[i] == bytes[i + 1]);
        }
        lemma_plain_codes(bytes.skip(1));
    }
    assert(byte_codes(bytes) =~= bytes.map_values(|b: u8| b as char));
}

/// Whether a name can stand in a form: it holds neither an ampersand nor an equals sign.
pub open spec fn is_field_name(name: Seq<char>) -> bool {
    !name.contains('&') && !name.contains('=')
}

/// A form can be taken apart again: its pieces between the ampersands are its fields, and each
/// piece splits at its first equals sign into the name and the encoded value.
pub proof fn form_can_be_taken_apart(params: Seq<(Seq<char>, Seq<char>)>)
    requires
        params.len() > 0,
        forall|i: int| 0 <= i < params.len() ==> is_field_name(#[trigger] params[i].0),
    ensures
        split(form(params), '&') == fields(params),
        forall|i: int|
            0 <= i < params.len() ==> split_once(#[trigger] split(form(params), '&')[i], '=')
                == Some((params[i].0, percent_encoded(params[i].1))),
{
    let list = fields(params);
    assert forall|i: int| 0 <= i < list.len() implies !(#[trigger] list[i]).contains('&') by {
        lemma_field_has_no_ampersand(params[i].0, params[i].1);
    }
    lemma_split_joined(list, '&');
    assert forall|i: int| 0 <= i < params.len() implies split_once(
        #[trigger] split(form(params), '&')[i],
        '=',
    ) == Some((params[i].0, percent_encoded(params[i].1))) by {
        let (name, value) = params[i];
        let text = field(name, value);
        assert(list[i] == text);
        assert forall|j: int| 0 <= j < name.len() implies text[j] != '=' by {
            assert(name[j] == text[j]);
        }
        lemma_find_is(text, '=', name.len() as int);
        assert(text.take(name.len() as int) =~= name);
        assert(text.skip(name.len() as int + 1) =~= percent_encoded(value));
    }
}

proof fn lemma_field_has_no_ampersand(name: Seq<char>, value: Seq<char>)
    requires
        is_field_name(name),
    ensures
        !field(name, value).contains('&'),
{
    let text = field(name, value);
    let code = percent_encoded(value);
    encoding_has_no_separators(encode_utf8(value));
    assert forall|j: int| 0 <= j < text.len() implies text[j] != '&' by {
        if j < name.len() {
            assert(name[j] == text[j]);
        } else if j > name.len() {
            assert(text[j] == code[j - name.len() - 1]);
        }
    }
}

/// The bytes that stand for themselves are the ASCII letters and digits and four signs.
pub proof fn unreserved_bytes_are_letters_digits_and_signs(b: u8)
    ensures
        is_unreserved(b)
            <==> "ABCDEFGHIJKLMNOPQRSTUVWXYZabcdefghijklmnopqrstuvwxyz0123456789-_.~"@.contains(
            b as char,
        ),
{
    let plain = "ABCDEFGHIJKLMNOPQRSTUVWXYZabcdefghijklmnopqrstuvwxyz0123456789-_.~"@;
    reveal_strlit("ABCDEFGHIJKLMNOPQRSTUVWXYZabcdefghijklmnopqrstuvwxyz0123456789-_.~");
    if is_unreserved(b) {
        let n = b as int;
        let at: int = if n == '-' as int {
            62
        } else if n == '.' as int {
            64
        } else if n == '_' as int {
            63
        } else if n == '~' as int {
            65
        } else if n <= '9' as int {
            n - '0' as int + 52
        } else if n <= 'Z' as int {
            n - 'A' as int
        } else {
            n - 'a' as int + 26
        };
        assert(plain[at] == b as char);
    }
}

/// Each byte is encoded by itself, at its place: one that stands for itself as that character, and
/// any other as a percent sign and its two hexadecimal digits, the higher one first.
pub proof fn bytes_are_encoded_one_by_one(a: Seq<u8>, b: Seq<u8>, byte: u8)
    ensures
        byte_codes(seq![]) == Seq::<char>::empty(),
        byte_codes(a + b) == byte_codes(a) + byte_codes(b),
        is_unreserved(byte) ==> byte_codes(seq![byte]) == seq![byte as char],
        !is_unreserved(byte) ==> byte_codes(seq![byte]) == seq![
            '%',
            "0123456789ABCDEF"@[byte as int / 16],
            "0123456789ABCDEF"@[byte as int % 16],
        ],
    decreases a.len(),
{
    reveal_strlit("0123456789ABCDEF");
    assert(byte_codes(seq![byte].skip(1)) =~= seq![]);
    assert(byte_codes(seq![byte]) =~= byte_code(byte));
    lemma_hex_digit(byte / 16);
    lemma_hex_digit(byte % 16);
    if a.len() == 0 {
        assert(a + b =~= b);
        assert(byte_codes(a) + byte_codes(b) =~= byte_codes(b));
    } else {
        bytes_are_encoded_one_by_one(a.skip(1), b, byte);
        assert((a + b).skip(1) =~= a.skip(1) + b);
        assert((a + b)[0] == a[0]);
        assert(byte_codes(a + b) =~= byte_codes(a) + byte_codes(b));
    }
}

proof fn lemma_hex_digit(n: u8)
    requires
        n < 16,
    ensures
        hex_digit(n) == "0123456789ABCDEF"@[n as int],
{
    reveal_strlit("0123456789ABCDEF");
}

/// A text is encoded part by part, and each character by its UTF-8 bytes.
pub proof fn texts_are_encoded_part_by_part(a: Seq<char>, b: Seq<char>, c: char)
    ensures
        percent_encoded(seq![]) == Seq::<char>::empty(),
        percent_encoded(a + b) == percent_encoded(a) + percent_encoded(b),
        percent_encoded(seq![c]) == byte_codes(encode_utf8(seq![c])),
{
    lemma_encode_parts(a, b);
    bytes_are_encoded_one_by_one(encode_utf8(a), encode_utf8(b), 0);
}

proof fn lemma_encode_parts(a: Seq<char>, b: Seq<char>)
    ensures
        encode_utf8(a + b) == encode_utf8(a) + encode_utf8(b),
    decreases a.len(),
{
    if a.len() == 0 {
        assert(a + b =~= b);
        assert(encode_utf8(a) + encode_utf8(b) =~= encode_utf8(b));
    } else {
        lemma_encode_parts(a.drop_first(), b);
        assert((a + b).drop_first() =~= a.drop_first() + b);
        assert(encode_utf8(a + b) =~= encode_utf8(a) + encode_utf8(b));
    }
}

/// The pairs of a form are the names and values as they are given, each at its place.
pub proof fn pairs_are_names_and_values(params: Seq<(&str, &str)>)
    ensures
        pairs(params).len() == params.len(),
        forall|i: int|
            0 <= i < params.len() ==> #[trigger] pairs(params)[i] == (params[i].0@, params[i].1@),
{
}

} // verus!
