//! The localhost callback of a browser login: what the browser asks for, and what it is answered.

use vstd::prelude::*;
use vstd::utf8::encode_utf8;

use crate::text::{
    blank, chars_of, decimal, decimal_of, decimal_stands_for_its_number, decimal_value, find_in,
    is_blank, joined, lemma_find, lemma_find_is, lemma_split_joined, lemma_trim_start,
    lemma_word_len, same, split, split_once, splitting_once_cuts_at_the_first, text_of, trim_start,
    word_len, words,
};

verus! {

/// The value of the first piece that is `code`, an equals sign and a value.
pub open spec fn first_code(pieces: Seq<Seq<char>>) -> Option<Seq<char>>
    decreases pieces.len(),
{
    if pieces.len() == 0 {
        None
    } else {
        match split_once(pieces[0], '=') {
            Some((name, value)) => if name == "code"@ {
                Some(value)
            } else {
                first_code(pieces.skip(1))
            },
            None => first_code(pieces.skip(1)),
        }
    }
}

/// The authorization code in the query of a request's target.
pub open spec fn code_in(target: Seq<char>) -> Option<Seq<char>> {
    match split_once(target, '?') {
        Some((_, query)) => first_code(split(query, '&')),
        None => None,
    }
}

/// The target of a request: the second word of its first line.
pub open spec fn target_of(line: Seq<char>) -> Seq<char> {
    if words(line).len() > 1 {
        words(line)[1]
    } else {
        seq![]
    }
}

/// A plain-text HTTP response.
pub open spec fn response_text(status: Seq<char>, body: Seq<char>) -> Seq<char> {
    "HTTP/1.1 "@ + status + "\r\nContent-Length: "@ + decimal(encode_utf8(body).len())
        + "\r\nContent-Type: text/plain\r\n\r\n"@ + body
}

/// The authorization code in the query of a request's target, if it has one.
pub fn code_from_target(target: &str) -> (code: Option<String>)
    ensures
        code is Some <==> code_in(target@) is Some,
        code matches Some(c) ==> c@ == code_in(target@)->0,
{
    let chars = chars_of(target);
    let n = chars.len();
    assert(chars@.subrange(0, n as int) =~= target@);
    let mark = find_in(&chars, 0, n, '?');
    proof {
        lemma_find(target@, '?');
    }
    if mark == n {
        return None;
    }
    let mut from: usize = mark + 1;
    assert(chars@.subrange(from as int, n as int) =~= target@.skip(mark + 1));
    loop
        invariant
            from <= n == chars@.len(),
            code_in(target@) == first_code(split(chars@.subrange(from as int, n as int), '&')),
        decreases n - from,
    {
        let ghost rest = chars@.subrange(from as int, n as int);
        let end = find_in(&chars, from, n, '&');
        proof {
            lemma_find(rest, '&');
        }
        let ghost piece = chars@.subrange(from as int, end as int);
        let equals = find_in(&chars, from, end, '=');
        proof {
            lemma_find(piece, '=');
            assert(split(rest, '&')[0] == piece) by {
                assert(rest.take(end - from) =~= piece);
                assert(rest.take(rest.len() as int) =~= rest);
            }
            assert(equals < end ==> piece.take(equals - from) =~= chars@.subrange(
                from as int,
                equals as int,
            ));
            assert(equals < end ==> piece.skip(equals - from + 1) =~= chars@.subrange(
                equals + 1,
                end as int,
            ));
        }
        if equals < end {
            let name = text_of(&chars, from, equals);
            if same(name.as_str(), "code") {
                return Some(text_of(&chars, equals + 1, end));
            }
        }
        if end == n {
            assert(first_code(split(rest, '&').skip(1)) is None);
            return None;
        }
        proof {
            assert(rest.skip(end - from + 1) =~= chars@.subrange(end + 1, n as int));
            assert(split(rest, '&').skip(1) =~= split(chars@.subrange(end + 1, n as int), '&'));
        }
        from = end + 1;
    }
}

/// The first index at or after `from` that holds no white space, or the length.
fn skip_blanks(chars: &Vec<char>, from: usize) -> (at: usize)
    requires
        from <= chars@.len(),
    ensures
        from <= at <= chars@.len(),
        chars@.skip(at as int) == trim_start(chars@.skip(from as int)),
{
    let mut at: usize = from;
    while at < chars.len() && blank(chars[at])
        invariant
            from <= at <= chars@.len(),
            trim_start(chars@.skip(from as int)) == trim_start(chars@.skip(at as int)),
        decreases chars@.len() - at,
    {
        assert(chars@.skip(at as int)[0] == chars@[at as int]);
        assert(chars@.skip(at as int).skip(1) =~= chars@.skip(at + 1));
        at += 1;
    }
    at
}

/// The first index at or after `from` that holds white space, or the length.
fn word_end(chars: &Vec<char>, from: usize) -> (at: usize)
    requires
        from <= chars@.len(),
    ensures
        from <= at <= chars@.len(),
        at == from + word_len(chars@.skip(from as int)),
{
    let mut at: usize = from;
    while at < chars.len() && !blank(chars[at])
        invariant
            from <= at <= chars@.len(),
            word_len(chars@.skip(from as int)) == at - from + word_len(chars@.skip(at as int)),
        decreases chars@.len() - at,
    {
        assert(chars@.skip(at as int)[0] == chars@[at as int]);
        assert(chars@.skip(at as int).skip(1) =~= chars@.skip(at + 1));
        at += 1;
    }
    at
}

/// The target of a request, from its first line; empty where the line has none.
pub fn request_target(line: &str) -> (target: String)
    ensures
        target@ == target_of(line@),
{
    let chars = chars_of(line);
    assert(chars@.skip(0) =~= line@);
    let first = skip_blanks(&chars, 0);
    let first_end = word_end(&chars, first);
    let second = skip_blanks(&chars, first_end);
    let second_end = word_end(&chars, second);
    proof {
        let head = chars@.skip(first as int);
        let middle = chars@.skip(first_end as int);
        let tail = chars@.skip(second as int);
        lemma_trim_start(line@);
        lemma_word_len(head);
        assert(head.skip(first_end - first) =~= middle);
        if head.len() > 0 {
            assert(words(line@) == seq![head.take(first_end - first)] + words(middle));
            if tail.len() > 0 {
                assert(words(middle)[0] == tail.take(second_end - second));
                assert(tail.take(second_end - second) =~= chars@.subrange(
                    second as int,
                    second_end as int,
                ));
            }
        }
    }
    text_of(&chars, second, second_end)
}

/// A plain-text HTTP response with its length in bytes.
pub fn http_response(status: &str, body: &str) -> (response: String)
    ensures
        response@ == response_text(status@, body@),
{
    let mut response = "HTTP/1.1 ".to_owned();
    response.append(status);
    response.append("\r\nContent-Length: ");
    let length = decimal_of(body.as_bytes().len() as u64);
    response.append(length.as_str());
    response.append("\r\nContent-Type: text/plain\r\n\r\n");
    response.append(body);
    response
}

/// What a request is answered, and the authorization code that it brought.
#[derive(Debug)]
pub struct Answer {
    /// The whole HTTP response.
    pub response: String,
    /// The code; the callback keeps listening while there is none.
    pub code: Option<String>,
}

impl Answer {
    /// Whether this is the answer to a request line: the code in its target, and one response
    /// for a request that brings a code and another for one that does not.
    pub open spec fn answers(
        self,
        line: Seq<char>,
        granted: Seq<char>,
        refused: Seq<char>,
    ) -> bool {
        match code_in(target_of(line)) {
            Some(code) => self.code is Some && self.code->0@ == code && self.response@ == granted,
            None => self.code is None && self.response@ == refused,
        }
    }
}

/// Answer a request line: with status 200 and `thanks` where it brings a code, else with
/// `refused_status` and no body.
pub fn answer_with(line: &str, thanks: &str, refused_status: &str) -> (answer: Answer)
    ensures
        answer.answers(
            line@,
            response_text("200 OK"@, thanks@),
            response_text(refused_status@, ""@),
        ),
{
    let target = request_target(line);
    match code_from_target(target.as_str()) {
        Some(code) => Answer { response: http_response("200 OK", thanks), code: Some(code) },
        None => Answer { response: http_response(refused_status, ""), code: None },
    }
}

/// A redirect to a path with a code as the first parameter yields exactly that code, whatever
/// other parameters follow.
pub proof fn redirect_yields_its_code(path: Seq<char>, code: Seq<char>, rest: Seq<char>)
    requires
        !path.contains('?'),
        !code.contains('&'),
    ensures
        code_in(path + "?code="@ + code + "&"@ + rest) == Some(code),
        code_in(path + "?code="@ + code) == Some(code),
{
    reveal_strlit("?code=");
    reveal_strlit("code");
    reveal_strlit("&");
    let piece = "code"@ + seq!['='] + code;
    assert forall|i: int| 0 <= i < piece.len() implies piece[i] != '&' by {
        if i >= 5 {
            assert(piece[i] == code[i - 5]);
        }
    }
    lemma_find_is(piece, '=', 4);
    assert(piece.take(4) =~= "code"@);
    assert(piece.skip(5) =~= code);
    assert(split_once(piece, '=') == Some(("code"@, code)));
    // Alone.
    lemma_query(path, piece);
    assert(path + "?code="@ + code =~= path + seq!['?'] + piece);
    lemma_find_is(piece, '&', piece.len() as int);
    assert(split(piece, '&') =~= seq![piece]);
    // With more parameters.
    let query = piece + seq!['&'] + rest;
    lemma_query(path, query);
    assert(path + "?code="@ + code + "&"@ + rest =~= path + seq!['?'] + query);
    assert forall|i: int| 0 <= i < piece.len() implies query[i] != '&' by {
        assert(query[i] == piece[i]);
    }
    lemma_find_is(query, '&', piece.len() as int);
    assert(query.take(piece.len() as int) =~= piece);
    assert(split(query, '&')[0] == piece);
}

proof fn lemma_query(path: Seq<char>, query: Seq<char>)
    requires
        !path.contains('?'),
    ensures
        code_in(path + seq!['?'] + query) == first_code(split(query, '&')),
{
    let target = path + seq!['?'] + query;
    assert forall|i: int| 0 <= i < path.len() implies target[i] != '?' by {
        assert(target[i] == path[i]);
    }
    lemma_find_is(target, '?', path.len() as int);
    assert(target.skip(path.len() as int + 1) =~= query);
}

/// The target of a request line is its second word.
pub proof fn request_line_yields_its_target(
    method: Seq<char>,
    target: Seq<char>,
    version: Seq<char>,
)
    requires
        method.len() > 0,
        target.len() > 0,
        forall|i: int| 0 <= i < method.len() ==> !is_blank(#[trigger] method[i]),
        forall|i: int| 0 <= i < target.len() ==> !is_blank(#[trigger] target[i]),
    ensures
        target_of(method + seq![' '] + target + seq![' '] + version) == target,
{
    let after = target + seq![' '] + version;
    let line = method + seq![' '] + target + seq![' '] + version;
    assert(line =~= method + seq![' '] + after);
    lemma_first_word(method, after);
    lemma_first_word(target, version);
    let spaced = seq![' '] + after;
    assert(spaced.skip(1) =~= after);
    assert(after[0] == target[0]);
    assert(trim_start(after) == after);
    assert(trim_start(spaced) == after);
    assert(words(spaced) == seq![target] + words(seq![' '] + version));
    assert(words(line) == seq![method] + words(spaced));
}

/// The request of a browser that was redirected with a code brings exactly that code.
pub proof fn redirected_browser_brings_its_code(
    method: Seq<char>,
    path: Seq<char>,
    code: Seq<char>,
    rest: Seq<char>,
    version: Seq<char>,
)
    requires
        method.len() > 0,
        !path.contains('?'),
        !code.contains('&'),
        forall|i: int| 0 <= i < method.len() ==> !is_blank(#[trigger] method[i]),
        forall|i: int| 0 <= i < path.len() ==> !is_blank(#[trigger] path[i]),
        forall|i: int| 0 <= i < code.len() ==> !is_blank(#[trigger] code[i]),
        forall|i: int| 0 <= i < rest.len() ==> !is_blank(#[trigger] rest[i]),
    ensures
        code_in(
            target_of(
                method + seq![' '] + (path + "?code="@ + code + "&"@ + rest) + seq![' '] + version,
            ),
        ) == Some(code),
{
    reveal_strlit("?code=");
    reveal_strlit("&");
    let target = path + "?code="@ + code + "&"@ + rest;
    let mark = path.len() as int;
    let end = mark + 6 + code.len();
    assert forall|i: int| 0 <= i < target.len() implies !is_blank(#[trigger] target[i]) by {
        if i < mark {
            assert(target[i] == path[i]);
        } else if i < mark + 6 {
            assert(target[i] == "?code="@[i - mark]);
        } else if i < end {
            assert(target[i] == code[i - mark - 6]);
        } else if i > end {
            assert(target[i] == rest[i - end - 1]);
        }
    }
    request_line_yields_its_target(method, target, version);
    redirect_yields_its_code(path, code, rest);
}

proof fn lemma_first_word(word: Seq<char>, rest: Seq<char>)
    requires
        word.len() > 0,
        forall|i: int| 0 <= i < word.len() ==> !is_blank(#[trigger] word[i]),
    ensures
        trim_start(word + seq![' '] + rest) == word + seq![' '] + rest,
        word_len(word + seq![' '] + rest) == word.len(),
        (word + seq![' '] + rest).take(word.len() as int) == word,
        (word + seq![' '] + rest).skip(word.len() as int) == seq![' '] + rest,
{
    let line = word + seq![' '] + rest;
    assert(line[0] == word[0]);
    lemma_word_len(line);
    let k = word_len(line);
    if k < word.len() {
        assert(line[k] == word[k]);
    } else if k > word.len() {
        assert(line[word.len() as int] == ' ');
    }
    assert(line.take(word.len() as int) =~= word);
    assert(line.skip(word.len() as int) =~= seq![' '] + rest);
}

/// The code is the value of the first parameter named `code`, wherever it stands in the query and
/// whatever it holds.
pub proof fn first_code_parameter_yields_the_code(
    path: Seq<char>,
    parameters: Seq<Seq<char>>,
    at: int,
    code: Seq<char>,
)
    requires
        !path.contains('?'),
        forall|i: int| 0 <= i < parameters.len() ==> !(#[trigger] parameters[i]).contains('&'),
        0 <= at < parameters.len(),
        parameters[at] == "code="@ + code,
        forall|i: int|
            0 <= i < at ==> (#[trigger] parameters[i]).len() < 5 || parameters[i].take(5)
                != "code="@,
    ensures
        code_in(path + seq!['?'] + joined(parameters, seq!['&'])) == Some(code),
{
    lemma_query(path, joined(parameters, seq!['&']));
    lemma_split_joined(parameters, '&');
    lemma_first_code(parameters, at, code);
}

/// Without a parameter named `code`, or without a query, there is no code.
pub proof fn no_code_without_its_parameter(path: Seq<char>, parameters: Seq<Seq<char>>)
    requires
        !path.contains('?'),
        parameters.len() > 0,
        forall|i: int| 0 <= i < parameters.len() ==> !(#[trigger] parameters[i]).contains('&'),
        forall|i: int|
            0 <= i < parameters.len() ==> (#[trigger] parameters[i]).len() < 5
                || parameters[i].take(5) != "code="@,
    ensures
        code_in(path) is None,
        code_in(path + seq!['?'] + joined(parameters, seq!['&'])) is None,
{
    splitting_once_cuts_at_the_first(path, seq![], '?');
    lemma_query(path, joined(parameters, seq!['&']));
    lemma_split_joined(parameters, '&');
    lemma_no_code(parameters);
}

proof fn lemma_first_code(pieces: Seq<Seq<char>>, at: int, code: Seq<char>)
    requires
        0 <= at < pieces.len(),
        pieces[at] == "code="@ + code,
        forall|i: int|
            0 <= i < at ==> (#[trigger] pieces[i]).len() < 5 || pieces[i].take(5) != "code="@,
    ensures
        first_code(pieces) == Some(code),
    decreases pieces.len(),
{
    if at == 0 {
        reveal_strlit("code=");
        reveal_strlit("code");
        assert("code="@ + code =~= "code"@ + seq!['='] + code);
        splitting_once_cuts_at_the_first("code"@, code, '=');
    } else {
        lemma_other_parameter(pieces[0]);
        let rest = pieces.skip(1);
        assert forall|i: int| 0 <= i < at - 1 implies (#[trigger] rest[i]).len() < 5
            || rest[i].take(5) != "code="@ by {
            assert(rest[i] == pieces[i + 1]);
        }
        lemma_first_code(rest, at - 1, code);
    }
}

proof fn lemma_no_code(pieces: Seq<Seq<char>>)
    requires
        forall|i: int|
            0 <= i < pieces.len() ==> (#[trigger] pieces[i]).len() < 5 || pieces[i].take(5)
                != "code="@,
    ensures
        first_code(pieces) is None,
    decreases pieces.len(),
{
    if pieces.len() > 0 {
        lemma_other_parameter(pieces[0]);
        let rest = pieces.skip(1);
        assert forall|i: int| 0 <= i < rest.len() implies (#[trigger] rest[i]).len() < 5
            || rest[i].take(5) != "code="@ by {
            assert(rest[i] == pieces[i + 1]);
        }
        lemma_no_code(rest);
    }
}

proof fn lemma_other_parameter(piece: Seq<char>)
    requires
        piece.len() < 5 || piece.take(5) != "code="@,
    ensures
        split_once(piece, '=') matches Some((name, _)) ==> name != "code"@,
{
    reveal_strlit("code=");
    reveal_strlit("code");
    lemma_find(piece, '=');
    if let Some((name, value)) = split_once(piece, '=') {
        if name == "code"@ {
            assert(piece.take(4) == "code"@);
            assert(forall|i: int| 0 <= i < 4 ==> piece[i] == #[trigger] piece.take(4)[i]);
            assert(piece.take(5) =~= "code="@);
        }
    }
}

/// The target is the second word of the line, however much white space stands before and between
/// the words.
pub proof fn second_word_is_the_target(
    before: Seq<char>,
    method: Seq<char>,
    between: Seq<char>,
    target: Seq<char>,
    rest: Seq<char>,
)
    requires
        forall|i: int| 0 <= i < before.len() ==> is_blank(#[trigger] before[i]),
        method.len() > 0,
        forall|i: int| 0 <= i < method.len() ==> !is_blank(#[trigger] method[i]),
        between.len() > 0,
        forall|i: int| 0 <= i < between.len() ==> is_blank(#[trigger] between[i]),
        target.len() > 0,
        forall|i: int| 0 <= i < target.len() ==> !is_blank(#[trigger] target[i]),
        rest.len() > 0 ==> is_blank(rest[0]),
    ensures
        target_of(before + method + between + target + rest) == target,
{
    let after = target + rest;
    let line = before + method + between + target + rest;
    assert(line =~= before + (method + (between + after)));
    lemma_word_after_blanks(before, method, between + after);
    lemma_word_after_blanks(between, target, rest);
    assert(words(line) == seq![method] + words(between + after));
    assert(words(between + after) == seq![target] + words(rest));
}

/// A line with fewer than two words has no target.
pub proof fn no_target_without_a_second_word(
    before: Seq<char>,
    method: Seq<char>,
    after: Seq<char>,
)
    requires
        forall|i: int| 0 <= i < before.len() ==> is_blank(#[trigger] before[i]),
        forall|i: int| 0 <= i < method.len() ==> !is_blank(#[trigger] method[i]),
        forall|i: int| 0 <= i < after.len() ==> is_blank(#[trigger] after[i]),
    ensures
        target_of(before + method + after).len() == 0,
{
    let line = before + method + after;
    if method.len() > 0 {
        assert(line =~= before + (method + after));
        lemma_word_after_blanks(before, method, after);
        lemma_blanks_have_no_words(after);
        assert(words(line) == seq![method] + words(after));
    } else {
        assert(line =~= before + after);
        assert forall|i: int| 0 <= i < line.len() implies is_blank(#[trigger] line[i]) by {
            if i < before.len() {
                assert(line[i] == before[i]);
            } else {
                assert(line[i] == after[i - before.len()]);
            }
        }
        lemma_blanks_have_no_words(line);
    }
}

proof fn lemma_blanks_have_no_words(blanks: Seq<char>)
    requires
        forall|i: int| 0 <= i < blanks.len() ==> is_blank(#[trigger] blanks[i]),
    ensures
        words(blanks).len() == 0,
{
    lemma_trim_start(blanks);
    let rest = trim_start(blanks);
    if rest.len() > 0 {
        assert(rest[0] == blanks[blanks.len() - rest.len()]);
    }
}

proof fn lemma_word_after_blanks(blanks: Seq<char>, word: Seq<char>, rest: Seq<char>)
    requires
        forall|i: int| 0 <= i < blanks.len() ==> is_blank(#[trigger] blanks[i]),
        word.len() > 0,
        forall|i: int| 0 <= i < word.len() ==> !is_blank(#[trigger] word[i]),
        rest.len() > 0 ==> is_blank(rest[0]),
    ensures
        words(blanks + (word + rest)) == seq![word] + words(rest),
        words(blanks + word + rest) == seq![word] + words(rest),
{
    let text = blanks + (word + rest);
    assert(blanks + word + rest =~= text);
    lemma_trim_start(text);
    let tail = trim_start(text);
    let cut = text.len() - tail.len();
    assert(text[blanks.len() as int] == word[0]);
    if cut < blanks.len() {
        assert(tail[0] == text[cut]);
        assert(text[cut] == blanks[cut]);
    }
    if cut > blanks.len() {
        assert(is_blank(text[blanks.len() as int]));
    }
    assert(tail =~= word + rest);
    lemma_word_len(tail);
    let k = word_len(tail);
    if k < word.len() {
        assert(tail[k] == word[k]);
    } else if k > word.len() {
        assert(tail[word.len() as int] == rest[0]);
    }
    assert(tail.take(k) =~= word);
    assert(tail.skip(k) =~= rest);
}

/// A response carries its status and its whole body, and says in decimal how many bytes of UTF-8
/// the body has.
pub proof fn response_carries_status_length_and_body(status: Seq<char>, body: Seq<char>)
    ensures
        exists|digits: Seq<char>|
            {
                &&& response_text(status, body) == "HTTP/1.1 "@ + status + "\r\nContent-Length: "@
                    + digits + "\r\nContent-Type: text/plain\r\n\r\n"@ + body
                &&& #[trigger] decimal_value(digits) == encode_utf8(body).len()
                &&& digits.len() > 0
                &&& forall|i: int| 0 <= i < digits.len() ==> '0' <= #[trigger] digits[i] <= '9'
                &&& digits[0] == '0' ==> digits.len() == 1
            },
{
    let n = encode_utf8(body).len();
    let digits = decimal(n);
    decimal_stands_for_its_number(n);
    assert(decimal_value(digits) == n);
}

/// A request that brings a code is thanked and its very code is taken; any other is refused, and
/// the callback goes on without a code.
pub proof fn answer_takes_the_code(
    answer: Answer,
    line: Seq<char>,
    granted: Seq<char>,
    refused: Seq<char>,
    code: Seq<char>,
)
    requires
        answer.answers(line, granted, refused),
    ensures
        code_in(target_of(line)) == Some(code) ==> answer.code is Some && answer.code->0@ == code
            && answer.response@ == granted,
        code_in(target_of(line)) is None ==> answer.code is None && answer.response@ == refused,
{
}

} // verus!
