//! Text as a sequence of characters: searching, splitting, trimming, joining and numbers.

use vstd::prelude::*;

verus! {

/// Whether a character has Unicode's `White_Space` property.
pub open spec fn is_blank(c: char) -> bool {
    ||| '\u{9}' <= c <= '\u{d}'
    ||| c == ' '
    ||| c == '\u{85}'
    ||| c == '\u{a0}'
    ||| c == '\u{1680}'
    ||| '\u{2000}' <= c <= '\u{200a}'
    ||| c == '\u{2028}'
    ||| c == '\u{2029}'
    ||| c == '\u{202f}'
    ||| c == '\u{205f}'
    ||| c == '\u{3000}'
}

/// `s` without its leading white space.
pub open spec fn trim_start(s: Seq<char>) -> Seq<char>
    decreases s.len(),
{
    if s.len() > 0 && is_blank(s[0]) {
        trim_start(s.skip(1))
    } else {
        s
    }
}

/// `s` without its trailing white space.
pub open spec fn trim_end(s: Seq<char>) -> Seq<char>
    decreases s.len(),
{
    if s.len() > 0 && is_blank(s.last()) {
        trim_end(s.drop_last())
    } else {
        s
    }
}

/// `s` without white space at either end.
pub open spec fn trimmed(s: Seq<char>) -> Seq<char> {
    trim_end(trim_start(s))
}

/// The index of the first `c` in `s`, or the length of `s` where there is none.
pub open spec fn find(s: Seq<char>, c: char) -> int
    decreases s.len(),
{
    if s.len() == 0 || s[0] == c {
        0
    } else {
        1 + find(s.skip(1), c)
    }
}

/// What stands before and after the first `c`, if `s` holds one.
pub open spec fn split_once(s: Seq<char>, c: char) -> Option<(Seq<char>, Seq<char>)> {
    if find(s, c) < s.len() {
        Some((s.take(find(s, c)), s.skip(find(s, c) + 1)))
    } else {
        None
    }
}

/// The pieces of `s` between the `c`s; one piece more than there are `c`s.
pub open spec fn split(s: Seq<char>, c: char) -> Seq<Seq<char>>
    decreases s.len(),
    via split_shrinks
{
    match split_once(s, c) {
        Some((head, tail)) => seq![head] + split(tail, c),
        None => seq![s],
    }
}

#[via_fn]
proof fn split_shrinks(s: Seq<char>, c: char) {
    lemma_find(s, c);
}

/// How many characters of `s` come before its first white space.
pub open spec fn word_len(s: Seq<char>) -> int
    decreases s.len(),
{
    if s.len() == 0 || is_blank(s[0]) {
        0
    } else {
        1 + word_len(s.skip(1))
    }
}

/// The maximal runs of `s` without white space, in order.
pub open spec fn words(s: Seq<char>) -> Seq<Seq<char>>
    decreases s.len(),
    via words_shrink
{
    let rest = trim_start(s);
    if rest.len() == 0 {
        seq![]
    } else {
        seq![rest.take(word_len(rest))] + words(rest.skip(word_len(rest)))
    }
}

#[via_fn]
proof fn words_shrink(s: Seq<char>) {
    lemma_trim_start(s);
    lemma_word_len(trim_start(s));
}

/// The pieces of `list` with `separator` between neighbours.
pub open spec fn joined(list: Seq<Seq<char>>, separator: Seq<char>) -> Seq<char>
    decreases list.len(),
{
    if list.len() == 0 {
        seq![]
    } else if list.len() == 1 {
        list[0]
    } else {
        joined(list.drop_last(), separator) + separator + list.last()
    }
}

/// The characters of each text.
pub open spec fn views(list: Seq<String>) -> Seq<Seq<char>> {
    list.map_values(|s: String| s@)
}

/// The ASCII capitals of `s` replaced by their small letters.
pub open spec fn ascii_lowercase(s: Seq<char>) -> Seq<char> {
    s.map_values(|c: char| ascii_lower(c))
}

/// The small letter of an ASCII capital; any other character itself.
pub open spec fn ascii_lower(c: char) -> char {
    if 'A' <= c <= 'Z' {
        (c as u32 + 32) as char
    } else {
        c
    }
}

/// Whether `part` occurs in `s` starting at index `i`.
pub open spec fn occurs_at(s: Seq<char>, part: Seq<char>, i: int) -> bool {
    0 <= i && i + part.len() <= s.len() && s.subrange(i, i + part.len()) == part
}

/// Whether `part` occurs in `s`.
pub open spec fn has_part(s: Seq<char>, part: Seq<char>) -> bool {
    exists|i: int| occurs_at(s, part, i)
}

/// Whether `s` begins with `prefix`.
pub open spec fn starts_with(s: Seq<char>, prefix: Seq<char>) -> bool {
    occurs_at(s, prefix, 0)
}

/// The decimal digit of a number below ten.
pub open spec fn digit(n: nat) -> char {
    (('0' as u32) + n) as char
}

/// A number in decimal, without leading zeros.
pub open spec fn decimal(n: nat) -> Seq<char>
    decreases n,
{
    if n < 10 {
        seq![digit(n)]
    } else {
        decimal(n / 10).push(digit(n % 10))
    }
}

/// `find` is the first index that holds `c`, or the length.
pub proof fn lemma_find(s: Seq<char>, c: char)
    ensures
        0 <= find(s, c) <= s.len(),
        find(s, c) < s.len() ==> s[find(s, c)] == c,
        forall|i: int| 0 <= i < find(s, c) ==> s[i] != c,
    decreases s.len(),
{
    if s.len() > 0 && s[0] != c {
        lemma_find(s.skip(1), c);
        assert forall|i: int| 0 <= i < find(s, c) implies s[i] != c by {
            if i > 0 {
                assert(s.skip(1)[i - 1] == s[i]);
            }
        }
    }
}

/// An index is `find`'s if nothing before it holds `c` and it does, or is the length.
pub proof fn lemma_find_is(s: Seq<char>, c: char, at: int)
    requires
        0 <= at <= s.len(),
        at < s.len() ==> s[at] == c,
        forall|i: int| 0 <= i < at ==> s[i] != c,
    ensures
        find(s, c) == at,
{
    lemma_find(s, c);
    if find(s, c) < at {
        assert(s[find(s, c)] != c);
    }
}

/// Trimming the start drops a prefix of white space.
pub proof fn lemma_trim_start(s: Seq<char>)
    ensures
        trim_start(s).len() <= s.len(),
        trim_start(s) == s.skip(s.len() - trim_start(s).len()),
        trim_start(s).len() > 0 ==> !is_blank(trim_start(s)[0]),
        forall|i: int| 0 <= i < s.len() - trim_start(s).len() ==> is_blank(s[i]),
    decreases s.len(),
{
    if s.len() > 0 && is_blank(s[0]) {
        lemma_trim_start(s.skip(1));
        let rest = trim_start(s);
        assert(s.skip(1).skip(s.skip(1).len() - rest.len()) =~= s.skip(s.len() - rest.len()));
        assert forall|i: int| 0 <= i < s.len() - rest.len() implies is_blank(s[i]) by {
            if i > 0 {
                assert(s.skip(1)[i - 1] == s[i]);
            }
        }
    } else {
        assert(s.skip(0) =~= s);
    }
}

/// Trimming the end drops a suffix of white space.
pub proof fn lemma_trim_end(s: Seq<char>)
    ensures
        trim_end(s).len() <= s.len(),
        trim_end(s) == s.take(trim_end(s).len() as int),
        trim_end(s).len() > 0 ==> !is_blank(trim_end(s).last()),
        forall|i: int| trim_end(s).len() <= i < s.len() ==> is_blank(s[i]),
    decreases s.len(),
{
    if s.len() > 0 && is_blank(s.last()) {
        lemma_trim_end(s.drop_last());
        let rest = trim_end(s);
        assert(s.drop_last().take(rest.len() as int) =~= s.take(rest.len() as int));
        assert forall|i: int| rest.len() <= i < s.len() implies is_blank(s[i]) by {
            if i < s.len() - 1 {
                assert(s.drop_last()[i] == s[i]);
            }
        }
    } else {
        assert(s.take(s.len() as int) =~= s);
    }
}

/// A trimmed text neither begins nor ends with white space.
pub proof fn lemma_trimmed(s: Seq<char>)
    ensures
        trimmed(s).len() > 0 ==> !is_blank(trimmed(s)[0]) && !is_blank(trimmed(s).last()),
{
    lemma_trim_start(s);
    lemma_trim_end(trim_start(s));
}

/// `word_len` counts the characters before the first white space.
pub proof fn lemma_word_len(s: Seq<char>)
    ensures
        0 <= word_len(s) <= s.len(),
        word_len(s) < s.len() ==> is_blank(s[word_len(s)]),
        s.len() > 0 && !is_blank(s[0]) ==> word_len(s) > 0,
        forall|i: int| 0 <= i < word_len(s) ==> !is_blank(s[i]),
    decreases s.len(),
{
    if s.len() > 0 && !is_blank(s[0]) {
        lemma_word_len(s.skip(1));
        assert forall|i: int| 0 <= i < word_len(s) implies !is_blank(s[i]) by {
            if i > 0 {
                assert(s.skip(1)[i - 1] == s[i]);
            }
        }
    }
}

/// Splitting joined pieces at the separator gives the pieces back.
pub proof fn lemma_split_joined(list: Seq<Seq<char>>, c: char)
    requires
        list.len() > 0,
        forall|i: int| 0 <= i < list.len() ==> !(#[trigger] list[i]).contains(c),
    ensures
        split(joined(list, seq![c]), c) == list,
    decreases list.len(),
{
    let text = joined(list, seq![c]);
    let first = list[0];
    if list.len() == 1 {
        assert(find(text, c) == text.len()) by {
            lemma_find(text, c);
        }
        assert(list =~= seq![first]);
    } else {
        let tail = list.skip(1);
        lemma_joined_front(list, seq![c]);
        assert(text == first + seq![c] + joined(tail, seq![c]));
        assert forall|j: int| 0 <= j < first.len() implies text[j] != c by {
            assert(first[j] == text[j]);
        }
        lemma_find_is(text, c, first.len() as int);
        assert(text.take(first.len() as int) =~= first);
        assert(text.skip(first.len() as int + 1) =~= joined(tail, seq![c]));
        lemma_split_joined(tail, c);
        assert(seq![first] + tail =~= list);
    }
}

/// Joined pieces begin with the first piece and a separator.
proof fn lemma_joined_front(list: Seq<Seq<char>>, separator: Seq<char>)
    requires
        list.len() > 1,
    ensures
        joined(list, separator) == list[0] + separator + joined(list.skip(1), separator),
    decreases list.len(),
{
    let tail = list.skip(1);
    if list.len() == 2 {
        assert(list.drop_last() =~= seq![list[0]]);
        assert(joined(list.drop_last(), separator) == list[0]);
        assert(joined(tail, separator) == list[1]);
        assert(joined(list, separator) == list[0] + separator + list[1]);
    } else {
        lemma_joined_front(list.drop_last(), separator);
        assert(list.drop_last().skip(1) =~= tail.drop_last());
        assert(tail.last() == list.last());
        assert(joined(list, separator) =~= list[0] + separator + (joined(
            tail.drop_last(),
            separator,
        ) + separator + list.last()));
    }
}

/// `String::push` appends one character.
pub assume_specification[ String::push ](text: &mut String, c: char)
    ensures
        final(text)@ == old(text)@.push(c),
;

/// Whether a character is white space.
pub fn blank(c: char) -> (yes: bool)
    ensures
        yes == is_blank(c),
{
    ('\u{9}' <= c && c <= '\u{d}') || c == ' ' || c == '\u{85}' || c == '\u{a0}' || c == '\u{1680}'
        || ('\u{2000}' <= c && c <= '\u{200a}') || c == '\u{2028}' || c == '\u{2029}' || c
        == '\u{202f}' || c == '\u{205f}' || c == '\u{3000}'
}

/// The characters of a text.
pub fn chars_of(text: &str) -> (chars: Vec<char>)
    ensures
        chars@ == text@,
{
    let mut chars: Vec<char> = Vec::new();
    for c in it: text.chars()
        invariant
            it.seq() == text@,
            chars@ == text@.take(it.index() as int),
    {
        chars.push(c);
        assert(text@.take(it.index() + 1) =~= text@.take(it.index() as int).push(c));
    }
    assert(text@.take(text@.len() as int) =~= text@);
    chars
}

/// The text made of the characters from `from` up to `to`.
pub fn text_of(chars: &Vec<char>, from: usize, to: usize) -> (text: String)
    requires
        from <= to <= chars@.len(),
    ensures
        text@ == chars@.subrange(from as int, to as int),
{
    let mut text = String::new();
    let mut i: usize = from;
    while i < to
        invariant
            from <= i <= to <= chars@.len(),
            text@ == chars@.subrange(from as int, i as int),
        decreases to - i,
    {
        text.push(chars[i]);
        assert(chars@.subrange(from as int, i + 1) =~= chars@.subrange(from as int, i as int).push(
            chars@[i as int],
        ));
        i += 1;
    }
    text
}

/// A text without white space at either end.
pub fn trim(text: &str) -> (inner: String)
    ensures
        inner@ == trimmed(text@),
{
    let chars = chars_of(text);
    let mut from: usize = 0;
    assert(chars@.skip(0) =~= chars@);
    while from < chars.len() && blank(chars[from])
        invariant
            from <= chars@.len(),
            trim_start(chars@) == trim_start(chars@.skip(from as int)),
        decreases chars@.len() - from,
    {
        assert(chars@.skip(from as int).skip(1) =~= chars@.skip(from + 1));
        from += 1;
    }
    let ghost rest = chars@.skip(from as int);
    assert(trim_start(chars@) == rest);
    let mut to: usize = chars.len();
    assert(chars@.subrange(from as int, to as int) =~= rest);
    while to > from && blank(chars[to - 1])
        invariant
            from <= to <= chars@.len(),
            rest == chars@.skip(from as int),
            trim_end(rest) == trim_end(chars@.subrange(from as int, to as int)),
        decreases to,
    {
        let ghost part = chars@.subrange(from as int, to as int);
        assert(part.drop_last() =~= chars@.subrange(from as int, to - 1));
        assert(part.last() == chars@[to - 1]);
        to -= 1;
    }
    assert(to > from ==> chars@.subrange(from as int, to as int).last() == chars@[to - 1]);
    text_of(&chars, from, to)
}

/// The index of the first `c` at or after `from` and before `to`, or `to`.
pub fn find_in(chars: &Vec<char>, from: usize, to: usize, c: char) -> (at: usize)
    requires
        from <= to <= chars@.len(),
    ensures
        from <= at <= to,
        at == from + find(chars@.subrange(from as int, to as int), c),
{
    let mut i: usize = from;
    while i < to && chars[i] != c
        invariant
            from <= i <= to <= chars@.len(),
            forall|j: int| from <= j < i ==> chars@[j] != c,
        decreases to - i,
    {
        i += 1;
    }
    proof {
        lemma_find_is(chars@.subrange(from as int, to as int), c, i - from);
    }
    i
}

/// The pieces of `list` with `separator` between neighbours.
pub fn join(list: &Vec<String>, separator: &str) -> (text: String)
    ensures
        text@ == joined(views(list@), separator@),
{
    let ghost all = views(list@);
    let mut text = String::new();
    let mut i: usize = 0;
    while i < list.len()
        invariant
            i <= list@.len(),
            all == views(list@),
            text@ == joined(all.take(i as int), separator@),
        decreases list@.len() - i,
    {
        assert(all.take(i + 1).drop_last() =~= all.take(i as int));
        assert(all.take(i + 1).last() == all[i as int]);
        if i > 0 {
            text.append(separator);
        }
        let ghost before = text@;
        text.append(list[i].as_str());
        assert(i == 0 ==> before + list@[0]@ =~= list@[0]@);
        i += 1;
    }
    assert(all.take(list@.len() as int) =~= all);
    text
}

/// Owned copies of texts.
pub fn owned(list: &[&str]) -> (copies: Vec<String>)
    ensures
        views(copies@) == list@.map_values(|s: &str| s@),
{
    let mut copies: Vec<String> = Vec::new();
    let mut i: usize = 0;
    while i < list.len()
        invariant
            i <= list@.len(),
            copies@.len() == i,
            forall|j: int| 0 <= j < i ==> (#[trigger] copies@[j])@ == list@[j]@,
        decreases list@.len() - i,
    {
        copies.push(list[i].to_owned());
        i += 1;
    }
    assert(views(copies@) =~= list@.map_values(|s: &str| s@));
    copies
}

/// The ASCII capitals of `text` replaced by their small letters.
pub fn to_lowercase(text: &str) -> (lower: String)
    ensures
        lower@ == ascii_lowercase(text@),
{
    let chars = chars_of(text);
    let mut lower = String::new();
    let mut i: usize = 0;
    while i < chars.len()
        invariant
            i <= chars@.len(),
            chars@ == text@,
            lower@ == ascii_lowercase(text@.take(i as int)),
        decreases chars@.len() - i,
    {
        let c = chars[i];
        if 'A' <= c && c <= 'Z' {
            lower.push(((c as u8) + 32) as char);
        } else {
            lower.push(c);
        }
        assert(ascii_lowercase(text@.take(i + 1)) =~= ascii_lowercase(text@.take(i as int)).push(
            ascii_lower(c),
        ));
        i += 1;
    }
    assert(text@.take(text@.len() as int) =~= text@);
    lower
}

/// Whether `part` occurs in `chars` starting at index `at`.
fn part_at(chars: &Vec<char>, part: &Vec<char>, at: usize) -> (yes: bool)
    requires
        at <= chars@.len(),
    ensures
        yes == occurs_at(chars@, part@, at as int),
{
    let len = chars.len();
    if part.len() > len - at {
        return false;
    }
    let mut i: usize = 0;
    while i < part.len()
        invariant
            i <= part@.len(),
            at + part@.len() <= len,
            len == chars@.len(),
            forall|j: int| 0 <= j < i ==> chars@[at + j] == part@[j],
        decreases part@.len() - i,
    {
        if chars[at + i] != part[i] {
            assert(chars@.subrange(at as int, at + part@.len())[i as int] != part@[i as int]);
            return false;
        }
        i += 1;
    }
    assert(chars@.subrange(at as int, at + part@.len()) =~= part@);
    true
}

/// Whether `part` occurs in `text`.
pub fn contains(text: &str, part: &str) -> (yes: bool)
    ensures
        yes == has_part(text@, part@),
{
    let chars = chars_of(text);
    let wanted = chars_of(part);
    let mut i: usize = 0;
    while i < chars.len()
        invariant
            i <= chars@.len(),
            chars@ == text@,
            wanted@ == part@,
            forall|j: int| 0 <= j < i ==> !occurs_at(text@, part@, j),
        decreases chars@.len() - i,
    {
        if part_at(&chars, &wanted, i) {
            return true;
        }
        i += 1;
    }
    part_at(&chars, &wanted, i)
}

/// Whether `text` begins with `prefix`.
pub fn has_prefix(text: &str, prefix: &str) -> (yes: bool)
    ensures
        yes == starts_with(text@, prefix@),
{
    let chars = chars_of(text);
    let wanted = chars_of(prefix);
    part_at(&chars, &wanted, 0)
}

/// Whether two texts are equal.
pub fn same(a: &str, b: &str) -> (yes: bool)
    ensures
        yes == (a@ == b@),
{
    a.to_owned() == b.to_owned()
}

/// Whether a piece stands between the `c`s of a text.
pub fn has_piece(text: &str, c: char, piece: &str) -> (yes: bool)
    ensures
        yes == split(text@, c).contains(piece@),
{
    let chars = chars_of(text);
    let n = chars.len();
    let mut from: usize = 0;
    assert(chars@.subrange(0, n as int) =~= text@);
    loop
        invariant
            from <= n == chars@.len(),
            split(text@, c).contains(piece@) == split(
                chars@.subrange(from as int, n as int),
                c,
            ).contains(piece@),
        decreases n - from,
    {
        let ghost rest = chars@.subrange(from as int, n as int);
        let end = find_in(&chars, from, n, c);
        let next = text_of(&chars, from, end);
        proof {
            lemma_find(rest, c);
            assert(rest.take(end - from) =~= next@);
            assert(rest.take(rest.len() as int) =~= rest);
            assert(split(rest, c)[0] == next@);
        }
        if same(next.as_str(), piece) {
            return true;
        }
        if end == n {
            assert(split(rest, c) =~= seq![next@]);
            return false;
        }
        proof {
            let later = split(chars@.subrange(end + 1, n as int), c);
            assert(rest.skip(end - from + 1) =~= chars@.subrange(end + 1, n as int));
            assert(split(rest, c) == seq![next@] + later);
            if later.contains(piece@) {
                let i = choose|i: int| 0 <= i < later.len() && later[i] == piece@;
                assert(split(rest, c)[i + 1] == piece@);
            }
            if split(rest, c).contains(piece@) {
                let i = choose|i: int|
                    0 <= i < split(rest, c).len() && split(rest, c)[i] == piece@;
                assert(later[i - 1] == piece@);
            }
        }
        from = end + 1;
    }
}

/// A number in decimal.
pub fn decimal_of(n: u64) -> (text: String)
    ensures
        text@ == decimal(n as nat),
    decreases n,
{
    let last = ((n % 10) as u8 + 48) as char;
    if n < 10 {
        let mut text = String::new();
        text.push(last);
        assert(text@ =~= decimal(n as nat));
        text
    } else {
        let mut text = decimal_of(n / 10);
        text.push(last);
        text
    }
}

/// White space is what Unicode lists as such, and nothing else.
pub proof fn white_space_is_unicodes(c: char)
    ensures
        is_blank(c) <==> seq![
            0x9int,
            0xa,
            0xb,
            0xc,
            0xd,
            0x20,
            0x85,
            0xa0,
            0x1680,
            0x2000,
            0x2001,
            0x2002,
            0x2003,
            0x2004,
            0x2005,
            0x2006,
            0x2007,
            0x2008,
            0x2009,
            0x200a,
            0x2028,
            0x2029,
            0x202f,
            0x205f,
            0x3000,
        ].contains(c as int),
{
    let all = seq![
        0x9int,
        0xa,
        0xb,
        0xc,
        0xd,
        0x20,
        0x85,
        0xa0,
        0x1680,
        0x2000,
        0x2001,
        0x2002,
        0x2003,
        0x2004,
        0x2005,
        0x2006,
        0x2007,
        0x2008,
        0x2009,
        0x200a,
        0x2028,
        0x2029,
        0x202f,
        0x205f,
        0x3000,
    ];
    if is_blank(c) {
        let n = c as int;
        let at: int = if n <= 0xd {
            n - 9
        } else if n == 0x20 {
            5
        } else if n == 0x85 {
            6
        } else if n == 0xa0 {
            7
        } else if n == 0x1680 {
            8
        } else if n <= 0x200a {
            n - 0x2000 + 9
        } else if n == 0x2028 {
            20
        } else if n == 0x2029 {
            21
        } else if n == 0x202f {
            22
        } else if n == 0x205f {
            23
        } else {
            24
        };
        assert(all[at] == n);
    }
}

/// Trimming strips the white space at both ends and nothing else: a text that neither begins nor
/// ends with white space is what is left of it with any white space around it.
pub proof fn trimming_strips_white_space(before: Seq<char>, inner: Seq<char>, after: Seq<char>)
    requires
        forall|i: int| 0 <= i < before.len() ==> is_blank(#[trigger] before[i]),
        forall|i: int| 0 <= i < after.len() ==> is_blank(#[trigger] after[i]),
        inner.len() > 0 ==> !is_blank(inner[0]) && !is_blank(inner.last()),
    ensures
        trimmed(before + inner + after) == inner,
{
    let text = before + inner + after;
    let rest = trim_start(text);
    lemma_trim_start(text);
    let cut = text.len() - rest.len();
    lemma_trim_end(rest);
    let kept = trim_end(rest);
    if inner.len() > 0 {
        assert(text[before.len() as int] == inner[0]);
        if cut < before.len() {
            assert(rest[0] == text[cut]);
            assert(text[cut] == before[cut]);
        }
        if cut > before.len() {
            assert(is_blank(text[before.len() as int]));
        }
        assert(rest =~= inner + after);
        let last = inner.len() - 1;
        assert(rest[last] == inner.last());
        if kept.len() <= last {
            assert(is_blank(rest[last]));
        }
        if kept.len() > inner.len() {
            let end = kept.len() - 1;
            assert(kept.last() == rest[end]);
            assert(rest[end] == after[end - inner.len()]);
        }
        assert(kept =~= inner);
    } else {
        if rest.len() > 0 {
            assert(rest[0] == text[cut]);
            if cut < before.len() {
                assert(text[cut] == before[cut]);
            } else {
                assert(text[cut] == after[cut - before.len()]);
            }
        }
        assert(kept =~= inner);
    }
}

/// A text splits once at its first separator, into what stands before it and all that stands
/// after it.
pub proof fn splitting_once_cuts_at_the_first(head: Seq<char>, tail: Seq<char>, c: char)
    requires
        !head.contains(c),
    ensures
        split_once(head + seq![c] + tail, c) == Some((head, tail)),
        split_once(head, c) is None,
{
    let text = head + seq![c] + tail;
    assert forall|i: int| 0 <= i < head.len() implies text[i] != c by {
        assert(text[i] == head[i]);
    }
    lemma_find_is(text, c, head.len() as int);
    lemma_find_is(head, c, head.len() as int);
    assert(text.take(head.len() as int) =~= head);
    assert(text.skip(head.len() as int + 1) =~= tail);
}

/// The pieces of a text hold no separator, and joined with it they are the text again.
pub proof fn pieces_make_the_text_again(s: Seq<char>, c: char)
    ensures
        split(s, c).len() > 0,
        joined(split(s, c), seq![c]) == s,
        forall|i: int| 0 <= i < split(s, c).len() ==> !(#[trigger] split(s, c)[i]).contains(c),
    decreases s.len(),
{
    lemma_find(s, c);
    let pieces = split(s, c);
    let at = find(s, c);
    if at < s.len() {
        let head = s.take(at);
        let tail = s.skip(at + 1);
        pieces_make_the_text_again(tail, c);
        assert(pieces == seq![head] + split(tail, c));
        assert(pieces.skip(1) =~= split(tail, c));
        lemma_joined_front(pieces, seq![c]);
        assert(head + seq![c] + tail =~= s);
        assert forall|i: int| 0 <= i < pieces.len() implies !(#[trigger] pieces[i]).contains(c) by {
            if i == 0 {
                assert forall|j: int| 0 <= j < head.len() implies head[j] != c by {
                    assert(head[j] == s[j]);
                }
            } else {
                assert(pieces[i] == split(tail, c)[i - 1]);
            }
        }
    } else {
        assert(pieces =~= seq![s]);
        assert forall|j: int| 0 <= j < s.len() implies s[j] != c by {}
    }
}

/// Joining puts one separator between neighbours: nothing for no piece, the piece itself for one,
/// and two joined lists with a separator between them for both lists together.
pub proof fn joining_puts_separators_between(
    a: Seq<Seq<char>>,
    b: Seq<Seq<char>>,
    piece: Seq<char>,
    separator: Seq<char>,
)
    ensures
        joined(seq![], separator) == Seq::<char>::empty(),
        joined(seq![piece], separator) == piece,
        a.len() > 0 && b.len() > 0 ==> joined(a + b, separator) == joined(a, separator) + separator
            + joined(b, separator),
    decreases b.len(),
{
    if a.len() > 0 && b.len() > 0 {
        let all = a + b;
        assert(all.last() == b.last());
        assert(all.drop_last() =~= a + b.drop_last());
        if b.len() == 1 {
            assert(a + b.drop_last() =~= a);
        } else {
            joining_puts_separators_between(a, b.drop_last(), piece, separator);
            assert(joined(all, separator) =~= joined(a, separator) + separator + joined(
                b,
                separator,
            ));
        }
    }
}

/// Each text stands in a list of views as the characters that it has, at its own place.
pub proof fn views_are_the_characters(list: Seq<String>)
    ensures
        views(list).len() == list.len(),
        forall|i: int| 0 <= i < list.len() ==> #[trigger] views(list)[i] == list[i]@,
{
}

/// Lowering keeps every character at its place, and changes ASCII capitals only: the letter at
/// some place of the capitals becomes the one at that place of the small letters.
pub proof fn lowering_changes_capitals_only(s: Seq<char>, i: int, letter: int)
    requires
        0 <= i < s.len(),
        0 <= letter < 26,
    ensures
        ascii_lowercase(s).len() == s.len(),
        s[i] == "ABCDEFGHIJKLMNOPQRSTUVWXYZ"@[letter] ==> ascii_lowercase(s)[i]
            == "abcdefghijklmnopqrstuvwxyz"@[letter],
        !"ABCDEFGHIJKLMNOPQRSTUVWXYZ"@.contains(s[i]) ==> ascii_lowercase(s)[i] == s[i],
{
    reveal_strlit("ABCDEFGHIJKLMNOPQRSTUVWXYZ");
    reveal_strlit("abcdefghijklmnopqrstuvwxyz");
    let capitals = "ABCDEFGHIJKLMNOPQRSTUVWXYZ"@;
    if 'A' <= s[i] <= 'Z' {
        assert(capitals[s[i] as int - 'A' as int] == s[i]);
    }
}

/// A text begins with a prefix exactly if it is that prefix with something after it.
pub proof fn prefix_comes_first(s: Seq<char>, prefix: Seq<char>)
    ensures
        starts_with(s, prefix) <==> exists|rest: Seq<char>| s == #[trigger] (prefix + rest),
{
    if starts_with(s, prefix) {
        assert(s =~= prefix + s.skip(prefix.len() as int));
    }
    if exists|rest: Seq<char>| s == #[trigger] (prefix + rest) {
        let rest = choose|rest: Seq<char>| s == #[trigger] (prefix + rest);
        assert(s.subrange(0, prefix.len() as int) =~= prefix);
    }
}

/// A part occurs in a text exactly if the text is that part with something before and after it.
pub proof fn part_stands_somewhere(s: Seq<char>, part: Seq<char>)
    ensures
        has_part(s, part) <==> exists|before: Seq<char>, after: Seq<char>|
            s == #[trigger] (before + part + after),
{
    if has_part(s, part) {
        let i = choose|i: int| occurs_at(s, part, i);
        assert(s =~= s.take(i) + part + s.skip(i + part.len()));
    }
    if exists|before: Seq<char>, after: Seq<char>| s == #[trigger] (before + part + after) {
        let (before, after) = choose|before: Seq<char>, after: Seq<char>|
            s == #[trigger] (before + part + after);
        let i = before.len() as int;
        assert(s.subrange(i, i + part.len()) =~= part);
        assert(occurs_at(s, part, i));
    }
}

/// The number that decimal digits stand for.
pub open spec fn decimal_value(digits: Seq<char>) -> int
    decreases digits.len(),
{
    if digits.len() == 0 {
        0
    } else {
        decimal_value(digits.drop_last()) * 10 + (digits.last() as int - '0' as int)
    }
}

/// A number in decimal is a text of digits that stands for it, and begins with a zero only if the
/// number is zero.
pub proof fn decimal_stands_for_its_number(n: nat)
    ensures
        decimal_value(decimal(n)) == n,
        decimal(n).len() > 0,
        forall|i: int| 0 <= i < decimal(n).len() ==> '0' <= #[trigger] decimal(n)[i] <= '9',
        decimal(n)[0] == '0' ==> n == 0,
    decreases n,
{
    let text = decimal(n);
    if n >= 10 {
        decimal_stands_for_its_number(n / 10);
        let front = decimal(n / 10);
        assert(text.drop_last() =~= front);
        assert(text.last() as int - '0' as int == n % 10);
        assert(text[0] == front[0]);
        assert forall|i: int| 0 <= i < text.len() implies '0' <= #[trigger] text[i] <= '9' by {
            if i < front.len() {
                assert(text[i] == front[i]);
            }
        }
    } else {
        assert(decimal_value(text.drop_last()) == 0);
        assert(text.last() as int - '0' as int == n);
    }
}

} // verus!
