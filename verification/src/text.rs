//! Text as sequences of characters: the string operations the rest of the library is built on.

use vstd::prelude::*;
use vstd::utf8::{
    decode_utf8, is_char_boundary, is_continuation_byte, is_leading_byte_width_2,
    is_leading_byte_width_3, is_leading_byte_width_4, length_of_first_scalar, pop_first_scalar,
    valid_first_scalar, valid_utf8,
};

verus! {

/// `String::push` appends one character to the end of the string.
pub assume_specification[ String::push ](s: &mut String, c: char)
    ensures
        final(s)@ == old(s)@.push(c),
;

/// The views of the elements of a sequence, in order.
pub open spec fn views<T: View>(items: Seq<T>) -> Seq<T::V> {
    items.map_values(|item: T| item@)
}

/// The view of an optional value.
pub open spec fn view_opt<T: View>(item: Option<T>) -> Option<T::V> {
    match item {
        Some(value) => Some(value@),
        None => None,
    }
}

/// The view of a result.
pub open spec fn view_result<T: View, E: View>(r: Result<T, E>) -> Result<T::V, E::V> {
    match r {
        Ok(value) => Ok(value@),
        Err(error) => Err(error@),
    }
}

/// The view of a result that holds a list.
pub open spec fn view_list<T: View, E: View>(r: Result<Vec<T>, E>) -> Result<Seq<T::V>, E::V> {
    match r {
        Ok(items) => Ok(views(items@)),
        Err(error) => Err(error@),
    }
}

/// The view of a result that holds nothing.
pub open spec fn view_unit<E: View>(r: Result<(), E>) -> Result<(), E::V> {
    match r {
        Ok(()) => Ok(()),
        Err(error) => Err(error@),
    }
}

/// The characters of a string, in order.
pub fn chars_of(s: &str) -> (r: Vec<char>)
    ensures
        r@ == s@,
{
    let mut out: Vec<char> = Vec::new();
    for c in it: s.chars()
        invariant
            it.seq() == s@,
            out@ == s@.take(it.index()),
    {
        out.push(c);
        assert(s@.take(it.index() + 1) == s@.take(it.index()).push(c));
    }
    assert(s@.take(s@.len() as int) == s@);
    out
}

/// The string made of the given characters.
pub fn string_of(chars: &[char]) -> (r: String)
    ensures
        r@ == chars@,
{
    let mut out = String::new();
    let mut i: usize = 0;
    while i < chars.len()
        invariant
            i <= chars@.len(),
            out@ == chars@.take(i as int),
        decreases chars@.len() - i,
    {
        out.push(chars[i]);
        assert(chars@.take(i + 1) == chars@.take(i as int).push(chars@[i as int]));
        i += 1;
    }
    assert(chars@.take(chars@.len() as int) == chars@);
    out
}

/// Whether two strings hold the same characters.
pub fn str_eq(a: &str, b: &str) -> (r: bool)
    ensures
        r == (a@ == b@),
{
    a.to_owned() == b.to_owned()
}

/// A copy of an optional string.
pub fn copy_opt(s: &Option<String>) -> (r: Option<String>)
    ensures
        r == *s,
{
    match s {
        Some(text) => Some(text.clone()),
        None => None,
    }
}

/// A copy of some bytes.
pub fn copy_bytes(bytes: &Vec<u8>) -> (r: Vec<u8>)
    ensures
        r@ == bytes@,
{
    vstd::slice::slice_to_vec(bytes.as_slice())
}

/// Unicode's `White_Space` property.
pub open spec fn white_space(c: char) -> bool {
    let n = c as u32;
    ||| 0x9 <= n <= 0xd
    ||| n == 0x20 || n == 0x85 || n == 0xa0 || n == 0x1680
    ||| 0x2000 <= n <= 0x200a
    ||| n == 0x2028 || n == 0x2029 || n == 0x202f || n == 0x205f || n == 0x3000
}

/// Whether a character is white space.
pub fn is_white_space(c: char) -> (r: bool)
    ensures
        r == white_space(c),
{
    let n: u32 = c as u32;
    (0x9 <= n && n <= 0xd) || n == 0x20 || n == 0x85 || n == 0xa0 || n == 0x1680 || (0x2000 <= n
        && n <= 0x200a) || n == 0x2028 || n == 0x2029 || n == 0x202f || n == 0x205f || n == 0x3000
}

/// `s` without the white space it starts with.
pub open spec fn trimmed_start(s: Seq<char>) -> Seq<char>
    decreases s.len(),
{
    if s.len() > 0 && white_space(s[0]) {
        trimmed_start(s.drop_first())
    } else {
        s
    }
}

/// `s` without the white space it ends with.
pub open spec fn trimmed_end(s: Seq<char>) -> Seq<char>
    decreases s.len(),
{
    if s.len() > 0 && white_space(s.last()) {
        trimmed_end(s.drop_last())
    } else {
        s
    }
}

/// `s` without the white space around it.
pub open spec fn trimmed(s: Seq<char>) -> Seq<char> {
    trimmed_end(trimmed_start(s))
}

/// Whether `s` holds nothing but white space.
pub open spec fn blank(s: Seq<char>) -> bool {
    trimmed(s).len() == 0
}

/// The string without the white space around it.
pub fn trim(s: &str) -> (r: String)
    ensures
        r@ == trimmed(s@),
{
    let chars = chars_of(s);
    let mut from: usize = 0;
    assert(s@.skip(0) == s@);
    while from < chars.len() && is_white_space(chars[from])
        invariant
            from <= chars@.len(),
            chars@ == s@,
            trimmed_start(s@) == trimmed_start(s@.skip(from as int)),
        decreases chars@.len() - from,
    {
        assert(s@.skip(from as int).drop_first() == s@.skip(from + 1));
        from += 1;
    }
    assert(trimmed_start(s@) == s@.skip(from as int));
    let mut to: usize = chars.len();
    assert(s@.subrange(from as int, to as int) == s@.skip(from as int));
    while from < to && is_white_space(chars[to - 1])
        invariant
            from <= to <= chars@.len(),
            chars@ == s@,
            trimmed(s@) == trimmed_end(s@.subrange(from as int, to as int)),
        decreases to,
    {
        assert(s@.subrange(from as int, to as int).drop_last() == s@.subrange(
            from as int,
            to - 1,
        ));
        to -= 1;
    }
    s.substring_char(from, to).to_owned()
}

/// Whether the string holds nothing but white space.
pub fn is_blank(s: &str) -> (r: bool)
    ensures
        r == blank(s@),
{
    trim(s).as_str().is_empty()
}

/// Whether `s` starts with `prefix`.
pub open spec fn begins(s: Seq<char>, prefix: Seq<char>) -> bool {
    prefix.len() <= s.len() && s.take(prefix.len() as int) == prefix
}

/// Whether `s` ends with `suffix`.
pub open spec fn finishes(s: Seq<char>, suffix: Seq<char>) -> bool {
    suffix.len() <= s.len() && s.skip(s.len() - suffix.len()) == suffix
}

/// Whether the string starts with the prefix.
pub fn starts_with(s: &str, prefix: &str) -> (r: bool)
    ensures
        r == begins(s@, prefix@),
{
    let n: usize = s.unicode_len();
    let k: usize = prefix.unicode_len();
    k <= n && str_eq(s.substring_char(0, k), prefix)
}

/// Whether the string ends with the suffix.
pub fn ends_with(s: &str, suffix: &str) -> (r: bool)
    ensures
        r == finishes(s@, suffix@),
{
    let n: usize = s.unicode_len();
    let k: usize = suffix.unicode_len();
    k <= n && str_eq(s.substring_char(n - k, n), suffix)
}

/// What follows the prefix, if the string starts with it.
pub fn strip_prefix<'a>(s: &'a str, prefix: &str) -> (r: Option<&'a str>)
    ensures
        r is Some <==> begins(s@, prefix@),
        r matches Some(rest) ==> rest@ == s@.skip(prefix@.len() as int),
{
    if starts_with(s, prefix) {
        let n: usize = s.unicode_len();
        let k: usize = prefix.unicode_len();
        Some(s.substring_char(k, n))
    } else {
        None
    }
}

/// What precedes the suffix, if the string ends with it.
pub fn strip_suffix<'a>(s: &'a str, suffix: &str) -> (r: Option<&'a str>)
    ensures
        r is Some <==> finishes(s@, suffix@),
        r matches Some(rest) ==> rest@ == s@.take(s@.len() - suffix@.len()),
{
    if ends_with(s, suffix) {
        let n: usize = s.unicode_len();
        let k: usize = suffix.unicode_len();
        Some(s.substring_char(0, n - k))
    } else {
        None
    }
}

/// The lower-case form of an ASCII letter, any other character unchanged.
pub open spec fn ascii_lower(c: char) -> char {
    if 'A' <= c && c <= 'Z' {
        ((c as u32 + 32) as u32) as char
    } else {
        c
    }
}

/// The upper-case form of an ASCII letter, any other character unchanged.
pub open spec fn ascii_upper(c: char) -> char {
    if 'a' <= c && c <= 'z' {
        ((c as u32 - 32) as u32) as char
    } else {
        c
    }
}

/// Lower-cases one ASCII letter.
pub fn to_ascii_lower(c: char) -> (r: char)
    ensures
        r == ascii_lower(c),
{
    if 'A' <= c && c <= 'Z' {
        let n: u8 = c as u8;
        (n + 32) as char
    } else {
        c
    }
}

/// Upper-cases one ASCII letter.
pub fn to_ascii_upper(c: char) -> (r: char)
    ensures
        r == ascii_upper(c),
{
    if 'a' <= c && c <= 'z' {
        let n: u8 = c as u8;
        (n - 32) as char
    } else {
        c
    }
}

/// `s` with its ASCII letters in lower case.
pub open spec fn lowered_ascii(s: Seq<char>) -> Seq<char> {
    s.map_values(|c: char| ascii_lower(c))
}

/// `s` with its ASCII letters in upper case.
pub open spec fn uppered_ascii(s: Seq<char>) -> Seq<char> {
    s.map_values(|c: char| ascii_upper(c))
}

/// The string with its ASCII letters in lower case.
pub fn ascii_lowercase(s: &str) -> (r: String)
    ensures
        r@ == lowered_ascii(s@),
{
    let chars = chars_of(s);
    let mut out = String::new();
    let mut i: usize = 0;
    while i < chars.len()
        invariant
            i <= chars@.len(),
            chars@ == s@,
            out@ == lowered_ascii(s@.take(i as int)),
        decreases chars@.len() - i,
    {
        out.push(to_ascii_lower(chars[i]));
        assert(lowered_ascii(s@.take(i + 1)) == lowered_ascii(s@.take(i as int)).push(
            ascii_lower(s@[i as int]),
        ));
        i += 1;
    }
    assert(s@.take(s@.len() as int) == s@);
    out
}

/// The string with its ASCII letters in upper case.
pub fn ascii_uppercase(s: &str) -> (r: String)
    ensures
        r@ == uppered_ascii(s@),
{
    let chars = chars_of(s);
    let mut out = String::new();
    let mut i: usize = 0;
    while i < chars.len()
        invariant
            i <= chars@.len(),
            chars@ == s@,
            out@ == uppered_ascii(s@.take(i as int)),
        decreases chars@.len() - i,
    {
        out.push(to_ascii_upper(chars[i]));
        assert(uppered_ascii(s@.take(i + 1)) == uppered_ascii(s@.take(i as int)).push(
            ascii_upper(s@[i as int]),
        ));
        i += 1;
    }
    assert(s@.take(s@.len() as int) == s@);
    out
}

/// `s` with every `from` replaced by `to`.
pub open spec fn replaced(s: Seq<char>, from: char, to: char) -> Seq<char> {
    s.map_values(|c: char| if c == from { to } else { c })
}

/// The string with every `from` replaced by `to`.
pub fn replace_char(s: &str, from: char, to: char) -> (r: String)
    ensures
        r@ == replaced(s@, from, to),
{
    let chars = chars_of(s);
    let mut out = String::new();
    let mut i: usize = 0;
    while i < chars.len()
        invariant
            i <= chars@.len(),
            chars@ == s@,
            out@ == replaced(s@.take(i as int), from, to),
        decreases chars@.len() - i,
    {
        let c = chars[i];
        out.push(if c == from { to } else { c });
        assert(replaced(s@.take(i + 1), from, to) == replaced(s@.take(i as int), from, to).push(
            if s@[i as int] == from { to } else { s@[i as int] },
        ));
        i += 1;
    }
    assert(s@.take(s@.len() as int) == s@);
    out
}

/// Where `c` first occurs in `s`: its index, or the length if it does not occur.
pub open spec fn first_index(s: Seq<char>, c: char) -> int
    decreases s.len(),
{
    if s.len() == 0 || s[0] == c {
        0
    } else {
        1 + first_index(s.drop_first(), c)
    }
}

/// The first occurrence is an occurrence, and nothing before it is one.
pub proof fn lemma_first_index(s: Seq<char>, c: char)
    ensures
        0 <= first_index(s, c) <= s.len(),
        first_index(s, c) < s.len() ==> s[first_index(s, c)] == c,
        forall|i: int| 0 <= i < first_index(s, c) ==> s[i] != c,
        first_index(s, c) == s.len() <==> !s.contains(c),
    decreases s.len(),
{
    if s.len() > 0 && s[0] != c {
        let rest = s.drop_first();
        lemma_first_index(rest, c);
        assert forall|i: int| 0 <= i < first_index(s, c) implies s[i] != c by {
            if i > 0 {
                assert(rest[i - 1] == s[i]);
            }
        }
        if s.contains(c) {
            let i = choose|i: int| 0 <= i < s.len() && s[i] == c;
            assert(rest[i - 1] == c);
        }
        if rest.contains(c) {
            let i = choose|i: int| 0 <= i < rest.len() && rest[i] == c;
            assert(s[i + 1] == c);
        }
    }
}

/// The index with these properties is the first occurrence.
pub proof fn lemma_first_index_unique(s: Seq<char>, c: char, k: int)
    requires
        0 <= k <= s.len(),
        k < s.len() ==> s[k] == c,
        forall|i: int| 0 <= i < k ==> s[i] != c,
    ensures
        first_index(s, c) == k,
{
    lemma_first_index(s, c);
}

/// The index of the first occurrence of `c` among the characters from `from` on.
pub fn find_char(chars: &[char], c: char, from: usize) -> (r: usize)
    requires
        from <= chars@.len(),
    ensures
        r == from + first_index(chars@.skip(from as int), c),
        from <= r <= chars@.len(),
{
    let ghost rest = chars@.skip(from as int);
    let mut i: usize = from;
    while i < chars.len() && chars[i] != c
        invariant
            from <= i <= chars@.len(),
            rest == chars@.skip(from as int),
            forall|j: int| 0 <= j < i - from ==> rest[j] != c,
        decreases chars@.len() - i,
    {
        assert(rest[i - from] == chars@[i as int]);
        i += 1;
    }
    proof {
        lemma_first_index_unique(rest, c, i - from);
    }
    i
}

/// Whether the string holds the character.
pub fn has_char(s: &str, c: char) -> (r: bool)
    ensures
        r == s@.contains(c),
{
    let chars = chars_of(s);
    let at: usize = find_char(chars.as_slice(), c, 0);
    proof {
        assert(chars@.skip(0) == s@);
        lemma_first_index(s@, c);
    }
    at < chars.len()
}

/// The pieces of `s` between the occurrences of `c`.
pub open spec fn split_on(s: Seq<char>, c: char) -> Seq<Seq<char>>
    decreases s.len(),
{
    let at = first_index(s, c);
    if 0 <= at < s.len() {
        seq![s.take(at)] + split_on(s.skip(at + 1), c)
    } else {
        seq![s]
    }
}

/// The pieces of the string between the occurrences of `c`.
pub fn split_char(s: &str, c: char) -> (r: Vec<String>)
    ensures
        views(r@) == split_on(s@, c),
        r@.len() >= 1,
{
    let chars = chars_of(s);
    let mut out: Vec<String> = Vec::new();
    let mut from: usize = 0;
    assert(s@.skip(0) == s@);
    assert(views(out@) + split_on(s@, c) == split_on(s@, c));
    loop
        invariant
            from <= chars@.len(),
            chars@ == s@,
            views(out@) + split_on(s@.skip(from as int), c) == split_on(s@, c),
        decreases chars@.len() - from,
    {
        let ghost rest = s@.skip(from as int);
        let at: usize = find_char(chars.as_slice(), c, from);
        proof {
            lemma_first_index(rest, c);
        }
        let ghost before = views(out@);
        let piece = s.substring_char(from, at).to_owned();
        assert(piece@ == rest.take(at - from));
        if at < chars.len() {
            out.push(piece);
            proof {
                assert(views(out@) == before.push(piece@));
                assert(rest.skip(at - from + 1) == s@.skip(at + 1));
                assert(split_on(rest, c) == seq![piece@] + split_on(s@.skip(at + 1), c));
                assert(before + (seq![piece@] + split_on(s@.skip(at + 1), c)) == before.push(piece@)
                    + split_on(s@.skip(at + 1), c));
            }
            from = at + 1;
        } else {
            out.push(piece);
            proof {
                assert(views(out@) == before.push(piece@));
                assert(rest.take(at - from) == rest);
                assert(split_on(rest, c) == seq![piece@]);
                assert(before + seq![piece@] == before.push(piece@));
            }
            return out;
        }
    }
}

/// What stands before and after the first `c`, if it occurs.
pub fn split_once<'a>(s: &'a str, c: char) -> (r: Option<(&'a str, &'a str)>)
    ensures
        r is Some <==> s@.contains(c),
        r matches Some(parts) ==> parts.0@ == s@.take(first_index(s@, c)) && parts.1@ == s@.skip(
            first_index(s@, c) + 1,
        ),
{
    let chars = chars_of(s);
    let at: usize = find_char(chars.as_slice(), c, 0);
    proof {
        assert(chars@.skip(0) == s@);
        lemma_first_index(s@, c);
    }
    if at < chars.len() {
        Some((s.substring_char(0, at), s.substring_char(at + 1, chars.len())))
    } else {
        None
    }
}

/// `s` without one carriage return at its end.
pub open spec fn without_return(s: Seq<char>) -> Seq<char> {
    if s.len() > 0 && s.last() == '\r' {
        s.drop_last()
    } else {
        s
    }
}

/// The lines of `s`: what ends in a line feed, which a carriage return may precede, and what is
/// left behind the last one.
pub open spec fn lines_of(s: Seq<char>) -> Seq<Seq<char>> {
    let pieces = split_on(s, '\n');
    let ended = pieces.drop_last().map_values(|line: Seq<char>| without_return(line));
    if pieces.last().len() == 0 {
        ended
    } else {
        ended.push(pieces.last())
    }
}

/// The lines of the string.
pub fn lines(s: &str) -> (r: Vec<String>)
    ensures
        views(r@) == lines_of(s@),
{
    let pieces = split_char(s, '\n');
    let ghost all = views(pieces@);
    let ghost ended = all.drop_last().map_values(|line: Seq<char>| without_return(line));
    let mut out: Vec<String> = Vec::new();
    let mut i: usize = 0;
    assert(all.len() == pieces@.len());
    while i < pieces.len() - 1
        invariant
            i + 1 <= pieces@.len(),
            all == views(pieces@),
            ended == all.drop_last().map_values(|line: Seq<char>| without_return(line)),
            out@.len() == i,
            forall|j: int| 0 <= j < i ==> (#[trigger] out@[j])@ == ended[j],
        decreases pieces@.len() - i,
    {
        let piece = pieces[i].as_str();
        assert(all[i as int] == piece@);
        proof {
            reveal_strlit("\r");
            if finishes(piece@, "\r"@) {
                assert(piece@.skip(piece@.len() - 1)[0] == "\r"@[0]);
                assert(piece@.take(piece@.len() - 1) =~= piece@.drop_last());
            } else if piece@.len() > 0 && piece@.last() == '\r' {
                assert(piece@.skip(piece@.len() - 1) =~= "\r"@);
            }
        }
        match strip_suffix(piece, "\r") {
            Some(line) => out.push(line.to_owned()),
            None => out.push(piece.to_owned()),
        }
        i += 1;
    }
    let last = pieces[i].as_str();
    assert(all.last() == last@);
    assert(views(out@) =~= ended);
    if !last.is_empty() {
        out.push(last.to_owned());
        assert(views(out@) =~= ended.push(last@));
    }
    out
}

/// The parts one after the other, with `sep` between any two neighbours.
pub open spec fn joined(parts: Seq<Seq<char>>, sep: Seq<char>) -> Seq<char>
    decreases parts.len(),
{
    if parts.len() == 0 {
        seq![]
    } else if parts.len() == 1 {
        parts[0]
    } else {
        joined(parts.drop_last(), sep) + sep + parts.last()
    }
}

/// Joins the parts with the separator.
pub fn join(parts: &Vec<String>, sep: &str) -> (r: String)
    ensures
        r@ == joined(views(parts@), sep@),
{
    let mut out = String::new();
    let mut i: usize = 0;
    assert(views(parts@).take(0) == Seq::<Seq<char>>::empty());
    while i < parts.len()
        invariant
            i <= parts@.len(),
            out@ == joined(views(parts@).take(i as int), sep@),
        decreases parts@.len() - i,
    {
        let ghost all = views(parts@);
        if i > 0 {
            out.append(sep);
        }
        out.append(parts[i].as_str());
        proof {
            assert(all.take(i + 1).drop_last() == all.take(i as int));
            assert(all.take(i + 1).last() == parts@[i as int]@);
            if i == 0 {
                assert(all.take(0) == Seq::<Seq<char>>::empty());
                assert(out@ == parts@[0]@);
            }
        }
        i += 1;
    }
    assert(views(parts@).take(parts@.len() as int) == views(parts@));
    out
}

/// What invalid UTF-8 is read as.
pub uninterp spec fn utf8_lossy(bytes: Seq<u8>) -> Seq<char>;

/// The text of some bytes: what they encode, with replacement characters where they encode nothing.
pub open spec fn lossy_text(bytes: Seq<u8>) -> Seq<char> {
    if valid_utf8(bytes) {
        decode_utf8(bytes)
    } else {
        utf8_lossy(bytes)
    }
}

/// `String::from_utf8_lossy`: valid UTF-8 is read as what it encodes; what is read for anything
/// else depends on the bytes alone.
#[verifier::external_body]
pub(crate) fn decode_lossy(bytes: &[u8]) -> (r: String)
    ensures
        r@ == (if valid_utf8(bytes@) {
            decode_utf8(bytes@)
        } else {
            utf8_lossy(bytes@)
        }),
{
    String::from_utf8_lossy(bytes).into_owned()
}

/// The lower-case form of a text.
pub uninterp spec fn lowercase(text: Seq<char>) -> Seq<char>;

/// `str::to_lowercase`: the lower-case form depends on the text alone. What Unicode's case mapping
/// makes of each character is not said.
#[verifier::external_body]
pub(crate) fn to_lowercase(text: &str) -> (r: String)
    ensures
        r@ == lowercase(text@),
{
    text.to_lowercase()
}

/// `s` without the occurrences of `c` it ends with.
pub open spec fn without_trailing(s: Seq<char>, c: char) -> Seq<char>
    decreases s.len(),
{
    if s.len() > 0 && s.last() == c {
        without_trailing(s.drop_last(), c)
    } else {
        s
    }
}

/// `s` without the occurrences of `c` it starts with.
pub open spec fn without_leading(s: Seq<char>, c: char) -> Seq<char>
    decreases s.len(),
{
    if s.len() > 0 && s[0] == c {
        without_leading(s.drop_first(), c)
    } else {
        s
    }
}

/// The string without the occurrences of `c` it ends with.
pub fn trim_trailing<'a>(s: &'a str, c: char) -> (r: &'a str)
    ensures
        r@ == without_trailing(s@, c),
{
    let chars = chars_of(s);
    let mut n: usize = chars.len();
    assert(s@.take(s@.len() as int) =~= s@);
    while n > 0 && chars[n - 1] == c
        invariant
            n <= chars@.len(),
            chars@ == s@,
            without_trailing(s@, c) == without_trailing(s@.take(n as int), c),
        decreases n,
    {
        assert(s@.take(n as int).drop_last() =~= s@.take(n - 1));
        n -= 1;
    }
    assert(s@.subrange(0, n as int) =~= s@.take(n as int));
    s.substring_char(0, n)
}

/// The string without the occurrences of `c` it starts with.
pub fn trim_leading<'a>(s: &'a str, c: char) -> (r: &'a str)
    ensures
        r@ == without_leading(s@, c),
{
    let chars = chars_of(s);
    let mut n: usize = 0;
    assert(s@.skip(0) =~= s@);
    while n < chars.len() && chars[n] == c
        invariant
            n <= chars@.len(),
            chars@ == s@,
            without_leading(s@, c) == without_leading(s@.skip(n as int), c),
        decreases chars@.len() - n,
    {
        assert(s@.skip(n as int).drop_first() =~= s@.skip(n + 1));
        n += 1;
    }
    assert(s@.subrange(n as int, s@.len() as int) =~= s@.skip(n as int));
    s.substring_char(n, chars.len())
}

/// How many characters stand before the first white space.
pub open spec fn word_length(s: Seq<char>) -> int
    decreases s.len(),
{
    if s.len() == 0 || white_space(s[0]) {
        0
    } else {
        1 + word_length(s.drop_first())
    }
}

/// A word ends within the text, and one that starts with no white space is not empty.
pub proof fn lemma_word_length(s: Seq<char>)
    ensures
        0 <= word_length(s) <= s.len(),
        s.len() > 0 && !white_space(s[0]) ==> word_length(s) > 0,
    decreases s.len(),
{
    if s.len() > 0 && !white_space(s[0]) {
        lemma_word_length(s.drop_first());
    }
}

/// What is left behind the white space at the start is no longer.
pub proof fn lemma_trimmed_start(s: Seq<char>)
    ensures
        trimmed_start(s).len() <= s.len(),
        trimmed_start(s).len() > 0 ==> !white_space(trimmed_start(s)[0]),
    decreases s.len(),
{
    if s.len() > 0 && white_space(s[0]) {
        lemma_trimmed_start(s.drop_first());
    }
}

/// The words of `s`: what stands between white space.
pub open spec fn words_of(s: Seq<char>) -> Seq<Seq<char>>
    decreases s.len(),
{
    let rest = trimmed_start(s);
    let n = word_length(rest);
    if 0 < n <= rest.len() <= s.len() {
        seq![rest.take(n)] + words_of(rest.skip(n))
    } else {
        seq![]
    }
}

/// The words of the string.
pub fn words(s: &str) -> (r: Vec<String>)
    ensures
        views(r@) == words_of(s@),
{
    let chars = chars_of(s);
    let mut out: Vec<String> = Vec::new();
    let mut i: usize = 0;
    assert(s@.skip(0) =~= s@);
    assert(views(out@) + words_of(s@) =~= words_of(s@));
    loop
        invariant
            i <= chars@.len(),
            chars@ == s@,
            views(out@) + words_of(s@.skip(i as int)) == words_of(s@),
        decreases chars@.len() - i,
    {
        let ghost from = i as int;
        let ghost before = views(out@);
        while i < chars.len() && is_white_space(chars[i])
            invariant
                from <= i <= chars@.len(),
                chars@ == s@,
                trimmed_start(s@.skip(from)) == trimmed_start(s@.skip(i as int)),
            decreases chars@.len() - i,
        {
            assert(s@.skip(i as int).drop_first() =~= s@.skip(i + 1));
            i += 1;
        }
        let ghost rest = s@.skip(i as int);
        assert(trimmed_start(s@.skip(from)) == rest);
        let start: usize = i;
        while i < chars.len() && !is_white_space(chars[i])
            invariant
                start <= i <= chars@.len(),
                chars@ == s@,
                rest == s@.skip(start as int),
                word_length(rest) == i - start + word_length(s@.skip(i as int)),
            decreases chars@.len() - i,
        {
            assert(s@.skip(i as int).drop_first() =~= s@.skip(i + 1));
            i += 1;
        }
        assert(word_length(rest) == i - start);
        if i == start {
            assert(words_of(s@.skip(from)) =~= seq![]);
            assert(views(out@) + words_of(s@.skip(from)) =~= views(out@));
            return out;
        }
        let word = s.substring_char(start, i).to_owned();
        out.push(word);
        proof {
            assert(word@ =~= rest.take(i - start));
            assert(rest.skip(i - start) =~= s@.skip(i as int));
            assert(words_of(s@.skip(from)) == seq![word@] + words_of(s@.skip(i as int)));
            assert(views(out@) =~= before.push(word@));
            assert(views(out@) + words_of(s@.skip(i as int)) =~= before + (seq![word@] + words_of(
                s@.skip(i as int),
            )));
        }
    }
}

/// Where a text first occurs in `s`.
pub open spec fn find_text(s: Seq<char>, pattern: Seq<char>) -> Option<int>
    decreases s.len(),
{
    if begins(s, pattern) {
        Some(0)
    } else if s.len() == 0 {
        None
    } else {
        match find_text(s.drop_first(), pattern) {
            Some(at) => Some(at + 1),
            None => None,
        }
    }
}

/// A text that occurs fits in where it occurs.
pub proof fn lemma_find_text(s: Seq<char>, pattern: Seq<char>)
    ensures
        find_text(s, pattern) matches Some(at) ==> 0 <= at && at + pattern.len() <= s.len()
            && begins(s.skip(at), pattern),
    decreases s.len(),
{
    if begins(s, pattern) {
        assert(s.skip(0) =~= s);
    } else if s.len() > 0 {
        let rest = s.drop_first();
        lemma_find_text(rest, pattern);
        if let Some(at) = find_text(rest, pattern) {
            assert(s.skip(at + 1) =~= rest.skip(at));
        }
    }
}

/// What stands before and after the first occurrence of a text, if it occurs.
pub fn split_once_text<'a>(s: &'a str, pattern: &str) -> (r: Option<(&'a str, &'a str)>)
    ensures
        r is Some <==> find_text(s@, pattern@) is Some,
        r matches Some(parts) ==> parts.0@ == s@.take(find_text(s@, pattern@)->0) && parts.1@
            == s@.skip(find_text(s@, pattern@)->0 + pattern@.len()),
{
    let n: usize = s.unicode_len();
    let k: usize = pattern.unicode_len();
    let mut i: usize = 0;
    assert(s@.skip(0) =~= s@);
    loop
        invariant
            i <= n,
            n == s@.len(),
            k == pattern@.len(),
            find_text(s@, pattern@) is Some <==> find_text(s@.skip(i as int), pattern@) is Some,
            find_text(s@.skip(i as int), pattern@) matches Some(at) ==> find_text(s@, pattern@)
                == Some(at + i),
        decreases n - i,
    {
        let ghost rest = s@.skip(i as int);
        if k <= n - i && str_eq(s.substring_char(i, i + k), pattern) {
            proof {
                assert(rest.take(k as int) =~= s@.subrange(i as int, i + k));
                assert(begins(rest, pattern@));
                assert(s@.subrange(0, i as int) =~= s@.take(i as int));
                assert(s@.subrange(i + k, n as int) =~= s@.skip(i + k));
            }
            return Some((s.substring_char(0, i), s.substring_char(i + k, n)));
        }
        proof {
            if k <= n - i {
                assert(rest.take(k as int) =~= s@.subrange(i as int, i + k));
            }
            assert(!begins(rest, pattern@));
        }
        if i == n {
            return None;
        }
        assert(rest.drop_first() =~= s@.skip(i + 1));
        i += 1;
    }
}

/// What is wrong with bytes that are no UTF-8.
pub uninterp spec fn utf8_fault(bytes: Seq<u8>) -> Seq<char>;

/// `String::from_utf8`: valid UTF-8 becomes the text it encodes; what the error says of anything
/// else depends on the bytes alone.
#[verifier::external_body]
pub(crate) fn utf8_string(bytes: Vec<u8>) -> (r: Result<String, String>)
    ensures
        r is Ok <==> valid_utf8(bytes@),
        r matches Ok(text) ==> text@ == decode_utf8(bytes@),
        r matches Err(message) ==> message@ == utf8_fault(bytes@),
{
    match String::from_utf8(bytes) {
        Ok(text) => Ok(text),
        Err(error) => Err(error.to_string()),
    }
}

/// Trimming what is trimmed changes nothing.
pub proof fn lemma_trimmed_twice(s: Seq<char>)
    ensures
        trimmed(trimmed(s)) == trimmed(s),
        trimmed(s).len() > 0 ==> !white_space(trimmed(s)[0]) && !white_space(trimmed(s).last()),
{
    let start = trimmed_start(s);
    let t = trimmed_end(start);
    lemma_trimmed_start(s);
    lemma_trimmed_end(start);
    if t.len() > 0 {
        assert(t[0] == start[0]);
        assert(trimmed_start(t) == t);
        assert(trimmed_end(t) == t);
    } else {
        assert(trimmed_start(t) == t);
    }
}

/// What is left before the white space at the end is a beginning that ends in no white space.
pub proof fn lemma_trimmed_end(s: Seq<char>)
    ensures
        trimmed_end(s).len() <= s.len(),
        trimmed_end(s) == s.take(trimmed_end(s).len() as int),
        trimmed_end(s).len() > 0 ==> !white_space(trimmed_end(s).last()),
    decreases s.len(),
{
    if s.len() > 0 && white_space(s.last()) {
        lemma_trimmed_end(s.drop_last());
        let n = trimmed_end(s).len() as int;
        assert(s.drop_last().take(n) =~= s.take(n));
    } else {
        assert(s.take(s.len() as int) =~= s);
    }
}

/// Whether a byte begins a character of more than one byte.
pub open spec fn opens_character(byte: u8) -> bool {
    is_leading_byte_width_2(byte) || is_leading_byte_width_3(byte) || is_leading_byte_width_4(byte)
}

/// How many bytes at the end begin a character that goes on behind them.
pub open spec fn cut_len(bytes: Seq<u8>) -> int {
    let n = bytes.len() as int;
    if n >= 1 && opens_character(bytes[n - 1]) {
        1
    } else if n >= 2 && (is_leading_byte_width_3(bytes[n - 2]) || is_leading_byte_width_4(
        bytes[n - 2],
    )) && is_continuation_byte(bytes[n - 1]) {
        2
    } else if n >= 3 && is_leading_byte_width_4(bytes[n - 3]) && is_continuation_byte(bytes[n - 2])
        && is_continuation_byte(bytes[n - 1]) {
        3
    } else {
        0
    }
}

/// How many bytes at the end begin a character that goes on behind them.
pub fn cut_length(bytes: &[u8]) -> (r: usize)
    ensures
        r == cut_len(bytes@),
        r <= bytes@.len(),
{
    let n: usize = bytes.len();
    if n >= 1 && 0xc0 <= bytes[n - 1] && bytes[n - 1] <= 0xf7 {
        1
    } else if n >= 2 && 0xe0 <= bytes[n - 2] && bytes[n - 2] <= 0xf7 && 0x80 <= bytes[n - 1]
        && bytes[n - 1] <= 0xbf {
        2
    } else if n >= 3 && 0xf0 <= bytes[n - 3] && bytes[n - 3] <= 0xf7 && 0x80 <= bytes[n - 2]
        && bytes[n - 2] <= 0xbf && 0x80 <= bytes[n - 1] && bytes[n - 1] <= 0xbf {
        3
    } else {
        0
    }
}

/// Whether a character is cut at the end does not depend on the first character of several.
proof fn lemma_cut_behind_the_first(bytes: Seq<u8>, n: int)
    requires
        bytes.len() > 0,
        valid_utf8(bytes),
        length_of_first_scalar(bytes) <= n <= bytes.len(),
    ensures
        cut_len(bytes.take(n)) == cut_len(
            pop_first_scalar(bytes).take(n - length_of_first_scalar(bytes)),
        ),
{
    let width = length_of_first_scalar(bytes);
    let rest = pop_first_scalar(bytes);
    let part = rest.take(n - width);
    let known = bytes.take(n);
    assert(valid_utf8(rest));
    assert forall|i: int| 0 <= i < part.len() implies part[i] == known[width + i] by {}
    assert forall|i: int| 0 <= i < width implies known[i] == bytes[i] by {}
    if part.len() > 0 {
        assert(valid_first_scalar(rest));
        assert(part[0] == rest[0]);
    }
    if part.len() >= 1 {
        assert(part[part.len() - 1] == known[n - 1]);
    }
    if part.len() >= 2 {
        assert(part[part.len() - 2] == known[n - 2]);
    }
    if part.len() >= 3 {
        assert(part[part.len() - 3] == known[n - 3]);
    }
}

/// Valid bytes end with a whole character.
pub proof fn lemma_valid_is_not_cut(bytes: Seq<u8>)
    requires
        valid_utf8(bytes),
    ensures
        cut_len(bytes) == 0,
    decreases bytes.len(),
{
    if bytes.len() > 0 {
        let rest = pop_first_scalar(bytes);
        lemma_valid_is_not_cut(rest);
        lemma_cut_behind_the_first(bytes, bytes.len() as int);
        assert(bytes.take(bytes.len() as int) =~= bytes);
        assert(rest.take(rest.len() as int) =~= rest);
    }
}

/// Without a character that is cut at the end, the first bytes of valid ones are whole characters.
pub proof fn lemma_cut_is_a_boundary(bytes: Seq<u8>, n: int)
    requires
        valid_utf8(bytes),
        0 <= n <= bytes.len(),
    ensures
        0 <= n - cut_len(bytes.take(n)),
        is_char_boundary(bytes, n - cut_len(bytes.take(n))),
    decreases bytes.len(),
{
    let known = bytes.take(n);
    if n > 0 {
        let width = length_of_first_scalar(bytes);
        assert(valid_first_scalar(bytes));
        if n < width {
            assert(known[0] == bytes[0]);
            if n >= 2 {
                assert(known[1] == bytes[1]);
            }
            if n >= 3 {
                assert(known[2] == bytes[2]);
            }
            assert(cut_len(known) == n);
        } else {
            let rest = pop_first_scalar(bytes);
            lemma_cut_is_a_boundary(rest, n - width);
            lemma_cut_behind_the_first(bytes, n);
        }
    }
}

/// White space is what Unicode calls so: tabs, line ends, spaces of every width, and no letter,
/// digit or mark of ASCII.
pub proof fn law_white_space_is_no_mark(c: char)
    ensures
        c == ' ' || c == '\t' || c == '\n' || c == '\r' ==> white_space(c),
        0x21 <= (c as int) <= 0x7e ==> !white_space(c),
{
}

/// Trimming takes away the white space at both ends and nothing else; a text of white space alone
/// is blank.
pub proof fn law_trimming_takes_the_ends(s: Seq<char>)
    ensures
        exists|i: int, j: int|
            0 <= i <= j <= s.len() && trimmed(s) == #[trigger] s.subrange(i, j) && (forall|k: int|
                0 <= k < i || j <= k < s.len() ==> white_space(#[trigger] s[k])),
        trimmed(s).len() > 0 ==> !white_space(trimmed(s)[0]) && !white_space(trimmed(s).last()),
        blank(s) <==> forall|k: int| 0 <= k < s.len() ==> white_space(#[trigger] s[k]),
{
    lemma_trimmed_twice(s);
    let i = lemma_start_cut(s);
    let rest = trimmed_start(s);
    let n = lemma_end_cut(rest);
    let j = i + n;
    assert(s.subrange(i, j) =~= rest.take(n));
    assert forall|k: int| 0 <= k < i || j <= k < s.len() implies white_space(#[trigger] s[k]) by {
        if k >= j {
            assert(rest[k - i] == s[k]);
        }
    }
    if blank(s) {
        assert forall|k: int| 0 <= k < s.len() implies white_space(#[trigger] s[k]) by {
            assert(i == j);
        }
    } else {
        assert(trimmed(s)[0] == s[i]);
    }
}

proof fn lemma_start_cut(s: Seq<char>) -> (i: int)
    ensures
        0 <= i <= s.len(),
        trimmed_start(s) == s.skip(i),
        forall|k: int| 0 <= k < i ==> white_space(#[trigger] s[k]),
    decreases s.len(),
{
    if s.len() > 0 && white_space(s[0]) {
        let rest = s.drop_first();
        let i = lemma_start_cut(rest);
        assert(rest.skip(i) =~= s.skip(i + 1));
        assert forall|k: int| 0 <= k < i + 1 implies white_space(#[trigger] s[k]) by {
            if k > 0 {
                assert(rest[k - 1] == s[k]);
            }
        }
        i + 1
    } else {
        assert(s.skip(0) =~= s);
        0
    }
}

proof fn lemma_end_cut(s: Seq<char>) -> (n: int)
    ensures
        0 <= n <= s.len(),
        trimmed_end(s) == s.take(n),
        forall|k: int| n <= k < s.len() ==> white_space(#[trigger] s[k]),
    decreases s.len(),
{
    if s.len() > 0 && white_space(s.last()) {
        let front = s.drop_last();
        let n = lemma_end_cut(front);
        assert(front.take(n) =~= s.take(n));
        assert forall|k: int| n <= k < s.len() implies white_space(#[trigger] s[k]) by {
            if k < front.len() {
                assert(front[k] == s[k]);
            }
        }
        n
    } else {
        assert(s.take(s.len() as int) =~= s);
        s.len() as int
    }
}

/// A text begins with a prefix, and ends with a suffix, where it is one followed or led by a rest.
pub proof fn law_a_text_is_its_prefix_and_the_rest(s: Seq<char>, part: Seq<char>)
    ensures
        begins(s, part) <==> exists|rest: Seq<char>| s == #[trigger] (part + rest),
        finishes(s, part) <==> exists|front: Seq<char>| s == #[trigger] (front + part),
{
    if begins(s, part) {
        assert(s =~= part + s.skip(part.len() as int));
    }
    if exists|rest: Seq<char>| s == #[trigger] (part + rest) {
        let rest = choose|rest: Seq<char>| s == #[trigger] (part + rest);
        assert(s.take(part.len() as int) =~= part);
    }
    if finishes(s, part) {
        assert(s =~= s.take(s.len() - part.len()) + part);
    }
    if exists|front: Seq<char>| s == #[trigger] (front + part) {
        let front = choose|front: Seq<char>| s == #[trigger] (front + part);
        assert(s.skip(s.len() - part.len()) =~= part);
    }
}

/// ASCII letters change case one by one, and nothing else does.
pub proof fn law_only_ascii_letters_change_case(s: Seq<char>, i: int)
    requires
        0 <= i < s.len(),
    ensures
        lowered_ascii(s).len() == s.len(),
        uppered_ascii(s).len() == s.len(),
        ({
            let c = s[i] as int;
            let lower = lowered_ascii(s)[i] as int;
            let upper = uppered_ascii(s)[i] as int;
            &&& 0x41 <= c <= 0x5a ==> lower == c + 32
            &&& !(0x41 <= c <= 0x5a) ==> lower == c
            &&& 0x61 <= c <= 0x7a ==> upper == c - 32
            &&& !(0x61 <= c <= 0x7a) ==> upper == c
        }),
{
}

/// The pieces of a text between the occurrences of a character hold the character no more, and make
/// up the text again when it is put between them.
pub proof fn law_pieces_make_up_the_text(s: Seq<char>, c: char)
    ensures
        split_on(s, c).len() > 0,
        joined(split_on(s, c), seq![c]) == s,
        forall|i: int| 0 <= i < split_on(s, c).len() ==> !(#[trigger] split_on(s, c)[i]).contains(c),
    decreases s.len(),
{
    lemma_first_index(s, c);
    let at = first_index(s, c);
    if at < s.len() {
        let rest = s.skip(at + 1);
        law_pieces_make_up_the_text(rest, c);
        let pieces = split_on(rest, c);
        lemma_joined_behind(s.take(at), pieces, seq![c]);
        assert(s =~= s.take(at) + seq![c] + rest);
        assert(!s.take(at).contains(c)) by {
            if s.take(at).contains(c) {
                let i = choose|i: int| 0 <= i < at && s.take(at)[i] == c;
                assert(s[i] == c);
            }
        }
        let all = split_on(s, c);
        assert(all =~= seq![s.take(at)] + pieces);
        assert forall|i: int| 0 <= i < all.len() implies !(#[trigger] all[i]).contains(c) by {
            if i > 0 {
                assert(all[i] == pieces[i - 1]);
            }
        }
    }
}

proof fn lemma_joined_behind(first: Seq<char>, parts: Seq<Seq<char>>, sep: Seq<char>)
    requires
        parts.len() > 0,
    ensures
        joined(seq![first] + parts, sep) == first + sep + joined(parts, sep),
    decreases parts.len(),
{
    let all = seq![first] + parts;
    if parts.len() == 1 {
        assert(all.drop_last() =~= seq![first]);
        assert(joined(seq![first], sep) == first);
        assert(all.last() == parts[0]);
    } else {
        lemma_joined_behind(first, parts.drop_last(), sep);
        assert(all.drop_last() =~= seq![first] + parts.drop_last());
        assert(all.last() == parts.last());
        assert(first + sep + joined(parts.drop_last(), sep) + sep + parts.last() =~= first + sep + (
        joined(parts.drop_last(), sep) + sep + parts.last()));
    }
}

/// Taking a character away at an end leaves a text that does not have it there, and takes nothing
/// else away.
pub proof fn law_only_the_character_is_taken_away(s: Seq<char>, c: char)
    ensures
        ({
            let t = without_trailing(s, c);
            &&& t.len() <= s.len() && t == s.take(t.len() as int)
            &&& t.len() > 0 ==> t.last() != c
            &&& forall|k: int| t.len() <= k < s.len() ==> #[trigger] s[k] == c
        }),
        ({
            let t = without_leading(s, c);
            &&& t.len() <= s.len() && t == s.skip(s.len() - t.len())
            &&& t.len() > 0 ==> t[0] != c
            &&& forall|k: int| 0 <= k < s.len() - t.len() ==> #[trigger] s[k] == c
        }),
    decreases s.len(),
{
    assert(s.take(s.len() as int) =~= s);
    assert(s.skip(0) =~= s);
    if s.len() > 0 && s.last() == c {
        let front = s.drop_last();
        law_only_the_character_is_taken_away(front, c);
        let t = without_trailing(front, c);
        assert(front.take(t.len() as int) =~= s.take(t.len() as int));
        assert forall|k: int| t.len() <= k < s.len() implies #[trigger] s[k] == c by {
            if k < front.len() {
                assert(front[k] == s[k]);
            }
        }
    }
    if s.len() > 0 && s[0] == c {
        let rest = s.drop_first();
        law_only_the_character_is_taken_away(rest, c);
        let t = without_leading(rest, c);
        assert(rest.skip(rest.len() - t.len()) =~= s.skip(s.len() - t.len()));
        assert forall|k: int| 0 <= k < s.len() - t.len() implies #[trigger] s[k] == c by {
            if k > 0 {
                assert(rest[k - 1] == s[k]);
            }
        }
    }
}

/// A text is found where it occurs first.
pub proof fn law_a_text_is_found_where_it_occurs_first(s: Seq<char>, pattern: Seq<char>)
    ensures
        find_text(s, pattern) matches Some(at) ==> 0 <= at <= s.len() && begins(s.skip(at), pattern)
            && forall|k: int| 0 <= k < at ==> !begins(#[trigger] s.skip(k), pattern),
        find_text(s, pattern) is None ==> forall|k: int|
            0 <= k <= s.len() ==> !begins(#[trigger] s.skip(k), pattern),
    decreases s.len(),
{
    assert(s.skip(0) =~= s);
    if !begins(s, pattern) && s.len() > 0 {
        let rest = s.drop_first();
        law_a_text_is_found_where_it_occurs_first(rest, pattern);
        assert forall|k: int| 1 <= k <= s.len() implies #[trigger] s.skip(k) == rest.skip(k - 1) by {
            assert(s.skip(k) =~= rest.skip(k - 1));
        }
        if let Some(at) = find_text(rest, pattern) {
            assert(s.skip(at + 1) == rest.skip(at));
            assert forall|k: int| 0 <= k < at + 1 implies !begins(#[trigger] s.skip(k), pattern) by {
                if k > 0 {
                    assert(s.skip(k) == rest.skip(k - 1));
                }
            }
        } else {
            assert forall|k: int| 0 <= k <= s.len() implies !begins(
                #[trigger] s.skip(k),
                pattern,
            ) by {
                if k > 0 {
                    assert(s.skip(k) == rest.skip(k - 1));
                }
            }
        }
    }
}

/// Words hold no white space and are not empty; a text with a character that is no white space has
/// at least one.
pub proof fn law_words_hold_no_white_space(s: Seq<char>)
    ensures
        forall|i: int|
            0 <= i < words_of(s).len() ==> (#[trigger] words_of(s)[i]).len() > 0 && forall|k: int|
                0 <= k < words_of(s)[i].len() ==> !white_space(#[trigger] words_of(s)[i][k]),
        words_of(s).len() == 0 <==> forall|k: int| 0 <= k < s.len() ==> white_space(#[trigger] s[k]),
    decreases s.len(),
{
    let cut = lemma_start_cut(s);
    let rest = trimmed_start(s);
    let n = word_length(rest);
    lemma_word_length(rest);
    lemma_trimmed_start(s);
    lemma_word_is_plain(rest);
    if 0 < n <= rest.len() <= s.len() {
        law_words_hold_no_white_space(rest.skip(n));
        let all = words_of(s);
        assert(all =~= seq![rest.take(n)] + words_of(rest.skip(n)));
        assert forall|i: int| 0 <= i < all.len() implies (#[trigger] all[i]).len() > 0 && forall|
            k: int,
        |
            0 <= k < all[i].len() ==> !white_space(#[trigger] all[i][k]) by {
            if i > 0 {
                assert(all[i] == words_of(rest.skip(n))[i - 1]);
            }
        }
        assert(s[cut] == rest[0]);
    } else {
        assert(rest.len() == 0);
    }
}

proof fn lemma_word_is_plain(s: Seq<char>)
    ensures
        forall|k: int| 0 <= k < word_length(s) && k < s.len() ==> !white_space(#[trigger] s[k]),
    decreases s.len(),
{
    if s.len() > 0 && !white_space(s[0]) {
        let rest = s.drop_first();
        lemma_word_is_plain(rest);
        assert forall|k: int| 0 <= k < word_length(s) && k < s.len() implies !white_space(
            #[trigger] s[k],
        ) by {
            if k > 0 {
                assert(rest[k - 1] == s[k]);
            }
        }
    }
}

/// Lines hold no line ends, and make up the text again with line ends between them, and with one
/// more behind them where the text ends with one. A return before a line end goes with it.
pub proof fn law_lines_make_up_the_text(s: Seq<char>)
    ensures
        !s.contains('\r') ==> s == joined(lines_of(s), seq!['\n']) + (if s.len() > 0 && s.last()
            == '\n' {
            seq!['\n']
        } else {
            seq![]
        }),
        !s.contains('\n') ==> lines_of(s + seq!['\r', '\n']) == seq![s],
{
    law_pieces_make_up_the_text(s, '\n');
    let pieces = split_on(s, '\n');
    let front = pieces.drop_last();
    let ended = front.map_values(|line: Seq<char>| without_return(line));
    if !s.contains('\r') {
        lemma_pieces_of(s, '\n', '\r');
        assert forall|i: int| 0 <= i < front.len() implies #[trigger] ended[i] == front[i] by {
            assert(front[i] == pieces[i]);
            assert(!pieces[i].contains('\r'));
            if front[i].len() > 0 && front[i].last() == '\r' {
                assert(pieces[i][pieces[i].len() - 1] == '\r');
            }
        }
        assert(ended =~= front);
        let last = pieces.last();
        assert(!pieces[pieces.len() - 1].contains('\n'));
        if last.len() == 0 {
            if pieces.len() > 1 {
                assert(s =~= joined(front, seq!['\n']) + seq!['\n']);
            }
        } else {
            assert(pieces =~= front.push(last));
            assert(s.last() == last.last());
            assert(last.contains(last.last()));
            assert(joined(pieces, seq!['\n']) + Seq::<char>::empty() =~= s);
        }
    }
    if !s.contains('\n') {
        let text = s + seq!['\r', '\n'];
        let line = s.push('\r');
        assert(text =~= line.push('\n'));
        assert forall|i: int| 0 <= i < line.len() implies text[i] != '\n' by {
            if i < s.len() {
                assert(s[i] != '\n') by {
                    assert(s.contains(s[i]));
                }
            }
        }
        lemma_first_index_unique(text, '\n', line.len() as int);
        assert(text.take(line.len() as int) =~= line);
        let rest = text.skip(line.len() as int + 1);
        assert(rest =~= seq![]);
        assert(split_on(rest, '\n') =~= seq![rest]);
        let all = split_on(text, '\n');
        assert(all =~= seq![line, rest]);
        assert(all.drop_last() =~= seq![line]);
        assert(line.drop_last() =~= s);
        assert(lines_of(text) =~= seq![s]);
    }
}

proof fn lemma_pieces_of(s: Seq<char>, c: char, other: char)
    requires
        !s.contains(other),
    ensures
        forall|i: int|
            0 <= i < split_on(s, c).len() ==> !(#[trigger] split_on(s, c)[i]).contains(other),
    decreases s.len(),
{
    let at = first_index(s, c);
    if 0 <= at < s.len() {
        let rest = s.skip(at + 1);
        let head = s.take(at);
        if rest.contains(other) {
            let i = choose|i: int| 0 <= i < rest.len() && rest[i] == other;
            assert(s[at + 1 + i] == other);
        }
        if head.contains(other) {
            let i = choose|i: int| 0 <= i < head.len() && head[i] == other;
            assert(s[i] == other);
        }
        lemma_pieces_of(rest, c, other);
        let all = split_on(s, c);
        assert forall|i: int| 0 <= i < all.len() implies !(#[trigger] all[i]).contains(other) by {
            if i > 0 {
                assert(all[i] == split_on(rest, c)[i - 1]);
            }
        }
    }
}

/// Replacing changes one character wherever it stands, and nothing else.
pub proof fn law_replacing_changes_one_character(s: Seq<char>, from: char, to: char, i: int)
    requires
        0 <= i < s.len(),
    ensures
        replaced(s, from, to).len() == s.len(),
        s[i] == from ==> replaced(s, from, to)[i] == to,
        s[i] != from ==> replaced(s, from, to)[i] == s[i],
{
}

} // verus!
