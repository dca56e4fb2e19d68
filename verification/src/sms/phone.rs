//! Phone numbers, and arguments of shell commands.

use vstd::prelude::*;
use crate::decimal::is_digit;
use crate::maps::{find, StringMap};
use crate::text::{
    chars_of, join, joined, lemma_trimmed_twice, trim, trimmed, trimmed_end, trimmed_start,
    view_opt, views, white_space,
};

verus! {

/// The digits of a text.
pub open spec fn digits_of(s: Seq<char>) -> Seq<char>
    decreases s.len(),
{
    if s.len() == 0 {
        s
    } else {
        let front = digits_of(s.drop_last());
        if is_digit(s.last()) {
            front.push(s.last())
        } else {
            front
        }
    }
}

/// The digits of a text, and the plus sign it starts with.
pub open spec fn dialled(s: Seq<char>) -> Seq<char> {
    if s.len() > 0 && s[0] == '+' {
        seq!['+'] + digits_of(s)
    } else {
        digits_of(s)
    }
}

/// A phone number in its normal form: its digits behind the plus sign it starts with. What holds
/// neither keeps its text.
pub open spec fn normal_phone(input: Seq<char>) -> Seq<char> {
    let t = trimmed(input);
    if dialled(t).len() == 0 {
        t
    } else {
        dialled(t)
    }
}

/// A phone number in its normal form.
pub fn normalize_phone(input: &str) -> (r: String)
    ensures
        r@ == normal_phone(input@),
{
    let text = trim(input);
    let chars = chars_of(text.as_str());
    let mut out = String::new();
    if chars.len() > 0 && chars[0] == '+' {
        out.push('+');
    }
    let ghost lead = out@;
    let mut i: usize = 0;
    assert(text@.take(0) =~= seq![]);
    assert(lead + digits_of(text@.take(0)) =~= lead);
    while i < chars.len()
        invariant
            i <= chars@.len(),
            chars@ == text@,
            out@ == lead + digits_of(text@.take(i as int)),
        decreases chars@.len() - i,
    {
        let c = chars[i];
        assert(text@.take(i + 1).drop_last() =~= text@.take(i as int));
        if '0' <= c && c <= '9' {
            out.push(c);
            assert(lead + digits_of(text@.take(i as int)).push(c) =~= (lead + digits_of(
                text@.take(i as int),
            )).push(c));
        }
        i += 1;
    }
    assert(text@.take(text@.len() as int) =~= text@);
    assert(out@ =~= dialled(text@));
    if out.as_str().is_empty() {
        text
    } else {
        out
    }
}

proof fn lemma_digits(s: Seq<char>)
    ensures
        forall|i: int| 0 <= i < digits_of(s).len() ==> is_digit(#[trigger] digits_of(s)[i]),
        digits_of(s).len() <= s.len(),
    decreases s.len(),
{
    if s.len() > 0 {
        lemma_digits(s.drop_last());
    }
}

proof fn lemma_only_digits(s: Seq<char>)
    requires
        forall|i: int| 0 <= i < s.len() ==> is_digit(#[trigger] s[i]),
    ensures
        digits_of(s) == s,
    decreases s.len(),
{
    if s.len() > 0 {
        let front = s.drop_last();
        assert forall|i: int| 0 <= i < front.len() implies is_digit(#[trigger] front[i]) by {
            assert(s[i] == front[i]);
        }
        lemma_only_digits(front);
        assert(is_digit(s[s.len() - 1]));
        assert(front.push(s.last()) =~= s);
    }
}

proof fn lemma_digits_behind_plus(s: Seq<char>)
    requires
        forall|i: int| 0 <= i < s.len() ==> is_digit(#[trigger] s[i]),
    ensures
        digits_of(seq!['+'] + s) == s,
    decreases s.len(),
{
    let all = seq!['+'] + s;
    if s.len() > 0 {
        let front = s.drop_last();
        assert forall|i: int| 0 <= i < front.len() implies is_digit(#[trigger] front[i]) by {
            assert(s[i] == front[i]);
        }
        lemma_digits_behind_plus(front);
        assert(all.drop_last() =~= seq!['+'] + front);
        assert(all.last() == s[s.len() - 1]);
        assert(is_digit(s[s.len() - 1]));
        assert(front.push(s.last()) =~= s);
    } else {
        assert(all.drop_last() =~= seq![]);
        assert(digits_of(all.drop_last()) =~= seq![]);
        assert(digits_of(all) =~= s);
    }
}

/// A normal form is its own normal form.
pub proof fn law_normalizing_is_idempotent(input: Seq<char>)
    ensures
        normal_phone(normal_phone(input)) == normal_phone(input),
{
    let t = trimmed(input);
    lemma_trimmed_twice(input);
    lemma_digits(t);
    let digits = digits_of(t);
    let d = dialled(t);
    if d.len() > 0 {
        let has_plus = t.len() > 0 && t[0] == '+';
        if has_plus {
            lemma_digits_behind_plus(digits);
            assert(d == seq!['+'] + digits);
            assert(d[0] == '+');
        } else {
            lemma_only_digits(digits);
            assert(is_digit(d[0]));
        }
        let last = d.len() - 1;
        assert(d[last] == '+' || is_digit(d[last])) by {
            if has_plus {
                if last > 0 {
                    assert(d[last] == digits[last - 1]);
                }
            }
        }
        assert(!white_space(d[0]));
        assert(!white_space(d.last()));
        assert(trimmed_start(d) == d);
        assert(trimmed_end(d) == d);
    }
}

/// How many characters are digits decides whether a text looks like a phone number.
pub open spec fn phone_like(input: Seq<char>) -> bool {
    digits_of(input).len() >= 3
}

/// Whether a text looks like a phone number: it has three digits or more.
pub fn looks_like_phone(input: &str) -> (r: bool)
    ensures
        r == phone_like(input@),
{
    let chars = chars_of(input);
    let mut count: usize = 0;
    let mut i: usize = 0;
    assert(input@.take(0) =~= seq![]);
    while i < chars.len()
        invariant
            i <= chars@.len(),
            chars@ == input@,
            count <= i,
            count == digits_of(input@.take(i as int)).len(),
        decreases chars@.len() - i,
    {
        let c = chars[i];
        assert(input@.take(i + 1).drop_last() =~= input@.take(i as int));
        if '0' <= c && c <= '9' {
            count += 1;
        }
        i += 1;
    }
    assert(input@.take(input@.len() as int) =~= input@);
    count >= 3
}

/// The number that a number is mapped to, or its normal form.
pub open spec fn mapped_phone(input: Seq<char>, mappings: Seq<(Seq<char>, Seq<char>)>) -> Seq<char> {
    match find(mappings, normal_phone(input)) {
        Some(phone) => phone,
        None => normal_phone(input),
    }
}

/// The number that a number is mapped to, or its normal form.
pub fn map_phone(input: &str, phone_mappings: &StringMap<String>) -> (r: String)
    ensures
        r@ == mapped_phone(input@, phone_mappings.texts()),
{
    let normalized = normalize_phone(input);
    match phone_mappings.get_text(normalized.as_str()) {
        Some(phone) => phone.clone(),
        None => normalized,
    }
}

/// What the messages with one number have in common: the number, behind the owner's if that is
/// known.
pub open spec fn phone_thread(self_number: Option<Seq<char>>, address: Seq<char>) -> Seq<char> {
    match self_number {
        Some(number) => normal_phone(number) + ":"@ + address,
        None => address,
    }
}

/// What the messages with one number have in common.
pub fn thread_key(self_number: &Option<String>, address: &str) -> (r: String)
    ensures
        r@ == phone_thread(view_opt(*self_number), address@),
{
    match self_number {
        Some(number) => {
            let mut key = normalize_phone(number.as_str());
            key.append(":");
            key.append(address);
            key
        },
        None => address.to_owned(),
    }
}

/// Whether a shell takes a character as it stands.
pub open spec fn plain_char(c: char) -> bool {
    ||| 'a' <= c && c <= 'z'
    ||| 'A' <= c && c <= 'Z'
    ||| is_digit(c)
    ||| c == '-' || c == '_' || c == '.' || c == '/' || c == ':' || c == '+'
}

fn is_plain_char(c: char) -> (r: bool)
    ensures
        r == plain_char(c),
{
    ('a' <= c && c <= 'z') || ('A' <= c && c <= 'Z') || ('0' <= c && c <= '9') || c == '-' || c
        == '_' || c == '.' || c == '/' || c == ':' || c == '+'
}

/// Whether a shell takes every character as it stands.
pub open spec fn plain_word(s: Seq<char>) -> bool {
    forall|i: int| 0 <= i < s.len() ==> plain_char(#[trigger] s[i])
}

/// A text with every quotation mark outside the quotes, escaped.
pub open spec fn escaped(s: Seq<char>) -> Seq<char>
    decreases s.len(),
{
    if s.len() == 0 {
        s
    } else if s[0] == '\'' {
        seq!['\'', '\\', '\'', '\''] + escaped(s.drop_first())
    } else {
        seq![s[0]] + escaped(s.drop_first())
    }
}

/// A text as an argument of a shell command.
pub open spec fn quoted(s: Seq<char>) -> Seq<char> {
    if plain_word(s) {
        s
    } else {
        seq!['\''] + escaped(s) + seq!['\'']
    }
}

/// A text as an argument of a shell command: as it stands if the shell leaves it alone, else in
/// single quotation marks.
pub fn shell_quote(input: &str) -> (r: String)
    ensures
        r@ == quoted(input@),
{
    let chars = chars_of(input);
    let mut plain = true;
    let mut i: usize = 0;
    while i < chars.len()
        invariant
            i <= chars@.len(),
            chars@ == input@,
            plain == (forall|j: int| 0 <= j < i ==> plain_char(#[trigger] input@[j])),
        decreases chars@.len() - i,
    {
        let c_plain = is_plain_char(chars[i]);
        assert(plain_char(input@[i as int]) == c_plain);
        plain = plain && c_plain;
        i += 1;
    }
    if plain {
        return input.to_owned();
    }
    let mut out = String::new();
    out.push('\'');
    let mut k: usize = 0;
    assert(input@.skip(0) =~= input@);
    assert(out@ =~= seq!['\'']);
    assert(seq!['\''] + escaped(input@) == out@ + escaped(input@.skip(0)));
    while k < chars.len()
        invariant
            k <= chars@.len(),
            chars@ == input@,
            seq!['\''] + escaped(input@) == out@ + escaped(input@.skip(k as int)),
        decreases chars@.len() - k,
    {
        let c = chars[k];
        let ghost before = out@;
        let ghost rest = input@.skip(k as int);
        assert(rest[0] == c);
        assert(rest.drop_first() =~= input@.skip(k + 1));
        if c == '\'' {
            out.push('\'');
            out.push('\\');
            out.push('\'');
            out.push('\'');
            assert(out@ + escaped(input@.skip(k + 1)) =~= before + (seq!['\'', '\\', '\'', '\'']
                + escaped(input@.skip(k + 1))));
        } else {
            out.push(c);
            assert(out@ + escaped(input@.skip(k + 1)) =~= before + (seq![c] + escaped(
                input@.skip(k + 1),
            )));
        }
        k += 1;
    }
    assert(escaped(input@.skip(k as int)) =~= seq![]);
    assert(out@ =~= seq!['\''] + escaped(input@));
    out.push('\'');
    assert(out@ =~= quoted(input@));
    out
}

/// What a POSIX shell makes of one word: plain characters stand for themselves, and so does
/// everything in single quotation marks and what follows a backslash outside of them.
pub open spec fn read_word(s: Seq<char>, in_quotes: bool) -> Option<Seq<char>>
    decreases s.len(),
{
    if s.len() == 0 {
        if in_quotes {
            None
        } else {
            Some(seq![])
        }
    } else if s[0] == '\'' {
        read_word(s.drop_first(), !in_quotes)
    } else if in_quotes || plain_char(s[0]) {
        match read_word(s.drop_first(), in_quotes) {
            Some(rest) => Some(seq![s[0]] + rest),
            None => None,
        }
    } else if s[0] == '\\' && s.len() > 1 {
        match read_word(s.skip(2), false) {
            Some(rest) => Some(seq![s[1]] + rest),
            None => None,
        }
    } else {
        None
    }
}

/// A shell reads a quoted argument as the text it was made of. An empty text is left out: nothing
/// stands for it, so that a shell sees no word.
pub proof fn law_quoting_is_undone_by_the_shell(s: Seq<char>)
    requires
        s.len() > 0,
    ensures
        quoted(s).len() > 0,
        read_word(quoted(s), false) == Some(s),
{
    if plain_word(s) {
        lemma_plain_word(s);
    } else {
        let q = quoted(s);
        assert(q[0] == '\'');
        assert(q.drop_first() =~= escaped(s) + seq!['\'']);
        lemma_escaped(s);
    }
}

proof fn lemma_plain_word(s: Seq<char>)
    requires
        plain_word(s),
    ensures
        read_word(s, false) == Some(s),
    decreases s.len(),
{
    if s.len() > 0 {
        let rest = s.drop_first();
        assert(plain_char(s[0]));
        assert(plain_word(rest)) by {
            assert forall|i: int| 0 <= i < rest.len() implies plain_char(#[trigger] rest[i]) by {
                assert(plain_char(s[i + 1]));
            }
        }
        lemma_plain_word(rest);
        assert(seq![s[0]] + rest =~= s);
    } else {
        assert(s =~= seq![]);
    }
}

proof fn lemma_escaped(s: Seq<char>)
    ensures
        read_word(escaped(s) + seq!['\''], true) == Some(s),
    decreases s.len(),
{
    let q = escaped(s) + seq!['\''];
    if s.len() == 0 {
        assert(q =~= seq!['\'']);
        assert(q.drop_first() =~= seq![]);
        assert(s =~= seq![]);
        assert(read_word(q.drop_first(), false) == Some(Seq::<char>::empty()));
    } else {
        let rest = s.drop_first();
        lemma_escaped(rest);
        assert(seq![s[0]] + rest =~= s);
        if s[0] == '\'' {
            let after = escaped(rest) + seq!['\''];
            assert(q =~= seq!['\'', '\\', '\'', '\''] + after);
            let q1 = q.drop_first();
            assert(q1 =~= seq!['\\', '\'', '\''] + after);
            let q3 = q1.skip(2);
            assert(q3 =~= seq!['\''] + after);
            assert(q3.drop_first() =~= after);
            assert(q3[0] == '\'');
            assert(read_word(q3, false) == read_word(after, true));
            assert(q1[0] == '\\' && q1[1] == '\'');
            assert(!plain_char('\\'));
            assert(read_word(q1, false) == Some(seq!['\''] + rest));
            assert(q[0] == '\'');
        } else {
            assert(q =~= seq![s[0]] + (escaped(rest) + seq!['\'']));
            assert(q[0] == s[0]);
            assert(q.drop_first() =~= escaped(rest) + seq!['\'']);
        }
    }
}

/// A command line: the arguments, quoted, with blanks between them.
pub open spec fn command_line(arguments: Seq<Seq<char>>) -> Seq<char> {
    joined(arguments.map_values(|argument: Seq<char>| quoted(argument)), " "@)
}

/// The command line of some arguments.
pub fn remote_command(arguments: &Vec<String>) -> (r: String)
    ensures
        r@ == command_line(views(arguments@)),
{
    let mut parts: Vec<String> = Vec::new();
    let mut i: usize = 0;
    while i < arguments.len()
        invariant
            i <= arguments@.len(),
            parts@.len() == i,
            forall|j: int| 0 <= j < i ==> (#[trigger] parts@[j])@ == quoted(arguments@[j]@),
        decreases arguments@.len() - i,
    {
        parts.push(shell_quote(arguments[i].as_str()));
        i += 1;
    }
    assert(views(parts@) =~= views(arguments@).map_values(|argument: Seq<char>| quoted(argument)));
    join(&parts, " ")
}

/// The digits of a text are those of its characters that are digits, in their order.
pub proof fn law_digits_are_kept_in_order(s: Seq<char>)
    ensures
        digits_of(s) == s.filter(|c: char| '0' <= c && c <= '9'),
        phone_like(s) <==> s.filter(|c: char| '0' <= c && c <= '9').len() >= 3,
    decreases s.len(),
{
    reveal(Seq::filter);
    if s.len() > 0 {
        law_digits_are_kept_in_order(s.drop_last());
    }
}

/// A number is dialled by its digits, behind a plus sign where it begins with one; a text without
/// either stays as it is, but for the white space around it.
pub proof fn law_a_number_is_dialled_by_its_digits(input: Seq<char>)
    ensures
        ({
            let t = trimmed(input);
            let digits = t.filter(|c: char| '0' <= c && c <= '9');
            let plus = t.len() > 0 && t[0] == '+';
            &&& plus ==> normal_phone(input) == seq!['+'] + digits
            &&& !plus && digits.len() > 0 ==> normal_phone(input) == digits
            &&& !plus && digits.len() == 0 ==> normal_phone(input) == t
        }),
{
    law_digits_are_kept_in_order(trimmed(input));
}

/// A number that is mapped stands for another; any other stands for itself. Where the owner's
/// number is known, a conversation bears both numbers.
pub proof fn law_mapped_numbers_stand_for_others(
    input: Seq<char>,
    mappings: Seq<(Seq<char>, Seq<char>)>,
    number: Seq<char>,
)
    ensures
        find(mappings, normal_phone(input)) matches Some(phone) ==> mapped_phone(input, mappings)
            == phone,
        find(mappings, normal_phone(input)) is None ==> mapped_phone(input, mappings)
            == normal_phone(input),
        phone_thread(None, input) == input,
        phone_thread(Some(number), input) == normal_phone(number) + ":"@ + input,
{
}

/// Plain characters are ASCII letters and digits and the marks `+`, `-`, `.`, `/`, `:` and `_`; a
/// text of these alone is not quoted, and any other stands in quotation marks.
pub proof fn law_only_plain_words_go_unquoted(s: Seq<char>, c: char)
    ensures
        plain_char(c) <==> {
            let n = c as int;
            ||| n == 0x2b
            ||| 0x2d <= n <= 0x3a
            ||| 0x41 <= n <= 0x5a
            ||| n == 0x5f
            ||| 0x61 <= n <= 0x7a
        },
        (forall|i: int| 0 <= i < s.len() ==> plain_char(#[trigger] s[i])) ==> quoted(s) == s,
        (exists|i: int| 0 <= i < s.len() && !plain_char(#[trigger] s[i])) ==> quoted(s).len()
            >= s.len() + 2 && quoted(s)[0] == '\'' && quoted(s).last() == '\'',
{
    lemma_escaped_is_longer(s);
}

proof fn lemma_escaped_is_longer(s: Seq<char>)
    ensures
        escaped(s).len() >= s.len(),
    decreases s.len(),
{
    if s.len() > 0 {
        lemma_escaped_is_longer(s.drop_first());
    }
}

/// A command line is its arguments, each quoted for itself, with one space between two.
pub proof fn law_arguments_are_quoted_one_by_one(arguments: Seq<Seq<char>>, argument: Seq<char>)
    ensures
        command_line(seq![]) == Seq::<char>::empty(),
        command_line(seq![argument]) == quoted(argument),
        arguments.len() > 0 ==> command_line(arguments.push(argument)) == command_line(arguments)
            + seq![' '] + quoted(argument),
{
    reveal_strlit(" ");
    let f = |text: Seq<char>| quoted(text);
    assert(Seq::<Seq<char>>::empty().map_values(f) =~= seq![]);
    assert(seq![argument].map_values(f) =~= seq![quoted(argument)]);
    assert(" "@ =~= seq![' ']);
    let more = arguments.push(argument).map_values(f);
    assert(more.drop_last() =~= arguments.map_values(f));
}

} // verus!
