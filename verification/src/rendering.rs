//! That the compact text of a JSON value tells what the value holds.

use vstd::prelude::*;
use crate::decimal::{digit_char, digits, is_digit};
use crate::json::{
    by_key, canonical, canonical_items, canonical_members, hex_digit, json_char, json_chars,
    json_quoted, rendered, rendered_items, rendered_members, sorted_members, JsonNumberView,
    JsonView,
};
use crate::order::lemma_sorted_by;
use crate::text::joined;

verus! {

/// Whether a character can stand in a number.
pub open spec fn numeral(c: char) -> bool {
    is_digit(c) || c == '+' || c == '-' || c == '.' || c == 'e' || c == 'E'
}

/// Whether a text has a point or an exponent.
pub open spec fn has_fraction(text: Seq<char>) -> bool {
    text.contains('.') || text.contains('e') || text.contains('E')
}

/// Whether a text is that of a number which is no integer.
pub open spec fn fractional(text: Seq<char>) -> bool {
    &&& forall|i: int| 0 <= i < text.len() ==> numeral(#[trigger] text[i])
    &&& has_fraction(text)
}

/// Whether every number stands under its own kind: negative integers alone under theirs, and what
/// keeps its text has that of a number which is no integer.
pub open spec fn sound(value: JsonView) -> bool
    decreases value,
{
    match value {
        JsonView::Number(JsonNumberView::Negative(n)) => n < 0,
        JsonView::Number(JsonNumberView::Decimal(text)) => fractional(text),
        JsonView::Array(items) => forall|i: int|
            0 <= i < items.len() ==> sound(#[trigger] items[i]),
        JsonView::Object(members) => forall|i: int|
            0 <= i < members.len() ==> sound((#[trigger] members[i]).1),
        _ => true,
    }
}

/// The number that a hexadecimal digit stands for.
spec fn hex_value(c: char) -> int {
    if c <= '9' {
        c as int - '0' as int
    } else {
        c as int - 'a' as int + 10
    }
}

proof fn lemma_hex_digit(n: int)
    requires
        0 <= n < 16,
    ensures
        hex_value(hex_digit(n)) == n,
{
    reveal_strlit("0123456789abcdef");
    if n < 4 {
    } else if n < 8 {
    } else if n < 12 {
    } else {
    }
}

/// How a character begins in a string literal.
proof fn lemma_json_char(c: char)
    ensures
        json_char(c).len() > 0,
        json_char(c)[0] != '"',
        json_char(c)[0] != '\\' ==> json_char(c) == seq![c],
        json_char(c)[0] == '\\' ==> json_char(c).len() >= 2,
        json_char(c)[0] == '\\' && json_char(c)[1] != 'u' ==> json_char(c).len() == 2,
        json_char(c)[0] == '\\' && json_char(c)[1] == 'u' ==> json_char(c).len() == 6
            && c as int == hex_value(json_char(c)[4]) * 16 + hex_value(json_char(c)[5]),
        json_char(c)[0] == '\\' && json_char(c)[1] != 'u' ==> json_char(c)[1] == (if c == '"'
            || c == '\\' {
            c
        } else if c as int == 8 {
            'b'
        } else if c == '\t' {
            't'
        } else if c == '\n' {
            'n'
        } else if c as int == 12 {
            'f'
        } else {
            'r'
        }) && (c == '"' || c == '\\' || c as int == 8 || c == '\t' || c == '\n' || c as int == 12
            || c == '\r'),
{
    reveal_strlit("\\\"");
    reveal_strlit("\\\\");
    reveal_strlit("\\b");
    reveal_strlit("\\t");
    reveal_strlit("\\n");
    reveal_strlit("\\f");
    reveal_strlit("\\r");
    reveal_strlit("\\u00");
    if (c as int) < 0x20 {
        lemma_hex_digit(c as int / 16);
        lemma_hex_digit(c as int % 16);
    }
}

/// No character's text in a string literal begins another's.
proof fn lemma_chars_part(c: char, d: char, x: Seq<char>, y: Seq<char>)
    requires
        json_char(c) + x == json_char(d) + y,
    ensures
        c == d,
        x == y,
{
    lemma_json_char(c);
    lemma_json_char(d);
    let left = json_char(c) + x;
    let right = json_char(d) + y;
    assert(left[0] == json_char(c)[0]);
    assert(right[0] == json_char(d)[0]);
    if left[0] == '\\' {
        assert(left[1] == json_char(c)[1]);
        assert(right[1] == json_char(d)[1]);
        if left[1] == 'u' {
            assert(left[4] == json_char(c)[4]);
            assert(right[4] == json_char(d)[4]);
            assert(left[5] == json_char(c)[5]);
            assert(right[5] == json_char(d)[5]);
        }
    }
    assert(c == d);
    assert(x =~= left.skip(json_char(c).len() as int));
    assert(y =~= right.skip(json_char(d).len() as int));
}

proof fn lemma_chars_from_the_front(text: Seq<char>)
    requires
        text.len() > 0,
    ensures
        json_chars(text) == json_char(text[0]) + json_chars(text.drop_first()),
    decreases text.len(),
{
    let front = text.drop_last();
    if text.len() == 1 {
        assert(front =~= seq![]);
        assert(text.drop_first() =~= seq![]);
        assert(json_chars(text) =~= json_char(text[0]) + json_chars(text.drop_first()));
    } else {
        lemma_chars_from_the_front(front);
        let rest = text.drop_first();
        assert(rest.drop_last() =~= front.drop_first());
        assert(rest.last() == text.last());
        assert(json_chars(text) =~= json_char(text[0]) + (json_chars(front.drop_first())
            + json_char(text.last())));
    }
}

proof fn lemma_literals_part(a: Seq<char>, b: Seq<char>, x: Seq<char>, y: Seq<char>)
    requires
        json_chars(a) + seq!['"'] + x == json_chars(b) + seq!['"'] + y,
    ensures
        a == b,
        x == y,
    decreases a.len(),
{
    let left = json_chars(a) + seq!['"'] + x;
    let right = json_chars(b) + seq!['"'] + y;
    if a.len() > 0 {
        lemma_chars_from_the_front(a);
        lemma_json_char(a[0]);
        assert(left[0] == json_char(a[0])[0]);
    } else {
        assert(left[0] == '"');
    }
    if b.len() > 0 {
        lemma_chars_from_the_front(b);
        lemma_json_char(b[0]);
        assert(right[0] == json_char(b[0])[0]);
    } else {
        assert(right[0] == '"');
    }
    if a.len() == 0 {
        assert(a =~= b);
        assert(x =~= left.skip(1));
        assert(y =~= right.skip(1));
    } else {
        let tail = json_chars(a.drop_first()) + seq!['"'] + x;
        let other = json_chars(b.drop_first()) + seq!['"'] + y;
        assert(left =~= json_char(a[0]) + tail);
        assert(right =~= json_char(b[0]) + other);
        lemma_chars_part(a[0], b[0], tail, other);
        lemma_literals_part(a.drop_first(), b.drop_first(), x, y);
        assert(a =~= seq![a[0]] + a.drop_first());
        assert(b =~= seq![b[0]] + b.drop_first());
    }
}

/// A string literal of JSON ends where its text does, and tells the text.
pub proof fn lemma_quoted_part(a: Seq<char>, b: Seq<char>, x: Seq<char>, y: Seq<char>)
    requires
        json_quoted(a) + x == json_quoted(b) + y,
    ensures
        a == b,
        x == y,
{
    reveal_strlit("\"");
    let left = json_quoted(a) + x;
    let right = json_quoted(b) + y;
    assert(left.skip(1) =~= json_chars(a) + seq!['"'] + x);
    assert(right.skip(1) =~= json_chars(b) + seq!['"'] + y);
    lemma_literals_part(a, b, x, y);
}

proof fn lemma_digits(n: nat)
    ensures
        digits(n).len() > 0,
        n >= 10 ==> digits(n).len() > 1,
        forall|i: int| 0 <= i < digits(n).len() ==> is_digit(#[trigger] digits(n)[i]),
    decreases n,
{
    if n >= 10 {
        lemma_digits(n / 10);
    }
}

/// The digits tell the number.
proof fn lemma_digits_tell(a: nat, b: nat)
    requires
        digits(a) == digits(b),
    ensures
        a == b,
    decreases a,
{
    lemma_digits(a);
    lemma_digits(b);
    if a >= 10 {
        assert(digits(a).drop_last() =~= digits(a / 10));
        assert(digits(b).drop_last() =~= digits(b / 10));
        lemma_digits_tell(a / 10, b / 10);
        assert(digits(a).last() == digit_char((a % 10) as int));
        assert(digits(b).last() == digit_char((b % 10) as int));
    } else {
        assert(digits(a)[0] == digit_char(a as int));
        assert(digits(b)[0] == digit_char(b as int));
    }
}

/// Whether a character can stand neither at the beginning nor at the end of a text, an array or an
/// object, nor between items.
spec fn plain(c: char) -> bool {
    c != '"' && c != '[' && c != ']' && c != '{' && c != '}' && c != ','
}

/// Whether a value is no text, no array and no object.
spec fn scalar(value: JsonView) -> bool {
    value is Null || value is Bool || value is Number
}

proof fn lemma_scalar(value: JsonView)
    requires
        scalar(value),
        sound(value),
    ensures
        rendered(value).len() > 0,
        forall|i: int| 0 <= i < rendered(value).len() ==> plain(#[trigger] rendered(value)[i]),
{
    reveal_strlit("null");
    reveal_strlit("true");
    reveal_strlit("false");
    match value {
        JsonView::Number(JsonNumberView::Unsigned(n)) => lemma_digits(n as nat),
        JsonView::Number(JsonNumberView::Negative(n)) => lemma_digits((-n) as nat),
        _ => {},
    }
}

/// The text of a value that is no text, no array and no object tells the value.
proof fn lemma_scalars_tell(a: JsonView, b: JsonView)
    requires
        scalar(a),
        scalar(b),
        sound(a),
        sound(b),
        rendered(a) == rendered(b),
    ensures
        a == b,
{
    reveal_strlit("null");
    reveal_strlit("true");
    reveal_strlit("false");
    let text = rendered(a);
    lemma_scalar(a);
    lemma_kind(a);
    lemma_kind(b);
    assert(text[0] == rendered(b)[0]);
    match (a, b) {
        (
            JsonView::Number(JsonNumberView::Unsigned(n)),
            JsonView::Number(JsonNumberView::Unsigned(m)),
        ) => lemma_digits_tell(n as nat, m as nat),
        (
            JsonView::Number(JsonNumberView::Negative(n)),
            JsonView::Number(JsonNumberView::Negative(m)),
        ) => {
            assert(text.drop_first() =~= digits((-n) as nat));
            assert(rendered(b).drop_first() =~= digits((-m) as nat));
            lemma_digits_tell((-n) as nat, (-m) as nat);
        },
        _ => {},
    }
}

/// How the kinds of scalars differ.
proof fn lemma_kind(value: JsonView)
    requires
        scalar(value),
        sound(value),
    ensures
        rendered(value).len() > 0,
        value is Null ==> rendered(value)[0] == 'n',
        value == JsonView::Bool(true) ==> rendered(value)[0] == 't',
        value == JsonView::Bool(false) ==> rendered(value)[0] == 'f',
        value is Number ==> numeral(rendered(value)[0]),
        value is Number && value->Number_0 is Unsigned ==> is_digit(rendered(value)[0])
            && !has_fraction(rendered(value)),
        value is Number && value->Number_0 is Negative ==> rendered(value)[0] == '-'
            && !has_fraction(rendered(value)),
        value is Number && value->Number_0 is Decimal ==> has_fraction(rendered(value)),
{
    reveal_strlit("null");
    reveal_strlit("true");
    reveal_strlit("false");
    match value {
        JsonView::Number(JsonNumberView::Unsigned(n)) => {
            lemma_digits(n as nat);
        },
        JsonView::Number(JsonNumberView::Negative(n)) => {
            lemma_digits((-n) as nat);
            let text = rendered(value);
            let all = digits((-n) as nat);
            assert forall|i: int| 0 < i < text.len() implies is_digit(#[trigger] text[i]) by {
                assert(text[i] == all[i - 1]);
            }
        },
        _ => {},
    }
}

/// With which character the text of a value begins.
proof fn lemma_opening(value: JsonView)
    requires
        sound(value),
    ensures
        rendered(value).len() > 0,
        value is Text ==> rendered(value)[0] == '"',
        value is Array ==> rendered(value)[0] == '[',
        value is Object ==> rendered(value)[0] == '{',
        scalar(value) ==> plain(rendered(value)[0]),
{
    reveal_strlit("\"");
    reveal_strlit("[");
    reveal_strlit("{");
    if scalar(value) {
        lemma_scalar(value);
    }
}

/// Whether a text can stand behind a value within an array or an object.
pub open spec fn closing(text: Seq<char>) -> bool {
    text.len() == 0 || text[0] == ',' || text[0] == ']' || text[0] == '}'
}

proof fn lemma_joined_from_the_front(parts: Seq<Seq<char>>, sep: Seq<char>)
    requires
        parts.len() >= 2,
    ensures
        joined(parts, sep) == parts[0] + sep + joined(parts.drop_first(), sep),
    decreases parts.len(),
{
    let front = parts.drop_last();
    let rest = parts.drop_first();
    if parts.len() == 2 {
        assert(front =~= seq![parts[0]]);
        assert(rest =~= seq![parts[1]]);
        assert(joined(front, sep) == parts[0]);
        assert(joined(rest, sep) == parts[1]);
    } else {
        lemma_joined_from_the_front(front, sep);
        assert(rest.drop_last() =~= front.drop_first());
        assert(rest.last() == parts.last());
        assert(joined(rest, sep) == joined(front.drop_first(), sep) + sep + parts.last());
        assert(joined(parts, sep) =~= parts[0] + sep + (joined(front.drop_first(), sep) + sep
            + parts.last()));
    }
}

/// What stands behind the first of some parts that are joined by commas and then closed.
spec fn behind_first(parts: Seq<Seq<char>>, close: Seq<char>) -> Seq<char> {
    if parts.len() < 2 {
        close
    } else {
        seq![','] + joined(parts.drop_first(), ","@) + close
    }
}

proof fn lemma_behind_first(parts: Seq<Seq<char>>, close: Seq<char>)
    requires
        parts.len() > 0,
    ensures
        joined(parts, ","@) + close == parts[0] + behind_first(parts, close),
{
    reveal_strlit(",");
    if parts.len() >= 2 {
        lemma_joined_from_the_front(parts, ","@);
    }
    assert(joined(parts, ","@) + close =~= parts[0] + behind_first(parts, close));
}

/// The text of a value ends where the value does: two values with what may stand behind them give
/// the same text only where they are the same.
proof fn lemma_values_part(a: JsonView, b: JsonView, x: Seq<char>, y: Seq<char>)
    requires
        sound(a),
        sound(b),
        closing(x),
        closing(y),
        rendered(a) + x == rendered(b) + y,
    ensures
        a == b,
        x == y,
    decreases a,
{
    reveal_strlit("[");
    reveal_strlit("]");
    reveal_strlit("{");
    reveal_strlit("}");
    lemma_opening(a);
    lemma_opening(b);
    let left = rendered(a) + x;
    let right = rendered(b) + y;
    assert(left[0] == rendered(a)[0]);
    assert(right[0] == rendered(b)[0]);
    match (a, b) {
        (JsonView::Text(s), JsonView::Text(t)) => lemma_quoted_part(s, t, x, y),
        (JsonView::Array(items), JsonView::Array(others)) => {
            let end = seq![']'] + x;
            let other_end = seq![']'] + y;
            assert(left.skip(1) =~= joined(rendered_items(items), ","@) + end);
            assert(right.skip(1) =~= joined(rendered_items(others), ","@) + other_end);
            lemma_items_part(items, others, end, other_end);
            assert(x =~= end.skip(1));
            assert(y =~= other_end.skip(1));
        },
        (JsonView::Object(members), JsonView::Object(others)) => {
            let end = seq!['}'] + x;
            let other_end = seq!['}'] + y;
            assert(left.skip(1) =~= joined(rendered_members(members), ","@) + end);
            assert(right.skip(1) =~= joined(rendered_members(others), ","@) + other_end);
            lemma_members_part(members, others, end, other_end);
            assert(x =~= end.skip(1));
            assert(y =~= other_end.skip(1));
        },
        _ => {
            lemma_scalar(a);
            lemma_scalar(b);
            let n = rendered(a).len() as int;
            let m = rendered(b).len() as int;
            if n < m {
                assert(left[n] == x[0]);
                assert(right[n] == rendered(b)[n]);
            }
            if m < n {
                assert(right[m] == y[0]);
                assert(left[m] == rendered(a)[m]);
            }
            assert(rendered(a) =~= left.take(n));
            assert(rendered(b) =~= right.take(m));
            assert(x =~= left.skip(n));
            assert(y =~= right.skip(m));
            lemma_scalars_tell(a, b);
        },
    }
}

proof fn lemma_items_part(a: Seq<JsonView>, b: Seq<JsonView>, x: Seq<char>, y: Seq<char>)
    requires
        forall|i: int| 0 <= i < a.len() ==> sound(#[trigger] a[i]),
        forall|i: int| 0 <= i < b.len() ==> sound(#[trigger] b[i]),
        x.len() > 0 && x[0] == ']',
        y.len() > 0 && y[0] == ']',
        joined(rendered_items(a), ","@) + x == joined(rendered_items(b), ","@) + y,
    ensures
        a == b,
        x == y,
    decreases a,
{
    let left = joined(rendered_items(a), ","@) + x;
    let right = joined(rendered_items(b), ","@) + y;
    let tail = behind_first(rendered_items(a), x);
    let other = behind_first(rendered_items(b), y);
    if a.len() > 0 {
        lemma_behind_first(rendered_items(a), x);
        lemma_opening(a[0]);
        assert(left[0] == rendered(a[0])[0]);
    } else {
        assert(left =~= x);
    }
    if b.len() > 0 {
        lemma_behind_first(rendered_items(b), y);
        lemma_opening(b[0]);
        assert(right[0] == rendered(b[0])[0]);
    } else {
        assert(right =~= y);
    }
    if a.len() > 0 {
        lemma_values_part(a[0], b[0], tail, other);
        assert(a.len() >= 2 ==> tail[0] == ',');
        assert(b.len() >= 2 ==> other[0] == ',');
        if a.len() >= 2 {
            let rest = a.drop_first();
            let others = b.drop_first();
            assert(rendered_items(a).drop_first() =~= rendered_items(rest));
            assert(rendered_items(b).drop_first() =~= rendered_items(others));
            assert(tail.skip(1) =~= joined(rendered_items(rest), ","@) + x);
            assert(other.skip(1) =~= joined(rendered_items(others), ","@) + y);
            assert forall|i: int| 0 <= i < rest.len() implies sound(#[trigger] rest[i]) by {
                assert(rest[i] == a[i + 1]);
            }
            assert forall|i: int| 0 <= i < others.len() implies sound(#[trigger] others[i]) by {
                assert(others[i] == b[i + 1]);
            }
            lemma_items_part(rest, others, x, y);
            assert(a =~= seq![a[0]] + rest);
            assert(b =~= seq![b[0]] + others);
        }
    }
    assert(a =~= b);
}

proof fn lemma_members_part(
    a: Seq<(Seq<char>, JsonView)>,
    b: Seq<(Seq<char>, JsonView)>,
    x: Seq<char>,
    y: Seq<char>,
)
    requires
        forall|i: int| 0 <= i < a.len() ==> sound((#[trigger] a[i]).1),
        forall|i: int| 0 <= i < b.len() ==> sound((#[trigger] b[i]).1),
        x.len() > 0 && x[0] == '}',
        y.len() > 0 && y[0] == '}',
        joined(rendered_members(a), ","@) + x == joined(rendered_members(b), ","@) + y,
    ensures
        a == b,
        x == y,
    decreases a,
{
    reveal_strlit(":");
    reveal_strlit("\"");
    let left = joined(rendered_members(a), ","@) + x;
    let right = joined(rendered_members(b), ","@) + y;
    let tail = behind_first(rendered_members(a), x);
    let other = behind_first(rendered_members(b), y);
    if a.len() > 0 {
        lemma_behind_first(rendered_members(a), x);
        assert(left[0] == '"');
    } else {
        assert(left =~= x);
    }
    if b.len() > 0 {
        lemma_behind_first(rendered_members(b), y);
        assert(right[0] == '"');
    } else {
        assert(right =~= y);
    }
    if a.len() > 0 {
        let value = ":"@ + rendered(a[0].1) + tail;
        let other_value = ":"@ + rendered(b[0].1) + other;
        assert(left =~= json_quoted(a[0].0) + value);
        assert(right =~= json_quoted(b[0].0) + other_value);
        lemma_quoted_part(a[0].0, b[0].0, value, other_value);
        assert(value.skip(1) =~= rendered(a[0].1) + tail);
        assert(other_value.skip(1) =~= rendered(b[0].1) + other);
        lemma_values_part(a[0].1, b[0].1, tail, other);
        assert(a.len() >= 2 ==> tail[0] == ',');
        assert(b.len() >= 2 ==> other[0] == ',');
        if a.len() >= 2 {
            let rest = a.drop_first();
            let others = b.drop_first();
            assert(rendered_members(a).drop_first() =~= rendered_members(rest));
            assert(rendered_members(b).drop_first() =~= rendered_members(others));
            assert(tail.skip(1) =~= joined(rendered_members(rest), ","@) + x);
            assert(other.skip(1) =~= joined(rendered_members(others), ","@) + y);
            assert forall|i: int| 0 <= i < rest.len() implies sound((#[trigger] rest[i]).1) by {
                assert(rest[i] == a[i + 1]);
            }
            assert forall|i: int| 0 <= i < others.len() implies sound(
                (#[trigger] others[i]).1,
            ) by {
                assert(others[i] == b[i + 1]);
            }
            lemma_members_part(rest, others, x, y);
            assert(a =~= seq![a[0]] + rest);
            assert(b =~= seq![b[0]] + others);
        }
    }
    assert(a =~= b);
}

/// The compact text of a value tells the value.
pub proof fn law_the_text_tells_the_value(a: JsonView, b: JsonView)
    requires
        sound(a),
        sound(b),
        rendered(a) == rendered(b),
    ensures
        a == b,
{
    let none = Seq::<char>::empty();
    assert(rendered(a) + none =~= rendered(b) + none);
    lemma_values_part(a, b, none, none);
}

/// The canonical form of a sound value is sound.
pub proof fn lemma_canonical_is_sound(value: JsonView)
    requires
        sound(value),
    ensures
        sound(canonical(value)),
    decreases value,
{
    match value {
        JsonView::Array(items) => {
            assert forall|i: int| 0 <= i < canonical_items(items).len() implies sound(
                #[trigger] canonical_items(items)[i],
            ) by {
                lemma_canonical_is_sound(items[i]);
                assert(canonical_items(items)[i] == canonical(items[i]));
            }
            assert(canonical(value) == JsonView::Array(canonical_items(items)));
        },
        JsonView::Object(members) => {
            broadcast use vstd::seq_lib::group_to_multiset_ensures;

            let all = canonical_members(members);
            let order = sorted_members(all);
            lemma_sorted_by(all, by_key());
            assert forall|i: int| 0 <= i < order.len() implies sound((#[trigger] order[i]).1) by {
                assert(order.contains(order[i]));
                assert(order.to_multiset().count(order[i]) > 0);
                assert(all.contains(order[i]));
                let j = choose|j: int| 0 <= j < all.len() && all[j] == order[i];
                assert(all[j].1 == canonical(members[j].1));
                lemma_canonical_is_sound(members[j].1);
            }
        },
        _ => {},
    }
}

/// Whether no two members have the same name.
pub open spec fn distinct_names(members: Seq<(Seq<char>, JsonView)>) -> bool {
    forall|i: int, j: int|
        0 <= i < j < members.len() ==> (#[trigger] members[i]).0 != (#[trigger] members[j]).0
}

/// Objects with the same canonical form agree on the member of a name.
pub proof fn lemma_members_agree(
    a: Seq<(Seq<char>, JsonView)>,
    b: Seq<(Seq<char>, JsonView)>,
    i: int,
    j: int,
)
    requires
        canonical(JsonView::Object(a)) == canonical(JsonView::Object(b)),
        distinct_names(b),
        0 <= i < a.len(),
        0 <= j < b.len(),
        a[i].0 == b[j].0,
    ensures
        canonical(a[i].1) == canonical(b[j].1),
{
    broadcast use vstd::seq_lib::group_to_multiset_ensures;

    let ours = canonical_members(a);
    let theirs = canonical_members(b);
    lemma_sorted_by(ours, by_key());
    lemma_sorted_by(theirs, by_key());
    assert(sorted_members(ours) == sorted_members(theirs));
    assert(ours[i] == (a[i].0, canonical(a[i].1)));
    assert(ours.contains(ours[i]));
    assert(ours.to_multiset().count(ours[i]) > 0);
    assert(theirs.contains(ours[i]));
    let k = choose|k: int| 0 <= k < theirs.len() && theirs[k] == ours[i];
    assert(b[k].0 == b[j].0);
    assert(theirs[j] == (b[j].0, canonical(b[j].1)));
}

/// The text of a canonical form tells the canonical form.
pub proof fn law_the_canonical_text_tells_the_canonical_form(a: JsonView, b: JsonView)
    requires
        sound(a),
        sound(b),
        rendered(canonical(a)) == rendered(canonical(b)),
    ensures
        canonical(a) == canonical(b),
{
    lemma_canonical_is_sound(a);
    lemma_canonical_is_sound(b);
    law_the_text_tells_the_value(canonical(a), canonical(b));
}

} // verus!
