//! JSON: what its texts are, as syntax trees.
//!
//! A tree holds everything that stands in the text but the punctuation, white
//! space included. A text is JSON where it is the text of a well-formed tree.
use crate::text::{decimal_spec, digit_spec, is_digit};
use vstd::prelude::*;

verus! {

/// A value.
pub enum Value {
    /// `true`, `false` or `null`.
    Word(Seq<char>),
    Number(Seq<char>),
    /// What stands between the quotes.
    Text(Seq<char>),
    /// The blanks of an empty list, and the elements of another.
    List(Seq<char>, Seq<Element>),
    /// The blanks of an empty object, and the members of another.
    Object(Seq<char>, Seq<Member>),
}

/// A value, with the blanks around it.
pub struct Element {
    pub before: Seq<char>,
    pub value: Value,
    pub after: Seq<char>,
}

/// A key, with the blanks around it, and its element.
pub struct Member {
    pub before: Seq<char>,
    pub key: Seq<char>,
    pub after: Seq<char>,
    pub element: Element,
}

/// `s` in quotes.
pub open spec fn quoted(s: Seq<char>) -> Seq<char> {
    seq!['"'] + (s + seq!['"'])
}

/// The text of a value.
pub open spec fn value_text(v: Value) -> Seq<char>
    decreases v, 0int,
{
    match v {
        Value::Word(s) => s,
        Value::Number(s) => s,
        Value::Text(s) => quoted(s),
        Value::List(gap, items) => seq!['['] + ((if items.len() == 0 {
            gap
        } else {
            items_text(items, 0)
        }) + seq![']']),
        Value::Object(gap, members) => seq!['{'] + ((if members.len() == 0 {
            gap
        } else {
            members_text(members, 0)
        }) + seq!['}']),
    }
}

/// The text of an element.
pub open spec fn element_text(e: Element) -> Seq<char>
    decreases e, 0int,
{
    e.before + (value_text(e.value) + e.after)
}

/// The text of a member.
pub open spec fn member_text(m: Member) -> Seq<char>
    decreases m, 0int,
{
    m.before + (quoted(m.key) + (m.after + (seq![':'] + element_text(m.element))))
}

/// The elements from `i` on, with a comma between each two.
pub open spec fn items_text(items: Seq<Element>, i: int) -> Seq<char>
    decreases items, items.len() - i,
{
    if 0 <= i < items.len() {
        element_text(items[i]) + (if i + 1 < items.len() {
            seq![','] + items_text(items, i + 1)
        } else {
            Seq::empty()
        })
    } else {
        Seq::empty()
    }
}

/// The members from `i` on, with a comma between each two.
pub open spec fn members_text(members: Seq<Member>, i: int) -> Seq<char>
    decreases members, members.len() - i,
{
    if 0 <= i < members.len() {
        member_text(members[i]) + (if i + 1 < members.len() {
            seq![','] + members_text(members, i + 1)
        } else {
            Seq::empty()
        })
    } else {
        Seq::empty()
    }
}

/// White space.
pub open spec fn is_blank(s: Seq<char>) -> bool {
    forall|i: int|
        0 <= i < s.len() ==> #[trigger] s[i] == ' ' || s[i] == '\t' || s[i] == '\n' || s[i] == '\r'
}

/// One digit or more.
pub open spec fn is_digits(s: Seq<char>) -> bool {
    &&& s.len() > 0
    &&& forall|i: int| 0 <= i < s.len() ==> is_digit(#[trigger] s[i])
}

/// `s` is a number of these parts: an optional sign, digits without a leading
/// zero, an optional fraction and an optional exponent.
pub open spec fn has_parts(
    s: Seq<char>,
    sign: Seq<char>,
    whole: Seq<char>,
    fraction: Seq<char>,
    exponent: Seq<char>,
) -> bool {
    &&& s == sign + whole + fraction + exponent
    &&& sign.len() == 0 || sign == seq!['-']
    &&& is_digits(whole)
    &&& whole.len() > 1 ==> whole[0] != '0'
    &&& fraction.len() == 0 || fraction[0] == '.' && is_digits(fraction.skip(1))
    &&& exponent.len() == 0 || (exponent[0] == 'e' || exponent[0] == 'E') && (is_digits(
        exponent.skip(1),
    ) || exponent.len() > 1 && (exponent[1] == '+' || exponent[1] == '-') && is_digits(
        exponent.skip(2),
    ))
}

/// A number.
pub open spec fn is_number(s: Seq<char>) -> bool {
    exists|sign: Seq<char>, whole: Seq<char>, fraction: Seq<char>, exponent: Seq<char>|
        #[trigger] has_parts(s, sign, whole, fraction, exponent)
}

/// A hexadecimal digit.
pub open spec fn is_hex(c: char) -> bool {
    is_digit(c) || 'a' <= c <= 'f' || 'A' <= c <= 'F'
}

/// What a backslash escapes, but for `u`.
pub open spec fn is_escape(c: char) -> bool {
    c == '"' || c == '\\' || c == '/' || c == 'b' || c == 'f' || c == 'n' || c == 'r' || c == 't'
}

/// What may stand between quotes: escapes, and characters that need none.
pub open spec fn is_text(s: Seq<char>) -> bool
    decreases s.len(),
{
    if s.len() == 0 {
        true
    } else if s[0] == '\\' {
        ||| s.len() >= 2 && is_escape(s[1]) && is_text(s.skip(2))
        ||| s.len() >= 6 && s[1] == 'u' && is_hex(s[2]) && is_hex(s[3]) && is_hex(s[4]) && is_hex(
            s[5],
        ) && is_text(s.skip(6))
    } else {
        s[0] != '"' && s[0] as u32 >= 0x20 && is_text(s.skip(1))
    }
}

/// A well-formed value.
pub open spec fn value_ok(v: Value) -> bool
    decreases v,
{
    match v {
        Value::Word(s) => s == "true"@ || s == "false"@ || s == "null"@,
        Value::Number(s) => is_number(s),
        Value::Text(s) => is_text(s),
        Value::List(gap, items) => is_blank(gap) && forall|i: int|
            0 <= i < items.len() ==> element_ok(#[trigger] items[i]),
        Value::Object(gap, members) => is_blank(gap) && forall|i: int|
            0 <= i < members.len() ==> member_ok(#[trigger] members[i]),
    }
}

/// A well-formed element.
pub open spec fn element_ok(e: Element) -> bool
    decreases e,
{
    is_blank(e.before) && is_blank(e.after) && value_ok(e.value)
}

/// A well-formed member.
pub open spec fn member_ok(m: Member) -> bool
    decreases m,
{
    is_blank(m.before) && is_blank(m.after) && is_text(m.key) && element_ok(m.element)
}

/// One JSON value, and nothing but blanks around it.
pub open spec fn is_json(s: Seq<char>) -> bool {
    exists|e: Element| element_ok(e) && #[trigger] element_text(e) == s
}

/// The keys of an object, in order.
pub open spec fn keys_of(v: Value) -> Seq<Seq<char>> {
    match v {
        Value::Object(_, members) => Seq::new(members.len(), |i: int| members[i].key),
        _ => Seq::empty(),
    }
}

/// The values of a list or of an object, in order.
pub open spec fn parts_of(v: Value) -> Seq<Value> {
    match v {
        Value::List(_, items) => Seq::new(items.len(), |i: int| items[i].value),
        Value::Object(_, members) => Seq::new(members.len(), |i: int| members[i].element.value),
        _ => Seq::empty(),
    }
}

/// Characters that are no quote, no backslash and no control character need no
/// escape.
pub proof fn plain_characters_are_text(s: Seq<char>)
    requires
        forall|i: int|
            0 <= i < s.len() ==> #[trigger] s[i] != '"' && s[i] != '\\' && s[i] as u32 >= 0x20,
    ensures
        is_text(s),
    decreases s.len(),
{
    if s.len() > 0 {
        assert(s[0] != '"');
        assert forall|i: int| 0 <= i < s.skip(1).len() implies #[trigger] s.skip(1)[i] != '"'
            && s.skip(1)[i] != '\\' && s.skip(1)[i] as u32 >= 0x20 by {
            assert(s.skip(1)[i] == s[i + 1]);
        }
        plain_characters_are_text(s.skip(1));
    }
}

/// A whole number in decimal has digits only, and no leading zero.
pub(crate) proof fn lemma_decimal(n: nat)
    ensures
        is_digits(decimal_spec(n)),
        decimal_spec(n)[0] == '0' <==> n == 0,
        decimal_spec(n).len() > 1 ==> n >= 10,
    decreases n,
{
    if n < 10 {
        assert(is_digit(digit_spec(n)));
    } else {
        lemma_decimal(n / 10);
        assert(is_digit(digit_spec(n % 10)));
        let head = decimal_spec(n / 10);
        assert(decimal_spec(n)[0] == head[0]);
        assert forall|i: int| 0 <= i < decimal_spec(n).len() implies is_digit(
            #[trigger] decimal_spec(n)[i],
        ) by {
            if i < head.len() {
                assert(decimal_spec(n)[i] == head[i]);
            }
        }
    }
}

/// Decimals are numbers, and stay numbers with digits behind a point.
pub proof fn decimals_are_numbers(n: nat, digits: Seq<char>)
    ensures
        is_number(decimal_spec(n)),
        is_digits(digits) ==> is_number(decimal_spec(n) + (seq!['.'] + digits)),
{
    lemma_decimal(n);
    let none = Seq::<char>::empty();
    let whole = decimal_spec(n);
    assert(none + whole + none + none =~= whole);
    assert(has_parts(whole, none, whole, none, none));
    if is_digits(digits) {
        let fraction = seq!['.'] + digits;
        assert(fraction.skip(1) =~= digits);
        assert(none + whole + fraction + none =~= whole + fraction);
        assert(has_parts(whole + fraction, none, whole, fraction, none));
    }
}

} // verus!
