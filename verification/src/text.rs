//! Text, put together from pieces.
use vstd::prelude::*;
use vstd::string::*;

verus! {

/// The pieces, one after another.
pub open spec fn cat_spec(pieces: Seq<Seq<char>>) -> Seq<char>
    decreases pieces.len(),
{
    if pieces.len() == 0 {
        Seq::empty()
    } else {
        cat_spec(pieces.drop_last()) + pieces.last()
    }
}

/// What the pieces say.
pub open spec fn views(pieces: Seq<&str>) -> Seq<Seq<char>> {
    Seq::new(pieces.len(), |i: int| pieces[i]@)
}

/// The pieces, one after another.
pub(crate) fn cat(pieces: Vec<&str>) -> (r: String)
    ensures
        r@ == cat_spec(views(pieces@)),
{
    let mut r = String::new();
    let mut i: usize = 0;
    while i < pieces.len()
        invariant
            i <= pieces@.len(),
            r@ == cat_spec(views(pieces@).take(i as int)),
        decreases pieces.len() - i,
    {
        r.append(pieces[i]);
        proof {
            let grown = views(pieces@).take(i + 1);
            assert(grown.drop_last() =~= views(pieces@).take(i as int));
            assert(grown.last() == pieces@[i as int]@);
        }
        i += 1;
    }
    assert(views(pieces@).take(pieces@.len() as int) =~= views(pieces@));
    r
}

/// Whether two texts are the same.
pub(crate) fn same_text(a: &str, b: &str) -> (r: bool)
    ensures
        r == (a@ == b@),
{
    a.to_owned() == b.to_owned()
}

/// A decimal digit.
pub open spec fn digit_spec(d: nat) -> char {
    ('0' as u32 + d) as char
}

/// A number in decimal.
pub open spec fn decimal_spec(n: nat) -> Seq<char>
    decreases n,
{
    if n < 10 {
        seq![digit_spec(n)]
    } else {
        decimal_spec(n / 10).push(digit_spec(n % 10))
    }
}

fn digit(d: u64) -> (r: &'static str)
    requires
        d < 10,
    ensures
        r@ == seq![digit_spec(d as nat)],
{
    proof {
        reveal_strlit("0");
        reveal_strlit("1");
        reveal_strlit("2");
        reveal_strlit("3");
        reveal_strlit("4");
        reveal_strlit("5");
        reveal_strlit("6");
        reveal_strlit("7");
        reveal_strlit("8");
        reveal_strlit("9");
    }
    let r = match d {
        0 => "0",
        1 => "1",
        2 => "2",
        3 => "3",
        4 => "4",
        5 => "5",
        6 => "6",
        7 => "7",
        8 => "8",
        _ => "9",
    };
    assert(r@ =~= seq![digit_spec(d as nat)]);
    r
}

/// A number in decimal.
pub fn decimal(n: u64) -> (r: String)
    ensures
        r@ == decimal_spec(n as nat),
{
    let mut r = digit(n % 10).to_owned();
    let mut rest: u64 = n / 10;
    proof {
        if n < 10 {
            assert(r@ =~= decimal_spec(n as nat));
        } else {
            assert(decimal_spec(rest as nat) + r@ =~= decimal_spec(n as nat));
        }
    }
    while rest > 0
        invariant
            rest > 0 ==> decimal_spec(rest as nat) + r@ == decimal_spec(n as nat),
            rest == 0 ==> r@ == decimal_spec(n as nat),
        decreases rest,
    {
        let ghost tail = r@;
        let next = digit(rest % 10).to_owned().concat(r.as_str());
        proof {
            if rest < 10 {
                assert(next@ =~= decimal_spec(rest as nat) + tail);
            } else {
                assert(decimal_spec((rest / 10) as nat) + next@ =~= decimal_spec(rest as nat)
                    + tail);
            }
        }
        r = next;
        rest = rest / 10;
    }
    r
}

/// `n` copies of `0`.
pub open spec fn zeros_spec(n: nat) -> Seq<char> {
    Seq::new(n, |i: int| '0')
}

/// `n` copies of `0`.
pub(crate) fn zeros(n: usize) -> (r: String)
    ensures
        r@ == zeros_spec(n as nat),
{
    proof {
        reveal_strlit("0");
    }
    let mut r = String::new();
    assert(r@ =~= zeros_spec(0));
    let mut i: usize = 0;
    while i < n
        invariant
            i <= n,
            r@ == zeros_spec(i as nat),
            "0"@ =~= seq!['0'],
        decreases n - i,
    {
        r.append("0");
        assert(r@ =~= zeros_spec((i + 1) as nat));
        i += 1;
    }
    r
}

/// `n` spaces.
pub open spec fn spaces_spec(n: nat) -> Seq<char> {
    Seq::new(n, |i: int| ' ')
}

/// `n` spaces.
pub(crate) fn spaces(n: usize) -> (r: String)
    ensures
        r@ == spaces_spec(n as nat),
{
    proof {
        reveal_strlit(" ");
    }
    let mut r = String::new();
    assert(r@ =~= spaces_spec(0));
    let mut i: usize = 0;
    while i < n
        invariant
            i <= n,
            r@ == spaces_spec(i as nat),
            " "@ =~= seq![' '],
        decreases n - i,
    {
        r.append(" ");
        assert(r@ =~= spaces_spec((i + 1) as nat));
        i += 1;
    }
    r
}

/// How many columns `s` leaves of `width`.
pub open spec fn slack(s: Seq<char>, width: nat) -> nat {
    if s.len() < width {
        (width - s.len()) as nat
    } else {
        0
    }
}

/// `s`, right-aligned.
pub open spec fn right_spec(s: Seq<char>, width: nat) -> Seq<char> {
    spaces_spec(slack(s, width)) + s
}

/// `s`, left-aligned.
pub open spec fn left_spec(s: Seq<char>, width: nat) -> Seq<char> {
    s + spaces_spec(slack(s, width))
}

/// `s`, right-aligned in `width` columns.
pub fn right(s: &str, width: usize) -> (r: String)
    ensures
        r@ == right_spec(s@, width as nat),
{
    let len = s.unicode_len();
    let pad: usize = if len < width {
        width - len
    } else {
        0
    };
    spaces(pad).concat(s)
}

/// `s`, left-aligned in `width` columns.
pub fn left(s: &str, width: usize) -> (r: String)
    ensures
        r@ == left_spec(s@, width as nat),
{
    let len = s.unicode_len();
    let pad: usize = if len < width {
        width - len
    } else {
        0
    };
    s.to_owned().concat(spaces(pad).as_str())
}

/// Whether `c` is a decimal digit.
pub open spec fn is_digit(c: char) -> bool {
    '0' <= c <= '9'
}

/// The number that a row of digits stands for.
pub open spec fn value_spec(s: Seq<char>) -> nat
    decreases s.len(),
{
    if s.len() == 0 {
        0
    } else {
        10 * value_spec(s.drop_last()) + (s.last() as u32 - '0' as u32) as nat
    }
}

/// The number that `s` writes in decimal, if it does and it fits.
pub open spec fn parse_decimal_spec(s: Seq<char>) -> Option<u64> {
    if s.len() > 0 && (forall|i: int| 0 <= i < s.len() ==> is_digit(#[trigger] s[i])) && value_spec(
        s,
    ) <= u64::MAX {
        Some(value_spec(s) as u64)
    } else {
        None
    }
}

/// A longer row of digits stands for no smaller a number.
proof fn lemma_value_grows(s: Seq<char>, k: int)
    requires
        0 <= k <= s.len(),
    ensures
        value_spec(s.take(k)) <= value_spec(s),
    decreases s.len() - k,
{
    if k == s.len() {
        assert(s.take(k) =~= s);
    } else {
        lemma_value_grows(s, k + 1);
        assert(s.take(k + 1).drop_last() =~= s.take(k));
    }
}

/// The number that `s` writes in decimal, if it does and it fits.
pub fn parse_decimal(s: &str) -> (r: Option<u64>)
    ensures
        r == parse_decimal_spec(s@),
{
    let n = s.unicode_len();
    if n == 0 {
        return None;
    }
    let mut value: u64 = 0;
    let mut i: usize = 0;
    assert(s@.take(0) =~= Seq::empty());
    while i < n
        invariant
            i <= n,
            n == s@.len(),
            n > 0,
            value == value_spec(s@.take(i as int)),
            forall|j: int| 0 <= j < i ==> is_digit(#[trigger] s@[j]),
        decreases n - i,
    {
        let c = s.get_char(i);
        if !('0' <= c && c <= '9') {
            assert(!is_digit(s@[i as int]));
            return None;
        }
        let d: u64 = (c as u32 - '0' as u32) as u64;
        proof {
            assert(s@.take(i + 1).drop_last() =~= s@.take(i as int));
            assert(s@.take(i + 1).last() == c);
            lemma_value_grows(s@, i + 1);
        }
        if value > (u64::MAX - d) / 10 {
            assert(10 * value + d > u64::MAX);
            return None;
        }
        value = 10 * value + d;
        i += 1;
    }
    assert(s@.take(n as int) =~= s@);
    Some(value)
}

/// Writing a number and reading it again gives the number.
pub proof fn decimal_reads_back(n: u64)
    ensures
        parse_decimal_spec(decimal_spec(n as nat)) == Some(n),
{
    lemma_decimal_digits(n as nat);
}

proof fn lemma_decimal_digits(n: nat)
    ensures
        decimal_spec(n).len() > 0,
        forall|i: int|
            0 <= i < decimal_spec(n).len() ==> is_digit(#[trigger] decimal_spec(n)[i]),
        value_spec(decimal_spec(n)) == n,
    decreases n,
{
    let s = decimal_spec(n);
    let d = digit_spec(n % 10);
    assert(n % 10 < 10);
    assert(is_digit(d) && d as u32 - '0' as u32 == n % 10);
    if n < 10 {
        assert(s.drop_last() =~= Seq::empty());
        assert(value_spec(s.drop_last()) == 0);
    } else {
        lemma_decimal_digits(n / 10);
        assert(s.drop_last() =~= decimal_spec(n / 10));
    }
}

/// Where `stop` first stands in `s`; its end where nowhere.
pub open spec fn run_spec(s: Seq<char>, stop: char) -> int
    decreases s.len(),
{
    if s.len() == 0 || s[0] == stop {
        0
    } else {
        1 + run_spec(s.drop_first(), stop)
    }
}

/// Where a run ends.
pub(crate) proof fn lemma_run(s: Seq<char>, stop: char, k: int)
    requires
        0 <= k <= s.len(),
        forall|i: int| 0 <= i < k ==> #[trigger] s[i] != stop,
        k == s.len() || s[k] == stop,
    ensures
        run_spec(s, stop) == k,
    decreases s.len(),
{
    if k > 0 {
        assert(s[0] != stop);
        let rest = s.drop_first();
        assert forall|i: int| 0 <= i < k - 1 implies #[trigger] rest[i] != stop by {
            assert(rest[i] == s[i + 1]);
        }
        lemma_run(rest, stop, k - 1);
    }
}

/// Splits `s` where `stop` first stands.
pub(crate) fn split_at_char<'a>(s: &'a str, stop: char) -> (r: (&'a str, &'a str))
    ensures
        0 <= run_spec(s@, stop) <= s@.len(),
        r.0@ == s@.take(run_spec(s@, stop)),
        r.1@ == s@.skip(run_spec(s@, stop)),
{
    let n = s.unicode_len();
    let mut k: usize = 0;
    while k < n && s.get_char(k) != stop
        invariant
            k <= n,
            n == s@.len(),
            forall|i: int| 0 <= i < k ==> #[trigger] s@[i] != stop,
        decreases n - k,
    {
        k += 1;
    }
    proof {
        lemma_run(s@, stop, k as int);
        assert(s@.subrange(0, k as int) =~= s@.take(k as int));
        assert(s@.subrange(k as int, n as int) =~= s@.skip(k as int));
    }
    (s.substring_char(0, k), s.substring_char(k, n))
}

/// What follows `lit`, where `s` begins with it.
pub open spec fn eat_spec(s: Seq<char>, lit: Seq<char>) -> Option<Seq<char>> {
    if lit.len() <= s.len() && s.take(lit.len() as int) == lit {
        Some(s.skip(lit.len() as int))
    } else {
        None
    }
}

/// What follows `lit`, where `s` begins with it.
pub(crate) fn eat<'a>(s: &'a str, lit: &str) -> (r: Option<&'a str>)
    ensures
        match r {
            Some(rest) => eat_spec(s@, lit@) == Some(rest@),
            None => eat_spec(s@, lit@) is None,
        },
{
    let n = s.unicode_len();
    let k = lit.unicode_len();
    if n < k {
        return None;
    }
    assert(s@.subrange(0, k as int) =~= s@.take(k as int));
    assert(s@.subrange(k as int, n as int) =~= s@.skip(k as int));
    if same_text(s.substring_char(0, k), lit) {
        Some(s.substring_char(k, n))
    } else {
        None
    }
}

/// The fields of a line that alternates given texts and fields: a field runs up
/// to the first character of the text after it. Also what follows the line.
pub open spec fn fields_spec(
    s: Seq<char>,
    lits: Seq<Seq<char>>,
    found: Seq<Seq<char>>,
) -> Option<(Seq<Seq<char>>, Seq<char>)>
    decreases lits.len(),
{
    if lits.len() == 0 {
        Some((found, s))
    } else {
        match eat_spec(s, lits[0]) {
            None => None,
            Some(rest) => if lits.len() == 1 {
                Some((found, rest))
            } else {
                let k = run_spec(rest, lits[1][0]);
                fields_spec(rest.skip(k), lits.drop_first(), found.push(rest.take(k)))
            },
        }
    }
}

/// What follows a line is no longer than the line and what follows it.
pub proof fn lemma_fields_consume(
    s: Seq<char>,
    lits: Seq<Seq<char>>,
    found: Seq<Seq<char>>,
)
    ensures
        fields_spec(s, lits, found) matches Some((_, rest)) ==> rest.len() <= s.len(),
    decreases lits.len(),
{
    if lits.len() > 0 {
        if let Some(rest) = eat_spec(s, lits[0]) {
            if lits.len() > 1 {
                let k = run_spec(rest, lits[1][0]);
                lemma_run_bound(rest, lits[1][0]);
                lemma_fields_consume(rest.skip(k), lits.drop_first(), found.push(rest.take(k)));
            }
        }
    }
}

pub(crate) proof fn lemma_run_bound(s: Seq<char>, stop: char)
    ensures
        0 <= run_spec(s, stop) <= s.len(),
    decreases s.len(),
{
    if s.len() > 0 && s[0] != stop {
        lemma_run_bound(s.drop_first(), stop);
    }
}

/// There is a field between each two texts.
pub(crate) proof fn lemma_fields_count(
    s: Seq<char>,
    lits: Seq<Seq<char>>,
    found: Seq<Seq<char>>,
)
    requires
        lits.len() > 0,
    ensures
        fields_spec(s, lits, found) matches Some((all, _)) ==> all.len() == found.len()
            + lits.len() - 1,
    decreases lits.len(),
{
    if let Some(rest) = eat_spec(s, lits[0]) {
        if lits.len() > 1 {
            let k = run_spec(rest, lits[1][0]);
            lemma_fields_count(rest.skip(k), lits.drop_first(), found.push(rest.take(k)));
        }
    }
}

/// The fields of a line that alternates given texts and fields.
pub(crate) fn fields<'a>(s: &'a str, lits: &[&'static str]) -> (r: Option<
    (Vec<&'a str>, &'a str),
>)
    requires
        forall|i: int| 0 < i < lits@.len() ==> (#[trigger] lits@[i])@.len() > 0,
    ensures
        match r {
            Some((found, rest)) => fields_spec(s@, views(lits@), Seq::empty()) == Some(
                (views(found@), rest@),
            ),
            None => fields_spec(s@, views(lits@), Seq::empty()) is None,
        },
{
    let mut found: Vec<&'a str> = Vec::new();
    let mut rest: &'a str = s;
    let mut i: usize = 0;
    let ghost whole = fields_spec(s@, views(lits@), Seq::empty());
    assert(views(lits@).skip(0) =~= views(lits@));
    assert(views(found@) =~= Seq::empty());
    while i < lits.len()
        invariant
            i <= lits@.len(),
            forall|i: int| 0 < i < lits@.len() ==> (#[trigger] lits@[i])@.len() > 0,
            whole == fields_spec(s@, views(lits@), Seq::empty()),
            whole == fields_spec(rest@, views(lits@).skip(i as int), views(found@)),
        decreases lits.len() - i,
    {
        let ghost left = views(lits@).skip(i as int);
        assert(left[0] == lits@[i as int]@);
        match eat(rest, lits[i]) {
            None => {
                return None;
            },
            Some(after) => {
                if i + 1 < lits.len() {
                    let (field, behind) = split_at_char(after, lits[i + 1].get_char(0));
                    let ghost before = views(found@);
                    found.push(field);
                    rest = behind;
                    proof {
                        assert(left[1] == lits@[i + 1]@);
                        assert(left.drop_first() =~= views(lits@).skip(i + 1));
                        assert(views(found@) =~= before.push(field@));
                    }
                } else {
                    rest = after;
                    assert(views(lits@).skip(i + 1) =~= Seq::empty());
                }
            },
        }
        i += 1;
    }
    Some((found, rest))
}

} // verus!
