//! Whole numbers written in decimal.

use vstd::prelude::*;
use std::num::ParseIntError;

verus! {

/// What `str::parse` reports when a text is no number of the type asked for.
#[verifier::external_type_specification]
#[verifier::external_body]
pub struct ExParseIntError(ParseIntError);

/// The decimal digit for `d`.
pub open spec fn digit_char(d: int) -> char {
    ('0' as int + d) as char
}

/// `n` in decimal, without leading zeros.
pub open spec fn decimal(n: nat) -> Seq<char>
    decreases n,
{
    if n < 10 {
        seq![digit_char(n as int)]
    } else {
        decimal(n / 10).push(digit_char((n % 10) as int))
    }
}

/// `n` in decimal, with a minus sign in front where `n` is negative.
pub open spec fn signed_decimal(n: int) -> Seq<char> {
    if n < 0 {
        seq!['-'] + decimal((-n) as nat)
    } else {
        decimal(n as nat)
    }
}

/// Whether `s` is made of decimal digits alone.
pub open spec fn all_digits(s: Seq<char>) -> bool {
    forall|i: int| 0 <= i < s.len() ==> '0' <= #[trigger] s[i] <= '9'
}

/// The number that a sequence of decimal digits stands for.
pub open spec fn digits_value(s: Seq<char>) -> nat
    decreases s.len(),
{
    if s.len() == 0 {
        0
    } else {
        (10 * digits_value(s.drop_last()) + (s.last() as int - '0' as int)) as nat
    }
}

/// The number written as one or more decimal digits.
pub open spec fn magnitude(s: Seq<char>) -> Option<int> {
    if s.len() > 0 && all_digits(s) {
        Some(digits_value(s) as int)
    } else {
        None
    }
}

/// The number written as one or more decimal digits, after a plus sign or none.
pub open spec fn unsigned_number(s: Seq<char>) -> Option<int> {
    if s.len() > 0 && s[0] == '+' {
        magnitude(s.drop_first())
    } else {
        magnitude(s)
    }
}

/// The number written as one or more decimal digits, after a plus sign, a minus sign or none.
pub open spec fn signed_number(s: Seq<char>) -> Option<int> {
    if s.len() > 0 && s[0] == '-' {
        match magnitude(s.drop_first()) {
            Some(n) => Some(-n),
            None => None,
        }
    } else {
        unsigned_number(s)
    }
}

/// The error that `str::parse` for `usize` gives on the text `s`.
pub uninterp spec fn usize_error(s: Seq<char>) -> ParseIntError;

/// `str::parse` for `usize`: it succeeds on an optional plus sign followed by digits only, when
/// the number fits, and gives that number. The error it gives otherwise rests on the text alone.
#[verifier::external_body]
pub(crate) fn parse_usize(s: &str) -> (r: Result<usize, ParseIntError>)
    ensures
        match r {
            Ok(v) => unsigned_number(s@) == Some(v as int),
            Err(e) => {
                &&& unsigned_number(s@) matches Some(n) ==> n > usize::MAX
                &&& e == usize_error(s@)
            },
        },
{
    s.parse::<usize>()
}

/// `str::parse` for `i32`: it succeeds on an optional plus or minus sign followed by digits only,
/// when the number fits, and gives that number. Which error it gives otherwise is left unsaid.
#[verifier::external_body]
pub(crate) fn parse_i32(s: &str) -> (r: Result<i32, ParseIntError>)
    ensures
        match r {
            Ok(v) => signed_number(s@) == Some(v as int),
            Err(_) => signed_number(s@) matches Some(n) ==> !(i32::MIN <= n <= i32::MAX),
        },
{
    s.parse::<i32>()
}

/// The decimal digit for `d`, as a string.
fn digit(d: u64) -> (r: &'static str)
    requires
        d < 10,
    ensures
        r@ == seq![digit_char(d as int)],
{
    proof {
        reveal_strlit("0");
        reveal_strlit("1");
        reveal_strlit("2");
        reveal_strlit("3");
        reveal_strlit("4");
        reveal_strlit("5");
        reveal_strlit("6");
        reveal_strlit("7");
        reveal_strlit("8");
        reveal_strlit("9");
    }
    let r: &'static str = if d == 0 {
        "0"
    } else if d == 1 {
        "1"
    } else if d == 2 {
        "2"
    } else if d == 3 {
        "3"
    } else if d == 4 {
        "4"
    } else if d == 5 {
        "5"
    } else if d == 6 {
        "6"
    } else if d == 7 {
        "7"
    } else if d == 8 {
        "8"
    } else {
        "9"
    };
    assert(r@.len() == 1);
    assert(r@[0] == digit_char(d as int));
    r
}

/// Appends `n` in decimal.
pub fn push_decimal(out: &mut String, n: u64)
    ensures
        final(out)@ == old(out)@ + decimal(n as nat),
    decreases n,
{
    if n >= 10 {
        push_decimal(out, n / 10);
    }
    out.append(digit(n % 10));
    assert(out@ == old(out)@ + decimal(n as nat));
}

/// Appends `n` in decimal, with a minus sign in front where `n` is negative.
pub fn push_signed(out: &mut String, n: i32)
    ensures
        final(out)@ == old(out)@ + signed_decimal(n as int),
{
    let wide: i64 = n as i64;
    if wide < 0 {
        proof {
            reveal_strlit("-");
        }
        out.append("-");
        push_decimal(out, (-wide) as u64);
        assert(out@ == old(out)@ + signed_decimal(n as int));
    } else {
        push_decimal(out, wide as u64);
    }
}

proof fn lemma_decimal_digits(n: nat)
    ensures
        decimal(n).len() > 0,
        all_digits(decimal(n)),
        digits_value(decimal(n)) == n,
    decreases n,
{
    if n < 10 {
        assert(decimal(n).drop_last() == Seq::<char>::empty());
        assert(digits_value(Seq::<char>::empty()) == 0);
    } else {
        lemma_decimal_digits(n / 10);
        assert(decimal(n).drop_last() == decimal(n / 10));
    }
}

/// A single character is a number exactly where it is a decimal digit, and then it is that digit.
pub proof fn law_digit_is_a_number(c: char)
    ensures
        '0' <= c <= '9' ==> unsigned_number(seq![c]) == Some(c as int - '0' as int),
        !('0' <= c <= '9') ==> unsigned_number(seq![c]) is None,
        '0' <= c <= '9' ==> signed_number(seq![c]) == Some(c as int - '0' as int),
        !('0' <= c <= '9') ==> signed_number(seq![c]) is None,
{
    let s = seq![c];
    assert(s.drop_last() == Seq::<char>::empty());
    assert(digits_value(Seq::<char>::empty()) == 0);
    assert(digits_value(s) == (10 * 0 + (s.last() as int - '0' as int)) as nat);
    assert(s.drop_first() == Seq::<char>::empty());
    if all_digits(s) {
        assert('0' <= s[0] <= '9');
    }
}

/// A further digit makes a number ten times as large and adds the digit; anything else behind a
/// number makes it no number.
pub proof fn law_further_digit(s: Seq<char>, c: char, n: int)
    requires
        unsigned_number(s) == Some(n),
    ensures
        '0' <= c <= '9' ==> unsigned_number(s.push(c)) == Some(10 * n + (c as int - '0' as int)),
        !('0' <= c <= '9') ==> unsigned_number(s.push(c)) is None,
{
    let longer = s.push(c);
    let (digits, more) = if s[0] == '+' {
        (s.drop_first(), longer.drop_first())
    } else {
        (s, longer)
    };
    assert(more == digits.push(c));
    assert(more.drop_last() == digits);
    assert(more.last() == c);
    if '0' <= c <= '9' {
        assert forall|i: int| 0 <= i < more.len() implies '0' <= #[trigger] more[i] <= '9' by {
            if i < digits.len() {
                assert(more[i] == digits[i]);
            }
        }
    } else {
        assert(!('0' <= more[digits.len() as int] <= '9'));
    }
}

/// What is written without a sign in front is no number where one of its characters is no digit,
/// and neither is an empty text.
pub proof fn law_number_is_made_of_digits(s: Seq<char>, i: int)
    requires
        0 <= i < s.len(),
        !('0' <= s[i] <= '9'),
        i > 0 || (s[0] != '+' && s[0] != '-'),
    ensures
        unsigned_number(s) is None,
        signed_number(s) is None,
        unsigned_number(Seq::<char>::empty()) is None,
        signed_number(Seq::<char>::empty()) is None,
{
    if i > 0 {
        assert(s.drop_first()[i - 1] == s[i]);
    }
}

/// A plus sign changes nothing, and a minus sign makes a number negative. There is at most one
/// sign, and a number without a sign has no minus.
pub proof fn law_sign_of_a_number(s: Seq<char>)
    ensures
        unsigned_number(seq!['+'] + s) == (if s.len() > 0 && s[0] == '+' {
            None
        } else {
            unsigned_number(s)
        }),
        unsigned_number(seq!['-'] + s) is None,
        signed_number(seq!['+'] + s) == unsigned_number(seq!['+'] + s),
        signed_number(seq!['-'] + s) == (match unsigned_number(seq!['+'] + s) {
            Some(n) => Some(-n),
            None => None,
        }),
        s.len() > 0 && s[0] != '-' ==> signed_number(s) == unsigned_number(s),
{
    let plus = seq!['+'] + s;
    let minus = seq!['-'] + s;
    assert(plus.drop_first() == s);
    assert(minus.drop_first() == s);
    assert(minus[0] == '-');
    assert(!all_digits(minus));
    if s.len() > 0 && s[0] == '+' {
        assert(!('0' <= s[0] <= '9'));
    }
}

/// A number in decimal is made of digits, and it begins with 0 only where it is 0.
pub proof fn law_decimal_is_made_of_digits(n: nat)
    ensures
        decimal(n).len() > 0,
        forall|i: int| 0 <= i < decimal(n).len() ==> '0' <= #[trigger] decimal(n)[i] <= '9',
        decimal(n)[0] == '0' ==> decimal(n) == seq!['0'],
    decreases n,
{
    lemma_decimal_digits(n);
    if n >= 10 {
        law_decimal_is_made_of_digits(n / 10);
        lemma_decimal_digits(n / 10);
        assert(decimal(n)[0] == decimal(n / 10)[0]);
        if decimal(n / 10)[0] == '0' {
            lemma_decimal_digits(0);
            assert(decimal(n / 10) == decimal(0));
        }
    }
}

/// A negative number in decimal is a minus sign and its magnitude; any other has no sign.
pub proof fn law_sign_of_a_decimal(n: nat)
    ensures
        signed_decimal(n as int) == decimal(n),
        n > 0 ==> signed_decimal(-(n as int)) == seq!['-'] + decimal(n),
{
}

/// A number written in decimal reads back as itself.
pub proof fn law_decimal_reads_back(n: nat)
    ensures
        unsigned_number(decimal(n)) == Some(n as int),
{
    lemma_decimal_digits(n);
}

/// A signed number written in decimal reads back as itself.
pub proof fn law_signed_decimal_reads_back(n: int)
    ensures
        signed_number(signed_decimal(n)) == Some(n),
{
    if n < 0 {
        lemma_decimal_digits((-n) as nat);
        assert(signed_decimal(n).drop_first() == decimal((-n) as nat));
    } else {
        lemma_decimal_digits(n as nat);
    }
}

/// Two numbers with the same decimal text are the same number.
pub proof fn law_decimal_injective(m: nat, n: nat)
    requires
        decimal(m) == decimal(n),
    ensures
        m == n,
{
    lemma_decimal_digits(m);
    lemma_decimal_digits(n);
}

} // verus!
