//! Whole numbers in decimal notation.

use crate::text::chars_of;
use vstd::prelude::*;

verus! {

/// Why a text is no number of the wanted type.
#[derive(Clone, Copy, Debug, PartialEq, Eq, Structural)]
pub enum IntError {
    /// The text is empty.
    Empty,
    /// A character is no digit, or there is no digit at all.
    InvalidDigit,
    /// The digits go past the largest value.
    PosOverflow,
}

/// Whether `c` is a decimal digit.
pub open spec fn is_digit(c: char) -> bool {
    '0' <= c <= '9'
}

/// The value of the digit `c`.
pub open spec fn digit_value(c: char) -> nat
    recommends
        is_digit(c),
{
    (c as u32 - '0' as u32) as nat
}

/// The digit with the value `d`.
pub open spec fn digit_char(d: nat) -> char
    recommends
        d < 10,
{
    ('0' as u32 + d) as char
}

/// The value of a row of digits, the most significant first.
pub open spec fn digits_value(s: Seq<char>) -> nat
    decreases s.len(),
{
    if s.len() == 0 {
        0
    } else {
        10 * digits_value(s.drop_last()) + digit_value(s.last())
    }
}

/// How many digits `s` begins with.
pub open spec fn digit_run(s: Seq<char>) -> nat
    decreases s.len(),
{
    if s.len() > 0 && is_digit(s.first()) {
        1 + digit_run(s.drop_first())
    } else {
        0
    }
}

/// The number that `s` writes without a sign, if it is at most `max`. Digits
/// that go past `max` are an overflow whatever follows them.
pub open spec fn magnitude_of(s: Seq<char>, max: nat) -> Result<nat, IntError> {
    let run = digit_run(s);
    let value = digits_value(s.take(run as int));
    if value > max {
        Err(IntError::PosOverflow)
    } else if run == 0 || run < s.len() {
        Err(IntError::InvalidDigit)
    } else {
        Ok(value)
    }
}

/// The `u64` that `s` writes: digits, with a plus sign before them or none.
pub open spec fn u64_of(s: Seq<char>) -> Result<u64, IntError> {
    if s.len() == 0 {
        Err(IntError::Empty)
    } else {
        let digits = if s.first() == '+' {
            s.drop_first()
        } else {
            s
        };
        match magnitude_of(digits, u64::MAX as nat) {
            Ok(v) => Ok(v as u64),
            Err(e) => Err(e),
        }
    }
}

/// The `i32` that `s` writes, if it writes one: digits, with a sign before
/// them or none.
pub open spec fn i32_of(s: Seq<char>) -> Option<i32> {
    if s.len() > 0 && s.first() == '-' {
        match magnitude_of(s.drop_first(), 0x8000_0000) {
            Ok(v) => Some((-v) as i32),
            Err(_) => None,
        }
    } else {
        let digits = if s.len() > 0 && s.first() == '+' {
            s.drop_first()
        } else {
            s
        };
        match magnitude_of(digits, 0x7fff_ffff) {
            Ok(v) => Some(v as i32),
            Err(_) => None,
        }
    }
}

/// `n` in decimal notation, without leading zeros.
pub open spec fn decimal_of(n: nat) -> Seq<char>
    decreases n,
{
    if n < 10 {
        seq![digit_char(n)]
    } else {
        decimal_of(n / 10) + seq![digit_char(n % 10)]
    }
}

/// What is said of a text that is no number.
pub open spec fn int_error_text(e: IntError) -> Seq<char> {
    match e {
        IntError::Empty => "cannot parse integer from empty string"@,
        IntError::InvalidDigit => "invalid digit found in string"@,
        IntError::PosOverflow => "number too large to fit in target type"@,
    }
}

proof fn lemma_digit_run(s: Seq<char>)
    ensures
        digit_run(s) <= s.len(),
        forall|i: int| 0 <= i < digit_run(s) ==> is_digit(s[i]),
        digit_run(s) < s.len() ==> !is_digit(s[digit_run(s) as int]),
    decreases s.len(),
{
    if s.len() > 0 && is_digit(s.first()) {
        let rest = s.drop_first();
        lemma_digit_run(rest);
        assert forall|i: int| 0 <= i < digit_run(s) implies is_digit(s[i]) by {
            if i > 0 {
                assert(s[i] == rest[i - 1]);
            }
        }
        if digit_run(s) < s.len() {
            assert(s[digit_run(s) as int] == rest[digit_run(rest) as int]);
        }
    }
}

/// More digits never make a smaller number.
proof fn lemma_more_digits(s: Seq<char>, i: int, j: int)
    requires
        0 <= i <= j <= s.len(),
    ensures
        digits_value(s.take(i)) <= digits_value(s.take(j)),
    decreases j - i,
{
    if i < j {
        lemma_more_digits(s, i, j - 1);
        assert(s.take(j).drop_last() == s.take(j - 1));
    }
}

/// Reads the digits of `chars` from the index `from` on.
fn magnitude(chars: &Vec<char>, from: usize, max: u64) -> (r: Result<u64, IntError>)
    requires
        from <= chars@.len(),
    ensures
        match magnitude_of(chars@.skip(from as int), max as nat) {
            Ok(v) => r matches Ok(w) && w == v,
            Err(e) => r == Err::<u64, IntError>(e),
        },
{
    let ghost s = chars@.skip(from as int);
    let n: usize = chars.len();
    let mut value: u64 = 0;
    let mut i: usize = from;
    proof {
        lemma_digit_run(s);
        assert(s.take(0) == Seq::<char>::empty());
    }
    while i < n
        invariant
            n == chars@.len(),
            from <= i <= n,
            s == chars@.skip(from as int),
            forall|j: int| 0 <= j < digit_run(s) ==> is_digit(s[j]),
            digit_run(s) <= s.len(),
            digit_run(s) < s.len() ==> !is_digit(s[digit_run(s) as int]),
            i - from <= digit_run(s),
            value == digits_value(s.take(i - from)),
            value <= max,
        decreases n - i,
    {
        let c = chars[i];
        assert(c == s[i - from]);
        if c < '0' || c > '9' {
            assert(digit_run(s) == i - from);
            return Err(IntError::InvalidDigit);
        }
        let d: u32 = c as u32 - '0' as u32;
        let next: u128 = value as u128 * 10 + d as u128;
        proof {
            assert(s.take(i - from + 1).drop_last() == s.take(i - from));
            assert(s.take(i - from + 1).last() == c);
            assert(next == digits_value(s.take(i - from + 1)));
        }
        if next > max as u128 {
            proof {
                lemma_more_digits(s, i - from + 1, digit_run(s) as int);
            }
            return Err(IntError::PosOverflow);
        }
        value = next as u64;
        i += 1;
    }
    assert(digit_run(s) == s.len());
    if from == n {
        return Err(IntError::InvalidDigit);
    }
    Ok(value)
}

/// The `u64` that `s` writes, or why it writes none.
pub fn parse_u64(s: &str) -> (r: Result<u64, IntError>)
    ensures
        r == u64_of(s@),
{
    let chars = chars_of(s);
    if chars.len() == 0 {
        return Err(IntError::Empty);
    }
    assert(chars@.skip(0) == chars@);
    assert(chars@.skip(1) == chars@.drop_first());
    if chars[0] == '+' {
        magnitude(&chars, 1, u64::MAX)
    } else {
        magnitude(&chars, 0, u64::MAX)
    }
}

/// The `i32` that `s` writes, if it writes one.
pub fn parse_i32(s: &str) -> (r: Option<i32>)
    ensures
        r == i32_of(s@),
{
    let chars = chars_of(s);
    assert(chars@.skip(0) == chars@);
    if chars.len() > 0 && chars[0] == '-' {
        assert(chars@.skip(1) == chars@.drop_first());
        match magnitude(&chars, 1, 0x8000_0000) {
            Ok(v) => Some((-(v as i64)) as i32),
            Err(_) => None,
        }
    } else {
        let from: usize = if chars.len() > 0 && chars[0] == '+' {
            1
        } else {
            0
        };
        assert(from == 1 ==> chars@.skip(1) == chars@.drop_first());
        match magnitude(&chars, from, 0x7fff_ffff) {
            Ok(v) => Some(v as i32),
            Err(_) => None,
        }
    }
}

/// The digit with the value `d`, as text.
fn digit_text(d: u64) -> (r: &'static str)
    requires
        d < 10,
    ensures
        r@ == seq![digit_char(d as nat)],
{
    proof {
        reveal_strlit("0");
        reveal_strlit("1");
        reveal_strlit("2");
        reveal_strlit("3");
        reveal_strlit("4");
        reveal_strlit("5");
        reveal_strlit("6");
        reveal_strlit("7");
        reveal_strlit("8");
        reveal_strlit("9");
    }
    if d == 0 {
        "0"
    } else if d == 1 {
        "1"
    } else if d == 2 {
        "2"
    } else if d == 3 {
        "3"
    } else if d == 4 {
        "4"
    } else if d == 5 {
        "5"
    } else if d == 6 {
        "6"
    } else if d == 7 {
        "7"
    } else if d == 8 {
        "8"
    } else {
        "9"
    }
}

/// `n` in decimal notation.
pub fn decimal_text(n: u64) -> (r: String)
    ensures
        r@ == decimal_of(n as nat),
    decreases n,
{
    if n < 10 {
        digit_text(n).to_owned()
    } else {
        let mut r = decimal_text(n / 10);
        r.append(digit_text(n % 10));
        r
    }
}

impl IntError {
    /// What is said of a text that is no number.
    pub fn text(&self) -> (r: &'static str)
        ensures
            r@ == int_error_text(*self),
    {
        match self {
            IntError::Empty => "cannot parse integer from empty string",
            IntError::InvalidDigit => "invalid digit found in string",
            IntError::PosOverflow => "number too large to fit in target type",
        }
    }
}

proof fn lemma_all_digits(s: Seq<char>)
    requires
        forall|i: int| 0 <= i < s.len() ==> is_digit(s[i]),
    ensures
        digit_run(s) == s.len(),
{
    lemma_digit_run(s);
}

/// The notation of a number is a row of digits with that value.
pub(crate) proof fn lemma_decimal(n: nat)
    ensures
        decimal_of(n).len() > 0,
        forall|i: int| 0 <= i < decimal_of(n).len() ==> is_digit(decimal_of(n)[i]),
        digits_value(decimal_of(n)) == n,
    decreases n,
{
    let s = decimal_of(n);
    if n < 10 {
        assert(s.drop_last() == Seq::<char>::empty());
        assert(digits_value(Seq::<char>::empty()) == 0);
    } else {
        lemma_decimal(n / 10);
        assert(s.drop_last() == decimal_of(n / 10));
    }
}

/// Reading back a number that was written gives the number.
pub proof fn law_decimal_round_trip(n: u64)
    ensures
        u64_of(decimal_of(n as nat)) == Ok::<u64, IntError>(n),
{
    let s = decimal_of(n as nat);
    lemma_decimal(n as nat);
    lemma_all_digits(s);
    assert(is_digit(s[0]));
    assert(s.take(s.len() as int) == s);
}

/// Reading back a signed number that was written gives the number.
pub proof fn law_signed_round_trip(n: i32)
    ensures
        n >= 0 ==> i32_of(decimal_of(n as nat)) == Some(n),
        n < 0 ==> i32_of(seq!['-'] + decimal_of((-n) as nat)) == Some(n),
{
    let m = if n < 0 {
        (-n) as nat
    } else {
        n as nat
    };
    let s = decimal_of(m);
    lemma_decimal(m);
    lemma_all_digits(s);
    assert(is_digit(s[0]));
    assert(s.take(s.len() as int) == s);
    assert((seq!['-'] + s).drop_first() == s);
}

proof fn lemma_digit_run_is(s: Seq<char>, n: int)
    requires
        0 <= n <= s.len(),
        forall|i: int| 0 <= i < n ==> is_digit(#[trigger] s[i]),
        n < s.len() ==> !is_digit(s[n]),
    ensures
        digit_run(s) == n,
{
    lemma_digit_run(s);
    if digit_run(s) < n {
        assert(is_digit(s[digit_run(s) as int]));
    }
}

/// What one more character makes of a row of digits.
proof fn lemma_magnitude_push(d: Seq<char>, c: char, more: Seq<char>, max: nat)
    requires
        magnitude_of(d, max) is Ok,
    ensures
        is_digit(c) ==> magnitude_of(d.push(c), max) == if 10 * magnitude_of(d, max)->Ok_0
            + digit_value(c) <= max {
            Ok::<nat, IntError>(10 * magnitude_of(d, max)->Ok_0 + digit_value(c))
        } else {
            Err(IntError::PosOverflow)
        },
        !is_digit(c) ==> magnitude_of(d.push(c) + more, max) == Err::<nat, IntError>(
            IntError::InvalidDigit,
        ),
{
    lemma_digit_run(d);
    let n = d.len() as int;
    assert(d.take(n) == d);
    let e = d.push(c);
    if is_digit(c) {
        lemma_digit_run_is(e, n + 1);
        assert(e.take(n + 1) == e);
        assert(e.drop_last() == d);
    } else {
        let f = e + more;
        assert forall|i: int| 0 <= i < n implies is_digit(#[trigger] f[i]) by {
            assert(f[i] == d[i]);
        }
        assert(f[n] == c);
        lemma_digit_run_is(f, n);
        assert(f.take(n) == d);
    }
}

proof fn lemma_magnitude_overflow(d: Seq<char>, more: Seq<char>, max: nat)
    requires
        magnitude_of(d, max) == Err::<nat, IntError>(IntError::PosOverflow),
    ensures
        magnitude_of(d + more, max) == Err::<nat, IntError>(IntError::PosOverflow),
{
    let s = d + more;
    lemma_digit_run(d);
    lemma_digit_run(s);
    let n = digit_run(d) as int;
    if digit_run(s) < n {
        assert(is_digit(d[digit_run(s) as int]));
        assert(s[digit_run(s) as int] == d[digit_run(s) as int]);
    }
    lemma_more_digits(s, n, digit_run(s) as int);
    assert(s.take(n) == d.take(n));
}

proof fn lemma_magnitude_bad(c: char, more: Seq<char>, max: nat)
    requires
        !is_digit(c),
    ensures
        magnitude_of(seq![c] + more, max) == Err::<nat, IntError>(IntError::InvalidDigit),
{
    let s = seq![c] + more;
    lemma_digit_run_is(s, 0);
    assert(s.take(0) == Seq::<char>::empty());
}

/// One digit is read as its value, and a digit after a number makes it ten times the
/// number and the digit, or an overflow where that is past the largest value.
pub proof fn law_u64_next_digit(s: Seq<char>, c: char)
    requires
        '0' <= c <= '9',
    ensures
        u64_of(seq![c]) == Ok::<u64, IntError>((c as u32 - 0x30) as u64),
        u64_of(s) is Ok ==> u64_of(s.push(c)) == if 10 * u64_of(s)->Ok_0 + (c as u32 - 0x30)
            <= 0xffff_ffff_ffff_ffff {
            Ok::<u64, IntError>((10 * u64_of(s)->Ok_0 + (c as u32 - 0x30)) as u64)
        } else {
            Err(IntError::PosOverflow)
        },
{
    let one = seq![c];
    lemma_digit_run_is(one, 1);
    assert(one.take(1) == one);
    assert(one.drop_last() == Seq::<char>::empty());
    assert(digits_value(Seq::<char>::empty()) == 0);
    if u64_of(s) is Ok {
        let plus = s.first() == '+';
        let d = if plus {
            s.drop_first()
        } else {
            s
        };
        assert(s.push(c).first() == s.first());
        assert(s.push(c).drop_first() == s.drop_first().push(c));
        lemma_magnitude_push(d, c, Seq::empty(), u64::MAX as nat);
    }
}

/// A plus sign before a number changes nothing.
pub proof fn law_u64_plus_sign(s: Seq<char>)
    requires
        s.len() > 0,
        s.first() != '+',
    ensures
        u64_of(seq!['+'] + s) == u64_of(s),
{
    assert((seq!['+'] + s).drop_first() == s);
}

/// Each error has its cause: nothing at all, a character that is no digit after no
/// more than a sign and digits that fit, or digits that do not fit, whatever
/// follows them.
pub proof fn law_u64_errors(s: Seq<char>, c: char, more: Seq<char>)
    ensures
        u64_of(Seq::empty()) == Err::<u64, IntError>(IntError::Empty),
        u64_of(seq!['+']) == Err::<u64, IntError>(IntError::InvalidDigit),
        u64_of(s) == Err::<u64, IntError>(IntError::PosOverflow) ==> u64_of(s + more) == Err::<
            u64,
            IntError,
        >(IntError::PosOverflow),
        !('0' <= c <= '9') && u64_of(s) is Ok ==> u64_of(s.push(c) + more) == Err::<u64, IntError>(
            IntError::InvalidDigit,
        ),
        !('0' <= c <= '9') && c != '+' ==> u64_of(seq![c] + more) == Err::<u64, IntError>(
            IntError::InvalidDigit,
        ),
        !('0' <= c <= '9') ==> u64_of(seq!['+', c] + more) == Err::<u64, IntError>(
            IntError::InvalidDigit,
        ),
{
    let max = u64::MAX as nat;
    let none = Seq::<char>::empty();
    assert(seq!['+'].drop_first() == none);
    assert(digit_run(none) == 0);
    assert(none.take(0) == none);
    assert(digits_value(none) == 0);
    if s.len() > 0 {
        let plus = s.first() == '+';
        let d = if plus {
            s.drop_first()
        } else {
            s
        };
        assert((s + more).first() == s.first());
        assert((s + more).drop_first() == s.drop_first() + more);
        assert((s.push(c) + more).first() == s.first());
        assert((s.push(c) + more).drop_first() == s.drop_first().push(c) + more);
        if magnitude_of(d, max) == Err::<nat, IntError>(IntError::PosOverflow) {
            lemma_magnitude_overflow(d, more, max);
        }
        if magnitude_of(d, max) is Ok {
            lemma_magnitude_push(d, c, more, max);
        }
    }
    if !is_digit(c) {
        lemma_magnitude_bad(c, more, max);
        assert((seq!['+', c] + more).drop_first() == seq![c] + more);
        assert((seq![c] + more).first() == c);
    }
}

proof fn lemma_magnitude_smaller_max(d: Seq<char>, small: nat, large: nat)
    requires
        small <= large,
    ensures
        magnitude_of(d, large) matches Ok(v) ==> magnitude_of(d, small) == if v <= small {
            Ok::<nat, IntError>(v)
        } else {
            Err(IntError::PosOverflow)
        },
        magnitude_of(d, large) is Err ==> magnitude_of(d, small) is Err,
{
}

/// A text is read as an `i32` where it is read as a number that an `i32` can hold;
/// behind a minus sign, which stands for no other sign, as that number below zero.
pub proof fn law_i32_exact(s: Seq<char>)
    ensures
        i32_of(Seq::empty()) is None,
        s.len() > 0 && s.first() != '-' ==> i32_of(s) == match u64_of(s) {
            Ok(v) => if v <= 0x7fff_ffff {
                Some(v as i32)
            } else {
                None
            },
            Err(_) => None,
        },
        i32_of(seq!['-']) is None,
        s.len() > 0 && s.first() == '+' ==> i32_of(seq!['-'] + s) is None,
        s.len() > 0 && s.first() != '+' ==> i32_of(seq!['-'] + s) == match u64_of(s) {
            Ok(v) => if v <= 0x8000_0000 {
                Some((-v) as i32)
            } else {
                None
            },
            Err(_) => None,
        },
{
    let none = Seq::<char>::empty();
    assert(digit_run(none) == 0);
    assert(none.take(0) == none);
    assert(digits_value(none) == 0);
    assert(seq!['-'].drop_first() == none);
    assert((seq!['-'] + s).drop_first() == s);
    assert((seq!['-'] + s).first() == '-');
    if s.len() > 0 {
        if s.first() == '+' {
            assert(s == seq!['+'] + s.drop_first());
            lemma_magnitude_bad('+', s.drop_first(), 0x8000_0000);
            lemma_magnitude_smaller_max(s.drop_first(), 0x7fff_ffff, u64::MAX as nat);
        } else {
            lemma_magnitude_smaller_max(s, 0x7fff_ffff, u64::MAX as nat);
            lemma_magnitude_smaller_max(s, 0x8000_0000, u64::MAX as nat);
        }
    }
}

/// The notation of a number below ten is its digit. That of ten times a number and
/// a digit is the notation of the number and the digit.
pub proof fn law_decimal_next_digit(n: nat, d: nat)
    requires
        d < 10,
    ensures
        decimal_of(d) == seq![(0x30 + d) as char],
        n > 0 ==> decimal_of(10 * n + d) == decimal_of(n).push((0x30 + d) as char),
{
    if n > 0 {
        assert((10 * n + d) / 10 == n);
        assert((10 * n + d) % 10 == d);
    }
}

} // verus!
