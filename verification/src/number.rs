//! Decimal numbers in text: unsigned integers with the reason a text is not
//! one, the digits of an integer, and the grammar of a floating-point literal.

use vstd::prelude::*;
use vstd::slice::*;
use vstd::string::*;

verus! {

/// Why a text is not an unsigned integer of a given width.
#[derive(Clone, Copy, Debug, PartialEq, Eq, Structural)]
pub enum IntError {
    /// The text is empty.
    Empty,
    /// A character is not a decimal digit, or a sign stands alone. Reported for
    /// the first character at which the text fails, before `PosOverflow`.
    InvalidDigit,
    /// The digits read so far name a number above the maximum.
    PosOverflow,
}

/// `0` to `9`.
pub open spec fn is_digit(c: char) -> bool {
    0x30 <= c as u32 <= 0x39
}

/// The value of a decimal digit.
pub open spec fn digit_value(c: char) -> nat {
    if is_digit(c) {
        (c as u32 - 0x30) as nat
    } else {
        0
    }
}

/// Whether every character of `s` is a decimal digit.
pub open spec fn all_digits(s: Seq<char>) -> bool {
    forall|i: int| 0 <= i < s.len() ==> is_digit(#[trigger] s[i])
}

/// The number that a run of decimal digits names.
pub open spec fn value_of(s: Seq<char>) -> nat
    recommends
        all_digits(s),
    decreases s.len(),
{
    if s.len() == 0 {
        0
    } else {
        value_of(s.drop_last()) * 10 + digit_value(s.last())
    }
}

/// Reads `s` digit by digit onto `acc`, failing at the first character that
/// is no digit or that takes the number above `max`.
pub open spec fn accumulate(s: Seq<char>, acc: nat, max: nat) -> Result<nat, IntError>
    decreases s.len(),
{
    if s.len() == 0 {
        Ok(acc)
    } else if !is_digit(s[0]) {
        Err(IntError::InvalidDigit)
    } else if acc * 10 + digit_value(s[0]) > max {
        Err(IntError::PosOverflow)
    } else {
        accumulate(s.drop_first(), acc * 10 + digit_value(s[0]), max)
    }
}

/// `s` read as an unsigned decimal integer of at most `max`: an optional `+`,
/// then one or more digits, and nothing else.
pub open spec fn unsigned(s: Seq<char>, max: nat) -> Result<nat, IntError> {
    if s.len() == 0 {
        Err(IntError::Empty)
    } else {
        let digits = if s[0] == '+' {
            s.drop_first()
        } else {
            s
        };
        if digits.len() == 0 {
            Err(IntError::InvalidDigit)
        } else {
            accumulate(digits, 0, max)
        }
    }
}

/// The character of a decimal digit.
pub open spec fn digit_char(d: nat) -> char
    recommends
        d < 10,
{
    (0x30 + d) as u8 as char
}

/// The decimal digits of `n`, without leading zeros.
pub open spec fn decimal(n: nat) -> Seq<char>
    decreases n,
{
    if n < 10 {
        seq![digit_char(n)]
    } else {
        decimal(n / 10).push(digit_char(n % 10))
    }
}

/// The length of the run of digits at the start of `s`.
pub open spec fn digit_run(s: Seq<char>) -> nat
    decreases s.len(),
{
    if s.len() > 0 && is_digit(s[0]) {
        1 + digit_run(s.drop_first())
    } else {
        0
    }
}

/// Whether `c` is the lower-case ASCII letter `letter` in either case.
pub open spec fn is_letter(c: char, letter: char) -> bool {
    c == letter || c as u32 + 32 == letter as u32
}

/// Whether `s` spells `word`, a lower-case ASCII word, in any mix of cases.
pub open spec fn spells(s: Seq<char>, word: Seq<char>) -> bool {
    s.len() == word.len() && forall|i: int| 0 <= i < s.len() ==> is_letter(#[trigger] s[i], word[i])
}

/// An exponent or nothing: `e` or `E`, an optional sign, one or more digits.
pub open spec fn is_exponent(s: Seq<char>) -> bool {
    s.len() == 0 || ((s[0] == 'e' || s[0] == 'E') && {
        let t = s.drop_first();
        let digits = if t.len() > 0 && (t[0] == '+' || t[0] == '-') {
            t.drop_first()
        } else {
            t
        };
        digits.len() > 0 && digit_run(digits) == digits.len()
    })
}

/// Digits with an optional point among them, at least one digit in all, and
/// an optional exponent.
pub open spec fn is_number(s: Seq<char>) -> bool {
    let whole = digit_run(s);
    let rest = s.skip(whole as int);
    if rest.len() > 0 && rest[0] == '.' {
        let fraction = digit_run(rest.drop_first());
        whole + fraction > 0 && is_exponent(rest.drop_first().skip(fraction as int))
    } else {
        whole > 0 && is_exponent(rest)
    }
}

/// The grammar of a floating-point literal: an optional sign, then a number,
/// or `inf`, `infinity` or `nan` in any mix of cases.
pub open spec fn is_float(s: Seq<char>) -> bool {
    s.len() > 0 && {
        let body = if s[0] == '+' || s[0] == '-' {
            s.drop_first()
        } else {
            s
        };
        is_number(body) || spells(body, seq!['i', 'n', 'f']) || spells(
            body,
            seq!['i', 'n', 'f', 'i', 'n', 'i', 't', 'y'],
        ) || spells(body, seq!['n', 'a', 'n'])
    }
}

/// The digits of an unsigned number: the text without a leading `+`.
pub open spec fn digits_of(s: Seq<char>) -> Seq<char> {
    if s.len() > 0 && s[0] == '+' {
        s.drop_first()
    } else {
        s
    }
}

/// Ten to the power `n`.
pub open spec fn pow10(n: nat) -> nat
    decreases n,
{
    if n == 0 {
        1
    } else {
        10 * pow10((n - 1) as nat)
    }
}

/// Whether `c` is a decimal digit.
pub fn digit(c: char) -> (b: bool)
    ensures
        b == is_digit(c),
{
    let u: u32 = c as u32;
    0x30 <= u && u <= 0x39
}

/// `s` as an unsigned decimal integer of at most `max`.
pub fn parse_bounded(s: &[char], max: u64) -> (r: Result<u64, IntError>)
    ensures
        r matches Ok(v) ==> v <= max,
        match r {
            Ok(v) => unsigned(s@, max as nat) == Ok::<nat, IntError>(v as nat),
            Err(e) => unsigned(s@, max as nat) == Err::<nat, IntError>(e),
        },
{
    if s.len() == 0 {
        return Err(IntError::Empty);
    }
    let start: usize = if s[0] == '+' {
        1
    } else {
        0
    };
    if start == s.len() {
        proof {
            assert(s@.drop_first().len() == 0);
        }
        return Err(IntError::InvalidDigit);
    }
    let ghost digits = s@.skip(start as int);
    proof {
        assert(s@.drop_first() =~= s@.skip(1));
        assert(s@.skip(0) =~= s@);
    }
    let mut acc: u64 = 0;
    let mut i: usize = start;
    while i < s.len()
        invariant
            start <= i <= s.len(),
            acc <= max,
            unsigned(s@, max as nat) == accumulate(s@.skip(i as int), acc as nat, max as nat),
        decreases s.len() - i,
    {
        let c = s[i];
        proof {
            assert(s@.skip(i as int)[0] == c);
            assert(s@.skip(i as int).drop_first() =~= s@.skip(i + 1));
        }
        if !digit(c) {
            return Err(IntError::InvalidDigit);
        }
        let d: u64 = (c as u32 - 0x30) as u64;
        if acc > max / 10 || (acc == max / 10 && d > max % 10) {
            return Err(IntError::PosOverflow);
        }
        acc = acc * 10 + d;
        i += 1;
    }
    Ok(acc)
}

/// `s` as a `u32`.
pub fn parse_u32(s: &[char]) -> (r: Result<u32, IntError>)
    ensures
        match r {
            Ok(v) => unsigned(s@, u32::MAX as nat) == Ok::<nat, IntError>(v as nat),
            Err(e) => unsigned(s@, u32::MAX as nat) == Err::<nat, IntError>(e),
        },
{
    match parse_bounded(s, 0xffff_ffff) {
        Ok(v) => Ok(v as u32),
        Err(e) => Err(e),
    }
}

/// `s` as a `u64`.
pub fn parse_u64(s: &[char]) -> (r: Result<u64, IntError>)
    ensures
        match r {
            Ok(v) => unsigned(s@, u64::MAX as nat) == Ok::<nat, IntError>(v as nat),
            Err(e) => unsigned(s@, u64::MAX as nat) == Err::<nat, IntError>(e),
        },
{
    parse_bounded(s, u64::MAX)
}

/// The decimal digits of `n`.
pub fn decimal_digits(n: u64) -> (v: Vec<char>)
    ensures
        v@ == decimal(n as nat),
    decreases n,
{
    if n < 10 {
        let mut v: Vec<char> = Vec::new();
        v.push((0x30 + n as u8) as char);
        proof {
            assert(v@ =~= seq![digit_char(n as nat)]);
        }
        v
    } else {
        let mut v = decimal_digits(n / 10);
        v.push((0x30 + (n % 10) as u8) as char);
        v
    }
}

/// The length of the run of digits in `s` from index `from` on.
fn digits_from(s: &[char], from: usize) -> (n: usize)
    requires
        from <= s.len(),
    ensures
        n == digit_run(s@.skip(from as int)),
        from + n <= s.len(),
{
    let mut i: usize = from;
    while i < s.len() && digit(s[i])
        invariant
            from <= i <= s.len(),
            digit_run(s@.skip(from as int)) == (i - from) + digit_run(s@.skip(i as int)),
        decreases s.len() - i,
    {
        proof {
            assert(s@.skip(i as int).drop_first() =~= s@.skip(i + 1));
        }
        i += 1;
    }
    i - from
}

/// Whether `s` spells the lower-case ASCII word `letters` in any mix of cases.
fn word(s: &[char], letters: &str) -> (r: bool)
    ensures
        r == spells(s@, letters@),
{
    let n = letters.unicode_len();
    if s.len() != n {
        return false;
    }
    let mut i: usize = 0;
    while i < n
        invariant
            i <= n,
            n == s.len(),
            n == letters@.len(),
            forall|j: int| 0 <= j < i ==> is_letter(#[trigger] s@[j], letters@[j]),
        decreases n - i,
    {
        let c: char = s[i];
        let l: char = letters.get_char(i);
        let cu: u32 = c as u32;
        let lu: u32 = l as u32;
        if !(c == l || cu as u64 + 32 == lu as u64) {
            return false;
        }
        i += 1;
    }
    true
}

/// Whether `s` from index `from` on is an exponent or nothing.
fn exponent(s: &[char], from: usize) -> (r: bool)
    requires
        from <= s.len(),
    ensures
        r == is_exponent(s@.skip(from as int)),
{
    if from == s.len() {
        return true;
    }
    let ghost rest = s@.skip(from as int);
    proof {
        assert(rest[0] == s@[from as int]);
        assert(rest.drop_first() =~= s@.skip(from + 1));
    }
    if !(s[from] == 'e' || s[from] == 'E') {
        return false;
    }
    let mut at: usize = from + 1;
    if at < s.len() && (s[at] == '+' || s[at] == '-') {
        proof {
            assert(rest.drop_first()[0] == s@[at as int]);
            assert(rest.drop_first().drop_first() =~= s@.skip(at + 1));
        }
        at += 1;
    }
    let n = digits_from(s, at);
    n > 0 && at + n == s.len()
}

/// Whether `s` from index `from` on is a number of the float grammar.
fn number(s: &[char], from: usize) -> (r: bool)
    requires
        from <= s.len(),
    ensures
        r == is_number(s@.skip(from as int)),
{
    let whole = digits_from(s, from);
    let at: usize = from + whole;
    let ghost rest = s@.skip(from as int).skip(whole as int);
    proof {
        assert(rest =~= s@.skip(at as int));
    }
    if at < s.len() && s[at] == '.' {
        proof {
            assert(rest[0] == s@[at as int]);
            assert(rest.drop_first() =~= s@.skip(at + 1));
        }
        let fraction = digits_from(s, at + 1);
        proof {
            assert(rest.drop_first().skip(fraction as int) =~= s@.skip(at + 1 + fraction));
        }
        whole + fraction > 0 && exponent(s, at + 1 + fraction)
    } else {
        proof {
            if at < s.len() {
                assert(rest[0] == s@[at as int]);
            }
        }
        whole > 0 && exponent(s, at)
    }
}

/// Whether `s` is a floating-point literal.
pub fn float_literal(s: &[char]) -> (r: bool)
    ensures
        r == is_float(s@),
{
    if s.len() == 0 {
        return false;
    }
    let from: usize = if s[0] == '+' || s[0] == '-' {
        1
    } else {
        0
    };
    let body = slice_subrange(s, from, s.len());
    proof {
        reveal_strlit("inf");
        reveal_strlit("infinity");
        reveal_strlit("nan");
        assert("inf"@ =~= seq!['i', 'n', 'f']);
        assert("infinity"@ =~= seq!['i', 'n', 'f', 'i', 'n', 'i', 't', 'y']);
        assert("nan"@ =~= seq!['n', 'a', 'n']);
        assert(s@.drop_first() =~= s@.skip(1));
        assert(s@.skip(0) =~= s@);
        assert(body@ =~= s@.skip(from as int));
    }
    number(s, from) || word(body, "inf") || word(body, "infinity") || word(body, "nan")
}

/// Reading a run of digits onto `acc` appends them to the digits of `acc`,
/// and succeeds exactly when the number so named is at most `max`.
pub proof fn lemma_accumulate_value(s: Seq<char>, acc: nat, max: nat)
    requires
        all_digits(s),
    ensures
        accumulate(s, acc, max) is Ok ==> accumulate(s, acc, max) == Ok::<nat, IntError>(
            acc * pow10(s.len()) + value_of(s),
        ),
        acc * pow10(s.len()) + value_of(s) <= max ==> accumulate(s, acc, max) is Ok,
    decreases s.len(),
{
    if s.len() == 0 {
        assert(acc * pow10(0) == acc) by (nonlinear_arith)
            requires
                pow10(0) == 1,
        ;
    } else {
        let d = digit_value(s[0]);
        let t = s.drop_first();
        let p = pow10(t.len());
        let next = acc * 10 + d;
        lemma_value_of_front(s);
        assert(all_digits(t)) by {
            assert forall|i: int| 0 <= i < t.len() implies is_digit(#[trigger] t[i]) by {
                assert(t[i] == s[i + 1]);
            }
        }
        lemma_pow10_positive(t.len());
        assert(pow10(s.len()) == 10 * p);
        assert(acc * pow10(s.len()) + value_of(s) == next * p + value_of(t)) by (nonlinear_arith)
            requires
                pow10(s.len()) == 10 * p,
                value_of(s) == d * p + value_of(t),
                next == acc * 10 + d,
        ;
        if next > max {
            assert(next * p >= next) by (nonlinear_arith)
                requires
                    p >= 1,
            ;
        } else {
            lemma_accumulate_value(t, next, max);
        }
    }
}

/// A text is an unsigned number of at most `max` exactly when, after an
/// optional `+`, it is one or more digits that name a number of at most
/// `max`; and that number is what is read.
pub proof fn lemma_unsigned_reads_digits(s: Seq<char>, max: nat)
    ensures
        unsigned(s, max) is Ok <==> digits_of(s).len() > 0 && all_digits(digits_of(s)) && value_of(
            digits_of(s),
        ) <= max,
        unsigned(s, max) matches Ok(n) ==> n == value_of(digits_of(s)),
{
    let digits = digits_of(s);
    lemma_unsigned_is_bounded(s, max);
    if digits.len() > 0 {
        lemma_accumulate_reads_digits(digits, 0, max);
        if all_digits(digits) {
            lemma_accumulate_value(digits, 0, max);
            assert(0 * pow10(digits.len()) == 0) by (nonlinear_arith);
        }
    }
}

/// Only digits are read.
proof fn lemma_accumulate_reads_digits(s: Seq<char>, acc: nat, max: nat)
    ensures
        accumulate(s, acc, max) is Ok ==> all_digits(s),
    decreases s.len(),
{
    if s.len() > 0 && is_digit(s[0]) && acc * 10 + digit_value(s[0]) <= max {
        let t = s.drop_first();
        lemma_accumulate_reads_digits(t, acc * 10 + digit_value(s[0]), max);
        if all_digits(t) {
            assert forall|i: int| 0 <= i < s.len() implies is_digit(#[trigger] s[i]) by {
                if i > 0 {
                    assert(s[i] == t[i - 1]);
                }
            }
        }
    }
}

/// A number that is read is at most the maximum.
pub proof fn lemma_unsigned_is_bounded(s: Seq<char>, max: nat)
    ensures
        unsigned(s, max) matches Ok(n) ==> n <= max,
{
    if s.len() > 0 {
        let digits = if s[0] == '+' {
            s.drop_first()
        } else {
            s
        };
        lemma_accumulate_is_bounded(digits, 0, max);
    }
}

/// A number that is read onto one within the maximum stays within it.
proof fn lemma_accumulate_is_bounded(s: Seq<char>, acc: nat, max: nat)
    requires
        acc <= max,
    ensures
        accumulate(s, acc, max) matches Ok(n) ==> n <= max,
    decreases s.len(),
{
    if s.len() > 0 && is_digit(s[0]) && acc * 10 + digit_value(s[0]) <= max {
        lemma_accumulate_is_bounded(s.drop_first(), acc * 10 + digit_value(s[0]), max);
    }
}

/// A power of ten is at least one.
pub proof fn lemma_pow10_positive(n: nat)
    ensures
        pow10(n) >= 1,
    decreases n,
{
    if n > 0 {
        lemma_pow10_positive((n - 1) as nat);
    }
}

/// The value of a run of digits, taken from its first digit.
pub proof fn lemma_value_of_front(s: Seq<char>)
    requires
        s.len() > 0,
        all_digits(s),
    ensures
        value_of(s) == digit_value(s[0]) * pow10((s.len() - 1) as nat) + value_of(s.drop_first()),
    decreases s.len(),
{
    let d = digit_value(s[0]);
    if s.len() == 1 {
        assert(s.drop_last() =~= Seq::<char>::empty());
        assert(s.drop_first() =~= Seq::<char>::empty());
        assert(value_of(Seq::<char>::empty()) == 0);
        assert(d * pow10(0) == d) by (nonlinear_arith)
            requires
                pow10(0) == 1,
        ;
    } else {
        let init = s.drop_last();
        let tail = s.drop_first();
        assert(all_digits(init)) by {
            assert forall|i: int| 0 <= i < init.len() implies is_digit(#[trigger] init[i]) by {
                assert(init[i] == s[i]);
            }
        }
        lemma_value_of_front(init);
        assert(init.drop_first() =~= tail.drop_last());
        assert(init[0] == s[0]);
        assert(tail.last() == s.last());
        let p = pow10((init.len() - 1) as nat);
        let x = value_of(init.drop_first());
        let l = digit_value(s.last());
        assert(pow10((s.len() - 1) as nat) == 10 * p);
        assert(value_of(s) == value_of(init) * 10 + l);
        assert(value_of(tail) == x * 10 + l);
        assert(value_of(s) == d * pow10((s.len() - 1) as nat) + value_of(tail)) by (nonlinear_arith)
            requires
                value_of(s) == value_of(init) * 10 + l,
                value_of(init) == d * p + x,
                value_of(tail) == x * 10 + l,
                pow10((s.len() - 1) as nat) == 10 * p,
        ;
    }
}

/// The decimal digits of a number are digits, name the number, and carry no
/// sign.
pub proof fn lemma_decimal(n: nat)
    ensures
        decimal(n).len() > 0,
        all_digits(decimal(n)),
        value_of(decimal(n)) == n,
    decreases n,
{
    if n < 10 {
        let s = decimal(n);
        assert(s.drop_last() =~= Seq::<char>::empty());
        assert(value_of(s.drop_last()) == 0);
        lemma_digit_char(n);
    } else {
        lemma_decimal(n / 10);
        lemma_digit_char(n % 10);
        let s = decimal(n);
        assert(s.drop_last() =~= decimal(n / 10));
        assert forall|i: int| 0 <= i < s.len() implies is_digit(#[trigger] s[i]) by {
            if i < s.len() - 1 {
                assert(s[i] == decimal(n / 10)[i]);
            }
        }
    }
}

/// The character of a digit is a digit of that value.
pub proof fn lemma_digit_char(d: nat)
    requires
        d < 10,
    ensures
        is_digit(digit_char(d)),
        digit_value(digit_char(d)) == d,
        digit_char(d) != '+',
{
    let b = (0x30 + d) as u8;
    assert(b as char as u32 == b as u32);
}

/// Writing a number in decimal and reading it back gives the number, for
/// every number up to the maximum.
pub proof fn lemma_unsigned_of_decimal(n: nat, max: nat)
    requires
        n <= max,
    ensures
        unsigned(decimal(n), max) == Ok::<nat, IntError>(n),
{
    lemma_decimal(n);
    let s = decimal(n);
    assert(is_digit(s[0]));
    lemma_accumulate_value(s, 0, max);
    assert(0 * pow10(s.len()) == 0) by (nonlinear_arith);
}

} // verus!
