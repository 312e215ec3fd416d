//! Decimal numbers as they are written in key-value documents.

use vstd::prelude::*;
use vstd::string::*;

verus! {

/// Whether `c` is one of the ten ASCII digits.
pub open spec fn is_digit(c: char) -> bool {
    48 <= c as u32 <= 57
}

/// The number that the digit `c` stands for.
pub open spec fn digit_value(c: char) -> nat {
    (c as u32 - 48) as nat
}

/// Whether `s` is a non-empty run of ASCII digits.
pub open spec fn is_decimal(s: Seq<char>) -> bool {
    s.len() > 0 && forall|i: int| 0 <= i < s.len() ==> is_digit(#[trigger] s[i])
}

/// The number that a run of digits denotes in base ten.
pub open spec fn decimal_value(s: Seq<char>) -> nat
    decreases s.len(),
{
    if s.len() == 0 {
        0
    } else {
        10 * decimal_value(s.drop_last()) + digit_value(s.last())
    }
}

/// The digits of an unsigned number: the text without its optional leading `+`.
pub open spec fn unsigned_digits(s: Seq<char>) -> Seq<char> {
    if s.len() > 0 && s[0] == '+' {
        s.drop_first()
    } else {
        s
    }
}

/// The unsigned number written in `s`, where there is one and it does not exceed `max`.
///
/// A number is an optional `+` followed by at least one digit; leading zeros are allowed.
pub open spec fn parse_unsigned(s: Seq<char>, max: nat) -> Option<nat> {
    let digits = unsigned_digits(s);
    if is_decimal(digits) && decimal_value(digits) <= max {
        Some(decimal_value(digits))
    } else {
        None
    }
}

/// The flag written in `s`: `"0"` is false, `"1"` is true, anything else is not a flag.
pub open spec fn parse_flag(s: Seq<char>) -> Option<bool> {
    if s == seq!['0'] {
        Some(false)
    } else if s == seq!['1'] {
        Some(true)
    } else {
        None
    }
}

/// A run of digits denotes at least as much as any of its prefixes.
pub proof fn lemma_decimal_value_grows(s: Seq<char>, k: int)
    requires
        0 <= k <= s.len(),
    ensures
        decimal_value(s.take(k)) <= decimal_value(s),
    decreases s.len() - k,
{
    if k == s.len() {
        assert(s.take(k) =~= s);
    } else {
        lemma_decimal_value_grows(s, k + 1);
        assert(s.take(k + 1).drop_last() =~= s.take(k));
    }
}

/// Reads an unsigned 64-bit number.
pub fn parse_u64(s: &str) -> (r: Option<u64>)
    ensures
        r is Some <==> parse_unsigned(s@, u64::MAX as nat) is Some,
        r is Some ==> r->0 == parse_unsigned(s@, u64::MAX as nat)->0,
{
    let ghost digits = unsigned_digits(s@);
    let ghost skip: int = s@.len() - digits.len();
    let mut value: u64 = 0;
    let mut seen: usize = 0;
    let mut index: usize = 0;
    let n: usize = s.unicode_len();
    proof {
        assert(digits.take(0) =~= Seq::<char>::empty());
    }
    for c in it: s.chars()
        invariant
            n == s@.len(),
            it.seq() == s@,
            index == it.index(),
            digits == unsigned_digits(s@),
            skip == s@.len() - digits.len(),
            0 <= skip <= 1,
            skip <= index || index == 0,
            seen == if index == 0 { 0 } else { index - skip },
            seen <= digits.len(),
            forall|i: int| 0 <= i < seen ==> is_digit(#[trigger] digits[i]),
            value == decimal_value(digits.take(seen as int)),
    {
        let code: u32 = c as u32;
        if index == 0 && c == '+' {
            assert(skip == 1);
        } else {
            assert(digits[seen as int] == c);
            if code < 48 || code > 57 {
                assert(!is_digit(digits[seen as int]));
                return None;
            }
            let d: u64 = (code - 48) as u64;
            proof {
                assert(digits.take(seen + 1).drop_last() =~= digits.take(seen as int));
                assert(decimal_value(digits.take(seen + 1)) == 10 * value + d);
                lemma_decimal_value_grows(digits, seen + 1);
            }
            if value > (u64::MAX - d) / 10 {
                return None;
            }
            value = value * 10 + d;
            seen = seen + 1;
        }
        index = index + 1;
    }
    proof {
        assert(digits.take(seen as int) =~= digits);
    }
    if seen == 0 {
        None
    } else {
        Some(value)
    }
}

/// Reads an unsigned 32-bit number.
pub fn parse_u32(s: &str) -> (r: Option<u32>)
    ensures
        r is Some <==> parse_unsigned(s@, u32::MAX as nat) is Some,
        r is Some ==> r->0 == parse_unsigned(s@, u32::MAX as nat)->0,
{
    match parse_u64(s) {
        Some(v) => if v <= u32::MAX as u64 {
            Some(v as u32)
        } else {
            None
        },
        None => None,
    }
}

/// Reads an unsigned number of the machine's word size.
pub fn parse_usize(s: &str) -> (r: Option<usize>)
    ensures
        r is Some <==> parse_unsigned(s@, usize::MAX as nat) is Some,
        r is Some ==> r->0 == parse_unsigned(s@, usize::MAX as nat)->0,
{
    match parse_u64(s) {
        Some(v) => if v <= usize::MAX as u64 {
            Some(v as usize)
        } else {
            None
        },
        None => None,
    }
}

/// Reads a flag: `"0"` or `"1"`.
pub fn parse_bool(s: &str) -> (r: Option<bool>)
    ensures
        r == parse_flag(s@),
{
    let n: usize = s.unicode_len();
    if n != 1 {
        return None;
    }
    let c: char = s.get_char(0);
    if c == '0' {
        assert(s@ =~= seq!['0']);
        Some(false)
    } else if c == '1' {
        assert(s@ =~= seq!['1']);
        Some(true)
    } else {
        None
    }
}

/// The digit that stands for a number below ten.
pub open spec fn digit_char(d: nat) -> char {
    if d == 0 {
        '0'
    } else if d == 1 {
        '1'
    } else if d == 2 {
        '2'
    } else if d == 3 {
        '3'
    } else if d == 4 {
        '4'
    } else if d == 5 {
        '5'
    } else if d == 6 {
        '6'
    } else if d == 7 {
        '7'
    } else if d == 8 {
        '8'
    } else {
        '9'
    }
}

/// A number written in base ten, without sign and without leading zeros.
pub open spec fn decimal_text(n: nat) -> Seq<char>
    decreases n,
{
    if n < 10 {
        seq![digit_char(n)]
    } else {
        decimal_text(n / 10).push(digit_char(n % 10))
    }
}

/// What is written for a number reads back as that number.
pub proof fn lemma_decimal_text_reads_back(n: nat)
    ensures
        is_decimal(decimal_text(n)),
        decimal_text(n)[0] != '+',
        decimal_value(decimal_text(n)) == n,
        forall|max: nat| n <= max ==> parse_unsigned(decimal_text(n), max) == Some(n),
    decreases n,
{
    let text = decimal_text(n);
    if n < 10 {
        assert(text.drop_last() =~= Seq::<char>::empty());
        assert(decimal_value(text.drop_last()) == 0);
        assert(digit_value(digit_char(n)) == n);
    } else {
        lemma_decimal_text_reads_back(n / 10);
        assert(text.drop_last() =~= decimal_text(n / 10));
        assert(digit_value(digit_char(n % 10)) == n % 10);
        assert(text[0] == decimal_text(n / 10)[0]);
    }
    assert(unsigned_digits(text) == text);
}

/// The text of one digit.
fn digit_text(d: u64) -> (r: &'static str)
    requires
        d < 10,
    ensures
        r@ == seq![digit_char(d as nat)],
{
    proof {
        reveal_strlit("0");
        reveal_strlit("1");
        reveal_strlit("2");
        reveal_strlit("3");
        reveal_strlit("4");
        reveal_strlit("5");
        reveal_strlit("6");
        reveal_strlit("7");
        reveal_strlit("8");
        reveal_strlit("9");
    }
    let r: &'static str = if d == 0 {
        "0"
    } else if d == 1 {
        "1"
    } else if d == 2 {
        "2"
    } else if d == 3 {
        "3"
    } else if d == 4 {
        "4"
    } else if d == 5 {
        "5"
    } else if d == 6 {
        "6"
    } else if d == 7 {
        "7"
    } else if d == 8 {
        "8"
    } else {
        "9"
    };
    assert(r@ =~= seq![digit_char(d as nat)]);
    r
}

/// Writes a number in base ten.
pub fn number_text(n: u64) -> (r: String)
    ensures
        r@ == decimal_text(n as nat),
    decreases n,
{
    if n < 10 {
        String::from_str(digit_text(n))
    } else {
        let mut text: String = number_text(n / 10);
        text.append(digit_text(n % 10));
        proof {
            assert(text@ =~= decimal_text(n as nat));
        }
        text
    }
}

} // verus!
