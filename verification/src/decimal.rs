//! Whole numbers in decimal notation.

use vstd::prelude::*;

verus! {

/// The digit for `d`.
pub open spec fn digit(d: nat) -> char
    recommends
        d < 10,
{
    (('0' as nat) + d) as char
}

/// The notation of `n`, without superfluous zeros.
pub open spec fn numeral(n: nat) -> Seq<char>
    decreases n,
{
    if n < 10 {
        seq![digit(n)]
    } else {
        numeral(n / 10).push(digit(n % 10))
    }
}

pub open spec fn is_digit(c: char) -> bool {
    '0' <= c <= '9'
}

/// The number that a sequence of digits stands for.
pub open spec fn number(digits: Seq<char>) -> nat
    decreases digits.len(),
{
    if digits.len() == 0 {
        0
    } else {
        (10 * number(digits.drop_last()) + (digits.last() as nat - '0' as nat)) as nat
    }
}

/// `text` without its plus sign, if it begins with one.
pub open spec fn unsigned(text: Seq<char>) -> Seq<char> {
    if text.len() > 0 && text[0] == '+' {
        text.skip(1)
    } else {
        text
    }
}

/// The number that `text` is the notation of. There may be a plus sign, and
/// superfluous zeros; nothing else may be there, and there must be a digit.
pub open spec fn meaning(text: Seq<char>) -> Option<nat> {
    let digits = unsigned(text);
    if digits.len() > 0 && forall|i: int|
        0 <= i < digits.len() ==> is_digit(#[trigger] digits[i]) {
        Some(number(digits))
    } else {
        None
    }
}

/// The digit for `d`, as a string.
fn digit_str(d: u64) -> (text: &'static str)
    requires
        d < 10,
    ensures
        text@ == seq![digit(d as nat)],
{
    proof {
        reveal_strlit("0");
        reveal_strlit("1");
        reveal_strlit("2");
        reveal_strlit("3");
        reveal_strlit("4");
        reveal_strlit("5");
        reveal_strlit("6");
        reveal_strlit("7");
        reveal_strlit("8");
        reveal_strlit("9");
    }
    let text = match d {
        0 => "0",
        1 => "1",
        2 => "2",
        3 => "3",
        4 => "4",
        5 => "5",
        6 => "6",
        7 => "7",
        8 => "8",
        _ => "9",
    };
    assert(text@ =~= seq![digit(d as nat)]);
    text
}

/// Appends the notation of `n` to `text`.
pub fn append_u64(text: &mut String, n: u64)
    ensures
        final(text)@ == old(text)@ + numeral(n as nat),
    decreases n,
{
    if n >= 10 {
        append_u64(text, n / 10);
    }
    text.append(digit_str(n % 10));
    assert(text@ =~= old(text)@ + numeral(n as nat));
}

proof fn lemma_number_grows(digits: Seq<char>, i: int)
    requires
        0 <= i <= digits.len(),
        forall|k: int| 0 <= k < digits.len() ==> is_digit(#[trigger] digits[k]),
    ensures
        number(digits.take(i)) <= number(digits),
    decreases digits.len() - i,
{
    if i == digits.len() {
        assert(digits.take(i) =~= digits);
    } else {
        lemma_number_grows(digits, i + 1);
        assert(digits.take(i + 1).drop_last() =~= digits.take(i));
        assert(is_digit(digits[i]));
        assert(digits.take(i + 1).last() == digits[i]);
    }
}

/// Reads the notation of a number of 64 bits.
pub fn parse_u64(text: &str) -> (number: Option<u64>)
    ensures
        number == match meaning(text@) {
            Some(n) => if n <= u64::MAX {
                Some(n as u64)
            } else {
                None
            },
            None => None,
        },
{
    let len: usize = text.unicode_len();
    let ghost digits = unsigned(text@);
    let skipped: usize = if len > 0 && text.get_char(0) == '+' {
        1
    } else {
        0
    };
    if skipped == len {
        return None;
    }
    let mut number: u64 = 0;
    let mut i: usize = skipped;
    while i < len
        invariant
            len == text@.len(),
            digits == unsigned(text@),
            digits == text@.skip(skipped as int),
            skipped <= i <= len,
            skipped < len,
            number == self::number(digits.take(i - skipped)),
            forall|k: int| 0 <= k < i - skipped ==> is_digit(#[trigger] digits[k]),
        decreases len - i,
    {
        let c: char = text.get_char(i);
        assert(c == digits[i - skipped]);
        if c < '0' || c > '9' {
            return None;
        }
        let d: u64 = c as u64 - '0' as u64;
        proof {
            let k = i - skipped;
            assert(digits.take(k + 1).drop_last() =~= digits.take(k));
            assert(digits.take(k + 1).last() == c);
            if forall|m: int| 0 <= m < digits.len() ==> is_digit(#[trigger] digits[m]) {
                lemma_number_grows(digits, k + 1);
            }
        }
        if number > (u64::MAX - d) / 10 {
            return None;
        }
        number = number * 10 + d;
        i = i + 1;
    }
    assert(digits.take(len - skipped) =~= digits);
    Some(number)
}

/// Reads the notation of a number that fits a `usize`.
pub fn parse_usize(text: &str) -> (number: Option<usize>)
    ensures
        number == match meaning(text@) {
            Some(n) => if n <= usize::MAX {
                Some(n as usize)
            } else {
                None
            },
            None => None,
        },
{
    match parse_u64(text) {
        Some(number) => if number <= usize::MAX as u64 {
            Some(number as usize)
        } else {
            None
        },
        None => None,
    }
}

/// What is written can be read: the notation of a number means that number.
pub proof fn law_numerals_are_read_back(n: nat)
    ensures
        meaning(numeral(n)) == Some(n),
        forall|i: int| 0 <= i < numeral(n).len() ==> is_digit(#[trigger] numeral(n)[i]),
        numeral(n).len() > 0,
    decreases n,
{
    if n >= 10 {
        law_numerals_are_read_back(n / 10);
        assert(numeral(n).drop_last() =~= numeral(n / 10));
        assert(is_digit(digit(n % 10)));
        assert(unsigned(numeral(n / 10)) == numeral(n / 10)) by {
            assert(is_digit(numeral(n / 10)[0]));
        }
        assert(is_digit(numeral(n)[0]));
        assert(number(numeral(n)) == 10 * number(numeral(n / 10)) + n % 10);
    } else {
        assert(numeral(n).drop_last() =~= Seq::empty());
        assert(is_digit(numeral(n)[0]));
        assert(number(numeral(n).drop_last()) == 0);
        assert(number(numeral(n)) == n);
    }
}

/// A digit stands for its distance from zero, and each digit that follows makes
/// what stands before it count tenfold.
pub proof fn law_digits_count_tenfold(digits: Seq<char>, next: char)
    requires
        '0' <= next <= '9',
        forall|i: int| 0 <= i < digits.len() ==> '0' <= #[trigger] digits[i] <= '9',
    ensures
        meaning(seq![next]) == Some((next as int - '0' as int) as nat),
        digits.len() > 0 ==> meaning(digits) is Some,
        digits.len() > 0 ==> meaning(digits.push(next)) == Some(
            (10 * meaning(digits)->0 + (next as int - '0' as int)) as nat,
        ),
{
    let one = seq![next];
    assert(is_digit(one[0]));
    assert(one.drop_last() =~= Seq::<char>::empty());
    assert(number(one.drop_last()) == 0);
    if digits.len() > 0 {
        let more = digits.push(next);
        assert(digits[0] <= '9');
        assert(more[0] == digits[0]);
        assert(more.drop_last() =~= digits);
        assert forall|i: int| 0 <= i < digits.len() implies is_digit(#[trigger] digits[i]) by {}
        assert forall|i: int| 0 <= i < more.len() implies is_digit(#[trigger] more[i]) by {
            if i < digits.len() {
                assert(more[i] == digits[i]);
            }
        }
    }
}

/// Only digits mean something, with one plus sign before them or none; and the
/// sign makes no difference.
pub proof fn law_only_digits_mean_something(text: Seq<char>)
    ensures
        meaning(text) is Some ==> text.len() > 0 && ('0' <= text.last() <= '9') && forall|i: int|
            0 < i < text.len() ==> '0' <= #[trigger] text[i] <= '9',
        meaning(text) is Some ==> text[0] == '+' || '0' <= text[0] <= '9',
        text.len() > 0 && text[0] != '+' ==> meaning(seq!['+'] + text) == meaning(text),
        meaning(Seq::<char>::empty()) is None,
        meaning(seq!['+']) is None,
{
    let digits = unsigned(text);
    if meaning(text) is Some {
        assert(is_digit(digits[digits.len() - 1]));
        assert forall|i: int| 0 < i < text.len() implies '0' <= #[trigger] text[i] <= '9' by {
            if digits.len() < text.len() {
                assert(is_digit(digits[i - 1]));
            } else {
                assert(is_digit(digits[i]));
            }
        }
        assert(is_digit(digits[0]));
    }
    if text.len() > 0 && text[0] != '+' {
        assert(unsigned(seq!['+'] + text) =~= text);
    }
    assert(unsigned(seq!['+']) =~= Seq::<char>::empty());
}

/// No notation begins with a superfluous zero.
pub proof fn law_numerals_are_short(n: nat)
    ensures
        n > 0 ==> numeral(n)[0] != '0',
        numeral(n).len() > 0,
        numeral(0) == seq!['0'],
    decreases n,
{
    if n >= 10 {
        law_numerals_are_short(n / 10);
        assert(numeral(n)[0] == numeral(n / 10)[0]);
    }
}

} // verus!
