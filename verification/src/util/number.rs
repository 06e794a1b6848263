use vstd::prelude::*;

verus! {

/// The value of a character as a digit in `radix`: `0` to `9`, then the
/// letters of either case from ten on; `None` for any other character and for
/// a digit that `radix` does not have.
pub open spec fn digit_of(c: char, radix: nat) -> Option<nat> {
    let code = c as u32;
    let value: Option<nat> = if 0x30 <= code <= 0x39 {
        Some((code - 0x30) as nat)
    } else if 0x61 <= code <= 0x7a {
        Some((code - 0x61 + 10) as nat)
    } else if 0x41 <= code <= 0x5a {
        Some((code - 0x41 + 10) as nat)
    } else {
        None
    };
    match value {
        Some(d) => if d < radix {
            Some(d)
        } else {
            None
        },
        None => None,
    }
}

/// The number that a sequence of digits writes in `radix`, the most
/// significant digit first; `None` where a character is no digit.
pub open spec fn number_of(digits: Seq<char>, radix: nat) -> Option<nat>
    decreases digits.len(),
{
    if digits.len() == 0 {
        Some(0)
    } else {
        match (number_of(digits.drop_last(), radix), digit_of(digits.last(), radix)) {
            (Some(high), Some(d)) => Some(high * radix + d),
            _ => None,
        }
    }
}

/// The digits of a text: what follows an optional `+` sign.
pub open spec fn digits_of(text: Seq<char>) -> Seq<char> {
    if text.len() > 0 && text[0] == '+' {
        text.skip(1)
    } else {
        text
    }
}

/// The number below 256 that a text writes in `radix`: an optional `+`, then
/// at least one digit and nothing else.
pub open spec fn u8_of(text: Seq<char>, radix: nat) -> Option<u8> {
    if digits_of(text).len() == 0 {
        None
    } else {
        match number_of(digits_of(text), radix) {
            Some(n) => if n <= 255 {
                Some(n as u8)
            } else {
                None
            },
            None => None,
        }
    }
}

/// A sequence with a character that is no digit writes no number.
pub proof fn lemma_bad_digit(digits: Seq<char>, radix: nat, k: int)
    requires
        0 <= k < digits.len(),
        digit_of(digits[k], radix).is_none(),
    ensures
        number_of(digits, radix).is_none(),
    decreases digits.len(),
{
    if k < digits.len() - 1 {
        lemma_bad_digit(digits.drop_last(), radix, k);
    }
}

/// More digits do not write a smaller number.
pub proof fn lemma_number_grows(digits: Seq<char>, radix: nat, k: int)
    requires
        0 <= k <= digits.len(),
        radix >= 1,
    ensures
        number_of(digits, radix) matches Some(n) ==> number_of(digits.take(k), radix) matches Some(
            m,
        ) && m <= n,
    decreases digits.len() - k,
{
    if k == digits.len() {
        assert(digits.take(k) =~= digits);
    } else {
        if number_of(digits, radix).is_some() {
            let head = digits.drop_last();
            lemma_number_grows(head, radix, k);
            assert(head.take(k) =~= digits.take(k));
            let high = number_of(head, radix).unwrap();
            assert(high * radix >= high) by (nonlinear_arith)
                requires
                    radix >= 1,
                    high >= 0,
            ;
        }
    }
}

/// The value of a character as a digit in `radix`.
pub fn digit_value(c: char, radix: u32) -> (r: Option<u32>)
    requires
        2 <= radix <= 36,
    ensures
        r matches Some(d) ==> digit_of(c, radix as nat) == Some(d as nat) && d < radix,
        r.is_none() ==> digit_of(c, radix as nat).is_none(),
{
    let code: u32 = c as u32;
    let value: u32 = if 0x30 <= code && code <= 0x39 {
        code - 0x30
    } else if 0x61 <= code && code <= 0x7a {
        code - 0x61 + 10
    } else if 0x41 <= code && code <= 0x5a {
        code - 0x41 + 10
    } else {
        return None;
    };
    if value < radix {
        Some(value)
    } else {
        None
    }
}

/// Reads a number below 256 written in `radix`: an optional `+`, then at
/// least one digit and nothing else.
pub fn parse_u8(text: &str, radix: u32) -> (r: Option<u8>)
    requires
        2 <= radix <= 36,
    ensures
        r == u8_of(text@, radix as nat),
{
    let n: usize = text.unicode_len();
    let start: usize = if n > 0 && text.get_char(0) == '+' {
        1
    } else {
        0
    };
    if start == n {
        return None;
    }
    let ghost digits = digits_of(text@);
    let mut acc: u32 = 0;
    let mut i: usize = start;
    proof {
        assert(digits.take(0) =~= Seq::<char>::empty());
    }
    while i < n
        invariant
            start <= i <= n,
            n == text@.len(),
            start <= 1,
            2 <= radix <= 36,
            digits == digits_of(text@),
            digits.len() == n - start,
            forall|j: int| 0 <= j < digits.len() ==> digits[j] == text@[j + start],
            number_of(digits.take(i - start), radix as nat) == Some(acc as nat),
            acc <= 255,
        decreases n - i,
    {
        let c: char = text.get_char(i);
        proof {
            let now = digits.take(i - start + 1);
            assert(now.drop_last() =~= digits.take(i - start));
            assert(now.last() == c);
        }
        match digit_value(c, radix) {
            None => {
                proof {
                    lemma_bad_digit(digits, radix as nat, i - start);
                }
                return None;
            },
            Some(d) => {
                assert(acc * radix <= 255 * 36) by (nonlinear_arith)
                    requires
                        acc <= 255,
                        radix <= 36,
                ;
                let next: u32 = acc * radix + d;
                if next > 255 {
                    proof {
                        lemma_number_grows(digits, radix as nat, i - start + 1);
                    }
                    return None;
                }
                acc = next;
            },
        }
        i += 1;
    }
    proof {
        assert(digits.take(n - start) =~= digits);
    }
    Some(acc as u8)
}

/// The character that writes the digit `d`, for a digit below sixteen: `0`
/// to `9`, then `a` to `f`.
pub open spec fn digit_char(d: nat) -> char {
    if d < 10 {
        ((0x30 + d) as u8) as char
    } else {
        ((0x57 + d) as u8) as char
    }
}

/// A number in decimal notation, without a sign and without leading zeros.
pub open spec fn decimal(n: nat) -> Seq<char>
    decreases n,
{
    if n < 10 {
        seq![digit_char(n)]
    } else {
        decimal(n / 10).push(digit_char(n % 10))
    }
}

/// The character of a digit is read as that digit in every radix that has
/// the digit.
pub proof fn lemma_digit_char_reads_back(d: nat, radix: nat)
    requires
        d < 16,
        d < radix,
    ensures
        digit_of(digit_char(d), radix) == Some(d),
        digit_char(d) != '+',
{
}

/// A number in decimal notation is read as that number.
pub proof fn lemma_decimal_reads_back(n: nat)
    ensures
        decimal(n).len() >= 1,
        decimal(n)[0] != '+',
        number_of(decimal(n), 10) == Some(n),
        digits_of(decimal(n)) == decimal(n),
        n <= 255 ==> u8_of(decimal(n), 10) == Some(n as u8),
    decreases n,
{
    if n < 10 {
        lemma_digit_char_reads_back(n, 10);
        assert(decimal(n).drop_last() =~= Seq::<char>::empty());
        assert(number_of(decimal(n).drop_last(), 10) == Some(0nat));
    } else {
        lemma_decimal_reads_back(n / 10);
        lemma_digit_char_reads_back(n % 10, 10);
        assert(decimal(n).drop_last() =~= decimal(n / 10));
        assert(decimal(n)[0] == decimal(n / 10)[0]);
    }
}

/// A single digit is read as its value.
pub proof fn lemma_digit_reads_back(d: nat, radix: nat)
    requires
        d < 16,
        d < radix,
    ensures
        u8_of(seq![digit_char(d)], radix) == Some(d as u8),
{
    let text = seq![digit_char(d)];
    lemma_digit_char_reads_back(d, radix);
    assert(digits_of(text) == text);
    assert(text.drop_last() =~= Seq::<char>::empty());
    assert(number_of(text.drop_last(), radix) == Some(0nat));
    assert(number_of(text, radix) == Some(d)) by {
        assert(0 * radix + d == d);
    }
}

} // verus!
