//! Laws on strings.

use crate::text;
use vstd::prelude::*;

verus! {

/// A decimal text is digits without a leading zero, and reading it digit by digit
/// gives the number back.
pub proof fn law_decimal_reads_back(n: nat)
    ensures
        text::decimal(n).len() > 0,
        forall|i: int| 0 <= i < text::decimal(n).len() ==> '0' <= #[trigger] text::decimal(n)[i] <= '9',
        text::decimal(n).len() > 1 ==> text::decimal(n)[0] != '0',
        text::decimal(n).fold_left(0int, |acc: int, c: char| 10 * acc + (c as int - '0' as int))
            == n,
    decreases n,
{
    let f = |acc: int, c: char| 10 * acc + (c as int - '0' as int);
    let s = text::decimal(n);
    if n < 10 {
        assert(s.drop_last() =~= seq![]);
        assert(s.drop_last().fold_left(0int, f) == 0);
    } else {
        law_decimal_reads_back(n / 10);
        let earlier = text::decimal(n / 10);
        assert(s.drop_last() =~= earlier);
        assert(s[0] == earlier[0]);
        if earlier.len() == 1 {
            assert(earlier.drop_last() =~= seq![]);
            assert(earlier.drop_last().fold_left(0int, f) == 0);
            assert(earlier.fold_left(0int, f) == f(0, earlier[0]));
        }
    }
}

/// A number is written as a decimal text.
pub proof fn law_decimal_text(n: u64, res: String)
    requires
        call_ensures(text::decimal_text, (n,), res),
    ensures
        res@.len() > 0,
        forall|i: int| 0 <= i < res@.len() ==> '0' <= #[trigger] res@[i] <= '9',
        res@.len() > 1 ==> res@[0] != '0',
        res@.fold_left(0int, |acc: int, c: char| 10 * acc + (c as int - '0' as int)) == n,
        res@ == text::decimal(n as nat),
{
    law_decimal_reads_back(n as nat);
}

/// A text has the prefix exactly if its first two characters are `0` and `x`.
pub proof fn law_hex_prefix(s: &str, res: bool)
    requires
        call_ensures(text::starts_with_hex_prefix, (s,), res),
    ensures
        res <==> s@.len() >= 2 && s@[0] == '0' && s@[1] == 'x',
        res == text::has_hex_prefix(s@),
{
}

/// Trimming takes off a number of prefixes and nothing else, and leaves none.
pub proof fn law_without_hex_prefixes(s: Seq<char>)
    ensures
        ({
            let rest = text::without_hex_prefixes(s);
            &&& rest.len() <= s.len()
            &&& (s.len() - rest.len()) % 2 == 0
            &&& rest == s.skip(s.len() - rest.len())
            &&& forall|i: int|
                0 <= i < s.len() - rest.len() ==> #[trigger] s[i] == if i % 2 == 0 {
                    '0'
                } else {
                    'x'
                }
            &&& !(rest.len() >= 2 && rest[0] == '0' && rest[1] == 'x')
        }),
    decreases s.len(),
{
    let rest = text::without_hex_prefixes(s);
    if text::has_hex_prefix(s) {
        let shorter = s.skip(2);
        law_without_hex_prefixes(shorter);
        assert(rest =~= s.skip(s.len() - rest.len()));
        assert forall|i: int| 0 <= i < s.len() - rest.len() implies #[trigger] s[i] == if i % 2
            == 0 {
            '0'
        } else {
            'x'
        } by {
            if i >= 2 {
                assert(shorter[i - 2] == s[i]);
            }
        }
    } else {
        assert(s.skip(0) =~= s);
    }
}

/// Trimming a text takes off every leading prefix and nothing else.
pub proof fn law_trim_hex_prefixes(s: &str, res: &str)
    requires
        call_ensures(text::trim_hex_prefixes, (s,), res),
    ensures
        res@.len() <= s@.len(),
        (s@.len() - res@.len()) % 2 == 0,
        res@ == s@.skip(s@.len() - res@.len()),
        forall|i: int|
            0 <= i < s@.len() - res@.len() ==> #[trigger] s@[i] == if i % 2 == 0 {
                '0'
            } else {
                'x'
            },
        !(res@.len() >= 2 && res@[0] == '0' && res@[1] == 'x'),
        res@ == text::without_hex_prefixes(s@),
{
    law_without_hex_prefixes(s@);
}

/// A text is all digits exactly if each of its characters is a hexadecimal digit.
pub proof fn law_all_hex_digits(s: &str, res: bool)
    requires
        call_ensures(text::is_all_hex_digits, (s,), res),
    ensures
        res <==> forall|i: int|
            0 <= i < s@.len() ==> {
                ||| '0' <= #[trigger] s@[i] <= '9'
                ||| 'a' <= s@[i] <= 'f'
                ||| 'A' <= s@[i] <= 'F'
            },
        res == text::all_hex_digits(s@),
{
    if forall|i: int|
        0 <= i < s@.len() ==> {
            ||| '0' <= #[trigger] s@[i] <= '9'
            ||| 'a' <= s@[i] <= 'f'
            ||| 'A' <= s@[i] <= 'F'
        } {
        assert forall|i: int| 0 <= i < s@.len() implies text::is_hex_digit(#[trigger] s@[i]) by {}
    } else {
        let i = choose|i: int|
            0 <= i < s@.len() && !('0' <= #[trigger] s@[i] <= '9' || 'a' <= s@[i] <= 'f' || 'A'
                <= s@[i] <= 'F');
        assert(!text::is_hex_digit(s@[i]));
    }
}

proof fn lemma_hex_value(s: Seq<char>, f: spec_fn(int, char) -> int)
    requires
        text::all_hex_digits(s),
        forall|acc: int, c: char| #[trigger]
            f(acc, c) == 16 * acc + if c <= '9' {
                c as int - '0' as int
            } else if c <= 'F' {
                c as int - 'A' as int + 10
            } else {
                c as int - 'a' as int + 10
            },
    ensures
        text::hex_value(s) == s.fold_left(0int, f),
    decreases s.len(),
{
    if s.len() > 0 {
        let earlier = s.drop_last();
        assert forall|i: int| 0 <= i < earlier.len() implies text::is_hex_digit(
            #[trigger] earlier[i],
        ) by {
            assert(s[i] == earlier[i]);
        }
        lemma_hex_value(earlier, f);
        assert(text::is_hex_digit(s[s.len() - 1]));
    }
}

/// A text writes a number in hexadecimal exactly if it is one or more hexadecimal
/// digits behind at most one `+`; the number is what reading them digit by digit
/// gives.
pub proof fn law_hex_number(s: Seq<char>, digits: Seq<char>)
    requires
        digits == if s.len() > 0 && s[0] == '+' {
            s.skip(1)
        } else {
            s
        },
    ensures
        text::hex_number(s) is Some <==> digits.len() > 0 && forall|i: int|
            0 <= i < digits.len() ==> {
                ||| '0' <= #[trigger] digits[i] <= '9'
                ||| 'a' <= digits[i] <= 'f'
                ||| 'A' <= digits[i] <= 'F'
            },
        text::hex_number(s) matches Some(n) ==> n == digits.fold_left(
            0int,
            |acc: int, c: char|
                16 * acc + if c <= '9' {
                    c as int - '0' as int
                } else if c <= 'F' {
                    c as int - 'A' as int + 10
                } else {
                    c as int - 'a' as int + 10
                },
        ),
{
    if text::hex_number(s) is Some {
        assert(text::all_hex_digits(digits));
        assert forall|i: int| 0 <= i < digits.len() implies ('0' <= #[trigger] digits[i] <= '9'
            || 'a' <= digits[i] <= 'f' || 'A' <= digits[i] <= 'F') by {
            assert(text::is_hex_digit(digits[i]));
        }
        lemma_hex_value(
            digits,
            |acc: int, c: char|
                16 * acc + if c <= '9' {
                    c as int - '0' as int
                } else if c <= 'F' {
                    c as int - 'A' as int + 10
                } else {
                    c as int - 'a' as int + 10
                },
        );
    } else if digits.len() > 0 {
        let i = choose|i: int| 0 <= i < digits.len() && !text::is_hex_digit(#[trigger] digits[i]);
        assert(!text::is_hex_digit(digits[i]));
    }
}

} // verus!
