//! Strings: decimal and hexadecimal numbers, and the `0x` prefix.

use vstd::prelude::*;

verus! {

/// The character of a decimal digit.
pub open spec fn digit_char(digit: nat) -> char
    recommends
        digit < 10,
{
    ('0' as nat + digit) as char
}

/// `n` in decimal, without leading zeros.
pub open spec fn decimal(n: nat) -> Seq<char>
    decreases n,
{
    if n < 10 {
        seq![digit_char(n)]
    } else {
        decimal(n / 10).push(digit_char(n % 10))
    }
}

fn digit_text(digit: u64) -> (res: &'static str)
    requires
        digit < 10,
    ensures
        res@ == seq![digit_char(digit as nat)],
{
    proof {
        reveal_strlit("0");
        reveal_strlit("1");
        reveal_strlit("2");
        reveal_strlit("3");
        reveal_strlit("4");
        reveal_strlit("5");
        reveal_strlit("6");
        reveal_strlit("7");
        reveal_strlit("8");
        reveal_strlit("9");
    }
    match digit {
        0 => "0",
        1 => "1",
        2 => "2",
        3 => "3",
        4 => "4",
        5 => "5",
        6 => "6",
        7 => "7",
        8 => "8",
        _ => "9",
    }
}

/// Writes a number in decimal.
pub fn decimal_text(n: u64) -> (res: String)
    ensures
        res@ == decimal(n as nat),
    decreases n,
{
    if n < 10 {
        digit_text(n).to_string()
    } else {
        let mut res = decimal_text(n / 10);
        res.append(digit_text(n % 10));
        res
    }
}

/// Whether a text begins with `0x`.
pub open spec fn has_hex_prefix(s: Seq<char>) -> bool {
    s.len() >= 2 && s[0] == '0' && s[1] == 'x'
}

/// Whether a text begins with `0x`.
pub fn starts_with_hex_prefix(s: &str) -> (res: bool)
    ensures
        res == has_hex_prefix(s@),
{
    s.unicode_len() >= 2 && s.get_char(0) == '0' && s.get_char(1) == 'x'
}

/// What is left of a text once every leading `0x` is gone, however often it is
/// repeated.
pub open spec fn without_hex_prefixes(s: Seq<char>) -> Seq<char>
    decreases s.len(),
{
    if has_hex_prefix(s) {
        without_hex_prefixes(s.skip(2))
    } else {
        s
    }
}

/// Removes every leading `0x`.
pub fn trim_hex_prefixes(s: &str) -> (res: &str)
    ensures
        res@ == without_hex_prefixes(s@),
{
    let mut rest: &str = s;
    while starts_with_hex_prefix(rest)
        invariant
            without_hex_prefixes(rest@) == without_hex_prefixes(s@),
        decreases rest@.len(),
    {
        let len: usize = rest.unicode_len();
        let ghost before = rest@;
        rest = rest.substring_char(2, len);
        assert(rest@ == before.skip(2));
    }
    rest
}

/// An ASCII hexadecimal digit, in either case.
pub open spec fn is_hex_digit(c: char) -> bool {
    ||| '0' <= c <= '9'
    ||| 'a' <= c <= 'f'
    ||| 'A' <= c <= 'F'
}

/// Whether every character is an ASCII hexadecimal digit.
pub open spec fn all_hex_digits(s: Seq<char>) -> bool {
    forall|i: int| 0 <= i < s.len() ==> is_hex_digit(#[trigger] s[i])
}

/// Whether every character of a text is an ASCII hexadecimal digit.
pub fn is_all_hex_digits(s: &str) -> (res: bool)
    ensures
        res == all_hex_digits(s@),
{
    let len: usize = s.unicode_len();
    let mut i: usize = 0;
    while i < len
        invariant
            i <= len == s@.len(),
            forall|j: int| 0 <= j < i ==> is_hex_digit(#[trigger] s@[j]),
        decreases len - i,
    {
        let c = s.get_char(i);
        if !(('0' <= c && c <= '9') || ('a' <= c && c <= 'f') || ('A' <= c && c <= 'F')) {
            assert(!is_hex_digit(s@[i as int]));
            return false;
        }
        i = i + 1;
    }
    true
}

/// The value of a hexadecimal digit.
pub open spec fn hex_digit_value(c: char) -> nat {
    if '0' <= c <= '9' {
        (c as nat - '0' as nat) as nat
    } else if 'a' <= c <= 'f' {
        (c as nat - 'a' as nat + 10) as nat
    } else {
        (c as nat - 'A' as nat + 10) as nat
    }
}

/// The value of a sequence of hexadecimal digits, the most significant first.
pub open spec fn hex_value(s: Seq<char>) -> nat
    decreases s.len(),
{
    if s.len() == 0 {
        0
    } else {
        16 * hex_value(s.drop_last()) + hex_digit_value(s.last())
    }
}

/// The number that a text writes in hexadecimal: one or more digits, which a
/// single `+` may precede. `None` where the text is anything else.
pub open spec fn hex_number(s: Seq<char>) -> Option<nat> {
    let digits = if s.len() > 0 && s[0] == '+' {
        s.skip(1)
    } else {
        s
    };
    if digits.len() > 0 && all_hex_digits(digits) {
        Some(hex_value(digits))
    } else {
        None
    }
}

/// What the error of `usize::from_str_radix`, called with radix 16, says of a
/// text that it rejects, where `limit` is the greatest `usize`.
pub uninterp spec fn hex_rejection(s: Seq<char>, limit: nat) -> Seq<char>;

/// Calls `usize::from_str_radix` with radix 16, and writes its error as text.
///
/// The contract claims that it accepts one or more hexadecimal digits after at
/// most one `+`, provided that the number fits a `usize`, that it returns that
/// number, and that it rejects everything else. The wording of the error is
/// only named.
#[verifier::external_body]
pub(crate) fn parse_hex(s: &str) -> (res: Result<usize, String>)
    ensures
        match res {
            Ok(n) => hex_number(s@) == Some(n as nat),
            Err(e) => {
                &&& hex_number(s@) matches Some(n) ==> n > usize::MAX
                &&& e@ == hex_rejection(s@, usize::MAX as nat)
            },
        },
{
    usize::from_str_radix(s, 16).map_err(|e| e.to_string())
}

} // verus!
