//! Numbers as English words.

use vstd::prelude::*;
use vstd::string::StringExecFns;
use crate::chars::{join, join_of, texts};
use crate::config::NumberConfig;

verus! {

/// The decimal digit `d` as a character.
pub open spec fn digit_char(d: int) -> char {
    if d == 0 {
        '0'
    } else if d == 1 {
        '1'
    } else if d == 2 {
        '2'
    } else if d == 3 {
        '3'
    } else if d == 4 {
        '4'
    } else if d == 5 {
        '5'
    } else if d == 6 {
        '6'
    } else if d == 7 {
        '7'
    } else if d == 8 {
        '8'
    } else {
        '9'
    }
}

/// The decimal numeral of `n`, without leading zeros.
pub open spec fn decimal_of(n: nat) -> Seq<char>
    decreases n,
{
    if n < 10 {
        seq![digit_char(n as int)]
    } else {
        decimal_of(n / 10).push(digit_char((n % 10) as int))
    }
}

/// The word for a digit; zero has none.
pub open spec fn ones_word(d: int) -> Seq<char> {
    if d == 1 {
        "one"@
    } else if d == 2 {
        "two"@
    } else if d == 3 {
        "three"@
    } else if d == 4 {
        "four"@
    } else if d == 5 {
        "five"@
    } else if d == 6 {
        "six"@
    } else if d == 7 {
        "seven"@
    } else if d == 8 {
        "eight"@
    } else if d == 9 {
        "nine"@
    } else {
        ""@
    }
}

/// The word for `10 + d`, for a digit `d`.
pub open spec fn teens_word(d: int) -> Seq<char> {
    if d == 0 {
        "ten"@
    } else if d == 1 {
        "eleven"@
    } else if d == 2 {
        "twelve"@
    } else if d == 3 {
        "thirteen"@
    } else if d == 4 {
        "fourteen"@
    } else if d == 5 {
        "fifteen"@
    } else if d == 6 {
        "sixteen"@
    } else if d == 7 {
        "seventeen"@
    } else if d == 8 {
        "eighteen"@
    } else {
        "nineteen"@
    }
}

/// The word for `10 * d`, for a digit `d` from two on; the others have none.
pub open spec fn tens_word(d: int) -> Seq<char> {
    if d == 2 {
        "twenty"@
    } else if d == 3 {
        "thirty"@
    } else if d == 4 {
        "forty"@
    } else if d == 5 {
        "fifty"@
    } else if d == 6 {
        "sixty"@
    } else if d == 7 {
        "seventy"@
    } else if d == 8 {
        "eighty"@
    } else if d == 9 {
        "ninety"@
    } else {
        ""@
    }
}

/// The words for a number from 1 to 99 as one phrase: a digit word, a teen
/// word, or a tens word followed, after a space, by a digit word.
pub open spec fn remainder_phrase(r: int) -> Seq<char> {
    if r < 10 {
        ones_word(r)
    } else if r < 20 {
        teens_word(r - 10)
    } else if r % 10 > 0 {
        tens_word(r / 10) + " "@ + ones_word(r % 10)
    } else {
        tens_word(r / 10)
    }
}

/// How the first two digits of a year from 1000 to 2099 are spoken: as so
/// many thousand where the hundreds digit is zero ("two thousand"), else as
/// so many hundred ("nineteen hundred").
pub open spec fn century_phrase(year: int) -> Seq<char> {
    let century = year / 100;
    if century % 10 == 0 {
        ones_word(century / 10) + " thousand"@
    } else {
        teens_word(century - 10) + " hundred"@
    }
}

/// The spoken components of a year from 1000 to 2099: the thousands or
/// hundreds, and the last two digits where they are not zero. With
/// `insert_and`, the second component starts with "and".
pub open spec fn year_parts(year: int, insert_and: bool) -> Seq<Seq<char>> {
    let remainder = year % 100;
    let head = seq![century_phrase(year)];
    if remainder > 0 {
        if insert_and {
            head.push("and "@ + remainder_phrase(remainder))
        } else {
            head.push(remainder_phrase(remainder))
        }
    } else {
        head
    }
}

/// What a year is spoken as: its components joined by `separator` for a
/// year from 1000 to 2099, its decimal numeral for any other number.
pub open spec fn year_words(year: nat, separator: Seq<char>, insert_and: bool) -> Seq<char> {
    if year < 1000 || year > 2099 {
        decimal_of(year)
    } else {
        join_of(year_parts(year as int, insert_and), separator)
    }
}

/// The words of a number from 1 to 9999, one word per element.
pub open spec fn number_parts(n: int) -> Seq<Seq<char>> {
    let thousands = n / 1000;
    let hundreds = (n / 100) % 10;
    let remainder = n % 100;
    let head: Seq<Seq<char>> = if thousands > 0 {
        seq![ones_word(thousands), "thousand"@]
    } else {
        Seq::empty()
    };
    let middle = if hundreds > 0 {
        head.push(ones_word(hundreds)).push("hundred"@)
    } else {
        head
    };
    if remainder == 0 {
        middle
    } else if remainder < 10 {
        middle.push(ones_word(remainder))
    } else if remainder < 20 {
        middle.push(teens_word(remainder - 10))
    } else if remainder % 10 > 0 {
        middle.push(tens_word(remainder / 10)).push(ones_word(remainder % 10))
    } else {
        middle.push(tens_word(remainder / 10))
    }
}

/// What a number is spoken as: "zero", the words of a number below ten
/// thousand with single spaces between them, or the decimal numeral of a
/// larger one.
pub open spec fn number_words(n: nat) -> Seq<char> {
    if n == 0 {
        "zero"@
    } else if n >= 10000 {
        decimal_of(n)
    } else {
        join_of(number_parts(n as int), " "@)
    }
}

/// Whether `c` is one of the digits from 0 to 9.
pub open spec fn is_digit(c: char) -> bool {
    '0' <= c && c <= '9'
}

/// The value of the digit `c`.
pub open spec fn digit_value(c: char) -> nat {
    if c == '1' {
        1
    } else if c == '2' {
        2
    } else if c == '3' {
        3
    } else if c == '4' {
        4
    } else if c == '5' {
        5
    } else if c == '6' {
        6
    } else if c == '7' {
        7
    } else if c == '8' {
        8
    } else if c == '9' {
        9
    } else {
        0
    }
}

/// The number that a sequence of digits writes in base ten.
pub open spec fn decimal_value(digits: Seq<char>) -> nat
    decreases digits.len(),
{
    if digits.len() == 0 {
        0
    } else {
        decimal_value(digits.drop_last()) * 10 + digit_value(digits.last())
    }
}

/// Whether `s` holds digits from 0 to 9 and nothing else.
pub open spec fn all_digits(s: Seq<char>) -> bool {
    forall|i: int| 0 <= i < s.len() ==> is_digit(#[trigger] s[i])
}

/// `s` without a plus sign at its start.
pub open spec fn unsigned_part(s: Seq<char>) -> Seq<char> {
    if s.len() > 0 && s[0] == '+' {
        s.drop_first()
    } else {
        s
    }
}

/// The number that `s` writes: one or more digits from 0 to 9, with or
/// without a plus sign before them. Anything else writes no number.
pub open spec fn parsed_number(s: Seq<char>) -> Option<nat> {
    let digits = unsigned_part(s);
    if digits.len() > 0 && all_digits(digits) {
        Some(decimal_value(digits))
    } else {
        None
    }
}

/// The number that `s` writes, where it fits the machine's word.
pub open spec fn parsed_usize(s: Seq<char>) -> Option<usize> {
    match parsed_number(s) {
        Some(n) => if n <= usize::MAX {
            Some(n as usize)
        } else {
            None
        },
        None => None,
    }
}

fn digit_of(c: char) -> (out: Option<usize>)
    ensures
        out is Some <==> is_digit(c),
        out matches Some(d) ==> d == digit_value(c) && d < 10,
{
    match c {
        '0' => Some(0),
        '1' => Some(1),
        '2' => Some(2),
        '3' => Some(3),
        '4' => Some(4),
        '5' => Some(5),
        '6' => Some(6),
        '7' => Some(7),
        '8' => Some(8),
        '9' => Some(9),
        _ => None,
    }
}

/// Reads a number in base ten: digits from 0 to 9, with or without a plus
/// sign before them. The result is `None` where the text is anything else,
/// or where the number does not fit the machine's word.
pub fn parse_decimal(text: &Vec<char>) -> (out: Option<usize>)
    ensures
        out == parsed_usize(text@),
{
    let mut i: usize = 0;
    if text.len() > 0 && text[0] == '+' {
        i = 1;
    }
    let start = i;
    let ghost digits = text@.subrange(start as int, text.len() as int);
    proof {
        if start == 1 {
            assert(digits =~= text@.drop_first());
        } else {
            assert(digits =~= text@);
        }
        assert(digits == unsigned_part(text@));
    }
    if i == text.len() {
        return None;
    }
    let mut value: usize = 0;
    let mut overflow = false;
    while i < text.len()
        invariant
            start <= i <= text.len(),
            digits == text@.subrange(start as int, text.len() as int),
            digits == unsigned_part(text@),
            forall|j: int| 0 <= j < i - start ==> is_digit(#[trigger] digits[j]),
            !overflow ==> value == decimal_value(digits.take(i - start)),
            overflow ==> decimal_value(digits.take(i - start)) > usize::MAX,
        decreases text.len() - i,
    {
        proof {
            assert(digits.take(i - start + 1).drop_last() =~= digits.take(i - start));
            assert(digits.take(i - start + 1).last() == text@[i as int]);
            assert(digits[i - start] == text@[i as int]);
        }
        match digit_of(text[i]) {
            None => {
                proof {
                    assert(!is_digit(digits[i - start]));
                }
                return None;
            },
            Some(d) => {
                if !overflow {
                    if value > (usize::MAX - d) / 10 {
                        overflow = true;
                    } else {
                        value = value * 10 + d;
                    }
                }
            },
        }
        i += 1;
    }
    proof {
        assert(digits.take(digits.len() as int) =~= digits);
    }
    if overflow {
        None
    } else {
        Some(value)
    }
}

fn digit(d: usize) -> (c: char)
    requires
        d < 10,
    ensures
        c == digit_char(d as int),
{
    match d {
        0 => '0',
        1 => '1',
        2 => '2',
        3 => '3',
        4 => '4',
        5 => '5',
        6 => '6',
        7 => '7',
        8 => '8',
        _ => '9',
    }
}

/// The decimal numeral of `n`.
pub fn decimal(n: usize) -> (out: String)
    ensures
        out@ == decimal_of(n as nat),
    decreases n,
{
    if n < 10 {
        let mut out = String::new();
        out.push(digit(n));
        proof {
            assert(out@ =~= seq![digit_char(n as int)]);
        }
        out
    } else {
        let mut out = decimal(n / 10);
        out.push(digit(n % 10));
        out
    }
}

fn ones(d: usize) -> (w: &'static str)
    requires
        d < 10,
    ensures
        w@ == ones_word(d as int),
{
    match d {
        1 => "one",
        2 => "two",
        3 => "three",
        4 => "four",
        5 => "five",
        6 => "six",
        7 => "seven",
        8 => "eight",
        9 => "nine",
        _ => "",
    }
}

fn teens(d: usize) -> (w: &'static str)
    requires
        d < 10,
    ensures
        w@ == teens_word(d as int),
{
    match d {
        0 => "ten",
        1 => "eleven",
        2 => "twelve",
        3 => "thirteen",
        4 => "fourteen",
        5 => "fifteen",
        6 => "sixteen",
        7 => "seventeen",
        8 => "eighteen",
        _ => "nineteen",
    }
}

fn tens(d: usize) -> (w: &'static str)
    requires
        d < 10,
    ensures
        w@ == tens_word(d as int),
{
    match d {
        2 => "twenty",
        3 => "thirty",
        4 => "forty",
        5 => "fifty",
        6 => "sixty",
        7 => "seventy",
        8 => "eighty",
        9 => "ninety",
        _ => "",
    }
}

/// Speaks a year. A year from 1000 to 2099 is split into its thousands or
/// hundreds and its last two digits; the second component is left out where
/// it is zero and starts with "and" where the configuration asks for it. The
/// components are joined by the configured separator. Any other number comes
/// back as its decimal numeral.
pub fn year_to_words(year: usize, number_config: &NumberConfig) -> (out: String)
    ensures
        out@ == year_words(year as nat, number_config.separator@, number_config.insert_and),
{
    if year < 1000 || year > 2099 {
        return decimal(year);
    }
    let century = year / 100;
    let remainder = year % 100;

    let mut parts: Vec<String> = Vec::new();
    if century % 10 == 0 {
        parts.push(ones(century / 10).to_owned().concat(" thousand"));
    } else {
        parts.push(teens(century - 10).to_owned().concat(" hundred"));
    }
    if remainder > 0 {
        let mut phrase = String::new();
        if remainder < 10 {
            phrase.append(ones(remainder));
        } else if remainder < 20 {
            phrase.append(teens(remainder - 10));
        } else {
            phrase.append(tens(remainder / 10));
            if remainder % 10 > 0 {
                phrase.append(" ");
                phrase.append(ones(remainder % 10));
            }
        }
        proof {
            assert(phrase@ =~= remainder_phrase(remainder as int));
        }
        if number_config.insert_and {
            let mut last = "and ".to_owned();
            last.append(phrase.as_str());
            parts.push(last);
        } else {
            parts.push(phrase);
        }
    }
    proof {
        assert(texts(parts@) =~= year_parts(year as int, number_config.insert_and));
    }
    join(&parts, number_config.separator.as_str())
}

/// Speaks a number: "zero" for zero, English words separated by single
/// spaces for a number below ten thousand, the decimal numeral otherwise.
pub fn simple_number_to_words(n: usize) -> (out: String)
    ensures
        out@ == number_words(n as nat),
{
    if n == 0 {
        return "zero".to_owned();
    }
    if n >= 10000 {
        return decimal(n);
    }
    let thousands = n / 1000;
    let hundreds = (n / 100) % 10;
    let remainder = n % 100;

    let mut parts: Vec<String> = Vec::new();
    if thousands > 0 {
        parts.push(ones(thousands).to_owned());
        parts.push("thousand".to_owned());
    }
    if hundreds > 0 {
        parts.push(ones(hundreds).to_owned());
        parts.push("hundred".to_owned());
    }
    if remainder > 0 {
        if remainder < 10 {
            parts.push(ones(remainder).to_owned());
        } else if remainder < 20 {
            parts.push(teens(remainder - 10).to_owned());
        } else {
            parts.push(tens(remainder / 10).to_owned());
            if remainder % 10 > 0 {
                parts.push(ones(remainder % 10).to_owned());
            }
        }
    }
    proof {
        assert(texts(parts@) =~= number_parts(n as int));
    }
    join(&parts, " ")
}

} // verus!
