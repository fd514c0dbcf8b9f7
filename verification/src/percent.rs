//! A share as it is written in a config: a number of hundredths.

use vstd::prelude::*;
use crate::num;
use crate::text;
use crate::text::{find, lower, part, spells, trim};

verus! {

/// The least and the most of a cut a share may name, in millionths.
pub const LEAST: u32 = 50_000;

pub const MOST: u32 = 950_000;

pub open spec fn is_digit(c: char) -> bool {
    '0' <= c <= '9'
}

pub open spec fn all_digits(s: Seq<char>) -> bool {
    forall|i: int| 0 <= i < s.len() ==> is_digit(#[trigger] s[i])
}

/// What a digit stands for.
pub open spec fn digit_of(c: char) -> int {
    c as int - '0' as int
}

/// Some digits read as a whole number.
pub open spec fn number(s: Seq<char>) -> nat
    decreases s.len(),
{
    if s.len() == 0 {
        0
    } else {
        (10 * number(s.drop_last()) + digit_of(s.last())) as nat
    }
}

/// The `i`th digit of a run of them, which goes on in zeros both ways.
pub open spec fn digit_at(digits: Seq<char>, i: int) -> int {
    if 0 <= i < digits.len() {
        digit_of(digits[i])
    } else {
        0
    }
}

/// The whole number before a point that stands after `q` digits.
pub open spec fn whole(digits: Seq<char>, q: int) -> int
    decreases q,
{
    if q <= 0 {
        0
    } else {
        10 * whole(digits, q - 1) + digit_at(digits, q - 1)
    }
}

/// The nearest whole number to one whose point stands after `q` digits, and the
/// larger of two as near.
pub open spec fn rounded(digits: Seq<char>, q: int) -> int {
    whole(digits, q) + if digit_at(digits, q) >= 5 {
        1int
    } else {
        0
    }
}

/// Where an exponent starts, and the end when there is none.
pub open spec fn exponent_at(s: Seq<char>) -> nat {
    let (small, large) = (text::place_of(s, 'e'), text::place_of(s, 'E'));
    num::smaller(small as int, large as int) as nat
}

/// Some text without the sign in front of it.
pub open spec fn unsigned(s: Seq<char>) -> Seq<char> {
    if s.len() > 0 && (s[0] == '+' || s[0] == '-') {
        s.drop_first()
    } else {
        s
    }
}

pub open spec fn negative(s: Seq<char>) -> bool {
    s.len() > 0 && s[0] == '-'
}

/// The digits of a number, its point taken out.
pub open spec fn digits_of(s: Seq<char>) -> Seq<char> {
    let point = text::place_of(s, '.') as int;
    if point < s.len() {
        s.take(point) + s.skip(point + 1)
    } else {
        s
    }
}

/// The value of an exponent, and `None` where it is not one.
pub open spec fn exponent_of(s: Seq<char>) -> Option<int> {
    let at = exponent_at(s) as int;
    if at >= s.len() {
        Some(0)
    } else {
        let written = s.skip(at + 1);
        let digits = unsigned(written);
        if digits.len() == 0 || !all_digits(digits) {
            None
        } else if negative(written) {
            Some(-(number(digits) as int))
        } else {
            Some(number(digits) as int)
        }
    }
}

/// A share read from a number of hundredths, in millionths. A number out of
/// range is brought into it, one that is not a number at all sizes by content,
/// and what does not read as a number is no share.
pub open spec fn share_of(written: Seq<char>) -> Option<u32> {
    let s = text::trimmed(written);
    let body = unsigned(s);
    let word = text::lowered(body);
    if word == "nan"@ {
        Some(0u32)
    } else if word == "inf"@ || word == "infinity"@ {
        Some(
            if negative(s) {
                LEAST
            } else {
                MOST
            },
        )
    } else {
        let mantissa = body.take(exponent_at(body) as int);
        let digits = digits_of(mantissa);
        match exponent_of(body) {
            None => None,
            Some(exponent) => if digits.len() == 0 || !all_digits(digits) {
                None
            } else if negative(s) {
                Some(LEAST)
            } else {
                let point = text::place_of(mantissa, '.') as int;
                Some(
                    num::between(
                        rounded(digits, point + exponent + 4),
                        LEAST as int,
                        MOST as int,
                    ) as u32,
                )
            },
        }
    }
}

/// More than any share, where counting stops.
pub const PLENTY: u32 = 1_000_000;

proof fn lemma_whole_grows(digits: Seq<char>, q: int, r: int)
    requires
        all_digits(digits),
        q <= r,
    ensures
        0 <= whole(digits, q) <= whole(digits, r),
    decreases r,
{
    if r > 0 {
        if q < r {
            lemma_whole_grows(digits, q, r - 1);
        } else {
            lemma_whole_grows(digits, q - 1, q - 1);
        }
        if 0 <= r - 1 < digits.len() {
            assert(is_digit(digits[r - 1]));
        }
    }
}

proof fn lemma_whole_zero(digits: Seq<char>, q: int, r: int)
    requires
        all_digits(digits),
        0 <= digits.len() <= q <= r,
        whole(digits, q) == 0,
    ensures
        whole(digits, r) == 0,
    decreases r,
{
    if q < r {
        lemma_whole_zero(digits, q, r - 1);
    }
}

/// Past the digits, a number either stays nothing or outgrows every share.
proof fn lemma_plenty(digits: Seq<char>, q: int)
    requires
        all_digits(digits),
        q >= digits.len() + 6,
    ensures
        whole(digits, digits.len() as int) == 0 ==> rounded(digits, q) == 0,
        whole(digits, digits.len() as int) != 0 ==> rounded(digits, q) >= PLENTY,
{
    let n = digits.len() as int;
    lemma_whole_grows(digits, n, n);
    if whole(digits, n) == 0 {
        lemma_whole_zero(digits, n, q);
    } else {
        lemma_whole_grows(digits, n + 6, q);
        assert(whole(digits, n + 1) >= 10);
        assert(whole(digits, n + 2) >= 100);
        assert(whole(digits, n + 3) >= 1_000);
        assert(whole(digits, n + 4) >= 10_000);
        assert(whole(digits, n + 5) >= 100_000);
        assert(whole(digits, n + 6) >= 1_000_000);
    }
}

fn digit(c: char) -> (d: u32)
    requires
        is_digit(c),
    ensures
        d == digit_of(c),
        d <= 9,
{
    c as u32 - '0' as u32
}

/// A number counted up to what is more than any share.
fn count_up(digits: &Vec<char>, q: i128) -> (n: u32)
    requires
        all_digits(digits@),
        digits@.len() > 0,
        q < 0x1000_0000_0000_0000_0000_0000_0000,
    ensures
        n == num::smaller(rounded(digits@, q as int), PLENTY as int),
{
    if q < 0 {
        return 0;
    }
    let len: usize = digits.len();
    let mut acc: u32 = 0;
    let mut i: usize = 0;
    while i < len && (i as i128) < q
        invariant
            all_digits(digits@),
            len == digits@.len(),
            i <= len,
            i <= q,
            acc == whole(digits@, i as int),
            acc < PLENTY,
        decreases len - i,
    {
        assert(is_digit(digits@[i as int]));
        acc = acc * 10 + digit(digits[i]);
        i += 1;
        if acc >= PLENTY {
            proof {
                lemma_whole_grows(digits@, i as int, q as int);
            }
            return PLENTY;
        }
    }
    if (i as i128) < q {
        // Only zeros are left before the point.
        if acc == 0 {
            proof {
                lemma_whole_zero(digits@, len as int, q as int);
            }
            return 0;
        }
        let mut at: i128 = i as i128;
        while at < q
            invariant
                all_digits(digits@),
                len == digits@.len(),
                len <= at <= q,
                acc == whole(digits@, at as int),
                0 < acc < PLENTY,
            decreases q - at,
        {
            acc = acc * 10;
            at += 1;
            if acc >= PLENTY {
                proof {
                    lemma_whole_grows(digits@, at as int, q as int);
                }
                return PLENTY;
            }
        }
        return acc;
    }
    if i < len {
        assert(is_digit(digits@[i as int]));
        if digit(digits[i]) >= 5 {
            return acc + 1;
        }
    }
    acc
}

fn are_digits(chars: &Vec<char>) -> (yes: bool)
    ensures
        yes == all_digits(chars@),
{
    for i in 0..chars.len()
        invariant
            forall|k: int| 0 <= k < i ==> is_digit(#[trigger] chars@[k]),
    {
        if chars[i] < '0' || chars[i] > '9' {
            assert(!is_digit(chars@[i as int]));
            return false;
        }
    }
    true
}

/// Further than any number of digits can put a point.
pub const BEYOND: i128 = 0x1_0000_0000_0000_0000_0000;

proof fn lemma_number_grows(s: Seq<char>, i: int)
    requires
        all_digits(s),
        0 <= i <= s.len(),
    ensures
        number(s.take(i)) <= number(s),
    decreases s.len(),
{
    if i < s.len() {
        assert(s.take(i) =~= s.drop_last().take(i));
        assert forall|k: int| 0 <= k < s.drop_last().len() implies is_digit(
            #[trigger] s.drop_last()[k],
        ) by {
            assert(s.drop_last()[k] == s[k]);
        }
        lemma_number_grows(s.drop_last(), i);
        assert(is_digit(s[s.len() - 1]));
    } else {
        assert(s.take(i) =~= s);
    }
}

/// Some digits as a whole number, or a number that is beyond everything.
fn read_number(chars: &Vec<char>) -> (n: i128)
    requires
        all_digits(chars@),
    ensures
        number(chars@) < BEYOND ==> n == number(chars@),
        number(chars@) >= BEYOND ==> n == BEYOND,
{
    let mut n: i128 = 0;
    for i in 0..chars.len()
        invariant
            all_digits(chars@),
            0 <= n < BEYOND,
            n == number(chars@.take(i as int)),
    {
        assert(is_digit(chars@[i as int]));
        assert(chars@.take(i + 1).drop_last() =~= chars@.take(i as int));
        n = n * 10 + digit(chars[i]) as i128;
        if n >= BEYOND {
            proof {
                lemma_number_grows(chars@, i + 1);
            }
            return BEYOND;
        }
    }
    assert(chars@.take(chars@.len() as int) =~= chars@);
    n
}

fn drop_sign(chars: &Vec<char>) -> (rest: Vec<char>)
    ensures
        rest@ == unsigned(chars@),
{
    let n: usize = chars.len();
    if n > 0 && (chars[0] == '+' || chars[0] == '-') {
        let rest = part(chars, 1, n);
        assert(rest@ =~= chars@.drop_first());
        rest
    } else {
        let rest = part(chars, 0, n);
        assert(rest@ =~= chars@);
        rest
    }
}

/// Read a share from a number of hundredths.
pub fn read_share(written: &Vec<char>) -> (share: Option<u32>)
    ensures
        share == share_of(written@),
{
    let s = trim(written);
    let minus = s.len() > 0 && s[0] == '-';
    let body = drop_sign(&s);
    let word = lower(&body);
    if spells(&word, "nan") {
        return Some(0);
    }
    if spells(&word, "inf") || spells(&word, "infinity") {
        return Some(
            if minus {
                LEAST
            } else {
                MOST
            },
        );
    }
    let (small, large) = (find(&body, 'e'), find(&body, 'E'));
    let at: usize = if small <= large {
        small
    } else {
        large
    };
    let mantissa = part(&body, 0, at);
    assert(mantissa@ =~= body@.take(at as int));
    let point = find(&mantissa, '.');
    let mut digits = part(&mantissa, 0, point);
    if point < mantissa.len() {
        let mut rest = part(&mantissa, point + 1, mantissa.len());
        digits.append(&mut rest);
    }
    assert(digits@ =~= digits_of(mantissa@));
    let mut exponent: i128 = 0;
    if at < body.len() {
        let written = part(&body, at + 1, body.len());
        assert(written@ =~= body@.skip(at + 1));
        let low = written.len() > 0 && written[0] == '-';
        let ahead = drop_sign(&written);
        if ahead.len() == 0 || !are_digits(&ahead) {
            return None;
        }
        let n = read_number(&ahead);
        exponent =
        if low {
            -n
        } else {
            n
        };
    }
    if digits.len() == 0 || !are_digits(&digits) {
        return None;
    }
    if minus {
        return Some(LEAST);
    }
    let q: i128 = point as i128 + exponent + 4;
    let n = count_up(&digits, q);
    proof {
        let truly = point + exponent_of(body@)->0 + 4;
        if truly != q {
            // An exponent beyond everything: both ways of counting it agree.
            if exponent > 0 {
                lemma_plenty(digits@, q as int);
                lemma_plenty(digits@, truly);
            }
        }
    }
    Some(
        if n < LEAST {
            LEAST
        } else if n > MOST {
            MOST
        } else {
            n
        },
    )
}

} // verus!
