//! Reading small pieces of text: blanks and unsigned decimal numbers.

use vstd::prelude::*;

verus! {

/// The characters that Unicode lists as white space.
pub open spec fn blank(c: char) -> bool {
    ||| '\u{9}' <= c <= '\u{d}'
    ||| c == ' '
    ||| c == '\u{85}'
    ||| c == '\u{a0}'
    ||| c == '\u{1680}'
    ||| '\u{2000}' <= c <= '\u{200a}'
    ||| c == '\u{2028}'
    ||| c == '\u{2029}'
    ||| c == '\u{202f}'
    ||| c == '\u{205f}'
    ||| c == '\u{3000}'
}

/// Whether `c` is white space.
pub fn is_blank(c: char) -> (r: bool)
    ensures
        r == blank(c),
{
    ('\u{9}' <= c && c <= '\u{d}') || c == ' ' || c == '\u{85}' || c == '\u{a0}' || c
        == '\u{1680}' || ('\u{2000}' <= c && c <= '\u{200a}') || c == '\u{2028}' || c
        == '\u{2029}' || c == '\u{202f}' || c == '\u{205f}' || c == '\u{3000}'
}

/// `s` without its white space.
pub open spec fn squeezed(s: Seq<char>) -> Seq<char> {
    s.filter(|c: char| !blank(c))
}

/// The characters of `s` that are not white space, in order.
pub fn squeeze(s: &str) -> (r: Vec<char>)
    ensures
        r@ == squeezed(s@),
{
    let mut kept: Vec<char> = Vec::new();
    for c in it: s.chars()
        invariant
            it.seq() == s@,
            kept@ == squeezed(s@.take(it.index() as int)),
    {
        proof {
            assert(s@.take(it.index() + 1) =~= s@.take(it.index() as int).push(c));
            s@.take(it.index() as int).lemma_filter_push(c, |c: char| !blank(c));
        }
        if !is_blank(c) {
            kept.push(c);
        }
    }
    assert(s@.take(s@.len() as int) =~= s@);
    kept
}

/// `c` is one of the ten decimal digits.
pub open spec fn digit(c: char) -> bool {
    '0' <= c <= '9'
}

/// The number that a decimal digit stands for.
pub open spec fn digit_value(c: char) -> int {
    c as int - '0' as int
}

/// Every character of `s` is a decimal digit.
pub open spec fn all_digits(s: Seq<char>) -> bool {
    forall|i: int| 0 <= i < s.len() ==> digit(#[trigger] s[i])
}

/// The number that a string of decimal digits stands for; zero for the empty
/// string.
pub open spec fn decimal(s: Seq<char>) -> int
    decreases s.len(),
{
    if s.len() == 0 {
        0
    } else {
        10 * decimal(s.drop_last()) + digit_value(s.last())
    }
}

/// The unsigned number that `s` spells: an optional plus sign and then one or
/// more decimal digits, nothing before, between or after them. `None` where
/// `s` is not of that form or the number does not fit in `usize`.
pub open spec fn number(s: Seq<char>) -> Option<usize> {
    let digits = if s.len() > 0 && s[0] == '+' {
        s.skip(1)
    } else {
        s
    };
    if digits.len() > 0 && all_digits(digits) && decimal(digits) <= usize::MAX {
        Some(decimal(digits) as usize)
    } else {
        None
    }
}

/// A string of digits stands for no less than any of its beginnings.
pub proof fn lemma_decimal_grows(s: Seq<char>, n: int)
    requires
        all_digits(s),
        0 <= n <= s.len(),
    ensures
        0 <= decimal(s.take(n)) <= decimal(s),
    decreases s.len(),
{
    if s.len() == 0 {
        assert(s.take(n) =~= s);
    } else if n == s.len() {
        assert(s.take(n) =~= s);
        assert(all_digits(s.drop_last()));
        lemma_decimal_grows(s.drop_last(), n - 1);
        assert(digit(s.last()));
    } else {
        assert(all_digits(s.drop_last()));
        lemma_decimal_grows(s.drop_last(), n);
        assert(s.drop_last().take(n) =~= s.take(n));
        assert(digit(s.last()));
    }
}

/// Reads the characters of `text` from `from` up to `to` as an unsigned
/// number.
pub fn parse_number(text: &Vec<char>, from: usize, to: usize) -> (r: Option<usize>)
    requires
        from <= to <= text@.len(),
    ensures
        r == number(text@.subrange(from as int, to as int)),
{
    let ghost whole = text@.subrange(from as int, to as int);
    let start: usize = if from < to && text[from] == '+' {
        from + 1
    } else {
        from
    };
    let ghost digits = text@.subrange(start as int, to as int);
    proof {
        if start > from {
            assert(whole.skip(1) =~= digits);
        } else {
            assert(whole =~= digits);
        }
    }
    if start == to {
        return None;
    }
    assert(number(whole) == if all_digits(digits) && decimal(digits) <= usize::MAX {
        Some(decimal(digits) as usize)
    } else {
        None
    });
    let mut value: usize = 0;
    for i in start..to
        invariant
            from <= start <= to <= text@.len(),
            whole == text@.subrange(from as int, to as int),
            number(whole) == if all_digits(digits) && decimal(digits) <= usize::MAX {
                Some(decimal(digits) as usize)
            } else {
                None
            },
            digits == text@.subrange(start as int, to as int),
            all_digits(digits.take(i - start)),
            value == decimal(digits.take(i - start)),
    {
        let c = text[i];
        let ghost seen = digits.take(i - start);
        proof {
            assert(digits[i - start] == c);
            assert(digits.take(i + 1 - start) =~= seen.push(c));
            assert(seen.push(c).drop_last() =~= seen);
        }
        if !('0' <= c && c <= '9') {
            assert(!all_digits(digits));
            return None;
        }
        let d: usize = (c as u32 - '0' as u32) as usize;
        let next = match value.checked_mul(10) {
            Some(tenfold) => tenfold.checked_add(d),
            None => None,
        };
        match next {
            Some(n) => {
                value = n;
            },
            None => {
                proof {
                    assert(decimal(seen.push(c)) > usize::MAX);
                    if all_digits(digits) {
                        lemma_decimal_grows(digits, i + 1 - start);
                    }
                }
                return None;
            },
        }
    }
    assert(digits.take(to - start) =~= digits);
    Some(value)
}

/// The first place at or after `from` where `s` holds the letter `x`; the
/// length of `s` where there is none.
pub open spec fn cut(s: Seq<char>, from: int) -> int
    decreases s.len() - from,
{
    if from >= s.len() {
        s.len() as int
    } else if s[from] == 'x' {
        from
    } else {
        cut(s, from + 1)
    }
}

/// Finds the first `x` in `text` at or after `from`.
pub fn find_cut(text: &Vec<char>, from: usize) -> (r: usize)
    requires
        from <= text@.len(),
    ensures
        r == cut(text@, from as int),
        from <= r <= text@.len(),
{
    let mut i: usize = from;
    while i < text.len() && text[i] != 'x'
        invariant
            from <= i <= text@.len(),
            cut(text@, from as int) == cut(text@, i as int),
        decreases text@.len() - i,
    {
        i += 1;
    }
    i
}

} // verus!
