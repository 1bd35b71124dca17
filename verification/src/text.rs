//! Text at the boundary: the C string convention (no embedded NUL), and
//! the decimal reading and writing that back the engine's string/number
//! coercions at the host's 32-bit width.

use vstd::prelude::*;
use vstd::string::StrSliceExecFns;

verus! {

/// Relies on String::push of std: appends the one character to the end of
/// the string.
pub assume_specification[ String::push ](s: &mut String, c: char)
    ensures
        final(s)@ == old(s)@.push(c),
;

/// True when the text holds an embedded NUL character, which the C string
/// convention at the boundary cannot carry: such text is rejected before it
/// reaches the engine.
pub open spec fn has_nul(s: Seq<char>) -> bool {
    exists|i: int| 0 <= i < s.len() && s[i] == '\0'
}

/// Checks host-supplied text against the boundary's C string convention.
pub fn text_is_clean(s: &str) -> (r: bool)
    ensures
        r == !has_nul(s@),
{
    let n = s.unicode_len();
    let mut i: usize = 0;
    while i < n
        invariant
            i <= n,
            n == s@.len(),
            forall|j: int| 0 <= j < i ==> s@[j] != '\0',
        decreases n - i,
    {
        if s.get_char(i) == '\0' {
            proof {
                assert(s@[i as int] == '\0');
            }
            return false;
        }
        i = i + 1;
    }
    true
}

/// Character-wise equality of two texts.
pub fn str_eq(a: &str, b: &str) -> (r: bool)
    ensures
        r == (a@ == b@),
{
    let na = a.unicode_len();
    let nb = b.unicode_len();
    if na != nb {
        return false;
    }
    let mut i: usize = 0;
    while i < na
        invariant
            i <= na,
            na == a@.len(),
            na == b@.len(),
            forall|j: int| 0 <= j < i ==> a@[j] == b@[j],
        decreases na - i,
    {
        if a.get_char(i) != b.get_char(i) {
            return false;
        }
        i = i + 1;
    }
    proof {
        assert(a@ =~= b@);
    }
    true
}

/// The character for one decimal digit.
pub open spec fn spec_digit_char(d: int) -> char {
    if d == 0 {
        '0'
    } else if d == 1 {
        '1'
    } else if d == 2 {
        '2'
    } else if d == 3 {
        '3'
    } else if d == 4 {
        '4'
    } else if d == 5 {
        '5'
    } else if d == 6 {
        '6'
    } else if d == 7 {
        '7'
    } else if d == 8 {
        '8'
    } else {
        '9'
    }
}

/// The decimal digits of a magnitude, most significant first, without
/// leading zeros.
pub open spec fn dec_digits(n: nat) -> Seq<char>
    decreases n,
{
    if n < 10 {
        seq![spec_digit_char(n as int)]
    } else {
        dec_digits(n / 10).push(spec_digit_char((n % 10) as int))
    }
}

/// The decimal text of an integer: a minus sign for negative values, then
/// the digits of the magnitude.
pub open spec fn int_text(n: int) -> Seq<char> {
    if n < 0 {
        seq!['-'] + dec_digits((-n) as nat)
    } else {
        dec_digits(n as nat)
    }
}

fn digit_char(d: u64) -> (c: char)
    requires
        d < 10,
    ensures
        c == spec_digit_char(d as int),
{
    if d == 0 {
        '0'
    } else if d == 1 {
        '1'
    } else if d == 2 {
        '2'
    } else if d == 3 {
        '3'
    } else if d == 4 {
        '4'
    } else if d == 5 {
        '5'
    } else if d == 6 {
        '6'
    } else if d == 7 {
        '7'
    } else if d == 8 {
        '8'
    } else {
        '9'
    }
}

fn push_dec_digits(out: &mut String, m: u64)
    ensures
        final(out)@ == old(out)@ + dec_digits(m as nat),
    decreases m,
{
    if m < 10 {
        out.push(digit_char(m));
        proof {
            assert(old(out)@ + dec_digits(m as nat) =~= old(out)@.push(spec_digit_char(m as int)));
        }
    } else {
        push_dec_digits(out, m / 10);
        out.push(digit_char(m % 10));
        proof {
            assert(old(out)@ + dec_digits(m as nat) =~= (old(out)@ + dec_digits(
                (m / 10) as nat,
            )).push(spec_digit_char((m % 10) as int)));
        }
    }
}

/// Writes an integer as its decimal text, the textual form in which the
/// engine reads a number back as a string.
pub fn int_to_text(v: i32) -> (r: String)
    ensures
        r@ == int_text(v as int),
{
    let mut out = String::new();
    if v < 0 {
        out.push('-');
        let m: u64 = (-(v as i64)) as u64;
        push_dec_digits(&mut out, m);
        proof {
            assert(out@ =~= int_text(v as int));
        }
    } else {
        push_dec_digits(&mut out, v as u64);
        proof {
            assert(out@ =~= int_text(v as int));
        }
    }
    out
}

/// True of a decimal digit character.
pub open spec fn is_digit(c: char) -> bool {
    48 <= c as int <= 57
}

/// The value of one digit character.
pub open spec fn spec_digit_val(c: char) -> int {
    c as int - 48
}

pub open spec fn all_digits(t: Seq<char>) -> bool {
    forall|i: int| 0 <= i < t.len() ==> is_digit(t[i])
}

/// The value of a run of decimal digits, most significant first.
pub open spec fn dec_value(t: Seq<char>) -> int
    decreases t.len(),
{
    if t.len() == 0 {
        0
    } else {
        dec_value(t.drop_last()) * 10 + spec_digit_val(t.last())
    }
}

/// The digit run of a possibly signed decimal text: what follows the minus
/// sign if there is one, the whole text otherwise.
pub open spec fn numeric_body(s: Seq<char>) -> Seq<char> {
    if s.len() > 0 && s[0] == '-' {
        s.skip(1)
    } else {
        s
    }
}

/// Texts that the boundary reads as numbers: an optional minus sign, then
/// one or more decimal digits.
pub open spec fn is_numeric_text(s: Seq<char>) -> bool {
    numeric_body(s).len() > 0 && all_digits(numeric_body(s))
}

/// The value of a signed decimal text.
pub open spec fn numeric_value(s: Seq<char>) -> int {
    if s.len() > 0 && s[0] == '-' {
        -dec_value(s.skip(1))
    } else {
        dec_value(s)
    }
}

/// Texts that the engine's coercion reads as a number the host's 32-bit
/// width can carry.
pub open spec fn coerces_to_i32(s: Seq<char>) -> bool {
    is_numeric_text(s) && i32::MIN <= numeric_value(s) <= i32::MAX
}

proof fn lemma_dec_value_nonneg(t: Seq<char>)
    requires
        all_digits(t),
    ensures
        dec_value(t) >= 0,
    decreases t.len(),
{
    if t.len() > 0 {
        assert(all_digits(t.drop_last()));
        lemma_dec_value_nonneg(t.drop_last());
    }
}

/// Reads a signed decimal text at the host's 32-bit width: the reading the
/// engine's string/number coercion gives such a text. Any other text, and
/// any value out of the 32-bit range, is refused.
pub fn parse_i32(s: &str) -> (r: Option<i32>)
    ensures
        r is Some <==> coerces_to_i32(s@),
        r matches Some(v) ==> v as int == numeric_value(s@),
{
    let n = s.unicode_len();
    if n == 0 {
        return None;
    }
    let neg = s.get_char(0) == '-';
    let start: usize = if neg {
        1
    } else {
        0
    };
    if start >= n {
        return None;
    }
    proof {
        assert(numeric_body(s@) =~= s@.subrange(start as int, n as int));
    }
    let mut acc: i64 = 0;
    let mut too_big = false;
    let mut i: usize = start;
    while i < n
        invariant
            start <= i <= n,
            n == s@.len(),
            start < n,
            neg == (s@[0] == '-'),
            start == if neg {
                1int
            } else {
                0int
            },
            all_digits(s@.subrange(start as int, i as int)),
            0 <= acc <= 0x8000_0000,
            !too_big ==> acc == dec_value(s@.subrange(start as int, i as int)),
            too_big ==> dec_value(s@.subrange(start as int, i as int)) > 0x8000_0000,
        decreases n - i,
    {
        let c = s.get_char(i);
        let cv = c as u32;
        if cv < 48 || cv > 57 {
            proof {
                let body = numeric_body(s@);
                assert(body =~= s@.subrange(start as int, n as int));
                assert(body[i - start] == s@[i as int]);
                assert(!is_digit(body[i - start]));
            }
            return None;
        }
        proof {
            let p = s@.subrange(start as int, i as int);
            let q = s@.subrange(start as int, i + 1);
            assert(q.drop_last() =~= p);
            assert(q.last() == s@[i as int]);
            assert(all_digits(q));
            if too_big {
                lemma_dec_value_nonneg(p);
                assert(dec_value(q) == dec_value(p) * 10 + spec_digit_val(q.last()));
            }
        }
        if !too_big {
            let next: i64 = acc * 10 + ((cv - 48) as i64);
            if next > 0x8000_0000 {
                too_big = true;
            } else {
                acc = next;
            }
        }
        i = i + 1;
    }
    proof {
        assert(s@.subrange(start as int, n as int) =~= numeric_body(s@));
        assert(is_numeric_text(s@));
        lemma_dec_value_nonneg(numeric_body(s@));
    }
    if too_big {
        return None;
    }
    if neg {
        Some((-acc) as i32)
    } else {
        if acc > 0x7fff_ffff {
            return None;
        }
        Some(acc as i32)
    }
}

} // verus!
