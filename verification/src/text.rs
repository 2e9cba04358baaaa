//! Small verified text utilities: building strings character by character,
//! printing numbers in decimal, and the file-name helpers built on them.

use vstd::prelude::*;

verus! {

/// Relies on `String::push`: appends exactly one character.
#[verifier::external_body]
pub(crate) fn push_char(s: &mut String, c: char)
    ensures
        final(s)@ == old(s)@.push(c),
{
    s.push(c)
}

/// Relies on `str`'s `PartialEq`: two string slices are equal exactly when
/// their character sequences are.
#[verifier::external_body]
pub(crate) fn str_eq(a: &str, b: &str) -> (r: bool)
    ensures
        r == (a@ == b@),
{
    a == b
}

/// Whether `char::is_alphanumeric` holds of a character.  The Unicode
/// classification is left uninterpreted.
pub uninterp spec fn is_alphanumeric_char(c: char) -> bool;

/// Relies on `char::is_alphanumeric`: the classification depends on the
/// character alone.
#[verifier::external_body]
fn char_alphanumeric(c: char) -> (r: bool)
    ensures
        r == is_alphanumeric_char(c),
{
    c.is_alphanumeric()
}

/// The decimal digit character for `n < 10`.
pub open spec fn dec_digit(n: nat) -> char {
    if n == 0 {
        '0'
    } else if n == 1 {
        '1'
    } else if n == 2 {
        '2'
    } else if n == 3 {
        '3'
    } else if n == 4 {
        '4'
    } else if n == 5 {
        '5'
    } else if n == 6 {
        '6'
    } else if n == 7 {
        '7'
    } else if n == 8 {
        '8'
    } else {
        '9'
    }
}

/// The usual decimal rendering of a number, without leading zeros
/// (and `0` for zero).
pub open spec fn dec_str(n: nat) -> Seq<char>
    decreases n,
{
    if n < 10 {
        seq![dec_digit(n)]
    } else {
        dec_str(n / 10) + seq![dec_digit(n % 10)]
    }
}

pub proof fn lemma_dec_str_len_pos(n: nat)
    ensures
        dec_str(n).len() >= 1,
{
}

/// Distinct numbers print as distinct decimal strings.
pub proof fn lemma_dec_str_injective(a: nat, b: nat)
    requires
        dec_str(a) == dec_str(b),
    ensures
        a == b,
    decreases a,
{
    if a < 10 && b < 10 {
        assert(dec_str(a)[0] == dec_digit(a));
        assert(dec_str(b)[0] == dec_digit(b));
    } else if a < 10 && b >= 10 {
        lemma_dec_str_len_pos(b / 10);
        assert(dec_str(a).len() == 1);
        assert(dec_str(b).len() >= 2);
    } else if a >= 10 && b < 10 {
        lemma_dec_str_len_pos(a / 10);
        assert(dec_str(b).len() == 1);
        assert(dec_str(a).len() >= 2);
    } else {
        let pa = dec_str(a / 10);
        let pb = dec_str(b / 10);
        assert(dec_str(a).last() == dec_digit(a % 10));
        assert(dec_str(b).last() == dec_digit(b % 10));
        assert(a % 10 == b % 10);
        assert(dec_str(a).drop_last() =~= pa);
        assert(dec_str(b).drop_last() =~= pb);
        lemma_dec_str_injective(a / 10, b / 10);
    }
}

fn dec_digit_char(d: u64) -> (c: char)
    requires
        d < 10,
    ensures
        c == dec_digit(d as nat),
{
    if d == 0 {
        '0'
    } else if d == 1 {
        '1'
    } else if d == 2 {
        '2'
    } else if d == 3 {
        '3'
    } else if d == 4 {
        '4'
    } else if d == 5 {
        '5'
    } else if d == 6 {
        '6'
    } else if d == 7 {
        '7'
    } else if d == 8 {
        '8'
    } else {
        '9'
    }
}

/// Appends the decimal rendering of `n` to `s`.
pub fn push_dec(s: &mut String, n: u64)
    ensures
        final(s)@ == old(s)@ + dec_str(n as nat),
    decreases n,
{
    if n < 10 {
        let c = dec_digit_char(n);
        push_char(s, c);
        assert(final(s)@ =~= old(s)@ + dec_str(n as nat));
    } else {
        push_dec(s, n / 10);
        let c = dec_digit_char(n % 10);
        push_char(s, c);
        assert(final(s)@ =~= old(s)@ + dec_str(n as nat));
    }
}

/// The decimal rendering of `n` as a `String`.
pub fn u64_to_dec_string(n: u64) -> (r: String)
    ensures
        r@ == dec_str(n as nat),
{
    let mut s = String::new();
    push_dec(&mut s, n);
    proof {
        assert(s@ =~= dec_str(n as nat));
    }
    s
}

/// How `sanitize_filename` treats a single character: alphanumerics and
/// `.`, `-`, `_` are kept, everything else becomes `_`.
pub open spec fn sanitize_char(c: char) -> char {
    if is_alphanumeric_char(c) || c == '.' || c == '-' || c == '_' {
        c
    } else {
        '_'
    }
}

pub open spec fn sanitize_spec(s: Seq<char>) -> Seq<char> {
    s.map_values(|c: char| sanitize_char(c))
}

/// Replaces every character that is neither alphanumeric nor one of
/// `.`, `-`, `_` by an underscore, keeping the length.
pub fn sanitize_filename(filename: &str) -> (r: String)
    ensures
        r@ == sanitize_spec(filename@),
        r@.len() == filename@.len(),
{
    let len = filename.unicode_len();
    let mut out = String::new();
    let mut i: usize = 0;
    while i < len
        invariant
            len == filename@.len(),
            i <= len,
            out@ == sanitize_spec(filename@.take(i as int)),
        decreases len - i,
    {
        let c = filename.get_char(i);
        let kept = if char_alphanumeric(c) {
            true
        } else {
            c == '.' || c == '-' || c == '_'
        };
        if kept {
            push_char(&mut out, c);
        } else {
            push_char(&mut out, '_');
        }
        proof {
            assert(out@ =~= sanitize_spec(filename@.take(i + 1)));
        }
        i = i + 1;
    }
    proof {
        assert(filename@.take(len as int) == filename@);
    }
    out
}

/// The hundredths shown when `size` bytes are displayed in a unit of `p`
/// bytes: the fraction `(size % p) / p` rounded to the nearest hundredth,
/// halves away from zero.  The result ranges over `0 ..= 100`; a fraction
/// that rounds all the way up carries into the integer part.
pub open spec fn frac_hundredths(size: int, p: int) -> int {
    ((size % p) * 200 / p + 1) / 2
}

pub open spec fn scaled_size_str(size: int, p: int) -> Seq<char> {
    if frac_hundredths(size, p) == 100 {
        dec_str((size / p + 1) as nat) + seq!['.', '0', '0']
    } else {
        dec_str((size / p) as nat) + seq!['.', dec_digit((frac_hundredths(size, p) / 10) as nat), dec_digit(
            (frac_hundredths(size, p) % 10) as nat,
        )]
    }
}

/// What `format_file_size` returns: bytes below 1 KB are printed plain, and
/// every larger size is printed with two decimals, rounded to the nearest
/// hundredth, in the largest unit, up to terabytes, that keeps the integer
/// part nonzero.  Rounding is half away from zero on the exact fraction;
/// floating-point display would break such exact ties toward even instead,
/// and is itself approximate beyond 2^53 — those edges are the only
/// divergence.
pub open spec fn format_size_spec(size: u64) -> Seq<char> {
    if size < 1024 {
        dec_str(size as nat) + seq![' ', 'B']
    } else if size < 1048576 {
        scaled_size_str(size as int, 1024) + seq![' ', 'K', 'B']
    } else if size < 1073741824 {
        scaled_size_str(size as int, 1048576) + seq![' ', 'M', 'B']
    } else if size < 1099511627776 {
        scaled_size_str(size as int, 1073741824) + seq![' ', 'G', 'B']
    } else {
        scaled_size_str(size as int, 1099511627776) + seq![' ', 'T', 'B']
    }
}

fn push_scaled(out: &mut String, size: u64, p: u64)
    requires
        1024 <= p,
        p <= 1099511627776,
        size >= p,
    ensures
        final(out)@ == old(out)@ + scaled_size_str(size as int, p as int),
{
    let whole = size / p;
    let rem = size % p;
    assert(rem < p);
    assert(rem * 200 < 1099511627776 * 200) by (nonlinear_arith)
        requires
            rem < p,
            p <= 1099511627776,
    ;
    let doubled = rem * 200 / p;
    assert(doubled < 200) by (nonlinear_arith)
        requires
            doubled as int == (rem as int) * 200 / (p as int),
            rem < p,
            0 < p,
    ;
    let frac = (doubled + 1) / 2;
    assert(frac <= 100);
    if frac == 100 {
        assert(whole * 1024 <= size) by (nonlinear_arith)
            requires
                whole as int == size as int / (p as int),
                1024 <= p as int,
        ;
        assert(whole < u64::MAX);
        push_dec(out, whole + 1);
        push_char(out, '.');
        push_char(out, '0');
        push_char(out, '0');
    } else {
        push_dec(out, whole);
        push_char(out, '.');
        let d1 = dec_digit_char(frac / 10);
        push_char(out, d1);
        let d2 = dec_digit_char(frac % 10);
        push_char(out, d2);
    }
    proof {
        assert(final(out)@ =~= old(out)@ + scaled_size_str(size as int, p as int));
    }
}

/// Renders a byte count for humans, e.g. `1536` as `1.50 KB`.
pub fn format_file_size(size: u64) -> (r: String)
    ensures
        r@ == format_size_spec(size),
{
    let mut out = String::new();
    if size < 1024 {
        push_dec(&mut out, size);
        push_char(&mut out, ' ');
        push_char(&mut out, 'B');
        proof {
            assert(out@ =~= format_size_spec(size));
        }
    } else {
        let (p, unit) = if size < 1048576 {
            (1024u64, 'K')
        } else if size < 1073741824 {
            (1048576u64, 'M')
        } else if size < 1099511627776 {
            (1073741824u64, 'G')
        } else {
            (1099511627776u64, 'T')
        };
        push_scaled(&mut out, size, p);
        push_char(&mut out, ' ');
        push_char(&mut out, unit);
        push_char(&mut out, 'B');
        proof {
            assert(out@ =~= format_size_spec(size));
        }
    }
    out
}

} // verus!
