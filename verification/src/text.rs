use vstd::prelude::*;

verus! {

/// The character of digit `d` (0..16) in upper-case hexadecimal.
pub open spec fn digit_char(d: int) -> char {
    if d == 0 {
        '0'
    } else if d == 1 {
        '1'
    } else if d == 2 {
        '2'
    } else if d == 3 {
        '3'
    } else if d == 4 {
        '4'
    } else if d == 5 {
        '5'
    } else if d == 6 {
        '6'
    } else if d == 7 {
        '7'
    } else if d == 8 {
        '8'
    } else if d == 9 {
        '9'
    } else if d == 10 {
        'A'
    } else if d == 11 {
        'B'
    } else if d == 12 {
        'C'
    } else if d == 13 {
        'D'
    } else if d == 14 {
        'E'
    } else {
        'F'
    }
}

/// The digits of `n` in base `base` (10 or 16), most significant first,
/// with no leading zeros (zero itself is `"0"`).
pub open spec fn digits(n: nat, base: nat) -> Seq<char>
    decreases n,
{
    if base < 2 || n < base {
        seq![digit_char(n as int)]
    } else {
        proof {
            assert(n / base < n) by (nonlinear_arith)
                requires
                    n >= base,
                    base >= 2,
            ;
        }
        digits(n / base, base).push(digit_char((n % base) as int))
    }
}

/// `count` copies of character `c`.
pub open spec fn fill(c: char, count: nat) -> Seq<char> {
    Seq::new(count, |i: int| c)
}

/// Upper-case hexadecimal of `n`, padded with leading zeros to `width`
/// characters (as `{:0width$X}` prints it).
pub open spec fn hex(n: nat, width: nat) -> Seq<char> {
    let d = digits(n, 16);
    if d.len() < width {
        fill('0', (width - d.len()) as nat) + d
    } else {
        d
    }
}

/// Decimal of `n` (as `{}` prints an unsigned integer).
pub open spec fn dec(n: nat) -> Seq<char> {
    digits(n, 10)
}

/// Decimal of a signed `n`; with `plus`, a non-negative value gets a leading
/// `+` (as `{:+}` prints it), otherwise only negative values carry a sign.
pub open spec fn signed_dec(n: int, plus: bool) -> Seq<char> {
    if n < 0 {
        seq!['-'] + dec((-n) as nat)
    } else if plus {
        seq!['+'] + dec(n as nat)
    } else {
        dec(n as nat)
    }
}

/// `s` padded on the right with spaces to `width` characters (as `{:<width$}`).
pub open spec fn pad_right(s: Seq<char>, width: nat) -> Seq<char> {
    if s.len() < width {
        s + fill(' ', (width - s.len()) as nat)
    } else {
        s
    }
}

/// The one-character string of digit `d`.
fn digit_str(d: usize) -> (s: &'static str)
    requires
        d < 16,
    ensures
        s@ == seq![digit_char(d as int)],
{
    proof {
        reveal_strlit("0");
        reveal_strlit("1");
        reveal_strlit("2");
        reveal_strlit("3");
        reveal_strlit("4");
        reveal_strlit("5");
        reveal_strlit("6");
        reveal_strlit("7");
        reveal_strlit("8");
        reveal_strlit("9");
        reveal_strlit("A");
        reveal_strlit("B");
        reveal_strlit("C");
        reveal_strlit("D");
        reveal_strlit("E");
        reveal_strlit("F");
    }
    if d == 0 {
        "0"
    } else if d == 1 {
        "1"
    } else if d == 2 {
        "2"
    } else if d == 3 {
        "3"
    } else if d == 4 {
        "4"
    } else if d == 5 {
        "5"
    } else if d == 6 {
        "6"
    } else if d == 7 {
        "7"
    } else if d == 8 {
        "8"
    } else if d == 9 {
        "9"
    } else if d == 10 {
        "A"
    } else if d == 11 {
        "B"
    } else if d == 12 {
        "C"
    } else if d == 13 {
        "D"
    } else if d == 14 {
        "E"
    } else {
        "F"
    }
}

/// Append the digits of `n` in base `base` (10 or 16).
fn push_digits(out: &mut String, n: usize, base: usize)
    requires
        base == 10 || base == 16,
    ensures
        final(out)@ == old(out)@ + digits(n as nat, base as nat),
    decreases n,
{
    if n < base {
        out.append(digit_str(n));
    } else {
        push_digits(out, n / base, base);
        out.append(digit_str(n % base));
    }
}

/// The number of digits of `n` in base `base`.
fn digit_count(n: usize, base: usize) -> (k: usize)
    requires
        base == 10 || base == 16,
    ensures
        k as nat == digits(n as nat, base as nat).len(),
    decreases n,
{
    if n < base {
        1
    } else {
        let k = digit_count(n / base, base);
        proof {
            lemma_digits_len_bound(n as nat / base as nat, base as nat);
        }
        k + 1
    }
}

proof fn lemma_digits_len_bound(n: nat, base: nat)
    requires
        base >= 2,
    ensures
        1 <= digits(n, base).len() <= n + 1,
    decreases n,
{
    if n >= base {
        assert(n / base < n) by (nonlinear_arith)
            requires
                n >= base,
                base >= 2,
        ;
        lemma_digits_len_bound(n / base, base);
    }
}

/// Append `count` copies of the one-character string `c`.
fn push_fill(out: &mut String, c: &str, count: usize)
    requires
        c@.len() == 1,
    ensures
        final(out)@ == old(out)@ + fill(c@[0], count as nat),
{
    let mut i: usize = 0;
    while i < count
        invariant
            i <= count,
            c@.len() == 1,
            out@ == old(out)@ + fill(c@[0], i as nat),
        decreases count - i,
    {
        out.append(c);
        i += 1;
        assert(out@ =~= old(out)@ + fill(c@[0], i as nat));
    }
}

/// Append `n` in upper-case hexadecimal, zero-padded to `width` characters.
pub fn push_hex(out: &mut String, n: usize, width: usize)
    ensures
        final(out)@ == old(out)@ + hex(n as nat, width as nat),
{
    let k = digit_count(n, 16);
    if k < width {
        proof {
            reveal_strlit("0");
        }
        push_fill(out, "0", width - k);
    }
    let ghost mid = out@;
    push_digits(out, n, 16);
    assert(out@ =~= old(out)@ + hex(n as nat, width as nat));
}

/// Append `n` in decimal.
pub fn push_dec(out: &mut String, n: usize)
    ensures
        final(out)@ == old(out)@ + dec(n as nat),
{
    push_digits(out, n, 10);
}

/// Append a signed `n` in decimal; `plus` asks for a `+` before values >= 0.
pub fn push_signed(out: &mut String, n: i128, plus: bool)
    requires
        -(usize::MAX as int) <= n <= usize::MAX,
    ensures
        final(out)@ == old(out)@ + signed_dec(n as int, plus),
{
    proof {
        reveal_strlit("-");
        reveal_strlit("+");
    }
    if n < 0 {
        out.append("-");
        let m = (-n) as usize;
        push_digits(out, m, 10);
    } else {
        if plus {
            out.append("+");
        }
        push_digits(out, n as usize, 10);
    }
    assert(out@ =~= old(out)@ + signed_dec(n as int, plus));
}

/// Append `s` padded on the right with spaces to `width` characters.
pub fn push_padded(out: &mut String, s: &str, width: usize)
    ensures
        final(out)@ == old(out)@ + pad_right(s@, width as nat),
{
    out.append(s);
    let n = s.unicode_len();
    if n < width {
        proof {
            reveal_strlit(" ");
        }
        push_fill(out, " ", width - n);
    }
    assert(out@ =~= old(out)@ + pad_right(s@, width as nat));
}

} // verus!
