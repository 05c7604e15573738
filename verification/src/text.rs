//! Decimal rendering of integers and the human-readable byte sizes shown in
//! the log and the transfer summary.

use vstd::prelude::*;

verus! {

/// The character of the decimal digit `d` (`d < 10`).
pub open spec fn digit_char(d: nat) -> char {
    (d + 48) as char
}

/// The decimal representation of `n`, most significant digit first, with no
/// leading zeros (and the single digit `0` for zero).
pub open spec fn decimal(n: nat) -> Seq<char>
    decreases n,
{
    if n < 10 {
        seq![digit_char(n)]
    } else {
        decimal(n / 10).push(digit_char(n % 10))
    }
}

/// The one-character string of a decimal digit.
fn digit_str(d: u64) -> (s: &'static str)
    requires
        d < 10,
    ensures
        s@ == seq![digit_char(d as nat)],
{
    proof {
        reveal_strlit("0");
        reveal_strlit("1");
        reveal_strlit("2");
        reveal_strlit("3");
        reveal_strlit("4");
        reveal_strlit("5");
        reveal_strlit("6");
        reveal_strlit("7");
        reveal_strlit("8");
        reveal_strlit("9");
    }
    if d == 0 {
        "0"
    } else if d == 1 {
        "1"
    } else if d == 2 {
        "2"
    } else if d == 3 {
        "3"
    } else if d == 4 {
        "4"
    } else if d == 5 {
        "5"
    } else if d == 6 {
        "6"
    } else if d == 7 {
        "7"
    } else if d == 8 {
        "8"
    } else {
        "9"
    }
}

/// Appends the decimal representation of `n` to `s`.
pub fn push_decimal(s: &mut String, n: u64)
    ensures
        final(s)@ == old(s)@ + decimal(n as nat),
    decreases n,
{
    if n >= 10 {
        push_decimal(s, n / 10);
    }
    s.append(digit_str(n % 10));
    proof {
        assert(s@ =~= old(s)@ + decimal(n as nat));
    }
}

/// `n / d` rounded to the nearest integer, ties going to the even neighbour:
/// the rounding that Rust's fixed-precision float formatting applies to the
/// exact value it is given.
pub open spec fn round_half_even(n: nat, d: nat) -> nat
    recommends
        d > 0,
{
    let q = n / d;
    let r = n % d;
    if 2 * r > d || (2 * r == d && q % 2 == 1) {
        q + 1
    } else {
        q
    }
}

/// The spacing of the 64-bit floats around `b`: one below 2^53, and doubling
/// with each further bit of `b`.
pub open spec fn f64_spacing(b: nat) -> nat
    decreases b,
{
    if b < 0x20_0000_0000_0000 {
        1
    } else {
        2 * f64_spacing(b / 2)
    }
}

/// The value of the 64-bit float nearest to `b` (ties to even), as
/// `b as f64` gives it.
pub open spec fn f64_of(b: nat) -> nat {
    round_half_even(b, f64_spacing(b)) * f64_spacing(b)
}

/// The scaled integer `v` written with one fractional digit: `v / 10`, a
/// point, and `v % 10`.
pub open spec fn one_decimal(v: nat) -> Seq<char> {
    decimal(v / 10).push('.').push(digit_char(v % 10))
}

/// The scaled integer `v` written with two fractional digits.
pub open spec fn two_decimals(v: nat) -> Seq<char> {
    decimal(v / 100).push('.').push(digit_char((v / 10) % 10)).push(digit_char(v % 10))
}

/// The human-readable size of `bytes`: plain bytes below 1 KiB; KiB and
/// MiB with one decimal below 1 GiB; GiB with two decimals above. The
/// fraction is the exact quotient rounded half to even, and the GiB figure
/// starts from `bytes` as a 64-bit float.
pub open spec fn size_text(bytes: nat) -> Seq<char> {
    if bytes < 1024 {
        decimal(bytes) + seq![' ', 'B']
    } else if bytes < 1024 * 1024 {
        one_decimal(round_half_even(bytes * 10, 1024)) + seq![' ', 'K', 'B']
    } else if bytes < 1024 * 1024 * 1024 {
        one_decimal(round_half_even(bytes * 10, 1024 * 1024)) + seq![' ', 'M', 'B']
    } else {
        two_decimals(round_half_even(f64_of(bytes) * 100, 1024 * 1024 * 1024)) + seq![
            ' ',
            'G',
            'B',
        ]
    }
}

proof fn lemma_round_half_even_bound(n: nat, d: nat)
    requires
        d > 0,
    ensures
        round_half_even(n, d) <= n / d + 1,
        round_half_even(n, d) * d <= n + d,
{
    let q = n / d;
    let r = n % d;
    assert(n == d * q + r) by (nonlinear_arith)
        requires
            d > 0,
            q == n / d,
            r == n % d,
    ;
    assert((q + 1) * d == q * d + d) by (nonlinear_arith);
    assert(q * d == d * q) by (nonlinear_arith);
}

fn round_half_even_exec(n: u128, d: u128) -> (v: u128)
    requires
        d > 0,
        n < 0x8000_0000_0000_0000_0000_0000_0000_0000,
    ensures
        v == round_half_even(n as nat, d as nat),
{
    let q = n / d;
    let r = n % d;
    if (r > d - r) || (r == d - r && q % 2 == 1) {
        assert(q <= n) by (nonlinear_arith)
            requires
                d > 0,
                q == n / d,
        ;
        q + 1
    } else {
        q
    }
}

/// `b as f64`, as an integer.
fn f64_value(b: u64) -> (v: u128)
    ensures
        v == f64_of(b as nat),
        v <= 0x1_0000_0000_0000_1000,
{
    let mut u: u128 = 1;
    let mut c: u64 = b;
    while c >= 0x20_0000_0000_0000
        invariant
            1 <= u <= 0x1000,
            c as nat == b as nat / u as nat,
            f64_spacing(b as nat) == u * f64_spacing(c as nat),
        decreases c,
    {
        proof {
            vstd::arithmetic::div_mod::lemma_div_denominator(b as int, u as int, 2);
            assert(u * 0x20_0000_0000_0000 <= b) by (nonlinear_arith)
                requires
                    c as nat == b as nat / u as nat,
                    c >= 0x20_0000_0000_0000,
                    u >= 1,
            ;
            let ghost fc = f64_spacing(c as nat / 2);
            assert(f64_spacing(c as nat) == 2 * fc);
            assert(u * f64_spacing(c as nat) == (2 * u) * fc) by (nonlinear_arith)
                requires
                    f64_spacing(c as nat) == 2 * fc,
            ;
        }
        c = c / 2;
        u = u * 2;
    }
    proof {
        lemma_round_half_even_bound(b as nat, u as nat);
        assert(f64_spacing(c as nat) == 1);
        assert(f64_spacing(b as nat) == u as nat) by (nonlinear_arith)
            requires
                f64_spacing(b as nat) == u * f64_spacing(c as nat),
                f64_spacing(c as nat) == 1,
        ;
    }
    let q = round_half_even_exec(b as u128, u);
    assert(q * u <= 0x1_0000_0000_0000_1000);
    q * u
}

/// Appends `v` with one fractional digit (`v` is ten times the value).
fn push_one_decimal(s: &mut String, v: u64)
    ensures
        final(s)@ == old(s)@ + one_decimal(v as nat),
{
    push_decimal(s, v / 10);
    proof {
        reveal_strlit(".");
    }
    s.append(".");
    s.append(digit_str(v % 10));
    proof {
        assert(s@ =~= old(s)@ + one_decimal(v as nat));
    }
}

/// Appends `v` with two fractional digits (`v` is a hundred times the value).
fn push_two_decimals(s: &mut String, v: u64)
    ensures
        final(s)@ == old(s)@ + two_decimals(v as nat),
{
    push_decimal(s, v / 100);
    proof {
        reveal_strlit(".");
    }
    s.append(".");
    s.append(digit_str((v / 10) % 10));
    s.append(digit_str(v % 10));
    proof {
        assert(s@ =~= old(s)@ + two_decimals(v as nat));
    }
}

/// Formats a byte count for people: `512 B`, `1.5 KB`, `700.0 MB`, `4.37 GB`.
pub fn format_size(bytes: u64) -> (text: String)
    ensures
        text@ == size_text(bytes as nat),
{
    let mut text = String::new();
    if bytes < 1024 {
        push_decimal(&mut text, bytes);
        proof {
            reveal_strlit(" B");
        }
        text.append(" B");
    } else if bytes < 1024 * 1024 {
        let tenths = round_half_even_exec(bytes as u128 * 10, 1024);
        proof {
            lemma_round_half_even_bound(bytes as nat * 10, 1024);
        }
        push_one_decimal(&mut text, tenths as u64);
        proof {
            reveal_strlit(" KB");
        }
        text.append(" KB");
    } else if bytes < 1024 * 1024 * 1024 {
        let tenths = round_half_even_exec(bytes as u128 * 10, 1024 * 1024);
        proof {
            lemma_round_half_even_bound(bytes as nat * 10, 1024 * 1024);
        }
        push_one_decimal(&mut text, tenths as u64);
        proof {
            reveal_strlit(" MB");
        }
        text.append(" MB");
    } else {
        let value = f64_value(bytes);
        let hundredths = round_half_even_exec(value * 100, 1024 * 1024 * 1024);
        proof {
            lemma_round_half_even_bound(value as nat * 100, 1024 * 1024 * 1024);
        }
        push_two_decimals(&mut text, hundredths as u64);
        proof {
            reveal_strlit(" GB");
        }
        text.append(" GB");
    }
    proof {
        assert(text@ =~= size_text(bytes as nat));
    }
    text
}

} // verus!
