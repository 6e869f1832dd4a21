//! Unsigned numerals in ASCII: rendering in a radix up to ten, and reading
//! them back the way `from_str_radix` of std reads an unsigned integer.
use vstd::prelude::*;
use vstd::arithmetic::div_mod::{lemma_div_decreases, lemma_fundamental_div_mod, lemma_mod_bound};

verus! {

/// The ASCII byte of the character `'+'`.
pub const PLUS: u8 = 43;

/// The ASCII byte of the character `'0'`.
pub const ZERO: u8 = 48;

/// `b` is the ASCII digit of a value below `radix`.
pub open spec fn is_digit(b: u8, radix: nat) -> bool {
    48 <= b && b < 48 + radix
}

/// Every byte of `s` is a digit in `radix`.
pub open spec fn all_digits(s: Seq<u8>, radix: nat) -> bool {
    forall|i: int| 0 <= i < s.len() ==> is_digit(#[trigger] s[i], radix)
}

/// The number that the digits `s` denote in `radix`, most significant first.
pub open spec fn digits_value(s: Seq<u8>, radix: nat) -> nat
    decreases s.len(),
{
    if s.len() == 0 {
        0
    } else {
        digits_value(s.drop_last(), radix) * radix + (s.last() - 48) as nat
    }
}

/// What `from_str_radix` gives for an unsigned type whose largest value is
/// `max`: an optional leading `'+'` (not alone), then at least one digit,
/// every byte a digit, and a value that fits.
pub open spec fn parse_unsigned(s: Seq<u8>, radix: nat, max: nat) -> Option<nat> {
    let d = if s.len() > 1 && s[0] == PLUS {
        s.drop_first()
    } else {
        s
    };
    if d.len() > 0 && all_digits(d, radix) && digits_value(d, radix) <= max {
        Some(digits_value(d, radix))
    } else {
        None
    }
}

/// The digits of `n` in `radix`, most significant first, with no leading
/// zero (a single `'0'` for zero).
pub open spec fn digits(n: nat, radix: nat) -> Seq<u8>
    decreases n,
{
    if radix < 2 || n < radix {
        seq![(48 + n) as u8]
    } else {
        proof {
            lemma_div_decreases(n as int, radix as int);
        }
        digits(n / radix, radix).push((48 + n % radix) as u8)
    }
}

/// `s` with `'0'` bytes in front, up to at least `width` bytes.
pub open spec fn zero_padded(s: Seq<u8>, width: nat) -> Seq<u8> {
    if s.len() < width {
        Seq::new((width - s.len()) as nat, |i: int| ZERO) + s
    } else {
        s
    }
}

/// The digits of a number are digits, at least one, not starting with
/// `'+'`, and denote the number.
pub proof fn lemma_digits_denote(n: nat, radix: nat)
    requires
        2 <= radix <= 10,
    ensures
        digits(n, radix).len() >= 1,
        all_digits(digits(n, radix), radix),
        digits_value(digits(n, radix), radix) == n,
        digits(n, radix)[0] != PLUS,
    decreases n,
{
    let s = digits(n, radix);
    if n >= radix {
        lemma_div_decreases(n as int, radix as int);
        lemma_digits_denote(n / radix, radix);
        lemma_mod_bound(n as int, radix as int);
        lemma_fundamental_div_mod(n as int, radix as int);
        let c: u8 = (48 + n % radix) as u8;
        assert(c - 48 == n % radix);
        assert(s == digits(n / radix, radix).push(c));
        assert(s.drop_last() == digits(n / radix, radix));
        assert(s.last() == c);
        assert(n == radix * (n / radix) + n % radix);
        assert((n / radix) * radix == radix * (n / radix)) by (nonlinear_arith);
        assert(digits_value(s, radix) == digits_value(digits(n / radix, radix), radix) * radix + n
            % radix);
        assert forall|i: int| 0 <= i < s.len() implies is_digit(#[trigger] s[i], radix) by {
            if i < s.len() - 1 {
                assert(s[i] == digits(n / radix, radix)[i]);
            }
        }
    } else {
        let c: u8 = (48 + n) as u8;
        assert(s == seq![c]);
        assert(s.drop_last().len() == 0);
        assert(digits_value(s.drop_last(), radix) == 0);
        assert(c - 48 == n);
        assert(s.last() == c);
        assert(0 * radix == 0);
    }
}

/// Zeros in front of digits change neither their being digits nor their value.
pub proof fn lemma_leading_zeros(k: nat, s: Seq<u8>, radix: nat)
    requires
        2 <= radix <= 10,
    ensures
        digits_value(Seq::new(k, |i: int| ZERO) + s, radix) == digits_value(s, radix),
        all_digits(s, radix) ==> all_digits(Seq::new(k, |i: int| ZERO) + s, radix),
    decreases s.len() + k,
{
    let z = Seq::new(k, |i: int| ZERO);
    if s.len() == 0 {
        assert(z + s == z);
        if k > 0 {
            let z1 = Seq::new((k - 1) as nat, |i: int| ZERO);
            lemma_leading_zeros((k - 1) as nat, s, radix);
            assert(z1 + s == z1);
            assert(z.drop_last() == z1);
            assert(z.last() == ZERO);
            assert(digits_value(z1, radix) == 0);
            assert(digits_value(z1, radix) * radix == 0);
        }
        assert forall|i: int| 0 <= i < (z + s).len() implies is_digit(#[trigger] (z + s)[i], radix) by {
            assert((z + s)[i] == ZERO);
        }
    } else {
        lemma_leading_zeros(k, s.drop_last(), radix);
        assert((z + s).drop_last() == z + s.drop_last());
        assert((z + s).last() == s.last());
        assert(digits_value(z + s, radix) == digits_value(z + s.drop_last(), radix) * radix + (s.last()
            - 48) as nat);
        if all_digits(s, radix) {
            assert forall|i: int| 0 <= i < (z + s).len() implies is_digit(
                #[trigger] (z + s)[i],
                radix,
            ) by {
                if i < k {
                    assert((z + s)[i] == ZERO);
                } else {
                    assert((z + s)[i] == s[i - k]);
                }
            }
        }
    }
}

/// Reading the zero-padded digits of a number that fits gives the number back.
pub proof fn lemma_parse_padded_digits(n: nat, radix: nat, width: nat, max: nat)
    requires
        2 <= radix <= 10,
        n <= max,
    ensures
        parse_unsigned(zero_padded(digits(n, radix), width), radix, max) == Some(n),
{
    let d = digits(n, radix);
    lemma_digits_denote(n, radix);
    if d.len() < width {
        lemma_leading_zeros((width - d.len()) as nat, d, radix);
    }
}

/// The value of a prefix of digits is at most the value of all of them.
pub proof fn lemma_prefix_value(s: Seq<u8>, k: int, radix: nat)
    requires
        1 <= radix,
        0 <= k <= s.len(),
    ensures
        digits_value(s.take(k), radix) <= digits_value(s, radix),
    decreases s.len(),
{
    if k < s.len() {
        lemma_prefix_value(s.drop_last(), k, radix);
        assert(s.drop_last().take(k) == s.take(k));
        let v = digits_value(s.drop_last(), radix);
        assert(v * radix >= v) by (nonlinear_arith)
            requires
                radix >= 1,
        ;
    } else {
        assert(s.take(k) == s);
    }
}

/// Appends the digits of `n` in `radix` to `out`.
pub fn push_digits(out: &mut Vec<u8>, n: u64, radix: u64)
    requires
        2 <= radix <= 10,
    ensures
        final(out)@ == old(out)@ + digits(n as nat, radix as nat),
    decreases n,
{
    if n >= radix {
        proof {
            lemma_div_decreases(n as int, radix as int);
        }
        push_digits(out, n / radix, radix);
    }
    proof {
        lemma_mod_bound(n as int, radix as int);
        if n < radix {
            vstd::arithmetic::div_mod::lemma_small_mod(n as nat, radix as nat);
        }
    }
    let d = (48 + n % radix) as u8;
    out.push(d);
    proof {
        if n >= radix {
            assert(digits(n as nat, radix as nat) == digits((n / radix) as nat, radix as nat).push(d));
        }
    }
}

/// The digits of `n` in `radix`, with `'0'` bytes in front up to `width` bytes.
pub fn padded_digits(n: u64, radix: u64, width: usize) -> (out: Vec<u8>)
    requires
        2 <= radix <= 10,
    ensures
        out@ == zero_padded(digits(n as nat, radix as nat), width as nat),
{
    let mut d: Vec<u8> = Vec::new();
    push_digits(&mut d, n, radix);
    assert(d@ == digits(n as nat, radix as nat));
    if d.len() >= width {
        return d;
    }
    let k = width - d.len();
    let mut out: Vec<u8> = Vec::new();
    let mut i: usize = 0;
    while i < k
        invariant
            i <= k,
            out@ == Seq::new(i as nat, |j: int| ZERO),
        decreases k - i,
    {
        out.push(ZERO);
        i += 1;
    }
    let mut j: usize = 0;
    while j < d.len()
        invariant
            j <= d.len(),
            out@ == Seq::new(k as nat, |x: int| ZERO) + d@.take(j as int),
        decreases d.len() - j,
    {
        out.push(d[j]);
        assert(d@.take(j + 1) == d@.take(j as int).push(d@[j as int]));
        j += 1;
    }
    assert(d@.take(d@.len() as int) == d@);
    out
}

/// Reads `s` as an unsigned number in `radix` whose largest value is `max`,
/// as `from_str_radix` of std does; `None` where that gives an error.
pub fn parse_unsigned_bytes(s: &[u8], radix: u64, max: u64) -> (r: Option<u64>)
    requires
        2 <= radix <= 10,
    ensures
        match r {
            Some(v) => parse_unsigned(s@, radix as nat, max as nat) == Some(v as nat),
            None => parse_unsigned(s@, radix as nat, max as nat) is None,
        },
{
    let start: usize = if s.len() > 1 && s[0] == PLUS {
        1
    } else {
        0
    };
    let ghost d = if s@.len() > 1 && s@[0] == PLUS {
        s@.drop_first()
    } else {
        s@
    };
    assert(d == s@.subrange(start as int, s@.len() as int));
    if start == s.len() {
        return None;
    }
    let mut acc: u128 = 0;
    let mut i: usize = start;
    while i < s.len()
        invariant
            start <= i <= s.len(),
            d == (if s@.len() > 1 && s@[0] == PLUS {
                s@.drop_first()
            } else {
                s@
            }),
            d == s@.subrange(start as int, s@.len() as int),
            all_digits(d.take(i - start), radix as nat),
            acc == digits_value(d.take(i - start), radix as nat),
            acc <= max,
            2 <= radix <= 10,
        decreases s.len() - i,
    {
        let b = s[i];
        if b < 48 || b >= 48 + radix as u8 {
            assert(!is_digit(d[i - start], radix as nat));
            return None;
        }
        let ghost k: int = i - start;
        assert(d.take(k + 1).drop_last() == d.take(k));
        assert(d.take(k + 1).last() == b);
        assert(acc * radix <= (max as u128) * 10) by (nonlinear_arith)
            requires
                acc <= max,
                radix <= 10,
        ;
        acc = acc * (radix as u128) + ((b - 48) as u128);
        if acc > max as u128 {
            proof {
                if all_digits(d, radix as nat) {
                    lemma_prefix_value(d, k + 1, radix as nat);
                }
            }
            return None;
        }
        i += 1;
        assert(all_digits(d.take(i - start), radix as nat)) by {
            assert forall|j: int| 0 <= j < d.take(i - start).len() implies is_digit(
                #[trigger] d.take(i - start)[j],
                radix as nat,
            ) by {
                if j < k {
                    assert(d.take(i - start)[j] == d.take(k)[j]);
                }
            }
        }
    }
    assert(d.take(s.len() - start) == d);
    Some(acc as u64)
}

} // verus!
