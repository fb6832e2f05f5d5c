//! Decimal reading and rendering of numeric reply codes.

use vstd::prelude::*;

verus! {

/// Whether `c` is a decimal digit.
pub open spec fn is_digit(c: char) -> bool {
    48 <= c as int <= 57
}

/// The value of a decimal digit.
pub open spec fn digit_val(c: char) -> nat {
    (c as int - 48) as nat
}

/// The value of a digit string, most significant digit first.
pub open spec fn digits_val(s: Seq<char>) -> nat
    decreases s.len(),
{
    if s.len() == 0 {
        0
    } else {
        digits_val(s.drop_last()) * 10 + digit_val(s.last())
    }
}

/// Whether every character of `s` is a decimal digit.
pub open spec fn all_digits(s: Seq<char>) -> bool {
    forall|k: int| 0 <= k < s.len() ==> is_digit(#[trigger] s[k])
}

/// The digits of a numeric token, with an optional leading `+` stripped.
pub open spec fn digits_part(s: Seq<char>) -> Seq<char> {
    if s.len() > 0 && s[0] == '+' {
        s.drop_first()
    } else {
        s
    }
}

/// Whether `s` reads as an unsigned 16-bit decimal the way the standard
/// numeric parser accepts one: an optional `+`, then one or more digits,
/// with a value that fits.
pub open spec fn is_u16_token(s: Seq<char>) -> bool {
    digits_part(s).len() > 0 && all_digits(digits_part(s)) && digits_val(digits_part(s))
        <= u16::MAX
}

/// The value a numeric token reads as.
pub open spec fn u16_token_val(s: Seq<char>) -> nat {
    digits_val(digits_part(s))
}

/// A digit-string prefix never reads as more than the whole string.
proof fn lemma_digits_val_prefix_le(s: Seq<char>, i: int)
    requires
        0 <= i <= s.len(),
    ensures
        digits_val(s.subrange(0, i)) <= digits_val(s),
    decreases s.len() - i,
{
    if i == s.len() {
        assert(s.subrange(0, i) =~= s);
    } else {
        lemma_digits_val_prefix_le(s, i + 1);
        assert(s.subrange(0, i + 1).drop_last() =~= s.subrange(0, i));
        assert(s.subrange(0, i + 1).last() == s[i]);
    }
}

/// Reads an unsigned 16-bit decimal: an optional leading `+`, then digits.
/// Returns nothing exactly when the token is not such a number.
pub fn parse_u16(s: &str) -> (r: Option<u16>)
    ensures
        match r {
            Some(v) => is_u16_token(s@) && v as nat == u16_token_val(s@),
            None => !is_u16_token(s@),
        },
{
    let n = s.unicode_len();
    let mut start: usize = 0;
    if n > 0 && s.get_char(0) == '+' {
        start = 1;
    }
    proof {
        assert(digits_part(s@) =~= s@.skip(start as int));
    }
    let ghost d = s@.skip(start as int);
    if start == n {
        proof {
            assert(d.len() == 0);
        }
        return None;
    }
    let mut acc: u32 = 0;
    let mut j = start;
    proof {
        assert(s@.subrange(start as int, start as int) =~= Seq::<char>::empty());
    }
    while j < n
        invariant
            n == s@.len(),
            start <= j <= n,
            start < n,
            d == s@.skip(start as int),
            d == digits_part(s@),
            acc <= 65535,
            acc as nat == digits_val(s@.subrange(start as int, j as int)),
            all_digits(s@.subrange(start as int, j as int)),
        decreases n - j,
    {
        let c = s.get_char(j);
        let v = c as u32;
        let ghost sofar = s@.subrange(start as int, j as int);
        if v < 48 || v > 57 {
            proof {
                assert(d[j - start] == s@[j as int]);
                assert(!is_digit(d[j - start]));
            }
            return None;
        }
        let dv = v - 48;
        let acc2 = acc * 10 + dv;
        proof {
            let x = s@[j as int];
            assert(sofar.push(x) =~= s@.subrange(start as int, j as int + 1));
            assert(forall|k: int|
                0 <= k < sofar.len() + 1 ==> is_digit(#[trigger] sofar.push(x)[k]));
            assert(sofar.push(x).drop_last() =~= sofar);
            assert(sofar.push(x).last() == x);
            assert(digit_val(x) == (dv as nat));
            assert(digits_val(sofar.push(x)) == acc * 10 + dv);
        }
        if acc2 > 65535 {
            proof {
                let pre = s@.subrange(start as int, j as int + 1);
                assert(pre =~= d.subrange(0, j as int + 1 - start));
                lemma_digits_val_prefix_le(d, j as int + 1 - start);
                assert(digits_val(d) > u16::MAX);
            }
            return None;
        }
        acc = acc2;
        j = j + 1;
    }
    proof {
        assert(s@.subrange(start as int, n as int) =~= d);
    }
    Some(acc as u16)
}

/// The character of one decimal digit.
pub open spec fn spec_digit_char(d: nat) -> char {
    if d == 0 {
        '0'
    } else if d == 1 {
        '1'
    } else if d == 2 {
        '2'
    } else if d == 3 {
        '3'
    } else if d == 4 {
        '4'
    } else if d == 5 {
        '5'
    } else if d == 6 {
        '6'
    } else if d == 7 {
        '7'
    } else if d == 8 {
        '8'
    } else {
        '9'
    }
}

/// The decimal rendering of `n`, most significant digit first, no sign and no
/// leading zero except for zero itself.
pub open spec fn dec_str(n: nat) -> Seq<char>
    decreases n,
{
    if n < 10 {
        seq![spec_digit_char(n)]
    } else {
        dec_str(n / 10).push(spec_digit_char(n % 10))
    }
}

/// A rendered number is a pure digit string that reads back as the same value.
pub proof fn lemma_dec_str_val(n: nat)
    ensures
        dec_str(n).len() > 0,
        all_digits(dec_str(n)),
        digits_val(dec_str(n)) == n,
        dec_str(n)[0] != '+',
        dec_str(n)[0] != ':',
        is_digit(dec_str(n)[0]),
    decreases n,
{
    if n < 10 {
        let s = seq![spec_digit_char(n)];
        assert(s.drop_last() =~= Seq::<char>::empty());
        assert(s.last() == spec_digit_char(n));
        assert(digits_val(Seq::<char>::empty()) == 0);
        assert(digits_val(s) == digit_val(spec_digit_char(n)));
    } else {
        lemma_dec_str_val(n / 10);
        let s = dec_str(n / 10);
        let c = spec_digit_char(n % 10);
        assert(s.push(c).drop_last() =~= s);
        assert(s.push(c).last() == c);
        assert(digits_val(s.push(c)) == n / 10 * 10 + n % 10);
        assert(n / 10 * 10 + n % 10 == n) by (nonlinear_arith);
        assert(forall|k: int| 0 <= k < s.push(c).len() ==> is_digit(#[trigger] s.push(c)[k]));
        assert(s.push(c)[0] == s[0]);
    }
}

/// A rendered number is a numeric token reading back as the same value.
pub proof fn lemma_dec_str_token(n: nat)
    requires
        n <= u16::MAX,
    ensures
        is_u16_token(dec_str(n)),
        u16_token_val(dec_str(n)) == n,
        crate::tokens::is_token(dec_str(n)),
        dec_str(n)[0] != ':',
        digits_part(dec_str(n)) == dec_str(n),
{
    lemma_dec_str_val(n);
    assert(digits_part(dec_str(n)) == dec_str(n));
    assert forall|k: int| 0 <= k < dec_str(n).len() implies !crate::tokens::is_wsp(
        #[trigger] dec_str(n)[k],
    ) by {
        assert(is_digit(dec_str(n)[k]));
    }
}

fn digit_str(d: u16) -> (r: &'static str)
    requires
        d < 10,
    ensures
        r@ == seq![spec_digit_char(d as nat)],
{
    let r: &'static str = if d == 0 {
        "0"
    } else if d == 1 {
        "1"
    } else if d == 2 {
        "2"
    } else if d == 3 {
        "3"
    } else if d == 4 {
        "4"
    } else if d == 5 {
        "5"
    } else if d == 6 {
        "6"
    } else if d == 7 {
        "7"
    } else if d == 8 {
        "8"
    } else {
        "9"
    };
    proof {
        reveal_strlit("0");
        reveal_strlit("1");
        reveal_strlit("2");
        reveal_strlit("3");
        reveal_strlit("4");
        reveal_strlit("5");
        reveal_strlit("6");
        reveal_strlit("7");
        reveal_strlit("8");
        reveal_strlit("9");
        assert(r@ =~= seq![spec_digit_char(d as nat)]);
    }
    r
}

/// Renders a number as decimal digits, most significant first.
pub fn dec_string(n: u16) -> (r: String)
    ensures
        r@ == dec_str(n as nat),
    decreases n,
{
    if n < 10 {
        String::from_str(digit_str(n))
    } else {
        let mut r = dec_string(n / 10);
        r.append(digit_str(n % 10));
        proof {
            assert(dec_str((n / 10) as nat) + seq![spec_digit_char((n % 10) as nat)] =~= dec_str(
                (n / 10) as nat,
            ).push(spec_digit_char((n % 10) as nat)));
            assert((n / 10) as nat == n as nat / 10);
            assert((n % 10) as nat == n as nat % 10);
        }
        r
    }
}

} // verus!
