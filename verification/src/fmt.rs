//! Number formatting: decimal (`{}`) and zero-padded lower-case hex
//! (`{:0N$x}`), as `format!` writes them.

use vstd::prelude::*;
use crate::text::string_from_chars;

verus! {

/// The character of digit `d` (below 16; lower-case letters above 9).
pub open spec fn digit_char(d: nat) -> char {
    if d < 10 {
        ((48 + d) as u32) as char
    } else {
        ((87 + d) as u32) as char
    }
}

/// Decimal digits of `n`, most significant first, no leading zeros.
pub open spec fn dec(n: nat) -> Seq<char>
    decreases n,
{
    if n < 10 {
        seq![digit_char(n)]
    } else {
        dec(n / 10).push(digit_char(n % 10))
    }
}

/// Decimal text of a signed number.
pub open spec fn dec_int(n: int) -> Seq<char> {
    if n < 0 {
        seq!['-'] + dec((-n) as nat)
    } else {
        dec(n as nat)
    }
}

/// Lower-case hex digits of `n`, no leading zeros.
pub open spec fn hex(n: nat) -> Seq<char>
    decreases n,
{
    if n < 16 {
        seq![digit_char(n)]
    } else {
        hex(n / 16).push(digit_char(n % 16))
    }
}

/// `s` with `c` added in front until it is `width` long.
pub open spec fn pad_left(s: Seq<char>, width: nat, c: char) -> Seq<char> {
    if s.len() >= width {
        s
    } else {
        Seq::new((width - s.len()) as nat, |i: int| c) + s
    }
}

fn digit(d: u64) -> (c: char)
    requires
        d < 16,
    ensures
        c == digit_char(d as nat),
{
    if d < 10 {
        let b: u8 = 48 + (d as u8);
        b as char
    } else {
        let b: u8 = 87 + (d as u8);
        b as char
    }
}

fn dec_chars(n: u64) -> (r: Vec<char>)
    ensures
        r@ == dec(n as nat),
    decreases n,
{
    if n < 10 {
        let mut v: Vec<char> = Vec::new();
        v.push(digit(n));
        v
    } else {
        let mut v = dec_chars(n / 10);
        v.push(digit(n % 10));
        v
    }
}

fn hex_chars(n: u64) -> (r: Vec<char>)
    ensures
        r@ == hex(n as nat),
    decreases n,
{
    if n < 16 {
        let mut v: Vec<char> = Vec::new();
        v.push(digit(n));
        v
    } else {
        let mut v = hex_chars(n / 16);
        v.push(digit(n % 16));
        v
    }
}

/// `format!("{}", n)` for an unsigned number.
pub fn u64_text(n: u64) -> (r: String)
    ensures
        r@ == dec(n as nat),
{
    let v = dec_chars(n);
    string_from_chars(v.as_slice())
}

/// `format!("{}", n)` for a signed number.
pub fn i64_text(n: i64) -> (r: String)
    ensures
        r@ == dec_int(n as int),
{
    if n < 0 {
        let m: u64 = if n == i64::MIN {
            9223372036854775808u64
        } else {
            (-n) as u64
        };
        let d = dec_chars(m);
        let mut v: Vec<char> = Vec::new();
        v.push('-');
        let mut i: usize = 0;
        while i < d.len()
            invariant
                i <= d.len(),
                v@ == seq!['-'] + d@.take(i as int),
            decreases d.len() - i,
        {
            v.push(d[i]);
            i += 1;
            assert(v@ =~= seq!['-'] + d@.take(i as int));
        }
        assert(d@.take(d.len() as int) =~= d@);
        string_from_chars(v.as_slice())
    } else {
        u64_text(n as u64)
    }
}

fn pad_zeros(h: Vec<char>, width: usize) -> (r: String)
    ensures
        r@ == pad_left(h@, width as nat, '0'),
{
    let mut v: Vec<char> = Vec::new();
    if h.len() < width {
        let pad = width - h.len();
        let mut i: usize = 0;
        while i < pad
            invariant
                i <= pad,
                v@ == Seq::new(i as nat, |j: int| '0'),
            decreases pad - i,
        {
            v.push('0');
            i += 1;
            assert(v@ =~= Seq::new(i as nat, |j: int| '0'));
        }
    }
    let ghost prefix = v@;
    crate::text::extend_chars(&mut v, &h);
    assert(v@ =~= pad_left(h@, width as nat, '0'));
    string_from_chars(v.as_slice())
}

/// `format!("{:0w$x}", n)`: lower-case hex, zero-padded to `width`.
pub fn hex_padded(n: u64, width: usize) -> (r: String)
    ensures
        r@ == pad_left(hex(n as nat), width as nat, '0'),
{
    pad_zeros(hex_chars(n), width)
}

/// `format!("{:0w$}", n)`: decimal, zero-padded to `width`.
pub fn dec_padded(n: u64, width: usize) -> (r: String)
    ensures
        r@ == pad_left(dec(n as nat), width as nat, '0'),
{
    pad_zeros(dec_chars(n), width)
}

/// Decimal digits are digits.
pub proof fn lemma_dec_digits(n: nat)
    ensures
        dec(n).len() >= 1,
        forall|i: int| 0 <= i < dec(n).len() ==> '0' <= #[trigger] dec(n)[i] <= '9',
    decreases n,
{
    if n >= 10 {
        lemma_dec_digits(n / 10);
    }
}

proof fn lemma_digit_inj(a: nat, b: nat)
    requires
        a < 10,
        b < 10,
        digit_char(a) == digit_char(b),
    ensures
        a == b,
{
    assert((digit_char(a) as u32) == 48 + a);
    assert((digit_char(b) as u32) == 48 + b);
}

/// Different numbers have different decimal texts.
pub proof fn law_dec_injective(a: nat, b: nat)
    requires
        dec(a) == dec(b),
    ensures
        a == b,
    decreases a,
{
    lemma_dec_digits(a);
    lemma_dec_digits(b);
    if a < 10 && b < 10 {
        assert(dec(a) == seq![digit_char(a)]);
        assert(dec(b) == seq![digit_char(b)]);
        assert(dec(a)[0] == dec(b)[0]);
        assert(seq![digit_char(a)][0] == digit_char(a));
        assert(seq![digit_char(b)][0] == digit_char(b));
        lemma_digit_inj(a, b);
    } else if a >= 10 && b >= 10 {
        assert(dec(a) == dec(a / 10).push(digit_char(a % 10)));
        assert(dec(b) == dec(b / 10).push(digit_char(b % 10)));
        assert(dec(a).drop_last() =~= dec(a / 10));
        assert(dec(b).drop_last() =~= dec(b / 10));
        assert(dec(a).last() == dec(b).last());
        assert(dec(a).last() == digit_char(a % 10));
        assert(dec(b).last() == digit_char(b % 10));
        lemma_digit_inj(a % 10, b % 10);
        law_dec_injective(a / 10, b / 10);
        assert(a == 10 * (a / 10) + a % 10);
        assert(b == 10 * (b / 10) + b % 10);
    } else if a < 10 {
        lemma_dec_digits(b / 10);
        assert(dec(a).len() == 1);
        assert(dec(b).len() >= 2);
    } else {
        lemma_dec_digits(a / 10);
        assert(dec(b).len() == 1);
        assert(dec(a).len() >= 2);
    }
}

/// A lower-case hex digit.
pub open spec fn is_hex_digit(c: char) -> bool {
    ('0' <= c && c <= '9') || ('a' <= c && c <= 'f')
}

/// The value of one hex digit.
pub open spec fn hex_digit_value(c: char) -> nat {
    if c <= '9' {
        ((c as u32) - 48) as nat
    } else {
        ((c as u32) - 87) as nat
    }
}

/// The number hex digits `s` spell, read after a running value `acc`.
pub open spec fn hex_value_from(s: Seq<char>, acc: nat) -> nat
    decreases s.len(),
{
    if s.len() == 0 {
        acc
    } else {
        hex_value_from(s.drop_first(), acc * 16 + hex_digit_value(s[0]))
    }
}

/// `16` to the power `k`.
pub open spec fn pow16(k: nat) -> nat
    decreases k,
{
    if k == 0 {
        1
    } else {
        16 * pow16((k - 1) as nat)
    }
}

proof fn lemma_digit_value(d: nat)
    requires
        d < 16,
    ensures
        hex_digit_value(digit_char(d)) == d,
        is_hex_digit(digit_char(d)),
{
    if d < 10 {
        assert((digit_char(d) as u32) == 48 + d);
    } else {
        assert((digit_char(d) as u32) == 87 + d);
    }
}

proof fn lemma_hex_value_push(s: Seq<char>, c: char, acc: nat)
    ensures
        hex_value_from(s.push(c), acc) == hex_value_from(s, acc) * 16 + hex_digit_value(c),
    decreases s.len(),
{
    if s.len() == 0 {
        assert(seq![c].drop_first() =~= Seq::<char>::empty());
        assert(s.push(c) =~= seq![c]);
        let a2 = acc * 16 + hex_digit_value(c);
        assert(hex_value_from(Seq::<char>::empty(), a2) == a2);
        assert(hex_value_from(seq![c], acc) == hex_value_from(Seq::<char>::empty(), a2));
    } else {
        assert(s.push(c).drop_first() =~= s.drop_first().push(c));
        lemma_hex_value_push(s.drop_first(), c, acc * 16 + hex_digit_value(s[0]));
    }
}

/// Hex digits of `n` are hex digits, read back as `n`.
pub proof fn lemma_hex_digits(n: nat)
    ensures
        hex(n).len() >= 1,
        forall|i: int| 0 <= i < hex(n).len() ==> is_hex_digit(#[trigger] hex(n)[i]),
        hex_value_from(hex(n), 0) == n,
    decreases n,
{
    if n < 16 {
        lemma_digit_value(n);
        assert(seq![digit_char(n)].drop_first() =~= Seq::<char>::empty());
        let a2 = hex_digit_value(digit_char(n));
        assert(hex_value_from(Seq::<char>::empty(), a2) == a2);
    } else {
        lemma_digit_value(n % 16);
        lemma_hex_digits(n / 16);
        lemma_hex_value_push(hex(n / 16), digit_char(n % 16), 0);
        assert forall|i: int| 0 <= i < hex(n).len() implies is_hex_digit(#[trigger] hex(n)[i]) by {
            if i < hex(n / 16).len() {
                assert(hex(n)[i] == hex(n / 16)[i]);
            }
        }
    }
}

/// Hex digits of a number below `16^k` are at most `k`.
pub proof fn lemma_hex_len(n: nat, k: nat)
    requires
        k >= 1,
        n < pow16(k),
    ensures
        hex(n).len() <= k,
    decreases n,
{
    if n >= 16 {
        assert(k >= 2) by {
            if k == 1 {
                assert(pow16(1) == 16 * pow16(0));
            }
        }
        let p = pow16((k - 1) as nat);
        assert(pow16(k) == 16 * p);
        assert(n / 16 < p) by (nonlinear_arith)
            requires
                n < 16 * p,
        ;
        lemma_hex_len(n / 16, (k - 1) as nat);
    }
}

/// Zero-padding hex digits keeps their value and makes only hex digits.
pub proof fn lemma_pad_hex(n: nat, w: nat)
    ensures
        hex_value_from(pad_left(hex(n), w, '0'), 0) == n,
        forall|i: int|
            0 <= i < pad_left(hex(n), w, '0').len() ==> is_hex_digit(
                #[trigger] pad_left(hex(n), w, '0')[i],
            ),
        pad_left(hex(n), w, '0').len() == if hex(n).len() >= w {
            hex(n).len()
        } else {
            w
        },
{
    lemma_hex_digits(n);
    let h = hex(n);
    if h.len() < w {
        let k = (w - h.len()) as nat;
        lemma_zeros_value(k, h);
        let p = pad_left(h, w, '0');
        assert forall|i: int| 0 <= i < p.len() implies is_hex_digit(#[trigger] p[i]) by {
            if i >= k {
                assert(p[i] == h[i - k]);
            }
        }
    }
}

proof fn lemma_zeros_value(k: nat, s: Seq<char>)
    ensures
        hex_value_from(Seq::new(k, |i: int| '0') + s, 0) == hex_value_from(s, 0),
    decreases k,
{
    if k > 0 {
        let z = Seq::new(k, |i: int| '0');
        assert((z + s).drop_first() =~= Seq::new((k - 1) as nat, |i: int| '0') + s);
        assert((z + s)[0] == '0');
        lemma_zeros_value((k - 1) as nat, s);
    }
}

} // verus!
