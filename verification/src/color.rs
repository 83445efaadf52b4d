//! GT colours: `#AARRGGBB` text in documents, CSS text in HTML.
use vstd::prelude::*;

use crate::text::{chars_of, is_white, push_char, trim, trim_end_seq, trim_seq, trim_start_seq};

verus! {

/// The value of a hexadecimal digit, either case.
pub open spec fn hex_digit(c: char) -> Option<nat> {
    if '0' <= c && c <= '9' {
        Some((c as nat - '0' as nat) as nat)
    } else if 'a' <= c && c <= 'f' {
        Some((c as nat - 'a' as nat + 10) as nat)
    } else if 'A' <= c && c <= 'F' {
        Some((c as nat - 'A' as nat + 10) as nat)
    } else {
        None
    }
}

pub open spec fn all_hex(s: Seq<char>) -> bool {
    forall|i: int| 0 <= i < s.len() ==> (#[trigger] hex_digit(s[i])).is_some()
}

/// The number a run of hexadecimal digits denotes.
pub open spec fn hex_value(s: Seq<char>) -> nat
    decreases s.len(),
{
    if s.len() == 0 {
        0
    } else {
        hex_value(s.drop_last()) * 16 + hex_digit(s.last()).unwrap_or(0)
    }
}

pub open spec fn pow16(n: nat) -> nat
    decreases n,
{
    if n == 0 {
        1
    } else {
        16 * pow16((n - 1) as nat)
    }
}

/// Leading `#` characters removed.
pub open spec fn strip_hashes(s: Seq<char>) -> Seq<char>
    decreases s.len(),
{
    if s.len() > 0 && s[0] == '#' {
        strip_hashes(s.drop_first())
    } else {
        s
    }
}

/// The digits of a base-16 numeral as `u32::from_str_radix` reads it: an
/// optional `+`, then the digits.
pub open spec fn radix_digits(h: Seq<char>) -> Seq<char> {
    if h.len() > 0 && h[0] == '+' {
        h.drop_first()
    } else {
        h
    }
}

pub open spec fn radix16_ok(h: Seq<char>) -> bool {
    radix_digits(h).len() > 0 && all_hex(radix_digits(h))
}

/// The colour whose channels are the bytes of `n`; without an alpha byte the
/// colour is opaque.
pub open spec fn color_from_value(n: nat, with_alpha: bool) -> Color {
    Color {
        a: if with_alpha {
            ((n / 16777216) % 256) as u8
        } else {
            255
        },
        r: ((n / 65536) % 256) as u8,
        g: ((n / 256) % 256) as u8,
        b: (n % 256) as u8,
    }
}

/// `#RRGGBB` or `#AARRGGBB` (any number of leading `#`, surrounding white
/// space allowed); anything else is no colour.
pub open spec fn parse_color(raw: Seq<char>) -> Option<Color> {
    let h = strip_hashes(trim_seq(raw));
    if (h.len() == 6 || h.len() == 8) && radix16_ok(h) {
        Some(color_from_value(hex_value(radix_digits(h)), h.len() == 8))
    } else {
        None
    }
}

/// An upper-case hexadecimal digit.
pub open spec fn hex_upper(d: nat) -> char {
    if d < 10 {
        ('0' as nat + d) as char
    } else {
        ('A' as nat + d - 10) as char
    }
}

pub open spec fn hex2(x: u8) -> Seq<char> {
    seq![hex_upper(x as nat / 16), hex_upper(x as nat % 16)]
}

/// `#AARRGGBB` in upper case.
pub open spec fn argb_text(c: Color) -> Seq<char> {
    seq!['#'] + hex2(c.a) + hex2(c.r) + hex2(c.g) + hex2(c.b)
}

pub open spec fn dec_digit(d: nat) -> char {
    ('0' as nat + d) as char
}

/// A byte in decimal, without leading zeros.
pub open spec fn dec_text(x: u8) -> Seq<char> {
    let n = x as nat;
    if n < 10 {
        seq![dec_digit(n)]
    } else if n < 100 {
        seq![dec_digit(n / 10), dec_digit(n % 10)]
    } else {
        seq![dec_digit(n / 100), dec_digit((n / 10) % 10), dec_digit(n % 10)]
    }
}

/// Thousandths of the alpha fraction `a / 255`, rounded to nearest (a tie
/// cannot occur).
pub open spec fn alpha_thousandths(a: u8) -> nat {
    ((2000 * (a as nat) + 255) / 510) as nat
}

/// CSS text: `#RRGGBB` when opaque, otherwise `rgba(r, g, b, 0.ddd)` with the
/// alpha fraction to three decimals.
pub open spec fn css_text(c: Color) -> Seq<char> {
    if c.a == 255 {
        seq!['#'] + hex2(c.r) + hex2(c.g) + hex2(c.b)
    } else {
        let k = alpha_thousandths(c.a);
        seq!['r', 'g', 'b', 'a', '('] + dec_text(c.r) + seq![',', ' '] + dec_text(c.g) + seq![
            ',',
            ' ',
        ] + dec_text(c.b) + seq![',', ' ', '0', '.', dec_digit(k / 100), dec_digit((k / 10) % 10),
            dec_digit(k % 10), ')']
    }
}

/// A GT colour, stored in documents as `#AARRGGBB`.
#[derive(Clone, Copy, Debug, PartialEq, Eq, Structural)]
pub struct Color {
    pub a: u8,
    pub r: u8,
    pub g: u8,
    pub b: u8,
}

fn hex_char(d: u8) -> (c: char)
    requires
        d < 16,
    ensures
        c == hex_upper(d as nat),
{
    if d < 10 {
        (48u8 + d) as char
    } else {
        (65u8 + d - 10) as char
    }
}

fn push_hex2(out: &mut String, x: u8)
    ensures
        final(out)@ == old(out)@ + hex2(x),
{
    push_char(out, hex_char(x / 16));
    push_char(out, hex_char(x % 16));
    assert(final(out)@ =~= old(out)@ + hex2(x));
}

fn dec_char(d: u8) -> (c: char)
    requires
        d < 10,
    ensures
        c == dec_digit(d as nat),
{
    (48u8 + d) as char
}

fn push_dec(out: &mut String, x: u8)
    ensures
        final(out)@ == old(out)@ + dec_text(x),
{
    if x < 10 {
        push_char(out, dec_char(x));
    } else if x < 100 {
        push_char(out, dec_char(x / 10));
        push_char(out, dec_char(x % 10));
    } else {
        push_char(out, dec_char(x / 100));
        push_char(out, dec_char((x / 10) % 10));
        push_char(out, dec_char(x % 10));
    }
    assert(final(out)@ =~= old(out)@ + dec_text(x));
}

fn hex_digit_exec(c: char) -> (res: Option<u8>)
    ensures
        res.is_some() == hex_digit(c).is_some(),
        res matches Some(d) ==> d as nat == hex_digit(c).unwrap() && d < 16,
{
    if '0' <= c && c <= '9' {
        Some((c as u32 - '0' as u32) as u8)
    } else if 'a' <= c && c <= 'f' {
        Some((c as u32 - 'a' as u32 + 10) as u8)
    } else if 'A' <= c && c <= 'F' {
        Some((c as u32 - 'A' as u32 + 10) as u8)
    } else {
        None
    }
}

proof fn lemma_hex_step(acc: nat, d: nat, i: nat)
    requires
        acc < pow16(i),
        d < 16,
    ensures
        acc * 16 + d < pow16(i + 1),
{
    assert(pow16(i + 1) == 16 * pow16(i));
    assert(acc * 16 + d < 16 * pow16(i)) by (nonlinear_arith)
        requires
            acc < pow16(i),
            d < 16,
    ;
}

proof fn lemma_pow16_8()
    ensures
        pow16(8) == 4294967296,
{
    reveal_with_fuel(pow16, 9);
}

fn push_comma(out: &mut String)
    ensures
        final(out)@ == old(out)@ + seq![',', ' '],
{
    push_char(out, ',');
    push_char(out, ' ');
    assert(final(out)@ =~= old(out)@ + seq![',', ' ']);
}

fn push_alpha(out: &mut String, k: u32)
    requires
        k / 100 < 10,
    ensures
        final(out)@ == old(out)@ + seq![',', ' ', '0', '.', dec_digit(k as nat / 100), dec_digit((k as nat / 10) % 10),
            dec_digit(k as nat % 10), ')'],
{
    push_char(out, ',');
    push_char(out, ' ');
    push_char(out, '0');
    push_char(out, '.');
    push_char(out, dec_char((k / 100) as u8));
    push_char(out, dec_char(((k / 10) % 10) as u8));
    push_char(out, dec_char((k % 10) as u8));
    push_char(out, ')');
    assert(final(out)@ =~= old(out)@ + seq![',', ' ', '0', '.', dec_digit(k as nat / 100), dec_digit((k as nat / 10) % 10),
            dec_digit(k as nat % 10), ')']);
}

impl Color {
    /// Fully transparent black.
    pub fn transparent() -> (c: Color)
        ensures
            c == (Color { a: 0, r: 0, g: 0, b: 0 }),
    {
        Color { a: 0, r: 0, g: 0, b: 0 }
    }

    /// A colour is transparent when its alpha channel is zero.
    pub fn is_transparent(self) -> (res: bool)
        ensures
            res == (self.a == 0),
    {
        self.a == 0
    }

    /// Reads `#RRGGBB` (opaque) or `#AARRGGBB`.
    pub fn parse(raw: &str) -> (res: Option<Color>)
        ensures
            res == parse_color(raw@),
    {
        let trimmed = trim(raw);
        let cs = chars_of(trimmed);
        let n = cs.len();
        let mut start: usize = 0;
        assert(cs@.skip(0) =~= cs@);
        while start < n && cs[start] == '#'
            invariant
                start <= n,
                n == cs@.len(),
                strip_hashes(cs@) == strip_hashes(cs@.skip(start as int)),
            decreases n - start,
        {
            proof {
                assert(cs@.skip(start as int).drop_first() =~= cs@.skip(start + 1));
            }
            start = start + 1;
        }
        let ghost h = cs@.skip(start as int);
        assert(strip_hashes(cs@) == h);
        let len = n - start;
        if len != 6 && len != 8 {
            return None;
        }
        let mut i = start;
        if cs[start] == '+' {
            i = start + 1;
        }
        let ghost digits = cs@.skip(i as int);
        assert(digits == radix_digits(h));
        if i >= n {
            assert(digits.len() == 0);
            return None;
        }
        let mut acc: u64 = 0;
        let mut j = i;
        while j < n
            invariant
                i <= j <= n,
                n == cs@.len(),
                n - i <= 8,
                digits == cs@.skip(i as int),
                cs@ == trim_seq(raw@),
                digits == radix_digits(strip_hashes(cs@)),
                all_hex(digits.take(j - i)),
                acc as nat == hex_value(digits.take(j - i)),
                (acc as nat) < pow16((j - i) as nat),
            decreases n - j,
        {
            match hex_digit_exec(cs[j]) {
                None => {
                    proof {
                        assert(hex_digit(digits[j - i]).is_none());
                        assert(!all_hex(digits));
                    }
                    return None;
                },
                Some(d) => {
                    proof {
                        lemma_hex_step(acc as nat, d as nat, (j - i) as nat);
                        assert(digits.take(j - i + 1).drop_last() =~= digits.take(j - i));
                        assert(pow16((j - i + 1) as nat) <= pow16(8)) by {
                            lemma_pow16_mono((j - i + 1) as nat, 8);
                        }
                        lemma_pow16_8();
                    }
                    acc = acc * 16 + d as u64;
                    j = j + 1;
                },
            }
        }
        proof {
            assert(digits.take(n - i) =~= digits);
        }
        let v = acc;
        let a: u8 = if len == 8 {
            ((v >> 24) & 0xff) as u8
        } else {
            255
        };
        let r = ((v >> 16) & 0xff) as u8;
        let g = ((v >> 8) & 0xff) as u8;
        let b = (v & 0xff) as u8;
        proof {
            assert((v >> 24) & 0xff == (v / 16777216) % 256) by (bit_vector);
            assert((v >> 16) & 0xff == (v / 65536) % 256) by (bit_vector);
            assert((v >> 8) & 0xff == (v / 256) % 256) by (bit_vector);
            assert(v & 0xff == v % 256) by (bit_vector);
        }
        Some(Color { a, r, g, b })
    }

    /// CSS colour text.
    pub fn to_css(self) -> (res: String)
        ensures
            res@ == css_text(self),
    {
        let mut out = String::new();
        if self.a == 255 {
            push_char(&mut out, '#');
            push_hex2(&mut out, self.r);
            push_hex2(&mut out, self.g);
            push_hex2(&mut out, self.b);
        } else {
            let k: u32 = (2000 * (self.a as u32) + 255) / 510;
            assert(k <= 1000) by (nonlinear_arith)
                requires
                    self.a < 256,
                    k == (2000 * (self.a as u32) + 255) / 510,
            ;
            push_char(&mut out, 'r');
            push_char(&mut out, 'g');
            push_char(&mut out, 'b');
            push_char(&mut out, 'a');
            push_char(&mut out, '(');
            let ghost p1 = out@;
            assert(p1 =~= seq!['r', 'g', 'b', 'a', '(']);
            push_dec(&mut out, self.r);
            push_comma(&mut out);
            let ghost p2 = out@;
            assert(p2 =~= p1 + dec_text(self.r) + seq![',', ' ']);
            push_dec(&mut out, self.g);
            push_comma(&mut out);
            let ghost p3 = out@;
            assert(p3 =~= p2 + dec_text(self.g) + seq![',', ' ']);
            push_dec(&mut out, self.b);
            let ghost p4 = out@;
            assert(p4 =~= p3 + dec_text(self.b));
            assert(k / 100 < 10) by (nonlinear_arith)
                requires
                    self.a < 255,
                    k == (2000 * (self.a as u32) + 255) / 510,
            ;
            push_alpha(&mut out, k);
            assert(out@ =~= p4 + seq![',', ' ', '0', '.', dec_digit(k as nat / 100), dec_digit((k as nat / 10) % 10),
                dec_digit(k as nat % 10), ')']);
        }
        assert(out@ =~= css_text(self));
        out
    }

    /// `#AARRGGBB` in upper case.
    pub fn to_argb(self) -> (res: String)
        ensures
            res@ == argb_text(self),
    {
        let mut out = String::new();
        push_char(&mut out, '#');
        push_hex2(&mut out, self.a);
        push_hex2(&mut out, self.r);
        push_hex2(&mut out, self.g);
        push_hex2(&mut out, self.b);
        assert(out@ =~= argb_text(self));
        out
    }
}

proof fn lemma_pow16_mono(a: nat, b: nat)
    requires
        a <= b,
    ensures
        pow16(a) <= pow16(b),
    decreases b,
{
    if a < b {
        lemma_pow16_mono(a, (b - 1) as nat);
        assert(pow16(b) == 16 * pow16((b - 1) as nat));
    }
}


proof fn lemma_hex_upper_digit(d: nat)
    requires
        d < 16,
    ensures
        hex_digit(hex_upper(d)) == Some(d),
        !is_white(hex_upper(d)),
        hex_upper(d) != '#',
        hex_upper(d) != '+',
{
}

proof fn lemma_hex_value_push2(p: Seq<char>, x: u8)
    ensures
        hex_value(p + hex2(x)) == hex_value(p) * 256 + x as nat,
{
    let s = p + hex2(x);
    lemma_hex_upper_digit(x as nat / 16);
    lemma_hex_upper_digit(x as nat % 16);
    assert(s.drop_last() =~= p.push(hex_upper(x as nat / 16)));
    assert(p.push(hex_upper(x as nat / 16)).drop_last() =~= p);
    assert(s.last() == hex_upper(x as nat % 16));
    assert(hex_value(p.push(hex_upper(x as nat / 16))) == hex_value(p) * 16 + x as nat / 16);
    assert(hex_value(s) == hex_value(s.drop_last()) * 16 + x as nat % 16);
    assert(hex_value(s) == (hex_value(p) * 16 + x as nat / 16) * 16 + x as nat % 16);
    assert((hex_value(p) * 16 + x as nat / 16) * 16 + x as nat % 16 == hex_value(p) * 256 + x as nat)
        by (nonlinear_arith);
}

/// Writing a colour as `#AARRGGBB` and reading the text back gives the same colour.
pub proof fn lemma_argb_round_trip(c: Color)
    ensures
        parse_color(argb_text(c)) == Some(c),
{
    let s = argb_text(c);
    let h = hex2(c.a) + hex2(c.r) + hex2(c.g) + hex2(c.b);
    assert(s =~= seq!['#'] + h);
    lemma_hex_upper_digit(c.a as nat / 16);
    lemma_hex_upper_digit(c.a as nat % 16);
    lemma_hex_upper_digit(c.r as nat / 16);
    lemma_hex_upper_digit(c.r as nat % 16);
    lemma_hex_upper_digit(c.g as nat / 16);
    lemma_hex_upper_digit(c.g as nat % 16);
    lemma_hex_upper_digit(c.b as nat / 16);
    lemma_hex_upper_digit(c.b as nat % 16);
    assert(trim_start_seq(s) == s);
    assert(trim_end_seq(s) == s);
    assert(trim_seq(s) == s);
    assert(s.drop_first() =~= h);
    assert(strip_hashes(h) == h);
    assert(strip_hashes(s) == h);
    assert(radix_digits(h) == h);
    assert(all_hex(h));
    let e: Seq<char> = Seq::empty();
    assert(hex2(c.a) =~= e + hex2(c.a));
    lemma_hex_value_push2(e, c.a);
    lemma_hex_value_push2(hex2(c.a), c.r);
    lemma_hex_value_push2(hex2(c.a) + hex2(c.r), c.g);
    lemma_hex_value_push2(hex2(c.a) + hex2(c.r) + hex2(c.g), c.b);
    let v = hex_value(h);
    assert(v == ((c.a as nat * 256 + c.r as nat) * 256 + c.g as nat) * 256 + c.b as nat);
    let (a, r, g, b) = (c.a as nat, c.r as nat, c.g as nat, c.b as nat);
    assert((v / 16777216) % 256 == a && (v / 65536) % 256 == r && (v / 256) % 256 == g && v % 256
        == b) by (nonlinear_arith)
        requires
            v == ((a * 256 + r) * 256 + g) * 256 + b,
            a < 256,
            r < 256,
            g < 256,
            b < 256,
    ;
    assert(color_from_value(v, true) == c);
}

/// A character in ASCII upper case.
pub open spec fn ascii_upper(c: char) -> char {
    if 'a' <= c && c <= 'z' {
        ((c as u32) - 32) as char
    } else {
        c
    }
}

/// A digit's value written back as an upper-case digit is the digit in
/// upper case, and a hexadecimal digit is no white space, `#` or `+`.
proof fn lemma_hex_digit_upper(c: char)
    requires
        hex_digit(c) is Some,
    ensures
        hex_upper(hex_digit(c)->0) == ascii_upper(c),
        hex_digit(c)->0 < 16,
        !is_white(c),
        c != '#',
        c != '+',
{
}

/// The value of two digits after some others.
proof fn lemma_hex_value_pair(p: Seq<char>, q: Seq<char>)
    requires
        q.len() == 2,
    ensures
        hex_value(p + q) == hex_value(p) * 256 + (hex_digit(q[0]).unwrap_or(0) * 16 + hex_digit(q[1]).unwrap_or(
            0,
        )),
{
    let s = p + q;
    assert(s.drop_last() =~= p.push(q[0]));
    assert(p.push(q[0]).drop_last() =~= p);
    assert(s.last() == q[1]);
    let d0 = hex_digit(q[0]).unwrap_or(0);
    let d1 = hex_digit(q[1]).unwrap_or(0);
    assert(hex_value(p.push(q[0])) == hex_value(p) * 16 + d0);
    assert((hex_value(p) * 16 + d0) * 16 + d1 == hex_value(p) * 256 + (d0 * 16 + d1)) by (nonlinear_arith);
}

/// Two hexadecimal digits as a byte, written back in upper case.
proof fn lemma_hex2_of_pair(q: Seq<char>, x: u8)
    requires
        q.len() == 2,
        hex_digit(q[0]) is Some,
        hex_digit(q[1]) is Some,
        x as nat == hex_digit(q[0])->0 * 16 + hex_digit(q[1])->0,
    ensures
        hex2(x) == seq![ascii_upper(q[0]), ascii_upper(q[1])],
{
    lemma_hex_digit_upper(q[0]);
    lemma_hex_digit_upper(q[1]);
    let d0 = hex_digit(q[0])->0;
    let d1 = hex_digit(q[1])->0;
    assert(x as nat / 16 == d0 && x as nat % 16 == d1) by (nonlinear_arith)
        requires
            x as nat == d0 * 16 + d1,
            d1 < 16,
    ;
}

/// A colour read from `#` and eight hexadecimal digits (either case) is
/// written back as `#` and those digits in upper case.
#[verifier::rlimit(60)]
#[verifier::spinoff_prover]
pub proof fn lemma_argb_upper_case(h: Seq<char>)
    requires
        h.len() == 8,
        all_hex(h),
    ensures
        parse_color(seq!['#'] + h) matches Some(c) && argb_text(c) == seq!['#'] + h.map_values(
            |ch: char| ascii_upper(ch),
        ),
{
    let s = seq!['#'] + h;
    assert(hex_digit(h[0]) is Some);
    assert(hex_digit(h[7]) is Some);
    lemma_hex_digit_upper(h[0]);
    lemma_hex_digit_upper(h[7]);
    assert(s[0] == '#');
    assert(s.last() == h[7]);
    assert(trim_start_seq(s) == s);
    assert(trim_end_seq(s) == s);
    assert(trim_seq(s) == s);
    assert(s.drop_first() =~= h);
    assert(strip_hashes(h) == h);
    assert(strip_hashes(s) == h);
    assert(radix_digits(h) == h);
    let pa = h.subrange(0, 2);
    let pr = h.subrange(2, 4);
    let pg = h.subrange(4, 6);
    let pb = h.subrange(6, 8);
    let e: Seq<char> = Seq::empty();
    assert(h =~= e + pa + pr + pg + pb);
    assert(e + pa =~= pa);
    lemma_hex_value_pair(e, pa);
    lemma_hex_value_pair(pa, pr);
    lemma_hex_value_pair(pa + pr, pg);
    lemma_hex_value_pair(pa + pr + pg, pb);
    assert(hex_digit(h[0]) is Some && hex_digit(h[1]) is Some && hex_digit(h[2]) is Some && hex_digit(h[3]) is Some);
    assert(hex_digit(h[4]) is Some && hex_digit(h[5]) is Some && hex_digit(h[6]) is Some && hex_digit(h[7]) is Some);
    lemma_hex_digit_upper(h[1]);
    lemma_hex_digit_upper(h[2]);
    lemma_hex_digit_upper(h[3]);
    lemma_hex_digit_upper(h[4]);
    lemma_hex_digit_upper(h[5]);
    lemma_hex_digit_upper(h[6]);
    let a = hex_digit(h[0])->0 * 16 + hex_digit(h[1])->0;
    let r = hex_digit(h[2])->0 * 16 + hex_digit(h[3])->0;
    let g = hex_digit(h[4])->0 * 16 + hex_digit(h[5])->0;
    let b = hex_digit(h[6])->0 * 16 + hex_digit(h[7])->0;
    let v = hex_value(h);
    assert(v == ((a * 256 + r) * 256 + g) * 256 + b);
    assert(a < 256 && r < 256 && g < 256 && b < 256);
    assert((v / 16777216) % 256 == a && (v / 65536) % 256 == r && (v / 256) % 256 == g && v % 256
        == b) by (nonlinear_arith)
        requires
            v == ((a * 256 + r) * 256 + g) * 256 + b,
            a < 256,
            r < 256,
            g < 256,
            b < 256,
    ;
    let c = color_from_value(v, true);
    assert(parse_color(s) == Some(c));
    lemma_hex2_of_pair(pa, c.a);
    lemma_hex2_of_pair(pr, c.r);
    lemma_hex2_of_pair(pg, c.g);
    lemma_hex2_of_pair(pb, c.b);
    assert(argb_text(c) =~= seq!['#'] + h.map_values(|ch: char| ascii_upper(ch)));
}

/// A decimal digit.
pub open spec fn is_dec_digit(c: char) -> bool {
    '0' <= c && c <= '9'
}

/// The number that a run of decimal digits denotes.
pub open spec fn decimal_value(s: Seq<char>) -> nat
    decreases s.len(),
{
    if s.len() == 0 {
        0
    } else {
        decimal_value(s.drop_last()) * 10 + ((s.last() as int - '0' as int) as nat)
    }
}

/// `s` is a decimal numeral of `x`: digits, without a leading zero, that
/// denote `x`.
pub open spec fn numeral_of(s: Seq<char>, x: nat) -> bool {
    &&& s.len() > 0
    &&& forall|i: int| 0 <= i < s.len() ==> is_dec_digit(#[trigger] s[i])
    &&& (s.len() == 1 || s[0] != '0')
    &&& decimal_value(s) == x
}

/// A byte's decimal text is a numeral of the byte.
proof fn lemma_dec_text_numeral(x: u8)
    ensures
        numeral_of(dec_text(x), x as nat),
{
    let n = x as nat;
    let s = dec_text(x);
    let e = Seq::<char>::empty();
    let d0 = n / 100;
    let d1 = (n / 10) % 10;
    let d2 = n % 10;
    lemma_dec_digit(d0);
    lemma_dec_digit(d1);
    lemma_dec_digit(d2);
    lemma_dec_digit(n / 10);
    assert(decimal_value(e) == 0);
    if n < 10 {
        assert(s.drop_last() =~= e);
        assert(decimal_value(e) == 0);
        assert(decimal_value(s) == n);
    } else if n < 100 {
        let p = seq![dec_digit(n / 10)];
        assert(s.drop_last() =~= p);
        assert(p.drop_last() =~= e);
        assert(decimal_value(p.drop_last()) == 0);
        assert(p.last() == dec_digit(n / 10));
        assert(decimal_value(p) == n / 10);
        assert(n / 10 * 10 + n % 10 == n);
        assert(decimal_value(s) == n);
        assert(n / 10 != 0);
    } else {
        let p1 = seq![dec_digit(d0)];
        let p2 = seq![dec_digit(d0), dec_digit(d1)];
        assert(s.drop_last() =~= p2);
        assert(p2.drop_last() =~= p1);
        assert(p1.drop_last() =~= e);
        assert(decimal_value(p1.drop_last()) == 0);
        assert(p1.last() == dec_digit(d0));
        assert(d0 < 10);
        assert(decimal_value(p1) == d0);
        assert(decimal_value(p2) == d0 * 10 + d1);
        assert((d0 * 10 + d1) * 10 + d2 == n) by (nonlinear_arith)
            requires
                d0 == n / 100,
                d1 == (n / 10) % 10,
                d2 == n % 10,
                n < 256,
        ;
        assert(decimal_value(s) == n);
        assert(d0 != 0);
    }
}

proof fn lemma_dec_digit(d: nat)
    ensures
        d < 10 ==> is_dec_digit(dec_digit(d)) && (dec_digit(d) as int - '0' as int) == d && (d != 0
            ==> dec_digit(d) != '0'),
{
}

/// The CSS text of a colour that is not opaque lists its red, green and blue
/// channels as decimal numerals: `rgba(r, g, b, ` and then the alpha.
pub proof fn lemma_css_channels(c: Color)
    requires
        c.a != 255,
    ensures
        exists|dr: Seq<char>, dg: Seq<char>, db: Seq<char>|
            #![trigger numeral_of(dr, c.r as nat), numeral_of(dg, c.g as nat), numeral_of(db, c.b as nat)]
            numeral_of(dr, c.r as nat) && numeral_of(dg, c.g as nat) && numeral_of(db, c.b as nat)
                && ("rgba("@ + dr + ", "@ + dg + ", "@ + db + ", "@).is_prefix_of(css_text(c)),
{
    reveal_strlit("rgba(");
    reveal_strlit(", ");
    lemma_dec_text_numeral(c.r);
    lemma_dec_text_numeral(c.g);
    lemma_dec_text_numeral(c.b);
    let k = alpha_thousandths(c.a);
    let tail = seq!['0', '.', dec_digit(k / 100), dec_digit((k / 10) % 10), dec_digit(k % 10), ')'];
    let head = "rgba("@ + dec_text(c.r) + ", "@ + dec_text(c.g) + ", "@ + dec_text(c.b) + ", "@;
    assert(css_text(c) =~= head + tail);
    assert(css_text(c).subrange(0, head.len() as int) =~= head);
}

/// The CSS text of an opaque colour is `#RRGGBB`, which reads back as the
/// same colour.
pub proof fn lemma_css_opaque_round_trip(c: Color)
    requires
        c.a == 255,
    ensures
        parse_color(css_text(c)) == Some(c),
{
    let s = css_text(c);
    let h = hex2(c.r) + hex2(c.g) + hex2(c.b);
    assert(s =~= seq!['#'] + h);
    lemma_hex_upper_digit(c.r as nat / 16);
    lemma_hex_upper_digit(c.r as nat % 16);
    lemma_hex_upper_digit(c.g as nat / 16);
    lemma_hex_upper_digit(c.g as nat % 16);
    lemma_hex_upper_digit(c.b as nat / 16);
    lemma_hex_upper_digit(c.b as nat % 16);
    assert(trim_start_seq(s) == s);
    assert(trim_end_seq(s) == s);
    assert(trim_seq(s) == s);
    assert(s.drop_first() =~= h);
    assert(strip_hashes(h) == h);
    assert(strip_hashes(s) == h);
    assert(radix_digits(h) == h);
    assert(all_hex(h));
    let e: Seq<char> = Seq::empty();
    assert(hex2(c.r) =~= e + hex2(c.r));
    lemma_hex_value_push2(e, c.r);
    lemma_hex_value_push2(hex2(c.r), c.g);
    lemma_hex_value_push2(hex2(c.r) + hex2(c.g), c.b);
    let v = hex_value(h);
    let (r, g, b) = (c.r as nat, c.g as nat, c.b as nat);
    assert(v == (r * 256 + g) * 256 + b);
    assert((v / 65536) % 256 == r && (v / 256) % 256 == g && v % 256 == b) by (nonlinear_arith)
        requires
            v == (r * 256 + g) * 256 + b,
            r < 256,
            g < 256,
            b < 256,
    ;
    assert(color_from_value(v, false) == c);
}

/// The alpha written in CSS is the thousandth nearest to `a / 255`.
pub proof fn lemma_alpha_nearest(a: u8)
    ensures
        2 * (1000 * (a as int) - 255 * (alpha_thousandths(a) as int)) <= 255,
        2 * (255 * (alpha_thousandths(a) as int) - 1000 * (a as int)) <= 255,
{
    let k = alpha_thousandths(a);
    let x = a as int;
    assert(510 * (k as int) <= 2000 * x + 255 < 510 * (k as int) + 510) by (nonlinear_arith)
        requires
            k == (2000 * x + 255) / 510,
            0 <= x,
    ;
}

} // verus!
