//! Base64 for assets carried inside JSON: writing bytes as text and reading
//! them back.
use vstd::prelude::*;
use vstd::string::StringSliceAdditionalSpecFns;

use crate::render::{b64_digit, b64_group, b64_groups, base64, base64_encode};
use vstd::utf8::{encode_utf8, is_ascii_chars, is_ascii_chars_encode_utf8};

verus! {

/// Bytes written as standard base64 with `=` padding.
pub fn encode_b64(bytes: &[u8]) -> (res: String)
    ensures
        res@ == base64(bytes@),
{
    base64_encode(bytes)
}

/// The value of a base64 digit, if the byte is one.
pub open spec fn digit_value(c: u8) -> Option<int> {
    if 65 <= c <= 90 {
        Some(c - 65)
    } else if 97 <= c <= 122 {
        Some(c - 97 + 26)
    } else if 48 <= c <= 57 {
        Some(c - 48 + 52)
    } else if c == 43 {
        Some(62)
    } else if c == 47 {
        Some(63)
    } else {
        None
    }
}

/// ASCII white space and `=`, which reading passes over.
pub open spec fn is_skipped(c: u8) -> bool {
    c == 32 || c == 9 || c == 10 || c == 12 || c == 13 || c == 61
}

/// The bytes that reading looks at.
pub open spec fn cleaned(bytes: Seq<u8>) -> Seq<u8> {
    bytes.filter(|c: u8| !is_skipped(c))
}

/// The value of digit `i` of a group, zero past its end.
pub open spec fn value_at(g: Seq<u8>, i: int) -> int {
    if i < g.len() {
        match digit_value(g[i]) {
            Some(v) => v,
            None => 0,
        }
    } else {
        0
    }
}

/// The bytes of one group of up to four digits: one, two or three.
pub open spec fn group_bytes(g: Seq<u8>) -> Seq<u8> {
    let n = value_at(g, 0) * 262144 + value_at(g, 1) * 4096 + value_at(g, 2) * 64 + value_at(g, 3);
    seq![((n / 65536) % 256) as u8] + (if g.len() > 2 {
        seq![((n / 256) % 256) as u8]
    } else {
        Seq::empty()
    }) + (if g.len() > 3 {
        seq![(n % 256) as u8]
    } else {
        Seq::empty()
    })
}

/// Whether every byte of a group is a digit.
pub open spec fn all_digits(g: Seq<u8>) -> bool {
    forall|i: int| 0 <= i < g.len() ==> (#[trigger] digit_value(g[i])) is Some
}

/// The digits read group by group: the bytes of the first `k` groups of
/// four, or `None` if one of them holds a byte that is not a digit.
pub open spec fn decode_groups(c: Seq<u8>, k: int) -> Option<Seq<u8>>
    decreases k,
{
    if k <= 0 {
        Some(Seq::empty())
    } else {
        let g = c.subrange(4 * (k - 1), if 4 * k <= c.len() {
            4 * k
        } else {
            c.len() as int
        });
        match decode_groups(c, k - 1) {
            Some(prev) => if all_digits(g) {
                Some(prev + group_bytes(g))
            } else {
                None
            },
            None => None,
        }
    }
}

/// Reading base64: white space and `=` are passed over; what is left is
/// read in groups of four digits.
pub open spec fn decoded(bytes: Seq<u8>) -> Option<Seq<u8>> {
    let c = cleaned(bytes);
    decode_groups(c, ((c.len() + 3) / 4) as int)
}

fn digit(c: u8) -> (res: Option<u32>)
    ensures
        match res {
            Some(v) => digit_value(c) == Some(v as int),
            None => digit_value(c) is None,
        },
{
    if 65 <= c && c <= 90 {
        Some((c - 65) as u32)
    } else if 97 <= c && c <= 122 {
        Some((c - 97 + 26) as u32)
    } else if 48 <= c && c <= 57 {
        Some((c - 48 + 52) as u32)
    } else if c == 43 {
        Some(62)
    } else if c == 47 {
        Some(63)
    } else {
        None
    }
}

/// The bytes that base64 text holds; an error on a byte that is neither a
/// digit, white space nor `=`.
pub fn decode_b64(input: &str) -> (res: Result<Vec<u8>, String>)
    ensures
        match decoded(input.spec_bytes()) {
            Some(b) => res matches Ok(v) && v@ == b,
            None => res matches Err(m) && m@ == "invalid base64"@,
        },
{
    let bytes = input.as_bytes();
    let ghost raw = input.spec_bytes();
    let mut c: Vec<u8> = Vec::new();
    let mut i: usize = 0;
    proof {
        reveal(Seq::filter);
        assert(raw.take(0) =~= Seq::<u8>::empty());
    }
    while i < bytes.len()
        invariant
            bytes@ == raw,
            i <= raw.len(),
            c@ == cleaned(raw.take(i as int)),
        decreases raw.len() - i,
    {
        let b = bytes[i];
        if !(b == 32 || b == 9 || b == 10 || b == 12 || b == 13 || b == 61) {
            c.push(b);
        }
        proof {
            reveal(Seq::filter);
            assert(raw.take(i + 1).drop_last() =~= raw.take(i as int));
            assert(raw.take(i + 1).last() == b);
        }
        i = i + 1;
    }
    proof {
        assert(raw.take(raw.len() as int) =~= raw);
    }
    let n = c.len();
    let groups = n / 4 + if n % 4 == 0 {
        0
    } else {
        1
    };
    let mut out: Vec<u8> = Vec::new();
    let mut k: usize = 0;
    while k < groups
        invariant
            raw == input.spec_bytes(),
            c@ == cleaned(raw),
            n == c@.len(),
            groups == (n + 3) / 4,
            k <= groups,
            decode_groups(c@, k as int) == Some(out@),
        decreases groups - k,
    {
        assert(4 * k < n) by (nonlinear_arith)
            requires
                k < groups,
                groups == (n + 3) / 4,
        ;
        let start = 4 * k;
        let end = if n - start >= 4 {
            start + 4
        } else {
            n
        };
        let ghost g = c@.subrange(start as int, end as int);
        assert(g == c@.subrange(4 * ((k + 1) - 1), if 4 * (k + 1) <= c@.len() {
            4 * (k + 1)
        } else {
            c@.len() as int
        }));
        let mut vals: Vec<u32> = vec![0, 0, 0, 0];
        let mut j: usize = start;
        while j < end
            invariant
                raw == input.spec_bytes(),
                c@ == cleaned(raw),
                n == c@.len(),
                groups == (n + 3) / 4,
                k < groups,
                start == 4 * k,
                decode_groups(c@, k as int) == Some(out@),
                start <= j <= end <= n,
                end - start <= 4,
                g == c@.subrange(start as int, end as int),
                g == c@.subrange(4 * ((k + 1) - 1), if 4 * (k + 1) <= c@.len() {
                    4 * (k + 1)
                } else {
                    c@.len() as int
                }),
                forall|q: int| start <= q < j ==> (#[trigger] digit_value(c@[q])) is Some,
                vals@.len() == 4,
                forall|q: int| 0 <= q < 4 ==> vals@[q] == (if q < j - start { value_at(g, q) } else { 0 }),
            decreases end - j,
        {
            match digit(c[j]) {
                Some(v) => {
                    vals.set(j - start, v);
                },
                None => {
                    proof {
                        assert(g[j - start] == c@[j as int]);
                        assert(!all_digits(g));
                        assert(decode_groups(c@, k + 1) is None);
                        lemma_decode_stuck(c@, k as int + 1, groups as int);
                    }
                    let msg = crate::text::owned("invalid base64");
                    return Err(msg);
                },
            }
            j = j + 1;
        }
        proof {
            assert forall|q: int| 0 <= q < g.len() implies (#[trigger] digit_value(g[q])) is Some by {
                assert(g[q] == c@[start + q]);
            }
        }
        let value: u32 = vals[0] * 262144 + vals[1] * 4096 + vals[2] * 64 + vals[3];
        out.push(((value / 65536) % 256) as u8);
        if end - start > 2 {
            out.push(((value / 256) % 256) as u8);
        }
        if end - start > 3 {
            out.push((value % 256) as u8);
        }
        proof {
            assert(out@ =~= decode_groups(c@, k as int)->0 + group_bytes(g));
        }
        k = k + 1;
    }
    Ok(out)
}

/// Once a group fails, reading fails.
proof fn lemma_decode_stuck(c: Seq<u8>, k: int, total: int)
    requires
        1 <= k <= total,
        decode_groups(c, k) is None,
    ensures
        decode_groups(c, total) is None,
    decreases total - k,
{
    if k < total {
        lemma_decode_stuck(c, k + 1, total);
    }
}

/// Characters as bytes, one for one.
pub open spec fn bytes_of(s: Seq<char>) -> Seq<u8> {
    s.map_values(|c: char| c as u8)
}

proof fn lemma_digit(i: int)
    requires
        0 <= i < 64,
    ensures
        digit_value(b64_digit(i) as u8) == Some(i),
        !is_skipped(b64_digit(i) as u8),
        b64_digit(i) <= '\u{7f}',
{
}

proof fn lemma_group_bits(b0: u32, b1: u32, b2: u32)
    by (bit_vector)
    requires
        b0 < 256,
        b1 < 256,
        b2 < 256,
    ensures
        (b0 * 65536 + b1 * 256 + b2) / 262144 < 64,
        ((b0 * 65536 + b1 * 256 + b2) / 262144) * 262144 + (((b0 * 65536 + b1 * 256 + b2) / 4096)
            % 64) * 4096 + (((b0 * 65536 + b1 * 256 + b2) / 64) % 64) * 64 + (b0 * 65536 + b1
            * 256 + b2) % 64 == b0 * 65536 + b1 * 256 + b2,
        ((b0 * 65536 + b1 * 256 + b2) / 65536) % 256 == b0,
        ((b0 * 65536 + b1 * 256 + b2) / 256) % 256 == b1,
        (b0 * 65536 + b1 * 256 + b2) % 256 == b2,
        b2 == 0 ==> (b0 * 65536 + b1 * 256 + b2) % 64 == 0,
        b1 == 0 && b2 == 0 ==> ((b0 * 65536 + b1 * 256 + b2) / 64) % 64 == 0,
{
}

proof fn lemma_group_arith(b0: int, b1: int, b2: int)
    requires
        0 <= b0 < 256,
        0 <= b1 < 256,
        0 <= b2 < 256,
    ensures
        ({
            let n = b0 * 65536 + b1 * 256 + b2;
            let d0 = n / 262144;
            let d1 = (n / 4096) % 64;
            let d2 = (n / 64) % 64;
            let d3 = n % 64;
            &&& 0 <= d0 < 64
            &&& d0 * 262144 + d1 * 4096 + d2 * 64 + d3 == n
            &&& (n / 65536) % 256 == b0
            &&& (n / 256) % 256 == b1
            &&& n % 256 == b2
            &&& b2 == 0 ==> d3 == 0
            &&& b1 == 0 && b2 == 0 ==> d2 == 0
        }),
{
    lemma_group_bits(b0 as u32, b1 as u32, b2 as u32);
}

/// The bytes of a group written out and the value its digits carry.
proof fn lemma_group_digits(b0: int, b1: int, b2: int, len: int)
    requires
        0 <= b0 < 256,
        0 <= b1 < 256,
        0 <= b2 < 256,
        2 <= len <= 4,
        len < 4 ==> b2 == 0,
        len < 3 ==> b1 == 0,
    ensures
        ({
            let g = bytes_of(b64_group(b0, b1, b2).take(len));
            &&& g.len() == len
            &&& is_ascii_chars(b64_group(b0, b1, b2).take(len))
            &&& forall|t: int| 0 <= t < len ==> !is_skipped(#[trigger] g[t])
            &&& all_digits(g)
            &&& group_bytes(g) == seq![b0 as u8, b1 as u8, b2 as u8].take(len - 1)
        }),
{
    lemma_group_arith(b0, b1, b2);
    let n = b0 * 65536 + b1 * 256 + b2;
    let d = seq![n / 262144, (n / 4096) % 64, (n / 64) % 64, n % 64];
    let grp = b64_group(b0, b1, b2);
    let g = bytes_of(grp.take(len));
    assert forall|t: int| 0 <= t < len implies digit_value(#[trigger] g[t]) == Some(d[t]) && !is_skipped(
        g[t],
    ) && grp[t] <= '\u{7f}' by {
        lemma_digit(d[t]);
    }
    assert(value_at(g, 0) * 262144 + value_at(g, 1) * 4096 + value_at(g, 2) * 64 + value_at(g, 3)
        == n);
    assert(group_bytes(g) =~= seq![b0 as u8, b1 as u8, b2 as u8].take(len - 1));
}

proof fn lemma_keep_all(s: Seq<u8>)
    requires
        forall|i: int| 0 <= i < s.len() ==> !is_skipped(#[trigger] s[i]),
    ensures
        cleaned(s) == s,
    decreases s.len(),
{
    reveal(Seq::filter);
    if s.len() > 0 {
        lemma_keep_all(s.drop_last());
        assert(s.drop_last().push(s.last()) =~= s);
    }
}

proof fn lemma_drop_all(s: Seq<u8>)
    requires
        forall|i: int| 0 <= i < s.len() ==> is_skipped(#[trigger] s[i]),
    ensures
        cleaned(s) == Seq::<u8>::empty(),
    decreases s.len(),
{
    reveal(Seq::filter);
    if s.len() > 0 {
        lemma_drop_all(s.drop_last());
    }
}

/// Reading the first `k` groups looks no further than their bytes.
proof fn lemma_decode_prefix(c: Seq<u8>, e: Seq<u8>, k: int)
    requires
        0 <= k,
        4 * k <= c.len(),
    ensures
        decode_groups(c + e, k) == decode_groups(c, k),
    decreases k,
{
    if k > 0 {
        lemma_decode_prefix(c, e, k - 1);
        assert((c + e).subrange(4 * (k - 1), 4 * k) =~= c.subrange(4 * (k - 1), 4 * k));
    }
}

/// The whole groups written out read back as the bytes they came from.
proof fn lemma_groups_read_back(data: Seq<u8>, k: int)
    requires
        0 <= k <= data.len() / 3,
    ensures
        bytes_of(b64_groups(data, k)).len() == 4 * k,
        is_ascii_chars(b64_groups(data, k)),
        forall|i: int|
            0 <= i < 4 * k ==> !is_skipped(#[trigger] bytes_of(b64_groups(data, k))[i]),
        decode_groups(bytes_of(b64_groups(data, k)), k) == Some(data.take(3 * k)),
    decreases k,
{
    broadcast use vstd::seq_lib::group_filter_ensures;

    if k == 0 {
        assert(bytes_of(b64_groups(data, 0)) =~= Seq::<u8>::empty());
        assert(data.take(0) =~= Seq::<u8>::empty());
    } else {
        lemma_groups_read_back(data, k - 1);
        let prev = b64_groups(data, k - 1);
        let b0 = data[3 * (k - 1)] as int;
        let b1 = data[3 * (k - 1) + 1] as int;
        let b2 = data[3 * (k - 1) + 2] as int;
        let grp = b64_group(b0, b1, b2);
        lemma_group_digits(b0, b1, b2, 4);
        assert(grp.take(4) =~= grp);
        let c = bytes_of(b64_groups(data, k));
        let p = bytes_of(prev);
        let g = bytes_of(grp);
        assert(c =~= p + g);
        assert(forall|i: int| 0 <= i < c.len() ==> !is_skipped(#[trigger] c[i])) by {
            assert forall|i: int| 0 <= i < c.len() implies !is_skipped(#[trigger] c[i]) by {
                if i >= p.len() {
                    assert(c[i] == g[i - p.len()]);
                } else {
                    assert(c[i] == p[i]);
                }
            }
        }
        assert(is_ascii_chars(b64_groups(data, k))) by {
            assert forall|i: int| 0 <= i < b64_groups(data, k).len() implies '\0' <= #[trigger] b64_groups(
                data,
                k,
            )[i] <= '\u{7f}' by {
                if i >= prev.len() {
                    assert(b64_groups(data, k)[i] == grp[i - prev.len()]);
                } else {
                    assert(b64_groups(data, k)[i] == prev[i]);
                }
            }
        }
        lemma_decode_prefix(p, g, k - 1);
        assert(c.subrange(4 * (k - 1), 4 * k) =~= g);
        assert(data.take(3 * (k - 1)) + seq![b0 as u8, b1 as u8, b2 as u8].take(3) =~= data.take(
            3 * k,
        ));
    }
}

proof fn lemma_text_ascii(groups: Seq<char>, part: Seq<char>, pad: Seq<char>)
    requires
        is_ascii_chars(groups),
        is_ascii_chars(part),
        forall|i: int| 0 <= i < pad.len() ==> #[trigger] pad[i] == '=',
    ensures
        is_ascii_chars(groups + part + pad),
{
    let text = groups + part + pad;
    assert forall|i: int| 0 <= i < text.len() implies '\0' <= #[trigger] text[i] <= '\u{7f}' by {
        if i < groups.len() {
            assert(text[i] == groups[i]);
        } else if i < groups.len() + part.len() {
            assert(text[i] == part[i - groups.len()]);
        } else {
            assert(text[i] == pad[i - groups.len() - part.len()]);
        }
    }
}

proof fn lemma_clean_split(gb: Seq<u8>, pb: Seq<u8>, padb: Seq<u8>)
    requires
        forall|i: int| 0 <= i < gb.len() ==> !is_skipped(#[trigger] gb[i]),
        forall|i: int| 0 <= i < pb.len() ==> !is_skipped(#[trigger] pb[i]),
        forall|i: int| 0 <= i < padb.len() ==> is_skipped(#[trigger] padb[i]),
    ensures
        cleaned(gb + pb + padb) == gb + pb,
{
    Seq::filter_distributes_over_add(gb + pb, padb, |c: u8| !is_skipped(c));
    Seq::filter_distributes_over_add(gb, pb, |c: u8| !is_skipped(c));
    lemma_keep_all(gb);
    lemma_keep_all(pb);
    lemma_drop_all(padb);
    assert(gb + pb + Seq::<u8>::empty() =~= gb + pb);
}

/// The text of a short last group: its digits, then `=` padding.
proof fn lemma_short_text(data: Seq<u8>)
    requires
        data.len() % 3 != 0,
    ensures
        ({
            let k: int = (data.len() / 3) as int;
            let r: int = (data.len() % 3) as int;
            let b1 = if r == 2 { data[3 * k + 1] as int } else { 0 };
            let pad: Seq<char> = if r == 1 { seq!['=', '='] } else { seq!['='] };
            base64(data) == b64_groups(data, k) + b64_group(data[3 * k] as int, b1, 0).take(r + 1) + pad
        }),
{
    let k: int = (data.len() / 3) as int;
    let r: int = (data.len() % 3) as int;
    let b1 = if r == 2 { data[3 * k + 1] as int } else { 0 };
    let pad: Seq<char> = if r == 1 { seq!['=', '='] } else { seq!['='] };
    let part = b64_group(data[3 * k] as int, b1, 0).take(r + 1);
    if r == 1 {
        assert(base64(data) =~= b64_groups(data, k) + part + pad);
    } else {
        assert(base64(data) =~= b64_groups(data, k) + part + pad);
    }
}

/// Reading whole groups then a short one.
proof fn lemma_read_short(data: Seq<u8>, gb: Seq<u8>, pb: Seq<u8>, k: int, b0: int, b1: int)
    requires
        0 <= k,
        gb.len() == 4 * k,
        2 <= pb.len() <= 3,
        decode_groups(gb, k) == Some(data.take(3 * k)),
        all_digits(pb),
        group_bytes(pb) == seq![b0 as u8, b1 as u8, 0u8].take(pb.len() - 1),
        data.len() == 3 * k + pb.len() - 1,
        data[3 * k] == b0,
        pb.len() == 3 ==> data[3 * k + 1] == b1,
    ensures
        decode_groups(gb + pb, ((gb.len() + pb.len() + 3) / 4) as int) == Some(data),
{
    let d = gb + pb;
    assert((d.len() + 3) / 4 == k + 1);
    lemma_decode_prefix(gb, pb, k);
    assert(d.subrange(4 * k, d.len() as int) =~= pb);
    assert(data.take(3 * k) + seq![b0 as u8, b1 as u8, 0u8].take(pb.len() - 1) =~= data);
}

proof fn lemma_ascii_bytes(a: Seq<char>, b: Seq<char>, c: Seq<char>)
    requires
        is_ascii_chars(a + b + c),
    ensures
        encode_utf8(a + b + c) == bytes_of(a) + bytes_of(b) + bytes_of(c),
{
    let t = a + b + c;
    is_ascii_chars_encode_utf8(t);
    assert(encode_utf8(t) =~= bytes_of(t));
    assert(bytes_of(t) =~= bytes_of(a) + bytes_of(b) + bytes_of(c));
}

proof fn lemma_pad_skipped(pad: Seq<char>)
    requires
        forall|i: int| 0 <= i < pad.len() ==> #[trigger] pad[i] == '=',
    ensures
        forall|i: int| 0 <= i < pad.len() ==> is_skipped(#[trigger] bytes_of(pad)[i]),
{
    assert forall|i: int| 0 <= i < pad.len() implies is_skipped(#[trigger] bytes_of(pad)[i]) by {
        assert(pad[i] == '=');
    }
}

/// The last, short group: two or three digits and `=` padding.
#[verifier::rlimit(100)]
#[verifier::spinoff_prover]
proof fn lemma_short_tail(data: Seq<u8>)
    requires
        data.len() % 3 != 0,
    ensures
        decoded(encode_utf8(base64(data))) == Some(data),
{
    let k: int = (data.len() / 3) as int;
    let r: int = (data.len() % 3) as int;
    let groups = b64_groups(data, k);
    lemma_groups_read_back(data, k);
    let gb = bytes_of(groups);
    let b0 = data[3 * k] as int;
    let b1 = if r == 2 { data[3 * k + 1] as int } else { 0 };
    let len = r + 1;
    let part = b64_group(b0, b1, 0).take(len);
    let pad: Seq<char> = if r == 1 { seq!['=', '='] } else { seq!['='] };
    lemma_short_text(data);
    let text = groups + part + pad;
    lemma_group_digits(b0, b1, 0, len);
    lemma_text_ascii(groups, part, pad);
    lemma_ascii_bytes(groups, part, pad);
    let pb = bytes_of(part);
    let padb = bytes_of(pad);
    lemma_pad_skipped(pad);
    lemma_clean_split(gb, pb, padb);
    lemma_read_short(data, gb, pb, k, b0, b1);
}

/// Base64 reads back as the bytes it was written from.
pub proof fn lemma_base64_round_trip(data: Seq<u8>)
    ensures
        decoded(encode_utf8(base64(data))) == Some(data),
{
    let k: int = (data.len() / 3) as int;
    if data.len() % 3 == 0 {
        let groups = b64_groups(data, k);
        lemma_groups_read_back(data, k);
        let gb = bytes_of(groups);
        assert(base64(data) =~= groups);
        is_ascii_chars_encode_utf8(groups);
        assert(encode_utf8(groups) =~= gb);
        lemma_keep_all(gb);
        assert(data.take(3 * k) =~= data);
        assert((gb.len() + 3) / 4 == k);
    } else {
        lemma_short_tail(data);
    }
}

} // verus!
