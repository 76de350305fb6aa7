//! The textual form of SIDs: `S-1-` followed by the identifier authority,
//! in decimal when its top two bytes are zero and otherwise as `0x` and
//! twelve upper-case hexadecimal digits, then `-` and each sub-authority in
//! decimal. The parser also takes a decimal authority of up to 48 bits.

use vstd::prelude::*;

use crate::constants::ERROR_INVALID_SID;
use crate::sid::{sid_model_ok, Sid, SidError, SidModel};
use vstd::string::StringSliceAdditionalSpecFns;

verus! {

pub open spec fn is_digit(c: u8) -> bool {
    48 <= c <= 57
}

/// The decimal digits of `n`, most significant first, without leading
/// zeros.
pub open spec fn dec(n: nat) -> Seq<u8>
    decreases n,
{
    if n < 10 {
        seq![(48 + n) as u8]
    } else {
        dec(n / 10).push((48 + n % 10) as u8)
    }
}

/// The number a run of decimal digits spells.
pub open spec fn dec_value(ds: Seq<u8>) -> nat
    decreases ds.len(),
{
    if ds.len() == 0 {
        0
    } else {
        dec_value(ds.drop_last()) * 10 + (ds.last() - 48) as nat
    }
}

/// The upper-case hexadecimal digit of `d < 16`.
pub open spec fn hex_digit(d: u8) -> u8 {
    if d < 10 {
        (48 + d) as u8
    } else {
        (55 + d) as u8
    }
}

/// The value of an upper-case hexadecimal digit.
pub open spec fn hex_value(c: u8) -> int {
    if 48 <= c <= 57 {
        c - 48
    } else if 65 <= c <= 70 {
        c - 55
    } else {
        -1
    }
}

/// The identifier authority as a big-endian number.
pub open spec fn auth_number(a: Seq<u8>) -> u64 {
    (a[5] as u64 | (a[4] as u64) << 8u64 | (a[3] as u64) << 16u64 | (a[2] as u64) << 24u64 | (
    a[1] as u64) << 32u64 | (a[0] as u64) << 40u64) as u64
}

/// The six bytes of a 48-bit number, most significant first.
pub open spec fn auth_of_number(v: u64) -> Seq<u8> {
    seq![
        ((v >> 40u64) & 0xff) as u8,
        ((v >> 32u64) & 0xff) as u8,
        ((v >> 24u64) & 0xff) as u8,
        ((v >> 16u64) & 0xff) as u8,
        ((v >> 8u64) & 0xff) as u8,
        (v & 0xff) as u8,
    ]
}

/// Two upper-case hexadecimal digits for each byte.
pub open spec fn hex_text(a: Seq<u8>) -> Seq<u8>
    decreases a.len(),
{
    if a.len() == 0 {
        Seq::empty()
    } else {
        hex_text(a.drop_last()) + seq![hex_digit(a.last() / 16), hex_digit(a.last() % 16)]
    }
}

/// The identifier authority as text.
pub open spec fn auth_text(a: Seq<u8>) -> Seq<u8> {
    if a[0] == 0 && a[1] == 0 {
        dec(auth_number(a) as nat)
    } else {
        seq![48u8, 120u8] + hex_text(a)
    }
}

/// `-` and the decimal value of each sub-authority.
pub open spec fn subs_text(subs: Seq<u32>) -> Seq<u8>
    decreases subs.len(),
{
    if subs.len() == 0 {
        Seq::empty()
    } else {
        seq![45u8] + dec(subs[0] as nat) + subs_text(subs.drop_first())
    }
}

/// The text `S-1-`.
pub open spec fn sid_prefix() -> Seq<u8> {
    seq![83u8, 45u8, 49u8, 45u8]
}

/// The textual form of a SID.
pub open spec fn sid_text(m: SidModel) -> Seq<u8> {
    sid_prefix() + auth_text(m.0) + subs_text(m.1)
}

/// Scan decimal digits from `pos` on, starting from the value `acc`:
/// where the run ends and the value it reaches.
pub open spec fn scan_digits(b: Seq<u8>, pos: int, acc: nat) -> (int, nat)
    decreases b.len() - pos,
{
    if 0 <= pos < b.len() && is_digit(b[pos]) {
        scan_digits(b, pos + 1, acc * 10 + (b[pos] - 48) as nat)
    } else {
        (pos, acc)
    }
}

/// Whether twelve hexadecimal digits start at `pos`.
pub open spec fn hex_run(b: Seq<u8>, pos: int) -> bool {
    0 <= pos && pos + 12 <= b.len() && forall|k: int| 0 <= k < 12 ==> hex_value(#[trigger] b[pos + k]) >= 0
}

/// The six bytes spelled by twelve hexadecimal digits at `pos`.
pub open spec fn hex_bytes(b: Seq<u8>, pos: int) -> Seq<u8> {
    Seq::new(6, |k: int| (hex_value(b[pos + 2 * k]) * 16 + hex_value(b[pos + 2 * k + 1])) as u8)
}

/// Largest value a decimal identifier authority may have, plus one.
pub const AUTH_LIMIT: u64 = 0x1_0000_0000_0000;

/// The identifier authority that starts at `pos`, and where it ends.
pub open spec fn parse_auth(b: Seq<u8>, pos: int) -> Option<(Seq<u8>, int)> {
    if pos + 2 <= b.len() && b[pos] == 48 && b[pos + 1] == 120 {
        if hex_run(b, pos + 2) {
            Some((hex_bytes(b, pos + 2), pos + 14))
        } else {
            None
        }
    } else {
        let (end, v) = scan_digits(b, pos, 0);
        if end > pos && v < AUTH_LIMIT {
            Some((auth_of_number(v as u64), end))
        } else {
            None
        }
    }
}

/// The sub-authorities written from `pos` to the end of `b`.
pub open spec fn parse_subs(b: Seq<u8>, pos: int) -> Option<Seq<u32>>
    decreases b.len() - pos,
{
    if pos >= b.len() {
        if pos == b.len() {
            Some(Seq::empty())
        } else {
            None
        }
    } else if pos < 0 || b[pos] != 45 {
        None
    } else {
        let (end, v) = scan_digits(b, pos + 1, 0);
        if pos + 1 < end <= b.len() && v <= u32::MAX {
            match parse_subs(b, end) {
                Some(rest) => Some(seq![v as u32] + rest),
                None => None,
            }
        } else {
            None
        }
    }
}

/// The SID that the text `b` spells, if it spells one.
pub open spec fn parse_sid_text(b: Seq<u8>) -> Option<SidModel> {
    if b.len() < 4 || b.subrange(0, 4) != sid_prefix() {
        None
    } else {
        match parse_auth(b, 4) {
            None => None,
            Some((auth, end)) => match parse_subs(b, end) {
                Some(subs) => if subs.len() <= 15 {
                    Some((auth, subs))
                } else {
                    None
                },
                None => None,
            },
        }
    }
}

/// The decimal digits of `n` are digits, at least one, and spell `n`.
pub proof fn lemma_dec(n: nat)
    ensures
        dec(n).len() >= 1,
        forall|i: int| 0 <= i < dec(n).len() ==> is_digit(#[trigger] dec(n)[i]),
        dec_value(dec(n)) == n,
        dec(n)[0] == 48 ==> n == 0,
    decreases n,
{
    let d = dec(n);
    if n >= 10 {
        lemma_dec(n / 10);
        assert(d.drop_last() =~= dec(n / 10));
        assert(d[0] == dec(n / 10)[0]);
        assert(d.last() == (48 + n % 10) as u8);
        assert(dec_value(d) == dec_value(dec(n / 10)) * 10 + (d.last() - 48) as nat);
        assert(n == (n / 10) * 10 + n % 10);
    } else {
        assert(d.drop_last() =~= Seq::<u8>::empty());
        assert(dec_value(d) == dec_value(d.drop_last()) * 10 + (d.last() - 48) as nat);
    }
}

/// Scanning a run of digits that ends at the end of `b` or before a
/// non-digit reads exactly that run.
pub proof fn lemma_scan_run(b: Seq<u8>, start: int, ds: Seq<u8>, j: int)
    requires
        0 <= start,
        0 <= j <= ds.len(),
        start + ds.len() <= b.len(),
        b.subrange(start, start + ds.len()) == ds,
        forall|i: int| 0 <= i < ds.len() ==> is_digit(#[trigger] ds[i]),
        start + ds.len() == b.len() || !is_digit(b[start + ds.len()]),
    ensures
        scan_digits(b, start + j, dec_value(ds.subrange(0, j))) == (
            start + ds.len(),
            dec_value(ds),
        ),
    decreases ds.len() - j,
{
    if j == ds.len() {
        assert(ds.subrange(0, j) =~= ds);
    } else {
        assert(b[start + j] == ds[j]) by {
            assert(b.subrange(start, start + ds.len())[j] == b[start + j]);
        }
        let pre = ds.subrange(0, j + 1);
        assert(pre.drop_last() =~= ds.subrange(0, j));
        assert(dec_value(pre) == dec_value(ds.subrange(0, j)) * 10 + (ds[j] - 48) as nat);
        lemma_scan_run(b, start, ds, j + 1);
    }
}

/// The scanned value never falls below the starting value.
pub proof fn lemma_scan_grows(b: Seq<u8>, pos: int, acc: nat)
    ensures
        scan_digits(b, pos, acc).1 >= acc,
        scan_digits(b, pos, acc).0 >= pos,
        pos <= b.len() ==> scan_digits(b, pos, acc).0 <= b.len(),
    decreases b.len() - pos,
{
    if 0 <= pos < b.len() && is_digit(b[pos]) {
        lemma_scan_grows(b, pos + 1, acc * 10 + (b[pos] - 48) as nat);
    }
}

pub proof fn lemma_hex_digit(d: u8)
    requires
        d < 16,
    ensures
        hex_value(hex_digit(d)) == d,
{
}

/// The digit of byte `k` at place `i` of its pair, high half first.
pub open spec fn hex_digit_at(a: Seq<u8>, i: int) -> u8 {
    if i % 2 == 0 {
        hex_digit(a[i / 2] / 16)
    } else {
        hex_digit(a[i / 2] % 16)
    }
}

pub proof fn lemma_hex_text(a: Seq<u8>)
    ensures
        hex_text(a).len() == 2 * a.len(),
        forall|i: int| 0 <= i < 2 * a.len() ==> #[trigger] hex_text(a)[i] == hex_digit_at(a, i),
    decreases a.len(),
{
    if a.len() > 0 {
        let init = a.drop_last();
        lemma_hex_text(init);
        let h = hex_text(a);
        let hi = hex_text(init);
        let x = a.last();
        assert(h == hi + seq![hex_digit(x / 16), hex_digit(x % 16)]);
        assert forall|i: int| 0 <= i < 2 * a.len() implies #[trigger] h[i] == hex_digit_at(a, i) by {
            if i < hi.len() {
                assert(h[i] == hi[i]);
                assert(hi[i] == hex_digit_at(init, i));
                assert(init[i / 2] == a[i / 2]);
            } else if i == hi.len() {
                assert(i / 2 == init.len());
            } else {
                assert(i == hi.len() + 1);
                assert(i / 2 == init.len());
            }
        }
    }
}

/// Twelve hexadecimal digits of six bytes spell those bytes.
pub proof fn lemma_hex_round_trip(b: Seq<u8>, pos: int, a: Seq<u8>)
    requires
        a.len() == 6,
        0 <= pos,
        pos + 12 <= b.len(),
        b.subrange(pos, pos + 12) == hex_text(a),
    ensures
        hex_run(b, pos),
        hex_bytes(b, pos) == a,
{
    lemma_hex_text(a);
    assert forall|k: int| 0 <= k < 12 implies #[trigger] b[pos + k] == hex_text(a)[k] by {
        assert(b.subrange(pos, pos + 12)[k] == b[pos + k]);
    }
    assert forall|k: int| 0 <= k < 6 implies hex_value(b[pos + 2 * k]) == a[k] / 16 && hex_value(
        b[pos + 2 * k + 1],
    ) == a[k] % 16 by {
        assert(hex_text(a)[2 * k] == hex_digit_at(a, 2 * k));
        assert(hex_text(a)[2 * k + 1] == hex_digit_at(a, 2 * k + 1));
        assert((2 * k) / 2 == k && (2 * k) % 2 == 0 && (2 * k + 1) / 2 == k && (2 * k + 1) % 2 == 1);
        assert(b[pos + 2 * k] == hex_text(a)[2 * k]);
        assert(b[pos + (2 * k + 1)] == hex_text(a)[2 * k + 1]);
        lemma_hex_digit(a[k] / 16);
        lemma_hex_digit(a[k] % 16);
    }
    assert forall|k: int| 0 <= k < 12 implies hex_value(#[trigger] b[pos + k]) >= 0 by {
        let q = k / 2;
        assert(0 <= q < 6);
        if k % 2 == 0 {
            assert(hex_text(a)[k] == hex_digit_at(a, k));
            lemma_hex_digit(a[q] / 16);
        } else {
            assert(hex_text(a)[k] == hex_digit_at(a, k));
            lemma_hex_digit(a[q] % 16);
        }
    }
    assert(hex_bytes(b, pos) =~= a);
}

/// The six authority bytes read back from their number, and a number
/// whose top two bytes are zero fits in 32 bits.
pub proof fn lemma_auth_number(a: Seq<u8>)
    requires
        a.len() == 6,
    ensures
        auth_of_number(auth_number(a)) == a,
        auth_number(a) < AUTH_LIMIT,
        (a[0] == 0 && a[1] == 0) ==> auth_number(a) <= u32::MAX,
{
    let (a0, a1, a2, a3, a4, a5) = (a[0], a[1], a[2], a[3], a[4], a[5]);
    let v = auth_number(a);
    assert(v == (a5 as u64 | (a4 as u64) << 8u64 | (a3 as u64) << 16u64 | (a2 as u64) << 24u64 | (
    a1 as u64) << 32u64 | (a0 as u64) << 40u64) as u64);
    assert(((v >> 40u64) & 0xff) as u8 == a0 && ((v >> 32u64) & 0xff) as u8 == a1 && ((v >> 24u64)
        & 0xff) as u8 == a2 && ((v >> 16u64) & 0xff) as u8 == a3 && ((v >> 8u64) & 0xff) as u8
        == a4 && (v & 0xff) as u8 == a5 && v < 0x1_0000_0000_0000u64 && ((a0 == 0 && a1 == 0)
        ==> v <= 0xffff_ffffu64)) by (bit_vector)
        requires
            v == (a5 as u64 | (a4 as u64) << 8u64 | (a3 as u64) << 16u64 | (a2 as u64) << 24u64 | (
            a1 as u64) << 32u64 | (a0 as u64) << 40u64) as u64,
    ;
    assert(auth_of_number(v) =~= a);
}

/// Appending one sub-authority appends its text.
pub proof fn lemma_subs_text_push(subs: Seq<u32>, x: u32)
    ensures
        subs_text(subs.push(x)) == subs_text(subs) + seq![45u8] + dec(x as nat),
    decreases subs.len(),
{
    if subs.len() == 0 {
        let one = subs.push(x);
        assert(one.drop_first() =~= Seq::<u32>::empty());
        assert(one[0] == x);
        assert(subs_text(one.drop_first()) == Seq::<u8>::empty());
        assert(subs_text(one) == seq![45u8] + dec(x as nat) + subs_text(one.drop_first()));
        assert(subs_text(subs) == Seq::<u8>::empty());
        assert(subs_text(one) =~= subs_text(subs) + seq![45u8] + dec(x as nat));
    } else {
        assert(subs.push(x).drop_first() =~= subs.drop_first().push(x));
        lemma_subs_text_push(subs.drop_first(), x);
        assert(subs_text(subs.push(x)) =~= subs_text(subs) + seq![45u8] + dec(x as nat));
    }
}

/// The text of the sub-authorities, when it runs to the end of `b`, parses
/// back to them.
pub proof fn lemma_parse_subs(b: Seq<u8>, pos: int, subs: Seq<u32>)
    requires
        0 <= pos <= b.len(),
        b.subrange(pos, b.len() as int) == subs_text(subs),
    ensures
        parse_subs(b, pos) == Some(subs),
    decreases subs.len(),
{
    let t = subs_text(subs);
    if subs.len() == 0 {
        assert(b.len() == pos);
        assert(parse_subs(b, pos) == Some(Seq::<u32>::empty()));
        assert(subs =~= Seq::<u32>::empty());
    } else {
        let d = dec(subs[0] as nat);
        let rest = subs.drop_first();
        let end = pos + 1 + d.len();
        lemma_dec(subs[0] as nat);
        assert(t == seq![45u8] + d + subs_text(rest));
        assert forall|k: int| 0 <= k < t.len() implies #[trigger] b[pos + k] == t[k] by {
            assert(b.subrange(pos, b.len() as int)[k] == b[pos + k]);
        }
        assert(b[pos + 0] == t[0]);
        assert(b[pos] == 45);
        assert(b.subrange(pos + 1, end) =~= d) by {
            assert forall|k: int| 0 <= k < d.len() implies b.subrange(pos + 1, end)[k] == d[k] by {
                assert(b[pos + (1 + k)] == t[1 + k]);
            }
        }
        if end < b.len() {
            if rest.len() == 0 {
                assert(false);
            }
            assert(b[pos + (1 + d.len())] == t[1 + d.len() as int]);
            assert(subs_text(rest)[0] == 45);
        }
        lemma_scan_run(b, pos + 1, d, 0);
        assert(d.subrange(0, 0) =~= Seq::<u8>::empty());
        assert(b.subrange(end, b.len() as int) =~= subs_text(rest)) by {
            assert forall|k: int| 0 <= k < subs_text(rest).len() implies b.subrange(
                end,
                b.len() as int,
            )[k] == subs_text(rest)[k] by {
                assert(b[pos + (1 + d.len() + k)] == t[1 + d.len() + k]);
            }
        }
        lemma_parse_subs(b, end, rest);
        assert(seq![subs[0]] + rest =~= subs);
    }
}

/// Parsing the text of a SID gives the same SID back.
pub proof fn lemma_sid_text_round_trip(m: SidModel)
    requires
        sid_model_ok(m),
    ensures
        parse_sid_text(sid_text(m)) == Some(m),
{
    let b = sid_text(m);
    let at = auth_text(m.0);
    let st = subs_text(m.1);
    let end: int = 4 + at.len() as int;
    assert(b.subrange(0, 4) =~= sid_prefix());
    assert forall|k: int| 0 <= k < at.len() implies #[trigger] b[4 + k] == at[k] by {}
    assert(b.subrange(end, b.len() as int) =~= st);
    if end < b.len() {
        assert(b[end] == st[0]);
        if m.1.len() == 0 {
            assert(false);
        }
        assert(st[0] == 45);
    }
    lemma_auth_number(m.0);
    if m.0[0] == 0 && m.0[1] == 0 {
        let n = auth_number(m.0) as nat;
        lemma_dec(n);
        assert(b.subrange(4, end) =~= at);
        lemma_scan_run(b, 4, at, 0);
        assert(at.subrange(0, 0) =~= Seq::<u8>::empty());
        if b[4] == 48 && 6 <= b.len() {
            if at.len() >= 2 {
                assert(is_digit(at[1]));
                assert(b[5] == at[1]);
            } else {
                assert(b[5] == 45);
            }
        }
        assert(parse_auth(b, 4) == Some((m.0, end)));
    } else {
        lemma_hex_text(m.0);
        assert(at == seq![48u8, 120u8] + hex_text(m.0));
        assert(b[4] == 48 && b[5] == 120);
        assert(b.subrange(6, 18) =~= hex_text(m.0)) by {
            assert forall|k: int| 0 <= k < 12 implies b.subrange(6, 18)[k] == hex_text(m.0)[k] by {
                assert(b[4 + (2 + k)] == at[2 + k]);
            }
        }
        lemma_hex_round_trip(b, 6, m.0);
        assert(parse_auth(b, 4) == Some((m.0, end)));
    }
    lemma_parse_subs(b, end, m.1);
}

/// Each character of `chars` is the byte at the same place of `bytes`.
pub open spec fn chars_are_bytes(chars: Seq<char>, bytes: Seq<u8>) -> bool {
    chars.len() == bytes.len() && forall|i: int| 0 <= i < bytes.len() ==> #[trigger] chars[i] as nat == bytes[i] as nat
}

/// Relies on std's `String::from_utf8`: ASCII bytes are valid UTF-8 and
/// decode to one character each, of the same value.
#[verifier::external_body]
fn string_of_ascii(b: Vec<u8>) -> (r: String)
    requires
        forall|i: int| 0 <= i < b@.len() ==> #[trigger] b@[i] < 128,
    ensures
        chars_are_bytes(r@, b@),
{
    String::from_utf8(b).unwrap_or_default()
}

/// Append the decimal digits of `x`.
fn push_dec(v: &mut Vec<u8>, x: u64)
    ensures
        final(v)@ == old(v)@ + dec(x as nat),
    decreases x,
{
    if x >= 10 {
        push_dec(v, x / 10);
    }
    v.push((48 + x % 10) as u8);
    proof {
        if x >= 10 {
            assert(dec(x as nat) == dec((x / 10) as nat).push((48 + x % 10) as u8));
        } else {
            assert(x % 10 == x);
        }
        assert(final(v)@ =~= old(v)@ + dec(x as nat));
    }
}

fn hex_digit_of(d: u8) -> (r: u8)
    requires
        d < 16,
    ensures
        r == hex_digit(d),
{
    if d < 10 {
        48 + d
    } else {
        55 + d
    }
}

fn hex_value_of(c: u8) -> (r: i32)
    ensures
        r as int == hex_value(c),
{
    if 48 <= c && c <= 57 {
        c as i32 - 48
    } else if 65 <= c && c <= 70 {
        c as i32 - 55
    } else {
        -1
    }
}

/// Where the run of digits from `pos` ends and the value it spells; `None`
/// once the value reaches the authority limit.
fn scan_run(b: &[u8], pos: usize) -> (r: Option<(usize, u64)>)
    requires
        pos <= b@.len(),
    ensures
        r matches Some((e, v)) ==> scan_digits(b@, pos as int, 0) == (e as int, v as nat) && v
            < AUTH_LIMIT && e <= b@.len(),
        r is None ==> scan_digits(b@, pos as int, 0).1 >= AUTH_LIMIT,
{
    let mut p = pos;
    let mut acc: u64 = 0;
    while p < b.len() && 48 <= b[p] && b[p] <= 57
        invariant
            pos <= p <= b@.len(),
            acc < AUTH_LIMIT,
            scan_digits(b@, pos as int, 0) == scan_digits(b@, p as int, acc as nat),
        decreases b@.len() - p,
    {
        let next: u64 = acc * 10 + (b[p] - 48) as u64;
        if next >= AUTH_LIMIT {
            proof {
                lemma_scan_grows(b@, p + 1, next as nat);
            }
            return None;
        }
        acc = next;
        p += 1;
    }
    Some((p, acc))
}

/// The identifier authority written from `pos` on, and where it ends.
fn parse_auth_at(b: &[u8], pos: usize) -> (r: Option<([u8; 6], usize)>)
    requires
        pos <= b@.len(),
    ensures
        parse_auth(b@, pos as int) is None ==> r is None,
        parse_auth(b@, pos as int) matches Some((a, e)) ==> r matches Some((x, f)) && x@ == a && f
            == e,
{
    if b.len() - pos >= 2 && b[pos] == 48 && b[pos + 1] == 120 {
        if b.len() - pos < 14 {
            return None;
        }
        let mut k: usize = 0;
        while k < 12
            invariant
                pos + 14 <= b@.len(),
                b@.len() <= usize::MAX,
                k <= 12,
                b@[pos as int] == 48 && b@[pos + 1] == 120,
                forall|j: int| 0 <= j < k ==> hex_value(#[trigger] b@[pos + 2 + j]) >= 0,
            decreases 12 - k,
        {
            if hex_value_of(b[pos + 2 + k]) < 0 {
                proof {
                    let q = pos + 2;
                    assert(hex_value(b@[q + k as int]) < 0);
                    assert(!hex_run(b@, q as int));
                }
                return None;
            }
            k += 1;
        }
        assert(hex_run(b@, pos + 2));
        let mut out: [u8; 6] = [0u8; 6];
        let mut i: usize = 0;
        while i < 6
            invariant
                pos + 14 <= b@.len(),
                b@.len() <= usize::MAX,
                hex_run(b@, pos + 2),
                i <= 6,
                out@.len() == 6,
                forall|j: int| 0 <= j < i ==> out@[j] == hex_bytes(b@, pos + 2)[j],
            decreases 6 - i,
        {
            let hi = hex_value_of(b[pos + 2 + 2 * i]);
            let lo = hex_value_of(b[pos + 3 + 2 * i]);
            assert(hex_value(b@[pos + 2 + 2 * i]) >= 0 && hex_value(b@[pos + 2 + (2 * i + 1)]) >= 0);
            out[i] = (hi * 16 + lo) as u8;
            i += 1;
        }
        assert(out@ =~= hex_bytes(b@, pos + 2));
        return Some((out, pos + 14));
    }
    match scan_run(b, pos) {
        None => None,
        Some((e, v)) => {
            if e > pos {
                let out: [u8; 6] = [
                    ((v >> 40u64) & 0xff) as u8,
                    ((v >> 32u64) & 0xff) as u8,
                    ((v >> 24u64) & 0xff) as u8,
                    ((v >> 16u64) & 0xff) as u8,
                    ((v >> 8u64) & 0xff) as u8,
                    (v & 0xff) as u8,
                ];
                assert(out@ =~= auth_of_number(v));
                Some((out, e))
            } else {
                None
            }
        },
    }
}

/// The sub-authorities written from `pos` to the end of `b`.
fn parse_subs_at(b: &[u8], pos: usize) -> (r: Option<Vec<u32>>)
    requires
        pos <= b@.len(),
    ensures
        parse_subs(b@, pos as int) is None ==> r is None,
        parse_subs(b@, pos as int) matches Some(s) ==> r matches Some(v) && v@ == s,
{
    let mut subs: Vec<u32> = Vec::new();
    let mut p = pos;
    while p < b.len()
        invariant
            pos <= p <= b@.len(),
            parse_subs(b@, pos as int) == match parse_subs(b@, p as int) {
                Some(rest) => Some(subs@ + rest),
                None => None::<Seq<u32>>,
            },
        decreases b@.len() - p,
    {
        if b[p] != 45 {
            return None;
        }
        match scan_run(b, p + 1) {
            None => {
                return None;
            },
            Some((e, v)) => {
                if e <= p + 1 || v > 0xffff_ffffu64 {
                    return None;
                }
                proof {
                    match parse_subs(b@, e as int) {
                        Some(rest) => {
                            assert(subs@ + (seq![v as u32] + rest) =~= subs@.push(v as u32) + rest);
                        },
                        None => {},
                    }
                }
                subs.push(v as u32);
                p = e;
            },
        }
    }
    proof {
        assert(subs@ + Seq::<u32>::empty() =~= subs@);
    }
    Some(subs)
}

impl Sid {
    /// The textual form of this SID, as ASCII bytes.
    pub fn to_text(&self) -> (r: Vec<u8>)
        ensures
            r@ == sid_text(self@),
    {
        let a = self.id_authority();
        let subs = self.sub_authorities();
        let mut v: Vec<u8> = vec![83u8, 45u8, 49u8, 45u8];
        assert(v@ =~= sid_prefix());
        if a[0] == 0 && a[1] == 0 {
            let n = Sid::id_auth_to_number(a);
            assert(n == auth_number(a@));
            push_dec(&mut v, n);
        } else {
            v.push(48u8);
            v.push(120u8);
            let ghost head = v@;
            let mut k: usize = 0;
            while k < 6
                invariant
                    k <= 6,
                    a@.len() == 6,
                    v@ == head + hex_text(a@.subrange(0, k as int)),
                decreases 6 - k,
            {
                let x = a[k];
                v.push(hex_digit_of(x / 16));
                v.push(hex_digit_of(x % 16));
                proof {
                    let pre = a@.subrange(0, k + 1);
                    assert(pre.drop_last() =~= a@.subrange(0, k as int));
                    assert(v@ =~= head + hex_text(pre));
                }
                k += 1;
            }
            assert(a@.subrange(0, 6) =~= a@);
            assert(v@ =~= sid_prefix() + auth_text(a@));
        }
        let ghost head2 = v@;
        assert(head2 == sid_prefix() + auth_text(self@.0));
        let mut i: usize = 0;
        assert(subs_text(subs@.subrange(0, 0)) == Seq::<u8>::empty()) by {
            assert(subs@.subrange(0, 0) =~= Seq::<u32>::empty());
        }
        assert(v@ =~= head2 + subs_text(subs@.subrange(0, 0)));
        while i < subs.len()
            invariant
                i <= subs@.len(),
                v@ == head2 + subs_text(subs@.subrange(0, i as int)),
            decreases subs@.len() - i,
        {
            v.push(45u8);
            push_dec(&mut v, subs[i] as u64);
            proof {
                let pre = subs@.subrange(0, i as int);
                assert(subs@.subrange(0, i + 1) =~= pre.push(subs@[i as int]));
                lemma_subs_text_push(pre, subs@[i as int]);
                assert(v@ =~= head2 + subs_text(subs@.subrange(0, i + 1)));
            }
            i += 1;
        }
        assert(subs@.subrange(0, i as int) =~= subs@);
        v
    }

    /// The SID that the ASCII text `b` spells; `None` when it spells none.
    pub fn from_text(b: &[u8]) -> (r: Option<Sid>)
        ensures
            r is Some <==> parse_sid_text(b@) is Some,
            r matches Some(s) ==> parse_sid_text(b@) == Some(s@),
    {
        if b.len() < 4 || b[0] != 83 || b[1] != 45 || b[2] != 49 || b[3] != 45 {
            proof {
                if b@.len() >= 4 {
                    assert(b@.subrange(0, 4) != sid_prefix()) by {
                        if b@.subrange(0, 4) == sid_prefix() {
                            assert(b@.subrange(0, 4)[0] == b@[0]);
                            assert(b@.subrange(0, 4)[1] == b@[1]);
                            assert(b@.subrange(0, 4)[2] == b@[2]);
                            assert(b@.subrange(0, 4)[3] == b@[3]);
                        }
                    }
                }
            }
            return None;
        }
        assert(b@.subrange(0, 4) =~= sid_prefix());
        match parse_auth_at(b, 4) {
            None => None,
            Some((a, e)) => {
                proof {
                    let (_, end) = parse_auth(b@, 4).unwrap();
                    assert(end <= b@.len()) by {
                        if !(b@.len() >= 6 && b@[4] == 48 && b@[5] == 120) {
                            lemma_scan_grows(b@, 4, 0);
                        }
                    }
                }
                match parse_subs_at(b, e) {
                    None => None,
                    Some(subs) => Sid::from_parts(a, subs),
                }
            },
        }
    }

    /// The textual form of this SID.
    pub fn to_string_sid(&self) -> (r: String)
        ensures
            chars_are_bytes(r@, sid_text(self@)),
    {
        let t = self.to_text();
        proof {
            lemma_text_ascii(self@);
        }
        string_of_ascii(t)
    }

    /// The SID that the string `s` spells; the platform's invalid-SID error
    /// when it spells none.
    pub fn from_string_sid(s: &str) -> (r: Result<Sid, SidError>)
        ensures
            r is Ok <==> parse_sid_text(s.spec_bytes()) is Some,
            r matches Ok(x) ==> parse_sid_text(s.spec_bytes()) == Some(x@),
            r matches Err(e) ==> e == SidError::Os(ERROR_INVALID_SID),
    {
        match Sid::from_text(s.as_bytes()) {
            Some(x) => Ok(x),
            None => Err(SidError::Os(ERROR_INVALID_SID)),
        }
    }
}

pub open spec fn all_ascii(s: Seq<u8>) -> bool {
    forall|i: int| 0 <= i < s.len() ==> #[trigger] s[i] < 128
}

proof fn lemma_dec_ascii(n: nat)
    ensures
        all_ascii(dec(n)),
{
    lemma_dec(n);
}

proof fn lemma_hex_ascii(a: Seq<u8>)
    ensures
        all_ascii(hex_text(a)),
{
    lemma_hex_text(a);
    assert forall|i: int| 0 <= i < hex_text(a).len() implies #[trigger] hex_text(a)[i] < 128 by {
        assert(hex_text(a)[i] == hex_digit_at(a, i));
    }
}

proof fn lemma_subs_ascii(subs: Seq<u32>)
    ensures
        all_ascii(subs_text(subs)),
    decreases subs.len(),
{
    if subs.len() > 0 {
        lemma_subs_ascii(subs.drop_first());
        lemma_dec_ascii(subs[0] as nat);
        let t = seq![45u8] + dec(subs[0] as nat) + subs_text(subs.drop_first());
        assert forall|i: int| 0 <= i < t.len() implies #[trigger] t[i] < 128 by {
            let d = dec(subs[0] as nat);
            if i >= 1 + d.len() {
                assert(t[i] == subs_text(subs.drop_first())[i - 1 - d.len()]);
            } else if i >= 1 {
                assert(t[i] == d[i - 1]);
            }
        }
    }
}

/// The text of a SID is ASCII.
pub proof fn lemma_text_ascii(m: SidModel)
    ensures
        forall|i: int| 0 <= i < sid_text(m).len() ==> #[trigger] sid_text(m)[i] < 128,
{
    let at = auth_text(m.0);
    if m.0[0] == 0 && m.0[1] == 0 {
        lemma_dec_ascii(auth_number(m.0) as nat);
    } else {
        lemma_hex_ascii(m.0);
        assert forall|i: int| 0 <= i < at.len() implies #[trigger] at[i] < 128 by {
            if i >= 2 {
                assert(at[i] == hex_text(m.0)[i - 2]);
            }
        }
    }
    lemma_subs_ascii(m.1);
    let t = sid_text(m);
    assert forall|i: int| 0 <= i < t.len() implies #[trigger] t[i] < 128 by {
        if i >= 4 + at.len() {
            assert(t[i] == subs_text(m.1)[i - 4 - at.len()]);
        } else if i >= 4 {
            assert(t[i] == at[i - 4]);
        }
    }
}

} // verus!
