//! Minimal base64 (RFC 4648, standard alphabet, `=` padding).

use vstd::prelude::*;

verus! {

/// The base64 digit for a 6-bit value `v`.
pub open spec fn b64_digit(v: int) -> char {
    if v < 26 {
        (65 + v) as char
    } else if v < 52 {
        (97 + v - 26) as char
    } else if v < 62 {
        (48 + v - 52) as char
    } else if v == 62 {
        '+'
    } else {
        '/'
    }
}

/// The four digits of the 24-bit group `n`.
pub open spec fn b64_quad(n: int) -> Seq<char> {
    seq![b64_digit(n / 262144), b64_digit((n / 4096) % 64), b64_digit((n / 64) % 64), b64_digit(n % 64)]
}

/// The 24-bit group made of bytes `3k`, `3k + 1`, `3k + 2`.
pub open spec fn b64_group(d: Seq<u8>, k: int) -> int {
    d[3 * k] * 65536 + d[3 * k + 1] * 256 + d[3 * k + 2]
}

/// The digits of the first `k` complete groups.
pub open spec fn b64_groups(d: Seq<u8>, k: int) -> Seq<char>
    decreases k,
{
    if k <= 0 {
        Seq::empty()
    } else {
        b64_groups(d, k - 1) + b64_quad(b64_group(d, k - 1))
    }
}

/// The padded digits of the one or two bytes after the last complete group.
pub open spec fn b64_tail(d: Seq<u8>) -> Seq<char> {
    let i = d.len() - d.len() % 3;
    if d.len() % 3 == 1 {
        let n = d[i] * 65536;
        seq![b64_digit(n / 262144), b64_digit((n / 4096) % 64), '=', '=']
    } else if d.len() % 3 == 2 {
        let n = d[i] * 65536 + d[i + 1] * 256;
        seq![b64_digit(n / 262144), b64_digit((n / 4096) % 64), b64_digit((n / 64) % 64), '=']
    } else {
        Seq::empty()
    }
}

/// The base64 encoding of `d`.
pub open spec fn b64(d: Seq<u8>) -> Seq<char> {
    b64_groups(d, d.len() as int / 3) + b64_tail(d)
}

/// Appends one character to a string.
#[verifier::external_body]
pub(crate) fn push_char(s: &mut String, c: char)
    ensures
        final(s)@ == old(s)@.push(c),
{
    s.push(c);
}

fn digit(v: u32) -> (c: char)
    requires
        v < 64,
    ensures
        c == b64_digit(v as int),
{
    if v < 26 {
        (65 + v as u8) as char
    } else if v < 52 {
        (97 + v as u8 - 26) as char
    } else if v < 62 {
        (48 + v as u8 - 52) as char
    } else if v == 62 {
        '+'
    } else {
        '/'
    }
}

fn split_group(n: u32) -> (r: (u32, u32, u32, u32))
    requires
        n < 16777216,
    ensures
        r.0 == n / 262144,
        r.1 == (n / 4096) % 64,
        r.2 == (n / 64) % 64,
        r.3 == n % 64,
        r.0 < 64,
        r.1 < 64,
        r.2 < 64,
        r.3 < 64,
{
    let a = (n >> 18) & 0x3F;
    let b = (n >> 12) & 0x3F;
    let c = (n >> 6) & 0x3F;
    let e = n & 0x3F;
    assert(a == n / 262144 && a < 64) by (bit_vector)
        requires a == (n >> 18) & 0x3F, n < 16777216u32;
    assert(b == (n / 4096) % 64) by (bit_vector)
        requires b == (n >> 12) & 0x3F;
    assert(c == (n / 64) % 64) by (bit_vector)
        requires c == (n >> 6) & 0x3F;
    assert(e == n % 64) by (bit_vector)
        requires e == n & 0x3F;
    (a, b, c, e)
}

/// The base64 text of `data`.
pub fn base64_encode(data: &[u8]) -> (out: String)
    ensures
        out@ == b64(data@),
{
    let mut out = String::new();
    let mut i: usize = 0;
    let ghost mut k: int = 0;
    let len = data.len();
    while len - i >= 3
        invariant
            len == data@.len(),
            i == 3 * k,
            i <= len,
            out@ == b64_groups(data@, k),
        decreases len - i,
    {
        let x0: u8 = data[i];
        let x1: u8 = data[i + 1];
        let x2: u8 = data[i + 2];
        let n: u32 = ((x0 as u32) << 16) | ((x1 as u32) << 8) | (x2 as u32);
        assert(n == x0 * 65536 + x1 * 256 + x2 && n < 16777216) by (bit_vector)
            requires n == ((x0 as u32) << 16) | ((x1 as u32) << 8) | (x2 as u32);
        let (a, b, c, e) = split_group(n);
        let ghost prev = out@;
        push_char(&mut out, digit(a));
        push_char(&mut out, digit(b));
        push_char(&mut out, digit(c));
        push_char(&mut out, digit(e));
        proof {
            assert(b64_group(data@, k) == n);
            assert(b64_groups(data@, k + 1) == prev + b64_quad(n as int));
            assert(out@ =~= prev + b64_quad(n as int));
            k = k + 1;
        }
        i = i + 3;
    }
    assert(k == len / 3);
    let rem = len - i;
    if rem == 1 {
        let n: u32 = (data[i] as u32) << 16;
        let x0: u8 = data[i];
        assert(n == x0 * 65536 && n < 16777216) by (bit_vector)
            requires n == (x0 as u32) << 16;
        let (a, b, _c, _e) = split_group(n);
        push_char(&mut out, digit(a));
        push_char(&mut out, digit(b));
        push_char(&mut out, '=');
        push_char(&mut out, '=');
    } else if rem == 2 {
        let n: u32 = ((data[i] as u32) << 16) | ((data[i + 1] as u32) << 8);
        let (x0, x1): (u8, u8) = (data[i], data[i + 1]);
        assert(n == x0 * 65536 + x1 * 256 && n < 16777216) by (bit_vector)
            requires n == ((x0 as u32) << 16) | ((x1 as u32) << 8);
        let (a, b, c, _e) = split_group(n);
        push_char(&mut out, digit(a));
        push_char(&mut out, digit(b));
        push_char(&mut out, digit(c));
        push_char(&mut out, '=');
    }
    proof {
        assert(out@ =~= b64(data@));
    }
    out
}

/// Every three input bytes become four characters, and a partial group is padded to four.
pub proof fn law_base64_length(d: Seq<u8>)
    ensures
        b64(d).len() == (d.len() + 2) / 3 * 4,
{
    lemma_groups_len(d, d.len() as int / 3);
}

proof fn lemma_groups_len(d: Seq<u8>, k: int)
    requires
        k >= 0,
    ensures
        b64_groups(d, k).len() == 4 * k,
    decreases k,
{
    if k > 0 {
        lemma_groups_len(d, k - 1);
    }
}

} // verus!
