//! Colour values as the pixel buffers store them: four straight-alpha bytes.

use vstd::prelude::*;
use crate::io::base64::push_char;

verus! {

/// One RGBA pixel, 8 bits per channel, straight (non-premultiplied) alpha.
#[derive(Debug, Clone, Copy, PartialEq, Eq, Structural)]
pub struct Rgba8 {
    pub r: u8,
    pub g: u8,
    pub b: u8,
    pub a: u8,
}

impl Rgba8 {
    /// Builds a pixel from its four channels.
    pub fn new(r: u8, g: u8, b: u8, a: u8) -> (c: Rgba8)
        ensures
            c == (Rgba8 { r, g, b, a }),
    {
        Rgba8 { r, g, b, a }
    }

    /// Fully transparent black, what a buffer reads outside its bounds.
    pub fn transparent() -> (c: Rgba8)
        ensures
            c == (Rgba8 { r: 0, g: 0, b: 0, a: 0 }),
    {
        Rgba8 { r: 0, g: 0, b: 0, a: 0 }
    }

    /// Opaque white.
    pub fn white() -> (c: Rgba8)
        ensures
            c == (Rgba8 { r: 255, g: 255, b: 255, a: 255 }),
    {
        Rgba8 { r: 255, g: 255, b: 255, a: 255 }
    }

    /// Opaque black.
    pub fn black() -> (c: Rgba8)
        ensures
            c == (Rgba8 { r: 0, g: 0, b: 0, a: 255 }),
    {
        Rgba8 { r: 0, g: 0, b: 0, a: 255 }
    }
}

/// The value of the hexadecimal digit with character code `v`, either case.
pub open spec fn hex_digit(v: int) -> Option<int> {
    if 48 <= v <= 57 {
        Some(v - 48)
    } else if 65 <= v <= 70 {
        Some(v - 55)
    } else if 97 <= v <= 102 {
        Some(v - 87)
    } else {
        None
    }
}

/// Two hexadecimal digits read as a byte.
pub open spec fn hex_pair(c0: char, c1: char) -> Option<u8> {
    match (hex_digit(c0 as int), hex_digit(c1 as int)) {
        (Some(hi), Some(lo)) => Some((16 * hi + lo) as u8),
        _ => None,
    }
}

/// `s` without its leading `#` characters.
pub open spec fn trim_hashes(s: Seq<char>) -> Seq<char>
    decreases s.len(),
{
    if s.len() > 0 && s[0] == '#' {
        trim_hashes(s.drop_first())
    } else {
        s
    }
}

/// The colour written as `RRGGBB` or `RRGGBBAA` in hexadecimal after any leading `#`s;
/// alpha is 255 in the six-digit form.
pub open spec fn parse_hex(s: Seq<char>) -> Option<Rgba8> {
    let t = trim_hashes(s);
    if t.len() == 6 {
        match (hex_pair(t[0], t[1]), hex_pair(t[2], t[3]), hex_pair(t[4], t[5])) {
            (Some(r), Some(g), Some(b)) => Some(Rgba8 { r, g, b, a: 255 }),
            _ => None,
        }
    } else if t.len() == 8 {
        match (hex_pair(t[0], t[1]), hex_pair(t[2], t[3]), hex_pair(t[4], t[5]), hex_pair(t[6], t[7])) {
            (Some(r), Some(g), Some(b), Some(a)) => Some(Rgba8 { r, g, b, a }),
            _ => None,
        }
    } else {
        None
    }
}

/// The upper-case hexadecimal digit for `v < 16`.
pub open spec fn hex_char(v: int) -> char {
    if v < 10 {
        (48 + v) as char
    } else {
        (55 + v) as char
    }
}

/// `#RRGGBB` in upper-case hexadecimal; alpha is not written.
pub open spec fn hex_string(c: Rgba8) -> Seq<char> {
    seq![
        '#',
        hex_char(c.r as int / 16),
        hex_char(c.r as int % 16),
        hex_char(c.g as int / 16),
        hex_char(c.g as int % 16),
        hex_char(c.b as int / 16),
        hex_char(c.b as int % 16),
    ]
}

fn hex_digit_exec(b: u8) -> (d: Option<u8>)
    ensures
        d matches Some(v) ==> hex_digit(b as int) == Some(v as int),
        d is None ==> hex_digit(b as int) is None,
{
    if b >= 48 && b <= 57 {
        Some(b - 48)
    } else if b >= 65 && b <= 70 {
        Some(b - 55)
    } else if b >= 97 && b <= 102 {
        Some(b - 87)
    } else {
        None
    }
}

fn hex_pair_exec(b0: u8, b1: u8) -> (v: Option<u8>)
    ensures
        v == hex_pair(b0 as char, b1 as char),
{
    assert((b0 as char) as int == b0 as int);
    assert((b1 as char) as int == b1 as int);
    match (hex_digit_exec(b0), hex_digit_exec(b1)) {
        (Some(hi), Some(lo)) => Some(16 * hi + lo),
        _ => None,
    }
}

/// `trim_hashes(s)` is `s` after its first `k` characters, all of them `#`.
proof fn lemma_trim(s: Seq<char>) -> (k: int)
    ensures
        0 <= k <= s.len(),
        trim_hashes(s) == s.skip(k),
        forall|j: int| 0 <= j < k ==> s[j] == '#',
    decreases s.len(),
{
    if s.len() > 0 && s[0] == '#' {
        let k1 = lemma_trim(s.drop_first());
        assert(s.drop_first().skip(k1) =~= s.skip(k1 + 1));
        assert forall|j: int| 0 <= j < k1 + 1 implies s[j] == '#' by {
            if j > 0 {
                assert(s[j] == s.drop_first()[j - 1]);
            }
        }
        k1 + 1
    } else {
        assert(s.skip(0) =~= s);
        0
    }
}

/// Text holding a character outside ASCII is no colour.
proof fn lemma_parse_hex_non_ascii(s: Seq<char>, i: int)
    requires
        0 <= i < s.len(),
        !('\0' <= s[i] <= '\u{7f}'),
    ensures
        parse_hex(s) is None,
{
    let k = lemma_trim(s);
    let t = trim_hashes(s);
    assert(i >= k);
    let m = i - k;
    assert(t[m] == s[i]);
    assert(hex_digit(t[m] as int) is None);
    if t.len() == 6 || t.len() == 8 {
        let q = m / 2;
        assert(hex_pair(t[2 * q], t[2 * q + 1]) is None);
    }
}

fn hex_char_exec(v: u8) -> (c: char)
    requires
        v < 16,
    ensures
        c == hex_char(v as int),
{
    if v < 10 {
        (48 + v) as char
    } else {
        (55 + v) as char
    }
}

impl Rgba8 {
    /// Parses `#RRGGBB` or `#RRGGBBAA` (any number of leading `#`s, two hexadecimal digits of
    /// either case per channel).
    pub fn from_hex(s: &str) -> (c: Option<Rgba8>)
        ensures
            c == parse_hex(s@),
    {
        if !s.is_ascii() {
            proof {
                assert(!vstd::utf8::is_ascii_chars(s@));
                assert(exists|i: int| 0 <= i < s@.len() && !('\0' <= #[trigger] s@[i] <= '\u{7f}'));
                let i = choose|i: int| 0 <= i < s@.len() && !('\0' <= #[trigger] s@[i] <= '\u{7f}');
                lemma_parse_hex_non_ascii(s@, i);
            }
            return None;
        }
        let b = s.as_bytes();
        proof {
            vstd::string::is_ascii_spec_bytes(s);
        }
        let ghost cs = s@;
        assert(b@.len() == cs.len());
        assert(forall|i: int| 0 <= i < cs.len() ==> #[trigger] (b@[i] as char) == cs[i]);
        let n = b.len();
        let mut start: usize = 0;
        assert(cs.skip(0) =~= cs);
        while start < n && b[start] == 35
            invariant
                b@.len() == n,
                n == cs.len(),
                forall|i: int| 0 <= i < cs.len() ==> #[trigger] (b@[i] as char) == cs[i],
                start <= n,
                trim_hashes(cs) == trim_hashes(cs.skip(start as int)),
            decreases n - start,
        {
            assert(35u8 as char == '#');
            assert(cs[start as int] == '#');
            assert(cs.skip(start as int)[0] == '#');
            assert(cs.skip(start as int).drop_first() =~= cs.skip(start + 1));
            start = start + 1;
        }
        let ghost t = cs.skip(start as int);
        assert(trim_hashes(t) == t);
        let len = n - start;
        assert(t.len() == len);
        assert(forall|i: int| 0 <= i < len ==> #[trigger] t[i] == (b@[start + i] as char));
        if len == 6 {
            let r = hex_pair_exec(b[start], b[start + 1]);
            let g = hex_pair_exec(b[start + 2], b[start + 3]);
            let bl = hex_pair_exec(b[start + 4], b[start + 5]);
            assert(t[0] == b@[start as int] as char && t[1] == b@[start + 1] as char);
            assert(t[2] == b@[start + 2] as char && t[3] == b@[start + 3] as char);
            assert(t[4] == b@[start + 4] as char && t[5] == b@[start + 5] as char);
            match (r, g, bl) {
                (Some(r), Some(g), Some(bl)) => Some(Rgba8 { r, g, b: bl, a: 255 }),
                _ => None,
            }
        } else if len == 8 {
            let r = hex_pair_exec(b[start], b[start + 1]);
            let g = hex_pair_exec(b[start + 2], b[start + 3]);
            let bl = hex_pair_exec(b[start + 4], b[start + 5]);
            let a = hex_pair_exec(b[start + 6], b[start + 7]);
            assert(t[0] == b@[start as int] as char && t[1] == b@[start + 1] as char);
            assert(t[2] == b@[start + 2] as char && t[3] == b@[start + 3] as char);
            assert(t[4] == b@[start + 4] as char && t[5] == b@[start + 5] as char);
            assert(t[6] == b@[start + 6] as char && t[7] == b@[start + 7] as char);
            match (r, g, bl, a) {
                (Some(r), Some(g), Some(bl), Some(a)) => Some(Rgba8 { r, g, b: bl, a }),
                _ => None,
            }
        } else {
            None
        }
    }

    /// `#RRGGBB` in upper-case hexadecimal.
    pub fn to_hex(&self) -> (s: String)
        ensures
            s@ == hex_string(*self),
    {
        let mut s = String::new();
        push_char(&mut s, '#');
        push_char(&mut s, hex_char_exec(self.r / 16));
        push_char(&mut s, hex_char_exec(self.r % 16));
        push_char(&mut s, hex_char_exec(self.g / 16));
        push_char(&mut s, hex_char_exec(self.g % 16));
        push_char(&mut s, hex_char_exec(self.b / 16));
        push_char(&mut s, hex_char_exec(self.b % 16));
        assert(s@ =~= hex_string(*self));
        s
    }
}

} // verus!
