//! Colours with three 8-bit channels, and their hexadecimal notation.

use crate::text::chars_of;
use vstd::prelude::*;

verus! {

/// Why a table could not be rendered.
#[derive(Debug, Clone, Copy, PartialEq, Eq)]
pub enum RenderError {
    /// An icon colour is not hexadecimal notation for a number of 32 bits.
    MalformedColor,
}

/// A colour of 24 bits. Its view is the triple (red, green, blue).
#[derive(Debug, Clone, Copy, PartialEq, Eq)]
pub struct RGB {
    r: u8,
    g: u8,
    b: u8,
}

impl View for RGB {
    type V = (u8, u8, u8);

    closed spec fn view(&self) -> (u8, u8, u8) {
        (self.r, self.g, self.b)
    }
}

/// The value of a hexadecimal digit of either case; `None` for any other
/// character.
pub open spec fn hex_digit(c: char) -> Option<nat> {
    if '0' <= c <= '9' {
        Some((c as int - 48) as nat)
    } else if 'a' <= c <= 'f' {
        Some((c as int - 87) as nat)
    } else if 'A' <= c <= 'F' {
        Some((c as int - 55) as nat)
    } else {
        None
    }
}

/// Every character of `s` is a hexadecimal digit.
pub open spec fn all_hex(s: Seq<char>) -> bool {
    forall|i: int| 0 <= i < s.len() ==> (#[trigger] hex_digit(s[i])) is Some
}

/// The number that the hexadecimal digits `s` denote, most significant first.
pub open spec fn hex_value(s: Seq<char>) -> nat
    decreases s.len(),
{
    if s.len() == 0 {
        0
    } else {
        16 * hex_value(s.drop_last()) + hex_digit(s.last())->0
    }
}

/// `s` without the `#` characters that it starts with.
pub open spec fn without_hashes(s: Seq<char>) -> Seq<char>
    decreases s.len(),
{
    if s.len() > 0 && s[0] == '#' {
        without_hashes(s.skip(1))
    } else {
        s
    }
}

/// What the digits `d` denote as a number of 32 bits: at least one digit and
/// nothing else, the value at most `u32::MAX`.
pub open spec fn digits_value(d: Seq<char>) -> Option<u32> {
    if d.len() > 0 && all_hex(d) && hex_value(d) <= u32::MAX {
        Some(hex_value(d) as u32)
    } else {
        None
    }
}

/// What `s` denotes as an unsigned hexadecimal number of 32 bits: an optional
/// `+`, then digits.
pub open spec fn parse_hex(s: Seq<char>) -> Option<u32> {
    if s.len() > 0 && s[0] == '+' {
        digits_value(s.skip(1))
    } else {
        digits_value(s)
    }
}

/// The channels of the number `n`: red is bits 16 to 23, green bits 8 to 15,
/// blue bits 0 to 7. Bits 24 and above are ignored.
pub open spec fn channels(n: u32) -> (u8, u8, u8) {
    (((n / 0x1_0000) % 0x100) as u8, ((n / 0x100) % 0x100) as u8, (n % 0x100) as u8)
}

/// The colour that the notation `s` stands for, if it is well formed.
pub open spec fn color_of_hex(s: Seq<char>) -> Option<(u8, u8, u8)> {
    match parse_hex(without_hashes(s)) {
        Some(n) => Some(channels(n)),
        None => None,
    }
}

/// `s` is a colour in the form `#RRGGBB`: a `#` and six hexadecimal digits.
pub open spec fn is_hex_color(s: Seq<char>) -> bool {
    &&& s.len() == 7
    &&& s[0] == '#'
    &&& forall|i: int| 1 <= i < 7 ==> (#[trigger] hex_digit(s[i])) is Some
}

/// Sixteen to the power `n`.
spec fn sixteen_to(n: nat) -> nat
    decreases n,
{
    if n == 0 {
        1
    } else {
        16 * sixteen_to((n - 1) as nat)
    }
}

/// Digits denote less than sixteen to the power of their number.
proof fn lemma_hex_value_bound(s: Seq<char>)
    requires
        all_hex(s),
    ensures
        hex_value(s) < sixteen_to(s.len()),
    decreases s.len(),
{
    if s.len() > 0 {
        assert(all_hex(s.drop_last())) by {
            assert forall|i: int| 0 <= i < s.drop_last().len() implies (#[trigger] hex_digit(
                s.drop_last()[i],
            )) is Some by {
                assert(hex_digit(s[i]) is Some);
            }
        }
        lemma_hex_value_bound(s.drop_last());
        assert(hex_digit(s[s.len() - 1]) is Some);
    }
}

/// Every colour in the form `#RRGGBB` can be read, as its three bytes.
pub proof fn lemma_hex_color_parses(s: Seq<char>)
    requires
        is_hex_color(s),
    ensures
        color_of_hex(s) is Some,
{
    let d = s.skip(1);
    assert(hex_digit(s[1]) is Some);
    assert(hex_digit(d[0]) is Some);
    assert(d[0] != '#' && d[0] != '+');
    assert(without_hashes(d) == d);
    assert(without_hashes(s) == d);
    assert(all_hex(d)) by {
        assert forall|i: int| 0 <= i < d.len() implies (#[trigger] hex_digit(d[i])) is Some by {
            assert(hex_digit(s[i + 1]) is Some);
        }
    }
    lemma_hex_value_bound(d);
    assert(sixteen_to(6) == 0x100_0000) by {
        reveal_with_fuel(sixteen_to, 7);
    }
}

/// The digits of a prefix denote no more than the digits of the whole.
proof fn lemma_hex_value_prefix(s: Seq<char>, k: int)
    requires
        0 <= k <= s.len(),
    ensures
        hex_value(s.take(k)) <= hex_value(s),
    decreases s.len() - k,
{
    if k == s.len() {
        assert(s.take(k) =~= s);
    } else {
        assert(s.drop_last().take(k) =~= s.take(k));
        lemma_hex_value_prefix(s.drop_last(), k);
    }
}

fn hex_digit_of(c: char) -> (d: Option<u64>)
    ensures
        d is Some <==> hex_digit(c) is Some,
        d matches Some(v) ==> v == hex_digit(c)->0 && v < 16,
{
    if '0' <= c && c <= '9' {
        Some((c as u64) - 48)
    } else if 'a' <= c && c <= 'f' {
        Some((c as u64) - 87)
    } else if 'A' <= c && c <= 'F' {
        Some((c as u64) - 55)
    } else {
        None
    }
}

impl RGB {
    /// Reads a colour from hexadecimal notation such as `#C4A7E7`. Leading `#`
    /// characters are skipped; what follows is read as one number.
    pub fn hex_to_rgb(hex: &str) -> (out: Result<Self, RenderError>)
        ensures
            out matches Ok(c) ==> color_of_hex(hex@) == Some(c@),
            out matches Err(e) ==> color_of_hex(hex@) is None && e == RenderError::MalformedColor,
    {
        let chars = chars_of(hex);
        let n = chars.len();
        let mut i: usize = 0;
        assert(chars@.skip(0) =~= chars@);
        while i < n && chars[i] == '#'
            invariant
                n == chars.len(),
                i <= n,
                without_hashes(chars@) == without_hashes(chars@.skip(i as int)),
            decreases n - i,
        {
            assert(chars@.skip(i as int).skip(1) =~= chars@.skip(i + 1));
            i = i + 1;
        }
        let ghost trimmed = chars@.skip(i as int);
        assert(without_hashes(chars@) == trimmed);
        if i < n && chars[i] == '+' {
            assert(trimmed.skip(1) =~= chars@.skip(i + 1));
            i = i + 1;
        }
        let ghost digits = chars@.skip(i as int);
        assert(parse_hex(trimmed) == digits_value(digits));
        if i == n {
            return Err(RenderError::MalformedColor);
        }
        let mut acc: u64 = 0;
        let mut k: usize = i;
        while k < n
            invariant
                n == chars.len(),
                i <= k <= n,
                digits == chars@.skip(i as int),
                parse_hex(without_hashes(hex@)) == digits_value(digits),
                all_hex(digits.take(k - i)),
                acc == hex_value(digits.take(k - i)),
                acc <= u32::MAX,
            decreases n - k,
        {
            let ghost read = digits.take(k - i);
            let ghost next = digits.take(k - i + 1);
            assert(next.drop_last() =~= read);
            assert(next.last() == chars@[k as int]);
            match hex_digit_of(chars[k]) {
                None => {
                    assert(hex_digit(digits[k - i]) is None);
                    return Err(RenderError::MalformedColor);
                },
                Some(v) => {
                    acc = acc * 16 + v;
                    if acc > 0xffff_ffff {
                        proof {
                            lemma_hex_value_prefix(digits, k - i + 1);
                        }
                        return Err(RenderError::MalformedColor);
                    }
                },
            }
            k = k + 1;
        }
        assert(digits.take(n - i) =~= digits);
        let num = acc as u32;
        assert((num >> 16) & 0xFF == (num / 0x1_0000) % 0x100) by (bit_vector);
        assert((num >> 8) & 0xFF == (num / 0x100) % 0x100) by (bit_vector);
        assert(num & 0xFF == num % 0x100) by (bit_vector);
        let r = ((num >> 16) & 0xFF) as u8;
        let g = ((num >> 8) & 0xFF) as u8;
        let b = (num & 0xFF) as u8;
        Ok(Self { r, g, b })
    }

    /// The red channel.
    pub fn r(&self) -> (v: u8)
        ensures
            v == self@.0,
    {
        self.r
    }

    /// The green channel.
    pub fn g(&self) -> (v: u8)
        ensures
            v == self@.1,
    {
        self.g
    }

    /// The blue channel.
    pub fn b(&self) -> (v: u8)
        ensures
            v == self@.2,
    {
        self.b
    }

    /// The colour of the table's header labels.
    pub fn header_color() -> (c: Self)
        ensures
            c@ == (196u8, 167u8, 231u8),
    {
        Self { r: 196, g: 167, b: 231 }
    }
}

} // verus!
