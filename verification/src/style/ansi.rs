//! Text with a foreground colour, as a terminal takes it: a colour sequence,
//! the text, and the sequence that restores the default foreground.

use crate::text::decimal;
use vstd::prelude::*;

verus! {

/// The sequence that selects the 24-bit foreground colour `c`.
pub open spec fn truecolor_start(c: (u8, u8, u8)) -> Seq<char> {
    seq!['\x1b', '[', '3', '8', ';', '2', ';'] + decimal(c.0 as nat) + seq![';'] + decimal(
        c.1 as nat,
    ) + seq![';'] + decimal(c.2 as nat) + seq!['m']
}

/// The sequence that selects the terminal's blue.
pub open spec fn blue_start() -> Seq<char> {
    seq!['\x1b', '[', '3', '4', 'm']
}

/// The sequence that restores the default foreground colour.
pub open spec fn foreground_end() -> Seq<char> {
    seq!['\x1b', '[', '3', '9', 'm']
}

/// `text` in the 24-bit foreground colour `c`.
pub open spec fn truecolor_text(text: Seq<char>, c: (u8, u8, u8)) -> Seq<char> {
    truecolor_start(c) + text + foreground_end()
}

/// `text` in the terminal's blue.
pub open spec fn blue_text(text: Seq<char>) -> Seq<char> {
    blue_start() + text + foreground_end()
}

/// `truecolor` of owo-colors, formatted with `{}`: the crate writes
/// `ESC [ 38 ; 2 ; r ; g ; b m`, with the channels in decimal, then the text as
/// it is, then `ESC [ 39 m`.
#[verifier::external_body]
pub(crate) fn truecolor(text: &str, r: u8, g: u8, b: u8) -> (out: String)
    ensures
        out@ == truecolor_text(text@, (r, g, b)),
{
    format!("{}", owo_colors::OwoColorize::truecolor(&text, r, g, b))
}

/// `blue` of owo-colors, formatted with `{}`: the crate writes `ESC [ 34 m`,
/// then the text as it is, then `ESC [ 39 m`.
#[verifier::external_body]
pub(crate) fn blue(text: &str) -> (out: String)
    ensures
        out@ == blue_text(text@),
{
    format!("{}", owo_colors::OwoColorize::blue(&text))
}

/// What is left of `s` when its colour sequences are taken out; `escaped`
/// says whether `s` starts inside one. A sequence runs from an escape
/// character to the next `m`.
pub open spec fn strip_from(s: Seq<char>, escaped: bool) -> Seq<char>
    decreases s.len(),
{
    if s.len() == 0 {
        Seq::empty()
    } else if escaped {
        strip_from(s.skip(1), s[0] != 'm')
    } else if s[0] == '\x1b' {
        strip_from(s.skip(1), true)
    } else {
        seq![s[0]] + strip_from(s.skip(1), false)
    }
}

/// Whether the end of `s` lies inside a colour sequence.
pub open spec fn escaped_after(s: Seq<char>, escaped: bool) -> bool
    decreases s.len(),
{
    if s.len() == 0 {
        escaped
    } else if escaped {
        escaped_after(s.skip(1), s[0] != 'm')
    } else {
        escaped_after(s.skip(1), s[0] == '\x1b')
    }
}

/// The plain text of `s`: `s` without its colour sequences.
pub open spec fn strip_ansi(s: Seq<char>) -> Seq<char> {
    strip_from(s, false)
}

/// No character of `s` is the escape character.
pub open spec fn plain(s: Seq<char>) -> bool {
    forall|i: int| 0 <= i < s.len() ==> s[i] != '\x1b'
}

/// Stripping goes through a concatenation, part by part.
pub proof fn lemma_strip_concat(a: Seq<char>, b: Seq<char>, escaped: bool)
    ensures
        strip_from(a + b, escaped) == strip_from(a, escaped) + strip_from(
            b,
            escaped_after(a, escaped),
        ),
        escaped_after(a + b, escaped) == escaped_after(b, escaped_after(a, escaped)),
    decreases a.len(),
{
    if a.len() == 0 {
        assert(a + b =~= b);
        assert(strip_from(a, escaped) + strip_from(b, escaped) =~= strip_from(b, escaped));
    } else {
        assert((a + b).skip(1) =~= a.skip(1) + b);
        let next = if escaped {
            a[0] != 'm'
        } else {
            a[0] == '\x1b'
        };
        lemma_strip_concat(a.skip(1), b, next);
        if !escaped && a[0] != '\x1b' {
            assert(seq![a[0]] + (strip_from(a.skip(1), false) + strip_from(
                b,
                escaped_after(a.skip(1), false),
            )) =~= (seq![a[0]] + strip_from(a.skip(1), false)) + strip_from(
                b,
                escaped_after(a.skip(1), false),
            ));
        }
    }
}

/// Text without an escape character is its own plain text.
pub proof fn lemma_strip_plain(s: Seq<char>)
    requires
        plain(s),
    ensures
        strip_from(s, false) == s,
        !escaped_after(s, false),
    decreases s.len(),
{
    if s.len() > 0 {
        lemma_strip_plain(s.skip(1));
        assert(seq![s[0]] + s.skip(1) =~= s);
    } else {
        assert(s =~= Seq::empty());
    }
}

/// Inside a colour sequence, characters other than `m` are taken out and the
/// sequence goes on.
proof fn lemma_strip_parameters(s: Seq<char>)
    requires
        forall|i: int| 0 <= i < s.len() ==> s[i] != 'm',
    ensures
        strip_from(s, true) == Seq::<char>::empty(),
        escaped_after(s, true),
    decreases s.len(),
{
    if s.len() > 0 {
        lemma_strip_parameters(s.skip(1));
    }
}

/// Decimal notation holds digits only.
proof fn lemma_decimal_digits(n: nat)
    ensures
        decimal(n).len() > 0,
        forall|i: int| 0 <= i < decimal(n).len() ==> '0' <= #[trigger] decimal(n)[i] <= '9',
    decreases n,
{
    if n >= 10 {
        lemma_decimal_digits(n / 10);
    }
}

/// A colour's start sequence leaves no plain text, and ends the sequence.
proof fn lemma_strip_truecolor_start(c: (u8, u8, u8))
    ensures
        strip_from(truecolor_start(c), false) == Seq::<char>::empty(),
        !escaped_after(truecolor_start(c), false),
{
    let body = seq!['[', '3', '8', ';', '2', ';'] + decimal(c.0 as nat) + seq![';'] + decimal(
        c.1 as nat,
    ) + seq![';'] + decimal(c.2 as nat);
    lemma_decimal_digits(c.0 as nat);
    lemma_decimal_digits(c.1 as nat);
    lemma_decimal_digits(c.2 as nat);
    assert forall|i: int| 0 <= i < body.len() implies body[i] != 'm' by {
        let d0 = decimal(c.0 as nat);
        let d1 = decimal(c.1 as nat);
        let d2 = decimal(c.2 as nat);
        if i < 6 {
        } else if i < 6 + d0.len() {
            assert(body[i] == d0[i - 6]);
        } else if i < 7 + d0.len() {
        } else if i < 7 + d0.len() + d1.len() {
            assert(body[i] == d1[i - 7 - d0.len()]);
        } else if i < 8 + d0.len() + d1.len() {
        } else {
            assert(body[i] == d2[i - 8 - d0.len() - d1.len()]);
        }
    }
    lemma_strip_parameters(body);
    let start = truecolor_start(c);
    assert(start =~= seq!['\x1b'] + (body + seq!['m']));
    assert(start.skip(1) =~= body + seq!['m']);
    lemma_strip_concat(body, seq!['m'], true);
    assert(seq!['m'].skip(1) =~= Seq::<char>::empty());
    reveal_with_fuel(strip_from, 2);
    reveal_with_fuel(escaped_after, 2);
}

/// Text between a colour's start sequence and the restoring sequence keeps
/// exactly itself as plain text.
pub proof fn lemma_strip_truecolor(text: Seq<char>, c: (u8, u8, u8))
    requires
        plain(text),
    ensures
        strip_ansi(truecolor_text(text, c)) == text,
        !escaped_after(truecolor_text(text, c), false),
{
    lemma_strip_truecolor_start(c);
    lemma_strip_plain(text);
    lemma_strip_end();
    lemma_strip_concat(truecolor_start(c), text, false);
    lemma_strip_concat(truecolor_start(c) + text, foreground_end(), false);
    assert(Seq::<char>::empty() + text + Seq::<char>::empty() =~= text);
}

/// Text in the terminal's blue keeps exactly itself as plain text.
pub proof fn lemma_strip_blue(text: Seq<char>)
    requires
        plain(text),
    ensures
        strip_ansi(blue_text(text)) == text,
        !escaped_after(blue_text(text), false),
{
    lemma_strip_plain(text);
    lemma_strip_end();
    assert(strip_from(blue_start(), false) == Seq::<char>::empty() && !escaped_after(
        blue_start(),
        false,
    )) by {
        let s = blue_start();
        assert(s.skip(1) =~= seq!['[', '3', '4', 'm']);
        assert(s.skip(1).skip(1) =~= seq!['3', '4', 'm']);
        assert(s.skip(1).skip(1).skip(1) =~= seq!['4', 'm']);
        assert(s.skip(1).skip(1).skip(1).skip(1) =~= seq!['m']);
        assert(s.skip(1).skip(1).skip(1).skip(1).skip(1) =~= Seq::<char>::empty());
        reveal_with_fuel(strip_from, 6);
        reveal_with_fuel(escaped_after, 6);
    }
    lemma_strip_concat(blue_start(), text, false);
    lemma_strip_concat(blue_start() + text, foreground_end(), false);
    assert(Seq::<char>::empty() + text + Seq::<char>::empty() =~= text);
}

/// The restoring sequence leaves no plain text, and ends the sequence.
proof fn lemma_strip_end()
    ensures
        strip_from(foreground_end(), false) == Seq::<char>::empty(),
        !escaped_after(foreground_end(), false),
{
    let s = foreground_end();
    assert(s.skip(1) =~= seq!['[', '3', '9', 'm']);
    assert(s.skip(1).skip(1) =~= seq!['3', '9', 'm']);
    assert(s.skip(1).skip(1).skip(1) =~= seq!['9', 'm']);
    assert(s.skip(1).skip(1).skip(1).skip(1) =~= seq!['m']);
    assert(s.skip(1).skip(1).skip(1).skip(1).skip(1) =~= Seq::<char>::empty());
    reveal_with_fuel(strip_from, 6);
    reveal_with_fuel(escaped_after, 6);
}

} // verus!
