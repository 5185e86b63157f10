//! Characters and strings as sequences: the conversions and the small text
//! functions that the records and the table cells are built from.

use vstd::prelude::*;
use vstd::std_specs::iter::IteratorSpec;

verus! {

/// `String::push` of the standard library: the new string is the old one with
/// `c` appended as its last character.
pub assume_specification[ String::push ](s: &mut String, c: char)
    ensures
        final(s)@ == old(s)@.push(c),
;

/// The characters of `s`, in order.
pub fn chars_of(s: &str) -> (v: Vec<char>)
    ensures
        v@ == s@,
{
    broadcast use vstd::string::group_string_axioms;

    let mut v: Vec<char> = Vec::new();
    let mut it = s.chars();
    loop
        invariant_except_break
            v@ + it.remaining() == s@,
            it.obeys_prophetic_iter_laws(),
            it.decrease() is Some,
        ensures
            v@ == s@,
        decreases it.decrease()->0,
    {
        match it.next() {
            Some(c) => {
                v.push(c);
            },
            None => {
                assert(v@ + Seq::<char>::empty() =~= v@);
                break;
            },
        }
    }
    v
}

/// The string made of the characters `v[from..to]`.
pub(crate) fn string_of(v: &Vec<char>, from: usize, to: usize) -> (s: String)
    requires
        from <= to <= v.len(),
    ensures
        s@ == v@.subrange(from as int, to as int),
{
    let mut s = String::new();
    let mut i: usize = from;
    while i < to
        invariant
            from <= i <= to <= v.len(),
            s@ == v@.subrange(from as int, i as int),
        decreases to - i,
    {
        s.push(v[i]);
        i = i + 1;
        assert(v@.subrange(from as int, i as int) =~= v@.subrange(from as int, i - 1).push(
            v@[i - 1],
        ));
    }
    s
}

/// Whether `a` and `b` hold the same characters.
pub fn same_chars(a: &Vec<char>, b: &Vec<char>) -> (same: bool)
    ensures
        same <==> a@ == b@,
{
    if a.len() != b.len() {
        return false;
    }
    let mut i: usize = 0;
    while i < a.len()
        invariant
            a.len() == b.len(),
            i <= a.len(),
            forall|k: int| 0 <= k < i ==> a@[k] == b@[k],
        decreases a.len() - i,
    {
        if a[i] != b[i] {
            return false;
        }
        i = i + 1;
    }
    assert(a@ =~= b@);
    true
}

/// The character of the decimal digit `d`.
pub open spec fn digit_char(d: nat) -> char {
    (d + 48) as char
}

/// `n` written in decimal, without sign, separators or leading zeros.
pub open spec fn decimal(n: nat) -> Seq<char>
    decreases n,
{
    if n < 10 {
        seq![digit_char(n)]
    } else {
        decimal(n / 10).push(digit_char(n % 10))
    }
}

fn digit_of(d: u64) -> (c: char)
    requires
        d < 10,
    ensures
        c == digit_char(d as nat),
{
    ((d as u8) + 48) as char
}

/// `n` in decimal digits.
pub fn decimal_string(n: u64) -> (s: String)
    ensures
        s@ == decimal(n as nat),
{
    let mut low: Vec<char> = Vec::new();
    let mut m: u64 = n;
    while m >= 10
        invariant
            decimal(n as nat) == decimal(m as nat) + low@.reverse(),
        decreases m,
    {
        let ghost before = low@;
        low.push(digit_of(m % 10));
        assert(low@.reverse() =~= seq![digit_char((m % 10) as nat)] + before.reverse());
        assert(decimal(m as nat) + before.reverse() =~= decimal((m / 10) as nat) + low@.reverse());
        m = m / 10;
    }
    let mut s = String::new();
    s.push(digit_of(m));
    let mut i: usize = low.len();
    while i > 0
        invariant
            i <= low.len(),
            m < 10,
            s@ == seq![digit_char(m as nat)] + low@.reverse().take(low.len() - i),
        decreases i,
    {
        i = i - 1;
        s.push(low[i]);
        assert(low@.reverse().take(low.len() - i) =~= low@.reverse().take(low.len() - i - 1).push(
            low@[i as int],
        ));
    }
    assert(low@.reverse().take(low.len() as int) =~= low@.reverse());
    s
}

/// The lower-case form of an ASCII capital; any other character is itself.
pub open spec fn ascii_lower(c: char) -> char {
    if 'A' <= c <= 'Z' {
        ((c as int) + 32) as char
    } else {
        c
    }
}

/// `s` with each ASCII capital replaced by its lower-case form.
pub open spec fn lowercase(s: Seq<char>) -> Seq<char> {
    Seq::new(s.len(), |i: int| ascii_lower(s[i]))
}

/// The lower-case form of `v[from..to]`.
pub(crate) fn lowercase_of(v: &Vec<char>, from: usize, to: usize) -> (s: String)
    requires
        from <= to <= v.len(),
    ensures
        s@ == lowercase(v@.subrange(from as int, to as int)),
{
    let mut s = String::new();
    let mut i: usize = from;
    while i < to
        invariant
            from <= i <= to <= v.len(),
            s@ == lowercase(v@.subrange(from as int, i as int)),
        decreases to - i,
    {
        let c = v[i];
        let l = if 'A' <= c && c <= 'Z' {
            ((c as u8) + 32) as char
        } else {
            c
        };
        s.push(l);
        i = i + 1;
        assert(lowercase(v@.subrange(from as int, i as int)) =~= lowercase(
            v@.subrange(from as int, i - 1),
        ).push(ascii_lower(v@[i - 1])));
    }
    s
}

/// The part of `s` after its last `sep`; all of `s` where it holds none.
pub open spec fn after_last(s: Seq<char>, sep: char) -> Seq<char>
    decreases s.len(),
{
    if s.len() == 0 || s.last() == sep {
        Seq::empty()
    } else {
        after_last(s.drop_last(), sep).push(s.last())
    }
}

/// The part of `s` before its first `sep`; all of `s` where it holds none.
pub open spec fn before_first(s: Seq<char>, sep: char) -> Seq<char>
    decreases s.len(),
{
    if s.len() == 0 || s[0] == sep {
        Seq::empty()
    } else {
        seq![s[0]] + before_first(s.skip(1), sep)
    }
}

/// How often `sep` occurs in `s`.
pub open spec fn occurrences(s: Seq<char>, sep: char) -> nat
    decreases s.len(),
{
    if s.len() == 0 {
        0
    } else {
        occurrences(s.drop_last(), sep) + if s.last() == sep {
            1nat
        } else {
            0nat
        }
    }
}

/// Where the part after the last `sep` of `v[..end]` starts.
pub(crate) fn last_part_start(v: &Vec<char>, end: usize, sep: char) -> (start: usize)
    requires
        end <= v.len(),
    ensures
        start <= end,
        v@.subrange(start as int, end as int) == after_last(v@.take(end as int), sep),
        start > 0 ==> v@[start - 1] == sep,
        start == 0 <==> !v@.take(end as int).contains(sep),
{
    let ghost whole = v@.take(end as int);
    let mut start: usize = end;
    assert(v@.subrange(end as int, end as int) =~= Seq::<char>::empty());
    assert(whole.take(end as int) =~= whole);
    while start > 0 && v[start - 1] != sep
        invariant
            start <= end <= v.len(),
            whole == v@.take(end as int),
            after_last(whole, sep) == after_last(whole.take(start as int), sep) + v@.subrange(
                start as int,
                end as int,
            ),
            forall|k: int| start <= k < end ==> v@[k] != sep,
        decreases start,
    {
        let ghost head = whole.take(start as int);
        assert(head.drop_last() =~= whole.take(start - 1));
        assert(head.last() == v@[start - 1]);
        assert(after_last(head.drop_last(), sep).push(head.last()) + v@.subrange(
            start as int,
            end as int,
        ) =~= after_last(head.drop_last(), sep) + v@.subrange(start - 1, end as int));
        start = start - 1;
    }
    proof {
        let head = whole.take(start as int);
        if start > 0 {
            assert(head.last() == v@[start - 1]);
            assert(whole[start - 1] == sep);
        } else {
            assert forall|k: int| 0 <= k < whole.len() implies whole[k] != sep by {
                assert(whole[k] == v@[k]);
            }
        }
        assert(Seq::<char>::empty() + v@.subrange(start as int, end as int) =~= v@.subrange(
            start as int,
            end as int,
        ));
    }
    start
}

/// Where the part before the first `sep` of `v[from..]` ends.
pub(crate) fn first_part_end(v: &Vec<char>, from: usize, sep: char) -> (end: usize)
    requires
        from <= v.len(),
    ensures
        from <= end <= v.len(),
        v@.subrange(from as int, end as int) == before_first(v@.skip(from as int), sep),
        end < v.len() ==> v@[end as int] == sep,
{
    let mut end: usize = from;
    assert(v@.subrange(from as int, from as int) + before_first(v@.skip(from as int), sep)
        =~= before_first(v@.skip(from as int), sep));
    while end < v.len() && v[end] != sep
        invariant
            from <= end <= v.len(),
            before_first(v@.skip(from as int), sep) == v@.subrange(from as int, end as int)
                + before_first(v@.skip(end as int), sep),
        decreases v.len() - end,
    {
        assert(v@.skip(end as int).skip(1) =~= v@.skip(end + 1));
        assert(v@.subrange(from as int, end as int) + (seq![v@[end as int]] + before_first(
            v@.skip(end + 1),
            sep,
        )) =~= v@.subrange(from as int, end + 1) + before_first(v@.skip(end + 1), sep));
        end = end + 1;
    }
    assert(v@.subrange(from as int, end as int) + Seq::<char>::empty() =~= v@.subrange(
        from as int,
        end as int,
    ));
    end
}

/// How often `sep` occurs in `v[from..]`.
pub(crate) fn count_of(v: &Vec<char>, from: usize, sep: char) -> (n: usize)
    requires
        from <= v.len(),
    ensures
        n == occurrences(v@.skip(from as int), sep),
{
    let mut n: usize = 0;
    let mut i: usize = from;
    assert(v@.subrange(from as int, from as int) =~= Seq::<char>::empty());
    while i < v.len()
        invariant
            from <= i <= v.len(),
            n <= i - from,
            n == occurrences(v@.subrange(from as int, i as int), sep),
        decreases v.len() - i,
    {
        assert(v@.subrange(from as int, i + 1).drop_last() =~= v@.subrange(from as int, i as int));
        if v[i] == sep {
            n = n + 1;
        }
        i = i + 1;
    }
    assert(v@.subrange(from as int, v.len() as int) =~= v@.skip(from as int));
    n
}

/// `p` without what a path may end in and still name the same file: slashes,
/// and components that are a single dot.
pub open spec fn trim_trailing(p: Seq<char>) -> Seq<char>
    decreases p.len(),
{
    if p.len() == 0 {
        p
    } else if p.last() == '/' {
        trim_trailing(p.drop_last())
    } else if p.last() == '.' && (p.len() == 1 || p[p.len() - 2] == '/') {
        trim_trailing(p.drop_last())
    } else {
        p
    }
}

/// The last component of the path `p`, the name of the file it leads to.
/// A path that is empty, is the root, or ends in `.` alone or in `..` has
/// none.
pub open spec fn leaf_of(p: Seq<char>) -> Option<Seq<char>> {
    let trimmed = trim_trailing(p);
    let last = after_last(trimmed, '/');
    if trimmed.len() == 0 || last == seq!['.', '.'] {
        None
    } else {
        Some(last)
    }
}

/// The last component of `path`, if it has one.
pub fn leaf_name(path: &str) -> (leaf: Option<String>)
    ensures
        leaf is Some <==> leaf_of(path@) is Some,
        leaf matches Some(name) ==> leaf_of(path@) == Some(name@),
{
    let chars = chars_of(path);
    let mut end: usize = chars.len();
    assert(chars@.take(end as int) =~= chars@);
    while end > 0 && (chars[end - 1] == '/' || (chars[end - 1] == '.' && (end == 1 || chars[end
        - 2] == '/')))
        invariant
            end <= chars.len(),
            trim_trailing(chars@) == trim_trailing(chars@.take(end as int)),
        decreases end,
    {
        assert(chars@.take(end as int).drop_last() =~= chars@.take(end - 1));
        end = end - 1;
    }
    let ghost trimmed = chars@.take(end as int);
    assert(trim_trailing(chars@) == trimmed);
    if end == 0 {
        return None;
    }
    let start = last_part_start(&chars, end, '/');
    if end - start == 2 && chars[start] == '.' && chars[start + 1] == '.' {
        assert(chars@.subrange(start as int, end as int) =~= seq!['.', '.']);
        return None;
    }
    proof {
        let last = chars@.subrange(start as int, end as int);
        if last == seq!['.', '.'] {
            assert(last.len() == 2);
            assert(last[0] == '.' && last[1] == '.');
        }
    }
    Some(string_of(&chars, start, end))
}

} // verus!
