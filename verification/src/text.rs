//! Character-level text: trimming, splitting, decimal numbers, quoting.

use vstd::prelude::*;

verus! {

/// `String::push`: appends one character.
pub assume_specification[ String::push ](s: &mut String, c: char)
    ensures
        final(s)@ == old(s)@.push(c),
;

/// The characters of `s`, in order.
pub fn chars_of(s: &str) -> (out: Vec<char>)
    ensures
        out@ == s@,
{
    let mut out: Vec<char> = Vec::new();
    for c in it: s.chars()
        invariant
            out@ == s@.subrange(0, it.index()),
            it.seq() == s@,
    {
        out.push(c);
        assert(out@ =~= s@.subrange(0, it.index() + 1));
    }
    assert(out@ =~= s@);
    out
}

/// The string made of `chars`.
pub fn string_of(chars: &Vec<char>) -> (out: String)
    ensures
        out@ == chars@,
{
    let mut out = String::new();
    let mut i: usize = 0;
    while i < chars.len()
        invariant
            i <= chars.len(),
            out@ == chars@.subrange(0, i as int),
        decreases chars.len() - i,
    {
        out.push(chars[i]);
        i = i + 1;
        assert(out@ =~= chars@.subrange(0, i as int));
    }
    assert(out@ =~= chars@);
    out
}

/// Whether two texts are equal.
pub fn same_text(a: &str, b: &str) -> (out: bool)
    ensures
        out == (a@ == b@),
{
    let x = chars_of(a);
    let y = chars_of(b);
    same_chars(&x, &y)
}

pub fn same_chars(x: &Vec<char>, y: &Vec<char>) -> (out: bool)
    ensures
        out == (x@ == y@),
{
    if x.len() != y.len() {
        return false;
    }
    let mut i: usize = 0;
    while i < x.len()
        invariant
            i <= x.len() == y.len(),
            forall|k: int| 0 <= k < i ==> x[k] == y[k],
        decreases x.len() - i,
    {
        if x[i] != y[i] {
            return false;
        }
        i = i + 1;
    }
    assert(x@ =~= y@);
    true
}

/// Whether `x` spells `word`.
pub fn spells(x: &Vec<char>, word: &str) -> (out: bool)
    ensures
        out == (x@ == word@),
{
    let y = chars_of(word);
    same_chars(x, &y)
}

/// White space as Unicode's `White_Space` property lists it.
pub open spec fn is_white(c: char) -> bool {
    ||| '\u{9}' <= c <= '\u{d}'
    ||| c == '\u{20}'
    ||| c == '\u{85}'
    ||| c == '\u{a0}'
    ||| c == '\u{1680}'
    ||| '\u{2000}' <= c <= '\u{200a}'
    ||| '\u{2028}' <= c <= '\u{2029}'
    ||| c == '\u{202f}'
    ||| c == '\u{205f}'
    ||| c == '\u{3000}'
}

fn white(c: char) -> (out: bool)
    ensures
        out == is_white(c),
{
    ('\u{9}' <= c && c <= '\u{d}') || c == '\u{20}' || c == '\u{85}' || c == '\u{a0}' || c
        == '\u{1680}' || ('\u{2000}' <= c && c <= '\u{200a}') || c == '\u{2028}' || c
        == '\u{2029}' || c == '\u{202f}' || c == '\u{205f}' || c == '\u{3000}'
}

/// `s` without leading white space.
pub open spec fn trimmed_start(s: Seq<char>) -> Seq<char>
    decreases s.len(),
{
    if s.len() > 0 && is_white(s[0]) {
        trimmed_start(s.drop_first())
    } else {
        s
    }
}

/// `s` without trailing white space.
pub open spec fn trimmed_end(s: Seq<char>) -> Seq<char>
    decreases s.len(),
{
    if s.len() > 0 && is_white(s.last()) {
        trimmed_end(s.drop_last())
    } else {
        s
    }
}

/// `s` without white space at either end.
pub open spec fn trimmed(s: Seq<char>) -> Seq<char> {
    trimmed_end(trimmed_start(s))
}

pub fn trim_end(s: &Vec<char>) -> (out: Vec<char>)
    ensures
        out@ == trimmed_end(s@),
{
    let mut to: usize = s.len();
    assert(s@.take(s.len() as int) =~= s@);
    while to > 0 && white(s[to - 1])
        invariant
            to <= s.len(),
            trimmed_end(s@) == trimmed_end(s@.take(to as int)),
        decreases to,
    {
        assert(s@.take(to as int).drop_last() =~= s@.take(to - 1));
        to = to - 1;
    }
    let mut out: Vec<char> = Vec::new();
    let mut i: usize = 0;
    while i < to
        invariant
            i <= to <= s.len(),
            out@ == s@.take(i as int),
        decreases to - i,
    {
        out.push(s[i]);
        i = i + 1;
        assert(out@ =~= s@.take(i as int));
    }
    out
}

pub fn trim(s: &Vec<char>) -> (out: Vec<char>)
    ensures
        out@ == trimmed(s@),
{
    let mut from: usize = 0;
    let mut to: usize = s.len();
    assert(s@.subrange(0, s.len() as int) =~= s@);
    while from < to && white(s[from])
        invariant
            from <= to == s.len(),
            trimmed_start(s@) == trimmed_start(s@.subrange(from as int, to as int)),
        decreases to - from,
    {
        assert(s@.subrange(from as int, to as int).drop_first() =~= s@.subrange(
            from + 1,
            to as int,
        ));
        from = from + 1;
    }
    let ghost start = s@.subrange(from as int, to as int);
    while from < to && white(s[to - 1])
        invariant
            from <= to <= s.len(),
            trimmed_end(start) == trimmed_end(s@.subrange(from as int, to as int)),
        decreases to - from,
    {
        assert(s@.subrange(from as int, to as int).drop_last() =~= s@.subrange(
            from as int,
            to - 1,
        ));
        to = to - 1;
    }
    let mut out: Vec<char> = Vec::new();
    let mut i: usize = from;
    while i < to
        invariant
            from <= i <= to <= s.len(),
            out@ == s@.subrange(from as int, i as int),
        decreases to - i,
    {
        out.push(s[i]);
        i = i + 1;
        assert(out@ =~= s@.subrange(from as int, i as int));
    }
    out
}

/// `s` cut at every `sep`; always at least one piece.
pub open spec fn pieces(s: Seq<char>, sep: char) -> Seq<Seq<char>>
    decreases s.len(),
{
    if s.len() == 0 {
        seq![Seq::empty()]
    } else {
        let init = pieces(s.drop_last(), sep);
        if s.last() == sep {
            init.push(Seq::empty())
        } else {
            init.drop_last().push(init.last().push(s.last()))
        }
    }
}

pub open spec fn views(parts: Seq<Vec<char>>) -> Seq<Seq<char>> {
    parts.map_values(|p: Vec<char>| p@)
}

pub fn split(s: &Vec<char>, sep: char) -> (out: Vec<Vec<char>>)
    ensures
        views(out@) == pieces(s@, sep),
        out.len() >= 1,
{
    let mut out: Vec<Vec<char>> = Vec::new();
    let mut current: Vec<char> = Vec::new();
    let mut i: usize = 0;
    assert(s@.subrange(0, 0) =~= Seq::<char>::empty());
    assert(views(out@).push(current@) =~= seq![Seq::<char>::empty()]);
    while i < s.len()
        invariant
            i <= s.len(),
            views(out@).push(current@) == pieces(s@.subrange(0, i as int), sep),
        decreases s.len() - i,
    {
        assert(s@.subrange(0, i + 1).drop_last() =~= s@.subrange(0, i as int));
        let ghost before = views(out@).push(current@);
        assert(before.drop_last() =~= views(out@));
        if s[i] == sep {
            let ghost prior = views(out@);
            let ghost piece = current@;
            out.push(current);
            current = Vec::new();
            assert(views(out@) =~= prior.push(piece));
        } else {
            current.push(s[i]);
        }
        i = i + 1;
    }
    assert(s@.subrange(0, i as int) =~= s@);
    let ghost prior = views(out@);
    let ghost piece = current@;
    out.push(current);
    assert(views(out@) =~= prior.push(piece));
    out
}

/// A decimal digit.
pub open spec fn is_digit(c: char) -> bool {
    '0' <= c <= '9'
}

pub open spec fn all_digits(s: Seq<char>) -> bool {
    forall|i: int| 0 <= i < s.len() ==> is_digit(#[trigger] s[i])
}

/// The number that a string of digits spells.
pub open spec fn decimal_value(s: Seq<char>) -> nat
    decreases s.len(),
{
    if s.len() == 0 {
        0
    } else {
        (10 * decimal_value(s.drop_last()) + (s.last() as int - '0' as int)) as nat
    }
}

/// `s` without one leading plus sign.
pub open spec fn without_plus(s: Seq<char>) -> Seq<char> {
    if s.len() > 0 && s[0] == '+' {
        s.drop_first()
    } else {
        s
    }
}

/// The unsigned number that `s` spells: an optional plus sign, then one or
/// more digits whose value fits.
pub open spec fn unsigned(s: Seq<char>) -> Option<u64> {
    let digits = without_plus(s);
    if digits.len() > 0 && all_digits(digits) && decimal_value(digits) <= u64::MAX {
        Some(decimal_value(digits) as u64)
    } else {
        None
    }
}

pub fn parse_unsigned(s: &Vec<char>) -> (out: Option<u64>)
    ensures
        out == unsigned(s@),
{
    let ghost digits = without_plus(s@);
    let start: usize = if s.len() > 0 && s[0] == '+' {
        1
    } else {
        0
    };
    assert(digits =~= s@.subrange(start as int, s.len() as int));
    if start == s.len() {
        return None;
    }
    let mut value: u64 = 0;
    let mut too_big = false;
    let mut i: usize = start;
    assert(digits.subrange(0, 0) =~= Seq::<char>::empty());
    while i < s.len()
        invariant
            start <= i <= s.len(),
            start < s.len(),
            digits == without_plus(s@),
            digits == s@.subrange(start as int, s.len() as int),
            forall|k: int| 0 <= k < i - start ==> is_digit(#[trigger] digits[k]),
            too_big ==> decimal_value(digits.subrange(0, i - start)) > u64::MAX,
            !too_big ==> value == decimal_value(digits.subrange(0, i - start)),
        decreases s.len() - i,
    {
        let c = s[i];
        assert(digits[i - start] == c);
        if !('0' <= c && c <= '9') {
            assert(!is_digit(digits[i - start]));
            return None;
        }
        assert(digits.subrange(0, i - start + 1).drop_last() =~= digits.subrange(0, i - start));
        let d: u64 = c as u64 - '0' as u64;
        if !too_big {
            if value > (u64::MAX - d) / 10 {
                too_big = true;
            } else {
                value = value * 10 + d;
            }
        }
        i = i + 1;
    }
    assert(digits.subrange(0, i - start) =~= digits);
    if too_big {
        None
    } else {
        Some(value)
    }
}

/// The digits of `n`, without leading zeros.
pub open spec fn decimal_text(n: nat) -> Seq<char>
    decreases n,
{
    if n < 10 {
        seq![('0' as int + n) as char]
    } else {
        decimal_text(n / 10).push(('0' as int + n % 10) as char)
    }
}

fn digit(d: u64) -> (c: char)
    requires
        d < 10,
    ensures
        c == ('0' as int + d) as char,
{
    (48u8 + d as u8) as char
}

pub fn decimal_chars(n: u64) -> (out: Vec<char>)
    ensures
        out@ == decimal_text(n as nat),
    decreases n,
{
    if n < 10 {
        let mut out: Vec<char> = Vec::new();
        out.push(digit(n));
        assert(out@ =~= decimal_text(n as nat));
        out
    } else {
        let mut out = decimal_chars(n / 10);
        out.push(digit(n % 10));
        out
    }
}

/// Appends the digits of `n`.
pub fn push_decimal(out: &mut String, n: u64)
    ensures
        final(out)@ == old(out)@ + decimal_text(n as nat),
{
    let digits = decimal_chars(n);
    push_chars(out, &digits);
}

/// Appends `chars`.
pub fn push_chars(out: &mut String, chars: &Vec<char>)
    ensures
        final(out)@ == old(out)@ + chars@,
{
    let mut i: usize = 0;
    let ghost start = out@;
    assert(start + chars@.subrange(0, 0) =~= start);
    while i < chars.len()
        invariant
            i <= chars.len(),
            out@ == start + chars@.subrange(0, i as int),
        decreases chars.len() - i,
    {
        out.push(chars[i]);
        i = i + 1;
        assert(out@ =~= start + chars@.subrange(0, i as int));
    }
    assert(chars@.subrange(0, i as int) =~= chars@);
}

/// Reading back the digits of a number gives the number.
pub proof fn decimal_round_trip(n: nat)
    ensures
        decimal_text(n).len() > 0,
        all_digits(decimal_text(n)),
        decimal_value(decimal_text(n)) == n,
    decreases n,
{
    let s = decimal_text(n);
    if n < 10 {
        assert(s.drop_last() =~= Seq::<char>::empty());
        assert(decimal_value(s.drop_last()) == 0);
    } else {
        decimal_round_trip(n / 10);
        assert(s.drop_last() =~= decimal_text(n / 10));
        assert forall|i: int| 0 <= i < s.len() implies is_digit(#[trigger] s[i]) by {
            if i < s.len() - 1 {
                assert(s[i] == decimal_text(n / 10)[i]);
            }
        }
    }
}

/// The digits of a number parse as that number.
pub proof fn decimal_text_parses(n: u64)
    ensures
        unsigned(decimal_text(n as nat)) == Some(n),
{
    decimal_round_trip(n as nat);
    assert(is_digit(decimal_text(n as nat)[0]));
}

/// The digits of `n`, after a minus sign where it is negative.
pub open spec fn signed_text(n: int) -> Seq<char> {
    if n < 0 {
        seq!['-'] + decimal_text((-n) as nat)
    } else {
        decimal_text(n as nat)
    }
}

/// Appends `n` in decimal.
pub fn push_signed(out: &mut String, n: i64)
    ensures
        final(out)@ == old(out)@ + signed_text(n as int),
{
    let ghost start = out@;
    if n < 0 {
        out.push('-');
        let positive: u64 = (0 - n as i128) as u64;
        push_decimal(out, positive);
        assert(out@ =~= start + signed_text(n as int));
    } else {
        push_decimal(out, n as u64);
    }
}

/// `parts` one after the other, `sep` between neighbours.
pub open spec fn joined(parts: Seq<Seq<char>>, sep: Seq<char>) -> Seq<char>
    decreases parts.len(),
{
    if parts.len() == 0 {
        Seq::empty()
    } else if parts.len() == 1 {
        parts[0]
    } else {
        joined(parts.drop_last(), sep) + sep + parts.last()
    }
}

/// One more part behind those already joined.
pub proof fn joined_push(parts: Seq<Seq<char>>, part: Seq<char>, sep: Seq<char>)
    ensures
        joined(parts.push(part), sep) == (if parts.len() == 0 {
            part
        } else {
            joined(parts, sep) + sep + part
        }),
{
    assert(parts.push(part).drop_last() =~= parts);
}

/// An upper-case ASCII letter as its lower-case one, any other character as
/// it is.
pub open spec fn lower(c: char) -> char {
    if 'A' <= c <= 'Z' {
        (c as int + 32) as char
    } else {
        c
    }
}

/// `s` with ASCII letters in lower case.
pub open spec fn lowered(s: Seq<char>) -> Seq<char> {
    s.map_values(|c: char| lower(c))
}

pub fn lower_chars(s: &Vec<char>) -> (out: Vec<char>)
    ensures
        out@ == lowered(s@),
{
    let mut out: Vec<char> = Vec::new();
    let mut i: usize = 0;
    while i < s.len()
        invariant
            i <= s.len(),
            out.len() == i,
            forall|k: int| 0 <= k < i ==> #[trigger] out[k] == lower(s[k]),
        decreases s.len() - i,
    {
        let c = s[i];
        if 'A' <= c && c <= 'Z' {
            out.push((c as u8 + 32) as char);
        } else {
            out.push(c);
        }
        i = i + 1;
    }
    assert(out@ =~= lowered(s@));
    out
}

/// `a` comes before `b` in dictionary order by code point.
pub open spec fn text_below(a: Seq<char>, b: Seq<char>) -> bool
    decreases a.len(),
{
    if b.len() == 0 {
        false
    } else if a.len() == 0 {
        true
    } else if a[0] != b[0] {
        a[0] < b[0]
    } else {
        text_below(a.drop_first(), b.drop_first())
    }
}

/// Of two texts, one comes before the other or they are equal.
pub proof fn text_order_is_total(a: Seq<char>, b: Seq<char>)
    ensures
        text_below(a, b) || text_below(b, a) || a == b,
        !(text_below(a, b) && text_below(b, a)),
        text_below(a, b) ==> a != b,
    decreases a.len(),
{
    if a.len() == 0 || b.len() == 0 {
        if a.len() == 0 && b.len() == 0 {
            assert(a =~= b);
        }
    } else if a[0] == b[0] {
        text_order_is_total(a.drop_first(), b.drop_first());
        if a.drop_first() == b.drop_first() {
            assert(a =~= seq![a[0]] + a.drop_first());
            assert(b =~= seq![b[0]] + b.drop_first());
        }
    }
}

/// Dictionary order is transitive.
pub proof fn text_order_is_transitive(a: Seq<char>, b: Seq<char>, c: Seq<char>)
    requires
        text_below(a, b),
        text_below(b, c),
    ensures
        text_below(a, c),
    decreases a.len(),
{
    if a.len() > 0 && b.len() > 0 && c.len() > 0 {
        if a[0] == b[0] && b[0] == c[0] {
            text_order_is_transitive(a.drop_first(), b.drop_first(), c.drop_first());
        }
    }
}

/// Whether `a` comes before `b` in dictionary order by code point.
pub fn comes_before(a: &str, b: &str) -> (out: bool)
    ensures
        out == text_below(a@, b@),
{
    let x = chars_of(a);
    let y = chars_of(b);
    let mut i: usize = 0;
    assert(x@.skip(0) =~= x@);
    assert(y@.skip(0) =~= y@);
    while i < x.len() && i < y.len()
        invariant
            i <= x.len(),
            i <= y.len(),
            x@ == a@,
            y@ == b@,
            text_below(x@, y@) == text_below(x@.skip(i as int), y@.skip(i as int)),
        decreases x.len() - i,
    {
        if x[i] != y[i] {
            return x[i] < y[i];
        }
        assert(x@.skip(i as int).drop_first() =~= x@.skip(i + 1));
        assert(y@.skip(i as int).drop_first() =~= y@.skip(i + 1));
        i = i + 1;
    }
    i < y.len()
}

/// How the standard library's debug format writes a string: in double quotes,
/// with escapes.
pub uninterp spec fn debug_quoted(s: Seq<char>) -> Seq<char>;

/// The standard library's debug format of a string (`{:?}`). The result
/// depends on the string's characters alone; how it escapes them is not
/// stated.
#[verifier::external_body]
pub(crate) fn quoted(s: &str) -> (out: String)
    ensures
        out@ == debug_quoted(s@),
{
    format!("{s:?}")
}

/// Trimming takes away blanks at both ends and nothing else: what is left
/// neither begins nor ends with one.
pub proof fn trimming_takes_only_blanks(s: Seq<char>)
    ensures
        exists|i: int, j: int|
            {
                &&& 0 <= i <= j <= s.len()
                &&& trimmed(s) == #[trigger] s.subrange(i, j)
                &&& forall|k: int| 0 <= k < i || j <= k < s.len() ==> is_white(#[trigger] s[k])
            },
        trimmed(s).len() > 0 ==> !is_white(trimmed(s)[0]) && !is_white(trimmed(s).last()),
{
    front_goes(s);
    let i = choose|i: int|
        {
            &&& 0 <= i <= s.len()
            &&& trimmed_start(s) == #[trigger] s.subrange(i, s.len() as int)
            &&& forall|k: int| 0 <= k < i ==> is_white(#[trigger] s[k])
        };
    let t = trimmed_start(s);
    back_goes(t);
    let j = choose|j: int|
        {
            &&& 0 <= j <= t.len()
            &&& trimmed_end(t) == #[trigger] t.subrange(0, j)
            &&& forall|k: int| j <= k < t.len() ==> is_white(#[trigger] t[k])
        };
    assert(trimmed(s) =~= s.subrange(i, i + j));
    assert forall|k: int| 0 <= k < i || i + j <= k < s.len() implies is_white(#[trigger] s[k]) by {
        if k >= i + j {
            assert(t[k - i] == s[k]);
        }
    }
}

proof fn front_goes(s: Seq<char>)
    ensures
        exists|i: int|
            {
                &&& 0 <= i <= s.len()
                &&& trimmed_start(s) == #[trigger] s.subrange(i, s.len() as int)
                &&& forall|k: int| 0 <= k < i ==> is_white(#[trigger] s[k])
            },
        trimmed_start(s).len() > 0 ==> !is_white(trimmed_start(s)[0]),
    decreases s.len(),
{
    if s.len() > 0 && is_white(s[0]) {
        let rest = s.drop_first();
        front_goes(rest);
        let i = choose|i: int|
            {
                &&& 0 <= i <= rest.len()
                &&& trimmed_start(rest) == #[trigger] rest.subrange(i, rest.len() as int)
                &&& forall|k: int| 0 <= k < i ==> is_white(#[trigger] rest[k])
            };
        assert(trimmed_start(s) =~= s.subrange(i + 1, s.len() as int));
        assert forall|k: int| 0 <= k < i + 1 implies is_white(#[trigger] s[k]) by {
            if k > 0 {
                assert(rest[k - 1] == s[k]);
            }
        }
    } else {
        assert(s.subrange(0, s.len() as int) =~= s);
    }
}

proof fn back_goes(s: Seq<char>)
    ensures
        exists|j: int|
            {
                &&& 0 <= j <= s.len()
                &&& trimmed_end(s) == #[trigger] s.subrange(0, j)
                &&& forall|k: int| j <= k < s.len() ==> is_white(#[trigger] s[k])
            },
        trimmed_end(s).len() > 0 ==> !is_white(trimmed_end(s).last()) && trimmed_end(s)[0] == s[0],
    decreases s.len(),
{
    if s.len() > 0 && is_white(s.last()) {
        let rest = s.drop_last();
        back_goes(rest);
        let j = choose|j: int|
            {
                &&& 0 <= j <= rest.len()
                &&& trimmed_end(rest) == #[trigger] rest.subrange(0, j)
                &&& forall|k: int| j <= k < rest.len() ==> is_white(#[trigger] rest[k])
            };
        assert(trimmed_end(s) =~= s.subrange(0, j));
        assert forall|k: int| j <= k < s.len() implies is_white(#[trigger] s[k]) by {
            if k < rest.len() {
                assert(rest[k] == s[k]);
            }
        }
    } else {
        assert(s.subrange(0, s.len() as int) =~= s);
    }
}

/// Among the ASCII characters the blanks are the space, the tabs and the ends of
/// lines.
pub proof fn ascii_blanks(c: char)
    requires
        c as int <= 127,
    ensures
        is_white(c) <==> c == ' ' || c == '\t' || c == '\n' || c == '\r' || c as int == 11 || c
            as int == 12,
{
}

/// The pieces of a text, put together with the separator between them, are the
/// text again, and no piece holds a separator.
pub proof fn pieces_join_again(s: Seq<char>, sep: char)
    ensures
        pieces(s, sep).len() > 0,
        joined(pieces(s, sep), seq![sep]) == s,
        forall|i: int|
            0 <= i < pieces(s, sep).len() ==> !(#[trigger] pieces(s, sep)[i]).contains(sep),
    decreases s.len(),
{
    if s.len() == 0 {
        assert(joined(pieces(s, sep), seq![sep]) =~= s);
        assert(!pieces(s, sep)[0].contains(sep));
    } else {
        let init = pieces(s.drop_last(), sep);
        let all = pieces(s, sep);
        pieces_join_again(s.drop_last(), sep);
        if s.last() == sep {
            joined_push(init, Seq::empty(), seq![sep]);
            assert(joined(all, seq![sep]) =~= s);
        } else {
            let head = init.drop_last();
            let last = init.last();
            assert(init =~= head.push(last));
            joined_push(head, last, seq![sep]);
            joined_push(head, last.push(s.last()), seq![sep]);
            assert(all =~= head.push(last.push(s.last())));
            assert(joined(all, seq![sep]) =~= joined(init, seq![sep]).push(s.last()));
            assert(joined(all, seq![sep]) =~= s);
            assert forall|i: int| 0 <= i < all.len() implies !(#[trigger] all[i]).contains(
                sep,
            ) by {
                if i < head.len() {
                    assert(all[i] == init[i]);
                } else {
                    let grown = last.push(s.last());
                    assert(!init[init.len() - 1].contains(sep));
                    if grown.contains(sep) {
                        let k = choose|k: int| 0 <= k < grown.len() && grown[k] == sep;
                        assert(last[k] == sep);
                    }
                }
            }
        }
    }
}

/// A number is read digit by digit, a plus in front changes nothing, and what is
/// not made of digits is no number.
pub proof fn numbers_are_digits(s: Seq<char>)
    ensures
        s.len() == 0 || s[0] != '+' ==> unsigned(seq!['+'] + s) == unsigned(s),
        unsigned(s) matches Some(n) ==> (s[0] != '+' ==> all_digits(s) && decimal_value(s) == n),
        unsigned(s) matches Some(n) ==> (s[0] == '+' ==> all_digits(s.drop_first())
            && decimal_value(s.drop_first()) == n),
        s.len() > 0 && all_digits(s) && decimal_value(s) <= u64::MAX ==> unsigned(s) is Some,
        unsigned(Seq::empty()) is None,
        unsigned(seq!['+']) is None,
{
    assert((seq!['+'] + s).drop_first() =~= s);
    assert(seq!['+'].drop_first() =~= Seq::<char>::empty());
    if s.len() > 0 && all_digits(s) {
        assert(is_digit(s[0]));
    }
}

/// A negative number reads as its magnitude behind a minus.
pub proof fn negatives_carry_a_minus(n: int)
    requires
        n > 0,
    ensures
        signed_text(-n) == seq!['-'] + signed_text(n),
        all_digits(signed_text(n)),
        decimal_value(signed_text(n)) == n,
{
    decimal_round_trip(n as nat);
}

/// Lowering turns a capital into its small letter and leaves every other
/// character, so doing it again changes nothing.
pub proof fn lowering_touches_capitals_only(s: Seq<char>)
    ensures
        lowered(s).len() == s.len(),
        lowered(lowered(s)) == lowered(s),
        forall|i: int|
            0 <= i < s.len() && 65 <= s[i] as int <= 90 ==> #[trigger] lowered(s)[i] as int == s[i]
                as int + 32,
        forall|i: int|
            0 <= i < s.len() && !(65 <= s[i] as int <= 90) ==> #[trigger] lowered(s)[i] == s[i],
{
    assert(lowered(lowered(s)) =~= lowered(s));
}

/// Texts are ordered by the first character in which they differ; a text comes
/// before what continues it.
pub proof fn first_difference_orders(
    shared: Seq<char>,
    a: char,
    b: char,
    x: Seq<char>,
    y: Seq<char>,
)
    ensures
        a < b ==> text_below(shared + (seq![a] + x), shared + (seq![b] + y)),
        text_below(shared, shared + x) <==> x.len() > 0,
        !text_below(shared + x, shared),
    decreases shared.len(),
{
    if shared.len() == 0 {
        assert((seq![a] + x)[0] == a);
        assert((seq![b] + y)[0] == b);
        assert(shared + (seq![a] + x) =~= seq![a] + x);
        assert(shared + (seq![b] + y) =~= seq![b] + y);
    } else {
        let rest = shared.drop_first();
        first_difference_orders(rest, a, b, x, y);
        assert((shared + (seq![a] + x)).drop_first() =~= rest + (seq![a] + x));
        assert((shared + (seq![b] + y)).drop_first() =~= rest + (seq![b] + y));
        assert((shared + x).drop_first() =~= rest + x);
        assert((shared + x)[0] == shared[0]);
    }
}

} // verus!
