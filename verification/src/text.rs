//! Character-level text: the model of a string as a `Seq<char>`, and the
//! executable pieces (splitting, joining, number formatting) the shell is
//! built from.
use vstd::prelude::*;

verus! {

// ---------------------------------------------------------------------------
// Specification
// ---------------------------------------------------------------------------

/// The Unicode `White_Space` property, the set that `char::is_whitespace` tests.
pub open spec fn is_space(c: char) -> bool {
    ||| '\t' <= c <= '\r'
    ||| c == ' '
    ||| c == '\u{85}'
    ||| c == '\u{a0}'
    ||| c == '\u{1680}'
    ||| '\u{2000}' <= c <= '\u{200a}'
    ||| c == '\u{2028}'
    ||| c == '\u{2029}'
    ||| c == '\u{202f}'
    ||| c == '\u{205f}'
    ||| c == '\u{3000}'
}

/// The maximal runs of non-whitespace characters of `s`, in order.
pub open spec fn words(s: Seq<char>) -> Seq<Seq<char>>
    decreases s.len(),
{
    if s.len() == 0 {
        seq![]
    } else {
        let p = s.drop_last();
        let c = s.last();
        let w = words(p);
        if is_space(c) {
            w
        } else if p.len() > 0 && !is_space(p.last()) {
            w.update(w.len() - 1, w.last().push(c))
        } else {
            w.push(seq![c])
        }
    }
}

/// The pieces of `s` between occurrences of `sep`; there is always at least one.
pub open spec fn pieces(s: Seq<char>, sep: char) -> Seq<Seq<char>>
    decreases s.len(),
{
    if s.len() == 0 {
        seq![seq![]]
    } else {
        let p = pieces(s.drop_last(), sep);
        if s.last() == sep {
            p.push(seq![])
        } else {
            p.update(p.len() - 1, p.last().push(s.last()))
        }
    }
}

/// `parts` glued together with `sep` between neighbours.
pub open spec fn joined(parts: Seq<Seq<char>>, sep: Seq<char>) -> Seq<char>
    decreases parts.len(),
{
    if parts.len() == 0 {
        seq![]
    } else if parts.len() == 1 {
        parts[0]
    } else {
        joined(parts.drop_last(), sep) + sep + parts.last()
    }
}

/// ASCII lower-casing of one character.
pub open spec fn ascii_lower(c: char) -> char {
    if 'A' <= c <= 'Z' {
        (c as int + 32) as char
    } else {
        c
    }
}

pub open spec fn lowered(s: Seq<char>) -> Seq<char> {
    s.map_values(|c: char| ascii_lower(c))
}

pub open spec fn is_digit(c: char) -> bool {
    '0' <= c <= '9'
}

pub open spec fn all_digits(s: Seq<char>) -> bool {
    forall|i: int| 0 <= i < s.len() ==> is_digit(#[trigger] s[i])
}

/// The number that a string of decimal digits denotes.
pub open spec fn digits_value(s: Seq<char>) -> nat
    decreases s.len(),
{
    if s.len() == 0 {
        0
    } else {
        digits_value(s.drop_last()) * 10 + (s.last() as nat - '0' as nat) as nat
    }
}

/// The character of a digit below sixteen, in lower case.
pub open spec fn digit_char(d: nat) -> char {
    if d < 10 {
        (48 + d) as char
    } else {
        (87 + d) as char
    }
}

/// Decimal digits of `n`, most significant first, with no leading zero.
pub open spec fn decimal_digits(n: nat) -> Seq<char>
    decreases n,
{
    if n < 10 {
        seq![digit_char(n)]
    } else {
        decimal_digits(n / 10).push(digit_char(n % 10))
    }
}

/// Lower-case hexadecimal digits of `n`, most significant first, with no leading zero.
pub open spec fn hex_digits(n: nat) -> Seq<char>
    decreases n,
{
    if n < 16 {
        seq![digit_char(n)]
    } else {
        hex_digits(n / 16).push(digit_char(n % 16))
    }
}

/// The text that `{}` gives an integer: a minus sign, then the decimal digits.
pub open spec fn decimal_text(i: int) -> Seq<char> {
    if i < 0 {
        seq!['-'] + decimal_digits((-i) as nat)
    } else {
        decimal_digits(i as nat)
    }
}

/// The text that `{:#x}` gives a 64-bit integer: `0x` and the lower-case hex
/// digits of its two's complement bit pattern.
pub open spec fn hex_text(i: i64) -> Seq<char> {
    seq!['0', 'x'] + hex_digits((i as u64) as nat)
}

// ---------------------------------------------------------------------------
// Executable helpers
// ---------------------------------------------------------------------------

/// Appends one character to a string (`String::push`).
#[verifier::external_body]
pub(crate) fn push_char(s: &mut String, c: char)
    ensures
        final(s)@ == old(s)@.push(c),
{
    s.push(c);
}

/// The characters of `s`, in order.
pub fn chars_of(s: &str) -> (v: Vec<char>)
    ensures
        v@ == s@,
{
    let mut v: Vec<char> = Vec::new();
    for c in it: s.chars()
        invariant
            v@ == it.seq().take(it.index() as int),
            it.seq() == s@,
    {
        v.push(c);
    }
    v
}

/// A string holding `v[lo..hi]`.
pub fn string_of(v: &Vec<char>, lo: usize, hi: usize) -> (s: String)
    requires
        lo <= hi <= v.len(),
    ensures
        s@ == v@.subrange(lo as int, hi as int),
{
    let mut s = String::new();
    let mut i = lo;
    while i < hi
        invariant
            lo <= i <= hi <= v.len(),
            s@ == v@.subrange(lo as int, i as int),
        decreases hi - i,
    {
        push_char(&mut s, v[i]);
        assert(v@.subrange(lo as int, i + 1) == v@.subrange(lo as int, i as int).push(v@[i as int]));
        i += 1;
    }
    s
}

/// Whether two character vectors hold the same characters.
pub fn same_chars(a: &Vec<char>, b: &Vec<char>) -> (r: bool)
    ensures
        r == (a@ == b@),
{
    if a.len() != b.len() {
        return false;
    }
    let mut i: usize = 0;
    while i < a.len()
        invariant
            a.len() == b.len(),
            i <= a.len(),
            a@.take(i as int) == b@.take(i as int),
        decreases a.len() - i,
    {
        if a[i] != b[i] {
            assert(a@[i as int] != b@[i as int]);
            return false;
        }
        assert(a@.take(i + 1) == a@.take(i as int).push(a@[i as int]));
        assert(b@.take(i + 1) == b@.take(i as int).push(b@[i as int]));
        i += 1;
    }
    assert(a@ == a@.take(a.len() as int));
    assert(b@ == b@.take(b.len() as int));
    true
}

/// Whether `s` reads exactly `lit`.
pub fn text_is(s: &str, lit: &str) -> (r: bool)
    ensures
        r == (s@ == lit@),
{
    let a = chars_of(s);
    let b = chars_of(lit);
    same_chars(&a, &b)
}

/// Whether `c` is whitespace (`char::is_whitespace`).
pub fn space(c: char) -> (r: bool)
    ensures
        r == is_space(c),
{
    ('\t' <= c && c <= '\r') || c == ' ' || c == '\u{85}' || c == '\u{a0}' || c == '\u{1680}'
        || ('\u{2000}' <= c && c <= '\u{200a}') || c == '\u{2028}' || c == '\u{2029}' || c
        == '\u{202f}' || c == '\u{205f}' || c == '\u{3000}'
}

/// ASCII lower-casing of one character (`char::to_ascii_lowercase`).
pub fn lower_char(c: char) -> (r: char)
    ensures
        r == ascii_lower(c),
{
    if 'A' <= c && c <= 'Z' {
        let v: u8 = (c as u32 + 32) as u8;
        v as char
    } else {
        c
    }
}

/// The ASCII lower-case form of `s` (`str::to_ascii_lowercase`).
pub fn to_lower(s: &str) -> (r: String)
    ensures
        r@ == lowered(s@),
{
    let v = chars_of(s);
    let mut r = String::new();
    let mut i: usize = 0;
    while i < v.len()
        invariant
            i <= v.len(),
            v@ == s@,
            r@ == lowered(v@.take(i as int)),
        decreases v.len() - i,
    {
        push_char(&mut r, lower_char(v[i]));
        assert(lowered(v@.take(i + 1)) == lowered(v@.take(i as int)).push(ascii_lower(v@[i as int])));
        i += 1;
    }
    assert(v@.take(v.len() as int) == v@);
    r
}

/// The digit character for a value below sixteen.
fn digit(d: u64) -> (c: char)
    requires
        d < 16,
    ensures
        c == digit_char(d as nat),
{
    let code: u8 = if d < 10 {
        48 + d as u8
    } else {
        87 + d as u8
    };
    code as char
}

fn push_decimal_digits(out: &mut String, n: u64)
    ensures
        final(out)@ == old(out)@ + decimal_digits(n as nat),
    decreases n,
{
    if n >= 10 {
        push_decimal_digits(out, n / 10);
    }
    push_char(out, digit(n % 10));
}

fn push_hex_digits(out: &mut String, n: u64)
    ensures
        final(out)@ == old(out)@ + hex_digits(n as nat),
    decreases n,
{
    if n >= 16 {
        push_hex_digits(out, n / 16);
    }
    push_char(out, digit(n % 16));
}

/// Appends `n` in decimal, as `{}` writes it.
pub fn push_decimal(out: &mut String, n: i64)
    ensures
        final(out)@ == old(out)@ + decimal_text(n as int),
{
    if n < 0 {
        push_char(out, '-');
        let magnitude: u64 = if n == i64::MIN {
            9223372036854775808u64
        } else {
            (-n) as u64
        };
        push_decimal_digits(out, magnitude);
    } else {
        push_decimal_digits(out, n as u64);
    }
}

/// Appends `n` in decimal, as `{}` writes it.
pub fn push_count(out: &mut String, n: usize)
    ensures
        final(out)@ == old(out)@ + decimal_text(n as int),
{
    push_decimal_digits(out, n as u64);
}

/// Appends `n` as `{:#x}` writes it.
pub fn push_hex(out: &mut String, n: i64)
    ensures
        final(out)@ == old(out)@ + hex_text(n),
{
    push_char(out, '0');
    push_char(out, 'x');
    push_hex_digits(out, n as u64);
}

/// The character sequences that a list of strings holds.
pub open spec fn texts(v: Seq<String>) -> Seq<Seq<char>> {
    v.map_values(|s: String| s@)
}

/// `parts[lo..hi]` glued together with `sep` (`[String]::join`).
pub fn join_range(parts: &[String], lo: usize, hi: usize, sep: &str) -> (r: String)
    requires
        lo <= hi <= parts.len(),
    ensures
        r@ == joined(texts(parts@).subrange(lo as int, hi as int), sep@),
{
    let mut r = String::new();
    let mut i = lo;
    let ghost dv = texts(parts@);
    while i < hi
        invariant
            lo <= i <= hi <= parts.len(),
            dv == texts(parts@),
            r@ == joined(dv.subrange(lo as int, i as int), sep@),
        decreases hi - i,
    {
        let ghost before = dv.subrange(lo as int, i as int);
        assert(dv.subrange(lo as int, i + 1).drop_last() == before);
        if i > lo {
            r.append(sep);
        }
        r.append(parts[i].as_str());
        i += 1;
    }
    r
}

/// The character sequences that a vector of character vectors holds.
pub open spec fn views(r: Seq<Vec<char>>) -> Seq<Seq<char>> {
    r.map_values(|x: Vec<char>| x@)
}

/// The pieces of `v` between occurrences of `sep` (`str::split`).
pub fn split_chars(v: &Vec<char>, sep: char) -> (r: Vec<Vec<char>>)
    ensures
        views(r@) == pieces(v@, sep),
{
    let mut r: Vec<Vec<char>> = Vec::new();
    let mut cur: Vec<char> = Vec::new();
    let mut i: usize = 0;
    while i < v.len()
        invariant
            i <= v.len(),
            views(r@).push(cur@) == pieces(v@.take(i as int), sep),
        decreases v.len() - i,
    {
        let c = v[i];
        let ghost prev = views(r@);
        let ghost prev_cur = cur@;
        assert(v@.take(i + 1).drop_last() == v@.take(i as int));
        assert(v@.take(i + 1).last() == c);
        if c == sep {
            let done = cur;
            r.push(done);
            cur = Vec::new();
            assert(views(r@) =~= prev.push(prev_cur));
            assert(views(r@).push(cur@) =~= prev.push(prev_cur).push(seq![]));
        } else {
            cur.push(c);
            assert(views(r@) =~= prev);
            assert(views(r@).push(cur@) =~= prev.push(prev_cur).update(prev.len() as int, prev_cur.push(c)));
        }
        i += 1;
    }
    assert(v@.take(v.len() as int) == v@);
    let ghost prev = views(r@);
    r.push(cur);
    assert(views(r@) =~= prev.push(cur@));
    r
}

} // verus!
