//! Character-level primitives on page text: lines, substring search,
//! whitespace, and unsigned decimal numbers.
use vstd::prelude::*;
use vstd::std_specs::iter::IteratorSpec;

verus! {

/// The characters of `s`, in order.
pub fn chars_of(s: &str) -> (r: Vec<char>)
    ensures
        r@ == s@,
{
    let mut out: Vec<char> = Vec::new();
    let mut it = s.chars();
    loop
        invariant
            it.obeys_prophetic_iter_laws(),
            it.decrease() is Some,
            out@ + it.remaining() == s@,
        ensures
            out@ == s@,
        decreases it.decrease()->0,
    {
        match it.next() {
            Some(c) => {
                out.push(c);
            },
            None => {
                break;
            },
        }
    }
    out
}

/// Relies on `String::push`: appends one character.
#[verifier::external_body]
pub(crate) fn push_char(s: &mut String, c: char)
    ensures
        final(s)@ == old(s)@.push(c),
{
    s.push(c)
}

/// The string holding the characters of `v`.
pub fn string_from(v: &Vec<char>) -> (r: String)
    ensures
        r@ == v@,
{
    let mut out = String::new();
    let mut i: usize = 0;
    while i < v.len()
        invariant
            i <= v.len(),
            out@ == v@.subrange(0, i as int),
        decreases v.len() - i,
    {
        push_char(&mut out, v[i]);
        i += 1;
        assert(out@ =~= v@.subrange(0, i as int));
    }
    assert(out@ =~= v@);
    out
}

/// The characters of `s` from index `a` up to index `b`.
pub fn slice(s: &Vec<char>, a: usize, b: usize) -> (r: Vec<char>)
    requires
        a <= b <= s.len(),
    ensures
        r@ == s@.subrange(a as int, b as int),
{
    let mut out: Vec<char> = Vec::new();
    let mut i: usize = a;
    while i < b
        invariant
            a <= i <= b <= s.len(),
            out@ == s@.subrange(a as int, i as int),
        decreases b - i,
    {
        out.push(s[i]);
        i += 1;
        assert(out@ =~= s@.subrange(a as int, i as int));
    }
    out
}

/// Unicode `White_Space`: the characters that `char::is_whitespace` accepts.
pub open spec fn is_white_spec(c: char) -> bool {
    let u = c as u32;
    (0x09 <= u && u <= 0x0d) || u == 0x20 || u == 0x85 || u == 0xa0 || u == 0x1680 || (0x2000
        <= u && u <= 0x200a) || u == 0x2028 || u == 0x2029 || u == 0x202f || u == 0x205f || u
        == 0x3000
}

pub fn is_white(c: char) -> (r: bool)
    ensures
        r == is_white_spec(c),
{
    let u = c as u32;
    (0x09 <= u && u <= 0x0d) || u == 0x20 || u == 0x85 || u == 0xa0 || u == 0x1680 || (0x2000
        <= u && u <= 0x200a) || u == 0x2028 || u == 0x2029 || u == 0x202f || u == 0x205f || u
        == 0x3000
}

/// What a forward scan stops at.
#[derive(Clone, Copy)]
pub enum Stop {
    NonWhite,
    White,
    Newline,
    OpenParen,
    WhiteOrClose,
}

pub open spec fn stops(rule: Stop, c: char) -> bool {
    match rule {
        Stop::NonWhite => !is_white_spec(c),
        Stop::White => is_white_spec(c),
        Stop::Newline => c == '\n',
        Stop::OpenParen => c == '(',
        Stop::WhiteOrClose => is_white_spec(c) || c == ')',
    }
}

fn stops_exec(rule: Stop, c: char) -> (r: bool)
    ensures
        r == stops(rule, c),
{
    match rule {
        Stop::NonWhite => !is_white(c),
        Stop::White => is_white(c),
        Stop::Newline => c == '\n',
        Stop::OpenParen => c == '(',
        Stop::WhiteOrClose => is_white(c) || c == ')',
    }
}

/// The first index from `i` on whose character `rule` stops at, or the length of `s`.
pub open spec fn scan(s: Seq<char>, i: int, rule: Stop) -> int
    decreases s.len() - i,
{
    if i >= s.len() {
        s.len() as int
    } else if stops(rule, s[i]) {
        i
    } else {
        scan(s, i + 1, rule)
    }
}

pub fn scan_from(s: &Vec<char>, i: usize, rule: Stop) -> (r: usize)
    requires
        i <= s.len(),
    ensures
        r == scan(s@, i as int, rule),
        i <= r <= s.len(),
{
    let mut j: usize = i;
    while j < s.len() && !stops_exec(rule, s[j])
        invariant
            i <= j <= s.len(),
            scan(s@, i as int, rule) == scan(s@, j as int, rule),
        decreases s.len() - j,
    {
        j += 1;
    }
    j
}

/// `line` without one trailing carriage return.
pub open spec fn strip_cr(line: Seq<char>) -> Seq<char> {
    if line.len() > 0 && line.last() == '\r' {
        line.drop_last()
    } else {
        line
    }
}

/// The lines of `s` from position `i` on, where the current line began at `start`.
/// A line ends at a newline, which it does not hold, nor a carriage return just
/// before it; a last line without a newline ends with the text, and a newline
/// at the very end opens no empty line.
pub open spec fn lines_from(s: Seq<char>, start: int, i: int) -> Seq<Seq<char>>
    decreases s.len() - i,
{
    if i >= s.len() {
        if start < s.len() {
            seq![s.subrange(start, s.len() as int)]
        } else {
            seq![]
        }
    } else if s[i] == '\n' {
        seq![strip_cr(s.subrange(start, i))] + lines_from(s, i + 1, i + 1)
    } else {
        lines_from(s, start, i + 1)
    }
}

/// The lines of `s`, as `str::lines` splits them.
pub open spec fn lines_of(s: Seq<char>) -> Seq<Seq<char>> {
    lines_from(s, 0, 0)
}

pub open spec fn views_of(v: Seq<Vec<char>>) -> Seq<Seq<char>> {
    v.map_values(|l: Vec<char>| l@)
}

fn without_cr(s: &Vec<char>, a: usize, b: usize) -> (r: Vec<char>)
    requires
        a <= b <= s.len(),
    ensures
        r@ == strip_cr(s@.subrange(a as int, b as int)),
{
    if a < b && s[b - 1] == '\r' {
        let r = slice(s, a, b - 1);
        assert(r@ =~= s@.subrange(a as int, b as int).drop_last());
        r
    } else {
        slice(s, a, b)
    }
}

pub fn split_lines(s: &Vec<char>) -> (r: Vec<Vec<char>>)
    ensures
        views_of(r@) == lines_of(s@),
{
    let mut out: Vec<Vec<char>> = Vec::new();
    let mut start: usize = 0;
    let mut i: usize = 0;
    while i < s.len()
        invariant
            start <= i <= s.len(),
            views_of(out@) + lines_from(s@, start as int, i as int) == lines_of(s@),
        decreases s.len() - i,
    {
        if s[i] == '\n' {
            let line = without_cr(s, start, i);
            let ghost before = out@;
            out.push(line);
            assert(views_of(out@) =~= views_of(before) + seq![line@]);
            i += 1;
            start = i;
        } else {
            i += 1;
        }
    }
    if start < s.len() {
        let line = slice(s, start, s.len());
        let ghost before = out@;
        out.push(line);
        assert(views_of(out@) =~= views_of(before) + seq![line@]);
    } else {
        assert(views_of(out@) =~= views_of(out@) + seq![]);
    }
    out
}

/// `p` stands in `s` at index `k`.
pub open spec fn occurs_at(s: Seq<char>, p: Seq<char>, k: int) -> bool {
    0 <= k && k + p.len() <= s.len() && s.subrange(k, k + p.len()) == p
}

/// `p` stands somewhere in `s`.
pub open spec fn has_part(s: Seq<char>, p: Seq<char>) -> bool {
    exists|k: int| occurs_at(s, p, k)
}

fn matches_at(s: &Vec<char>, p: &Vec<char>, k: usize) -> (r: bool)
    requires
        k + p.len() <= s.len(),
    ensures
        r == occurs_at(s@, p@, k as int),
{
    let mut j: usize = 0;
    while j < p.len()
        invariant
            j <= p.len(),
            k + p.len() <= s.len(),
            s@.subrange(k as int, k + j) == p@.subrange(0, j as int),
        decreases p.len() - j,
    {
        if s[k + j] != p[j] {
            assert(s@.subrange(k as int, k + p.len())[j as int] != p@[j as int]);
            return false;
        }
        j += 1;
        assert(s@.subrange(k as int, k + j) =~= p@.subrange(0, j as int));
    }
    assert(p@.subrange(0, j as int) =~= p@);
    true
}

pub fn contains(s: &Vec<char>, p: &Vec<char>) -> (r: bool)
    ensures
        r == has_part(s@, p@),
{
    if p.len() > s.len() {
        return false;
    }
    if p.len() == 0 {
        assert(s@.subrange(0, 0) =~= p@);
        assert(occurs_at(s@, p@, 0));
        return true;
    }
    let last = s.len() - p.len();
    let mut k: usize = 0;
    while k <= last
        invariant
            last == s.len() - p.len(),
            0 < p.len() <= s.len(),
            forall|m: int| 0 <= m < k ==> !occurs_at(s@, p@, m),
        decreases last + 1 - k,
    {
        if matches_at(s, p, k) {
            return true;
        }
        k += 1;
    }
    false
}

pub open spec fn is_digit(c: char) -> bool {
    48 <= c as u32 && c as u32 <= 57
}

/// The number that the decimal digits of `s` write.
pub open spec fn decimal_value(s: Seq<char>) -> int
    decreases s.len(),
{
    if s.len() == 0 {
        0
    } else {
        decimal_value(s.drop_last()) * 10 + (s.last() as u32 - 48)
    }
}

/// `s` read as an unsigned decimal number: one or more ASCII digits whose
/// value fits in `u32`.
pub open spec fn parse_decimal(s: Seq<char>) -> Option<u32> {
    if s.len() > 0 && (forall|i: int| 0 <= i < s.len() ==> is_digit(#[trigger] s[i]))
        && decimal_value(s) <= u32::MAX {
        Some(decimal_value(s) as u32)
    } else {
        None
    }
}

proof fn lemma_decimal_prefix(s: Seq<char>, k: int)
    requires
        0 <= k <= s.len(),
        forall|i: int| 0 <= i < s.len() ==> is_digit(#[trigger] s[i]),
    ensures
        decimal_value(s.subrange(0, k)) <= decimal_value(s),
        0 <= decimal_value(s.subrange(0, k)),
    decreases s.len(),
{
    if k == s.len() {
        assert(s.subrange(0, k) =~= s);
        if s.len() > 0 {
            lemma_decimal_prefix(s.drop_last(), k - 1);
            assert(s.drop_last().subrange(0, k - 1) =~= s.drop_last());
        }
    } else {
        lemma_decimal_prefix(s.drop_last(), k);
        assert(s.drop_last().subrange(0, k) =~= s.subrange(0, k));
        lemma_decimal_prefix(s.drop_last(), s.len() - 1);
        assert(s.drop_last().subrange(0, s.len() - 1) =~= s.drop_last());
    }
}

pub fn parse_decimal_in(s: &Vec<char>, a: usize, b: usize) -> (r: Option<u32>)
    requires
        a <= b <= s.len(),
    ensures
        r == parse_decimal(s@.subrange(a as int, b as int)),
{
    let ghost t = s@.subrange(a as int, b as int);
    if a == b {
        return None;
    }
    let mut i: usize = a;
    while i < b
        invariant
            a <= i <= b <= s.len(),
            t == s@.subrange(a as int, b as int),
            forall|m: int| 0 <= m < i - a ==> is_digit(#[trigger] t[m]),
        decreases b - i,
    {
        let u = s[i] as u32;
        if !(48 <= u && u <= 57) {
            assert(!is_digit(t[i - a]));
            return None;
        }
        i += 1;
    }
    let mut acc: u32 = 0;
    let mut i: usize = a;
    while i < b
        invariant
            a <= i <= b <= s.len(),
            t == s@.subrange(a as int, b as int),
            forall|m: int| 0 <= m < t.len() ==> is_digit(#[trigger] t[m]),
            acc as int == decimal_value(t.subrange(0, i - a)),
        decreases b - i,
    {
        assert(is_digit(t[i - a]));
        let d = (s[i] as u32 - 48) as u64;
        let next: u64 = acc as u64 * 10 + d;
        assert(t.subrange(0, i + 1 - a).drop_last() =~= t.subrange(0, i - a));
        assert(t[i - a] == s@[i as int]);
        if next > u32::MAX as u64 {
            proof {
                lemma_decimal_prefix(t, i + 1 - a);
            }
            return None;
        }
        acc = next as u32;
        i += 1;
    }
    assert(t.subrange(0, b - a) =~= t);
    Some(acc)
}


/// The characters of an optional string.
pub open spec fn opt_view(o: Option<String>) -> Option<Seq<char>> {
    match o {
        Some(s) => Some(s@),
        None => None,
    }
}

/// The first of the lines `ls`, from index `i` on, in which `p` stands.
pub open spec fn first_with(ls: Seq<Seq<char>>, p: Seq<char>, i: int) -> Option<Seq<char>>
    decreases ls.len() - i,
{
    if i < 0 || i >= ls.len() {
        None
    } else if has_part(ls[i], p) {
        Some(ls[i])
    } else {
        first_with(ls, p, i + 1)
    }
}

/// Where `p` stands in none of the lines from `i` on, no line is found.
pub proof fn lemma_first_with_absent(ls: Seq<Seq<char>>, p: Seq<char>, i: int)
    requires
        0 <= i,
        forall|k: int| 0 <= k < ls.len() ==> !has_part(#[trigger] ls[k], p),
    ensures
        first_with(ls, p, i) is None,
    decreases ls.len() - i,
{
    if i < ls.len() {
        lemma_first_with_absent(ls, p, i + 1);
    }
}

/// The index of the first line of `lines` in which `p` stands.
pub fn find_line(lines: &Vec<Vec<char>>, p: &Vec<char>) -> (r: Option<usize>)
    ensures
        match r {
            Some(k) => k < lines.len() && first_with(views_of(lines@), p@, 0) == Some(
                lines@[k as int]@,
            ),
            None => first_with(views_of(lines@), p@, 0) is None,
        },
{
    let ghost ls = views_of(lines@);
    let mut k: usize = 0;
    while k < lines.len()
        invariant
            k <= lines.len(),
            ls == views_of(lines@),
            first_with(ls, p@, 0) == first_with(ls, p@, k as int),
        decreases lines.len() - k,
    {
        if contains(&lines[k], p) {
            return Some(k);
        }
        k += 1;
    }
    None
}


/// The decimal digits of `n`, without leading zeros.
pub open spec fn decimal_text(n: nat) -> Seq<char>
    decreases n,
{
    if n < 10 {
        seq![((48 + n) as u8) as char]
    } else {
        decimal_text(n / 10).push(((48 + n % 10) as u8) as char)
    }
}

/// Appends the decimal digits of `n` to `out`.
pub fn push_decimal(out: &mut String, n: u32)
    ensures
        final(out)@ == old(out)@ + decimal_text(n as nat),
    decreases n,
{
    if n >= 10 {
        push_decimal(out, n / 10);
    }
    let d: u8 = (48 + n % 10) as u8;
    push_char(out, d as char);
    proof {
        if n >= 10 {
            assert(final(out)@ =~= old(out)@ + decimal_text(n as nat));
        }
    }
}

} // verus!
