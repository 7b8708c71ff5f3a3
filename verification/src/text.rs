//! Text as a sequence of characters: trimming, clipping, splitting into lines, ordering,
//! decimal numbers and path components.
use crate::seqs;
use vstd::prelude::*;

verus! {

/// `String::push` appends one character to the end of the text.
pub assume_specification [String::push] (s: &mut String, c: char)
    ensures
        final(s)@ == old(s)@.push(c),
;

// ---------------------------------------------------------------------------------------------
// Characters
// ---------------------------------------------------------------------------------------------

/// A class of characters that can be trimmed away.
#[derive(Clone, Copy)]
pub enum CharClass {
    /// Characters with the Unicode property White_Space.
    Space,
    /// Anything but the ASCII digits.
    NonDigit,
    /// One character.
    Only(char),
}

/// The characters with the Unicode property White_Space.
pub open spec fn is_white(c: char) -> bool {
    ||| 0x9 <= c as u32 <= 0xd
    ||| c as u32 == 0x20
    ||| c as u32 == 0x85
    ||| c as u32 == 0xa0
    ||| c as u32 == 0x1680
    ||| 0x2000 <= c as u32 <= 0x200a
    ||| c as u32 == 0x2028
    ||| c as u32 == 0x2029
    ||| c as u32 == 0x202f
    ||| c as u32 == 0x205f
    ||| c as u32 == 0x3000
}

pub open spec fn is_digit(c: char) -> bool {
    0x30 <= c as u32 <= 0x39
}

impl CharClass {
    pub open spec fn holds(self, c: char) -> bool {
        match self {
            CharClass::Space => is_white(c),
            CharClass::NonDigit => !is_digit(c),
            CharClass::Only(d) => c == d,
        }
    }

    pub fn contains(self, c: char) -> (r: bool)
        ensures
            r == self.holds(c),
    {
        let n: u32 = c as u32;
        match self {
            CharClass::Space => {
                (0x9 <= n && n <= 0xd) || n == 0x20 || n == 0x85 || n == 0xa0 || n == 0x1680 || (
                0x2000 <= n && n <= 0x200a) || n == 0x2028 || n == 0x2029 || n == 0x202f || n
                    == 0x205f || n == 0x3000
            },
            CharClass::NonDigit => !(0x30 <= n && n <= 0x39),
            CharClass::Only(d) => c == d,
        }
    }
}

/// The ASCII lower-case form of a character.
pub open spec fn ascii_lower(c: char) -> char {
    if 0x41 <= c as u32 <= 0x5a {
        (c as u32 + 0x20) as char
    } else {
        c
    }
}

pub fn lower(c: char) -> (r: char)
    ensures
        r == ascii_lower(c),
{
    let n: u32 = c as u32;
    if 0x41 <= n && n <= 0x5a {
        ((n + 0x20) as u8) as char
    } else {
        c
    }
}

/// The ASCII upper-case form of a character.
pub open spec fn ascii_upper(c: char) -> char {
    if 0x61 <= c as u32 <= 0x7a {
        (c as u32 - 0x20) as char
    } else {
        c
    }
}

pub fn upper(c: char) -> (r: char)
    ensures
        r == ascii_upper(c),
{
    let n: u32 = c as u32;
    if 0x61 <= n && n <= 0x7a {
        ((n - 0x20) as u8) as char
    } else {
        c
    }
}

// ---------------------------------------------------------------------------------------------
// Between text and characters
// ---------------------------------------------------------------------------------------------

/// The characters of a text.
pub fn to_chars(s: &str) -> (r: Vec<char>)
    ensures
        r@ == s@,
{
    let mut v: Vec<char> = Vec::new();
    for c in it: s.chars()
        invariant
            v@ == it.seq().take(it.index() as int),
            it.seq() == s@,
    {
        v.push(c);
    }
    v
}

/// The text made of the characters from `lo` up to `hi`.
pub fn from_chars(v: &Vec<char>, lo: usize, hi: usize) -> (r: String)
    requires
        lo <= hi <= v@.len(),
    ensures
        r@ == v@.subrange(lo as int, hi as int),
{
    let mut s: String = String::new();
    let mut i: usize = lo;
    while i < hi
        invariant
            lo <= i <= hi <= v@.len(),
            s@ == v@.subrange(lo as int, i as int),
        decreases hi - i,
    {
        s.push(v[i]);
        i += 1;
        assert(v@.subrange(lo as int, i as int) =~= v@.subrange(lo as int, i - 1).push(v@[i - 1]));
    }
    s
}

/// Whether two texts hold the same characters.
pub fn same_text(a: &str, b: &str) -> (r: bool)
    ensures
        r == (a@ == b@),
{
    a.to_string() == b.to_string()
}

/// A copy of an optional text.
pub fn copy_option(s: &Option<String>) -> (r: Option<String>)
    ensures
        r.deep_view() == s.deep_view(),
{
    match s {
        Some(t) => Some(t.clone()),
        None => None,
    }
}

// ---------------------------------------------------------------------------------------------
// Clipping and trimming
// ---------------------------------------------------------------------------------------------

/// The first `n` characters of `s`, or all of them where there are fewer.
pub open spec fn clip(s: Seq<char>, n: int) -> Seq<char> {
    if s.len() <= n {
        s
    } else {
        s.take(n)
    }
}

pub fn clip_text(s: &str, n: usize) -> (r: String)
    ensures
        r@ == clip(s@, n as int),
{
    let v: Vec<char> = to_chars(s);
    let end: usize = if v.len() <= n { v.len() } else { n };
    assert(v@.subrange(0, end as int) =~= clip(s@, n as int));
    from_chars(&v, 0, end)
}

/// `s` without the leading characters of a class.
pub open spec fn trim_front(s: Seq<char>, class: CharClass) -> Seq<char>
    decreases s.len(),
{
    if s.len() > 0 && class.holds(s[0]) {
        trim_front(s.drop_first(), class)
    } else {
        s
    }
}

/// `s` without the trailing characters of a class.
pub open spec fn trim_back(s: Seq<char>, class: CharClass) -> Seq<char>
    decreases s.len(),
{
    if s.len() > 0 && class.holds(s.last()) {
        trim_back(s.drop_last(), class)
    } else {
        s
    }
}

/// `s` without the leading and trailing characters of a class.
pub open spec fn trim(s: Seq<char>, class: CharClass) -> Seq<char> {
    trim_back(trim_front(s, class), class)
}

fn front_of(v: &Vec<char>, class: CharClass) -> (lo: usize)
    ensures
        lo <= v@.len(),
        trim_front(v@, class) == v@.subrange(lo as int, v@.len() as int),
{
    let mut i: usize = 0;
    assert(v@.subrange(0, v@.len() as int) =~= v@);
    while i < v.len() && class.contains(v[i])
        invariant
            i <= v@.len(),
            trim_front(v@, class) == trim_front(v@.subrange(i as int, v@.len() as int), class),
        decreases v.len() - i,
    {
        i += 1;
        assert(v@.subrange(i - 1, v@.len() as int).drop_first() =~= v@.subrange(
            i as int,
            v@.len() as int,
        ));
    }
    i
}

fn back_of(v: &Vec<char>, lo: usize, class: CharClass) -> (hi: usize)
    requires
        lo <= v@.len(),
    ensures
        lo <= hi <= v@.len(),
        trim_back(v@.subrange(lo as int, v@.len() as int), class) == v@.subrange(
            lo as int,
            hi as int,
        ),
{
    let mut j: usize = v.len();
    while lo < j && class.contains(v[j - 1])
        invariant
            lo <= j <= v@.len(),
            trim_back(v@.subrange(lo as int, v@.len() as int), class) == trim_back(
                v@.subrange(lo as int, j as int),
                class,
            ),
        decreases j,
    {
        j -= 1;
        assert(v@.subrange(lo as int, j + 1).drop_last() =~= v@.subrange(lo as int, j as int));
    }
    j
}

/// `s` without the leading characters of a class.
pub fn trim_front_text(s: &str, class: CharClass) -> (r: String)
    ensures
        r@ == trim_front(s@, class),
{
    let v: Vec<char> = to_chars(s);
    let lo: usize = front_of(&v, class);
    from_chars(&v, lo, v.len())
}

/// `s` without the leading and trailing characters of a class.
pub fn trim_text(s: &str, class: CharClass) -> (r: String)
    ensures
        r@ == trim(s@, class),
{
    let v: Vec<char> = to_chars(s);
    let lo: usize = front_of(&v, class);
    let hi: usize = back_of(&v, lo, class);
    from_chars(&v, lo, hi)
}

// ---------------------------------------------------------------------------------------------
// Prefixes and suffixes
// ---------------------------------------------------------------------------------------------

pub fn starts_with(s: &str, prefix: &str) -> (r: bool)
    ensures
        r == prefix@.is_prefix_of(s@),
{
    let v: Vec<char> = to_chars(s);
    let p: Vec<char> = to_chars(prefix);
    if v.len() < p.len() {
        return false;
    }
    let mut i: usize = 0;
    while i < p.len()
        invariant
            i <= p@.len() <= v@.len(),
            v@ == s@,
            p@ == prefix@,
            forall|j: int| 0 <= j < i ==> p@[j] == v@[j],
        decreases p.len() - i,
    {
        if p[i] != v[i] {
            assert(p@[i as int] != v@.subrange(0, p@.len() as int)[i as int]);
            return false;
        }
        i += 1;
    }
    assert(p@ =~= v@.subrange(0, p@.len() as int));
    true
}

pub fn ends_with(s: &str, suffix: &str) -> (r: bool)
    ensures
        r == suffix@.is_suffix_of(s@),
{
    let v: Vec<char> = to_chars(s);
    let p: Vec<char> = to_chars(suffix);
    if v.len() < p.len() {
        return false;
    }
    let off: usize = v.len() - p.len();
    let mut i: usize = 0;
    while i < p.len()
        invariant
            i <= p@.len() <= v@.len(),
            off == v.len() - p.len(),
            v@ == s@,
            p@ == suffix@,
            forall|j: int| 0 <= j < i ==> p@[j] == v@[off + j],
        decreases p.len() - i,
    {
        if p[i] != v[off + i] {
            assert(p@[i as int] != v@.subrange(off as int, v@.len() as int)[i as int]);
            return false;
        }
        i += 1;
    }
    assert(p@ =~= v@.subrange(off as int, v@.len() as int));
    true
}

/// What follows the first `n` characters.
pub fn skip_text(s: &str, n: usize) -> (r: String)
    requires
        n <= s@.len(),
    ensures
        r@ == s@.skip(n as int),
{
    let v: Vec<char> = to_chars(s);
    from_chars(&v, n, v.len())
}

/// `s` without the prefix, where it has it.
pub open spec fn after_prefix(s: Seq<char>, prefix: Seq<char>) -> Option<Seq<char>> {
    if prefix.is_prefix_of(s) {
        Some(s.skip(prefix.len() as int))
    } else {
        None
    }
}

pub fn strip_prefix(s: &str, prefix: &str) -> (r: Option<String>)
    ensures
        r.deep_view() == after_prefix(s@, prefix@),
{
    if starts_with(s, prefix) {
        let p: Vec<char> = to_chars(prefix);
        Some(skip_text(s, p.len()))
    } else {
        None
    }
}

/// `s` without a prefix, as often as it stands there.
pub open spec fn trim_prefix(s: Seq<char>, prefix: Seq<char>) -> Seq<char>
    decreases s.len(),
{
    if prefix.len() > 0 && prefix.is_prefix_of(s) {
        trim_prefix(s.skip(prefix.len() as int), prefix)
    } else {
        s
    }
}

pub fn trim_prefix_text(s: &str, prefix: &str) -> (r: String)
    requires
        prefix@.len() > 0,
    ensures
        r@ == trim_prefix(s@, prefix@),
{
    let n: usize = to_chars(prefix).len();
    let mut rest: String = s.to_string();
    while starts_with(&rest, prefix)
        invariant
            n == prefix@.len(),
            n > 0,
            trim_prefix(s@, prefix@) == trim_prefix(rest@, prefix@),
        decreases rest@.len(),
    {
        rest = skip_text(&rest, n);
    }
    rest
}

// ---------------------------------------------------------------------------------------------
// Lines
// ---------------------------------------------------------------------------------------------

/// The position of the first line feed, or the length where there is none.
pub open spec fn line_feed(s: Seq<char>) -> int {
    seqs::first_where(s, |c: char| c == '\n')
}

/// A line that ended in a line feed, without the carriage return before it.
pub open spec fn without_return(s: Seq<char>) -> Seq<char> {
    if s.len() > 0 && s.last() == '\r' {
        s.drop_last()
    } else {
        s
    }
}

/// The lines of a text. A line ends in a line feed, which may follow a carriage return; the last
/// one may end without.
pub open spec fn lines(s: Seq<char>) -> Seq<Seq<char>>
    decreases s.len(),
    via lines_decreases
{
    if s.len() == 0 {
        Seq::empty()
    } else if line_feed(s) == s.len() {
        seq![s]
    } else {
        seq![without_return(s.take(line_feed(s)))] + lines(s.skip(line_feed(s) + 1))
    }
}

#[via_fn]
proof fn lines_decreases(s: Seq<char>) {
    seqs::lemma_first_where(s, |c: char| c == '\n');
}

/// The lines of a text, without their ends.
pub fn split_lines(s: &str) -> (r: Vec<String>)
    ensures
        r.deep_view() == lines(s@),
{
    let v: Vec<char> = to_chars(s);
    let mut out: Vec<String> = Vec::new();
    let mut start: usize = 0;
    let mut i: usize = 0;
    let ghost nl = |c: char| c == '\n';
    let ghost n = v@.len() as int;
    assert(v@.subrange(0, n) =~= v@);
    assert(out.deep_view() + lines(v@) =~= lines(v@));
    while i < v.len()
        invariant
            start <= i <= v@.len(),
            n == v@.len(),
            nl == (|c: char| c == '\n'),
            forall|j: int| start <= j < i ==> v@[j] != '\n',
            lines(v@) == out.deep_view() + lines(v@.subrange(start as int, n)),
        decreases v.len() - i,
    {
        if v[i] == '\n' {
            let end: usize = if start < i && v[i - 1] == '\r' { i - 1 } else { i };
            let ghost before = out.deep_view();
            let line: String = from_chars(&v, start, end);
            out.push(line);
            proof {
                let rest = v@.subrange(start as int, n);
                let k = i - start;
                assert(seqs::is_first(rest, nl, k));
                seqs::lemma_is_first(rest, nl, k);
                assert(rest.take(k) =~= v@.subrange(start as int, i as int));
                assert(rest.skip(k + 1) =~= v@.subrange(i + 1, n));
                assert(without_return(rest.take(k)) =~= line@);
                assert(out.deep_view() =~= before.push(line@));
                assert(out.deep_view() + lines(v@.subrange(i + 1, n)) =~= before + (seq![line@]
                    + lines(v@.subrange(i + 1, n))));
            }
            start = i + 1;
        }
        i += 1;
    }
    if start < v.len() {
        let ghost before = out.deep_view();
        let line: String = from_chars(&v, start, v.len());
        out.push(line);
        proof {
            let rest = v@.subrange(start as int, n);
            assert(seqs::is_first(rest, nl, rest.len() as int));
            seqs::lemma_is_first(rest, nl, rest.len() as int);
            assert(out.deep_view() =~= before.push(line@));
        }
    } else {
        assert(v@.subrange(start as int, n).len() == 0);
    }
    out
}

// ---------------------------------------------------------------------------------------------
// Replacing and comparing
// ---------------------------------------------------------------------------------------------

/// `s` with every `from` turned into `to`.
pub open spec fn replaced(s: Seq<char>, from: char, to: char) -> Seq<char> {
    Seq::new(
        s.len(),
        |i: int|
            if s[i] == from {
                to
            } else {
                s[i]
            },
    )
}

pub fn replace_char(s: &str, from: char, to: char) -> (r: String)
    ensures
        r@ == replaced(s@, from, to),
{
    let v: Vec<char> = to_chars(s);
    let mut out: String = String::new();
    let mut i: usize = 0;
    while i < v.len()
        invariant
            i <= v@.len(),
            v@ == s@,
            out@ == replaced(s@, from, to).take(i as int),
        decreases v.len() - i,
    {
        if v[i] == from {
            out.push(to);
        } else {
            out.push(v[i]);
        }
        i += 1;
    }
    out
}

/// `s` with its ASCII letters in lower case.
pub open spec fn ascii_lowered(s: Seq<char>) -> Seq<char> {
    Seq::new(s.len(), |i: int| ascii_lower(s[i]))
}

pub open spec fn all_ascii(s: Seq<char>) -> bool {
    forall|i: int| 0 <= i < s.len() ==> (#[trigger] s[i]) as u32 <= 0x7f
}

/// `s` in lower case, by the rules of Unicode.
pub uninterp spec fn lowercase(s: Seq<char>) -> Seq<char>;

/// `str::to_lowercase`: the text in lower case, by the rules of Unicode. They turn the ASCII
/// capitals into the ASCII small letters and leave the other ASCII characters alone.
#[verifier::external_body]
pub(crate) fn lowercase_text(s: &str) -> (r: String)
    ensures
        r@ == lowercase(s@),
        all_ascii(s@) ==> r@ == ascii_lowered(s@),
{
    s.to_lowercase()
}

/// The two texts differ at most in the case of ASCII letters.
pub open spec fn same_ignoring_case(a: Seq<char>, b: Seq<char>) -> bool {
    &&& a.len() == b.len()
    &&& forall|i: int| 0 <= i < a.len() ==> ascii_lower(#[trigger] a[i]) == ascii_lower(b[i])
}

pub fn eq_ignore_case(a: &str, b: &str) -> (r: bool)
    ensures
        r == same_ignoring_case(a@, b@),
{
    let v: Vec<char> = to_chars(a);
    let w: Vec<char> = to_chars(b);
    if v.len() != w.len() {
        return false;
    }
    let mut i: usize = 0;
    while i < v.len()
        invariant
            i <= v@.len() == w@.len(),
            v@ == a@,
            w@ == b@,
            forall|j: int| 0 <= j < i ==> ascii_lower(#[trigger] v@[j]) == ascii_lower(w@[j]),
        decreases v.len() - i,
    {
        if lower(v[i]) != lower(w[i]) {
            assert(ascii_lower(a@[i as int]) != ascii_lower(b@[i as int]));
            return false;
        }
        i += 1;
    }
    true
}

/// The code point of a character.
fn code(c: char) -> (n: u32)
    ensures
        n == c as int,
{
    c as u32
}

/// `a` stands before `b` in the order of their characters' code points, or is equal to it.
pub open spec fn text_le(a: Seq<char>, b: Seq<char>) -> bool
    decreases a.len(),
{
    if a.len() == 0 {
        true
    } else if b.len() == 0 {
        false
    } else if a[0] != b[0] {
        (a[0] as int) < (b[0] as int)
    } else {
        text_le(a.drop_first(), b.drop_first())
    }
}

pub fn le(a: &str, b: &str) -> (r: bool)
    ensures
        r == text_le(a@, b@),
{
    let v: Vec<char> = to_chars(a);
    let w: Vec<char> = to_chars(b);
    let mut i: usize = 0;
    assert(v@.skip(0) =~= v@);
    assert(w@.skip(0) =~= w@);
    while i < v.len() && i < w.len() && v[i] == w[i]
        invariant
            i <= v@.len(),
            i <= w@.len(),
            text_le(v@, w@) == text_le(v@.skip(i as int), w@.skip(i as int)),
        decreases v.len() - i,
    {
        i += 1;
        assert(v@.skip(i - 1).drop_first() =~= v@.skip(i as int));
        assert(w@.skip(i - 1).drop_first() =~= w@.skip(i as int));
    }
    if i == v.len() {
        true
    } else if i == w.len() {
        false
    } else {
        let c: char = v[i];
        let d: char = w[i];
        code(c) < code(d)
    }
}

/// The order of texts is reflexive.
pub proof fn lemma_text_le_reflexive(a: Seq<char>)
    ensures
        text_le(a, a),
    decreases a.len(),
{
    if a.len() > 0 {
        lemma_text_le_reflexive(a.drop_first());
    }
}

/// Of two texts one stands before the other, or they are equal.
pub proof fn lemma_text_le_total(a: Seq<char>, b: Seq<char>)
    ensures
        text_le(a, b) || text_le(b, a),
    decreases a.len(),
{
    if a.len() > 0 && b.len() > 0 {
        lemma_text_le_total(a.drop_first(), b.drop_first());
    }
}

/// Two texts of which each stands before the other are equal.
pub proof fn lemma_text_le_antisymmetric(a: Seq<char>, b: Seq<char>)
    requires
        text_le(a, b),
        text_le(b, a),
    ensures
        a == b,
    decreases a.len(),
{
    if a.len() == 0 || b.len() == 0 {
        assert(a =~= b);
    } else {
        lemma_text_le_antisymmetric(a.drop_first(), b.drop_first());
        assert(a =~= seq![a[0]] + a.drop_first());
        assert(b =~= seq![b[0]] + b.drop_first());
    }
}

/// The order of texts is transitive.
pub proof fn lemma_text_le_transitive(a: Seq<char>, b: Seq<char>, c: Seq<char>)
    requires
        text_le(a, b),
        text_le(b, c),
    ensures
        text_le(a, c),
    decreases a.len(),
{
    if a.len() > 0 && b.len() > 0 && c.len() > 0 && a[0] == b[0] && b[0] == c[0] {
        lemma_text_le_transitive(a.drop_first(), b.drop_first(), c.drop_first());
    }
}

// ---------------------------------------------------------------------------------------------
// Decimal numbers
// ---------------------------------------------------------------------------------------------

pub open spec fn digit_char(d: nat) -> char {
    (0x30 + d) as char
}

/// The decimal digits of a number.
pub open spec fn decimal(n: nat) -> Seq<char>
    decreases n,
{
    if n < 10 {
        seq![digit_char(n)]
    } else {
        decimal(n / 10).push(digit_char(n % 10))
    }
}

pub fn decimal_text(n: u64) -> (r: String)
    ensures
        r@ == decimal(n as nat),
    decreases n,
{
    let mut s: String = if n < 10 {
        String::new()
    } else {
        decimal_text(n / 10)
    };
    s.push((0x30u8 + (n % 10) as u8) as char);
    assert(n < 10 ==> s@ =~= decimal(n as nat));
    s
}

/// The number that a sequence of decimal digits writes.
pub open spec fn digits_value(s: Seq<char>) -> nat
    decreases s.len(),
{
    if s.len() == 0 {
        0
    } else {
        digits_value(s.drop_last()) * 10 + (s.last() as u32 - 0x30) as nat
    }
}

pub open spec fn all_digits(s: Seq<char>) -> bool {
    forall|i: int| 0 <= i < s.len() ==> is_digit(#[trigger] s[i])
}

/// The number that `s` writes in decimal, where it writes one that fits.
pub open spec fn parsed_number(s: Seq<char>) -> Option<i64> {
    if s.len() > 0 && all_digits(s) && digits_value(s) <= i64::MAX {
        Some(digits_value(s) as i64)
    } else {
        None
    }
}

/// Reads an unsigned decimal number.
pub fn parse_number(s: &str) -> (r: Option<i64>)
    ensures
        r == parsed_number(s@),
{
    let v: Vec<char> = to_chars(s);
    if v.len() == 0 {
        return None;
    }
    let mut i: usize = 0;
    let mut n: i64 = 0;
    let mut fits: bool = true;
    assert(v@.take(0).len() == 0);
    while i < v.len()
        invariant
            i <= v@.len(),
            v@ == s@,
            n >= 0,
            forall|j: int| 0 <= j < i ==> is_digit(#[trigger] v@[j]),
            fits ==> n == digits_value(v@.take(i as int)),
            !fits ==> digits_value(v@.take(i as int)) > i64::MAX,
        decreases v.len() - i,
    {
        let c: u32 = v[i] as u32;
        if c < 0x30 || c > 0x39 {
            assert(!is_digit(s@[i as int]));
            return None;
        }
        let d: i64 = (c - 0x30) as i64;
        assert(v@.take(i + 1).drop_last() =~= v@.take(i as int));
        if fits && n <= (i64::MAX - d) / 10 {
            n = n * 10 + d;
        } else {
            fits = false;
        }
        i += 1;
    }
    assert(v@.take(v@.len() as int) =~= v@);
    if fits {
        Some(n)
    } else {
        None
    }
}

// ---------------------------------------------------------------------------------------------
// Paths
// ---------------------------------------------------------------------------------------------

/// A path without the separators and `.` components at its end.
pub open spec fn trim_path(s: Seq<char>) -> Seq<char>
    decreases s.len(),
{
    if s.len() > 0 && s.last() == '/' {
        trim_path(s.drop_last())
    } else if s.len() > 1 && s.last() == '.' && s[s.len() - 2] == '/' {
        trim_path(s.drop_last())
    } else {
        s
    }
}

/// What follows the last `/` of `s`.
pub open spec fn after_slash(s: Seq<char>) -> Seq<char>
    decreases s.len(),
{
    if s.len() == 0 || s.last() == '/' {
        Seq::empty()
    } else {
        after_slash(s.drop_last()).push(s.last())
    }
}

/// The last component of a path, unless the path has none or ends in `..`.
pub open spec fn path_name(s: Seq<char>) -> Option<Seq<char>> {
    let name = after_slash(trim_path(s));
    if name.len() == 0 || name == "."@ || name == ".."@ {
        None
    } else {
        Some(name)
    }
}

pub fn file_name(path: &str) -> (r: Option<String>)
    ensures
        r.deep_view() == path_name(path@),
{
    let v: Vec<char> = to_chars(path);
    let mut hi: usize = v.len();
    assert(v@.take(hi as int) =~= v@);
    while hi > 0 && (v[hi - 1] == '/' || (hi > 1 && v[hi - 1] == '.' && v[hi - 2] == '/'))
        invariant
            hi <= v@.len(),
            trim_path(v@) == trim_path(v@.take(hi as int)),
        decreases hi,
    {
        hi -= 1;
        assert(v@.take(hi + 1).drop_last() =~= v@.take(hi as int));
    }
    let mut lo: usize = hi;
    let ghost t = v@.take(hi as int);
    assert(t.take(hi as int) =~= t);
    assert(after_slash(t) =~= after_slash(t.take(lo as int)) + v@.subrange(lo as int, hi as int));
    while lo > 0 && v[lo - 1] != '/'
        invariant
            lo <= hi <= v@.len(),
            t == v@.take(hi as int),
            after_slash(t) == after_slash(t.take(lo as int)) + v@.subrange(lo as int, hi as int),
        decreases lo,
    {
        lo -= 1;
        assert(t.take(lo + 1).drop_last() =~= t.take(lo as int));
        assert(after_slash(t.take(lo as int)).push(v@[lo as int]) + v@.subrange(
            lo + 1,
            hi as int,
        ) =~= after_slash(t.take(lo as int)) + v@.subrange(lo as int, hi as int));
    }
    assert(after_slash(t.take(lo as int)) =~= Seq::<char>::empty());
    assert(after_slash(t) =~= v@.subrange(lo as int, hi as int));
    let name: String = from_chars(&v, lo, hi);
    if lo == hi || same_text(&name, ".") || same_text(&name, "..") {
        None
    } else {
        Some(name)
    }
}

// ---------------------------------------------------------------------------------------------
// Laws
// ---------------------------------------------------------------------------------------------

/// The lines of a text in two pieces are those of the pieces, where the first one ends in a line
/// feed or is empty.
pub proof fn law_lines_of_pieces(a: Seq<char>, b: Seq<char>)
    requires
        a.len() == 0 || a.last() == '\n',
    ensures
        lines(a + b) == lines(a) + lines(b),
    decreases a.len(),
{
    if a.len() == 0 {
        assert(a + b =~= b);
        assert(lines(a) + lines(b) =~= lines(b));
    } else {
        let nl = |c: char| c == '\n';
        let k = line_feed(a);
        seqs::lemma_first_where(a, nl);
        assert(nl(a[a.len() - 1]));
        assert(k < a.len());
        let whole = a + b;
        assert forall|j: int| 0 <= j < k implies !nl(#[trigger] whole[j]) by {
            assert(!nl(a[j]));
        }
        assert(nl(whole[k]));
        seqs::lemma_is_first(whole, nl, k);
        let rest = a.skip(k + 1);
        assert(whole.take(k) =~= a.take(k));
        assert(whole.skip(k + 1) =~= rest + b);
        if rest.len() > 0 {
            assert(rest.last() == a.last());
        }
        law_lines_of_pieces(rest, b);
        assert(lines(whole) =~= seq![without_return(a.take(k))] + (lines(rest) + lines(b)));
        assert(lines(whole) =~= lines(a) + lines(b));
    }
}

/// Being the same but for case is an equivalence.
pub proof fn law_same_ignoring_case(a: Seq<char>, b: Seq<char>, c: Seq<char>)
    ensures
        same_ignoring_case(a, a),
        same_ignoring_case(a, b) ==> same_ignoring_case(b, a),
        same_ignoring_case(a, b) && same_ignoring_case(b, c) ==> same_ignoring_case(a, c),
{
    if same_ignoring_case(a, b) {
        assert forall|i: int| 0 <= i < b.len() implies ascii_lower(#[trigger] b[i]) == ascii_lower(
            a[i],
        ) by {
            assert(ascii_lower(a[i]) == ascii_lower(b[i]));
        }
        if same_ignoring_case(b, c) {
            assert forall|i: int| 0 <= i < a.len() implies ascii_lower(#[trigger] a[i])
                == ascii_lower(c[i]) by {
                assert(ascii_lower(b[i]) == ascii_lower(c[i]));
            }
        }
    }
}

/// Clipping keeps the start of a text, and no more of it than was asked for.
pub proof fn law_clip(s: Seq<char>, n: int)
    requires
        0 <= n,
    ensures
        clip(s, n).len() <= n,
        clip(s, n).is_prefix_of(s),
        clip(clip(s, n), n) == clip(s, n),
{
    assert(clip(s, n) =~= s.take(clip(s, n).len() as int));
}

} // verus!
