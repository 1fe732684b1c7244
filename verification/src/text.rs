//! Character-level helpers for the text the game stores and shows.

use vstd::prelude::*;
use vstd::std_specs::iter::IteratorSpec;

verus! {

broadcast use vstd::string::group_string_axioms;

/// The characters of `s`, in order.
pub fn to_chars(s: &str) -> (r: Vec<char>)
    ensures
        r@ == s@,
{
    let mut out: Vec<char> = Vec::new();
    let mut it = s.chars();
    loop
        invariant
            out@ + it.remaining() == s@,
            it.decrease() is Some,
            it.obeys_prophetic_iter_laws(),
        ensures
            out@ == s@,
        decreases it.decrease()->0,
    {
        match it.next() {
            Some(c) => {
                out.push(c);
            },
            None => {
                assert(out@ + it.remaining() =~= out@);
                break ;
            },
        }
    }
    out
}

/// Appends `c` to `s` (std's `String::push`).
#[verifier::external_body]
pub(crate) fn push_char(s: &mut String, c: char)
    ensures
        final(s)@ == old(s)@.push(c),
{
    s.push(c);
}

/// The string made of the characters `cs`.
pub fn from_chars(cs: &[char]) -> (r: String)
    ensures
        r@ == cs@,
{
    let mut out = String::new();
    let mut i: usize = 0;
    while i < cs.len()
        invariant
            i <= cs@.len(),
            out@ == cs@.take(i as int),
        decreases cs@.len() - i,
    {
        push_char(&mut out, cs[i]);
        i += 1;
        assert(out@ =~= cs@.take(i as int));
    }
    assert(cs@.take(i as int) =~= cs@);
    out
}

/// Whether `c` has the Unicode `White_Space` property (what `char::is_whitespace`
/// tests and what `str::trim` strips).
pub open spec fn spec_is_whitespace(c: char) -> bool {
    let v = c as u32;
    (0x9 <= v <= 0xD) || v == 0x20 || v == 0x85 || v == 0xA0 || v == 0x1680 || (0x2000 <= v
        <= 0x200A) || v == 0x2028 || v == 0x2029 || v == 0x202F || v == 0x205F || v == 0x3000
}

/// Whether `c` is whitespace (the Unicode `White_Space` property).
pub fn is_whitespace(c: char) -> (r: bool)
    ensures
        r == spec_is_whitespace(c),
{
    let v = c as u32;
    (0x9 <= v && v <= 0xD) || v == 0x20 || v == 0x85 || v == 0xA0 || v == 0x1680 || (0x2000 <= v
        && v <= 0x200A) || v == 0x2028 || v == 0x2029 || v == 0x202F || v == 0x205F || v == 0x3000
}

/// Whether every character of `s` is whitespace, i.e. `s` trims to nothing.
pub open spec fn spec_is_blank(s: Seq<char>) -> bool {
    forall|i: int| 0 <= i < s.len() ==> spec_is_whitespace(#[trigger] s[i])
}

/// Whether `s` trims to the empty string (every character is whitespace).
pub fn is_blank(s: &str) -> (r: bool)
    ensures
        r == spec_is_blank(s@),
{
    let cs = to_chars(s);
    let mut i: usize = 0;
    while i < cs.len()
        invariant
            cs@ == s@,
            i <= cs@.len(),
            forall|j: int| 0 <= j < i ==> spec_is_whitespace(#[trigger] cs@[j]),
        decreases cs@.len() - i,
    {
        if !is_whitespace(cs[i]) {
            return false;
        }
        i += 1;
    }
    true
}

// --- Trimming ---------------------------------------------------------------------

/// `s` without its leading whitespace.
pub open spec fn trim_start(s: Seq<char>) -> Seq<char>
    decreases s.len(),
{
    if s.len() > 0 && spec_is_whitespace(s[0]) {
        trim_start(s.skip(1))
    } else {
        s
    }
}

/// `s` without its trailing whitespace.
pub open spec fn trim_end(s: Seq<char>) -> Seq<char>
    decreases s.len(),
{
    if s.len() > 0 && spec_is_whitespace(s.last()) {
        trim_end(s.drop_last())
    } else {
        s
    }
}

/// `s` without leading and trailing whitespace (what `str::trim` yields).
pub open spec fn trimmed(s: Seq<char>) -> Seq<char> {
    trim_end(trim_start(s))
}

/// The characters of `cs` without leading and trailing whitespace.
pub fn trim_chars(cs: &[char]) -> (r: Vec<char>)
    ensures
        r@ == trimmed(cs@),
{
    let mut start: usize = 0;
    assert(cs@.skip(0) =~= cs@);
    while start < cs.len() && is_whitespace(cs[start])
        invariant
            start <= cs@.len(),
            trim_start(cs@) == trim_start(cs@.skip(start as int)),
        decreases cs@.len() - start,
    {
        assert(cs@.skip(start as int).skip(1) =~= cs@.skip(start + 1));
        start += 1;
    }
    let ghost front = cs@.skip(start as int);
    assert(trim_start(cs@) == front);
    let mut end: usize = cs.len();
    while end > start && is_whitespace(cs[end - 1])
        invariant
            start <= end <= cs@.len(),
            front == cs@.skip(start as int),
            trim_end(front) == trim_end(cs@.subrange(start as int, end as int)),
        decreases end,
    {
        assert(cs@.subrange(start as int, end as int).drop_last() =~= cs@.subrange(start as int, end - 1));
        end -= 1;
    }
    assert(front =~= cs@.subrange(start as int, cs@.len() as int));
    let mut out: Vec<char> = Vec::new();
    let mut k: usize = start;
    while k < end
        invariant
            start <= k <= end,
            end <= cs@.len(),
            out@ == cs@.subrange(start as int, k as int),
        decreases end - k,
    {
        out.push(cs[k]);
        k += 1;
        assert(out@ =~= cs@.subrange(start as int, k as int));
    }
    out
}

/// The characters of `s` with surrounding whitespace removed.
pub fn trim(s: &str) -> (r: Vec<char>)
    ensures
        r@ == trimmed(s@),
{
    let cs = to_chars(s);
    trim_chars(cs.as_slice())
}

/// Whether the character sequences `a` and `b` are equal.
pub fn chars_eq(a: &[char], b: &[char]) -> (r: bool)
    ensures
        r == (a@ == b@),
{
    if a.len() != b.len() {
        return false;
    }
    let mut i: usize = 0;
    while i < a.len()
        invariant
            a@.len() == b@.len(),
            i <= a@.len(),
            forall|j: int| 0 <= j < i ==> a@[j] == b@[j],
        decreases a@.len() - i,
    {
        if a[i] != b[i] {
            return false;
        }
        i += 1;
    }
    assert(a@ =~= b@);
    true
}

// --- Character classes kept by std ------------------------------------------------

/// Whether `char::is_alphanumeric` holds of `c` (the Unicode `Alphabetic` or
/// `Numeric` property).
pub uninterp spec fn char_alphanumeric(c: char) -> bool;

/// The characters `char::to_uppercase` maps `c` to.
pub uninterp spec fn char_uppercase(c: char) -> Seq<char>;

/// Whether `c` is an ASCII letter or digit.
pub open spec fn ascii_alphanumeric(c: char) -> bool {
    ('0' <= c <= '9') || ('a' <= c <= 'z') || ('A' <= c <= 'Z')
}

/// `char::is_alphanumeric`. Claims the named result and, as std documents for
/// ASCII, that an ASCII character is alphanumeric exactly when it is a letter
/// or digit.
#[verifier::external_body]
pub(crate) fn is_alphanumeric(c: char) -> (r: bool)
    ensures
        r == char_alphanumeric(c),
        (c as u32) < 128 ==> (r == ascii_alphanumeric(c)),
{
    c.is_alphanumeric()
}

/// `char::to_uppercase`, collected. Claims the named result and, as std
/// documents for ASCII, that an ASCII lowercase letter maps to its single
/// uppercase letter and any other ASCII character to itself.
#[verifier::external_body]
pub(crate) fn to_uppercase(c: char) -> (r: Vec<char>)
    ensures
        r@ == char_uppercase(c),
        ('a' <= c <= 'z') ==> r@ == seq![((c as u32) - 32) as char],
        ((c as u32) < 128 && !('a' <= c <= 'z')) ==> r@ == seq![c],
{
    c.to_uppercase().collect()
}

/// `c` with ASCII uppercase letters turned lowercase.
pub open spec fn ascii_lower(c: char) -> char {
    if 'A' <= c <= 'Z' {
        ((c as u32) + 32) as char
    } else {
        c
    }
}

/// `c` lowercased if it is an ASCII uppercase letter.
pub fn to_ascii_lower(c: char) -> (r: char)
    ensures
        r == ascii_lower(c),
{
    if 'A' <= c && c <= 'Z' {
        ((c as u32) + 32) as u8 as char
    } else {
        c
    }
}

// --- Decimal numbers ------------------------------------------------------------------

/// The value of decimal digit `c`, if it is one.
pub open spec fn dec_value(c: char) -> Option<int> {
    if '0' <= c <= '9' { Some(c as int - 48) } else { None }
}

/// Whether every character of `s` is a decimal digit.
pub open spec fn all_dec(s: Seq<char>) -> bool {
    forall|i: int| 0 <= i < s.len() ==> (#[trigger] dec_value(s[i])) is Some
}

/// The number a string of decimal digits denotes.
pub open spec fn dec_number(s: Seq<char>) -> int
    decreases s.len(),
{
    if s.len() == 0 {
        0
    } else {
        10 * dec_number(s.drop_last()) + dec_value(s.last())->0
    }
}

proof fn lemma_dec_number_nonneg(s: Seq<char>)
    requires
        all_dec(s),
    ensures
        dec_number(s) >= 0,
    decreases s.len(),
{
    if s.len() > 0 {
        assert forall|i: int| 0 <= i < s.drop_last().len() implies (#[trigger] dec_value(s.drop_last()[i])) is Some by {
            assert(dec_value(s[i]) is Some);
        }
        lemma_dec_number_nonneg(s.drop_last());
        assert(dec_value(s.last()) is Some);
    }
}

proof fn lemma_dec_number_grows(s: Seq<char>, k: int)
    requires
        0 <= k <= s.len(),
        all_dec(s),
    ensures
        dec_number(s.take(k)) <= dec_number(s),
    decreases s.len(),
{
    if k < s.len() {
        assert(s.drop_last().take(k) =~= s.take(k));
        assert forall|i: int| 0 <= i < s.drop_last().len() implies (#[trigger] dec_value(s.drop_last()[i])) is Some by {
            assert(dec_value(s[i]) is Some);
        }
        lemma_dec_number_grows(s.drop_last(), k);
        lemma_dec_number_nonneg(s.drop_last());
        assert(dec_value(s.last()) is Some);
    } else {
        assert(s.take(k) =~= s);
    }
}

/// The value of `digits` when they are one or more decimal digits denoting at
/// most `limit`.
pub open spec fn dec_within(digits: Seq<char>, limit: int) -> Option<int> {
    if digits.len() > 0 && all_dec(digits) && dec_number(digits) <= limit {
        Some(dec_number(digits))
    } else {
        None
    }
}

/// Reads `cs[start..]` as decimal digits denoting at most `limit`.
fn parse_dec(cs: &[char], start: usize, limit: u64) -> (r: Option<u64>)
    requires
        start <= cs@.len(),
        limit < 0x1_0000_0000,
    ensures
        r is None <==> dec_within(cs@.skip(start as int), limit as int) is None,
        r matches Some(x) ==> dec_within(cs@.skip(start as int), limit as int) == Some(x as int),
        r matches Some(x) ==> x <= limit,
{
    let ghost digits = cs@.skip(start as int);
    if start >= cs.len() {
        return None;
    }
    let mut value: u64 = 0;
    let mut i: usize = start;
    while i < cs.len()
        invariant
            start <= i <= cs@.len(),
            limit < 0x1_0000_0000,
            digits == cs@.skip(start as int),
            all_dec(cs@.subrange(start as int, i as int)),
            value == dec_number(cs@.subrange(start as int, i as int)),
            value <= limit,
        decreases cs@.len() - i,
    {
        let c = cs[i];
        if !('0' <= c && c <= '9') {
            proof {
                assert(digits[i - start] == cs@[i as int]);
                assert(dec_value(digits[i - start]) is None);
            }
            return None;
        }
        let d = (c as u32 - 48) as u64;
        let ghost prefix = cs@.subrange(start as int, i + 1);
        proof {
            assert(prefix.drop_last() =~= cs@.subrange(start as int, i as int));
            assert(prefix.last() == c);
        }
        let next = value * 10 + d;
        if next > limit {
            proof {
                assert(digits.take(i + 1 - start) =~= prefix);
                if all_dec(digits) {
                    lemma_dec_number_grows(digits, i + 1 - start);
                }
            }
            return None;
        }
        value = next;
        i += 1;
    }
    assert(cs@.subrange(start as int, cs@.len() as int) =~= digits);
    Some(value)
}

/// What `str::parse::<u16>` yields for `s`: an optional `+`, then one or more
/// decimal digits denoting at most `u16::MAX`.
pub open spec fn spec_parse_u16(s: Seq<char>) -> Option<u16> {
    let digits = if s.len() > 0 && s[0] == '+' { s.skip(1) } else { s };
    match dec_within(digits, u16::MAX as int) {
        Some(v) => Some(v as u16),
        None => None,
    }
}

/// Parses `cs` the way `str::parse::<u16>` does.
pub fn parse_u16(cs: &[char]) -> (r: Option<u16>)
    ensures
        r == spec_parse_u16(cs@),
{
    let start: usize = if cs.len() > 0 && cs[0] == '+' { 1 } else { 0 };
    let ghost digits = if cs@.len() > 0 && cs@[0] == '+' { cs@.skip(1) } else { cs@ };
    proof {
        assert(digits =~= cs@.skip(start as int));
    }
    match parse_dec(cs, start, u16::MAX as u64) {
        Some(v) => {
            let r = v as u16;
            assert(r as int == v as int);
            assert(dec_within(digits, u16::MAX as int) == Some(v as int));
            Some(r)
        },
        None => None,
    }
}

/// What `str::parse::<i32>` yields for `s`: an optional sign, then one or more
/// decimal digits whose signed value fits in an `i32`.
pub open spec fn spec_parse_i32(s: Seq<char>) -> Option<i32> {
    if s.len() > 0 && s[0] == '-' {
        match dec_within(s.skip(1), 0x8000_0000) {
            Some(v) => Some((-v) as i32),
            None => None,
        }
    } else {
        let digits = if s.len() > 0 && s[0] == '+' { s.skip(1) } else { s };
        match dec_within(digits, 0x7fff_ffff) {
            Some(v) => Some(v as i32),
            None => None,
        }
    }
}

/// Parses `cs` the way `str::parse::<i32>` does.
pub fn parse_i32(cs: &[char]) -> (r: Option<i32>)
    ensures
        r == spec_parse_i32(cs@),
{
    if cs.len() > 0 && cs[0] == '-' {
        match parse_dec(cs, 1, 0x8000_0000) {
            Some(v) => {
                let r = (0 - (v as i64)) as i32;
                assert(r as int == -(v as int));
                assert(dec_within(cs@.skip(1), 0x8000_0000) == Some(v as int));
                Some(r)
            },
            None => None,
        }
    } else {
        let start: usize = if cs.len() > 0 && cs[0] == '+' { 1 } else { 0 };
        let ghost digits = if cs@.len() > 0 && cs@[0] == '+' { cs@.skip(1) } else { cs@ };
        proof {
            assert(digits =~= cs@.skip(start as int));
        }
        match parse_dec(cs, start, 0x7fff_ffff) {
            Some(v) => {
                let r = v as i32;
                assert(r as int == v as int);
                assert(dec_within(digits, 0x7fff_ffff) == Some(v as int));
                Some(r)
            },
            None => None,
        }
    }
}

/// The decimal digits of `n`.
pub open spec fn dec_digits(n: nat) -> Seq<char>
    decreases n,
{
    if n < 10 {
        seq![(n + 48) as char]
    } else {
        dec_digits(n / 10).push(((n % 10) + 48) as char)
    }
}

/// `n` written in decimal, with a leading `-` when negative.
pub open spec fn dec_text(n: int) -> Seq<char> {
    if n < 0 {
        seq!['-'] + dec_digits((-n) as nat)
    } else {
        dec_digits(n as nat)
    }
}

/// The decimal digits of `n` are digits and read back as `n`.
pub proof fn lemma_dec_digits_read_back(n: nat)
    ensures
        all_dec(dec_digits(n)),
        dec_number(dec_digits(n)) == n,
        dec_digits(n).len() >= 1,
    decreases n,
{
    if n >= 10 {
        lemma_dec_digits_read_back(n / 10);
        let d = dec_digits(n);
        let pre = dec_digits(n / 10);
        assert(d.drop_last() =~= pre);
        assert(d.last() == ((n % 10) + 48) as char);
        assert(dec_value(d.last()) == Some((n % 10) as int));
        assert forall|i: int| 0 <= i < d.len() implies (#[trigger] dec_value(d[i])) is Some by {
            if i < d.len() - 1 {
                assert(d[i] == pre[i]);
            }
        }
        assert(dec_number(d) == 10 * dec_number(d.drop_last()) + dec_value(d.last())->0);
        assert(n == 10 * (n / 10) + n % 10);
    } else {
        let d = dec_digits(n);
        assert(d.drop_last() =~= Seq::<char>::empty());
        assert(d.last() == d[0]);
        assert(dec_value(d[0]) == Some(n as int));
        assert(dec_number(d.drop_last()) == 0);
        assert(dec_number(d) == 10 * dec_number(d.drop_last()) + dec_value(d.last())->0);
    }
}

/// Distinct integers are written as distinct decimal text, which holds only
/// digits and possibly a leading `-`.
pub proof fn lemma_dec_text_injective(a: int, b: int)
    ensures
        dec_text(a) == dec_text(b) ==> a == b,
        forall|i: int| 0 <= i < dec_text(a).len() ==> (#[trigger] dec_text(a)[i] == '-' || dec_value(dec_text(a)[i]) is Some),
{
    if a >= 0 {
        lemma_dec_digits_read_back(a as nat);
    } else {
        lemma_dec_digits_read_back((-a) as nat);
        let t = dec_text(a);
        assert forall|i: int| 0 <= i < t.len() implies (#[trigger] t[i] == '-' || dec_value(t[i]) is Some) by {
            if i > 0 {
                assert(t[i] == dec_digits((-a) as nat)[i - 1]);
            }
        }
    }
    if b >= 0 {
        lemma_dec_digits_read_back(b as nat);
    } else {
        lemma_dec_digits_read_back((-b) as nat);
    }
    if dec_text(a) == dec_text(b) {
        if a >= 0 && b >= 0 {
        } else if a < 0 && b < 0 {
            assert(dec_digits((-a) as nat) =~= dec_text(a).skip(1));
            assert(dec_digits((-b) as nat) =~= dec_text(b).skip(1));
        } else if a < 0 {
            assert(dec_text(a)[0] == '-');
            assert(dec_value(dec_digits(b as nat)[0]) is Some);
        } else {
            assert(dec_text(b)[0] == '-');
            assert(dec_value(dec_digits(a as nat)[0]) is Some);
        }
    }
}

/// The decimal digits of `n`, appended to `out`.
fn push_dec_digits(out: &mut Vec<char>, n: u64)
    ensures
        final(out)@ == old(out)@ + dec_digits(n as nat),
    decreases n,
{
    if n >= 10 {
        push_dec_digits(out, n / 10);
    }
    out.push(((n % 10) as u8 + 48) as char);
    proof {
        if n >= 10 {
            assert(final(out)@ =~= old(out)@ + dec_digits(n as nat));
        } else {
            assert(final(out)@ =~= old(out)@ + dec_digits(n as nat));
        }
    }
}

/// `n` written in decimal, appended to `out`.
pub fn push_decimal(out: &mut Vec<char>, n: i64)
    requires
        n > i64::MIN,
    ensures
        final(out)@ == old(out)@ + dec_text(n as int),
{
    if n < 0 {
        out.push('-');
        push_dec_digits(out, (0 - n) as u64);
        assert(final(out)@ =~= old(out)@ + dec_text(n as int));
    } else {
        push_dec_digits(out, n as u64);
    }
}

// --- Splitting ------------------------------------------------------------------------

/// `s` split at every `sep` (so `n` separators give `n + 1` parts).
pub open spec fn split_on(s: Seq<char>, sep: char) -> Seq<Seq<char>>
    decreases s.len(),
{
    if s.len() == 0 {
        seq![seq![]]
    } else if s.last() == sep {
        split_on(s.drop_last(), sep).push(seq![])
    } else {
        let parts = split_on(s.drop_last(), sep);
        parts.update(parts.len() - 1, parts.last().push(s.last()))
    }
}

pub proof fn lemma_split_on_len(s: Seq<char>, sep: char)
    ensures
        split_on(s, sep).len() >= 1,
    decreases s.len(),
{
    if s.len() > 0 {
        lemma_split_on_len(s.drop_last(), sep);
    }
}

/// The parts of `cs` between occurrences of `sep`.
pub fn split_chars(cs: &[char], sep: char) -> (r: Vec<Vec<char>>)
    ensures
        r@.len() == split_on(cs@, sep).len(),
        forall|i: int| 0 <= i < r@.len() ==> (#[trigger] r@[i])@ == split_on(cs@, sep)[i],
{
    let mut parts: Vec<Vec<char>> = Vec::new();
    parts.push(Vec::new());
    let mut i: usize = 0;
    proof {
        assert(cs@.take(0) =~= Seq::<char>::empty());
    }
    while i < cs.len()
        invariant
            i <= cs@.len(),
            parts@.len() == split_on(cs@.take(i as int), sep).len(),
            parts@.len() >= 1,
            forall|j: int| 0 <= j < parts@.len() ==> (#[trigger] parts@[j])@ == split_on(cs@.take(i as int), sep)[j],
        decreases cs@.len() - i,
    {
        let c = cs[i];
        let ghost before = parts@;
        proof {
            assert(cs@.take(i + 1).drop_last() =~= cs@.take(i as int));
        }
        if c == sep {
            parts.push(Vec::new());
        } else {
            let mut cur = parts.pop().unwrap();
            cur.push(c);
            parts.push(cur);
        }
        i += 1;
        proof {
            let sp = split_on(cs@.take(i as int), sep);
            assert forall|j: int| 0 <= j < parts@.len() implies (#[trigger] parts@[j])@ == sp[j] by {
                if j < before.len() - 1 {
                    assert(parts@[j] == before[j]);
                }
            }
        }
    }
    assert(cs@.take(i as int) =~= cs@);
    parts
}

/// `l` without one trailing carriage return.
pub open spec fn strip_cr(l: Seq<char>) -> Seq<char> {
    if l.len() > 0 && l.last() == '\r' { l.drop_last() } else { l }
}

/// The lines of `s` as `str::lines` yields them: split at `\n`, a `\r` before
/// each `\n` dropped, and no final empty line after a trailing `\n`.
pub open spec fn text_lines(s: Seq<char>) -> Seq<Seq<char>> {
    let parts = split_on(s, '\n');
    let full = Seq::new((parts.len() - 1) as nat, |i: int| strip_cr(parts[i]));
    if parts.last().len() == 0 {
        full
    } else {
        full.push(parts.last())
    }
}

/// The lines of `cs` (see `text_lines`).
pub fn lines(cs: &[char]) -> (r: Vec<Vec<char>>)
    ensures
        r@.len() == text_lines(cs@).len(),
        forall|i: int| 0 <= i < r@.len() ==> (#[trigger] r@[i])@ == text_lines(cs@)[i],
{
    let parts = split_chars(cs, '\n');
    proof {
        lemma_split_on_len(cs@, '\n');
    }
    let n = parts.len();
    let ghost sp = split_on(cs@, '\n');
    let mut out: Vec<Vec<char>> = Vec::new();
    let mut i: usize = 0;
    while i + 1 < n
        invariant
            n == parts@.len(),
            n == sp.len(),
            n >= 1,
            sp == split_on(cs@, '\n'),
            forall|j: int| 0 <= j < n ==> (#[trigger] parts@[j])@ == sp[j],
            i + 1 <= n,
            out@.len() == i,
            forall|j: int| 0 <= j < i ==> (#[trigger] out@[j])@ == strip_cr(sp[j]),
        decreases n - i,
    {
        let p = &parts[i];
        let mut line: Vec<char> = Vec::new();
        let keep = if p.len() > 0 && p[p.len() - 1] == '\r' { p.len() - 1 } else { p.len() };
        let mut k: usize = 0;
        while k < keep
            invariant
                keep <= p@.len(),
                k <= keep,
                line@ == p@.take(k as int),
            decreases keep - k,
        {
            line.push(p[k]);
            k += 1;
            assert(line@ =~= p@.take(k as int));
        }
        proof {
            assert(line@ =~= strip_cr(p@));
        }
        out.push(line);
        i += 1;
    }
    let last = &parts[n - 1];
    if last.len() > 0 {
        let mut line: Vec<char> = Vec::new();
        let mut k: usize = 0;
        while k < last.len()
            invariant
                k <= last@.len(),
                line@ == last@.take(k as int),
            decreases last@.len() - k,
        {
            line.push(last[k]);
            k += 1;
            assert(line@ =~= last@.take(k as int));
        }
        assert(line@ =~= last@);
        out.push(line);
    }
    proof {
        let t = text_lines(cs@);
        assert(out@.len() == t.len());
        assert forall|j: int| 0 <= j < out@.len() implies (#[trigger] out@[j])@ == t[j] by {
            if j < n - 1 {
            }
        }
    }
    out
}

/// The lines `ls`, each followed by `\n`.
pub open spec fn joined_lines(ls: Seq<Seq<char>>) -> Seq<char>
    decreases ls.len(),
{
    if ls.len() == 0 {
        seq![]
    } else {
        joined_lines(ls.drop_last()) + ls.last() + seq!['\n']
    }
}

/// Whether `l` can stand as one line that reads back unchanged: it holds no
/// `\n` and does not end with `\r`.
pub open spec fn single_line(l: Seq<char>) -> bool {
    !l.contains('\n') && !(l.len() > 0 && l.last() == '\r')
}

/// Appending text without a separator extends the last part.
proof fn lemma_split_on_extend(x: Seq<char>, l: Seq<char>, sep: char)
    requires
        !l.contains(sep),
    ensures
        split_on(x + l, sep).len() == split_on(x, sep).len(),
        split_on(x + l, sep) == split_on(x, sep).update(
            split_on(x, sep).len() - 1,
            split_on(x, sep).last() + l,
        ),
    decreases l.len(),
{
    lemma_split_on_len(x, sep);
    let p = split_on(x, sep);
    if l.len() == 0 {
        assert(x + l =~= x);
        assert(p.last() + l =~= p.last());
        assert(p.update(p.len() - 1, p.last() + l) =~= p);
    } else {
        let l2 = l.drop_last();
        assert(!l2.contains(sep)) by {
            if l2.contains(sep) {
                let i = choose|i: int| 0 <= i < l2.len() && l2[i] == sep;
                assert(l[i] == sep);
            }
        }
        assert(l[l.len() - 1] != sep);
        lemma_split_on_extend(x, l2, sep);
        assert((x + l).drop_last() =~= x + l2);
        assert((x + l).last() == l.last());
        assert((p.last() + l2).push(l.last()) =~= p.last() + l);
        assert(split_on(x + l, sep) =~= p.update(p.len() - 1, p.last() + l));
    }
}

proof fn lemma_split_joined(ls: Seq<Seq<char>>)
    requires
        forall|i: int| 0 <= i < ls.len() ==> !(#[trigger] ls[i]).contains('\n'),
    ensures
        split_on(joined_lines(ls), '\n') == ls.push(seq![]),
    decreases ls.len(),
{
    if ls.len() == 0 {
        assert(split_on(joined_lines(ls), '\n') =~= ls.push(seq![]));
    } else {
        let pre = ls.drop_last();
        assert forall|i: int| 0 <= i < pre.len() implies !(#[trigger] pre[i]).contains('\n') by {
            assert(pre[i] == ls[i]);
        }
        lemma_split_joined(pre);
        let j = joined_lines(pre);
        let l = ls.last();
        assert(!l.contains('\n')) by {
            assert(ls[ls.len() - 1] == l);
        }
        lemma_split_on_extend(j, l, '\n');
        assert(joined_lines(ls).drop_last() =~= j + l);
        assert(pre.push(seq![]).last() + l =~= l);
        assert(split_on(j + l, '\n') =~= pre.push(l));
        assert(pre.push(l) =~= ls);
    }
}

/// Lines written one per `\n`-terminated line read back as the same lines.
pub proof fn lemma_text_lines_joined(ls: Seq<Seq<char>>)
    requires
        forall|i: int| 0 <= i < ls.len() ==> single_line(#[trigger] ls[i]),
    ensures
        text_lines(joined_lines(ls)) == ls,
{
    assert forall|i: int| 0 <= i < ls.len() implies !(#[trigger] ls[i]).contains('\n') by {
        assert(single_line(ls[i]));
    }
    lemma_split_joined(ls);
    let parts = ls.push(seq![]);
    assert forall|i: int| 0 <= i < ls.len() implies strip_cr(#[trigger] parts[i]) == ls[i] by {
        assert(single_line(ls[i]));
        assert(parts[i] == ls[i]);
    }
    assert(text_lines(joined_lines(ls)) =~= ls);
}

/// Joining two runs of lines is joining each and concatenating.
pub proof fn lemma_joined_concat(a: Seq<Seq<char>>, b: Seq<Seq<char>>)
    ensures
        joined_lines(a + b) == joined_lines(a) + joined_lines(b),
    decreases b.len(),
{
    if b.len() == 0 {
        assert(a + b =~= a);
        assert(joined_lines(a) + joined_lines(b) =~= joined_lines(a));
    } else {
        lemma_joined_concat(a, b.drop_last());
        assert((a + b).drop_last() =~= a + b.drop_last());
        assert((a + b).last() == b.last());
        assert(joined_lines(a + b) =~= joined_lines(a) + joined_lines(b));
    }
}

} // verus!
