//! Characters, decimal digits and the bridge between `String` and `Vec<char>`.

use vstd::prelude::*;
use vstd::std_specs::iter::IteratorSpec;

verus! {

/// The character for one decimal digit.
pub open spec fn dec_digit(d: int) -> char {
    if d == 0 {
        '0'
    } else if d == 1 {
        '1'
    } else if d == 2 {
        '2'
    } else if d == 3 {
        '3'
    } else if d == 4 {
        '4'
    } else if d == 5 {
        '5'
    } else if d == 6 {
        '6'
    } else if d == 7 {
        '7'
    } else if d == 8 {
        '8'
    } else {
        '9'
    }
}

pub open spec fn is_dec_digit(c: char) -> bool {
    '0' <= c && c <= '9'
}

/// The value of one decimal digit character.
pub open spec fn dec_val(c: char) -> int {
    c as u32 - '0' as u32
}

/// The usual decimal rendering of a non-negative integer, most significant
/// digit first, no leading zeros (a single `'0'` for zero).
pub open spec fn spec_dec(n: int) -> Seq<char>
    decreases n,
{
    if n < 10 {
        seq![dec_digit(n)]
    } else {
        spec_dec(n / 10).push(dec_digit(n % 10))
    }
}

pub open spec fn all_dec_digits(s: Seq<char>) -> bool {
    forall|i: int| 0 <= i < s.len() ==> is_dec_digit(#[trigger] s[i])
}

/// The integer a digit string denotes.
pub open spec fn dec_seq_val(s: Seq<char>) -> int
    decreases s.len(),
{
    if s.len() == 0 {
        0
    } else {
        dec_seq_val(s.drop_last()) * 10 + dec_val(s.last())
    }
}

/// Rendering an integer and reading the digits back gives the integer.
pub proof fn lemma_dec_round_trip(n: int)
    requires
        n >= 0,
    ensures
        spec_dec(n).len() >= 1,
        all_dec_digits(spec_dec(n)),
        dec_seq_val(spec_dec(n)) == n,
    decreases n,
{
    if n < 10 {
        assert(dec_val(dec_digit(n)) == n);
        assert(spec_dec(n) =~= seq![dec_digit(n)]);
        assert(spec_dec(n).drop_last() =~= Seq::<char>::empty());
        assert(dec_seq_val(spec_dec(n)) == dec_seq_val(Seq::<char>::empty()) * 10 + dec_val(dec_digit(n)));
    } else {
        lemma_dec_round_trip(n / 10);
        assert(dec_val(dec_digit(n % 10)) == n % 10);
        assert(spec_dec(n).drop_last() =~= spec_dec(n / 10));
        assert(spec_dec(n).last() == dec_digit(n % 10));
        assert(dec_seq_val(spec_dec(n)) == (n / 10) * 10 + n % 10);
        assert((n / 10) * 10 + n % 10 == n) by (nonlinear_arith);
    }
}

fn dec_digit_char(d: u8) -> (c: char)
    requires
        d < 10,
    ensures
        c == dec_digit(d as int),
{
    if d == 0 {
        '0'
    } else if d == 1 {
        '1'
    } else if d == 2 {
        '2'
    } else if d == 3 {
        '3'
    } else if d == 4 {
        '4'
    } else if d == 5 {
        '5'
    } else if d == 6 {
        '6'
    } else if d == 7 {
        '7'
    } else if d == 8 {
        '8'
    } else {
        '9'
    }
}

/// The decimal digits of `n`, as characters.
pub fn u64_to_dec(n: u64) -> (v: Vec<char>)
    ensures
        v@ == spec_dec(n as int),
    decreases n,
{
    if n < 10 {
        let mut v: Vec<char> = Vec::new();
        v.push(dec_digit_char(n as u8));
        assert(v@ =~= seq![dec_digit(n as int)]);
        v
    } else {
        let mut v = u64_to_dec(n / 10);
        v.push(dec_digit_char((n % 10) as u8));
        v
    }
}

/// The decimal digits of `n`, as a `String`.
pub fn u64_to_string(n: u64) -> (s: String)
    ensures
        s@ == spec_dec(n as int),
{
    let v = u64_to_dec(n);
    chars_to_string(&v)
}

/// A digit string never denotes a negative integer.
pub proof fn lemma_dec_seq_val_nonneg(s: Seq<char>)
    requires
        all_dec_digits(s),
    ensures
        dec_seq_val(s) >= 0,
    decreases s.len(),
{
    if s.len() > 0 {
        assert(all_dec_digits(s.drop_last()));
        lemma_dec_seq_val_nonneg(s.drop_last());
    }
}

/// A prefix of a digit string never denotes more than the whole string.
pub proof fn lemma_dec_seq_val_prefix(s: Seq<char>, k: int)
    requires
        all_dec_digits(s),
        0 <= k <= s.len(),
    ensures
        dec_seq_val(s.take(k)) <= dec_seq_val(s),
    decreases s.len() - k,
{
    if k < s.len() {
        lemma_dec_seq_val_prefix(s, k + 1);
        assert(s.take(k + 1).drop_last() =~= s.take(k));
        assert(all_dec_digits(s.take(k + 1)));
        lemma_dec_seq_val_nonneg(s.take(k));
        assert(dec_seq_val(s.take(k + 1)) == dec_seq_val(s.take(k)) * 10 + dec_val(
            s.take(k + 1).last(),
        ));
    } else {
        assert(s.take(k) =~= s);
    }
}

/// Whether `c` is whitespace, as the token splitting of the protocol's
/// status line counts it: the character class of `char::is_whitespace`.
pub open spec fn is_space(c: char) -> bool {
    ||| c == ' '
    ||| c == '\t'
    ||| c == '\n'
    ||| c == '\u{0b}'
    ||| c == '\u{0c}'
    ||| c == '\r'
    ||| c == '\u{85}'
    ||| c == '\u{a0}'
    ||| c == '\u{1680}'
    ||| ('\u{2000}' <= c && c <= '\u{200a}')
    ||| c == '\u{2028}'
    ||| c == '\u{2029}'
    ||| c == '\u{202f}'
    ||| c == '\u{205f}'
    ||| c == '\u{3000}'
}

/// Whether `c` is whitespace; see [`is_space`].
pub fn is_space_char(c: char) -> (r: bool)
    ensures
        r == is_space(c),
{
    c == ' ' || c == '\t' || c == '\n' || c == '\u{0b}' || c == '\u{0c}' || c == '\r' || c
        == '\u{85}' || c == '\u{a0}' || c == '\u{1680}' || ('\u{2000}' <= c && c <= '\u{200a}')
        || c == '\u{2028}' || c == '\u{2029}' || c == '\u{202f}' || c == '\u{205f}' || c
        == '\u{3000}'
}

/// The index of the first non-whitespace character at or after `i`, or the
/// length when only whitespace follows.
pub open spec fn skip_spaces(s: Seq<char>, i: int) -> int
    decreases s.len() - i,
{
    if i < 0 || i >= s.len() {
        s.len() as int
    } else if is_space(s[i]) {
        skip_spaces(s, i + 1)
    } else {
        i
    }
}

/// The index of the first whitespace character at or after `i`, or the
/// length when no whitespace follows.
pub open spec fn skip_token(s: Seq<char>, i: int) -> int
    decreases s.len() - i,
{
    if i < 0 || i >= s.len() {
        s.len() as int
    } else if !is_space(s[i]) {
        skip_token(s, i + 1)
    } else {
        i
    }
}

/// The first non-whitespace index at or after `from`, as [`skip_spaces`].
pub fn skip_spaces_in(v: &Vec<char>, from: usize) -> (r: usize)
    requires
        from <= v.len(),
    ensures
        r == skip_spaces(v@, from as int),
        from <= r <= v.len(),
    decreases v.len() - from,
{
    if from < v.len() && is_space_char(v[from]) {
        skip_spaces_in(v, from + 1)
    } else {
        from
    }
}

/// The first whitespace index at or after `from`, as [`skip_token`].
pub fn skip_token_in(v: &Vec<char>, from: usize) -> (r: usize)
    requires
        from <= v.len(),
    ensures
        r == skip_token(v@, from as int),
        from <= r <= v.len(),
    decreases v.len() - from,
{
    if from < v.len() && !is_space_char(v[from]) {
        skip_token_in(v, from + 1)
    } else {
        from
    }
}

/// How a status-code token is read as a number: an optional leading plus
/// sign, then one or more decimal digits denoting at most 65535.
pub open spec fn spec_parse_u16(t: Seq<char>) -> Option<u16> {
    let digits = if t.len() > 0 && t[0] == '+' {
        t.skip(1)
    } else {
        t
    };
    if digits.len() > 0 && all_dec_digits(digits) && dec_seq_val(digits) <= 65535 {
        Some(dec_seq_val(digits) as u16)
    } else {
        None
    }
}

/// Reads `v[start..end]` as a decimal `u16` as [`spec_parse_u16`] says:
/// `None` on an empty or malformed token and on a value over 65535.
#[verifier::loop_isolation(false)]
pub fn parse_u16_range(v: &Vec<char>, start: usize, end: usize) -> (r: Option<u16>)
    requires
        start <= end <= v.len(),
    ensures
        r == spec_parse_u16(v@.subrange(start as int, end as int)),
{
    let ghost t = v@.subrange(start as int, end as int);
    let mut i: usize = start;
    if i < end && v[i] == '+' {
        i = i + 1;
        proof {
            assert(t.skip(1) =~= v@.subrange(i as int, end as int));
        }
    }
    let ghost digits = v@.subrange(i as int, end as int);
    if i == end {
        return None;
    }
    let mut acc: u32 = 0;
    let start_digits = i;
    while i < end
        invariant
            start_digits <= i <= end <= v.len(),
            digits == v@.subrange(start_digits as int, end as int),
            all_dec_digits(digits.take(i - start_digits)),
            acc == dec_seq_val(digits.take(i - start_digits)),
            acc <= 65535,
        decreases end - i,
    {
        let c = v[i];
        if c < '0' || c > '9' {
            assert(!is_dec_digit(digits[i - start_digits]));
            return None;
        }
        let d: u32 = c as u32 - 48;
        proof {
            assert(digits.take(i + 1 - start_digits).drop_last() =~= digits.take(
                i - start_digits,
            ));
            assert(digits.take(i + 1 - start_digits).last() == digits[i - start_digits]);
        }
        let next = acc * 10 + d;
        if next > 65535 {
            proof {
                assert(all_dec_digits(digits.take(i + 1 - start_digits)));
                if all_dec_digits(digits) {
                    lemma_dec_seq_val_prefix(digits, i + 1 - start_digits);
                }
            }
            return None;
        }
        acc = next;
        i = i + 1;
    }
    proof {
        assert(digits.take(end - start_digits) =~= digits);
    }
    Some(acc as u16)
}

/// The characters `v[start..end]`, as a fresh vector.
pub fn subrange_chars(v: &Vec<char>, start: usize, end: usize) -> (out: Vec<char>)
    requires
        start <= end <= v.len(),
    ensures
        out@ == v@.subrange(start as int, end as int),
{
    let mut out: Vec<char> = Vec::new();
    let mut i: usize = start;
    while i < end
        invariant
            start <= i <= end <= v.len(),
            out@ == v@.subrange(start as int, i as int),
        decreases end - i,
    {
        out.push(v[i]);
        proof {
            assert(v@.subrange(start as int, i + 1 as int) =~= v@.subrange(
                start as int,
                i as int,
            ).push(v@[i as int]));
        }
        i = i + 1;
    }
    out
}

/// The characters `v[start..end]`, as a `String`.
pub fn subrange_string(v: &Vec<char>, start: usize, end: usize) -> (s: String)
    requires
        start <= end <= v.len(),
    ensures
        s@ == v@.subrange(start as int, end as int),
{
    let out = subrange_chars(v, start, end);
    chars_to_string(&out)
}

/// Whether `p` occurs in `s` starting at index `i`.
pub open spec fn spec_contains_at(s: Seq<char>, p: Seq<char>, i: int) -> bool {
    0 <= i && i + p.len() <= s.len() && s.subrange(i, i + p.len()) == p
}

/// Whether `p` occurs somewhere in `s`.
pub open spec fn spec_contains(s: Seq<char>, p: Seq<char>) -> bool {
    exists|i: int| spec_contains_at(s, p, i)
}

fn matches_at(v: &Vec<char>, p: &Vec<char>, at: usize) -> (r: bool)
    requires
        at + p.len() <= v.len(),
    ensures
        r == spec_contains_at(v@, p@, at as int),
{
    let mut j: usize = 0;
    while j < p.len()
        invariant
            j <= p.len(),
            at + p.len() <= v.len(),
            forall|k: int| 0 <= k < j ==> v@[at + k] == p@[k],
        decreases p.len() - j,
    {
        if v[at + j] != p[j] {
            assert(v@.subrange(at as int, at + p@.len())[j as int] != p@[j as int]);
            return false;
        }
        j = j + 1;
    }
    assert(v@.subrange(at as int, at + p@.len()) =~= p@);
    true
}

/// Whether the characters `p` occur, contiguously and in order, in `v`.
#[verifier::loop_isolation(false)]
pub fn contains_chars(v: &Vec<char>, p: &Vec<char>) -> (r: bool)
    ensures
        r == spec_contains(v@, p@),
{
    if p.len() == 0 {
        assert(spec_contains_at(v@, p@, 0)) by {
            assert(v@.subrange(0, 0) =~= p@);
        }
        return true;
    }
    if p.len() > v.len() {
        return false;
    }
    let mut i: usize = 0;
    while i <= v.len() - p.len()
        invariant
            i <= v.len() - p.len() + 1,
            forall|k: int| 0 <= k < i ==> !spec_contains_at(v@, p@, k),
        decreases v.len() - i + 1,
    {
        if matches_at(v, p, i) {
            return true;
        }
        i = i + 1;
    }
    false
}

/// Relies on `String`'s `FromIterator<char>` implementation (through
/// `Iterator::collect`): the collected string holds exactly the given
/// characters, in order.
#[verifier::external_body]
pub fn chars_to_string(v: &Vec<char>) -> (s: String)
    ensures
        s@ == v@,
{
    v.iter().collect()
}

/// The characters of a string slice, in order.
pub fn str_to_chars(s: &str) -> (v: Vec<char>)
    ensures
        v@ == s@,
{
    broadcast use vstd::string::next_postcondition, vstd::string::axiom_spec_iter;

    let mut it = s.chars();
    let mut v: Vec<char> = Vec::new();
    loop
        invariant
            v@ + it.remaining() == s@,
        ensures
            v@ == s@,
        decreases s@.len() - v@.len(),
    {
        match it.next() {
            Some(c) => {
                v.push(c);
                assert(v@ + it.remaining() =~= s@);
            },
            None => {
                assert(v@ =~= s@);
                break ;
            },
        }
    }
    v
}

} // verus!
