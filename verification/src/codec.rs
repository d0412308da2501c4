//! The wire codec: the JSON text the client exchanges with the server.
//!
//! The wire contract is fixed as follows.  A message record is an object
//! whose fields come in the order `id`, `body`, `state`, `lock_until`,
//! `retry_count`, without any whitespace between tokens; `id` is the
//! lowercase hyphenated text of a 128-bit identifier; `lock_until` is
//! omitted when absent, and `null` or a string is accepted when reading;
//! strings escape a quote, a backslash, and every control character, and
//! any JSON escape is accepted when reading.

use vstd::prelude::*;
use vstd::arithmetic::power2::pow2;
use vstd::arithmetic::power2::lemma_pow2_adds;
use vstd::arithmetic::div_mod::lemma_fundamental_div_mod;
use vstd::arithmetic::div_mod::lemma_div_denominator;
use vstd::arithmetic::div_mod::lemma_multiply_divide_lt;
use crate::text::dec_val;
use crate::text::is_dec_digit;
use crate::text::all_dec_digits;
use crate::text::dec_seq_val;
use crate::text::spec_dec;
use crate::message::AddMessageRequest;
use crate::message::DeleteMessagesRequest;
use crate::message::GetMessagesRequest;
use crate::message::Message;
use crate::message::RetryMessagesRequest;
use crate::message::MessageState;
use crate::message::MessageView;

verus! {

/// The lowercase character for one hexadecimal digit.
pub open spec fn hex_digit(d: int) -> char {
    if d == 0 {
        '0'
    } else if d == 1 {
        '1'
    } else if d == 2 {
        '2'
    } else if d == 3 {
        '3'
    } else if d == 4 {
        '4'
    } else if d == 5 {
        '5'
    } else if d == 6 {
        '6'
    } else if d == 7 {
        '7'
    } else if d == 8 {
        '8'
    } else if d == 9 {
        '9'
    } else if d == 10 {
        'a'
    } else if d == 11 {
        'b'
    } else if d == 12 {
        'c'
    } else if d == 13 {
        'd'
    } else if d == 14 {
        'e'
    } else {
        'f'
    }
}

/// Whether `c` is a hexadecimal digit, of either case.
pub open spec fn is_hex_digit(c: char) -> bool {
    is_dec_digit(c) || ('a' <= c && c <= 'f') || ('A' <= c && c <= 'F')
}

/// The value of one hexadecimal digit character.
pub open spec fn hex_val(c: char) -> int {
    if is_dec_digit(c) {
        dec_val(c)
    } else if 'a' <= c && c <= 'f' {
        c as u32 - 'a' as u32 + 10
    } else {
        c as u32 - 'A' as u32 + 10
    }
}

pub open spec fn all_hex_digits(s: Seq<char>) -> bool {
    forall|i: int| 0 <= i < s.len() ==> is_hex_digit(#[trigger] s[i])
}

/// The lowest `width` hexadecimal digits of `n`, most significant first.
pub open spec fn spec_hex_fixed(n: int, width: nat) -> Seq<char>
    decreases width,
{
    if width == 0 {
        Seq::empty()
    } else {
        spec_hex_fixed(n / 16, (width - 1) as nat).push(hex_digit(n % 16))
    }
}

/// The integer a hexadecimal digit string denotes.
pub open spec fn hex_seq_val(s: Seq<char>) -> int
    decreases s.len(),
{
    if s.len() == 0 {
        0
    } else {
        hex_seq_val(s.drop_last()) * 16 + hex_val(s.last())
    }
}

/// A fixed-width rendering has that width and holds digits only.
pub proof fn lemma_hex_fixed_shape(n: int, width: nat)
    requires
        n >= 0,
    ensures
        spec_hex_fixed(n, width).len() == width,
        all_hex_digits(spec_hex_fixed(n, width)),
    decreases width,
{
    if width > 0 {
        lemma_hex_fixed_shape(n / 16, (width - 1) as nat);
        assert(is_hex_digit(hex_digit(n % 16)));
    }
}

/// A hexadecimal digit string denotes a value within its width.
pub proof fn lemma_hex_seq_val_bound(s: Seq<char>)
    requires
        all_hex_digits(s),
    ensures
        0 <= hex_seq_val(s) < pow2(4 * s.len()),
    decreases s.len(),
{
    if s.len() == 0 {
        assert(pow2(0) == 1) by {
            vstd::arithmetic::power2::lemma2_to64();
        }
    } else {
        assert(all_hex_digits(s.drop_last()));
        lemma_hex_seq_val_bound(s.drop_last());
        lemma_pow2_adds(4 * (s.len() - 1) as nat, 4);
        assert(pow2(4) == 16) by {
            vstd::arithmetic::power2::lemma2_to64();
        }
        assert(hex_seq_val(s.drop_last()) * 16 + hex_val(s.last()) < pow2(4 * (s.len() - 1) as nat)
            * 16) by (nonlinear_arith)
            requires
                hex_seq_val(s.drop_last()) < pow2(4 * (s.len() - 1) as nat),
                hex_val(s.last()) < 16,
        ;
    }
}

/// Rendering `width` digits of `n` and reading them back gives `n`, for
/// any `n` within the width.
pub proof fn lemma_hex_round_trip(n: int, width: nat)
    requires
        0 <= n < pow2(4 * width),
    ensures
        hex_seq_val(spec_hex_fixed(n, width)) == n,
    decreases width,
{
    if width == 0 {
        assert(pow2(0) == 1) by {
            vstd::arithmetic::power2::lemma2_to64();
        }
    } else {
        lemma_pow2_adds(4 * (width - 1) as nat, 4);
        assert(pow2(4) == 16) by {
            vstd::arithmetic::power2::lemma2_to64();
        }
        assert(n / 16 < pow2(4 * (width - 1) as nat)) by (nonlinear_arith)
            requires
                0 <= n < pow2(4 * (width - 1) as nat) * 16,
        ;
        lemma_hex_round_trip(n / 16, (width - 1) as nat);
        lemma_hex_fixed_shape(n / 16, (width - 1) as nat);
        assert(spec_hex_fixed(n, width).drop_last() =~= spec_hex_fixed(n / 16, (width - 1) as nat));
        assert(hex_val(hex_digit(n % 16)) == n % 16);
        assert((n / 16) * 16 + n % 16 == n) by (nonlinear_arith);
    }
}

fn hex_digit_char(d: u8) -> (c: char)
    requires
        d < 16,
    ensures
        c == hex_digit(d as int),
{
    if d == 0 {
        '0'
    } else if d == 1 {
        '1'
    } else if d == 2 {
        '2'
    } else if d == 3 {
        '3'
    } else if d == 4 {
        '4'
    } else if d == 5 {
        '5'
    } else if d == 6 {
        '6'
    } else if d == 7 {
        '7'
    } else if d == 8 {
        '8'
    } else if d == 9 {
        '9'
    } else if d == 10 {
        'a'
    } else if d == 11 {
        'b'
    } else if d == 12 {
        'c'
    } else if d == 13 {
        'd'
    } else if d == 14 {
        'e'
    } else {
        'f'
    }
}

/// Whether `c` is a hexadecimal digit; see [`is_hex_digit`].
fn is_hex_digit_char(c: char) -> (r: bool)
    ensures
        r == is_hex_digit(c),
{
    ('0' <= c && c <= '9') || ('a' <= c && c <= 'f') || ('A' <= c && c <= 'F')
}

/// The value of a hexadecimal digit character.
fn hex_val_char(c: char) -> (r: u32)
    requires
        is_hex_digit(c),
    ensures
        r == hex_val(c),
        r < 16,
{
    if '0' <= c && c <= '9' {
        c as u32 - 48
    } else if 'a' <= c && c <= 'f' {
        c as u32 - 97 + 10
    } else {
        c as u32 - 65 + 10
    }
}

/// Appends the lowest `width` hexadecimal digits of `n` to `out`, most
/// significant first.
fn push_hex_fixed(out: &mut Vec<char>, n: u64, width: u8)
    ensures
        final(out)@ == old(out)@ + spec_hex_fixed(n as int, width as nat),
    decreases width,
{
    if width == 0 {
        assert(out@ =~= out@ + spec_hex_fixed(n as int, 0));
    } else {
        push_hex_fixed(out, n / 16, width - 1);
        out.push(hex_digit_char((n % 16) as u8));
        assert(out@ =~= old(out)@ + spec_hex_fixed(n as int, width as nat));
    }
}

/// Reads `v[start..end]` as fixed-width hexadecimal: the denoted value, or
/// `None` when some character is not a hexadecimal digit.
#[verifier::loop_isolation(false)]
fn parse_hex_fixed(v: &Vec<char>, start: usize, end: usize) -> (r: Option<u64>)
    requires
        start <= end <= v.len(),
        end - start <= 15,
    ensures
        ({
            let t = v@.subrange(start as int, end as int);
            if all_hex_digits(t) {
                r == Some(hex_seq_val(t) as u64)
            } else {
                r is None
            }
        }),
{
    let ghost t = v@.subrange(start as int, end as int);
    proof {
        assert(pow2(0) == 1) by {
            vstd::arithmetic::power2::lemma2_to64();
        }
    }
    let mut acc: u64 = 0;
    let mut i: usize = start;
    while i < end
        invariant
            start <= i <= end,
            all_hex_digits(t.take(i - start)),
            acc == hex_seq_val(t.take(i - start)),
            acc < pow2(4 * (i - start) as nat),
        decreases end - i,
    {
        let c = v[i];
        if !is_hex_digit_char(c) {
            assert(!is_hex_digit(t[i - start]));
            return None;
        }
        let d = hex_val_char(c);
        proof {
            assert(t.take(i + 1 - start).drop_last() =~= t.take(i - start));
            assert(t.take(i + 1 - start).last() == t[i - start]);
            assert(all_hex_digits(t.take(i + 1 - start)));
            lemma_hex_seq_val_bound(t.take(i + 1 - start));
            lemma_pow2_adds(4 * (i - start) as nat, 4);
            assert(pow2(4) == 16) by {
                vstd::arithmetic::power2::lemma2_to64();
            }
            assert(pow2(60) <= u64::MAX) by {
                vstd::arithmetic::power2::lemma2_to64_rest();
            }
            assert(pow2(4 * (i + 1 - start) as nat) <= pow2(60)) by {
                if 4 * (i + 1 - start) < 60 {
                    vstd::arithmetic::power2::lemma_pow2_strictly_increases(
                        4 * (i + 1 - start) as nat,
                        60,
                    );
                }
            }
        }
        acc = acc * 16 + d as u64;
        i = i + 1;
    }
    proof {
        assert(t.take(end - start) =~= t);
    }
    Some(acc)
}

/// The hyphenated lowercase text of a 128-bit identifier: five groups of
/// 8, 4, 4, 4 and 12 hexadecimal digits.
pub open spec fn spec_uuid(n: int) -> Seq<char> {
    spec_hex_fixed(n / 0x1000000000000000000000000, 8) + seq!['-'] + spec_hex_fixed(
        (n / 0x100000000000000000000) % 0x10000,
        4,
    ) + seq!['-'] + spec_hex_fixed((n / 0x10000000000000000) % 0x10000, 4) + seq!['-']
        + spec_hex_fixed((n / 0x1000000000000) % 0x10000, 4) + seq!['-'] + spec_hex_fixed(
        n % 0x1000000000000,
        12,
    )
}

/// How identifier text is read back: 36 characters, hyphens between the
/// five digit groups, and the groups' digits weighed into one value.
pub open spec fn spec_parse_uuid(s: Seq<char>) -> Option<int> {
    if s.len() == 36 && s[8] == '-' && s[13] == '-' && s[18] == '-' && s[23] == '-'
        && all_hex_digits(s.subrange(0, 8)) && all_hex_digits(s.subrange(9, 13)) && all_hex_digits(
        s.subrange(14, 18),
    ) && all_hex_digits(s.subrange(19, 23)) && all_hex_digits(s.subrange(24, 36)) {
        Some(
            hex_seq_val(s.subrange(0, 8)) * 0x1000000000000000000000000 + hex_seq_val(
                s.subrange(9, 13),
            ) * 0x100000000000000000000 + hex_seq_val(s.subrange(14, 18)) * 0x10000000000000000
                + hex_seq_val(s.subrange(19, 23)) * 0x1000000000000 + hex_seq_val(
                s.subrange(24, 36),
            ),
        )
    } else {
        None
    }
}

/// Appends the hyphenated text of identifier `n` to `out`.
pub fn push_uuid(out: &mut Vec<char>, n: u128)
    ensures
        final(out)@ == old(out)@ + spec_uuid(n as int),
{
    proof {
        lemma_multiply_divide_lt(n as int, 0x1000000000000000000000000, 0x100000000);
    }
    let seg1: u64 = (n / 0x1000000000000000000000000) as u64;
    let seg2: u64 = ((n / 0x100000000000000000000) % 0x10000) as u64;
    let seg3: u64 = ((n / 0x10000000000000000) % 0x10000) as u64;
    let seg4: u64 = ((n / 0x1000000000000) % 0x10000) as u64;
    let seg5: u64 = (n % 0x1000000000000) as u64;
    push_hex_fixed(out, seg1, 8);
    out.push('-');
    push_hex_fixed(out, seg2, 4);
    out.push('-');
    push_hex_fixed(out, seg3, 4);
    out.push('-');
    push_hex_fixed(out, seg4, 4);
    out.push('-');
    push_hex_fixed(out, seg5, 12);
    assert(out@ =~= old(out)@ + spec_uuid(n as int));
}

/// Reads the 36 characters `v[at..at + 36]` as a hyphenated identifier, as
/// [`spec_parse_uuid`] says.
pub fn parse_uuid_at(v: &Vec<char>, at: usize) -> (r: Option<u128>)
    requires
        at + 36 <= v.len(),
    ensures
        ({
            let p = spec_parse_uuid(v@.subrange(at as int, at + 36));
            match r {
                Some(id) => p == Some(id as int),
                None => p is None,
            }
        }),
{
    let ghost s = v@.subrange(at as int, at + 36);
    if !(v[at + 8] == '-' && v[at + 13] == '-' && v[at + 18] == '-' && v[at + 23] == '-') {
        return None;
    }
    let ghost t1 = s.subrange(0, 8);
    let ghost t2 = s.subrange(9, 13);
    let ghost t3 = s.subrange(14, 18);
    let ghost t4 = s.subrange(19, 23);
    let ghost t5 = s.subrange(24, 36);
    proof {
        assert(t1 =~= v@.subrange(at as int, at + 8));
        assert(t2 =~= v@.subrange(at + 9, at + 13));
        assert(t3 =~= v@.subrange(at + 14, at + 18));
        assert(t4 =~= v@.subrange(at + 19, at + 23));
        assert(t5 =~= v@.subrange(at + 24, at + 36));
    }
    let r1 = parse_hex_fixed(v, at, at + 8);
    let r2 = parse_hex_fixed(v, at + 9, at + 13);
    let r3 = parse_hex_fixed(v, at + 14, at + 18);
    let r4 = parse_hex_fixed(v, at + 19, at + 23);
    let r5 = parse_hex_fixed(v, at + 24, at + 36);
    match (r1, r2, r3, r4, r5) {
        (Some(s1), Some(s2), Some(s3), Some(s4), Some(s5)) => {
            proof {
                lemma_hex_seq_val_bound(t1);
                lemma_hex_seq_val_bound(t2);
                lemma_hex_seq_val_bound(t3);
                lemma_hex_seq_val_bound(t4);
                lemma_hex_seq_val_bound(t5);
                vstd::arithmetic::power2::lemma2_to64();
                assert(pow2(48) == 0x1000000000000) by {
                    vstd::arithmetic::power2::lemma2_to64_rest();
                }
            }
            let id: u128 = (s1 as u128) * 0x1000000000000000000000000 + (s2 as u128)
                * 0x100000000000000000000 + (s3 as u128) * 0x10000000000000000 + (s4 as u128)
                * 0x1000000000000 + (s5 as u128);
            Some(id)
        },
        _ => {
            assert(spec_parse_uuid(s) is None);
            None
        },
    }
}

proof fn lemma_limb_recombine(
    n: int,
    q48: int,
    q64: int,
    q80: int,
    s1: int,
    s2: int,
    s3: int,
    s4: int,
    s5: int,
)
    requires
        n == 0x1000000000000 * q48 + s5,
        q48 == q64 * 0x10000 + s4,
        q64 == q80 * 0x10000 + s3,
        q80 == s1 * 0x10000 + s2,
    ensures
        n == s1 * 0x1000000000000000000000000 + s2 * 0x100000000000000000000 + s3
            * 0x10000000000000000 + s4 * 0x1000000000000 + s5,
{
    assert(n == q64 * 0x10000000000000000 + s4 * 0x1000000000000 + s5) by (nonlinear_arith)
        requires
            n == 0x1000000000000 * q48 + s5,
            q48 == q64 * 0x10000 + s4,
    ;
    assert(q64 * 0x10000000000000000 == q80 * 0x100000000000000000000 + s3 * 0x10000000000000000)
        by (nonlinear_arith)
        requires
            q64 == q80 * 0x10000 + s3,
    ;
    assert(q80 * 0x100000000000000000000 == s1 * 0x1000000000000000000000000 + s2
        * 0x100000000000000000000) by (nonlinear_arith)
        requires
            q80 == s1 * 0x10000 + s2,
    ;
}

/// Reading back the rendered text of any identifier gives the identifier.
pub proof fn lemma_uuid_round_trip(n: int)
    requires
        0 <= n < 0x100000000000000000000000000000000,
    ensures
        spec_uuid(n).len() == 36,
        spec_parse_uuid(spec_uuid(n)) == Some(n),
{
    let c96 = 0x1000000000000000000000000;
    let c80 = 0x100000000000000000000;
    let c64 = 0x10000000000000000;
    let c48 = 0x1000000000000;
    let c16 = 0x10000;
    let s1 = n / c96;
    let s2 = (n / c80) % c16;
    let s3 = (n / c64) % c16;
    let s4 = (n / c48) % c16;
    let s5 = n % c48;
    lemma_multiply_divide_lt(n, c96, 0x100000000);
    lemma_hex_fixed_shape(s1, 8);
    lemma_hex_fixed_shape(s2, 4);
    lemma_hex_fixed_shape(s3, 4);
    lemma_hex_fixed_shape(s4, 4);
    lemma_hex_fixed_shape(s5, 12);
    let u = spec_uuid(n);
    assert(u.len() == 36);
    assert(u[8] == '-' && u[13] == '-' && u[18] == '-' && u[23] == '-');
    assert(u.subrange(0, 8) =~= spec_hex_fixed(s1, 8));
    assert(u.subrange(9, 13) =~= spec_hex_fixed(s2, 4));
    assert(u.subrange(14, 18) =~= spec_hex_fixed(s3, 4));
    assert(u.subrange(19, 23) =~= spec_hex_fixed(s4, 4));
    assert(u.subrange(24, 36) =~= spec_hex_fixed(s5, 12));
    assert(pow2(32) == 0x100000000 && pow2(16) == 0x10000) by {
        vstd::arithmetic::power2::lemma2_to64();
    }
    assert(pow2(48) == 0x1000000000000) by {
        vstd::arithmetic::power2::lemma2_to64_rest();
    }
    lemma_hex_round_trip(s1, 8);
    lemma_hex_round_trip(s2, 4);
    lemma_hex_round_trip(s3, 4);
    lemma_hex_round_trip(s4, 4);
    lemma_hex_round_trip(s5, 12);
    lemma_fundamental_div_mod(n, c48);
    lemma_div_denominator(n, c48, c16);
    lemma_fundamental_div_mod(n / c48, c16);
    lemma_div_denominator(n, c64, c16);
    lemma_fundamental_div_mod(n / c64, c16);
    lemma_div_denominator(n, c80, c16);
    lemma_fundamental_div_mod(n / c80, c16);
    assert(n / c48 == (n / c64) * c16 + s4);
    assert(n / c64 == (n / c80) * c16 + s3);
    assert(n / c80 == s1 * c16 + s2);
    lemma_limb_recombine(n, n / c48, n / c64, n / c80, s1, s2, s3, s4, s5);
    assert(spec_parse_uuid(u) == Some(s1 * c96 + s2 * c80 + s3 * c64 + s4 * c48 + s5));
}

/// How one character is written inside a string: a quote and a backslash
/// get a backslash before them, every control character becomes a
/// four-digit escape, and any other character stands as itself.
pub open spec fn spec_escape_char(c: char) -> Seq<char> {
    if c == '"' {
        seq!['\\', '"']
    } else if c == '\\' {
        seq!['\\', '\\']
    } else if (c as u32) < 32 {
        seq![
            '\\',
            'u',
            '0',
            '0',
            hex_digit(c as u32 as int / 16),
            hex_digit(c as u32 as int % 16),
        ]
    } else {
        seq![c]
    }
}

/// The escaped text of a string's characters.
pub open spec fn spec_escape(s: Seq<char>) -> Seq<char>
    decreases s.len(),
{
    if s.len() == 0 {
        Seq::empty()
    } else {
        spec_escape_char(s[0]) + spec_escape(s.skip(1))
    }
}

/// Escaping extends over a one-character extension at the right.
proof fn lemma_escape_snoc(s: Seq<char>, i: int)
    requires
        0 <= i < s.len(),
    ensures
        spec_escape(s.take(i + 1)) == spec_escape(s.take(i)) + spec_escape_char(s[i]),
    decreases i,
{
    if i == 0 {
        assert(s.take(1)[0] == s[0]);
        assert(s.take(1).skip(1) =~= Seq::<char>::empty());
        assert(spec_escape(Seq::<char>::empty()) =~= Seq::<char>::empty());
        assert(spec_escape(s.take(1)) =~= spec_escape_char(s[0]));
        assert(s.take(0) =~= Seq::<char>::empty());
        assert(spec_escape(s.take(0)) + spec_escape_char(s[0]) =~= spec_escape_char(s[0]));
    } else {
        lemma_escape_snoc(s.skip(1), i - 1);
        assert(s.take(i + 1)[0] == s[0]);
        assert(s.take(i + 1).skip(1) =~= s.skip(1).take(i));
        assert(s.take(i)[0] == s[0]);
        assert(s.take(i).skip(1) =~= s.skip(1).take(i - 1));
        assert(s.skip(1)[i - 1] == s[i]);
        assert(spec_escape_char(s[0]) + (spec_escape(s.skip(1).take(i - 1)) + spec_escape_char(
            s[i],
        )) =~= (spec_escape_char(s[0]) + spec_escape(s.skip(1).take(i - 1))) + spec_escape_char(
            s[i],
        ));
    }
}

/// Appends the escaped text of `s` to `out`.
#[verifier::loop_isolation(false)]
pub fn push_escaped(out: &mut Vec<char>, s: &Vec<char>)
    ensures
        final(out)@ == old(out)@ + spec_escape(s@),
{
    let mut i: usize = 0;
    proof {
        assert(s@.take(0) =~= Seq::<char>::empty());
    }
    while i < s.len()
        invariant
            i <= s.len(),
            out@ == old(out)@ + spec_escape(s@.take(i as int)),
        decreases s.len() - i,
    {
        proof {
            lemma_escape_snoc(s@, i as int);
        }
        let c = s[i];
        if c == '"' {
            out.push('\\');
            out.push('"');
        } else if c == '\\' {
            out.push('\\');
            out.push('\\');
        } else if (c as u32) < 32 {
            let code = c as u32;
            out.push('\\');
            out.push('u');
            out.push('0');
            out.push('0');
            out.push(hex_digit_char((code / 16) as u8));
            out.push(hex_digit_char((code % 16) as u8));
        } else {
            out.push(c);
        }
        assert(out@ =~= old(out)@ + (spec_escape(s@.take(i as int)) + spec_escape_char(
            s@[i as int],
        )));
        i = i + 1;
    }
    assert(s@.take(s@.len() as int) =~= s@);
}

/// The character a one-letter escape stands for, if the letter is one.
pub open spec fn spec_unescape_code(e: char) -> Option<char> {
    if e == '"' {
        Some('"')
    } else if e == '\\' {
        Some('\\')
    } else if e == '/' {
        Some('/')
    } else if e == 'b' {
        Some('\u{8}')
    } else if e == 'f' {
        Some('\u{c}')
    } else if e == 'n' {
        Some('\n')
    } else if e == 'r' {
        Some('\r')
    } else if e == 't' {
        Some('\t')
    } else {
        None
    }
}

/// Reads string content from `s`, the text after an opening quote, up to
/// its closing quote: the decoded content and how many characters were
/// consumed, the closing quote included.  `None` when the text is not a
/// well-formed string remainder: it ends before a closing quote, holds a
/// bare control character, an unknown escape, or a four-digit escape that
/// names a surrogate.
pub open spec fn spec_take_string(s: Seq<char>) -> Option<(Seq<char>, int)>
    decreases s.len(),
{
    if s.len() == 0 {
        None
    } else if s[0] == '"' {
        Some((Seq::empty(), 1))
    } else if s[0] == '\\' {
        if s.len() < 2 {
            None
        } else if s[1] == 'u' {
            if s.len() >= 6 && is_hex_digit(s[2]) && is_hex_digit(s[3]) && is_hex_digit(s[4])
                && is_hex_digit(s[5]) {
                let code = hex_val(s[2]) * 4096 + hex_val(s[3]) * 256 + hex_val(s[4]) * 16
                    + hex_val(s[5]);
                if 0xd800 <= code && code < 0xe000 {
                    None
                } else {
                    match spec_take_string(s.skip(6)) {
                        Some(p) => Some((seq![(code as u32) as char] + p.0, p.1 + 6)),
                        None => None,
                    }
                }
            } else {
                None
            }
        } else {
            match spec_unescape_code(s[1]) {
                Some(c) => match spec_take_string(s.skip(2)) {
                    Some(p) => Some((seq![c] + p.0, p.1 + 2)),
                    None => None,
                },
                None => None,
            }
        }
    } else if (s[0] as u32) < 32 {
        None
    } else {
        match spec_take_string(s.skip(1)) {
            Some(p) => Some((seq![s[0]] + p.0, p.1 + 1)),
            None => None,
        }
    }
}

/// Relies on `char::from_u32`: `Some` exactly of a unicode scalar value,
/// holding the character with that value.
#[verifier::external_body]
fn char_from_u32(v: u32) -> (r: Option<char>)
    ensures
        r == if v < 0xd800 || (0xe000 <= v && v <= 0x10ffff) {
            Some(v as char)
        } else {
            None::<char>
        },
{
    char::from_u32(v)
}

/// Reads the string content beginning at `v[from]` (just after an opening
/// quote) as [`spec_take_string`] says: the content and the position right
/// after the closing quote.
#[verifier::loop_isolation(false)]
pub fn take_string(v: &Vec<char>, from: usize) -> (r: Option<(Vec<char>, usize)>)
    requires
        from <= v.len(),
    ensures
        ({
            let p = spec_take_string(v@.skip(from as int));
            match r {
                Some(pair) => p is Some && pair.0@ == p.unwrap().0 && pair.1 == from
                    + p.unwrap().1 && from < pair.1 <= v.len(),
                None => p is None,
            }
        }),
{
    let ghost whole = v@.skip(from as int);
    let mut out: Vec<char> = Vec::new();
    let mut j: usize = from;
    loop
        invariant
            from <= j <= v.len(),
            match (spec_take_string(whole), spec_take_string(v@.skip(j as int))) {
                (Some(p), Some(q)) => p.0 == out@ + q.0 && p.1 == j - from + q.1,
                (None, None) => true,
                _ => false,
            },
        decreases v.len() - j,
    {
        let ghost s = v@.skip(j as int);
        if j >= v.len() {
            assert(spec_take_string(s) is None);
            return None;
        }
        assert(s[0] == v@[j as int]);
        let c = v[j];
        if c == '"' {
            assert(out@ + Seq::<char>::empty() =~= out@);
            return Some((out, j + 1));
        }
        if c == '\\' {
            if v.len() - j < 2 {
                assert(spec_take_string(s) is None);
                return None;
            }
            assert(s[1] == v@[j + 1]);
            let e = v[j + 1];
            if e == 'u' {
                if v.len() - j < 6 {
                    assert(spec_take_string(s) is None);
                    return None;
                }
                assert(s[2] == v@[j + 2] && s[3] == v@[j + 3] && s[4] == v@[j + 4] && s[5] == v@[j
                    + 5]);
                let h3 = v[j + 2];
                let h2 = v[j + 3];
                let h1 = v[j + 4];
                let h0 = v[j + 5];
                if !(is_hex_digit_char(h3) && is_hex_digit_char(h2) && is_hex_digit_char(h1)
                    && is_hex_digit_char(h0)) {
                    assert(spec_take_string(s) is None);
                    return None;
                }
                let code: u32 = hex_val_char(h3) * 4096 + hex_val_char(h2) * 256 + hex_val_char(h1)
                    * 16 + hex_val_char(h0);
                if 0xd800 <= code && code < 0xe000 {
                    assert(spec_take_string(s) is None);
                    return None;
                }
                let decoded_opt = char_from_u32(code);
                match decoded_opt {
                    Some(decoded) => {
                        out.push(decoded);
                        proof {
                            assert(s.skip(6) =~= v@.skip(j + 6));
                        }
                        j = j + 6;
                    },
                    None => {
                        proof {
                            assert(false);
                        }
                    },
                }
            } else {
                let decoded_opt = unescape_code(e);
                match decoded_opt {
                    Some(decoded) => {
                        out.push(decoded);
                        proof {
                            assert(s.skip(2) =~= v@.skip(j + 2));
                        }
                        j = j + 2;
                    },
                    None => {
                        assert(spec_take_string(s) is None);
                        return None;
                    },
                }
            }
        } else if (c as u32) < 32 {
            assert(spec_take_string(s) is None);
            return None;
        } else {
            out.push(c);
            proof {
                assert(s.skip(1) =~= v@.skip(j + 1));
            }
            j = j + 1;
        }
    }
}

/// The character a one-letter escape stands for; see [`spec_unescape_code`].
fn unescape_code(e: char) -> (r: Option<char>)
    ensures
        r == spec_unescape_code(e),
{
    if e == '"' {
        Some('"')
    } else if e == '\\' {
        Some('\\')
    } else if e == '/' {
        Some('/')
    } else if e == 'b' {
        Some('\u{8}')
    } else if e == 'f' {
        Some('\u{c}')
    } else if e == 'n' {
        Some('\n')
    } else if e == 'r' {
        Some('\r')
    } else if e == 't' {
        Some('\t')
    } else {
        None
    }
}

/// Reading escaped text back, up to its closing quote, gives the characters
/// that were escaped and stops exactly at the quote, whatever follows it.
pub proof fn lemma_take_escaped(t: Seq<char>, rest: Seq<char>)
    ensures
        spec_take_string(spec_escape(t) + seq!['"'] + rest) == Some(
            (t, spec_escape(t).len() + 1 as int),
        ),
    decreases t.len(),
{
    let s = spec_escape(t) + seq!['"'] + rest;
    if t.len() == 0 {
        assert(s =~= seq!['"'] + rest);
        assert(s[0] == '"');
        assert(t =~= Seq::<char>::empty());
    } else {
        let c = t[0];
        let tail = t.skip(1);
        lemma_take_escaped(tail, rest);
        let s2 = spec_escape(tail) + seq!['"'] + rest;
        assert(spec_escape(t) == spec_escape_char(c) + spec_escape(tail));
        if c == '"' || c == '\\' {
            assert(s[0] == '\\' && s[1] == spec_escape_char(c)[1]);
            assert(s.skip(2) =~= s2);
            assert(spec_unescape_code(spec_escape_char(c)[1]) == Some(c));
            assert(seq![c] + tail =~= t);
        } else if (c as u32) < 32 {
            let cc = c as u32 as int;
            assert(s[0] == '\\' && s[1] == 'u' && s[2] == '0' && s[3] == '0' && s[4] == hex_digit(
                cc / 16,
            ) && s[5] == hex_digit(cc % 16));
            assert(hex_val(s[2]) == 0 && hex_val(s[3]) == 0);
            assert(cc / 16 < 2 && hex_val(hex_digit(cc / 16)) == cc / 16);
            assert(hex_val(hex_digit(cc % 16)) == cc % 16);
            let code = hex_val(s[2]) * 4096 + hex_val(s[3]) * 256 + hex_val(s[4]) * 16 + hex_val(
                s[5],
            );
            assert(code == (cc / 16) * 16 + cc % 16);
            assert(code == cc);
            assert(!(0xd800 <= code && code < 0xe000));
            assert(s.skip(6) =~= s2);
            vstd::utf8::char_u32_cast(c, c as u32);
            assert((code as u32) as char == c);
            assert(seq![c] + tail =~= t);
        } else {
            assert(s[0] == c);
            assert(s.skip(1) =~= s2);
            assert(seq![c] + tail =~= t);
        }
    }
}


/// The text of a message state on the wire.
pub open spec fn spec_state_text(st: MessageState) -> Seq<char> {
    match st {
        MessageState::Ready => "Ready"@,
        MessageState::Processing => "Processing"@,
        MessageState::Failed => "Failed"@,
    }
}

/// The text of the optional lock field: nothing when the lock is absent.
pub open spec fn spec_lock_field(lock: Option<Seq<char>>) -> Seq<char> {
    match lock {
        Some(t) => ",\"lock_until\":\""@ + spec_escape(t) + "\""@,
        None => Seq::<char>::empty(),
    }
}

/// The wire text of one message record.
pub open spec fn spec_encode_message(m: MessageView) -> Seq<char> {
    "{\"id\":\""@ + spec_uuid(m.id as int) + "\",\"body\":\""@ + spec_escape(m.body)
        + "\",\"state\":\""@ + spec_state_text(m.state) + "\""@ + spec_lock_field(m.lock_until)
        + ",\"retry_count\":"@ + spec_dec(m.retry_count as int) + "}"@
}

/// The position after `lit` when `lit` stands at `i` in `s`.
pub open spec fn spec_expect(s: Seq<char>, i: int, lit: Seq<char>) -> Option<int> {
    if 0 <= i && i + lit.len() <= s.len() && s.subrange(i, i + lit.len()) == lit {
        Some(i + lit.len())
    } else {
        None
    }
}

/// The first index at or after `i` holding no decimal digit, or the length.
pub open spec fn spec_digits_end(s: Seq<char>, i: int) -> int
    decreases s.len() - i,
{
    if i < 0 || i >= s.len() {
        s.len() as int
    } else if is_dec_digit(s[i]) {
        spec_digits_end(s, i + 1)
    } else {
        i
    }
}

/// Everything up to the digits' end is a digit, and the end stands at a
/// non-digit or the end of the text.
pub proof fn lemma_digits_end(s: Seq<char>, i: int)
    requires
        0 <= i <= s.len(),
    ensures
        i <= spec_digits_end(s, i) <= s.len(),
        all_dec_digits(s.subrange(i, spec_digits_end(s, i))),
        spec_digits_end(s, i) < s.len() ==> !is_dec_digit(s[spec_digits_end(s, i)]),
    decreases s.len() - i,
{
    if i < s.len() && is_dec_digit(s[i]) {
        lemma_digits_end(s, i + 1);
        let e = spec_digits_end(s, i);
        assert forall|k: int| 0 <= k < e - i implies is_dec_digit(#[trigger] s.subrange(i, e)[k]) by {
            assert(s.subrange(i, e)[k] == s[i + k]);
            if k > 0 {
                assert(is_dec_digit(s.subrange(i + 1, e)[k - 1]));
            }
        }
    }
}

/// A run of digits followed by a non-digit ends exactly at the non-digit.
pub proof fn lemma_digits_end_at(s: Seq<char>, i: int, j: int)
    requires
        0 <= i <= j <= s.len(),
        forall|k: int| i <= k < j ==> is_dec_digit(#[trigger] s[k]),
        j == s.len() || !is_dec_digit(s[j]),
    ensures
        spec_digits_end(s, i) == j,
    decreases j - i,
{
    if i < j {
        lemma_digits_end_at(s, i + 1, j);
    }
}

/// An unsigned 32-bit count read at `i`: the value of the digit run there
/// and the position after it; `None` when no digit stands at `i` or the
/// value needs more than 32 bits.
pub open spec fn spec_parse_u32_at(s: Seq<char>, i: int) -> Option<(u32, int)> {
    let j = spec_digits_end(s, i);
    if j == i {
        None
    } else if dec_seq_val(s.subrange(i, j)) <= u32::MAX {
        Some((dec_seq_val(s.subrange(i, j)) as u32, j))
    } else {
        None
    }
}

/// A message state read at `i`: the state text with its closing quote.
pub open spec fn spec_parse_state(s: Seq<char>, i: int) -> Option<(MessageState, int)> {
    match spec_expect(s, i, "Ready\""@) {
        Some(n) => Some((MessageState::Ready, n)),
        None => match spec_expect(s, i, "Processing\""@) {
            Some(n) => Some((MessageState::Processing, n)),
            None => match spec_expect(s, i, "Failed\""@) {
                Some(n) => Some((MessageState::Failed, n)),
                None => None,
            },
        },
    }
}

/// The optional lock field read at `i`: an absent field and a `null` both
/// mean no lock; a string is the lock's text.
pub open spec fn spec_parse_lock(s: Seq<char>, i: int) -> Option<(Option<Seq<char>>, int)> {
    match spec_expect(s, i, ",\"lock_until\":"@) {
        None => Some((None, i)),
        Some(j) => match spec_expect(s, j, "null"@) {
            Some(k) => Some((None, k)),
            None => {
                if j < s.len() && s[j] == '\"' {
                    match spec_take_string(s.skip(j + 1)) {
                        Some(p) => Some((Some(p.0), j + 1 + p.1)),
                        None => None,
                    }
                } else {
                    None
                }
            },
        },
    }
}

/// One message record read at `i`: the record and the position after its
/// closing brace.
pub open spec fn spec_parse_message_at(s: Seq<char>, i: int) -> Option<(MessageView, int)> {
    match spec_expect(s, i, "{\"id\":\""@) {
        None => None,
        Some(i1) => {
            if i1 + 36 <= s.len() {
                match spec_parse_uuid(s.subrange(i1, i1 + 36)) {
                    None => None,
                    Some(idv) => {
                        if 0 <= idv < 0x100000000000000000000000000000000 {
                            match spec_expect(s, i1 + 36, "\",\"body\":\""@) {
                                None => None,
                                Some(i3) => match spec_take_string(s.skip(i3)) {
                                    None => None,
                                    Some(bp) => {
                                        let i4 = i3 + bp.1;
                                        match spec_expect(s, i4, ",\"state\":\""@) {
                                            None => None,
                                            Some(i5) => match spec_parse_state(s, i5) {
                                                None => None,
                                                Some(sp) => match spec_parse_lock(s, sp.1) {
                                                    None => None,
                                                    Some(lp) => match spec_expect(
                                                        s,
                                                        lp.1,
                                                        ",\"retry_count\":"@,
                                                    ) {
                                                        None => None,
                                                        Some(i6) => match spec_parse_u32_at(
                                                            s,
                                                            i6,
                                                        ) {
                                                            None => None,
                                                            Some(rp) => match spec_expect(
                                                                s,
                                                                rp.1,
                                                                "}"@,
                                                            ) {
                                                                None => None,
                                                                Some(i7) => Some(
                                                                    (
                                                                        MessageView {
                                                                            id: idv as u128,
                                                                            body: bp.0,
                                                                            state: sp.0,
                                                                            lock_until: lp.0,
                                                                            retry_count: rp.0,
                                                                        },
                                                                        i7,
                                                                    ),
                                                                ),
                                                            },
                                                        },
                                                    },
                                                },
                                            },
                                        }
                                    },
                                },
                            }
                        } else {
                            None
                        }
                    },
                }
            } else {
                None
            }
        },
    }
}

/// A whole response that is one message record and nothing more.
pub open spec fn spec_parse_message(s: Seq<char>) -> Option<MessageView> {
    match spec_parse_message_at(s, 0) {
        Some(p) => if p.1 == s.len() {
            Some(p.0)
        } else {
            None
        },
        None => None,
    }
}

/// Message records from `i` on, each followed by a comma or the closing
/// bracket, up to and including the bracket.
pub open spec fn spec_parse_messages_rest(s: Seq<char>, i: int) -> Option<(Seq<MessageView>, int)>
    decreases s.len() - i,
{
    match spec_parse_message_at(s, i) {
        None => None,
        Some(p) => {
            if p.1 <= i {
                None
            } else if p.1 < s.len() && s[p.1] == ',' {
                match spec_parse_messages_rest(s, p.1 + 1) {
                    Some(q) => Some((seq![p.0] + q.0, q.1)),
                    None => None,
                }
            } else if p.1 < s.len() && s[p.1] == ']' {
                Some((seq![p.0], p.1 + 1))
            } else {
                None
            }
        },
    }
}

/// A whole response that is a bracketed list of message records and
/// nothing more.
pub open spec fn spec_parse_messages(s: Seq<char>) -> Option<Seq<MessageView>> {
    if s.len() >= 2 && s[0] == '[' {
        if s.len() == 2 && s[1] == ']' {
            Some(Seq::<MessageView>::empty())
        } else {
            match spec_parse_messages_rest(s, 1) {
                Some(p) => if p.1 == s.len() {
                    Some(p.0)
                } else {
                    None
                },
                None => None,
            }
        }
    } else {
        None
    }
}

/// A whole response that is one string and nothing more.
pub open spec fn spec_parse_json_string(s: Seq<char>) -> Option<Seq<char>> {
    if s.len() >= 1 && s[0] == '\"' {
        match spec_take_string(s.skip(1)) {
            Some(p) => if 1 + p.1 == s.len() {
                Some(p.0)
            } else {
                None
            },
            None => None,
        }
    } else {
        None
    }
}


/// Appends the characters of `lit` to `out`.
fn push_str_chars(out: &mut Vec<char>, lit: &str)
    ensures
        final(out)@ == old(out)@ + lit@,
{
    let mut cs = crate::text::str_to_chars(lit);
    out.append(&mut cs);
}

/// The wire text of one message record, as [`spec_encode_message`] says.
pub fn encode_message(m: &Message) -> (s: String)
    ensures
        s@ == spec_encode_message(m@),
{
    let mut out: Vec<char> = Vec::new();
    push_str_chars(&mut out, "{\"id\":\"");
    push_uuid(&mut out, m.id);
    push_str_chars(&mut out, "\",\"body\":\"");
    let body_chars = crate::text::str_to_chars(m.body.as_str());
    push_escaped(&mut out, &body_chars);
    push_str_chars(&mut out, "\",\"state\":\"");
    match m.state {
        MessageState::Ready => push_str_chars(&mut out, "Ready"),
        MessageState::Processing => push_str_chars(&mut out, "Processing"),
        MessageState::Failed => push_str_chars(&mut out, "Failed"),
    }
    push_str_chars(&mut out, "\"");
    match &m.lock_until {
        Some(t) => {
            push_str_chars(&mut out, ",\"lock_until\":\"");
            let lock_chars = crate::text::str_to_chars(t.as_str());
            push_escaped(&mut out, &lock_chars);
            push_str_chars(&mut out, "\"");
        },
        None => {},
    }
    push_str_chars(&mut out, ",\"retry_count\":");
    let mut digits = crate::text::u64_to_dec(m.retry_count as u64);
    out.append(&mut digits);
    push_str_chars(&mut out, "}");
    assert(out@ =~= spec_encode_message(m@));
    crate::text::chars_to_string(&out)
}

/// The payload of an add request: the body as one string field.
pub open spec fn spec_encode_add(body: Seq<char>) -> Seq<char> {
    "{\"body\":\""@ + spec_escape(body) + "\"}"@
}

/// The payload of an add request, as [`spec_encode_add`] says.
pub fn encode_add_request(req: &AddMessageRequest) -> (s: String)
    ensures
        s@ == spec_encode_add(req.body@),
{
    let mut out: Vec<char> = Vec::new();
    push_str_chars(&mut out, "{\"body\":\"");
    let body_chars = crate::text::str_to_chars(req.body.as_str());
    push_escaped(&mut out, &body_chars);
    push_str_chars(&mut out, "\"}");
    assert(out@ =~= spec_encode_add(req.body@));
    crate::text::chars_to_string(&out)
}

/// The payload of a get request: the count as one numeric field.
pub open spec fn spec_encode_get(count: u32) -> Seq<char> {
    "{\"count\":"@ + spec_dec(count as int) + "}"@
}

/// The payload of a get request, as [`spec_encode_get`] says.
pub fn encode_get_request(req: &GetMessagesRequest) -> (s: String)
    ensures
        s@ == spec_encode_get(req.count),
{
    let mut out: Vec<char> = Vec::new();
    push_str_chars(&mut out, "{\"count\":");
    let mut digits = crate::text::u64_to_dec(req.count as u64);
    out.append(&mut digits);
    push_str_chars(&mut out, "}");
    assert(out@ =~= spec_encode_get(req.count));
    crate::text::chars_to_string(&out)
}

/// The identifiers as quoted texts separated by commas.
pub open spec fn spec_ids_list(ids: Seq<u128>) -> Seq<char>
    decreases ids.len(),
{
    if ids.len() == 0 {
        Seq::<char>::empty()
    } else if ids.len() == 1 {
        seq!['"'] + spec_uuid(ids[0] as int) + seq!['"']
    } else {
        seq!['"'] + spec_uuid(ids[0] as int) + seq!['"'] + seq![','] + spec_ids_list(ids.skip(1))
    }
}

/// The payload of a delete or retry request: the identifiers as one list
/// field.
pub open spec fn spec_encode_ids(ids: Seq<u128>) -> Seq<char> {
    "{\"ids\":["@ + spec_ids_list(ids) + "]}"@
}

/// The payload of a delete or retry request, as [`spec_encode_ids`] says.
#[verifier::loop_isolation(false)]
pub fn encode_ids_request(ids: &Vec<u128>) -> (s: String)
    ensures
        s@ == spec_encode_ids(ids@),
{
    let mut out: Vec<char> = Vec::new();
    push_str_chars(&mut out, "{\"ids\":[");
    let ghost prefix = out@;
    proof {
        assert(ids@.skip(0) =~= ids@);
    }
    let mut i: usize = 0;
    while i < ids.len()
        invariant
            i <= ids.len(),
            out@ + spec_ids_list(ids@.skip(i as int)) == prefix + spec_ids_list(ids@),
        decreases ids.len() - i,
    {
        let ghost pending = ids@.skip(i as int);
        assert(pending[0] == ids@[i as int]);
        out.push('"');
        push_uuid(&mut out, ids[i]);
        out.push('"');
        if i + 1 < ids.len() {
            out.push(',');
        }
        proof {
            assert(pending.skip(1) =~= ids@.skip(i + 1));
            if i + 1 < ids.len() {
                assert(spec_ids_list(pending) =~= seq!['"'] + spec_uuid(pending[0] as int)
                    + seq!['"'] + seq![','] + spec_ids_list(ids@.skip(i + 1)));
            } else {
                assert(ids@.skip(i + 1) =~= Seq::<u128>::empty());
                assert(spec_ids_list(pending) =~= seq!['"'] + spec_uuid(pending[0] as int)
                    + seq!['"']);
            }
            assert(out@ + spec_ids_list(ids@.skip(i + 1)) =~= prefix + spec_ids_list(ids@));
        }
        i = i + 1;
    }
    proof {
        assert(ids@.skip(ids@.len() as int) =~= Seq::<u128>::empty());
    }
    push_str_chars(&mut out, "]}");
    assert(out@ =~= spec_encode_ids(ids@));
    crate::text::chars_to_string(&out)
}

/// The payload of a delete request, as [`spec_encode_ids`] says.
pub fn encode_delete_request(req: &DeleteMessagesRequest) -> (s: String)
    ensures
        s@ == spec_encode_ids(req.ids@),
{
    encode_ids_request(&req.ids)
}

/// The payload of a retry request, as [`spec_encode_ids`] says.
pub fn encode_retry_request(req: &RetryMessagesRequest) -> (s: String)
    ensures
        s@ == spec_encode_ids(req.ids@),
{
    encode_ids_request(&req.ids)
}

/// The position after `lit` when it stands at `i`, as [`spec_expect`] says.
#[verifier::loop_isolation(false)]
fn expect_at(v: &Vec<char>, i: usize, lit: &Vec<char>) -> (r: Option<usize>)
    requires
        i <= v.len(),
    ensures
        match r {
            Some(n) => spec_expect(v@, i as int, lit@) == Some(n as int) && n == i + lit.len()
                && n <= v.len(),
            None => spec_expect(v@, i as int, lit@) is None,
        },
{
    if v.len() - i < lit.len() {
        return None;
    }
    let mut j: usize = 0;
    while j < lit.len()
        invariant
            j <= lit.len(),
            forall|k: int| 0 <= k < j ==> v@[i + k] == lit@[k],
        decreases lit.len() - j,
    {
        if v[i + j] != lit[j] {
            assert(v@.subrange(i as int, i + lit@.len())[j as int] != lit@[j as int]);
            return None;
        }
        j = j + 1;
    }
    assert(v@.subrange(i as int, i + lit@.len()) =~= lit@);
    Some(i + lit.len())
}

/// The end of the digit run at `from`, as [`spec_digits_end`] says.
#[verifier::loop_isolation(false)]
fn digits_end_in(v: &Vec<char>, from: usize) -> (r: usize)
    requires
        from <= v.len(),
    ensures
        r == spec_digits_end(v@, from as int),
        from <= r <= v.len(),
{
    let mut i: usize = from;
    while i < v.len() && '0' <= v[i] && v[i] <= '9'
        invariant
            from <= i <= v.len(),
            spec_digits_end(v@, from as int) == spec_digits_end(v@, i as int),
        decreases v.len() - i,
    {
        i = i + 1;
    }
    i
}

/// An unsigned 32-bit count at `from`, as [`spec_parse_u32_at`] says.
#[verifier::loop_isolation(false)]
fn parse_u32_at(v: &Vec<char>, from: usize) -> (r: Option<(u32, usize)>)
    requires
        from <= v.len(),
    ensures
        match (r, spec_parse_u32_at(v@, from as int)) {
            (Some(p), Some(q)) => p.0 == q.0 && p.1 == q.1 && from < p.1 <= v.len(),
            (None, None) => true,
            _ => false,
        },
{
    let end = digits_end_in(v, from);
    if end == from {
        return None;
    }
    proof {
        lemma_digits_end(v@, from as int);
    }
    let ghost digits = v@.subrange(from as int, end as int);
    let mut acc: u64 = 0;
    let mut i: usize = from;
    while i < end
        invariant
            from <= i <= end <= v.len(),
            digits == v@.subrange(from as int, end as int),
            all_dec_digits(digits),
            acc == dec_seq_val(digits.take(i - from)),
            acc <= u32::MAX,
        decreases end - i,
    {
        assert(is_dec_digit(digits[i - from]));
        let c = v[i];
        let d: u64 = c as u64 - 48;
        proof {
            assert(digits.take(i + 1 - from).drop_last() =~= digits.take(i - from));
            assert(digits.take(i + 1 - from).last() == digits[i - from]);
        }
        let next = acc * 10 + d;
        if next > u32::MAX as u64 {
            proof {
                crate::text::lemma_dec_seq_val_prefix(digits, i + 1 - from);
            }
            return None;
        }
        acc = next;
        i = i + 1;
    }
    proof {
        assert(digits.take(end - from) =~= digits);
    }
    Some((acc as u32, end))
}

/// A message state at `i`, as [`spec_parse_state`] says.
fn parse_state_at(v: &Vec<char>, i: usize) -> (r: Option<(MessageState, usize)>)
    requires
        i <= v.len(),
    ensures
        match (r, spec_parse_state(v@, i as int)) {
            (Some(p), Some(q)) => p.0 == q.0 && p.1 == q.1 && i < p.1 <= v.len(),
            (None, None) => true,
            _ => false,
        },
{
    proof {
        reveal_strlit("Ready\"");
        reveal_strlit("Processing\"");
        reveal_strlit("Failed\"");
    }
    let lit_ready = crate::text::str_to_chars("Ready\"");
    match expect_at(v, i, &lit_ready) {
        Some(n) => {
            return Some((MessageState::Ready, n));
        },
        None => {},
    }
    let lit_processing = crate::text::str_to_chars("Processing\"");
    match expect_at(v, i, &lit_processing) {
        Some(n) => {
            return Some((MessageState::Processing, n));
        },
        None => {},
    }
    let lit_failed = crate::text::str_to_chars("Failed\"");
    match expect_at(v, i, &lit_failed) {
        Some(n) => {
            return Some((MessageState::Failed, n));
        },
        None => {},
    }
    None
}

/// The optional lock field at `i`, as [`spec_parse_lock`] says.
fn parse_lock_at(v: &Vec<char>, i: usize) -> (r: Option<(Option<String>, usize)>)
    requires
        i <= v.len(),
    ensures
        match (r, spec_parse_lock(v@, i as int)) {
            (Some(p), Some(q)) => (match (p.0, q.0) {
                (Some(t), Some(tv)) => t@ == tv,
                (None, None) => true,
                _ => false,
            }) && p.1 == q.1 && i <= p.1 <= v.len(),
            (None, None) => true,
            _ => false,
        },
{
    proof {
        reveal_strlit(",\"lock_until\":");
        reveal_strlit("null");
    }
    let lit_lock = crate::text::str_to_chars(",\"lock_until\":");
    let j = match expect_at(v, i, &lit_lock) {
        Some(n) => n,
        None => {
            return Some((None, i));
        },
    };
    let lit_null = crate::text::str_to_chars("null");
    match expect_at(v, j, &lit_null) {
        Some(k) => {
            return Some((None, k));
        },
        None => {},
    }
    if j < v.len() && v[j] == '"' {
        match take_string(v, j + 1) {
            Some((content, next)) => {
                let text = crate::text::chars_to_string(&content);
                Some((Some(text), next))
            },
            None => None,
        }
    } else {
        None
    }
}

/// One message record at `i`, as [`spec_parse_message_at`] says.
fn parse_message_at(v: &Vec<char>, i: usize) -> (r: Option<(Message, usize)>)
    requires
        i <= v.len(),
    ensures
        match (r, spec_parse_message_at(v@, i as int)) {
            (Some(p), Some(q)) => p.0@ == q.0 && p.1 == q.1 && i < p.1 <= v.len(),
            (None, None) => true,
            _ => false,
        },
{
    proof {
        reveal_strlit("{\"id\":\"");
        reveal_strlit("\",\"body\":\"");
        reveal_strlit(",\"state\":\"");
        reveal_strlit(",\"retry_count\":");
        reveal_strlit("}");
    }
    let lit_id = crate::text::str_to_chars("{\"id\":\"");
    let i1 = match expect_at(v, i, &lit_id) {
        Some(n) => n,
        None => {
            return None;
        },
    };
    if v.len() - i1 < 36 {
        return None;
    }
    let idv = match parse_uuid_at(v, i1) {
        Some(x) => x,
        None => {
            return None;
        },
    };
    let lit_body = crate::text::str_to_chars("\",\"body\":\"");
    let i3 = match expect_at(v, i1 + 36, &lit_body) {
        Some(n) => n,
        None => {
            return None;
        },
    };
    let (body_chars, i4) = match take_string(v, i3) {
        Some(p) => p,
        None => {
            return None;
        },
    };
    let lit_state = crate::text::str_to_chars(",\"state\":\"");
    let i5 = match expect_at(v, i4, &lit_state) {
        Some(n) => n,
        None => {
            return None;
        },
    };
    let (state, i6) = match parse_state_at(v, i5) {
        Some(p) => p,
        None => {
            return None;
        },
    };
    let (lock, i7) = match parse_lock_at(v, i6) {
        Some(p) => p,
        None => {
            return None;
        },
    };
    let lit_retry = crate::text::str_to_chars(",\"retry_count\":");
    let i8 = match expect_at(v, i7, &lit_retry) {
        Some(n) => n,
        None => {
            return None;
        },
    };
    let (rc, i9) = match parse_u32_at(v, i8) {
        Some(p) => p,
        None => {
            return None;
        },
    };
    let lit_end = crate::text::str_to_chars("}");
    let i10 = match expect_at(v, i9, &lit_end) {
        Some(n) => n,
        None => {
            return None;
        },
    };
    let body = crate::text::chars_to_string(&body_chars);
    Some((Message { id: idv, body, state, lock_until: lock, retry_count: rc }, i10))
}

/// Reads a whole response as one message record, as
/// [`spec_parse_message`] says; `None` on any malformed or trailing text.
pub fn decode_message(s: &str) -> (r: Option<Message>)
    ensures
        match (r, spec_parse_message(s@)) {
            (Some(m), Some(mv)) => m@ == mv,
            (None, None) => true,
            _ => false,
        },
{
    let v = crate::text::str_to_chars(s);
    match parse_message_at(&v, 0) {
        Some((m, next)) => {
            if next == v.len() {
                Some(m)
            } else {
                None
            }
        },
        None => None,
    }
}

/// Reads a whole response as a list of message records, as
/// [`spec_parse_messages`] says; `None` on any malformed or trailing text.
#[verifier::loop_isolation(false)]
pub fn decode_messages(s: &str) -> (r: Option<Vec<Message>>)
    ensures
        match (r, spec_parse_messages(s@)) {
            (Some(ms), Some(vs)) => ms@.len() == vs.len() && (forall|k: int|
                0 <= k < vs.len() ==> #[trigger] ms@[k]@ == vs[k]),
            (None, None) => true,
            _ => false,
        },
{
    let v = crate::text::str_to_chars(s);
    if v.len() < 2 || v[0] != '[' {
        return None;
    }
    if v.len() == 2 {
        if v[1] == ']' {
            return Some(Vec::new());
        }
    }
    let mut out: Vec<Message> = Vec::new();
    let ghost mut acc = Seq::<MessageView>::empty();
    let mut i: usize = 1;
    loop
        invariant
            1 <= i <= v.len(),
            v@.len() >= 2 && v@[0] == '[',
            !(v@.len() == 2 && v@[1] == ']'),
            out@.len() == acc.len(),
            forall|k: int| 0 <= k < acc.len() ==> #[trigger] out@[k]@ == acc[k],
            match (spec_parse_messages_rest(v@, 1), spec_parse_messages_rest(v@, i as int)) {
                (Some(p), Some(q)) => p.0 == acc + q.0 && p.1 == q.1,
                (None, None) => true,
                _ => false,
            },
        decreases v.len() - i,
    {
        let (m, next) = match parse_message_at(&v, i) {
            Some(p) => p,
            None => {
                return None;
            },
        };
        let ghost mv = m@;
        out.push(m);
        proof {
            acc = acc + seq![mv];
        }
        if next < v.len() && v[next] == ',' {
            proof {
                let q = spec_parse_messages_rest(v@, i as int);
                let q2 = spec_parse_messages_rest(v@, next + 1);
                if q is Some {
                    assert(q.unwrap().0 =~= seq![mv] + q2.unwrap().0);
                }
                if spec_parse_messages_rest(v@, 1) is Some {
                    assert(spec_parse_messages_rest(v@, 1).unwrap().0 =~= acc
                        + q2.unwrap().0);
                }
            }
            i = next + 1;
        } else if next < v.len() && v[next] == ']' {
            proof {
                if spec_parse_messages_rest(v@, 1) is Some {
                    assert(spec_parse_messages_rest(v@, 1).unwrap().0 =~= acc);
                }
            }
            if next + 1 == v.len() {
                return Some(out);
            } else {
                return None;
            }
        } else {
            return None;
        }
    }
}

/// Reads a whole response as one string, as [`spec_parse_json_string`]
/// says; `None` on any malformed or trailing text.
pub fn decode_json_string(s: &str) -> (r: Option<String>)
    ensures
        match (r, spec_parse_json_string(s@)) {
            (Some(t), Some(tv)) => t@ == tv,
            (None, None) => true,
            _ => false,
        },
{
    let v = crate::text::str_to_chars(s);
    if v.len() == 0 {
        return None;
    }
    if v[0] != '"' {
        return None;
    }
    match take_string(&v, 1) {
        Some((content, next)) => {
            if next == v.len() {
                Some(crate::text::chars_to_string(&content))
            } else {
                None
            }
        },
        None => None,
    }
}


proof fn lemma_expect_here(s: Seq<char>, a: Seq<char>, lit: Seq<char>, b: Seq<char>)
    requires
        s == a + lit + b,
    ensures
        spec_expect(s, a.len() as int, lit) == Some(a.len() + lit.len() as int),
{
    assert(s.subrange(a.len() as int, a.len() + lit.len() as int) =~= lit);
}

#[verifier::rlimit(100)]
#[verifier::spinoff_prover]
proof fn lemma_rt_head(m: MessageView)
    ensures
        ({
            let s = spec_encode_message(m);
            let e = spec_escape(m.body);
            &&& s.len() == 54 + e.len() + 11 + spec_state_text(m.state).len() + spec_lock_field(
                m.lock_until,
            ).len() + 15 + spec_dec(m.retry_count as int).len() + 1
            &&& spec_expect(s, 0, "{\"id\":\""@) == Some(7int)
            &&& spec_parse_uuid(s.subrange(7, 43)) == Some(m.id as int)
            &&& spec_expect(s, 43, "\",\"body\":\""@) == Some(53int)
            &&& spec_take_string(s.skip(53)) == Some((m.body, e.len() + 1 as int))
        }),
{
    reveal_strlit("{\"id\":\"");
    reveal_strlit("\",\"body\":\"");
    reveal_strlit("\",\"state\":\"");
    reveal_strlit(",\"retry_count\":");
    reveal_strlit("}");
    reveal_strlit("\"");
    let s = spec_encode_message(m);
    let l1 = "{\"id\":\""@;
    let u = spec_uuid(m.id as int);
    let l2 = "\",\"body\":\""@;
    let e = spec_escape(m.body);
    let l3 = "\",\"state\":\""@;
    let st = spec_state_text(m.state);
    let qt = "\""@;
    let lk = spec_lock_field(m.lock_until);
    let l4 = ",\"retry_count\":"@;
    let d = spec_dec(m.retry_count as int);
    let l5 = "}"@;
    lemma_uuid_round_trip(m.id as int);
    match m.state {
        MessageState::Ready => reveal_strlit("Ready"),
        MessageState::Processing => reveal_strlit("Processing"),
        MessageState::Failed => reveal_strlit("Failed"),
    }
    if m.lock_until is Some {
        reveal_strlit(",\"lock_until\":\"");
    }
    assert(s =~= Seq::<char>::empty() + l1 + (u + l2 + e + l3 + st + qt + lk + l4 + d + l5));
    lemma_expect_here(s, Seq::<char>::empty(), l1, u + l2 + e + l3 + st + qt + lk + l4 + d + l5);
    assert(s.subrange(7, 43) =~= u);
    assert(s =~= (l1 + u) + l2 + (e + l3 + st + qt + lk + l4 + d + l5));
    lemma_expect_here(s, l1 + u, l2, e + l3 + st + qt + lk + l4 + d + l5);
    let rest3 = l3.skip(1) + st + qt + lk + l4 + d + l5;
    assert(s.skip(53) =~= e + seq!['"'] + rest3);
    lemma_take_escaped(m.body, rest3);
}

#[verifier::rlimit(100)]
#[verifier::spinoff_prover]
proof fn lemma_rt_state(m: MessageView)
    ensures
        ({
            let s = spec_encode_message(m);
            let i4 = 54 + spec_escape(m.body).len();
            &&& spec_expect(s, i4 as int, ",\"state\":\""@) == Some(i4 + 10 as int)
            &&& spec_parse_state(s, i4 + 10 as int) == Some(
                (m.state, i4 + 10 + spec_state_text(m.state).len() + 1 as int),
            )
        }),
{
    reveal_strlit("\",\"body\":\"");
    reveal_strlit("\",\"state\":\"");
    reveal_strlit(",\"state\":\"");
    reveal_strlit(",\"retry_count\":");
    reveal_strlit("}");
    reveal_strlit("\"");
    reveal_strlit("Ready");
    reveal_strlit("Processing");
    reveal_strlit("Failed");
    reveal_strlit("Ready\"");
    reveal_strlit("Processing\"");
    reveal_strlit("Failed\"");
    if m.lock_until is Some {
        reveal_strlit(",\"lock_until\":\"");
    }
    let s = spec_encode_message(m);
    let l1 = "{\"id\":\""@;
    let u = spec_uuid(m.id as int);
    let l2 = "\",\"body\":\""@;
    let e = spec_escape(m.body);
    let st = spec_state_text(m.state);
    let qt = "\""@;
    let lk = spec_lock_field(m.lock_until);
    let l4 = ",\"retry_count\":"@;
    let d = spec_dec(m.retry_count as int);
    let l5 = "}"@;
    reveal_strlit("{\"id\":\"");
    lemma_uuid_round_trip(m.id as int);
    let i4 = 54 + e.len();
    let l3b = ",\"state\":\""@;
    let head4 = l1 + u + l2 + e + seq!['"'];
    assert(head4.len() == i4);
    assert(s =~= head4 + l3b + (st + qt + lk + l4 + d + l5));
    lemma_expect_here(s, head4, l3b, st + qt + lk + l4 + d + l5);
    let i5 = i4 + 10;
    let head5 = head4 + l3b;
    assert(head5.len() == i5);
    let tail6 = lk + l4 + d + l5;
    match m.state {
        MessageState::Ready => {
            assert("Ready\""@ =~= st + qt);
            assert(s =~= head5 + "Ready\""@ + tail6);
            lemma_expect_here(s, head5, "Ready\""@, tail6);
        },
        MessageState::Processing => {
            assert(s[i5 as int] == 'P');
            assert(i5 + 6 <= s.len());
            assert(spec_expect(s, i5 as int, "Ready\""@) is None) by {
                if s.subrange(i5 as int, i5 + 6 as int) == "Ready\""@ {
                    assert(s.subrange(i5 as int, i5 + 6 as int)[0] == 'R');
                }
            }
            assert("Processing\""@ =~= st + qt);
            assert(s =~= head5 + "Processing\""@ + tail6);
            lemma_expect_here(s, head5, "Processing\""@, tail6);
        },
        MessageState::Failed => {
            assert(s[i5 as int] == 'F');
            assert(i5 + 6 <= s.len());
            assert(spec_expect(s, i5 as int, "Ready\""@) is None) by {
                if s.subrange(i5 as int, i5 + 6 as int) == "Ready\""@ {
                    assert(s.subrange(i5 as int, i5 + 6 as int)[0] == 'R');
                }
            }
            assert(i5 + 11 <= s.len());
            assert(spec_expect(s, i5 as int, "Processing\""@) is None) by {
                if s.subrange(i5 as int, i5 + 11 as int) == "Processing\""@ {
                    assert(s.subrange(i5 as int, i5 + 11 as int)[0] == 'P');
                }
            }
            assert("Failed\""@ =~= st + qt);
            assert(s =~= head5 + "Failed\""@ + tail6);
            lemma_expect_here(s, head5, "Failed\""@, tail6);
        },
    }
}

#[verifier::rlimit(100)]
#[verifier::spinoff_prover]
proof fn lemma_rt_tail(m: MessageView)
    ensures
        ({
            let s = spec_encode_message(m);
            let i6 = 65 + spec_escape(m.body).len() + spec_state_text(m.state).len();
            let i7 = i6 + spec_lock_field(m.lock_until).len();
            let i9 = i7 + 15 + spec_dec(m.retry_count as int).len();
            &&& spec_parse_lock(s, i6 as int) == Some((m.lock_until, i7 as int))
            &&& spec_expect(s, i7 as int, ",\"retry_count\":"@) == Some(i7 + 15 as int)
            &&& spec_parse_u32_at(s, i7 + 15 as int) == Some((m.retry_count, i9 as int))
            &&& spec_expect(s, i9 as int, "}"@) == Some(i9 + 1 as int)
            &&& i9 + 1 == s.len()
        }),
{
    reveal_strlit("{\"id\":\"");
    reveal_strlit("\",\"body\":\"");
    reveal_strlit("\",\"state\":\"");
    reveal_strlit("\"");
    reveal_strlit(",\"lock_until\":");
    reveal_strlit(",\"lock_until\":\"");
    reveal_strlit("null");
    reveal_strlit(",\"retry_count\":");
    reveal_strlit("}");
    match m.state {
        MessageState::Ready => reveal_strlit("Ready"),
        MessageState::Processing => reveal_strlit("Processing"),
        MessageState::Failed => reveal_strlit("Failed"),
    }
    let s = spec_encode_message(m);
    let l1 = "{\"id\":\""@;
    let u = spec_uuid(m.id as int);
    let l2 = "\",\"body\":\""@;
    let e = spec_escape(m.body);
    let st = spec_state_text(m.state);
    let qt = "\""@;
    let lk = spec_lock_field(m.lock_until);
    let l4 = ",\"retry_count\":"@;
    let d = spec_dec(m.retry_count as int);
    let l5 = "}"@;
    lemma_uuid_round_trip(m.id as int);
    crate::text::lemma_dec_round_trip(m.retry_count as int);
    let l3 = "\",\"state\":\""@;
    let i6 = (65 + e.len() + st.len()) as int;
    let head6 = l1 + u + l2 + e + l3 + st + qt;
    assert(head6.len() == i6);
    let lklit = ",\"lock_until\":"@;
    match m.lock_until {
        None => {
            assert(lk =~= Seq::<char>::empty());
            assert(s =~= head6 + l4 + (d + l5));
            lemma_expect_here(s, head6, l4, d + l5);
            assert(s[i6 + 2] == 'r');
            assert(i6 + 14 <= s.len());
            assert(spec_expect(s, i6 as int, lklit) is None) by {
                if s.subrange(i6 as int, i6 + 14 as int) == lklit {
                    assert(s.subrange(i6 as int, i6 + 14 as int)[2] == 'l');
                }
            }
            assert(spec_parse_lock(s, i6 as int) == Some((None::<Seq<char>>, i6 as int)));
        },
        Some(t) => {
            let et = spec_escape(t);
            assert(lk =~= lklit + seq!['"'] + et + seq!['"']);
            assert(s =~= head6 + lklit + (seq!['"'] + et + seq!['"'] + l4 + d + l5));
            lemma_expect_here(s, head6, lklit, seq!['"'] + et + seq!['"'] + l4 + d + l5);
            let j = i6 + 14;
            assert(s[j as int] == '"');
            assert(j + 4 <= s.len());
            assert(spec_expect(s, j as int, "null"@) is None) by {
                if s.subrange(j as int, j + 4 as int) == "null"@ {
                    assert(s.subrange(j as int, j + 4 as int)[0] == 'n');
                }
            }
            assert(s.skip(j + 1) =~= et + seq!['"'] + (l4 + d + l5));
            lemma_take_escaped(t, l4 + d + l5);
            assert(spec_parse_lock(s, i6 as int) == Some(
                (Some(t), i6 + 14 + 1 + et.len() + 1 as int),
            ));
            assert(lk.len() == 14 + 1 + et.len() + 1);
        },
    }
    let i7 = i6 + lk.len();
    let head7 = head6 + lk;
    assert(head7.len() == i7);
    assert(s =~= head7 + l4 + (d + l5));
    lemma_expect_here(s, head7, l4, d + l5);
    let i8 = i7 + 15;
    let head8 = head7 + l4;
    assert(head8.len() == i8);
    assert(s.subrange(i8 as int, i8 + d.len() as int) =~= d);
    assert(s[i8 + d.len()] == '}');
    assert(!is_dec_digit('}'));
    assert forall|k: int| i8 <= k < i8 + d.len() implies is_dec_digit(#[trigger] s[k]) by {
        assert(s[k] == d[k - i8]);
    }
    lemma_digits_end_at(s, i8 as int, i8 + d.len() as int);
    let i9 = i8 + d.len();
    assert(spec_parse_u32_at(s, i8 as int) == Some((m.retry_count, i9 as int)));
    assert(s =~= (head8 + d) + l5 + Seq::<char>::empty());
    lemma_expect_here(s, head8 + d, l5, Seq::<char>::empty());
}

/// Reading back the wire text of any message record gives that record:
/// the same identifier, body, state, lock and retry count.
#[verifier::rlimit(100)]
#[verifier::spinoff_prover]
pub proof fn lemma_message_round_trip(m: MessageView)
    ensures
        spec_parse_message(spec_encode_message(m)) == Some(m),
{
    let s = spec_encode_message(m);
    lemma_rt_head(m);
    lemma_rt_state(m);
    lemma_rt_tail(m);
    assert(spec_parse_message_at(s, 0) == Some((m, s.len() as int)));
}

} // verus!
