//! Character-level string helpers: equality, digit handling, and decimal
//! rendering of integers. Everything downstream (templates, conditions,
//! calendar strings) is specified over `Seq<char>` views built from these.

use vstd::prelude::*;

verus! {

/// Relies on `String::push`: appends exactly one character.
#[verifier::external_body]
pub fn push_char(s: &mut String, c: char)
    ensures
        final(s)@ == old(s)@.push(c),
{
    s.push(c);
}

/// Builds an owned `String` out of a character vector.
pub fn chars_to_string(v: &Vec<char>) -> (r: String)
    ensures
        r@ == v@,
{
    let mut out = String::new();
    let mut i: usize = 0;
    while i < v.len()
        invariant
            i <= v.len(),
            out@ == v@.take(i as int),
        decreases v.len() - i,
    {
        push_char(&mut out, v[i]);
        proof {
            assert(v@.take(i + 1 as int) =~= v@.take(i as int).push(v@[i as int]));
        }
        i += 1;
    }
    proof {
        assert(v@.take(v@.len() as int) =~= v@);
    }
    out
}

/// Collects the characters of a string slice into a vector.
pub fn str_to_chars(s: &str) -> (r: Vec<char>)
    ensures
        r@ == s@,
{
    let n = s.unicode_len();
    let mut out: Vec<char> = Vec::new();
    let mut i: usize = 0;
    while i < n
        invariant
            i <= n,
            n == s@.len(),
            out@ == s@.take(i as int),
        decreases n - i,
    {
        out.push(s.get_char(i));
        proof {
            assert(s@.take(i + 1 as int) =~= s@.take(i as int).push(s@[i as int]));
        }
        i += 1;
    }
    proof {
        assert(s@.take(s@.len() as int) =~= s@);
    }
    out
}

/// Character-by-character equality of two string slices.
pub fn str_eq(a: &str, b: &str) -> (r: bool)
    ensures
        r == (a@ == b@),
{
    let n = a.unicode_len();
    if n != b.unicode_len() {
        return false;
    }
    let mut i: usize = 0;
    while i < n
        invariant
            i <= n,
            n == a@.len(),
            n == b@.len(),
            forall|j: int| 0 <= j < i ==> a@[j] == b@[j],
        decreases n - i,
    {
        if a.get_char(i) != b.get_char(i) {
            return false;
        }
        i += 1;
    }
    proof {
        assert(a@ =~= b@);
    }
    true
}

/// Equality of a character vector against a string slice.
pub fn chars_eq_str(a: &Vec<char>, b: &str) -> (r: bool)
    ensures
        r == (a@ == b@),
{
    let n = b.unicode_len();
    if a.len() != n {
        return false;
    }
    let mut i: usize = 0;
    while i < n
        invariant
            i <= n,
            n == a@.len(),
            n == b@.len(),
            forall|j: int| 0 <= j < i ==> a@[j] == b@[j],
        decreases n - i,
    {
        if a[i] != b.get_char(i) {
            return false;
        }
        i += 1;
    }
    proof {
        assert(a@ =~= b@);
    }
    true
}

/// Copies `v[from..]` out.
pub fn copy_from(v: &Vec<char>, from: usize) -> (r: Vec<char>)
    requires
        from <= v@.len(),
    ensures
        r@ == v@.skip(from as int),
{
    let mut out: Vec<char> = Vec::new();
    let mut i: usize = from;
    let n = v.len();
    while i < n
        invariant
            from <= i <= n,
            n == v@.len(),
            out@ == v@.subrange(from as int, i as int),
        decreases n - i,
    {
        out.push(v[i]);
        proof {
            assert(v@.subrange(from as int, i + 1 as int) =~= v@.subrange(
                from as int,
                i as int,
            ).push(v@[i as int]));
        }
        i += 1;
    }
    proof {
        assert(v@.subrange(from as int, n as int) =~= v@.skip(from as int));
    }
    out
}

/// Copies `v[from..to]` out.
pub fn copy_range(v: &Vec<char>, from: usize, to: usize) -> (r: Vec<char>)
    requires
        from <= to <= v@.len(),
    ensures
        r@ == v@.subrange(from as int, to as int),
{
    let mut out: Vec<char> = Vec::new();
    let mut i: usize = from;
    while i < to
        invariant
            from <= i <= to <= v@.len(),
            out@ == v@.subrange(from as int, i as int),
        decreases to - i,
    {
        out.push(v[i]);
        proof {
            assert(v@.subrange(from as int, i + 1 as int) =~= v@.subrange(
                from as int,
                i as int,
            ).push(v@[i as int]));
        }
        i += 1;
    }
    out
}

pub open spec fn is_digit_char(c: char) -> bool {
    '0' <= c && c <= '9'
}

pub open spec fn char_digit(c: char) -> int {
    c as int - '0' as int
}

pub open spec fn digit_char(d: int) -> char {
    if d == 0 {
        '0'
    } else if d == 1 {
        '1'
    } else if d == 2 {
        '2'
    } else if d == 3 {
        '3'
    } else if d == 4 {
        '4'
    } else if d == 5 {
        '5'
    } else if d == 6 {
        '6'
    } else if d == 7 {
        '7'
    } else if d == 8 {
        '8'
    } else {
        '9'
    }
}

pub fn digit_to_char(d: u64) -> (c: char)
    requires
        d < 10,
    ensures
        c == digit_char(d as int),
{
    match d {
        0 => '0',
        1 => '1',
        2 => '2',
        3 => '3',
        4 => '4',
        5 => '5',
        6 => '6',
        7 => '7',
        8 => '8',
        _ => '9',
    }
}

/// The decimal digit string of `n`, most significant digit first, no sign,
/// no leading zeros (except for `n == 0`, which is `"0"`).
pub open spec fn spec_u64_digits(n: nat) -> Seq<char>
    decreases n,
{
    if n < 10 {
        seq![digit_char(n as int)]
    } else {
        spec_u64_digits(n / 10).push(digit_char((n % 10) as int))
    }
}

/// The decimal string of a signed value: `-` followed by the digits of the
/// absolute value when negative.
pub open spec fn spec_i64_digits(n: int) -> Seq<char> {
    if n < 0 {
        seq!['-'] + spec_u64_digits((-n) as nat)
    } else {
        spec_u64_digits(n as nat)
    }
}

/// A decimal rendering has at least one digit.
pub proof fn lemma_u64_digits_nonempty(n: nat)
    ensures
        spec_u64_digits(n).len() >= 1,
    decreases n,
{
    if n >= 10 {
        lemma_u64_digits_nonempty(n / 10);
    }
}

pub fn u64_digits_into(n: u64, out: &mut Vec<char>)
    ensures
        final(out)@ == old(out)@ + spec_u64_digits(n as nat),
    decreases n,
{
    if n < 10 {
        out.push(digit_to_char(n));
        proof {
            assert(old(out)@ + spec_u64_digits(n as nat) =~= old(out)@.push(
                digit_char(n as int),
            ));
        }
    } else {
        u64_digits_into(n / 10, out);
        out.push(digit_to_char(n % 10));
        proof {
            assert(old(out)@ + spec_u64_digits(n as nat) =~= (old(out)@ + spec_u64_digits(
                (n / 10) as nat,
            )).push(digit_char((n % 10) as int)));
        }
    }
}

pub fn u64_to_chars(n: u64) -> (r: Vec<char>)
    ensures
        r@ == spec_u64_digits(n as nat),
{
    let mut out: Vec<char> = Vec::new();
    u64_digits_into(n, &mut out);
    proof {
        assert(Seq::<char>::empty() + spec_u64_digits(n as nat) =~= spec_u64_digits(n as nat));
    }
    out
}

pub fn i64_to_chars(n: i64) -> (r: Vec<char>)
    ensures
        r@ == spec_i64_digits(n as int),
{
    if n >= 0 {
        u64_to_chars(n as u64)
    } else {
        let mag: u64 = if n == i64::MIN {
            9223372036854775808u64
        } else {
            (-n) as u64
        };
        let mut out: Vec<char> = Vec::new();
        out.push('-');
        u64_digits_into(mag, &mut out);
        proof {
            assert(seq!['-'] + spec_u64_digits(mag as nat) =~= seq!['-'].push('-').drop_last()
                + spec_u64_digits(mag as nat));
            assert(out@ =~= seq!['-'] + spec_u64_digits(mag as nat));
        }
        out
    }
}

/// Zero-padded two-digit rendering, used for calendar fields.
pub open spec fn spec_pad2(n: nat) -> Seq<char> {
    if n < 10 {
        seq!['0'] + spec_u64_digits(n)
    } else {
        spec_u64_digits(n)
    }
}

pub fn pad2_chars(n: u64) -> (r: Vec<char>)
    ensures
        r@ == spec_pad2(n as nat),
{
    if n < 10 {
        let mut out: Vec<char> = Vec::new();
        out.push('0');
        u64_digits_into(n, &mut out);
        proof {
            assert(out@ =~= seq!['0'] + spec_u64_digits(n as nat));
        }
        out
    } else {
        u64_to_chars(n)
    }
}

/// Zero-padded four-digit rendering for years in `0..=9999`; wider years keep
/// all their digits, negative years carry a leading minus sign.
pub open spec fn spec_pad4(n: int) -> Seq<char> {
    if n < 0 {
        seq!['-'] + spec_pad4_nonneg(-n)
    } else {
        spec_pad4_nonneg(n)
    }
}

pub open spec fn spec_pad4_nonneg(n: int) -> Seq<char> {
    if n < 10 {
        seq!['0', '0', '0'] + spec_u64_digits(n as nat)
    } else if n < 100 {
        seq!['0', '0'] + spec_u64_digits(n as nat)
    } else if n < 1000 {
        seq!['0'] + spec_u64_digits(n as nat)
    } else {
        spec_u64_digits(n as nat)
    }
}

pub fn pad4_chars(n: i64) -> (r: Vec<char>)
    requires
        n != i64::MIN,
    ensures
        r@ == spec_pad4(n as int),
{
    let mut out: Vec<char> = Vec::new();
    let mag: u64;
    if n < 0 {
        out.push('-');
        mag = (-n) as u64;
    } else {
        mag = n as u64;
    }
    if mag < 10 {
        out.push('0');
        out.push('0');
        out.push('0');
    } else if mag < 100 {
        out.push('0');
        out.push('0');
    } else if mag < 1000 {
        out.push('0');
    }
    u64_digits_into(mag, &mut out);
    proof {
        if n >= 0 {
            assert(out@ =~= spec_pad4_nonneg(n as int));
        } else {
            assert(out@ =~= seq!['-'] + spec_pad4_nonneg(mag as int));
        }
    }
    out
}

/// Numeric value of a digit string, most significant digit first.
pub open spec fn spec_digits_val(s: Seq<char>) -> nat
    decreases s.len(),
{
    if s.len() == 0 {
        0
    } else {
        spec_digits_val(s.drop_last()) * 10 + char_digit(s.last()) as nat
    }
}

pub open spec fn all_digits(s: Seq<char>) -> bool {
    forall|i: int| 0 <= i < s.len() ==> is_digit_char(#[trigger] s[i])
}

pub fn char_digit_value(c: char) -> (d: u64)
    requires
        is_digit_char(c),
    ensures
        d == char_digit(c),
{
    (c as u32 - 48) as u64
}

/// Parses an unsigned decimal number from the digit characters
/// `s[from..to]`. Returns `None` exactly when some character in the range is
/// not a digit, the range is empty, or the value overflows a `u64`.
pub fn parse_u64_range(s: &Vec<char>, from: usize, to: usize) -> (r: Option<u64>)
    requires
        from <= to <= s@.len(),
    ensures
        match r {
            Some(v) => all_digits(s@.subrange(from as int, to as int)) && from < to && v
                == spec_digits_val(s@.subrange(from as int, to as int)) && spec_digits_val(
                s@.subrange(from as int, to as int),
            ) <= u64::MAX,
            None => !all_digits(s@.subrange(from as int, to as int)) || from == to
                || spec_digits_val(s@.subrange(from as int, to as int)) > u64::MAX,
        },
{
    if from == to {
        return None;
    }
    let mut acc: u64 = 0;
    let mut i: usize = from;
    while i < to
        invariant
            from <= i <= to <= s@.len(),
            all_digits(s@.subrange(from as int, i as int)),
            acc == spec_digits_val(s@.subrange(from as int, i as int)),
        decreases to - i,
    {
        let c = s[i];
        if !('0' <= c && c <= '9') {
            proof {
                assert(s@.subrange(from as int, to as int)[i - from] == c);
            }
            return None;
        }
        let d = char_digit_value(c);
        proof {
            assert(s@.subrange(from as int, i + 1 as int).drop_last() =~= s@.subrange(
                from as int,
                i as int,
            ));
            assert(s@.subrange(from as int, i + 1 as int).last() == c);
            assert(spec_digits_val(s@.subrange(from as int, i + 1 as int)) == acc * 10
                + char_digit(c) as nat);
            assert(s@.subrange(from as int, to as int).subrange(0, i + 1 - from) =~= s@.subrange(
                from as int,
                i + 1 as int,
            ));
        }
        let next: u64;
        match acc.checked_mul(10) {
            Some(t) => {
                match t.checked_add(d) {
                    Some(v) => {
                        next = v;
                    },
                    None => {
                        proof {
                            lemma_digits_val_overflow(
                                s@.subrange(from as int, to as int),
                                i + 1 - from,
                            );
                        }
                        return None;
                    },
                }
            },
            None => {
                proof {
                    lemma_digits_val_overflow(s@.subrange(from as int, to as int), i + 1 - from);
                }
                return None;
            },
        }
        acc = next;
        i += 1;
    }
    proof {
        assert(s@.subrange(from as int, to as int) =~= s@.subrange(from as int, i as int));
    }
    Some(acc)
}

/// A digit string only grows in value as digits are appended, so once a
/// prefix exceeds `u64::MAX` the whole string does.
proof fn lemma_digits_val_overflow(s: Seq<char>, k: int)
    requires
        0 < k <= s.len(),
        spec_digits_val(s.subrange(0, k)) > u64::MAX,
    ensures
        spec_digits_val(s) > u64::MAX,
    decreases s.len() - k,
{
    if k == s.len() {
        assert(s.subrange(0, k) =~= s);
    } else {
        assert(s.subrange(0, k + 1).drop_last() =~= s.subrange(0, k));
        assert(spec_digits_val(s.subrange(0, k + 1)) == spec_digits_val(s.subrange(0, k)) * 10
            + char_digit(s.subrange(0, k + 1).last()) as nat);
        assert(spec_digits_val(s.subrange(0, k)) * 10 >= spec_digits_val(s.subrange(0, k)))
            by (nonlinear_arith)
            requires
                spec_digits_val(s.subrange(0, k)) >= 0,
        ;
        lemma_digits_val_overflow(s, k + 1);
    }
}

} // verus!
