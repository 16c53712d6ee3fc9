//! Text inputs: which texts an input mode accepts, how an accepted text is
//! normalised, and how edit requests change a text and its cursor.

use vstd::prelude::*;

use crate::messenger::MessageData;
use crate::navigation::NavTextChange;
use crate::props::PropsData;
use crate::text::{chars_of, push_char};
use crate::widget_id::WidgetId;
use crate::widget_ref::WidgetIdOrRef;

verus! {

// ---------------------------------------------------------------------------
// Characters and digits
// ---------------------------------------------------------------------------

/// An ASCII decimal digit.
pub open spec fn is_digit(c: char) -> bool {
    '0' <= c && c <= '9'
}

/// The value of a decimal digit.
pub open spec fn digit_value(c: char) -> nat {
    (c as int - '0' as int) as nat
}

/// Every character is a decimal digit.
pub open spec fn all_digits(s: Seq<char>) -> bool {
    forall|i: int| 0 <= i < s.len() ==> #[trigger] is_digit(s[i])
}

/// The number that a string of decimal digits spells, most significant first.
pub open spec fn digits_value(s: Seq<char>) -> nat
    decreases s.len(),
{
    if s.len() == 0 {
        0
    } else {
        digits_value(s.drop_last()) * 10 + digit_value(s.last())
    }
}

/// A `+` or `-`.
pub open spec fn is_sign(c: char) -> bool {
    c == '+' || c == '-'
}

/// `s` without a leading sign, if it has one.
pub open spec fn unsigned_part(s: Seq<char>) -> Seq<char> {
    if s.len() > 0 && is_sign(s[0]) {
        s.drop_first()
    } else {
        s
    }
}

/// `s` starts with a minus sign.
pub open spec fn is_negative_text(s: Seq<char>) -> bool {
    s.len() > 0 && s[0] == '-'
}

/// An optional sign followed by at least one digit.
pub open spec fn signed_digits(s: Seq<char>) -> bool {
    let d = unsigned_part(s);
    d.len() > 0 && all_digits(d)
}

/// The integer that `signed_digits` text spells.
pub open spec fn signed_value(s: Seq<char>) -> int {
    if is_negative_text(s) {
        -(digits_value(unsigned_part(s)) as int)
    } else {
        digits_value(unsigned_part(s)) as int
    }
}

/// Text that `str::parse::<i32>` accepts: an optional sign, then digits,
/// spelling a value in the range of `i32`.
pub open spec fn is_integer_text(s: Seq<char>) -> bool {
    signed_digits(s) && i32::MIN <= signed_value(s) && signed_value(s) <= i32::MAX
}

/// `s` without a leading `+`, if it has one.
pub open spec fn plus_stripped(s: Seq<char>) -> Seq<char> {
    if s.len() > 0 && s[0] == '+' {
        s.drop_first()
    } else {
        s
    }
}

/// Text that `str::parse::<u32>` accepts: an optional `+`, then digits,
/// spelling a value in the range of `u32`.
pub open spec fn is_unsigned_integer_text(s: Seq<char>) -> bool {
    let d = plus_stripped(s);
    d.len() > 0 && all_digits(d) && digits_value(d) <= u32::MAX
}

/// A prefix of a digit string spells no more than the whole string.
pub proof fn lemma_digits_value_prefix(s: Seq<char>, k: int)
    requires
        0 <= k <= s.len(),
        all_digits(s),
    ensures
        digits_value(s.take(k)) <= digits_value(s),
    decreases s.len(),
{
    if k < s.len() {
        assert(s.drop_last().take(k) =~= s.take(k));
        assert(all_digits(s.drop_last())) by {
            assert forall|i: int| 0 <= i < s.drop_last().len() implies #[trigger] is_digit(
                s.drop_last()[i],
            ) by {
                assert(is_digit(s[i]));
            }
        }
        lemma_digits_value_prefix(s.drop_last(), k);
    } else {
        assert(s.take(k) =~= s);
    }
}

/// Extending a digit string by one digit.
pub proof fn lemma_digits_value_push(s: Seq<char>, k: int)
    requires
        0 <= k < s.len(),
    ensures
        digits_value(s.take(k + 1)) == digits_value(s.take(k)) * 10 + digit_value(s[k]),
{
    assert(s.take(k + 1).drop_last() =~= s.take(k));
}

/// The value of a decimal digit character.
fn digit_of(c: char) -> (r: u64)
    requires
        is_digit(c),
    ensures
        r == digit_value(c),
        r < 10,
{
    (c as u32 - '0' as u32) as u64
}

/// The value that the digits `s[from..]` spell, if it is at most `limit`;
/// `None` when a character is not a digit, when there are no digits, or when
/// the value exceeds `limit`.
pub(crate) fn bounded_digits_value(s: &[char], from: usize, limit: u64) -> (r: Option<u64>)
    requires
        from <= s@.len(),
    ensures
        ({
            let d = s@.skip(from as int);
            match r {
                Some(v) => d.len() > 0 && all_digits(d) && v == digits_value(d) && v <= limit,
                None => !(d.len() > 0 && all_digits(d) && digits_value(d) <= limit),
            }
        }),
{
    let ghost d = s@.skip(from as int);
    if from == s.len() {
        return None;
    }
    let mut value: u64 = 0;
    let mut i: usize = from;
    while i < s.len()
        invariant
            from <= i <= s@.len(),
            d == s@.skip(from as int),
            forall|j: int| 0 <= j < i - from ==> #[trigger] is_digit(d[j]),
            value == digits_value(d.take(i - from)),
            value <= limit,
        decreases s@.len() - i,
    {
        let c = s[i];
        proof {
            assert(d[i - from] == c);
        }
        if !('0' <= c && c <= '9') {
            proof {
                assert(!is_digit(d[i - from]));
            }
            return None;
        }
        let dv = digit_of(c);
        proof {
            lemma_digits_value_push(d, i - from);
        }
        let next: u128 = (value as u128) * 10 + (dv as u128);
        if next > (limit as u128) {
            proof {
                if all_digits(d) {
                    lemma_digits_value_prefix(d, i - from + 1);
                }
            }
            return None;
        }
        value = next as u64;
        i = i + 1;
    }
    proof {
        assert(d.take(i - from) =~= d);
    }
    Some(value)
}

/// The value of integer text as `str::parse::<i32>` reads it, if it accepts it.
fn parse_integer(s: &[char]) -> (r: Option<i64>)
    ensures
        r is Some <==> is_integer_text(s@),
        r matches Some(v) ==> v == signed_value(s@),
{
    let negative = s.len() > 0 && s[0] == '-';
    let signed = s.len() > 0 && (s[0] == '+' || s[0] == '-');
    let from: usize = if signed { 1 } else { 0 };
    let limit: u64 = if negative { 2147483648 } else { 2147483647 };
    proof {
        assert(s@.skip(from as int) =~= unsigned_part(s@));
    }
    match bounded_digits_value(s, from, limit) {
        Some(v) => {
            if negative {
                Some(-(v as i64))
            } else {
                Some(v as i64)
            }
        },
        None => None,
    }
}

/// The value of unsigned integer text as `str::parse::<u32>` reads it, if it
/// accepts it.
fn parse_unsigned_integer(s: &[char]) -> (r: Option<u64>)
    ensures
        r is Some <==> is_unsigned_integer_text(s@),
        r matches Some(v) ==> v == digits_value(plus_stripped(s@)),
{
    let from: usize = if s.len() > 0 && s[0] == '+' { 1 } else { 0 };
    proof {
        assert(s@.skip(from as int) =~= plus_stripped(s@));
    }
    bounded_digits_value(s, from, 4294967295)
}

// ---------------------------------------------------------------------------
// Number text, as `str::parse::<f32>` accepts it
// ---------------------------------------------------------------------------

/// `s` spells a word whose letters are given in lower case by `lower` and in
/// upper case by `upper`, each letter in either case.
pub open spec fn is_word(s: Seq<char>, lower: Seq<char>, upper: Seq<char>) -> bool {
    s.len() == lower.len() && s.len() == upper.len() && forall|i: int|
        0 <= i < s.len() ==> #[trigger] s[i] == lower[i] || s[i] == upper[i]
}

/// An exponent mark.
pub open spec fn is_exponent_mark(c: char) -> bool {
    c == 'e' || c == 'E'
}

/// Digits, or digits with one `.` among them, with at least one digit.
pub open spec fn is_mantissa(m: Seq<char>) -> bool {
    ||| (m.len() > 0 && all_digits(m))
    ||| exists|p: int|
        0 <= p < m.len() && #[trigger] m[p] == '.' && all_digits(m.take(p)) && all_digits(
            m.skip(p + 1),
        ) && m.len() > 1
}

/// Nothing, or an exponent mark followed by an optional sign and digits.
pub open spec fn is_exponent(x: Seq<char>) -> bool {
    x.len() == 0 || (is_exponent_mark(x[0]) && signed_digits(x.drop_first()))
}

/// A mantissa followed by an optional exponent.
pub open spec fn is_decimal(s: Seq<char>) -> bool {
    exists|k: int| 0 <= k <= s.len() && #[trigger] is_mantissa(s.take(k)) && is_exponent(s.skip(k))
}

/// `s` spells `inf`, in any ASCII case.
pub open spec fn is_inf(s: Seq<char>) -> bool {
    is_word(s, seq!['i', 'n', 'f'], seq!['I', 'N', 'F'])
}

/// `s` spells `infinity`, in any ASCII case.
pub open spec fn is_infinity(s: Seq<char>) -> bool {
    is_word(
        s,
        seq!['i', 'n', 'f', 'i', 'n', 'i', 't', 'y'],
        seq!['I', 'N', 'F', 'I', 'N', 'I', 'T', 'Y'],
    )
}

/// `s` spells `nan`, in any ASCII case.
pub open spec fn is_nan(s: Seq<char>) -> bool {
    is_word(s, seq!['n', 'a', 'n'], seq!['N', 'A', 'N'])
}

/// Text that `str::parse::<f32>` accepts: an optional sign, then `inf`,
/// `infinity` or `nan` in any ASCII case, or a decimal number with an
/// optional exponent.
pub open spec fn is_number_text(s: Seq<char>) -> bool {
    let b = unsigned_part(s);
    is_inf(b) || is_infinity(b) || is_nan(b) || is_decimal(b)
}

/// What a mantissa is made of: digits and a single `.`, with a digit among them.
pub proof fn lemma_mantissa_shape(m: Seq<char>)
    requires
        is_mantissa(m),
    ensures
        forall|i: int| 0 <= i < m.len() ==> is_digit(#[trigger] m[i]) || m[i] == '.',
        forall|i: int, j: int|
            0 <= i < m.len() && 0 <= j < m.len() && #[trigger] m[i] == '.' && #[trigger] m[j]
                == '.' ==> i == j,
        exists|i: int| 0 <= i < m.len() && is_digit(#[trigger] m[i]),
{
    if m.len() > 0 && all_digits(m) {
        assert(is_digit(m[0]));
        assert forall|i: int| 0 <= i < m.len() implies #[trigger] m[i] != '.' by {
            assert(is_digit(m[i]));
        }
    } else {
        let p = choose|p: int|
            0 <= p < m.len() && #[trigger] m[p] == '.' && all_digits(m.take(p)) && all_digits(
                m.skip(p + 1),
            ) && m.len() > 1;
        assert forall|i: int| 0 <= i < m.len() implies is_digit(#[trigger] m[i]) || m[i] == '.' by {
            if i < p {
                assert(is_digit(m.take(p)[i]));
            } else if i > p {
                assert(is_digit(m.skip(p + 1)[i - p - 1]));
            }
        }
        assert forall|i: int, j: int|
            0 <= i < m.len() && 0 <= j < m.len() && #[trigger] m[i] == '.' && #[trigger] m[j]
                == '.' implies i == j by {
            if i < p {
                assert(is_digit(m.take(p)[i]));
            } else if i > p {
                assert(is_digit(m.skip(p + 1)[i - p - 1]));
            }
            if j < p {
                assert(is_digit(m.take(p)[j]));
            } else if j > p {
                assert(is_digit(m.skip(p + 1)[j - p - 1]));
            }
        }
        if p > 0 {
            assert(is_digit(m.take(p)[0]));
            assert(is_digit(m[0]));
        } else {
            assert(is_digit(m.skip(p + 1)[0]));
            assert(is_digit(m[p + 1]));
        }
    }
}

/// The first index at or after `from` that does not hold a digit.
fn skip_digits(s: &Vec<char>, from: usize) -> (r: usize)
    requires
        from <= s@.len(),
    ensures
        from <= r <= s@.len(),
        forall|j: int| from <= j < r ==> is_digit(#[trigger] s@[j]),
        r < s@.len() ==> !is_digit(s@[r as int]),
{
    let mut i = from;
    while i < s.len() && '0' <= s[i] && s[i] <= '9'
        invariant
            from <= i <= s@.len(),
            forall|j: int| from <= j < i ==> is_digit(#[trigger] s@[j]),
        decreases s@.len() - i,
    {
        i = i + 1;
    }
    i
}

/// `s[from..]` as a vector.
fn suffix(s: &[char], from: usize) -> (r: Vec<char>)
    requires
        from <= s@.len(),
    ensures
        r@ == s@.skip(from as int),
{
    let mut r: Vec<char> = Vec::new();
    let mut i = from;
    while i < s.len()
        invariant
            from <= i <= s@.len(),
            r@ == s@.subrange(from as int, i as int),
        decreases s@.len() - i,
    {
        r.push(s[i]);
        i = i + 1;
    }
    r
}

/// Whether `b` spells the word given by `lower` and `upper`, each letter in
/// either case.
fn matches_word(b: &Vec<char>, lower: &[char], upper: &[char]) -> (r: bool)
    ensures
        r == is_word(b@, lower@, upper@),
{
    if b.len() != lower.len() || b.len() != upper.len() {
        return false;
    }
    let mut i: usize = 0;
    while i < b.len()
        invariant
            b@.len() == lower@.len(),
            b@.len() == upper@.len(),
            i <= b@.len(),
            forall|j: int| 0 <= j < i ==> #[trigger] b@[j] == lower@[j] || b@[j] == upper@[j],
        decreases b@.len() - i,
    {
        if !(b[i] == lower[i] || b[i] == upper[i]) {
            return false;
        }
        i = i + 1;
    }
    true
}

/// Whether `b` is a mantissa followed by an optional exponent.
#[verifier::rlimit(40)]
fn decimal_syntax(b: &Vec<char>) -> (r: bool)
    ensures
        r == is_decimal(b@),
{
    let ghost s = b@;
    let len = b.len();
    let i1 = skip_digits(b, 0);
    let has_dot = i1 < len && b[i1] == '.';
    let i2 = if has_dot { skip_digits(b, i1 + 1) } else { i1 };
    assert(forall|j: int| 0 <= j < i1 ==> is_digit(#[trigger] s[j]));
    assert(has_dot ==> forall|j: int| i1 < j < i2 ==> is_digit(#[trigger] s[j]));
    if i1 == 0 && (!has_dot || i2 == 1) {
        proof {
            assert forall|k: int| 0 <= k <= s.len() implies !(#[trigger] is_mantissa(s.take(k))
                && is_exponent(s.skip(k))) by {
                if is_mantissa(s.take(k)) {
                    let m = s.take(k);
                    lemma_mantissa_shape(m);
                    let d = choose|i: int| 0 <= i < m.len() && is_digit(#[trigger] m[i]);
                    assert(m[d] == s[d]);
                    if has_dot {
                        assert(m[0] == s[0]);
                        assert(m[0] == '.');
                        assert(!is_digit(m[0]));
                        if k >= 2 {
                            assert(m[1] == s[1]);
                            assert(!is_digit(s[1]));
                            assert(is_digit(m[1]) || m[1] == '.');
                            assert(false);
                        }
                    } else {
                        assert(m[0] == s[0]);
                        assert(!is_digit(s[0]));
                        assert(is_digit(m[0]) || m[0] == '.');
                        assert(false);
                    }
                }
            }
        }
        return false;
    }
    proof {
        if has_dot {
            assert(is_mantissa(s.take(i2 as int))) by {
                let m = s.take(i2 as int);
                assert(m[i1 as int] == '.');
                assert(all_digits(m.take(i1 as int))) by {
                    assert forall|j: int| 0 <= j < i1 implies #[trigger] is_digit(
                        m.take(i1 as int)[j],
                    ) by {
                        assert(is_digit(s[j]));
                    }
                }
                assert(all_digits(m.skip(i1 + 1))) by {
                    assert forall|j: int| 0 <= j < m.skip(i1 + 1).len() implies #[trigger] is_digit(
                        m.skip(i1 + 1)[j],
                    ) by {
                        assert(is_digit(s[i1 + 1 + j]));
                    }
                }
            }
        } else {
            assert(is_mantissa(s.take(i2 as int))) by {
                let m = s.take(i2 as int);
                assert forall|j: int| 0 <= j < m.len() implies #[trigger] is_digit(m[j]) by {
                    assert(is_digit(s[j]));
                }
            }
        }
    }
    if i2 == len {
        proof {
            assert(s.skip(i2 as int).len() == 0);
            assert(is_exponent(s.skip(i2 as int)));
        }
        return true;
    }
    // Every index before `i2` holds a digit or the one dot.
    assert(forall|j: int|
        0 <= j < i2 ==> is_digit(#[trigger] s[j]) || (has_dot && j == i1 && s[j] == '.'));
    if !(b[i2] == 'e' || b[i2] == 'E') {
        proof {
            assert(!is_digit(s[i2 as int]));
            assert(!has_dot ==> s[i2 as int] != '.');
            assert forall|k: int| 0 <= k <= s.len() implies !(#[trigger] is_mantissa(s.take(k))
                && is_exponent(s.skip(k))) by {
                if is_mantissa(s.take(k)) && is_exponent(s.skip(k)) {
                    if k <= i2 {
                        assert(s.skip(k)[0] == s[k]);
                    } else {
                        let m = s.take(k);
                        lemma_mantissa_shape(m);
                        assert(m[i2 as int] == s[i2 as int]);
                        if has_dot {
                            assert(m[i1 as int] == '.');
                        }
                    }
                }
            }
        }
        return false;
    }
    let mut j = i2 + 1;
    if j < len && (b[j] == '+' || b[j] == '-') {
        j = j + 1;
    }
    let j2 = skip_digits(b, j);
    let ok = j2 > j && j2 == len;
    proof {
        let x = s.skip(i2 as int);
        assert(x.drop_first() =~= s.skip(i2 + 1));
        assert(unsigned_part(x.drop_first()) =~= s.skip(j as int));
        if ok {
            assert forall|t: int| 0 <= t < s.skip(j as int).len() implies #[trigger] is_digit(
                s.skip(j as int)[t],
            ) by {
                assert(is_digit(s[j + t]));
            }
            assert(is_exponent(x));
        } else {
            if j2 < len {
                assert(s.skip(j as int)[j2 - j] == s[j2 as int]);
            }
            assert(!is_exponent(x));
            assert forall|k: int| 0 <= k <= s.len() implies !(#[trigger] is_mantissa(s.take(k))
                && is_exponent(s.skip(k))) by {
                if is_mantissa(s.take(k)) && is_exponent(s.skip(k)) {
                    if k < i2 {
                        assert(s.skip(k)[0] == s[k]);
                    } else if k > i2 {
                        let m = s.take(k);
                        lemma_mantissa_shape(m);
                        assert(m[i2 as int] == s[i2 as int]);
                    }
                }
            }
        }
    }
    ok
}

/// Whether `s` is text that `str::parse::<f32>` accepts.
fn number_syntax(s: &[char]) -> (r: bool)
    ensures
        r == is_number_text(s@),
{
    let from: usize = if s.len() > 0 && (s[0] == '+' || s[0] == '-') { 1 } else { 0 };
    let b = suffix(s, from);
    proof {
        assert(b@ =~= unsigned_part(s@));
    }
    let inf: [char; 3] = ['i', 'n', 'f'];
    let inf_upper: [char; 3] = ['I', 'N', 'F'];
    let infinity: [char; 8] = ['i', 'n', 'f', 'i', 'n', 'i', 't', 'y'];
    let infinity_upper: [char; 8] = ['I', 'N', 'F', 'I', 'N', 'I', 'T', 'Y'];
    let nan: [char; 3] = ['n', 'a', 'n'];
    let nan_upper: [char; 3] = ['N', 'A', 'N'];
    proof {
        assert(inf@ =~= seq!['i', 'n', 'f']);
        assert(inf_upper@ =~= seq!['I', 'N', 'F']);
        assert(infinity@ =~= seq!['i', 'n', 'f', 'i', 'n', 'i', 't', 'y']);
        assert(infinity_upper@ =~= seq!['I', 'N', 'F', 'I', 'N', 'I', 'T', 'Y']);
        assert(nan@ =~= seq!['n', 'a', 'n']);
        assert(nan_upper@ =~= seq!['N', 'A', 'N']);
    }
    matches_word(&b, &inf, &inf_upper) || matches_word(&b, &infinity, &infinity_upper)
        || matches_word(&b, &nan, &nan_upper) || decimal_syntax(&b)
}

// ---------------------------------------------------------------------------
// Decimal text of integers
// ---------------------------------------------------------------------------

/// The character of a decimal digit.
pub open spec fn digit_char(d: nat) -> char {
    (48 + d) as char
}

/// The decimal digits of `n`, most significant first, without leading zeros.
pub open spec fn decimal_digits(n: nat) -> Seq<char>
    decreases n,
{
    if n < 10 {
        seq![digit_char(n)]
    } else {
        decimal_digits(n / 10).push(digit_char(n % 10))
    }
}

/// The decimal text of `v`, as `to_string` writes an integer.
pub open spec fn decimal_text(v: int) -> Seq<char> {
    if v < 0 {
        seq!['-'] + decimal_digits((-v) as nat)
    } else {
        decimal_digits(v as nat)
    }
}

fn digit_char_of(d: u64) -> (r: char)
    requires
        d < 10,
    ensures
        r == digit_char(d as nat),
{
    match d {
        0 => '0',
        1 => '1',
        2 => '2',
        3 => '3',
        4 => '4',
        5 => '5',
        6 => '6',
        7 => '7',
        8 => '8',
        _ => '9',
    }
}

/// Appends the decimal digits of `n`.
pub(crate) fn push_decimal_digits(n: u64, out: &mut Vec<char>)
    ensures
        final(out)@ == old(out)@ + decimal_digits(n as nat),
    decreases n,
{
    if n >= 10 {
        push_decimal_digits(n / 10, out);
    }
    out.push(digit_char_of(n % 10));
    proof {
        if n >= 10 {
            assert(decimal_digits(n as nat) == decimal_digits((n / 10) as nat).push(
                digit_char((n % 10) as nat),
            ));
        }
    }
}

/// A string holding `chars`.
pub(crate) fn string_of(chars: &[char]) -> (r: String)
    ensures
        r@ == chars@,
{
    let mut r = String::new();
    let mut i: usize = 0;
    while i < chars.len()
        invariant
            i <= chars@.len(),
            r@ == chars@.take(i as int),
        decreases chars@.len() - i,
    {
        push_char(&mut r, chars[i]);
        proof {
            assert(chars@.take(i + 1) =~= chars@.take(i as int).push(chars@[i as int]));
        }
        i = i + 1;
    }
    proof {
        assert(chars@.take(i as int) =~= chars@);
    }
    r
}

/// The decimal text of `v`.
fn decimal_string(v: i64) -> (r: String)
    requires
        v > i64::MIN,
    ensures
        r@ == decimal_text(v as int),
{
    let mut out: Vec<char> = Vec::new();
    if v < 0 {
        out.push('-');
        push_decimal_digits((-v) as u64, &mut out);
    } else {
        push_decimal_digits(v as u64, &mut out);
    }
    proof {
        if v < 0 {
            assert(out@ =~= seq!['-'] + decimal_digits((-v) as nat));
        }
    }
    string_of(&out)
}

// ---------------------------------------------------------------------------
// Input modes
// ---------------------------------------------------------------------------

/// A caller-supplied test of each character of a text, given the character's
/// byte offset in the text and the character.
#[verifier::external_body]
#[derive(Debug, Copy)]
pub struct CharFilter(pub fn(usize, char) -> bool);

impl Clone for CharFilter {
    fn clone(&self) -> (r: Self)
        ensures
            r == *self,
    {
        *self
    }
}

impl CharFilter {
    /// Calls the filter function (a plain `fn(usize, char) -> bool` of the
    /// caller's) on a byte offset and a character. The function is the
    /// caller's code: nothing is stated of its answer.
    #[verifier::external_body]
    pub(crate) fn allows(&self, offset: usize, c: char) -> bool {
        (self.0)(offset, c)
    }
}

/// What a text input accepts.
#[derive(Debug, Clone, Copy)]
pub enum TextInputMode {
    /// Any text.
    Text,
    /// A number as `f32` reads it, or a lone `-` while one is being typed.
    Number,
    /// An integer in the range of `i32`, or a lone `-`.
    Integer,
    /// An integer in the range of `u32`.
    UnsignedInteger,
    /// Text whose every character the filter allows.
    Filter(CharFilter),
}

impl Default for TextInputMode {
    fn default() -> (r: Self)
        ensures
            r is Text,
    {
        TextInputMode::Text
    }
}

/// Whether a mode other than `Filter` accepts `t`.
pub open spec fn mode_accepts(mode: TextInputMode, t: Seq<char>) -> bool {
    match mode {
        TextInputMode::Text => true,
        TextInputMode::Number => is_number_text(t) || t == seq!['-'],
        TextInputMode::Integer => is_integer_text(t) || t == seq!['-'],
        TextInputMode::UnsignedInteger => is_unsigned_integer_text(t),
        TextInputMode::Filter(_) => true,
    }
}

/// The number of bytes that a character with code point `v` takes in UTF-8.
pub open spec fn utf8_width_of(v: u32) -> nat {
    if v < 0x80 {
        1
    } else if v < 0x800 {
        2
    } else if v < 0x10000 {
        3
    } else {
        4
    }
}

/// The number of bytes that `c` takes in UTF-8.
fn utf8_width(c: char) -> (r: usize)
    ensures
        r == utf8_width_of(c as u32),
        1 <= r <= 4,
{
    let v = c as u32;
    if v < 0x80 {
        1
    } else if v < 0x800 {
        2
    } else if v < 0x10000 {
        3
    } else {
        4
    }
}

/// Whether `t` is exactly a lone `-`.
fn is_lone_minus(t: &[char]) -> (r: bool)
    ensures
        r == (t@ == seq!['-']),
{
    let r = t.len() == 1 && t[0] == '-';
    proof {
        if t@.len() == 1 && t@[0] == '-' {
            assert(t@ =~= seq!['-']);
        }
    }
    r
}

impl TextInputMode {
    /// Whether this is the `Text` mode.
    pub fn is_text(&self) -> (r: bool)
        ensures
            r == (*self is Text),
    {
        match self {
            TextInputMode::Text => true,
            _ => false,
        }
    }

    /// Whether this is the `Number` mode.
    pub fn is_number(&self) -> (r: bool)
        ensures
            r == (*self is Number),
    {
        match self {
            TextInputMode::Number => true,
            _ => false,
        }
    }

    /// Whether this is the `Integer` mode.
    pub fn is_integer(&self) -> (r: bool)
        ensures
            r == (*self is Integer),
    {
        match self {
            TextInputMode::Integer => true,
            _ => false,
        }
    }

    /// Whether this is the `UnsignedInteger` mode.
    pub fn is_unsigned_integer(&self) -> (r: bool)
        ensures
            r == (*self is UnsignedInteger),
    {
        match self {
            TextInputMode::UnsignedInteger => true,
            _ => false,
        }
    }

    /// Whether this is the `Filter` mode.
    pub fn is_filter(&self) -> (r: bool)
        ensures
            r == (*self is Filter),
    {
        match self {
            TextInputMode::Filter(_) => true,
            _ => false,
        }
    }

    /// Whether the filter allows every character of `t`, asked in order,
    /// stopping at the first it refuses.
    fn filter_allows_all(filter: &CharFilter, t: &[char]) -> (r: bool)
        ensures
            t@.len() == 0 ==> r,
    {
        let mut offset: usize = 0;
        let mut i: usize = 0;
        while i < t.len()
            invariant
                i <= t@.len(),
            decreases t@.len() - i,
        {
            if !filter.allows(offset, t[i]) {
                return false;
            }
            // A string's byte length fits in `usize`; saturation never happens.
            offset = offset.saturating_add(utf8_width(t[i]));
            i = i + 1;
        }
        true
    }

    /// Whether the mode accepts the characters `t`.
    fn accepts_chars(&self, t: &[char]) -> (r: bool)
        ensures
            !(*self is Filter) ==> r == mode_accepts(*self, t@),
    {
        match self {
            TextInputMode::Text => true,
            TextInputMode::Number => number_syntax(t) || is_lone_minus(t),
            TextInputMode::Integer => parse_integer(t).is_some() || is_lone_minus(t),
            TextInputMode::UnsignedInteger => parse_unsigned_integer(t).is_some(),
            TextInputMode::Filter(filter) => Self::filter_allows_all(filter, t),
        }
    }

    /// Whether the mode accepts `text`. For `Filter`, the filter's answers
    /// decide.
    pub fn is_valid(&self, text: &str) -> (r: bool)
        ensures
            !(*self is Filter) ==> r == mode_accepts(*self, text@),
    {
        let chars = chars_of(text);
        self.accepts_chars(&chars)
    }

    /// The normalised text for `text`, or `None` where the mode refuses it:
    /// `Text` keeps the text; `Integer` and `UnsignedInteger` write the value
    /// back in decimal; `Filter` keeps the text if the filter allows every
    /// character. For `Number`, `number_text` is the text of the `f32` that
    /// `text` reads as (what `to_string` writes for it), which this library
    /// does not compute; it is returned where `text` is number text.
    pub fn process(&self, text: &str, number_text: Option<String>) -> (r: Option<String>)
        ensures
            *self is Text ==> (r matches Some(t) && t@ == text@),
            *self is Number ==> (if is_number_text(text@) {
                r == number_text
            } else {
                r is None
            }),
            *self is Integer ==> (if is_integer_text(text@) {
                r matches Some(t) && t@ == decimal_text(signed_value(text@))
            } else {
                r is None
            }),
            *self is UnsignedInteger ==> (if is_unsigned_integer_text(text@) {
                r matches Some(t) && t@ == decimal_text(digits_value(plus_stripped(text@)) as int)
            } else {
                r is None
            }),
            *self is Filter ==> (r is None || (r matches Some(t) && t@ == text@)),
    {
        let chars = chars_of(text);
        match self {
            TextInputMode::Text => Some(text.to_owned()),
            TextInputMode::Number => {
                if number_syntax(&chars) {
                    number_text
                } else {
                    None
                }
            },
            TextInputMode::Integer => match parse_integer(&chars) {
                Some(v) => Some(decimal_string(v)),
                None => None,
            },
            TextInputMode::UnsignedInteger => match parse_unsigned_integer(&chars) {
                Some(v) => Some(decimal_string(v as i64)),
                None => None,
            },
            TextInputMode::Filter(filter) => {
                if Self::filter_allows_all(filter, &chars) {
                    Some(text.to_owned())
                } else {
                    None
                }
            },
        }
    }
}

// ---------------------------------------------------------------------------
// Text with a cursor
// ---------------------------------------------------------------------------

/// The smaller of two integers.
pub open spec fn min_int(a: int, b: int) -> int {
    if a < b {
        a
    } else {
        b
    }
}

/// `text` with `cursor` inserted before the character at `position`, or at
/// the end when `position` is past it.
pub fn input_text_with_cursor(text: &str, position: usize, cursor: char) -> (r: String)
    ensures
        ({
            let p = min_int(position as int, text@.len() as int);
            r@ == text@.take(p).push(cursor) + text@.skip(p)
        }),
{
    let chars = chars_of(text);
    let ghost p = min_int(position as int, text@.len() as int);
    let mut r = String::new();
    let mut i: usize = 0;
    while i < chars.len() && i < position
        invariant
            chars@ == text@,
            i <= chars@.len(),
            i <= position,
            r@ == chars@.take(i as int),
        decreases chars@.len() - i,
    {
        push_char(&mut r, chars[i]);
        proof {
            assert(chars@.take(i + 1) =~= chars@.take(i as int).push(chars@[i as int]));
        }
        i = i + 1;
    }
    assert(i == p);
    push_char(&mut r, cursor);
    let ghost head = r@;
    while i < chars.len()
        invariant
            chars@ == text@,
            p == min_int(position as int, text@.len() as int),
            p <= i <= chars@.len(),
            r@ == head + chars@.subrange(p, i as int),
        decreases chars@.len() - i,
    {
        push_char(&mut r, chars[i]);
        proof {
            assert(chars@.subrange(p, i + 1) =~= chars@.subrange(p, i as int).push(
                chars@[i as int],
            ));
        }
        i = i + 1;
    }
    proof {
        assert(chars@.subrange(p, chars@.len() as int) =~= text@.skip(p));
    }
    r
}

// ---------------------------------------------------------------------------
// Editing
// ---------------------------------------------------------------------------

/// Focus and cursor of a text input; the cursor counts characters.
#[derive(Debug, Clone, Copy, PartialEq, Eq, Structural)]
pub struct TextInputState {
    pub focused: bool,
    pub cursor_position: usize,
}

impl Default for TextInputState {
    /// Not focused, cursor at the start.
    fn default() -> (r: Self)
        ensures
            !r.focused,
            r.cursor_position == 0,
    {
        TextInputState { focused: false, cursor_position: 0 }
    }
}

/// Where a text input sends its state after a change.
#[derive(Debug, Clone, Default)]
pub struct TextInputNotifyProps(pub WidgetIdOrRef);

/// Where a text input forwards the control characters typed into it.
#[derive(Debug, Clone, Default)]
pub struct TextInputControlNotifyProps(pub WidgetIdOrRef);

/// A text input's state after a change, and whether the text was submitted.
#[derive(Debug, Clone)]
pub struct TextInputNotifyMessage {
    pub sender: WidgetId,
    pub state: TextInputState,
    pub submitted: bool,
}

/// A control character typed into a text input.
#[derive(Debug, Clone)]
pub struct TextInputControlNotifyMessage {
    pub sender: WidgetId,
    pub character: char,
}

/// Reads and writes the text that a text input edits.
pub trait TextInputProxy: Send + Sync {
    fn get(&self) -> String;

    fn set(&mut self, value: String);
}

/// A request that a text input reacts to.
#[derive(Debug, Clone)]
pub enum TextInputSignal {
    /// Focus moves to the given widget, or away when it is unset.
    FocusTextInput(WidgetIdOrRef),
    /// An edit of the focused text.
    TextChange(NavTextChange),
}

/// A control character: Unicode general category Cc, as `char::is_control`.
pub open spec fn is_control_char(c: char) -> bool {
    c <= '\u{1f}' || ('\u{7f}' <= c && c <= '\u{9f}')
}

/// A text input part-way through a batch of signals.
pub struct TextEditView {
    pub focused: bool,
    pub cursor: int,
    pub text: Seq<char>,
    pub text_changed: bool,
    pub state_changed: bool,
    pub submitted: bool,
    pub controls: Seq<char>,
}

/// The text that an edit proposes before the mode judges it.
pub open spec fn proposed_text(e: TextEditView, change: NavTextChange) -> Seq<char> {
    let t = e.text;
    let n = t.len() as int;
    let c = e.cursor;
    match change {
        NavTextChange::InsertCharacter(ch) => {
            let p = min_int(c, n);
            t.take(p).push(ch) + t.skip(p)
        },
        NavTextChange::DeleteLeft => {
            let p = min_int(c - 1, n);
            t.take(p) + t.skip(min_int(p + 1, n))
        },
        NavTextChange::DeleteRight => {
            let p = min_int(c, n);
            t.take(p) + t.skip(min_int(p + 1, n))
        },
        NavTextChange::NewLine => {
            let p = min_int(c, n);
            t.take(p).push('\n') + t.skip(p)
        },
        _ => t,
    }
}

/// The text that a signal proposes.
pub open spec fn proposed_by(e: TextEditView, signal: TextInputSignal) -> Seq<char> {
    match signal {
        TextInputSignal::TextChange(change) => proposed_text(e, change),
        _ => e.text,
    }
}

/// One signal applied, where `accepted` is the mode's verdict on the
/// proposed text (used only by edits that propose one).
pub open spec fn edit_step(
    e: TextEditView,
    signal: TextInputSignal,
    allow_new_line: bool,
    accepted: bool,
) -> TextEditView {
    match signal {
        TextInputSignal::FocusTextInput(target) => TextEditView {
            focused: !(target is Unset),
            state_changed: true,
            ..e
        },
        TextInputSignal::TextChange(change) => {
            if !e.focused {
                e
            } else {
                let n = e.text.len() as int;
                let c = e.cursor;
                let proposed = proposed_text(e, change);
                match change {
                    NavTextChange::InsertCharacter(ch) => {
                        if is_control_char(ch) {
                            TextEditView { controls: e.controls.push(ch), ..e }
                        } else if accepted {
                            TextEditView {
                                cursor: min_int(c, n) + 1,
                                text: proposed,
                                text_changed: true,
                                state_changed: true,
                                ..e
                            }
                        } else {
                            TextEditView { cursor: min_int(c, n), ..e }
                        }
                    },
                    NavTextChange::MoveCursorLeft => {
                        if c > 0 {
                            TextEditView { cursor: c - 1, state_changed: true, ..e }
                        } else {
                            e
                        }
                    },
                    NavTextChange::MoveCursorRight => {
                        if c < n {
                            TextEditView { cursor: c + 1, state_changed: true, ..e }
                        } else {
                            e
                        }
                    },
                    NavTextChange::MoveCursorStart => TextEditView {
                        cursor: 0,
                        state_changed: true,
                        ..e
                    },
                    NavTextChange::MoveCursorEnd => TextEditView {
                        cursor: n,
                        state_changed: true,
                        ..e
                    },
                    NavTextChange::DeleteLeft => {
                        if c > 0 && accepted {
                            TextEditView {
                                cursor: c - 1,
                                text: proposed,
                                text_changed: true,
                                state_changed: true,
                                ..e
                            }
                        } else {
                            e
                        }
                    },
                    NavTextChange::DeleteRight => {
                        if accepted {
                            TextEditView {
                                text: proposed,
                                text_changed: true,
                                state_changed: true,
                                ..e
                            }
                        } else {
                            e
                        }
                    },
                    NavTextChange::NewLine => {
                        if !allow_new_line {
                            TextEditView { submitted: true, state_changed: true, ..e }
                        } else if accepted {
                            TextEditView {
                                cursor: c + 1,
                                text: proposed,
                                text_changed: true,
                                state_changed: true,
                                ..e
                            }
                        } else {
                            e
                        }
                    },
                }
            }
        },
    }
}

/// The signals applied in order, each proposed text judged by `mode`
/// (a mode other than `Filter`).
pub open spec fn edit_all(
    e: TextEditView,
    signals: Seq<TextInputSignal>,
    allow_new_line: bool,
    mode: TextInputMode,
) -> TextEditView
    decreases signals.len(),
{
    if signals.len() == 0 {
        e
    } else {
        let prev = edit_all(e, signals.drop_last(), allow_new_line, mode);
        edit_step(
            prev,
            signals.last(),
            allow_new_line,
            mode_accepts(mode, proposed_by(prev, signals.last())),
        )
    }
}

/// The signals applied in order, the `k`-th proposed text judged by
/// `verdicts[k]`.
pub open spec fn edit_all_judged(
    e: TextEditView,
    signals: Seq<TextInputSignal>,
    allow_new_line: bool,
    verdicts: Seq<bool>,
) -> TextEditView
    decreases signals.len(),
{
    if signals.len() == 0 {
        e
    } else {
        edit_step(
            edit_all_judged(e, signals.drop_last(), allow_new_line, verdicts),
            signals.last(),
            allow_new_line,
            verdicts[signals.len() - 1],
        )
    }
}

/// After the batch: a changed state has its cursor brought back into the text.
pub open spec fn edit_finish(e: TextEditView) -> TextEditView {
    if e.state_changed {
        TextEditView { cursor: min_int(e.cursor, e.text.len() as int), ..e }
    } else {
        e
    }
}

/// A text input before any signal of a batch.
pub open spec fn edit_start(state: TextInputState, text: Seq<char>) -> TextEditView {
    TextEditView {
        focused: state.focused,
        cursor: state.cursor_position as int,
        text,
        text_changed: false,
        state_changed: false,
        submitted: false,
        controls: Seq::empty(),
    }
}

/// Only the verdicts of the steps taken matter.
proof fn lemma_judged_prefix(
    e: TextEditView,
    signals: Seq<TextInputSignal>,
    allow_new_line: bool,
    v: Seq<bool>,
    w: Seq<bool>,
)
    requires
        forall|k: int| 0 <= k < signals.len() ==> v[k] == w[k],
    ensures
        edit_all_judged(e, signals, allow_new_line, v) == edit_all_judged(
            e,
            signals,
            allow_new_line,
            w,
        ),
    decreases signals.len(),
{
    if signals.len() > 0 {
        lemma_judged_prefix(e, signals.drop_last(), allow_new_line, v, w);
    }
}

/// What a batch of signals did to a text input: its new state and text,
/// whether each changed, whether the text was submitted, and the control
/// characters to forward, in order.
#[derive(Debug, Clone)]
pub struct TextInputUpdate {
    pub state: TextInputState,
    pub text: String,
    pub text_changed: bool,
    pub state_changed: bool,
    pub submitted: bool,
    pub control_characters: Vec<char>,
}

impl View for TextInputUpdate {
    type V = TextEditView;

    open spec fn view(&self) -> TextEditView {
        TextEditView {
            focused: self.state.focused,
            cursor: self.state.cursor_position as int,
            text: self.text@,
            text_changed: self.text_changed,
            state_changed: self.state_changed,
            submitted: self.submitted,
            controls: self.control_characters@,
        }
    }
}

/// The working form of an update, with the text as characters.
struct TextEdit {
    state: TextInputState,
    text: Vec<char>,
    text_changed: bool,
    state_changed: bool,
    submitted: bool,
    controls: Vec<char>,
}

impl View for TextEdit {
    type V = TextEditView;

    closed spec fn view(&self) -> TextEditView {
        TextEditView {
            focused: self.state.focused,
            cursor: self.state.cursor_position as int,
            text: self.text@,
            text_changed: self.text_changed,
            state_changed: self.state_changed,
            submitted: self.submitted,
            controls: self.controls@,
        }
    }
}

/// `t[..at]`, then `inserted` if any, then `t[from..]`.
fn splice(t: &Vec<char>, at: usize, from: usize, inserted: Option<char>) -> (r: Vec<char>)
    requires
        at <= from <= t@.len(),
    ensures
        r@ == (match inserted {
            Some(c) => t@.take(at as int).push(c),
            None => t@.take(at as int),
        }) + t@.skip(from as int),
{
    let mut r: Vec<char> = Vec::new();
    let mut i: usize = 0;
    while i < at
        invariant
            i <= at <= from <= t@.len(),
            r@ == t@.take(i as int),
        decreases at - i,
    {
        r.push(t[i]);
        proof {
            assert(t@.take(i + 1) =~= t@.take(i as int).push(t@[i as int]));
        }
        i = i + 1;
    }
    match inserted {
        Some(c) => r.push(c),
        None => {},
    }
    let ghost head = r@;
    let mut j: usize = from;
    while j < t.len()
        invariant
            from <= j <= t@.len(),
            r@ == head + t@.subrange(from as int, j as int),
        decreases t@.len() - j,
    {
        r.push(t[j]);
        proof {
            assert(t@.subrange(from as int, j + 1) =~= t@.subrange(from as int, j as int).push(
                t@[j as int],
            ));
        }
        j = j + 1;
    }
    proof {
        assert(t@.subrange(from as int, t@.len() as int) =~= t@.skip(from as int));
    }
    r
}

fn min_usize(a: usize, b: usize) -> (r: usize)
    ensures
        r == min_int(a as int, b as int),
{
    if a < b {
        a
    } else {
        b
    }
}

impl TextEdit {
    /// Applies one signal. Returns the mode's verdict on the proposed text,
    /// where the mode was asked.
    #[verifier::rlimit(60)]
    fn apply(&mut self, mode: &TextInputMode, allow_new_line: bool, signal: &TextInputSignal) -> (verdict: Ghost<bool>)
        requires
            old(self).state.cursor_position < usize::MAX,
            old(self).text@.len() < usize::MAX,
        ensures
            final(self)@ == edit_step(old(self)@, *signal, allow_new_line, verdict@),
            !(*mode is Filter) ==> verdict@ == mode_accepts(*mode, proposed_by(old(self)@, *signal)),
            final(self).state.cursor_position <= old(self).state.cursor_position + 1
                || final(self).state.cursor_position <= old(self).text@.len() + 1,
            final(self).text@.len() <= old(self).text@.len() + 1,
    {
        let ghost e = self@;
        let ghost proposed = proposed_by(e, *signal);
        match signal {
            TextInputSignal::FocusTextInput(target) => {
                self.state.focused = target.is_some();
                self.state_changed = true;
                Ghost(mode_accepts(*mode, proposed))
            },
            TextInputSignal::TextChange(change) => {
                if !self.state.focused {
                    return Ghost(mode_accepts(*mode, proposed));
                }
                let n = self.text.len();
                let c = self.state.cursor_position;
                match change {
                    NavTextChange::InsertCharacter(ch) => {
                        let ch = *ch;
                        if ch <= '\u{1f}' || ('\u{7f}' <= ch && ch <= '\u{9f}') {
                            self.controls.push(ch);
                            Ghost(mode_accepts(*mode, proposed))
                        } else {
                            let p = min_usize(c, n);
                            self.state.cursor_position = p;
                            let candidate = splice(&self.text, p, p, Some(ch));
                            proof {
                                assert(candidate@ =~= proposed);
                            }
                            let ok = mode.accepts_chars(&candidate);
                            if ok {
                                self.state.cursor_position = p + 1;
                                self.text = candidate;
                                self.text_changed = true;
                                self.state_changed = true;
                            }
                            Ghost(ok)
                        }
                    },
                    NavTextChange::MoveCursorLeft => {
                        if c > 0 {
                            self.state.cursor_position = c - 1;
                            self.state_changed = true;
                        }
                        Ghost(mode_accepts(*mode, proposed))
                    },
                    NavTextChange::MoveCursorRight => {
                        if c < n {
                            self.state.cursor_position = c + 1;
                            self.state_changed = true;
                        }
                        Ghost(mode_accepts(*mode, proposed))
                    },
                    NavTextChange::MoveCursorStart => {
                        self.state.cursor_position = 0;
                        self.state_changed = true;
                        Ghost(mode_accepts(*mode, proposed))
                    },
                    NavTextChange::MoveCursorEnd => {
                        self.state.cursor_position = n;
                        self.state_changed = true;
                        Ghost(mode_accepts(*mode, proposed))
                    },
                    NavTextChange::DeleteLeft => {
                        if c > 0 {
                            let p = min_usize(c - 1, n);
                            let q = min_usize(p + 1, n);
                            let candidate = splice(&self.text, p, q, None);
                            proof {
                                assert(candidate@ =~= proposed);
                            }
                            let ok = mode.accepts_chars(&candidate);
                            if ok {
                                self.state.cursor_position = c - 1;
                                self.text = candidate;
                                self.text_changed = true;
                                self.state_changed = true;
                            }
                            Ghost(ok)
                        } else {
                            Ghost(mode_accepts(*mode, proposed))
                        }
                    },
                    NavTextChange::DeleteRight => {
                        let p = min_usize(c, n);
                        let q = min_usize(p + 1, n);
                        let candidate = splice(&self.text, p, q, None);
                        proof {
                            assert(candidate@ =~= proposed);
                        }
                        let ok = mode.accepts_chars(&candidate);
                        if ok {
                            self.text = candidate;
                            self.text_changed = true;
                            self.state_changed = true;
                        }
                        Ghost(ok)
                    },
                    NavTextChange::NewLine => {
                        if allow_new_line {
                            let p = min_usize(c, n);
                            let candidate = splice(&self.text, p, p, Some('\n'));
                            proof {
                                assert(candidate@ =~= proposed);
                            }
                            let ok = mode.accepts_chars(&candidate);
                            if ok {
                                self.state.cursor_position = c + 1;
                                self.text = candidate;
                                self.text_changed = true;
                                self.state_changed = true;
                            }
                            Ghost(ok)
                        } else {
                            self.submitted = true;
                            self.state_changed = true;
                            Ghost(mode_accepts(*mode, proposed))
                        }
                    },
                }
            },
        }
    }
}

/// Applies a batch of signals to a text input in `mode`, holding `text` in
/// `state`: focus signals set the focus; while focused, edits move the cursor
/// or propose a new text that is kept only if the mode accepts it; control
/// characters are collected for forwarding; a new line submits the text
/// where new lines are not allowed. At the end a changed state has its
/// cursor brought back into the text. For `Filter`, the filter's answers
/// decide which proposed texts are kept.
pub fn text_input_update(
    mode: &TextInputMode,
    allow_new_line: bool,
    state: TextInputState,
    text: &str,
    signals: &[TextInputSignal],
) -> (r: TextInputUpdate)
    requires
        text@.len() + signals@.len() <= usize::MAX,
        state.cursor_position + signals@.len() <= usize::MAX,
    ensures
        !(*mode is Filter) ==> r@ == edit_finish(
            edit_all(edit_start(state, text@), signals@, allow_new_line, *mode),
        ),
        *mode is Filter ==> exists|verdicts: Seq<bool>|
            r@ == edit_finish(
                #[trigger] edit_all_judged(edit_start(state, text@), signals@, allow_new_line, verdicts),
            ),
{
    let ghost start = edit_start(state, text@);
    let mut edit = TextEdit {
        state,
        text: chars_of(text),
        text_changed: false,
        state_changed: false,
        submitted: false,
        controls: Vec::new(),
    };
    proof {
        assert(edit@ =~= start);
    }
    let ghost mut verdicts: Seq<bool> = Seq::empty();
    let mut i: usize = 0;
    while i < signals.len()
        invariant
            i <= signals@.len(),
            verdicts.len() == i,
            edit.state.cursor_position + (signals@.len() - i) <= usize::MAX,
            edit.text@.len() + (signals@.len() - i) <= usize::MAX,
            edit@ == edit_all_judged(start, signals@.take(i as int), allow_new_line, verdicts),
            !(*mode is Filter) ==> edit@ == edit_all(
                start,
                signals@.take(i as int),
                allow_new_line,
                *mode,
            ),
        decreases signals@.len() - i,
    {
        let ghost before = edit@;
        let verdict = edit.apply(mode, allow_new_line, &signals[i]);
        proof {
            let taken = signals@.take(i + 1);
            assert(taken.drop_last() =~= signals@.take(i as int));
            assert(taken.last() == signals@[i as int]);
            lemma_judged_prefix(
                start,
                signals@.take(i as int),
                allow_new_line,
                verdicts,
                verdicts.push(verdict@),
            );
            verdicts = verdicts.push(verdict@);
        }
        i = i + 1;
    }
    proof {
        assert(signals@.take(i as int) =~= signals@);
    }
    if edit.state_changed {
        edit.state.cursor_position = min_usize(edit.state.cursor_position, edit.text.len());
    }
    let r = TextInputUpdate {
        state: edit.state,
        text: string_of(&edit.text),
        text_changed: edit.text_changed,
        state_changed: edit.state_changed,
        submitted: edit.submitted,
        control_characters: edit.controls,
    };
    proof {
        assert(r@ =~= edit_finish(edit_all_judged(start, signals@, allow_new_line, verdicts)));
    }
    r
}

/// The state that a widget following a text input's notifications keeps:
/// that of the last notification, if any came.
pub fn text_input_notified_state(messages: &[TextInputNotifyMessage]) -> (r: Option<TextInputState>)
    ensures
        r == (if messages@.len() == 0 {
            None
        } else {
            Some(messages@.last().state)
        }),
{
    if messages.len() == 0 {
        None
    } else {
        Some(messages[messages.len() - 1].state)
    }
}

impl PropsData for TextInputMode {

}

impl PropsData for TextInputState {

}

impl PropsData for TextInputNotifyProps {

}

impl PropsData for TextInputControlNotifyProps {

}

impl MessageData for TextInputNotifyMessage {

}

impl MessageData for TextInputControlNotifyMessage {

}

// ---------------------------------------------------------------------------
// Laws
// ---------------------------------------------------------------------------

/// Law: the text with a cursor inserted has the cursor at the clamped
/// position, and removing it there gives back the text.
pub proof fn law_cursor_removal_restores(text: Seq<char>, position: nat, cursor: char)
    ensures
        ({
            let p = min_int(position as int, text.len() as int);
            let r = text.take(p).push(cursor) + text.skip(p);
            &&& r.len() == text.len() + 1
            &&& r[p] == cursor
            &&& r.remove(p) == text
        }),
{
    let p = min_int(position as int, text.len() as int);
    let r = text.take(p).push(cursor) + text.skip(p);
    assert(r[p] == cursor);
    assert(r.remove(p) =~= text);
}

/// The decimal digits of a number are digits, start with a digit, and spell
/// the number.
pub(crate) proof fn lemma_decimal_digits(n: nat)
    ensures
        decimal_digits(n).len() > 0,
        all_digits(decimal_digits(n)),
        digits_value(decimal_digits(n)) == n,
    decreases n,
{
    if n < 10 {
        assert(decimal_digits(n).drop_last() =~= Seq::<char>::empty());
        assert(digit_char(n) as int == 48 + n);
        assert('0' as int == 48);
        assert(decimal_digits(n).last() == digit_char(n));
        assert(digit_value(digit_char(n)) == n);
        assert(digits_value(Seq::<char>::empty()) == 0);
        assert(digits_value(decimal_digits(n)) == digits_value(decimal_digits(n).drop_last()) * 10
            + digit_value(decimal_digits(n).last()));
        assert(is_digit(decimal_digits(n)[0]));
    } else {
        lemma_decimal_digits(n / 10);
        let d = decimal_digits(n);
        assert(d.drop_last() =~= decimal_digits(n / 10));
        assert(digit_char(n % 10) as int == 48 + n % 10);
        assert(n == (n / 10) * 10 + n % 10) by (nonlinear_arith);
        assert('0' as int == 48);
        assert(d.last() == digit_char(n % 10));
        assert(digit_value(d.last()) == n % 10);
        assert(digits_value(d) == digits_value(d.drop_last()) * 10 + digit_value(d.last()));
        assert(digits_value(d.drop_last()) == n / 10);
        assert forall|i: int| 0 <= i < d.len() implies #[trigger] is_digit(d[i]) by {
            if i < d.len() - 1 {
                assert(d[i] == decimal_digits(n / 10)[i]);
            }
        }
    }
}

/// Law: the decimal text of an integer in the range of `i32` is integer text
/// that spells the same integer, so normalising integer text a second time
/// changes nothing.
pub proof fn law_integer_text_normal_form(v: int)
    requires
        i32::MIN <= v <= i32::MAX,
    ensures
        is_integer_text(decimal_text(v)),
        signed_value(decimal_text(v)) == v,
        decimal_text(signed_value(decimal_text(v))) == decimal_text(v),
{
    if v < 0 {
        let n = (-v) as nat;
        lemma_decimal_digits(n);
        let t = decimal_text(v);
        assert(unsigned_part(t) =~= decimal_digits(n));
    } else {
        let n = v as nat;
        lemma_decimal_digits(n);
        let t = decimal_text(v);
        assert(is_digit(t[0]));
        assert(unsigned_part(t) =~= t);
    }
}

/// Law: the decimal text of a number in the range of `u32` is unsigned
/// integer text that spells the same number.
pub proof fn law_unsigned_text_normal_form(n: nat)
    requires
        n <= u32::MAX,
    ensures
        is_unsigned_integer_text(decimal_text(n as int)),
        digits_value(plus_stripped(decimal_text(n as int))) == n,
{
    lemma_decimal_digits(n);
    let t = decimal_text(n as int);
    assert(is_digit(t[0]));
    assert(plus_stripped(t) =~= t);
}

/// Applying signals never moves the cursor before the start.
proof fn lemma_edit_all_cursor(
    e: TextEditView,
    signals: Seq<TextInputSignal>,
    allow_new_line: bool,
    mode: TextInputMode,
)
    requires
        e.cursor >= 0,
    ensures
        edit_all(e, signals, allow_new_line, mode).cursor >= 0,
    decreases signals.len(),
{
    if signals.len() > 0 {
        lemma_edit_all_cursor(e, signals.drop_last(), allow_new_line, mode);
    }
}

proof fn lemma_edit_all_judged_cursor(
    e: TextEditView,
    signals: Seq<TextInputSignal>,
    allow_new_line: bool,
    verdicts: Seq<bool>,
)
    requires
        e.cursor >= 0,
    ensures
        edit_all_judged(e, signals, allow_new_line, verdicts).cursor >= 0,
    decreases signals.len(),
{
    if signals.len() > 0 {
        lemma_edit_all_judged_cursor(e, signals.drop_last(), allow_new_line, verdicts);
    }
}

/// Law: after a batch that changed the state, the cursor lies within the
/// text; it never lies before its start.
pub proof fn law_cursor_within_text(
    state: TextInputState,
    text: Seq<char>,
    signals: Seq<TextInputSignal>,
    allow_new_line: bool,
    mode: TextInputMode,
    verdicts: Seq<bool>,
)
    ensures
        ({
            let e = edit_finish(edit_all(edit_start(state, text), signals, allow_new_line, mode));
            e.cursor >= 0 && (e.state_changed ==> e.cursor <= e.text.len())
        }),
        ({
            let e = edit_finish(
                edit_all_judged(edit_start(state, text), signals, allow_new_line, verdicts),
            );
            e.cursor >= 0 && (e.state_changed ==> e.cursor <= e.text.len())
        }),
{
    lemma_edit_all_cursor(edit_start(state, text), signals, allow_new_line, mode);
    lemma_edit_all_judged_cursor(edit_start(state, text), signals, allow_new_line, verdicts);
}

/// Law: a text input only ever takes on texts that its mode accepts: after a
/// batch, a changed text is accepted by the mode, and an unchanged text is
/// the text it started with.
pub proof fn law_edits_keep_accepted_text(
    state: TextInputState,
    text: Seq<char>,
    signals: Seq<TextInputSignal>,
    allow_new_line: bool,
    mode: TextInputMode,
)
    ensures
        ({
            let e = edit_finish(edit_all(edit_start(state, text), signals, allow_new_line, mode));
            &&& e.text_changed ==> mode_accepts(mode, e.text)
            &&& !e.text_changed ==> e.text == text
        }),
    decreases signals.len(),
{
    if signals.len() > 0 {
        law_edits_keep_accepted_text(state, text, signals.drop_last(), allow_new_line, mode);
    }
}

/// Law: while a text input is not focused, edits leave it as it is; only a
/// focus change has an effect.
pub proof fn law_unfocused_ignores_edits(
    e: TextEditView,
    change: NavTextChange,
    allow_new_line: bool,
    accepted: bool,
)
    requires
        !e.focused,
    ensures
        edit_step(e, TextInputSignal::TextChange(change), allow_new_line, accepted) == e,
{
}

} // verus!
