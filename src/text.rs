//! Character-level helpers: decimal and hexadecimal renderings of integers,
//! their parsers, and conversions between `String` and character vectors.
use vstd::prelude::*;
use vstd::std_specs::iter::IteratorSpec;

verus! {

/// The character of a decimal or hexadecimal digit `d < 16` (lower case).
pub open spec fn digit_char(d: nat) -> char {
    if d == 0 { '0' }
    else if d == 1 { '1' }
    else if d == 2 { '2' }
    else if d == 3 { '3' }
    else if d == 4 { '4' }
    else if d == 5 { '5' }
    else if d == 6 { '6' }
    else if d == 7 { '7' }
    else if d == 8 { '8' }
    else if d == 9 { '9' }
    else if d == 10 { 'a' }
    else if d == 11 { 'b' }
    else if d == 12 { 'c' }
    else if d == 13 { 'd' }
    else if d == 14 { 'e' }
    else { 'f' }
}

/// The shortest decimal rendering of `n`.
pub open spec fn decimal(n: nat) -> Seq<char>
    decreases n,
{
    if n < 10 {
        seq![digit_char(n)]
    } else {
        decimal(n / 10).push(digit_char(n % 10))
    }
}

/// The decimal rendering of a signed integer, with a leading `-` when negative.
pub open spec fn signed_decimal(i: int) -> Seq<char> {
    if i < 0 {
        seq!['-'] + decimal((-i) as nat)
    } else {
        decimal(i as nat)
    }
}

/// The shortest lower-case hexadecimal rendering of `n`.
pub open spec fn hex_digits(n: nat) -> Seq<char>
    decreases n,
{
    if n < 16 {
        seq![digit_char(n)]
    } else {
        hex_digits(n / 16).push(digit_char(n % 16))
    }
}

/// Lower-case hexadecimal of `n`, zero-padded to at least four digits.
pub open spec fn hex_min4(n: nat) -> Seq<char> {
    if n < 0x10000 {
        seq![
            digit_char(n / 0x1000),
            digit_char((n / 0x100) % 16),
            digit_char((n / 16) % 16),
            digit_char(n % 16),
        ]
    } else {
        hex_digits(n)
    }
}

pub fn digit_exec(d: u64) -> (c: char)
    requires
        d < 16,
    ensures
        c == digit_char(d as nat),
{
    if d == 0 { '0' }
    else if d == 1 { '1' }
    else if d == 2 { '2' }
    else if d == 3 { '3' }
    else if d == 4 { '4' }
    else if d == 5 { '5' }
    else if d == 6 { '6' }
    else if d == 7 { '7' }
    else if d == 8 { '8' }
    else if d == 9 { '9' }
    else if d == 10 { 'a' }
    else if d == 11 { 'b' }
    else if d == 12 { 'c' }
    else if d == 13 { 'd' }
    else if d == 14 { 'e' }
    else { 'f' }
}

/// Appends the decimal rendering of `n` to `out`.
pub fn push_decimal(n: u64, out: &mut Vec<char>)
    ensures
        final(out)@ == old(out)@ + decimal(n as nat),
    decreases n,
{
    if n >= 10 {
        push_decimal(n / 10, out);
    }
    out.push(digit_exec(n % 10));
    proof {
        if n >= 10 {
            assert(decimal(n as nat) == decimal((n / 10) as nat).push(digit_char((n % 10) as nat)));
        }
    }
    assert(final(out)@ =~= old(out)@ + decimal(n as nat));
}

/// Appends the signed decimal rendering of `i` to `out`.
pub fn push_signed_decimal(i: i64, out: &mut Vec<char>)
    ensures
        final(out)@ == old(out)@ + signed_decimal(i as int),
{
    if i < 0 {
        out.push('-');
        let m: u64 = ((-(i + 1)) as u64) + 1;
        push_decimal(m, out);
        assert(final(out)@ =~= old(out)@ + signed_decimal(i as int));
    } else {
        push_decimal(i as u64, out);
    }
}

/// Appends the lower-case hexadecimal rendering of `n` to `out`.
pub fn push_hex_digits(n: u32, out: &mut Vec<char>)
    ensures
        final(out)@ == old(out)@ + hex_digits(n as nat),
    decreases n,
{
    if n >= 16 {
        push_hex_digits(n / 16, out);
    }
    out.push(digit_exec((n % 16) as u64));
    assert(final(out)@ =~= old(out)@ + hex_digits(n as nat));
}

/// Appends `n` in lower-case hexadecimal, zero-padded to four digits.
pub fn push_hex_min4(n: u32, out: &mut Vec<char>)
    ensures
        final(out)@ == old(out)@ + hex_min4(n as nat),
{
    if n < 0x10000 {
        out.push(digit_exec((n / 0x1000) as u64));
        out.push(digit_exec(((n / 0x100) % 16) as u64));
        out.push(digit_exec(((n / 16) % 16) as u64));
        out.push(digit_exec((n % 16) as u64));
        assert(final(out)@ =~= old(out)@ + hex_min4(n as nat));
    } else {
        push_hex_digits(n, out);
    }
}

/// Whether `c` is an ASCII decimal digit.
pub open spec fn is_digit(c: char) -> bool {
    48 <= (c as u32) <= 57
}

/// The value of a run of decimal digits.
pub open spec fn digits_value(s: Seq<char>) -> nat
    decreases s.len(),
{
    if s.len() == 0 {
        0
    } else {
        digits_value(s.drop_last()) * 10 + ((s.last() as u32) - 48) as nat
    }
}

pub open spec fn all_digits(s: Seq<char>) -> bool {
    forall|i: int| 0 <= i < s.len() ==> is_digit(#[trigger] s[i])
}

/// What Rust's `FromStr` for integers reads from `s`, before the range
/// check: an optional sign (`-` only where `signed`) and one or more decimal
/// digits, and nothing else.
pub open spec fn integer_text_value(s: Seq<char>, signed: bool) -> Option<int> {
    let negative = signed && s.len() > 0 && s[0] == '-';
    let body = if s.len() > 0 && (s[0] == '+' || negative) { s.drop_first() } else { s };
    if body.len() > 0 && all_digits(body) {
        Some(if negative { -(digits_value(body) as int) } else { digits_value(body) as int })
    } else {
        None
    }
}

/// `s` read as an `i64`, as `str::parse::<i64>` reads it.
pub open spec fn i64_of_text(s: Seq<char>) -> Option<i64> {
    match integer_text_value(s, true) {
        Some(v) => if i64::MIN <= v <= i64::MAX { Some(v as i64) } else { None },
        None => None,
    }
}

/// `s` read as a `u32`, as `str::parse::<u32>` reads it.
pub open spec fn u32_of_text(s: Seq<char>) -> Option<u32> {
    match integer_text_value(s, false) {
        Some(v) => if 0 <= v <= u32::MAX { Some(v as u32) } else { None },
        None => None,
    }
}

pub proof fn lemma_digits_value_prefix(s: Seq<char>, i: int)
    requires
        0 <= i <= s.len(),
    ensures
        digits_value(s.subrange(0, i)) <= digits_value(s),
    decreases s.len() - i,
{
    if i < s.len() {
        lemma_digits_value_prefix(s, i + 1);
        let p = s.subrange(0, i + 1);
        assert(p.drop_last() =~= s.subrange(0, i));
    } else {
        assert(s.subrange(0, i) =~= s);
    }
}

/// Reads an optionally signed run of decimal digits; `None` where `s` is not
/// of that shape or its value exceeds 2^64 in magnitude.
fn integer_text_value_exec(s: &Vec<char>, signed: bool) -> (r: Option<(bool, u128)>)
    ensures
        match r {
            Some((neg, m)) => integer_text_value(s@, signed) == Some(if neg { -(m as int) } else { m as int })
                && m <= 0x1_0000_0000_0000_0000,
            None => integer_text_value(s@, signed) is None
                || (integer_text_value(s@, signed) matches Some(v) && (v > 0x1_0000_0000_0000_0000 || v < -0x1_0000_0000_0000_0000)),
        },
{
    let negative = signed && s.len() > 0 && s[0] == '-';
    let start: usize = if s.len() > 0 && (s[0] == '+' || negative) { 1 } else { 0 };
    let ghost body = if s@.len() > 0 && (s@[0] == '+' || negative) { s@.drop_first() } else { s@ };
    assert(body =~= s@.subrange(start as int, s@.len() as int));
    if start >= s.len() {
        return None;
    }
    let mut acc: u128 = 0;
    let mut i: usize = start;
    while i < s.len()
        invariant
            start <= i <= s@.len(),
            negative == (signed && s@.len() > 0 && s@[0] == '-'),
            body == (if s@.len() > 0 && (s@[0] == '+' || negative) { s@.drop_first() } else { s@ }),
            body == s@.subrange(start as int, s@.len() as int),
            all_digits(body.subrange(0, i - start)),
            acc == digits_value(body.subrange(0, i - start)),
            acc <= 0x1_0000_0000_0000_0000,
        decreases s@.len() - i,
    {
        let c = s[i];
        if !((c as u32) >= 48 && (c as u32) <= 57) {
            assert(body[i - start] == c);
            assert(!all_digits(body));
            assert(integer_text_value(s@, signed) is None);
            return None;
        }
        let ghost prev = body.subrange(0, i - start);
        acc = acc * 10 + ((c as u32) - 48) as u128;
        i = i + 1;
        proof {
            let cur = body.subrange(0, i - start);
            assert(cur.drop_last() =~= prev);
            assert(cur.last() == c);
        }
        if acc > 0x1_0000_0000_0000_0000 {
            proof {
                let cur = body.subrange(0, i - start);
                lemma_digits_value_prefix(body, i - start);
                if all_digits(body) {
                    assert(digits_value(body) >= acc);
                    assert(body.len() > 0);
                    assert(integer_text_value(s@, signed) == Some(if negative { -(digits_value(body) as int) } else { digits_value(body) as int }));
                } else {
                    assert(integer_text_value(s@, signed) is None);
                }
            }
            return None;
        }
    }
    assert(body.subrange(0, i - start) =~= body);
    Some((negative, acc))
}

/// `s` read as an `i64`, exactly as Rust's `str::parse::<i64>` reads it.
pub fn parse_i64(s: &Vec<char>) -> (r: Option<i64>)
    ensures
        r == i64_of_text(s@),
{
    match integer_text_value_exec(s, true) {
        Some((neg, m)) => {
            if neg {
                if m <= 0x8000_0000_0000_0000 {
                    if m == 0x8000_0000_0000_0000 {
                        Some(i64::MIN)
                    } else {
                        Some(-(m as i64))
                    }
                } else {
                    None
                }
            } else if m <= 0x7fff_ffff_ffff_ffff {
                Some(m as i64)
            } else {
                None
            }
        },
        None => None,
    }
}

/// `s` read as a `u32`, exactly as Rust's `str::parse::<u32>` reads it.
pub fn parse_u32(s: &Vec<char>) -> (r: Option<u32>)
    ensures
        r == u32_of_text(s@),
{
    match integer_text_value_exec(s, false) {
        Some((neg, m)) => {
            if m <= 0xffff_ffff {
                Some(m as u32)
            } else {
                None
            }
        },
        None => None,
    }
}

pub proof fn lemma_digit_char(d: nat)
    requires
        d < 16,
    ensures
        d < 10 ==> is_digit(digit_char(d)) && (digit_char(d) as u32) - 48 == d,
        digit_char(d) != '+' && digit_char(d) != '-' && digit_char(d) != '"',
        d < 10 ==> (digit_char(d) as u32) == 48 + d,
        10 <= d ==> (digit_char(d) as u32) == 87 + d,
{
}

/// A decimal rendering is a non-empty run of digits with the value rendered.
pub proof fn lemma_decimal(n: nat)
    ensures
        decimal(n).len() > 0,
        all_digits(decimal(n)),
        digits_value(decimal(n)) == n,
    decreases n,
{
    lemma_digit_char(n % 10);
    vstd::arithmetic::div_mod::lemma_fundamental_div_mod(n as int, 10);
    if n >= 10 {
        lemma_decimal(n / 10);
        let s = decimal(n);
        assert(s.drop_last() =~= decimal(n / 10));
        assert(s.last() == digit_char(n % 10));
        assert(digits_value(s) == digits_value(s.drop_last()) * 10 + ((s.last() as u32) - 48) as nat);
        assert(digits_value(s) == (n / 10) * 10 + n % 10);
        assert forall|i: int| 0 <= i < s.len() implies is_digit(#[trigger] s[i]) by {
            if i < s.len() - 1 {
                assert(s[i] == decimal(n / 10)[i]);
            }
        }
    } else {
        let s = decimal(n);
        assert(s.drop_last() =~= Seq::<char>::empty());
        assert(digits_value(s) == digits_value(s.drop_last()) * 10 + ((s.last() as u32) - 48) as nat);
    }
}

/// Reading back a rendered integer gives the integer.
pub proof fn lemma_i64_text(i: i64)
    ensures
        i64_of_text(signed_decimal(i as int)) == Some(i),
{
    if i < 0 {
        let m = (-(i as int)) as nat;
        lemma_decimal(m);
        let s = signed_decimal(i as int);
        assert(s.drop_first() =~= decimal(m));
    } else {
        lemma_decimal(i as nat);
        lemma_digit_char((i as nat) % 10);
        let s = decimal(i as nat);
        assert(s[0] != '-' && s[0] != '+') by {
            assert(is_digit(s[0]));
        }
    }
}

/// Reading back a rendered `u32` gives it.
pub proof fn lemma_u32_text(x: u32)
    ensures
        u32_of_text(decimal(x as nat)) == Some(x),
{
    lemma_decimal(x as nat);
    let s = decimal(x as nat);
    assert(is_digit(s[0]));
}

/// The lower-case form of a text, as `str::to_lowercase` gives it.
pub uninterp spec fn lower_of(s: Seq<char>) -> Seq<char>;

/// Relies on `str::to_lowercase`: the result depends on the characters of
/// `s` alone.
#[verifier::external_body]
pub fn lowercase(s: &str) -> (r: String)
    ensures
        r@ == lower_of(s@),
{
    s.to_lowercase()
}

/// Relies on `char::from_u32`: the character with that code, for exactly the
/// Unicode scalar values.
#[verifier::external_body]
pub fn char_from_u32(u: u32) -> (r: Option<char>)
    ensures
        r == (if vstd::utf8::is_scalar(u) { Some(u as char) } else { None::<char> }),
{
    char::from_u32(u)
}

/// Relies on `std::str::from_utf8`: `Some` exactly when the bytes are valid
/// UTF-8, holding the characters they encode.
#[verifier::external_body]
pub fn utf8_text(b: &[u8]) -> (r: Option<String>)
    ensures
        r is Some <==> vstd::utf8::valid_utf8(b@),
        r matches Some(s) ==> s@ == vstd::utf8::decode_utf8(b@),
{
    match std::str::from_utf8(b) {
        Ok(s) => Some(s.to_string()),
        Err(_) => None,
    }
}

/// The characters of `s`, in order.
pub fn chars_of(s: &str) -> (r: Vec<char>)
    ensures
        r@ == s@,
{
    broadcast use vstd::string::group_string_axioms;

    let mut it = s.chars();
    let mut out: Vec<char> = Vec::new();
    loop
        invariant
            out@ + IteratorSpec::remaining(&it) == s@,
            IteratorSpec::decrease(&it) is Some,
        ensures
            out@ == s@,
        decreases IteratorSpec::decrease(&it)->0,
    {
        match it.next() {
            Some(c) => {
                out.push(c);
            },
            None => {
                assert(out@ + Seq::<char>::empty() =~= out@);
                break;
            },
        }
    }
    out
}

/// Relies on `String: FromIterator<char>`: a string holding exactly these characters.
#[verifier::external_body]
pub fn string_of(cs: &Vec<char>) -> (r: String)
    ensures
        r@ == cs@,
{
    cs.iter().collect()
}

} // verus!
