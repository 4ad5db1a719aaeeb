//! The canonical text encoding of metadata values: one token per value, used
//! both for display and as the input of the structural hash, and its decoder.
use vstd::prelude::*;
use crate::text::{
    char_from_u32, chars_of, decimal, digit_char, hex_min4, i64_of_text, lemma_decimal, lemma_digit_char,
    lemma_i64_text, lemma_u32_text, parse_i64, parse_u32, push_decimal, push_hex_min4, push_signed_decimal,
    signed_decimal, string_of, u32_of_text,
};
use crate::types::{lemma_value_models, value_model, value_models, CanonicalValue, ValueModel};

verus! {

/// The escape of one character inside a quoted string token: quotes,
/// backslashes, newlines, carriage returns and tabs get a two-character
/// escape, printable ASCII stays as it is, and every other character becomes
/// `\u` followed by its code in lower-case hexadecimal (at least four digits).
pub open spec fn escape_char(c: char) -> Seq<char> {
    if c == '"' {
        seq!['\\', '"']
    } else if c == '\\' {
        seq!['\\', '\\']
    } else if c == '\n' {
        seq!['\\', 'n']
    } else if c == '\r' {
        seq!['\\', 'r']
    } else if c == '\t' {
        seq!['\\', 't']
    } else if 0x20 <= (c as u32) <= 0x7e {
        seq![c]
    } else {
        seq!['\\', 'u'] + hex_min4(c as u32 as nat)
    }
}

/// The escape of a whole string: each character's escape, in order.
pub open spec fn escaped(s: Seq<char>) -> Seq<char>
    decreases s.len(),
{
    if s.len() == 0 {
        Seq::empty()
    } else {
        escaped(s.drop_last()) + escape_char(s.last())
    }
}

/// The value of a hexadecimal digit, either case.
pub open spec fn hex_digit_value(c: char) -> Option<nat> {
    let u = c as u32;
    if 48 <= u <= 57 {
        Some((u - 48) as nat)
    } else if 97 <= u <= 102 {
        Some((u - 87) as nat)
    } else if 65 <= u <= 70 {
        Some((u - 55) as nat)
    } else {
        None
    }
}

/// The value of a run of hexadecimal digits (`Some(0)` for an empty run).
pub open spec fn hex_run_value(s: Seq<char>) -> Option<nat>
    decreases s.len(),
{
    if s.len() == 0 {
        Some(0)
    } else {
        match (hex_run_value(s.drop_last()), hex_digit_value(s.last())) {
            (Some(a), Some(d)) => Some(a * 16 + d),
            _ => None,
        }
    }
}

/// `s` read as `u32::from_str_radix(s, 16)` reads it: an optional `+` and
/// one or more hexadecimal digits.
pub open spec fn u32_of_hex(s: Seq<char>) -> Option<u32> {
    let body = if s.len() > 0 && s[0] == '+' { s.drop_first() } else { s };
    if body.len() == 0 {
        None
    } else {
        match hex_run_value(body) {
            Some(v) => if v <= u32::MAX { Some(v as u32) } else { None },
            None => None,
        }
    }
}

/// What a `\u` escape with the (up to four) characters `h` after it stands
/// for: the character with that code, or nothing if `h` is no valid code.
pub open spec fn unicode_escape(h: Seq<char>) -> Seq<char> {
    match u32_of_hex(h) {
        Some(u) => if vstd::utf8::is_scalar(u) { seq![u as char] } else { Seq::empty() },
        None => Seq::empty(),
    }
}

/// The unescaped text of `s` from position `i` on.
pub open spec fn unescape_from(s: Seq<char>, i: int) -> Seq<char>
    decreases s.len() - i,
{
    if i < 0 || i >= s.len() {
        Seq::empty()
    } else if s[i] != '\\' {
        seq![s[i]] + unescape_from(s, i + 1)
    } else if i + 1 >= s.len() {
        Seq::empty()
    } else {
        let c = s[i + 1];
        if c == '"' {
            seq!['"'] + unescape_from(s, i + 2)
        } else if c == '\\' {
            seq!['\\'] + unescape_from(s, i + 2)
        } else if c == 'n' {
            seq!['\n'] + unescape_from(s, i + 2)
        } else if c == 'r' {
            seq!['\r'] + unescape_from(s, i + 2)
        } else if c == 't' {
            seq!['\t'] + unescape_from(s, i + 2)
        } else if c == 'u' {
            let end = if i + 6 <= s.len() { i + 6 } else { s.len() as int };
            unicode_escape(s.subrange(i + 2, end)) + unescape_from(s, end)
        } else {
            seq![c] + unescape_from(s, i + 2)
        }
    }
}

/// The unescaped text of `s`.
pub open spec fn unescaped(s: Seq<char>) -> Seq<char> {
    unescape_from(s, 0)
}

/// Escapes `s` for use inside a quoted string token.
pub fn escape_string(s: &str) -> (r: String)
    ensures
        r@ == escaped(s@),
{
    let cs = chars_of(s);
    let mut out: Vec<char> = Vec::new();
    let mut i: usize = 0;
    while i < cs.len()
        invariant
            0 <= i <= cs@.len(),
            cs@ == s@,
            out@ == escaped(cs@.subrange(0, i as int)),
        decreases cs@.len() - i,
    {
        let c = cs[i];
        let ghost before = out@;
        if c == '"' {
            out.push('\\');
            out.push('"');
        } else if c == '\\' {
            out.push('\\');
            out.push('\\');
        } else if c == '\n' {
            out.push('\\');
            out.push('n');
        } else if c == '\r' {
            out.push('\\');
            out.push('r');
        } else if c == '\t' {
            out.push('\\');
            out.push('t');
        } else if (c as u32) >= 0x20 && (c as u32) <= 0x7e {
            out.push(c);
        } else {
            out.push('\\');
            out.push('u');
            push_hex_min4(c as u32, &mut out);
        }
        proof {
            let p = cs@.subrange(0, i + 1);
            assert(p.drop_last() =~= cs@.subrange(0, i as int));
            assert(out@ =~= before + escape_char(c));
        }
        i = i + 1;
    }
    assert(cs@.subrange(0, i as int) =~= s@);
    string_of(&out)
}

/// Reads a hexadecimal code of at most four characters.
fn hex_code(h: &Vec<char>) -> (r: Option<u32>)
    requires
        h@.len() <= 4,
    ensures
        r == u32_of_hex(h@),
{
    let start: usize = if h.len() > 0 && h[0] == '+' { 1 } else { 0 };
    let ghost body = if h@.len() > 0 && h@[0] == '+' { h@.drop_first() } else { h@ };
    assert(body =~= h@.subrange(start as int, h@.len() as int));
    if start >= h.len() {
        return None;
    }
    let mut acc: u32 = 0;
    let mut i: usize = start;
    while i < h.len()
        invariant
            start <= i <= h@.len() <= 4,
            body == (if h@.len() > 0 && h@[0] == '+' { h@.drop_first() } else { h@ }),
            body == h@.subrange(start as int, h@.len() as int),
            hex_run_value(body.subrange(0, i - start)) == Some(acc as nat),
            acc < pow16(i - start),
        decreases h@.len() - i,
    {
        let u = h[i] as u32;
        let d: u32 = if u >= 48 && u <= 57 {
            u - 48
        } else if u >= 97 && u <= 102 {
            u - 87
        } else if u >= 65 && u <= 70 {
            u - 55
        } else {
            proof {
                assert(body[i - start] == h@[i as int]);
                lemma_hex_run_none_extends(body, i - start);
            }
            return None;
        };
        let ghost prev = body.subrange(0, i - start);
        proof {
            assert(pow16(i - start + 1) == pow16(i - start) * 16);
            assert(acc * 16 + d < pow16(i - start + 1)) by (nonlinear_arith)
                requires acc < pow16(i - start), d < 16, pow16(i - start + 1) == pow16(i - start) * 16;
            assert(pow16(i - start + 1) <= 0x10000) by {
                assert(i - start + 1 <= 4);
                reveal_with_fuel(pow16, 5);
                assert(pow16(1) == 16);
                assert(pow16(2) == 256);
                assert(pow16(3) == 4096);
                assert(pow16(4) == 65536);
            }
        }
        acc = acc * 16 + d;
        i = i + 1;
        proof {
            let cur = body.subrange(0, i - start);
            assert(cur.drop_last() =~= prev);
        }
    }
    assert(body.subrange(0, i - start) =~= body);
    Some(acc)
}

pub open spec fn pow16(n: int) -> nat
    decreases n,
{
    if n <= 0 { 1 } else { 16 * pow16(n - 1) }
}

proof fn lemma_hex_run_none_extends(s: Seq<char>, k: int)
    requires
        0 <= k < s.len(),
        hex_digit_value(s[k]) is None,
    ensures
        hex_run_value(s) is None,
    decreases s.len(),
{
    if k < s.len() - 1 {
        lemma_hex_run_none_extends(s.drop_last(), k);
    }
}

/// Reverses [`escape_string`]: resolves the escapes `\"`, `\\`, `\n`, `\r`,
/// `\t` and `\uXXXX`; a backslash before any other character stands for that
/// character, and a trailing lone backslash is dropped.
pub fn unescape_string(s: &str) -> (r: String)
    ensures
        r@ == unescaped(s@),
{
    let cs = chars_of(s);
    let mut out: Vec<char> = Vec::new();
    let mut i: usize = 0;
    while i < cs.len()
        invariant
            0 <= i <= cs@.len(),
            cs@ == s@,
            out@ + unescape_from(cs@, i as int) == unescaped(cs@),
        decreases cs@.len() - i,
    {
        let ghost before = out@;
        let c = cs[i];
        if c != '\\' {
            out.push(c);
            i = i + 1;
            assert(out@ =~= before + seq![c]);
        } else if i + 1 >= cs.len() {
            i = cs.len();
        } else {
            let e = cs[i + 1];
            if e == 'u' {
                let end: usize = if cs.len() - i >= 6 { i + 6 } else { cs.len() };
                let mut h: Vec<char> = Vec::new();
                let mut j: usize = i + 2;
                while j < end
                    invariant
                        i + 2 <= j <= end <= cs@.len(),
                        end <= i + 6,
                        h@ == cs@.subrange(i + 2, j as int),
                    decreases end - j,
                {
                    h.push(cs[j]);
                    j = j + 1;
                    assert(h@ =~= cs@.subrange(i + 2, j as int));
                }
                match hex_code(&h) {
                    Some(code) => {
                        match char_from_u32(code) {
                            Some(ch) => {
                                out.push(ch);
                            },
                            None => {},
                        }
                    },
                    None => {},
                }
                assert(out@ =~= before + unicode_escape(cs@.subrange(i + 2, end as int)));
                i = end;
            } else {
                if e == '"' {
                    out.push('"');
                } else if e == '\\' {
                    out.push('\\');
                } else if e == 'n' {
                    out.push('\n');
                } else if e == 'r' {
                    out.push('\r');
                } else if e == 't' {
                    out.push('\t');
                } else {
                    out.push(e);
                }
                i = i + 2;
            }
        }
    }
    string_of(&out)
}

/// The canonical token of a value: `null`, `true`/`false`, the decimal value
/// of an integer of any width, the decimal bit pattern of a 64-bit float,
/// `f32:` and the decimal bit pattern of a 32-bit float, a string quoted and
/// escaped, or an array as its elements' tokens joined by commas in brackets.
pub open spec fn encode_value(v: ValueModel) -> Seq<char>
    decreases v,
{
    match v {
        ValueModel::Null => seq!['n', 'u', 'l', 'l'],
        ValueModel::Bool(b) => if b { seq!['t', 'r', 'u', 'e'] } else { seq!['f', 'a', 'l', 's', 'e'] },
        ValueModel::Int(i) => signed_decimal(i as int),
        ValueModel::Float(f) => decimal(f as nat),
        ValueModel::Text(t) => seq!['"'] + escaped(t) + seq!['"'],
        ValueModel::Array(a) => seq!['['] + encode_list(a) + seq![']'],
        ValueModel::Uint8(i) => signed_decimal(i as int),
        ValueModel::Int8(i) => signed_decimal(i as int),
        ValueModel::Uint16(i) => signed_decimal(i as int),
        ValueModel::Int16(i) => signed_decimal(i as int),
        ValueModel::Uint32(i) => signed_decimal(i as int),
        ValueModel::Int32(i) => signed_decimal(i as int),
        ValueModel::Uint64(i) => signed_decimal(i as int),
        ValueModel::Int64(i) => signed_decimal(i as int),
        ValueModel::Float32(f) => seq!['f', '3', '2', ':'] + decimal(f as nat),
    }
}

/// The tokens of `a` joined by commas.
pub open spec fn encode_list(a: Seq<ValueModel>) -> Seq<char>
    decreases a,
{
    if a.len() == 0 {
        Seq::empty()
    } else if a.len() == 1 {
        encode_value(a[0])
    } else {
        encode_list(a.drop_last()) + seq![','] + encode_value(a.last())
    }
}

/// Appends the canonical token of `v` to `out`.
pub fn push_encoding(v: &CanonicalValue, out: &mut Vec<char>)
    ensures
        final(out)@ == old(out)@ + encode_value(v@),
    decreases v,
{
    let ghost start = out@;
    match v {
        CanonicalValue::Null => {
            out.push('n');
            out.push('u');
            out.push('l');
            out.push('l');
        },
        CanonicalValue::Bool(b) => {
            if *b {
                out.push('t');
                out.push('r');
                out.push('u');
                out.push('e');
            } else {
                out.push('f');
                out.push('a');
                out.push('l');
                out.push('s');
                out.push('e');
            }
        },
        CanonicalValue::Int(i) => push_signed_decimal(*i, out),
        CanonicalValue::Float(f) => push_decimal(*f, out),
        CanonicalValue::String(t) => {
            out.push('"');
            let e = escape_string(t.as_str());
            let ec = chars_of(e.as_str());
            let mut j: usize = 0;
            while j < ec.len()
                invariant
                    0 <= j <= ec@.len(),
                    out@ == start + seq!['"'] + ec@.subrange(0, j as int),
                decreases ec@.len() - j,
            {
                out.push(ec[j]);
                j = j + 1;
                assert(out@ =~= start + seq!['"'] + ec@.subrange(0, j as int));
            }
            out.push('"');
            assert(ec@.subrange(0, j as int) =~= ec@);
        },
        CanonicalValue::Array(a) => {
            out.push('[');
            proof {
                lemma_value_models(a@);
            }
            let mut i: usize = 0;
            while i < a.len()
                invariant
                    0 <= i <= a@.len(),
                    *v == CanonicalValue::Array(*a),
                    value_models(a@).len() == a@.len(),
                    forall|j: int| 0 <= j < a@.len() ==> #[trigger] value_models(a@)[j] == value_model(a@[j]),
                    out@ == start + seq!['['] + encode_list(value_models(a@).subrange(0, i as int)),
                decreases a@.len() - i,
            {
                proof {
                    vstd::std_specs::vec::axiom_vec_index_decreases(*a, i as int);
                    assert(decreases_to!(*v => v->Array_0));
                    assert(decreases_to!(v->Array_0 => a[i as int]));
                }
                let ghost prev = value_models(a@).subrange(0, i as int);
                if i > 0 {
                    out.push(',');
                }
                push_encoding(&a[i], out);
                i = i + 1;
                proof {
                    let cur = value_models(a@).subrange(0, i as int);
                    assert(cur.drop_last() =~= prev);
                    assert(cur.last() == value_model(a@[i - 1]));
                    if i == 1 {
                        assert(encode_list(prev) =~= Seq::<char>::empty());
                        assert(cur[0] == cur.last());
                    }
                    assert(out@ =~= start + seq!['['] + encode_list(cur));
                }
            }
            out.push(']');
            assert(value_models(a@).subrange(0, i as int) =~= value_models(a@));
        },
        CanonicalValue::Uint8(i) => push_signed_decimal(*i, out),
        CanonicalValue::Int8(i) => push_signed_decimal(*i, out),
        CanonicalValue::Uint16(i) => push_signed_decimal(*i, out),
        CanonicalValue::Int16(i) => push_signed_decimal(*i, out),
        CanonicalValue::Uint32(i) => push_signed_decimal(*i, out),
        CanonicalValue::Int32(i) => push_signed_decimal(*i, out),
        CanonicalValue::Uint64(i) => push_signed_decimal(*i, out),
        CanonicalValue::Int64(i) => push_signed_decimal(*i, out),
        CanonicalValue::Float32(f) => {
            out.push('f');
            out.push('3');
            out.push('2');
            out.push(':');
            push_decimal(*f as u64, out);
        },
    }
    assert(out@ =~= start + encode_value(v@));
}

/// Produces the canonical tokens of values.
pub struct CanonicalSerializer;

impl CanonicalSerializer {
    /// The canonical token of `value`.
    pub fn serialize_value(value: &CanonicalValue) -> (r: String)
        ensures
            r@ == encode_value(value@),
    {
        let mut out: Vec<char> = Vec::new();
        push_encoding(value, &mut out);
        assert(out@ =~= encode_value(value@));
        string_of(&out)
    }
}

/// Whether `c` occurs in `s`.
pub open spec fn has_char(s: Seq<char>, c: char) -> bool {
    exists|i: int| 0 <= i < s.len() && s[i] == c
}

/// The value a token stands for. `float_bits` is the bit pattern of the
/// token read as a 64-bit float, or `None` where it does not read as one.
/// Integers are read first, then `f32:` and a 32-bit pattern, then tokens
/// holding `.`, `e` or `E` as 64-bit floats, then quoted strings; anything
/// else is kept as an opaque string.
pub open spec fn decode_token(s: Seq<char>, float_bits: Option<u64>) -> ValueModel {
    if s == seq!['n', 'u', 'l', 'l'] {
        ValueModel::Null
    } else if s == seq!['t', 'r', 'u', 'e'] {
        ValueModel::Bool(true)
    } else if s == seq!['f', 'a', 'l', 's', 'e'] {
        ValueModel::Bool(false)
    } else if i64_of_text(s) is Some {
        ValueModel::Int(i64_of_text(s)->0)
    } else if s.len() >= 4 && s.subrange(0, 4) == seq!['f', '3', '2', ':'] && u32_of_text(
        s.subrange(4, s.len() as int),
    ) is Some {
        ValueModel::Float32(u32_of_text(s.subrange(4, s.len() as int))->0)
    } else if (has_char(s, '.') || has_char(s, 'e') || has_char(s, 'E')) && float_bits is Some {
        ValueModel::Float(float_bits->0)
    } else if s.len() >= 2 && s[0] == '"' && s.last() == '"' {
        ValueModel::Text(unescaped(s.subrange(1, s.len() - 1)))
    } else {
        ValueModel::Text(s)
    }
}

/// The characters of `s` from `from` to `to`.
fn slice_chars(s: &Vec<char>, from: usize, to: usize) -> (r: Vec<char>)
    requires
        from <= to <= s@.len(),
    ensures
        r@ == s@.subrange(from as int, to as int),
{
    let mut out: Vec<char> = Vec::new();
    let mut j: usize = from;
    while j < to
        invariant
            from <= j <= to,
            to <= s@.len(),
            out@ == s@.subrange(from as int, j as int),
        decreases to - j,
    {
        out.push(s[j]);
        j = j + 1;
        assert(out@ =~= s@.subrange(from as int, j as int));
    }
    out
}

/// Whether `c` occurs in `s`.
fn contains_char(s: &Vec<char>, c: char) -> (r: bool)
    ensures
        r == has_char(s@, c),
{
    let mut i: usize = 0;
    while i < s.len()
        invariant
            0 <= i <= s@.len(),
            forall|j: int| 0 <= j < i ==> s@[j] != c,
        decreases s@.len() - i,
    {
        if s[i] == c {
            return true;
        }
        i = i + 1;
    }
    false
}

impl CanonicalValue {
    /// Reads a value back from its canonical token. `float_bits` is the bit
    /// pattern of `s` read as a 64-bit float (`s.parse::<f64>()`), or `None`
    /// where `s` does not read as one.
    pub fn deserialize(s: &str, float_bits: Option<u64>) -> (r: CanonicalValue)
        ensures
            r@ == decode_token(s@, float_bits),
    {
        let cs = chars_of(s);
        let n = cs.len();
        if n == 4 && cs[0] == 'n' && cs[1] == 'u' && cs[2] == 'l' && cs[3] == 'l' {
            assert(s@ =~= seq!['n', 'u', 'l', 'l']);
            return CanonicalValue::Null;
        }
        assert(s@ != seq!['n', 'u', 'l', 'l']);
        if n == 4 && cs[0] == 't' && cs[1] == 'r' && cs[2] == 'u' && cs[3] == 'e' {
            assert(s@ =~= seq!['t', 'r', 'u', 'e']);
            return CanonicalValue::Bool(true);
        }
        assert(s@ != seq!['t', 'r', 'u', 'e']);
        if n == 5 && cs[0] == 'f' && cs[1] == 'a' && cs[2] == 'l' && cs[3] == 's' && cs[4] == 'e' {
            assert(s@ =~= seq!['f', 'a', 'l', 's', 'e']);
            return CanonicalValue::Bool(false);
        }
        assert(s@ != seq!['f', 'a', 'l', 's', 'e']);
        if let Some(i) = parse_i64(&cs) {
            return CanonicalValue::Int(i);
        }
        if n >= 4 && cs[0] == 'f' && cs[1] == '3' && cs[2] == '2' && cs[3] == ':' {
            assert(s@.subrange(0, 4) =~= seq!['f', '3', '2', ':']);
            let rest = slice_chars(&cs, 4, n);
            if let Some(bits) = parse_u32(&rest) {
                return CanonicalValue::Float32(bits);
            }
        } else {
            assert(n >= 4 ==> s@.subrange(0, 4)[0] == s@[0] && s@.subrange(0, 4)[1] == s@[1]
                && s@.subrange(0, 4)[2] == s@[2] && s@.subrange(0, 4)[3] == s@[3]);
        }
        if contains_char(&cs, '.') || contains_char(&cs, 'e') || contains_char(&cs, 'E') {
            if let Some(bits) = float_bits {
                return CanonicalValue::Float(bits);
            }
        }
        if n >= 2 && cs[0] == '"' && cs[n - 1] == '"' {
            let inner = slice_chars(&cs, 1, n - 1);
            let inner_text = string_of(&inner);
            return CanonicalValue::String(unescape_string(inner_text.as_str()));
        }
        CanonicalValue::String(string_of(&cs))
    }
}

proof fn lemma_escaped_append(a: Seq<char>, b: Seq<char>)
    ensures
        escaped(a + b) == escaped(a) + escaped(b),
    decreases b.len(),
{
    if b.len() == 0 {
        assert(a + b =~= a);
        assert(escaped(a) + escaped(b) =~= escaped(a));
    } else {
        lemma_escaped_append(a, b.drop_last());
        assert((a + b).drop_last() =~= a + b.drop_last());
        assert((a + b).last() == b.last());
        assert(escaped(a + b) =~= escaped(a) + escaped(b));
    }
}

proof fn lemma_escaped_first(s: Seq<char>)
    requires
        s.len() > 0,
    ensures
        escaped(s) == escape_char(s[0]) + escaped(s.drop_first()),
{
    lemma_escaped_append(seq![s[0]], s.drop_first());
    assert(seq![s[0]] + s.drop_first() =~= s);
    assert(seq![s[0]].drop_last() =~= Seq::<char>::empty());
    assert(seq![s[0]].last() == s[0]);
    assert(escaped(Seq::<char>::empty()) =~= Seq::<char>::empty());
    assert(escaped(seq![s[0]]) =~= escape_char(s[0]));
}

/// Unescaping after a prefix `p` goes on as unescaping the rest alone.
proof fn lemma_unescape_shift(p: Seq<char>, r: Seq<char>, j: int)
    requires
        0 <= j <= r.len(),
    ensures
        unescape_from(p + r, p.len() + j) == unescape_from(r, j),
    decreases r.len() - j,
{
    let s = p + r;
    let i = p.len() + j;
    if j < r.len() {
        assert(s[i] == r[j]);
        if r[j] != '\\' {
            lemma_unescape_shift(p, r, j + 1);
        } else if j + 1 < r.len() {
            assert(s[i + 1] == r[j + 1]);
            let c = r[j + 1];
            if c == 'u' {
                let end = if j + 6 <= r.len() { j + 6 } else { r.len() as int };
                assert(s.subrange(i + 2, p.len() + end) =~= r.subrange(j + 2, end));
                lemma_unescape_shift(p, r, end);
            } else {
                lemma_unescape_shift(p, r, j + 2);
            }
        }
    }
}

proof fn lemma_hex_digit(k: nat)
    requires
        k < 16,
    ensures
        hex_digit_value(digit_char(k)) == Some(k),
{
    lemma_digit_char(k);
}

/// Four hexadecimal digits read back as the code they render.
proof fn lemma_hex4(n: nat)
    requires
        n < 0x10000,
    ensures
        u32_of_hex(hex_min4(n)) == Some(n as u32),
{
    let a = n / 4096;
    let b = (n / 256) % 16;
    let c = (n / 16) % 16;
    let e = n % 16;
    vstd::arithmetic::div_mod::lemma_fundamental_div_mod(n as int, 16);
    vstd::arithmetic::div_mod::lemma_fundamental_div_mod((n / 16) as int, 16);
    vstd::arithmetic::div_mod::lemma_fundamental_div_mod((n / 256) as int, 16);
    vstd::arithmetic::div_mod::lemma_div_denominator(n as int, 16, 16);
    vstd::arithmetic::div_mod::lemma_div_denominator(n as int, 256, 16);
    lemma_hex_digit(a);
    lemma_hex_digit(b);
    lemma_hex_digit(c);
    lemma_hex_digit(e);
    lemma_digit_char(a);
    let h = hex_min4(n);
    assert(h == seq![digit_char(a), digit_char(b), digit_char(c), digit_char(e)]);
    assert(h.drop_last() =~= seq![digit_char(a), digit_char(b), digit_char(c)]);
    assert(h.drop_last().drop_last() =~= seq![digit_char(a), digit_char(b)]);
    assert(h.drop_last().drop_last().drop_last() =~= seq![digit_char(a)]);
    assert(h.drop_last().drop_last().drop_last().drop_last() =~= Seq::<char>::empty());
    reveal_with_fuel(hex_run_value, 5);
    assert(hex_run_value(h) == Some(((a * 16 + b) * 16 + c) * 16 + e));
    assert(((a * 16 + b) * 16 + c) * 16 + e == n);
}

/// Unescaping the escape of one character (below U+10000) gives it back.
proof fn lemma_unescape_char(c: char, r: Seq<char>)
    requires
        (c as u32) < 0x10000,
    ensures
        unescape_from(escape_char(c) + r, 0) == seq![c] + unescape_from(r, 0),
{
    let e = escape_char(c);
    let t = e + r;
    lemma_unescape_shift(e, r, 0);
    if c == '"' || c == '\\' || c == '\n' || c == '\r' || c == '\t' {
        assert(t[0] == '\\');
        assert(t[1] == e[1]);
    } else if 0x20 <= (c as u32) <= 0x7e {
        assert(t[0] == c);
    } else {
        let code = c as u32;
        vstd::utf8::char_is_scalar(c);
        vstd::utf8::char_u32_cast(c, code);
        lemma_hex4(code as nat);
        assert(t[0] == '\\');
        assert(t[1] == 'u');
        assert(t.subrange(2, 6) =~= hex_min4(code as nat));
    }
}

proof fn lemma_unescape_escaped_from(s: Seq<char>, r: Seq<char>)
    requires
        forall|i: int| 0 <= i < s.len() ==> (#[trigger] s[i] as u32) < 0x10000,
    ensures
        unescape_from(escaped(s) + r, 0) == s + unescape_from(r, 0),
    decreases s.len(),
{
    if s.len() == 0 {
        assert(escaped(s) + r =~= r);
        assert(s + unescape_from(r, 0) =~= unescape_from(r, 0));
    } else {
        let rest = s.drop_first();
        lemma_escaped_first(s);
        assert(escaped(s) + r =~= escape_char(s[0]) + (escaped(rest) + r));
        lemma_unescape_char(s[0], escaped(rest) + r);
        assert forall|i: int| 0 <= i < rest.len() implies (#[trigger] rest[i] as u32) < 0x10000 by {
            assert(rest[i] == s[i + 1]);
        }
        lemma_unescape_escaped_from(rest, r);
        assert(s =~= seq![s[0]] + rest);
        assert(seq![s[0]] + (rest + unescape_from(r, 0)) =~= s + unescape_from(r, 0));
    }
}

/// Escaping, then unescaping, gives back any text whose characters are all
/// below U+10000 (their `\u` escapes have exactly four digits).
pub proof fn lemma_unescape_escaped(s: Seq<char>)
    requires
        forall|i: int| 0 <= i < s.len() ==> (#[trigger] s[i] as u32) < 0x10000,
    ensures
        unescaped(escaped(s)) == s,
{
    lemma_unescape_escaped_from(s, Seq::empty());
    assert(escaped(s) + Seq::<char>::empty() =~= escaped(s));
    assert(s + Seq::<char>::empty() =~= s);
}

/// The values whose tokens read back as themselves: null, booleans, plain
/// integers, 32-bit floats, and strings whose characters are all below
/// U+10000. (The tokens of the sized integer kinds and of 64-bit floats read
/// back as plain integers, and those of arrays as opaque strings.)
pub open spec fn round_trips(v: ValueModel) -> bool {
    match v {
        ValueModel::Null => true,
        ValueModel::Bool(_) => true,
        ValueModel::Int(_) => true,
        ValueModel::Float32(_) => true,
        ValueModel::Text(s) => forall|i: int| 0 <= i < s.len() ==> (#[trigger] s[i] as u32) < 0x10000,
        _ => false,
    }
}

/// Round trip: decoding the token of a value that `round_trips` gives the
/// value back. `float_bits` is the token read as a 64-bit float, which for a
/// token starting with a quote is `None` (no float is written that way).
pub proof fn lemma_round_trip(v: ValueModel, float_bits: Option<u64>)
    requires
        round_trips(v),
        encode_value(v).len() > 0 && encode_value(v)[0] == '"' ==> float_bits is None,
    ensures
        decode_token(encode_value(v), float_bits) == v,
{
    let t = encode_value(v);
    match v {
        ValueModel::Null => {},
        ValueModel::Bool(b) => {
            assert(t[0] != 'n');
            if !b {
                assert(t[0] != 't');
            }
        },
        ValueModel::Int(i) => {
            lemma_i64_text(i);
            if i < 0 {
                assert(t[0] == '-');
            } else {
                lemma_decimal(i as nat);
                assert(crate::text::is_digit(t[0]));
            }
            assert(t != seq!['n', 'u', 'l', 'l'] && t != seq!['t', 'r', 'u', 'e'] && t != seq!['f', 'a', 'l', 's', 'e']) by {
                if t.len() > 0 {
                    assert(t[0] == '-' || crate::text::is_digit(t[0]));
                }
            }
        },
        ValueModel::Float32(f) => {
            lemma_decimal(f as nat);
            lemma_u32_text(f);
            assert(t[0] == 'f' && t[1] == '3');
            assert(t != seq!['n', 'u', 'l', 'l'] && t != seq!['t', 'r', 'u', 'e'] && t != seq!['f', 'a', 'l', 's', 'e']) by {
                assert(seq!['f', 'a', 'l', 's', 'e'][1] == 'a');
            }
            assert(!crate::text::all_digits(t)) by {
                assert(!crate::text::is_digit(t[0]));
            }
            assert(i64_of_text(t) is None);
            assert(t.subrange(0, 4) =~= seq!['f', '3', '2', ':']);
            assert(t.subrange(4, t.len() as int) =~= decimal(f as nat));
        },
        ValueModel::Text(s) => {
            assert(t[0] == '"');
            assert(t != seq!['n', 'u', 'l', 'l'] && t != seq!['t', 'r', 'u', 'e'] && t != seq!['f', 'a', 'l', 's', 'e']) by {
                assert(seq!['n', 'u', 'l', 'l'][0] == 'n');
                assert(seq!['t', 'r', 'u', 'e'][0] == 't');
                assert(seq!['f', 'a', 'l', 's', 'e'][0] == 'f');
            }
            assert(!crate::text::all_digits(t)) by {
                assert(!crate::text::is_digit(t[0]));
            }
            assert(i64_of_text(t) is None);
            assert(t.len() >= 4 ==> t.subrange(0, 4)[0] == '"');
            assert(t.last() == '"');
            assert(t.subrange(1, t.len() - 1) =~= escaped(s));
            lemma_unescape_escaped(s);
        },
        _ => {},
    }
}

} // verus!
