//! The structural hash: the artifact's canonical JSON text, its SHA-256
//! digest, and that digest in lower-case hexadecimal. The text lists metadata
//! and tensors in key order, so it depends on the artifact's contents only,
//! never on the order they were inserted in.
use vstd::prelude::*;
use crate::canonical::encode_value;
use crate::text::{
    chars_of, decimal, digit_char, digit_exec, lemma_decimal, lemma_i64_text, push_decimal, push_signed_decimal,
    signed_decimal, string_of,
};
use crate::types::{Artifact, Format, Tensor, TensorModel, ValueModel};

verus! {

/// The JSON escape of one character: quote, backslash and the control
/// characters are escaped, everything else is kept.
pub open spec fn json_escape_char(c: char) -> Seq<char> {
    let u = c as u32;
    if c == '"' {
        seq!['\\', '"']
    } else if c == '\\' {
        seq!['\\', '\\']
    } else if u == 0x08 {
        seq!['\\', 'b']
    } else if u == 0x09 {
        seq!['\\', 't']
    } else if u == 0x0a {
        seq!['\\', 'n']
    } else if u == 0x0c {
        seq!['\\', 'f']
    } else if u == 0x0d {
        seq!['\\', 'r']
    } else if u < 0x20 {
        seq!['\\', 'u', '0', '0', digit_char((u / 16) as nat), digit_char((u % 16) as nat)]
    } else {
        seq![c]
    }
}

pub open spec fn json_escaped(s: Seq<char>) -> Seq<char>
    decreases s.len(),
{
    if s.len() == 0 {
        Seq::empty()
    } else {
        json_escaped(s.drop_last()) + json_escape_char(s.last())
    }
}

/// A JSON string literal holding `s`.
pub open spec fn json_string(s: Seq<char>) -> Seq<char> {
    seq!['"'] + json_escaped(s) + seq!['"']
}

pub open spec fn format_name(f: Format) -> Seq<char> {
    match f {
        Format::GGUF => "gguf"@,
        Format::Safetensors => "safetensors"@,
        Format::Onnx => "onnx"@,
    }
}

/// The texts `f` gives the elements of `s`, comma-separated.
pub open spec fn joined<T>(s: Seq<T>, f: spec_fn(T) -> Seq<char>) -> Seq<char>
    decreases s.len(),
{
    if s.len() == 0 {
        Seq::empty()
    } else if s.len() == 1 {
        f(s[0])
    } else {
        joined(s.drop_last(), f) + seq![','] + f(s.last())
    }
}

/// The dimensions as comma-separated decimals.
pub open spec fn dims_text(d: Seq<u64>) -> Seq<char> {
    joined(d, |x: u64| decimal(x as nat))
}

/// A tensor descriptor as a JSON object.
pub open spec fn tensor_text(t: TensorModel) -> Seq<char> {
    "{\"name\":"@ + json_string(t.name) + ",\"dtype\":"@ + json_string(t.dtype) + ",\"shape\":["@
        + dims_text(t.shape) + "],\"byte_length\":"@ + decimal(t.byte_length as nat) + "}"@
}

/// A metadata entry as a JSON member: the key, and the value's canonical
/// token as a JSON string.
pub open spec fn metadata_member(p: (Seq<char>, ValueModel)) -> Seq<char> {
    json_string(p.0) + seq![':'] + json_string(encode_value(p.1))
}

/// A tensor entry as a JSON member.
pub open spec fn tensor_member(p: (Seq<char>, TensorModel)) -> Seq<char> {
    json_string(p.0) + seq![':'] + tensor_text(p.1)
}

/// Metadata entries as comma-separated JSON members.
pub open spec fn metadata_text(ps: Seq<(Seq<char>, ValueModel)>) -> Seq<char> {
    joined(ps, |p: (Seq<char>, ValueModel)| metadata_member(p))
}

/// Tensor entries as comma-separated JSON members.
pub open spec fn tensors_text(ps: Seq<(Seq<char>, TensorModel)>) -> Seq<char> {
    joined(ps, |p: (Seq<char>, TensorModel)| tensor_member(p))
}

/// The canonical JSON text of an artifact: its format, its version where it
/// has one, then its metadata and its tensors in key order.
pub open spec fn artifact_text(a: Artifact) -> Seq<char> {
    "{\"format\":"@ + json_string(format_name(a.format)) + match a.gguf_version {
        Some(v) => ",\"gguf_version\":"@ + signed_decimal(v as int),
        None => Seq::empty(),
    } + ",\"metadata\":{"@ + metadata_text(a.metadata.pairs()) + "},\"tensors\":{"@ + tensors_text(
        a.tensors.pairs(),
    ) + "}}"@
}

/// Lower-case hexadecimal, two digits per byte, high nibble first.
pub open spec fn hex_of(b: Seq<u8>) -> Seq<char>
    decreases b.len(),
{
    if b.len() == 0 {
        Seq::empty()
    } else {
        hex_of(b.drop_last()) + seq![digit_char((b.last() / 16) as nat), digit_char((b.last() % 16) as nat)]
    }
}

/// The SHA-256 digest of a byte string.
pub uninterp spec fn sha256_of(data: Seq<u8>) -> Seq<u8>;

/// The structural hash of an artifact: the hexadecimal SHA-256 digest of the
/// UTF-8 bytes of its canonical text.
pub open spec fn structural_digest(a: Artifact) -> Seq<char> {
    hex_of(sha256_of(vstd::utf8::encode_utf8(artifact_text(a))))
}

/// Relies on `sha2::Sha256::digest`: the 32-byte SHA-256 digest of `data`.
#[verifier::external_body]
fn sha256(data: &[u8]) -> (r: Vec<u8>)
    ensures
        r@ == sha256_of(data@),
        r@.len() == 32,
{
    <sha2::Sha256 as sha2::Digest>::digest(data).to_vec()
}

/// Relies on `hex::encode`: two lower-case digits per byte, high nibble first.
#[verifier::external_body]
fn hex_encode(b: &Vec<u8>) -> (r: String)
    ensures
        r@ == hex_of(b@),
{
    hex::encode(b)
}

/// Appends the characters of `s`.
fn push_text(out: &mut Vec<char>, s: &str)
    ensures
        final(out)@ == old(out)@ + s@,
{
    let cs = chars_of(s);
    let mut i: usize = 0;
    while i < cs.len()
        invariant
            0 <= i <= cs@.len(),
            cs@ == s@,
            out@ == old(out)@ + cs@.subrange(0, i as int),
        decreases cs@.len() - i,
    {
        out.push(cs[i]);
        i = i + 1;
        assert(out@ =~= old(out)@ + cs@.subrange(0, i as int));
    }
    assert(cs@.subrange(0, i as int) =~= s@);
}

/// Appends `s` as a JSON string literal.
fn push_json_string(out: &mut Vec<char>, s: &str)
    ensures
        final(out)@ == old(out)@ + json_string(s@),
{
    let cs = chars_of(s);
    out.push('"');
    let ghost start = out@;
    let mut i: usize = 0;
    while i < cs.len()
        invariant
            0 <= i <= cs@.len(),
            cs@ == s@,
            out@ == start + json_escaped(cs@.subrange(0, i as int)),
        decreases cs@.len() - i,
    {
        let c = cs[i];
        let u = c as u32;
        let ghost before = out@;
        if c == '"' {
            out.push('\\');
            out.push('"');
        } else if c == '\\' {
            out.push('\\');
            out.push('\\');
        } else if u == 0x08 {
            out.push('\\');
            out.push('b');
        } else if u == 0x09 {
            out.push('\\');
            out.push('t');
        } else if u == 0x0a {
            out.push('\\');
            out.push('n');
        } else if u == 0x0c {
            out.push('\\');
            out.push('f');
        } else if u == 0x0d {
            out.push('\\');
            out.push('r');
        } else if u < 0x20 {
            out.push('\\');
            out.push('u');
            out.push('0');
            out.push('0');
            out.push(digit_exec((u / 16) as u64));
            out.push(digit_exec((u % 16) as u64));
        } else {
            out.push(c);
        }
        proof {
            assert(cs@.subrange(0, i + 1).drop_last() =~= cs@.subrange(0, i as int));
            assert(out@ =~= before + json_escape_char(c));
        }
        i = i + 1;
    }
    out.push('"');
    assert(cs@.subrange(0, i as int) =~= s@);
    assert(out@ =~= old(out)@ + json_string(s@));
}

/// Appends a tensor descriptor as a JSON object.
fn push_tensor(out: &mut Vec<char>, t: &Tensor)
    ensures
        final(out)@ == old(out)@ + tensor_text(t@),
{
    push_text(out, "{\"name\":");
    push_json_string(out, t.name.as_str());
    push_text(out, ",\"dtype\":");
    push_json_string(out, t.dtype.as_str());
    push_text(out, ",\"shape\":[");
    let ghost start = out@;
    let mut i: usize = 0;
    while i < t.shape.len()
        invariant
            0 <= i <= t.shape@.len(),
            out@ == start + dims_text(t.shape@.subrange(0, i as int)),
        decreases t.shape@.len() - i,
    {
        let ghost prev = t.shape@.subrange(0, i as int);
        if i > 0 {
            out.push(',');
        }
        push_decimal(t.shape[i], out);
        i = i + 1;
        proof {
            let cur = t.shape@.subrange(0, i as int);
            assert(cur.drop_last() =~= prev);
            if i == 1 {
                assert(dims_text(prev) =~= Seq::<char>::empty());
            }
            assert(out@ =~= start + dims_text(cur));
        }
    }
    assert(t.shape@.subrange(0, i as int) =~= t.shape@);
    push_text(out, "],\"byte_length\":");
    push_decimal(t.byte_length, out);
    push_text(out, "}");
    assert(out@ =~= old(out)@ + tensor_text(t@));
}

/// The canonical JSON text of an artifact.
pub fn canonical_text(a: &Artifact) -> (r: String)
    ensures
        r@ == artifact_text(*a),
{
    let mut out: Vec<char> = Vec::new();
    push_text(&mut out, "{\"format\":");
    let name: &str = match a.format {
        Format::GGUF => "gguf",
        Format::Safetensors => "safetensors",
        Format::Onnx => "onnx",
    };
    push_json_string(&mut out, name);
    if let Some(v) = a.gguf_version {
        push_text(&mut out, ",\"gguf_version\":");
        push_signed_decimal(v, &mut out);
    }
    push_text(&mut out, ",\"metadata\":{");
    let ghost m_start = out@;
    let mut i: usize = 0;
    while i < a.metadata.entries.len()
        invariant
            0 <= i <= a.metadata.entries@.len(),
            out@ == m_start + metadata_text(a.metadata.pairs().subrange(0, i as int)),
        decreases a.metadata.entries@.len() - i,
    {
        let ghost prev = a.metadata.pairs().subrange(0, i as int);
        if i > 0 {
            out.push(',');
        }
        push_json_string(&mut out, a.metadata.entries[i].0.as_str());
        out.push(':');
        let token = crate::canonical::CanonicalSerializer::serialize_value(&a.metadata.entries[i].1);
        push_json_string(&mut out, token.as_str());
        i = i + 1;
        proof {
            let cur = a.metadata.pairs().subrange(0, i as int);
            assert(cur.drop_last() =~= prev);
            if i == 1 {
                assert(metadata_text(prev) =~= Seq::<char>::empty());
            }
            assert(out@ =~= m_start + metadata_text(cur));
        }
    }
    assert(a.metadata.pairs().subrange(0, i as int) =~= a.metadata.pairs());
    push_text(&mut out, "},\"tensors\":{");
    let ghost t_start = out@;
    let mut j: usize = 0;
    while j < a.tensors.entries.len()
        invariant
            0 <= j <= a.tensors.entries@.len(),
            out@ == t_start + tensors_text(a.tensors.pairs().subrange(0, j as int)),
        decreases a.tensors.entries@.len() - j,
    {
        let ghost prev = a.tensors.pairs().subrange(0, j as int);
        if j > 0 {
            out.push(',');
        }
        push_json_string(&mut out, a.tensors.entries[j].0.as_str());
        out.push(':');
        push_tensor(&mut out, &a.tensors.entries[j].1);
        j = j + 1;
        proof {
            let cur = a.tensors.pairs().subrange(0, j as int);
            assert(cur.drop_last() =~= prev);
            if j == 1 {
                assert(tensors_text(prev) =~= Seq::<char>::empty());
            }
            assert(out@ =~= t_start + tensors_text(cur));
        }
    }
    assert(a.tensors.pairs().subrange(0, j as int) =~= a.tensors.pairs());
    push_text(&mut out, "}}");
    assert(out@ =~= artifact_text(*a));
    string_of(&out)
}

/// The structural hash of an artifact: 64 lower-case hexadecimal digits.
pub fn compute_structural_hash(artifact: &Artifact) -> (r: String)
    ensures
        r@ == structural_digest(*artifact),
        r@.len() == 64,
{
    let text = canonical_text(artifact);
    let bytes = text.as_str().as_bytes();
    let digest = sha256(bytes);
    proof {
        lemma_hex_len(digest@);
    }
    hex_encode(&digest)
}

proof fn lemma_hex_len(b: Seq<u8>)
    ensures
        hex_of(b).len() == 2 * b.len(),
    decreases b.len(),
{
    if b.len() > 0 {
        lemma_hex_len(b.drop_last());
    }
}

/// Order independence: two well-formed artifacts with the same format,
/// version, metadata and tensors have the same canonical text, and so the
/// same structural hash, whatever order their entries were inserted in.
pub proof fn lemma_hash_order_independent(a: Artifact, b: Artifact)
    requires
        a.wf(),
        b.wf(),
        a@ == b@,
    ensures
        artifact_text(a) == artifact_text(b),
        structural_digest(a) == structural_digest(b),
{
    a.metadata.lemma_same_view_same_pairs(&b.metadata);
    a.tensors.lemma_same_view_same_pairs(&b.tensors);
}

/// What a JSON escape sequence or plain character at `i` of `s` reads as,
/// from `i` on: the inverse of [`json_escaped`].
pub open spec fn json_unescape_from(s: Seq<char>, i: int) -> Seq<char>
    decreases s.len() - i,
{
    if i < 0 || i >= s.len() {
        Seq::empty()
    } else if s[i] != '\\' || i + 1 >= s.len() {
        seq![s[i]] + json_unescape_from(s, i + 1)
    } else {
        let c = s[i + 1];
        if c == 'u' && i + 6 <= s.len() {
            seq![json_hex_char(s[i + 4], s[i + 5])] + json_unescape_from(s, i + 6)
        } else {
            seq![json_simple_unescape(c)] + json_unescape_from(s, i + 2)
        }
    }
}

/// The character a two-character JSON escape `\c` stands for.
pub open spec fn json_simple_unescape(c: char) -> char {
    if c == 'b' {
        '\u{8}'
    } else if c == 't' {
        '\t'
    } else if c == 'n' {
        '\n'
    } else if c == 'f' {
        '\u{c}'
    } else if c == 'r' {
        '\r'
    } else {
        c
    }
}

/// The control character written `\u00` followed by the hexadecimal digits `h`, `l`.
pub open spec fn json_hex_char(h: char, l: char) -> char {
    let v = (if (h as u32) >= 97 { (h as u32) - 87 } else { (h as u32) - 48 }) * 16 + (if (l as u32) >= 97 {
        (l as u32) - 87
    } else {
        (l as u32) - 48
    });
    (v as u32) as char
}

proof fn lemma_json_escaped_append(a: Seq<char>, b: Seq<char>)
    ensures
        json_escaped(a + b) == json_escaped(a) + json_escaped(b),
    decreases b.len(),
{
    if b.len() == 0 {
        assert(a + b =~= a);
        assert(json_escaped(a) + json_escaped(b) =~= json_escaped(a));
    } else {
        lemma_json_escaped_append(a, b.drop_last());
        assert((a + b).drop_last() =~= a + b.drop_last());
        assert((a + b).last() == b.last());
        assert(json_escaped(a + b) =~= json_escaped(a) + json_escaped(b));
    }
}

proof fn lemma_json_escaped_first(s: Seq<char>)
    requires
        s.len() > 0,
    ensures
        json_escaped(s) == json_escape_char(s[0]) + json_escaped(s.drop_first()),
{
    lemma_json_escaped_append(seq![s[0]], s.drop_first());
    assert(seq![s[0]] + s.drop_first() =~= s);
    assert(seq![s[0]].drop_last() =~= Seq::<char>::empty());
    assert(seq![s[0]].last() == s[0]);
    assert(json_escaped(Seq::<char>::empty()) =~= Seq::<char>::empty());
    assert(json_escaped(seq![s[0]]) =~= json_escape_char(s[0]));
}

proof fn lemma_json_unescape_shift(p: Seq<char>, r: Seq<char>, j: int)
    requires
        0 <= j <= r.len(),
    ensures
        json_unescape_from(p + r, p.len() + j) == json_unescape_from(r, j),
    decreases r.len() - j,
{
    let s = p + r;
    let i = p.len() + j;
    if j < r.len() {
        assert(s[i] == r[j]);
        if r[j] != '\\' || j + 1 >= r.len() {
            lemma_json_unescape_shift(p, r, j + 1);
        } else {
            assert(s[i + 1] == r[j + 1]);
            if r[j + 1] == 'u' && j + 6 <= r.len() {
                assert(s[i + 4] == r[j + 4]);
                assert(s[i + 5] == r[j + 5]);
                lemma_json_unescape_shift(p, r, j + 6);
            } else {
                lemma_json_unescape_shift(p, r, j + 2);
            }
        }
    }
}

proof fn lemma_json_unescape_char(c: char, r: Seq<char>)
    ensures
        json_unescape_from(json_escape_char(c) + r, 0) == seq![c] + json_unescape_from(r, 0),
{
    let e = json_escape_char(c);
    let t = e + r;
    let u = c as u32;
    lemma_json_unescape_shift(e, r, 0);
    vstd::utf8::char_u32_cast(c, u);
    if c == '"' || c == '\\' || u == 0x08 || u == 0x09 || u == 0x0a || u == 0x0c || u == 0x0d {
        assert(t[0] == '\\');
        assert(t[1] == e[1]);
        assert(json_simple_unescape(e[1]) == c);
    } else if u < 0x20 {
        crate::text::lemma_digit_char((u / 16) as nat);
        crate::text::lemma_digit_char((u % 16) as nat);
        assert(t[0] == '\\');
        assert(t[1] == 'u');
        assert(t[4] == digit_char((u / 16) as nat));
        assert(t[5] == digit_char((u % 16) as nat));
        assert(json_hex_char(t[4], t[5]) == c);
    } else {
        assert(t[0] == c);
    }
}

proof fn lemma_json_unescape_escaped_from(s: Seq<char>, r: Seq<char>)
    ensures
        json_unescape_from(json_escaped(s) + r, 0) == s + json_unescape_from(r, 0),
    decreases s.len(),
{
    if s.len() == 0 {
        assert(json_escaped(s) + r =~= r);
        assert(s + json_unescape_from(r, 0) =~= json_unescape_from(r, 0));
    } else {
        let rest = s.drop_first();
        lemma_json_escaped_first(s);
        assert(json_escaped(s) + r =~= json_escape_char(s[0]) + (json_escaped(rest) + r));
        lemma_json_unescape_char(s[0], json_escaped(rest) + r);
        lemma_json_unescape_escaped_from(rest, r);
        assert(s =~= seq![s[0]] + rest);
        assert(seq![s[0]] + (rest + json_unescape_from(r, 0)) =~= s + json_unescape_from(r, 0));
    }
}

/// Distinct texts have distinct JSON string literals.
pub proof fn lemma_json_string_injective(a: Seq<char>, b: Seq<char>)
    requires
        json_string(a) == json_string(b),
    ensures
        a == b,
{
    lemma_json_unescape_escaped_from(a, Seq::empty());
    lemma_json_unescape_escaped_from(b, Seq::empty());
    assert(json_escaped(a) + Seq::<char>::empty() =~= json_escaped(a));
    assert(json_escaped(b) + Seq::<char>::empty() =~= json_escaped(b));
    assert(json_escaped(a) =~= json_string(a).subrange(1, json_string(a).len() - 1));
    assert(json_escaped(b) =~= json_string(b).subrange(1, json_string(b).len() - 1));
    assert(a + Seq::<char>::empty() =~= a);
    assert(b + Seq::<char>::empty() =~= b);
}

proof fn lemma_joined_append<T>(s: Seq<T>, t: Seq<T>, f: spec_fn(T) -> Seq<char>)
    ensures
        joined(s + t, f) == joined(s, f) + (if s.len() > 0 && t.len() > 0 { seq![','] } else { Seq::empty() })
            + joined(t, f),
    decreases t.len(),
{
    if t.len() == 0 {
        assert(s + t =~= s);
        assert(joined(s, f) + Seq::<char>::empty() + joined(t, f) =~= joined(s, f));
    } else {
        let t1 = t.drop_last();
        lemma_joined_append(s, t1, f);
        assert((s + t).drop_last() =~= s + t1);
        assert((s + t).last() == t.last());
        if s.len() == 0 {
            assert(s + t =~= t);
            assert(Seq::<char>::empty() + Seq::<char>::empty() + joined(t, f) =~= joined(t, f));
        } else if t.len() == 1 {
            assert(t1 =~= Seq::<T>::empty());
            assert(s + t1 =~= s);
            assert(t[0] == t.last());
            assert(joined(s + t, f) =~= joined(s, f) + seq![','] + joined(t, f));
        } else {
            assert(joined(s + t, f) =~= joined(s, f) + seq![','] + joined(t, f));
        }
    }
}

/// The joined text of `s` around position `i`: the part before, the
/// element's own text, and the part after, each fixed by its own elements.
proof fn lemma_joined_split<T>(s: Seq<T>, i: int, f: spec_fn(T) -> Seq<char>)
    requires
        0 <= i < s.len(),
    ensures
        joined(s, f) == (joined(s.subrange(0, i), f) + (if i > 0 { seq![','] } else { Seq::empty() })) + f(s[i])
            + ((if i + 1 < s.len() { seq![','] } else { Seq::empty() }) + joined(s.subrange(i + 1, s.len() as int), f)),
{
    let l = s.subrange(0, i);
    let r = s.subrange(i + 1, s.len() as int);
    let m = seq![s[i]];
    assert(s =~= l + (m + r));
    lemma_joined_append(l, m + r, f);
    lemma_joined_append(m, r, f);
    assert(joined(m, f) == f(s[i]));
    assert(joined(s, f) =~= (joined(l, f) + (if i > 0 { seq![','] } else { Seq::empty() })) + f(s[i])
        + ((if i + 1 < s.len() { seq![','] } else { Seq::empty() }) + joined(r, f)));
}

/// Equal texts with the same context around differing middles cannot be.
proof fn lemma_cancel(x: Seq<char>, p: Seq<char>, q: Seq<char>, y: Seq<char>)
    requires
        x + p + y == x + q + y,
    ensures
        p == q,
{
    let a = x + p + y;
    let b = x + q + y;
    assert(a.len() == x.len() + p.len() + y.len());
    assert(b.len() == x.len() + q.len() + y.len());
    assert(p.len() == q.len());
    assert forall|i: int| 0 <= i < p.len() implies p[i] == q[i] by {
        assert(a[x.len() + i] == p[i]);
        assert(b[x.len() + i] == q[i]);
    }
    assert(p =~= q);
}

proof fn lemma_decimal_injective(a: nat, b: nat)
    requires
        decimal(a) == decimal(b),
    ensures
        a == b,
{
    lemma_decimal(a);
    lemma_decimal(b);
}

/// Comma-separated decimals determine the numbers.
proof fn lemma_dims_text_injective(s1: Seq<u64>, s2: Seq<u64>)
    requires
        dims_text(s1) == dims_text(s2),
    ensures
        s1 == s2,
    decreases s1.len() + s2.len(),
{
    let f = |x: u64| decimal(x as nat);
    let t = dims_text(s1);
    if s1.len() == 0 || s2.len() == 0 {
        if s1.len() > 0 {
            lemma_joined_split(s1, s1.len() - 1, f);
            lemma_decimal(s1.last() as nat);
        }
        if s2.len() > 0 {
            lemma_joined_split(s2, s2.len() - 1, f);
            lemma_decimal(s2.last() as nat);
        }
        assert(s1 =~= s2);
    } else {
        let d1 = decimal(s1.last() as nat);
        let d2 = decimal(s2.last() as nat);
        lemma_decimal(s1.last() as nat);
        lemma_decimal(s2.last() as nat);
        let a1 = if s1.len() == 1 { Seq::<char>::empty() } else { joined(s1.drop_last(), f) + seq![','] };
        let a2 = if s2.len() == 1 { Seq::<char>::empty() } else { joined(s2.drop_last(), f) + seq![','] };
        assert(t == a1 + d1) by {
            if s1.len() == 1 {
                assert(s1[0] == s1.last());
                assert(Seq::<char>::empty() + d1 =~= d1);
            }
        }
        assert(t == a2 + d2) by {
            if s2.len() == 1 {
                assert(s2[0] == s2.last());
                assert(Seq::<char>::empty() + d2 =~= d2);
            }
        }
        if d1.len() < d2.len() {
            let k = t.len() - d1.len() - 1;
            if s1.len() == 1 {
                assert(t.len() == d1.len());
            } else {
                assert(t[k] == ',');
                assert(t[k] == d2[k - a2.len()]);
                assert(crate::text::is_digit(d2[k - a2.len()]));
            }
        } else if d2.len() < d1.len() {
            let k = t.len() - d2.len() - 1;
            if s2.len() == 1 {
                assert(t.len() == d2.len());
            } else {
                assert(t[k] == ',');
                assert(t[k] == d1[k - a1.len()]);
                assert(crate::text::is_digit(d1[k - a1.len()]));
            }
        }
        assert(d1 =~= d2) by {
            assert forall|i: int| 0 <= i < d1.len() implies d1[i] == d2[i] by {
                assert(t[a1.len() + i] == d1[i]);
                assert(t[a2.len() + i] == d2[i]);
            }
        }
        lemma_decimal_injective(s1.last() as nat, s2.last() as nat);
        assert(a1 =~= a2) by {
            assert forall|i: int| 0 <= i < a1.len() implies a1[i] == a2[i] by {
                assert(t[i] == a1[i]);
                assert(t[i] == a2[i]);
            }
        }
        if s1.len() == 1 || s2.len() == 1 {
            if s1.len() != s2.len() {
                assert(a1.len() != a2.len());
            }
            assert(s1 =~= s2);
        } else {
            let j1 = joined(s1.drop_last(), f);
            let j2 = joined(s2.drop_last(), f);
            assert(j1 =~= j2) by {
                assert forall|i: int| 0 <= i < j1.len() implies j1[i] == j2[i] by {
                    assert(a1[i] == j1[i]);
                    assert(a2[i] == j2[i]);
                }
            }
            lemma_dims_text_injective(s1.drop_last(), s2.drop_last());
            assert(s1 =~= s1.drop_last().push(s1.last()));
            assert(s2 =~= s2.drop_last().push(s2.last()));
        }
    }
}

/// The canonical text, split around its version part.
proof fn lemma_text_parts(a: Artifact)
    ensures
        artifact_text(a) == "{\"format\":"@ + json_string(format_name(a.format)) + version_text(a.gguf_version)
            + (",\"metadata\":{"@ + metadata_text(a.metadata.pairs()) + "},\"tensors\":{"@ + tensors_text(
            a.tensors.pairs(),
        ) + "}}"@),
{
    assert(artifact_text(a) =~= "{\"format\":"@ + json_string(format_name(a.format)) + version_text(a.gguf_version)
        + (",\"metadata\":{"@ + metadata_text(a.metadata.pairs()) + "},\"tensors\":{"@ + tensors_text(
        a.tensors.pairs(),
    ) + "}}"@));
}

/// The version part of the canonical text.
pub open spec fn version_text(v: Option<i64>) -> Seq<char> {
    match v {
        Some(x) => ",\"gguf_version\":"@ + signed_decimal(x as int),
        None => Seq::empty(),
    }
}

/// Sensitivity to the format: two well-formed artifacts that differ in
/// format only have different canonical texts, so their structural hashes
/// differ unless SHA-256 collides.
pub proof fn lemma_format_sensitive(a: Artifact, b: Artifact)
    requires
        a.wf(),
        b.wf(),
        a.format != b.format,
        a.gguf_version == b.gguf_version,
        a.metadata@ == b.metadata@,
        a.tensors@ == b.tensors@,
    ensures
        artifact_text(a) != artifact_text(b),
{
    a.metadata.lemma_same_view_same_pairs(&b.metadata);
    a.tensors.lemma_same_view_same_pairs(&b.tensors);
    lemma_text_parts(a);
    lemma_text_parts(b);
    let x = "{\"format\":"@;
    let y = version_text(a.gguf_version) + (",\"metadata\":{"@ + metadata_text(a.metadata.pairs()) + "},\"tensors\":{"@
        + tensors_text(a.tensors.pairs()) + "}}"@);
    if artifact_text(a) == artifact_text(b) {
        assert(artifact_text(a) =~= x + json_string(format_name(a.format)) + y);
        assert(artifact_text(b) =~= x + json_string(format_name(b.format)) + y);
        lemma_cancel(x, json_string(format_name(a.format)), json_string(format_name(b.format)), y);
        lemma_json_string_injective(format_name(a.format), format_name(b.format));
        reveal_strlit("gguf");
        reveal_strlit("safetensors");
        reveal_strlit("onnx");
        assert(format_name(a.format)[0] != format_name(b.format)[0] || format_name(a.format).len() != format_name(b.format).len());
    }
}

/// Sensitivity to the version: two well-formed artifacts that differ in
/// version only have different canonical texts.
pub proof fn lemma_version_sensitive(a: Artifact, b: Artifact)
    requires
        a.wf(),
        b.wf(),
        a.format == b.format,
        a.gguf_version != b.gguf_version,
        a.metadata@ == b.metadata@,
        a.tensors@ == b.tensors@,
    ensures
        artifact_text(a) != artifact_text(b),
{
    a.metadata.lemma_same_view_same_pairs(&b.metadata);
    a.tensors.lemma_same_view_same_pairs(&b.tensors);
    lemma_text_parts(a);
    lemma_text_parts(b);
    let x = "{\"format\":"@ + json_string(format_name(a.format));
    let y = ",\"metadata\":{"@ + metadata_text(a.metadata.pairs()) + "},\"tensors\":{"@ + tensors_text(a.tensors.pairs())
        + "}}"@;
    if artifact_text(a) == artifact_text(b) {
        lemma_cancel(x, version_text(a.gguf_version), version_text(b.gguf_version), y);
        reveal_strlit(",\"gguf_version\":");
        let g = ",\"gguf_version\":"@;
        match (a.gguf_version, b.gguf_version) {
            (Some(v1), Some(v2)) => {
                assert(g + signed_decimal(v1 as int) + Seq::<char>::empty() =~= version_text(a.gguf_version));
                assert(g + signed_decimal(v2 as int) + Seq::<char>::empty() =~= version_text(b.gguf_version));
                lemma_cancel(g, signed_decimal(v1 as int), signed_decimal(v2 as int), Seq::empty());
                lemma_i64_text(v1);
                lemma_i64_text(v2);
            },
            _ => {
                assert(g.len() > 0);
            },
        }
    }
}

/// The text before the metadata members.
pub open spec fn text_before_metadata(a: Artifact) -> Seq<char> {
    "{\"format\":"@ + json_string(format_name(a.format)) + version_text(a.gguf_version) + ",\"metadata\":{"@
}

/// The text after the metadata members.
pub open spec fn text_after_metadata(a: Artifact) -> Seq<char> {
    "},\"tensors\":{"@ + tensors_text(a.tensors.pairs()) + "}}"@
}

/// The text before the tensor members.
pub open spec fn text_before_tensors(a: Artifact) -> Seq<char> {
    text_before_metadata(a) + metadata_text(a.metadata.pairs()) + "},\"tensors\":{"@
}

proof fn lemma_text_metadata_parts(a: Artifact)
    ensures
        artifact_text(a) == text_before_metadata(a) + metadata_text(a.metadata.pairs()) + text_after_metadata(a),
{
    assert(artifact_text(a) =~= text_before_metadata(a) + metadata_text(a.metadata.pairs()) + text_after_metadata(a));
}

proof fn lemma_text_tensor_parts(a: Artifact)
    ensures
        artifact_text(a) == text_before_tensors(a) + tensors_text(a.tensors.pairs()) + "}}"@,
{
    assert(artifact_text(a) =~= text_before_tensors(a) + tensors_text(a.tensors.pairs()) + "}}"@);
}

pub open spec fn joined_left<T>(s: Seq<T>, i: int, f: spec_fn(T) -> Seq<char>) -> Seq<char> {
    joined(s.subrange(0, i), f) + (if i > 0 { seq![','] } else { Seq::empty() })
}

pub open spec fn joined_right<T>(s: Seq<T>, i: int, f: spec_fn(T) -> Seq<char>) -> Seq<char> {
    (if i + 1 < s.len() { seq![','] } else { Seq::empty() }) + joined(s.subrange(i + 1, s.len() as int), f)
}

proof fn lemma_joined_at<T>(s: Seq<T>, i: int, f: spec_fn(T) -> Seq<char>)
    requires
        0 <= i < s.len(),
    ensures
        joined(s, f) == joined_left(s, i, f) + f(s[i]) + joined_right(s, i, f),
{
    lemma_joined_split(s, i, f);
}

/// Replacing one element keeps the text on either side of it.
proof fn lemma_joined_sides<T>(s: Seq<T>, t: Seq<T>, i: int, f: spec_fn(T) -> Seq<char>)
    requires
        0 <= i < s.len(),
        t == s.update(i, t[i]),
    ensures
        joined_left(s, i, f) == joined_left(t, i, f),
        joined_right(s, i, f) == joined_right(t, i, f),
{
    assert(s.subrange(0, i) =~= t.subrange(0, i));
    assert(s.subrange(i + 1, s.len() as int) =~= t.subrange(i + 1, t.len() as int));
}

proof fn lemma_cancel_nested(x1: Seq<char>, x2: Seq<char>, p: Seq<char>, q: Seq<char>, y1: Seq<char>, y2: Seq<char>)
    requires
        x1 + (x2 + p + y1) + y2 == x1 + (x2 + q + y1) + y2,
    ensures
        p == q,
{
    assert(x1 + (x2 + p + y1) + y2 =~= (x1 + x2) + p + (y1 + y2));
    assert(x1 + (x2 + q + y1) + y2 =~= (x1 + x2) + q + (y1 + y2));
    lemma_cancel(x1 + x2, p, q, y1 + y2);
}

/// Sensitivity to a metadata value: two well-formed artifacts that differ
/// only in the value at one key, where the two values have different
/// canonical tokens, have different canonical texts. (Values of different
/// integer widths with the same number share a token, and so a text.)
pub proof fn lemma_metadata_value_sensitive(a: Artifact, b: Artifact, k: Seq<char>, v: ValueModel)
    requires
        a.wf(),
        b.wf(),
        a.format == b.format,
        a.gguf_version == b.gguf_version,
        a.tensors@ == b.tensors@,
        a.metadata@.contains_key(k),
        b.metadata@ == a.metadata@.insert(k, v),
        encode_value(a.metadata@[k]) != encode_value(v),
    ensures
        artifact_text(a) != artifact_text(b),
{
    a.tensors.lemma_same_view_same_pairs(&b.tensors);
    a.metadata.lemma_pairs_after_set(&b.metadata, k, v);
    let i = a.metadata.index_of(k);
    a.metadata.lemma_entry(i);
    let pa = a.metadata.pairs();
    let pb = b.metadata.pairs();
    let f = |p: (Seq<char>, ValueModel)| metadata_member(p);
    lemma_joined_at(pa, i, f);
    lemma_joined_at(pb, i, f);
    lemma_joined_sides(pa, pb, i, f);
    lemma_text_metadata_parts(a);
    lemma_text_metadata_parts(b);
    assert(text_before_metadata(a) == text_before_metadata(b));
    assert(text_after_metadata(a) == text_after_metadata(b));
    let prior = a.metadata@[k];
    assert(pa[i] == (k, prior));
    assert(pb[i] == (k, v));
    if artifact_text(a) == artifact_text(b) {
        lemma_cancel_nested(
            text_before_metadata(a),
            joined_left(pa, i, f),
            metadata_member(pa[i]),
            metadata_member(pb[i]),
            joined_right(pa, i, f),
            text_after_metadata(a),
        );
        let g = json_string(k) + seq![':'];
        assert(metadata_member(pa[i]) =~= g + json_string(encode_value(prior)) + Seq::<char>::empty());
        assert(metadata_member(pb[i]) =~= g + json_string(encode_value(v)) + Seq::<char>::empty());
        lemma_cancel(g, json_string(encode_value(prior)), json_string(encode_value(v)), Seq::empty());
        lemma_json_string_injective(encode_value(prior), encode_value(v));
    }
}

/// A tensor's text changes when exactly one of its dtype, shape or byte
/// length changes.
proof fn lemma_tensor_text_sensitive(prior: TensorModel, t: TensorModel)
    requires
        t.name == prior.name,
        (t.dtype != prior.dtype && t.shape == prior.shape && t.byte_length == prior.byte_length)
            || (t.dtype == prior.dtype && t.shape != prior.shape && t.byte_length == prior.byte_length)
            || (t.dtype == prior.dtype && t.shape == prior.shape && t.byte_length != prior.byte_length),
    ensures
        tensor_text(prior) != tensor_text(t),
{
    if tensor_text(prior) == tensor_text(t) {
        let s1 = "{\"name\":"@ + json_string(t.name) + ",\"dtype\":"@;
        if t.dtype != prior.dtype {
            let y = ",\"shape\":["@ + dims_text(t.shape) + "],\"byte_length\":"@ + decimal(t.byte_length as nat) + "}"@;
            assert(tensor_text(prior) =~= s1 + json_string(prior.dtype) + y);
            assert(tensor_text(t) =~= s1 + json_string(t.dtype) + y);
            lemma_cancel(s1, json_string(prior.dtype), json_string(t.dtype), y);
            lemma_json_string_injective(prior.dtype, t.dtype);
        } else if t.shape != prior.shape {
            let x = s1 + json_string(t.dtype) + ",\"shape\":["@;
            let y = "],\"byte_length\":"@ + decimal(t.byte_length as nat) + "}"@;
            assert(tensor_text(prior) =~= x + dims_text(prior.shape) + y);
            assert(tensor_text(t) =~= x + dims_text(t.shape) + y);
            lemma_cancel(x, dims_text(prior.shape), dims_text(t.shape), y);
            lemma_dims_text_injective(prior.shape, t.shape);
        } else {
            let x = s1 + json_string(t.dtype) + ",\"shape\":["@ + dims_text(t.shape) + "],\"byte_length\":"@;
            let y = "}"@;
            assert(tensor_text(prior) =~= x + decimal(prior.byte_length as nat) + y);
            assert(tensor_text(t) =~= x + decimal(t.byte_length as nat) + y);
            lemma_cancel(x, decimal(prior.byte_length as nat), decimal(t.byte_length as nat), y);
            lemma_decimal_injective(prior.byte_length as nat, t.byte_length as nat);
        }
    }
}

/// Sensitivity to a tensor field: two well-formed artifacts that differ
/// only in one tensor's dtype, or only in its shape, or only in its byte
/// length, have different canonical texts.
pub proof fn lemma_tensor_field_sensitive(a: Artifact, b: Artifact, k: Seq<char>, t: TensorModel)
    requires
        a.wf(),
        b.wf(),
        a.format == b.format,
        a.gguf_version == b.gguf_version,
        a.metadata@ == b.metadata@,
        a.tensors@.contains_key(k),
        b.tensors@ == a.tensors@.insert(k, t),
        t.name == a.tensors@[k].name,
        ({
            let prior = a.tensors@[k];
            ||| (t.dtype != prior.dtype && t.shape == prior.shape && t.byte_length == prior.byte_length)
            ||| (t.dtype == prior.dtype && t.shape != prior.shape && t.byte_length == prior.byte_length)
            ||| (t.dtype == prior.dtype && t.shape == prior.shape && t.byte_length != prior.byte_length)
        }),
    ensures
        artifact_text(a) != artifact_text(b),
{
    let prior = a.tensors@[k];
    a.metadata.lemma_same_view_same_pairs(&b.metadata);
    a.tensors.lemma_pairs_after_set(&b.tensors, k, t);
    let i = a.tensors.index_of(k);
    a.tensors.lemma_entry(i);
    let pa = a.tensors.pairs();
    let pb = b.tensors.pairs();
    let f = |p: (Seq<char>, TensorModel)| tensor_member(p);
    lemma_joined_at(pa, i, f);
    lemma_joined_at(pb, i, f);
    lemma_joined_sides(pa, pb, i, f);
    lemma_text_tensor_parts(a);
    lemma_text_tensor_parts(b);
    assert(text_before_tensors(a) == text_before_tensors(b));
    assert(pa[i] == (k, prior));
    assert(pb[i] == (k, t));
    lemma_tensor_text_sensitive(prior, t);
    if artifact_text(a) == artifact_text(b) {
        lemma_cancel_nested(
            text_before_tensors(a),
            joined_left(pa, i, f),
            tensor_member(pa[i]),
            tensor_member(pb[i]),
            joined_right(pa, i, f),
            "}}"@,
        );
        let g = json_string(k) + seq![':'];
        assert(tensor_member(pa[i]) =~= g + tensor_text(prior) + Seq::<char>::empty());
        assert(tensor_member(pb[i]) =~= g + tensor_text(t) + Seq::<char>::empty());
        lemma_cancel(g, tensor_text(prior), tensor_text(t), Seq::empty());
    }
}

} // verus!
