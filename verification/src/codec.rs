use vstd::prelude::*;
use vstd::arithmetic::div_mod::{
    lemma_fundamental_div_mod, lemma_fundamental_div_mod_converse,
};
use vstd::assert_seqs_equal;
use crate::ops::{
    Contrast, Crop, Filter, ImageSpec, Resize, ResizeType, SampleFilter, Spec, SpecData,
    Watermark, wf_spec, wf_specs,
};

verus! {

/// Why an input was rejected: a token that is no member of the text
/// alphabet, a byte count that fits no whole number of operations, an
/// operation tag outside the catalog, a parameter that violates the layout
/// or a structural constraint, or picture bytes that are no recognized
/// container.
#[derive(Clone, Copy, Debug, PartialEq, Eq, Structural)]
pub enum DecodeError {
    Alphabet,
    Truncated,
    UnknownTag,
    BadValue,
    Picture,
}

/// The four little-endian bytes of a 32-bit value.
pub open spec fn le32(x: u32) -> Seq<u8> {
    let b0 = (x as int) % 256;
    let r1 = (x as int) / 256;
    let b1 = r1 % 256;
    let r2 = r1 / 256;
    let b2 = r2 % 256;
    let b3 = r2 / 256;
    seq![b0 as u8, b1 as u8, b2 as u8, b3 as u8]
}

/// The 32-bit value four little-endian bytes stand for.
pub open spec fn le32_val(s: Seq<u8>) -> u32
    recommends
        s.len() == 4,
{
    (s[0] + 256 * (s[1] + 256 * (s[2] + 256 * (s[3] as int)))) as u32
}

/// The two's-complement bit pattern of a signed value, as an unsigned one.
pub open spec fn i32_bits(c: i32) -> u32 {
    if c >= 0 {
        c as u32
    } else {
        ((c as int) + 0x1_0000_0000) as u32
    }
}

/// The signed value a two's-complement bit pattern stands for.
pub open spec fn bits_i32(x: u32) -> i32 {
    if x <= 0x7fff_ffffu32 {
        x as i32
    } else {
        ((x as int) - 0x1_0000_0000) as i32
    }
}

/// The wire code of a named filter.
pub open spec fn filter_code(f: Filter) -> u32 {
    match f {
        Filter::Unspecified => 0,
        Filter::Oceanic => 1,
        Filter::Islands => 2,
        Filter::Marine => 3,
    }
}

/// The named filter a wire code stands for.
pub open spec fn filter_of_code(p: u32) -> Filter {
    if p == 1 {
        Filter::Oceanic
    } else if p == 2 {
        Filter::Islands
    } else if p == 3 {
        Filter::Marine
    } else {
        Filter::Unspecified
    }
}

/// The wire code of a sampling kernel.
pub open spec fn sample_code(k: SampleFilter) -> u32 {
    match k {
        SampleFilter::Undefined => 0,
        SampleFilter::Nearest => 1,
        SampleFilter::Triangle => 2,
        SampleFilter::CatmullRom => 3,
        SampleFilter::Gaussian => 4,
        SampleFilter::Lanczos3 => 5,
    }
}

/// The sampling kernel a wire code stands for.
pub open spec fn sample_of_code(p: u32) -> SampleFilter {
    if p == 1 {
        SampleFilter::Nearest
    } else if p == 2 {
        SampleFilter::Triangle
    } else if p == 3 {
        SampleFilter::CatmullRom
    } else if p == 4 {
        SampleFilter::Gaussian
    } else if p == 5 {
        SampleFilter::Lanczos3
    } else {
        SampleFilter::Undefined
    }
}

/// The wire code of a resize algorithm.
pub open spec fn rtype_code(t: ResizeType) -> u32 {
    match t {
        ResizeType::Normal => 0,
        ResizeType::SeamCarve => 1,
    }
}

/// The tag byte of an operation's wire chunk.
pub open spec fn op_tag(s: Spec) -> u8 {
    match s.data {
        None => 0,
        Some(SpecData::Crop(_)) => 1,
        Some(SpecData::Contrast(_)) => 2,
        Some(SpecData::Gray) => 3,
        Some(SpecData::Fliph) => 4,
        Some(SpecData::Flipv) => 5,
        Some(SpecData::Filter(_)) => 6,
        Some(SpecData::Resize(_)) => 7,
        Some(SpecData::Watermark(_)) => 8,
    }
}

/// The four parameter words of an operation's wire chunk; unused words are
/// zero, which keeps the layout canonical.
pub open spec fn op_params(s: Spec) -> (u32, u32, u32, u32) {
    match s.data {
        None => (0u32, 0u32, 0u32, 0u32),
        Some(SpecData::Crop(c)) => (c.x1, c.y1, c.x2, c.y2),
        Some(SpecData::Contrast(c)) => (i32_bits(c.contrast), 0u32, 0u32, 0u32),
        Some(SpecData::Gray) => (0u32, 0u32, 0u32, 0u32),
        Some(SpecData::Fliph) => (0u32, 0u32, 0u32, 0u32),
        Some(SpecData::Flipv) => (0u32, 0u32, 0u32, 0u32),
        Some(SpecData::Filter(f)) => (filter_code(f), 0u32, 0u32, 0u32),
        Some(SpecData::Resize(r)) => (r.width, r.height, rtype_code(r.rtype), sample_code(r.filter)),
        Some(SpecData::Watermark(w)) => (w.x, w.y, 0u32, 0u32),
    }
}

/// The operation a tag and four parameter words stand for. An out-of-catalog
/// tag maps to the empty step; the decoder rejects such a tag before using
/// this.
pub open spec fn op_of_parts(t: u8, p0: u32, p1: u32, p2: u32, p3: u32) -> Spec {
    if t == 1 {
        Spec { data: Some(SpecData::Crop(Crop { x1: p0, y1: p1, x2: p2, y2: p3 })) }
    } else if t == 2 {
        Spec { data: Some(SpecData::Contrast(Contrast { contrast: bits_i32(p0) })) }
    } else if t == 3 {
        Spec { data: Some(SpecData::Gray) }
    } else if t == 4 {
        Spec { data: Some(SpecData::Fliph) }
    } else if t == 5 {
        Spec { data: Some(SpecData::Flipv) }
    } else if t == 6 {
        Spec { data: Some(SpecData::Filter(filter_of_code(p0))) }
    } else if t == 7 {
        Spec {
            data: Some(SpecData::Resize(Resize {
                width: p0,
                height: p1,
                rtype: if p2 == 1 { ResizeType::SeamCarve } else { ResizeType::Normal },
                filter: sample_of_code(p3),
            })),
        }
    } else if t == 8 {
        Spec { data: Some(SpecData::Watermark(Watermark { x: p0, y: p1 })) }
    } else {
        Spec { data: None }
    }
}

/// Whether a tag and parameter words form a chunk the decoder accepts: a
/// known tag, zeros in the unused words, in-catalog codes, and a nonempty
/// resize target.
pub open spec fn valid_parts(t: u8, p0: u32, p1: u32, p2: u32, p3: u32) -> bool {
    if t == 0 || t == 3 || t == 4 || t == 5 {
        p0 == 0 && p1 == 0 && p2 == 0 && p3 == 0
    } else if t == 1 {
        true
    } else if t == 2 {
        p1 == 0 && p2 == 0 && p3 == 0
    } else if t == 6 {
        p0 <= 3 && p1 == 0 && p2 == 0 && p3 == 0
    } else if t == 7 {
        p0 > 0 && p1 > 0 && p2 <= 1 && p3 <= 5
    } else if t == 8 {
        p2 == 0 && p3 == 0
    } else {
        false
    }
}

/// The 17-byte wire chunk of one operation: its tag, then its four parameter
/// words in little-endian order.
pub open spec fn ser_op(s: Spec) -> Seq<u8> {
    seq![op_tag(s)] + le32(op_params(s).0) + le32(op_params(s).1) + le32(op_params(s).2)
        + le32(op_params(s).3)
}

/// The wire form of a whole pipeline: the chunks of its operations, in order.
pub open spec fn ser_ops(ops: Seq<Spec>) -> Seq<u8>
    decreases ops.len(),
{
    if ops.len() == 0 {
        Seq::empty()
    } else {
        ser_op(ops[0]) + ser_ops(ops.drop_first())
    }
}

/// The token a pipeline encodes to.
pub open spec fn token_of(ops: Seq<Spec>) -> Seq<char> {
    b64_of(ser_ops(ops))
}

proof fn lemma_le32_val_le32(x: u32)
    ensures
        le32_val(le32(x)) == x,
        forall|i: int| 0 <= i < 4 ==> 0 <= #[trigger] (le32(x)[i] as int) < 256,
{
    let xi = x as int;
    let r1 = xi / 256;
    let r2 = r1 / 256;
    lemma_fundamental_div_mod(xi, 256);
    lemma_fundamental_div_mod(r1, 256);
    lemma_fundamental_div_mod(r2, 256);
    assert(0 <= xi % 256 < 256) by {
        vstd::arithmetic::div_mod::lemma_mod_bound(xi, 256);
    }
    assert(0 <= r1 % 256 < 256) by {
        vstd::arithmetic::div_mod::lemma_mod_bound(r1, 256);
    }
    assert(0 <= r2 % 256 < 256) by {
        vstd::arithmetic::div_mod::lemma_mod_bound(r2, 256);
    }
    assert(r1 < 0x1000000);
    assert(r2 < 0x10000);
    assert(0 <= r2 / 256 < 256);
}

proof fn lemma_le32_of_val(s: Seq<u8>)
    requires
        s.len() == 4,
    ensures
        le32(le32_val(s)) == s,
{
    let q2 = s[2] + 256 * (s[3] as int);
    let q1 = s[1] + 256 * q2;
    let x = s[0] + 256 * q1;
    assert(0 <= x < 0x1_0000_0000);
    assert(le32_val(s) == x);
    lemma_fundamental_div_mod_converse(x, 256, q1, s[0] as int);
    lemma_fundamental_div_mod_converse(q1, 256, q2, s[1] as int);
    lemma_fundamental_div_mod_converse(q2, 256, s[3] as int, s[2] as int);
    assert_seqs_equal!(le32(le32_val(s)) == s);
}

proof fn lemma_bits_i32_of_bits(c: i32)
    ensures
        bits_i32(i32_bits(c)) == c,
{
}

proof fn lemma_i32_bits_of_i32(x: u32)
    ensures
        i32_bits(bits_i32(x)) == x,
{
}

/// An operation is recovered from its own tag and parameter words, and those
/// words are accepted exactly when the operation is structurally valid.
proof fn lemma_parts_of_op(s: Spec)
    ensures
        op_of_parts(
            op_tag(s),
            op_params(s).0,
            op_params(s).1,
            op_params(s).2,
            op_params(s).3,
        ) == s,
        valid_parts(
            op_tag(s),
            op_params(s).0,
            op_params(s).1,
            op_params(s).2,
            op_params(s).3,
        ) == wf_spec(s),
{
    match s.data {
        None => {},
        Some(SpecData::Crop(_)) => {},
        Some(SpecData::Contrast(c)) => {
            lemma_bits_i32_of_bits(c.contrast);
        },
        Some(SpecData::Gray) => {},
        Some(SpecData::Fliph) => {},
        Some(SpecData::Flipv) => {},
        Some(SpecData::Filter(f)) => {
            match f {
                Filter::Unspecified => {},
                Filter::Oceanic => {},
                Filter::Islands => {},
                Filter::Marine => {},
            }
        },
        Some(SpecData::Resize(r)) => {
            match r.filter {
                SampleFilter::Undefined => {},
                SampleFilter::Nearest => {},
                SampleFilter::Triangle => {},
                SampleFilter::CatmullRom => {},
                SampleFilter::Gaussian => {},
                SampleFilter::Lanczos3 => {},
            }
            match r.rtype {
                ResizeType::Normal => {},
                ResizeType::SeamCarve => {},
            }
        },
        Some(SpecData::Watermark(_)) => {},
    }
}

/// Accepted parts build a structurally valid operation carrying exactly those
/// parts.
proof fn lemma_op_of_parts(t: u8, p0: u32, p1: u32, p2: u32, p3: u32)
    requires
        valid_parts(t, p0, p1, p2, p3),
    ensures
        wf_spec(op_of_parts(t, p0, p1, p2, p3)),
        op_tag(op_of_parts(t, p0, p1, p2, p3)) == t,
        op_params(op_of_parts(t, p0, p1, p2, p3)) == (p0, p1, p2, p3),
{
    if t == 2 {
        lemma_i32_bits_of_i32(p0);
    }
}

/// A chunk's shape: 17 bytes, the tag first, then the four words.
proof fn lemma_ser_op_parts(s: Spec)
    ensures
        ser_op(s).len() == 17,
        ser_op(s)[0] == op_tag(s),
        ser_op(s).subrange(1, 5) == le32(op_params(s).0),
        ser_op(s).subrange(5, 9) == le32(op_params(s).1),
        ser_op(s).subrange(9, 13) == le32(op_params(s).2),
        ser_op(s).subrange(13, 17) == le32(op_params(s).3),
{
    assert_seqs_equal!(ser_op(s).subrange(1, 5) == le32(op_params(s).0));
    assert_seqs_equal!(ser_op(s).subrange(5, 9) == le32(op_params(s).1));
    assert_seqs_equal!(ser_op(s).subrange(9, 13) == le32(op_params(s).2));
    assert_seqs_equal!(ser_op(s).subrange(13, 17) == le32(op_params(s).3));
}

/// A 17-byte window whose words read back as the given parts is exactly the
/// chunk those parts serialize to.
proof fn lemma_chunk_eq(w: Seq<u8>, t: u8, p0: u32, p1: u32, p2: u32, p3: u32)
    requires
        w.len() == 17,
        w[0] == t,
        le32_val(w.subrange(1, 5)) == p0,
        le32_val(w.subrange(5, 9)) == p1,
        le32_val(w.subrange(9, 13)) == p2,
        le32_val(w.subrange(13, 17)) == p3,
    ensures
        w == seq![t] + le32(p0) + le32(p1) + le32(p2) + le32(p3),
{
    lemma_le32_of_val(w.subrange(1, 5));
    lemma_le32_of_val(w.subrange(5, 9));
    lemma_le32_of_val(w.subrange(9, 13));
    lemma_le32_of_val(w.subrange(13, 17));
    assert_seqs_equal!(w == seq![t] + le32(p0) + le32(p1) + le32(p2) + le32(p3));
}

proof fn lemma_ser_op_injective(x: Spec, y: Spec)
    requires
        ser_op(x) == ser_op(y),
    ensures
        x == y,
{
    lemma_ser_op_parts(x);
    lemma_ser_op_parts(y);
    assert(op_tag(x) == op_tag(y));
    lemma_le32_val_le32(op_params(x).0);
    lemma_le32_val_le32(op_params(x).1);
    lemma_le32_val_le32(op_params(x).2);
    lemma_le32_val_le32(op_params(x).3);
    lemma_le32_val_le32(op_params(y).0);
    lemma_le32_val_le32(op_params(y).1);
    lemma_le32_val_le32(op_params(y).2);
    lemma_le32_val_le32(op_params(y).3);
    assert(op_params(x) == op_params(y));
    lemma_parts_of_op(x);
    lemma_parts_of_op(y);
}

proof fn lemma_ser_ops_len(ops: Seq<Spec>)
    ensures
        ser_ops(ops).len() == 17 * ops.len(),
    decreases ops.len(),
{
    if ops.len() == 0 {
    } else {
        lemma_ser_op_parts(ops[0]);
        lemma_ser_ops_len(ops.drop_first());
    }
}

proof fn lemma_ser_ops_push(ops: Seq<Spec>, s: Spec)
    ensures
        ser_ops(ops.push(s)) == ser_ops(ops) + ser_op(s),
    decreases ops.len(),
{
    if ops.len() == 0 {
        assert(ops.push(s)[0] == s);
        assert(ops.push(s).drop_first() =~= Seq::<Spec>::empty());
        assert(ser_ops(Seq::<Spec>::empty()) == Seq::<u8>::empty());
        assert(ser_ops(ops) == Seq::<u8>::empty());
        assert(ser_ops(ops.push(s)) == ser_op(s) + Seq::<u8>::empty());
        assert_seqs_equal!(ser_ops(ops.push(s)) == ser_ops(ops) + ser_op(s));
    } else {
        lemma_ser_ops_push(ops.drop_first(), s);
        assert(ops.push(s)[0] == ops[0]);
        assert(ops.push(s).drop_first() =~= ops.drop_first().push(s));
        assert(ser_ops(ops.push(s)) == ser_op(ops[0]) + ser_ops(ops.drop_first().push(s)));
        assert(ser_ops(ops.push(s)) == ser_op(ops[0]) + (ser_ops(ops.drop_first()) + ser_op(s)));
        assert(ser_ops(ops) == ser_op(ops[0]) + ser_ops(ops.drop_first()));
        assert_seqs_equal!(ser_ops(ops.push(s)) == ser_ops(ops) + ser_op(s));
    }
}

/// The chunk of the `k`-th operation sits at byte offset `17 * k`.
proof fn lemma_ser_ops_index(ops: Seq<Spec>, k: int)
    requires
        0 <= k < ops.len(),
    ensures
        ser_ops(ops).len() == 17 * ops.len(),
        ser_ops(ops).subrange(17 * k, 17 * k + 17) == ser_op(ops[k]),
    decreases k,
{
    lemma_ser_ops_len(ops);
    lemma_ser_op_parts(ops[0]);
    lemma_ser_ops_len(ops.drop_first());
    if k == 0 {
        assert_seqs_equal!(ser_ops(ops).subrange(0, 17) == ser_op(ops[0]));
    } else {
        lemma_ser_ops_index(ops.drop_first(), k - 1);
        assert(ops.drop_first()[k - 1] == ops[k]);
        assert_seqs_equal!(
            ser_ops(ops).subrange(17 * k, 17 * k + 17)
                == ser_ops(ops.drop_first()).subrange(17 * (k - 1), 17 * (k - 1) + 17)
        );
    }
}

/// Serialization is injective: two pipelines with the same wire form are the
/// same pipeline. Together with the codec contracts this is the round-trip
/// law: decoding an encoded pipeline yields that pipeline and no other.
pub proof fn lemma_ser_ops_injective(a: Seq<Spec>, b: Seq<Spec>)
    requires
        ser_ops(a) == ser_ops(b),
    ensures
        a == b,
    decreases a.len(),
{
    lemma_ser_ops_len(a);
    lemma_ser_ops_len(b);
    if a.len() == 0 {
        assert(a =~= b);
    } else {
        lemma_ser_ops_index(a, 0);
        lemma_ser_ops_index(b, 0);
        lemma_ser_op_injective(a[0], b[0]);
        lemma_ser_op_parts(a[0]);
        lemma_ser_op_parts(b[0]);
        assert_seqs_equal!(ser_ops(a.drop_first()) == ser_ops(b.drop_first()), i => {
            assert(ser_ops(a)[i + 17] == ser_ops(a.drop_first())[i]);
            assert(ser_ops(b)[i + 17] == ser_ops(b.drop_first())[i]);
        });
        lemma_ser_ops_injective(a.drop_first(), b.drop_first());
        assert forall|i: int| 0 <= i < a.len() implies a[i] == b[i] by {
            if i > 0 {
                assert(a.drop_first()[i - 1] == a[i]);
                assert(b.drop_first()[i - 1] == b[i]);
            }
        }
        assert(a =~= b);
    }
}

/// A character of the URL-safe base64 alphabet: a letter, a digit, `-` or
/// `_`. Such a character may stand unescaped in one path segment of a
/// locator.
pub open spec fn url_safe_char(c: char) -> bool {
    let u = c as u32;
    (65 <= u && u <= 90) || (97 <= u && u <= 122) || (48 <= u && u <= 57) || u == 45 || u == 95
}

/// What a URL-safe token stands for at the byte level.
pub uninterp spec fn b64_of(b: Seq<u8>) -> Seq<char>;

/// Relies on base64's `URL_SAFE_NO_PAD` engine: the padding-free URL-safe
/// encoding of a byte string is a function of the bytes alone, an empty
/// input gives an empty token, and every output character comes from the
/// URL-safe alphabet, with no `=` padding.
#[verifier::external_body]
fn b64_encode(b: &Vec<u8>) -> (r: String)
    ensures
        r@ == b64_of(b@),
        b@.len() == 0 ==> r@.len() == 0,
        forall|i: int| 0 <= i < r@.len() ==> url_safe_char(#[trigger] r@[i]),
{
    base64::Engine::encode(&base64::engine::general_purpose::URL_SAFE_NO_PAD, b)
}

/// Relies on base64's `URL_SAFE_NO_PAD` engine: with padding refused and
/// trailing bits rejected, decode accepts exactly the strings encode
/// produces, and returns the bytes encode was given.
#[verifier::external_body]
fn b64_decode(s: &str) -> (r: Result<Vec<u8>, DecodeError>)
    ensures
        forall|b: Seq<u8>| s@ == b64_of(b) ==> r is Ok && r->Ok_0@ == b,
        r is Ok ==> s@ == b64_of(r->Ok_0@),
{
    match base64::Engine::decode(&base64::engine::general_purpose::URL_SAFE_NO_PAD, s) {
        Ok(v) => Ok(v),
        Err(_) => Err(DecodeError::Alphabet),
    }
}

fn push_le32(out: &mut Vec<u8>, x: u32)
    ensures
        final(out)@ == old(out)@ + le32(x),
{
    proof {
        lemma_le32_val_le32(x);
    }
    let r1: u32 = x / 256;
    let r2: u32 = r1 / 256;
    out.push((x % 256) as u8);
    out.push((r1 % 256) as u8);
    out.push((r2 % 256) as u8);
    out.push((r2 / 256) as u8);
    proof {
        assert_seqs_equal!(out@ == old(out)@ + le32(x));
    }
}

fn read_le32(b: &Vec<u8>, pos: usize) -> (r: u32)
    requires
        pos + 4 <= b@.len(),
    ensures
        r == le32_val(b@.subrange(pos as int, pos as int + 4)),
{
    let n: usize = b.len();
    let b0: u32 = b[pos] as u32;
    let b1: u32 = b[pos + 1] as u32;
    let b2: u32 = b[pos + 2] as u32;
    let b3: u32 = b[pos + 3] as u32;
    let r: u32 = b0 + 256 * (b1 + 256 * (b2 + 256 * b3));
    proof {
        let w = b@.subrange(pos as int, pos as int + 4);
        assert(w[0] == b@[pos as int] && w[1] == b@[pos as int + 1] && w[2] == b@[pos as int + 2]
            && w[3] == b@[pos as int + 3]);
    }
    r
}

fn i32_to_bits(c: i32) -> (r: u32)
    ensures
        r == i32_bits(c),
{
    if c >= 0 {
        c as u32
    } else {
        ((c as i64) + 0x1_0000_0000i64) as u32
    }
}

fn bits_to_i32(x: u32) -> (r: i32)
    ensures
        r == bits_i32(x),
{
    if x <= 0x7fff_ffffu32 {
        x as i32
    } else {
        ((x as i64) - 0x1_0000_0000i64) as i32
    }
}

fn op_parts_exec(s: &Spec) -> (r: (u8, u32, u32, u32, u32))
    ensures
        r.0 == op_tag(*s),
        (r.1, r.2, r.3, r.4) == op_params(*s),
{
    match &s.data {
        None => (0u8, 0u32, 0u32, 0u32, 0u32),
        Some(SpecData::Crop(c)) => (1u8, c.x1, c.y1, c.x2, c.y2),
        Some(SpecData::Contrast(c)) => (2u8, i32_to_bits(c.contrast), 0u32, 0u32, 0u32),
        Some(SpecData::Gray) => (3u8, 0u32, 0u32, 0u32, 0u32),
        Some(SpecData::Fliph) => (4u8, 0u32, 0u32, 0u32, 0u32),
        Some(SpecData::Flipv) => (5u8, 0u32, 0u32, 0u32, 0u32),
        Some(SpecData::Filter(f)) => {
            let code: u32 = match f {
                Filter::Unspecified => 0,
                Filter::Oceanic => 1,
                Filter::Islands => 2,
                Filter::Marine => 3,
            };
            (6u8, code, 0u32, 0u32, 0u32)
        },
        Some(SpecData::Resize(rz)) => {
            let rt: u32 = match rz.rtype {
                ResizeType::Normal => 0,
                ResizeType::SeamCarve => 1,
            };
            let sf: u32 = match rz.filter {
                SampleFilter::Undefined => 0,
                SampleFilter::Nearest => 1,
                SampleFilter::Triangle => 2,
                SampleFilter::CatmullRom => 3,
                SampleFilter::Gaussian => 4,
                SampleFilter::Lanczos3 => 5,
            };
            (7u8, rz.width, rz.height, rt, sf)
        },
        Some(SpecData::Watermark(w)) => (8u8, w.x, w.y, 0u32, 0u32),
    }
}

/// Serializes a pipeline to its wire form: one 17-byte chunk per operation.
fn encode_ops(specs: &Vec<Spec>) -> (r: Vec<u8>)
    ensures
        r@ == ser_ops(specs@),
{
    let mut out: Vec<u8> = Vec::new();
    let n = specs.len();
    let mut i: usize = 0;
    while i < n
        invariant
            n == specs@.len(),
            0 <= i <= n,
            out@ == ser_ops(specs@.take(i as int)),
        decreases n - i,
    {
        let parts = op_parts_exec(&specs[i]);
        let ghost before = out@;
        out.push(parts.0);
        push_le32(&mut out, parts.1);
        push_le32(&mut out, parts.2);
        push_le32(&mut out, parts.3);
        push_le32(&mut out, parts.4);
        proof {
            assert_seqs_equal!(out@ == before + ser_op(specs@[i as int]));
            lemma_ser_ops_push(specs@.take(i as int), specs@[i as int]);
            assert(specs@.take(i as int).push(specs@[i as int]) =~= specs@.take(i as int + 1));
        }
        i += 1;
    }
    proof {
        assert(specs@.take(n as int) =~= specs@);
    }
    out
}

fn valid_parts_exec(t: u8, p0: u32, p1: u32, p2: u32, p3: u32) -> (r: bool)
    ensures
        r == valid_parts(t, p0, p1, p2, p3),
{
    if t == 0 || t == 3 || t == 4 || t == 5 {
        p0 == 0 && p1 == 0 && p2 == 0 && p3 == 0
    } else if t == 1 {
        true
    } else if t == 2 {
        p1 == 0 && p2 == 0 && p3 == 0
    } else if t == 6 {
        p0 <= 3 && p1 == 0 && p2 == 0 && p3 == 0
    } else if t == 7 {
        p0 > 0 && p1 > 0 && p2 <= 1 && p3 <= 5
    } else if t == 8 {
        p2 == 0 && p3 == 0
    } else {
        false
    }
}

fn op_of_parts_exec(t: u8, p0: u32, p1: u32, p2: u32, p3: u32) -> (r: Spec)
    ensures
        r == op_of_parts(t, p0, p1, p2, p3),
{
    if t == 1 {
        Spec { data: Some(SpecData::Crop(Crop { x1: p0, y1: p1, x2: p2, y2: p3 })) }
    } else if t == 2 {
        Spec { data: Some(SpecData::Contrast(Contrast { contrast: bits_to_i32(p0) })) }
    } else if t == 3 {
        Spec { data: Some(SpecData::Gray) }
    } else if t == 4 {
        Spec { data: Some(SpecData::Fliph) }
    } else if t == 5 {
        Spec { data: Some(SpecData::Flipv) }
    } else if t == 6 {
        let f = if p0 == 1 {
            Filter::Oceanic
        } else if p0 == 2 {
            Filter::Islands
        } else if p0 == 3 {
            Filter::Marine
        } else {
            Filter::Unspecified
        };
        Spec { data: Some(SpecData::Filter(f)) }
    } else if t == 7 {
        let rt = if p2 == 1 { ResizeType::SeamCarve } else { ResizeType::Normal };
        let sf = if p3 == 1 {
            SampleFilter::Nearest
        } else if p3 == 2 {
            SampleFilter::Triangle
        } else if p3 == 3 {
            SampleFilter::CatmullRom
        } else if p3 == 4 {
            SampleFilter::Gaussian
        } else if p3 == 5 {
            SampleFilter::Lanczos3
        } else {
            SampleFilter::Undefined
        };
        Spec { data: Some(SpecData::Resize(Resize { width: p0, height: p1, rtype: rt, filter: sf })) }
    } else if t == 8 {
        Spec { data: Some(SpecData::Watermark(Watermark { x: p0, y: p1 })) }
    } else {
        Spec { data: None }
    }
}

/// Reads the operation whose chunk sits at `pos`. Accepts exactly the chunks
/// `ser_op` produces for structurally valid operations.
fn parse_chunk(b: &Vec<u8>, pos: usize) -> (r: Result<Spec, DecodeError>)
    requires
        pos + 17 <= b@.len(),
    ensures
        r matches Ok(s) ==> wf_spec(s) && b@.subrange(pos as int, pos as int + 17) == ser_op(s),
        forall|s: Spec|
            wf_spec(s) && b@.subrange(pos as int, pos as int + 17) == ser_op(s) ==> r == Result::<
                Spec,
                DecodeError,
            >::Ok(s),
{
    let ghost w = b@.subrange(pos as int, pos as int + 17);
    let n: usize = b.len();
    let t = b[pos];
    let p0 = read_le32(b, pos + 1);
    let p1 = read_le32(b, pos + 5);
    let p2 = read_le32(b, pos + 9);
    let p3 = read_le32(b, pos + 13);
    proof {
        assert(w[0] == t);
        assert_seqs_equal!(b@.subrange(pos as int + 1, pos as int + 5) == w.subrange(1, 5));
        assert_seqs_equal!(b@.subrange(pos as int + 5, pos as int + 9) == w.subrange(5, 9));
        assert_seqs_equal!(b@.subrange(pos as int + 9, pos as int + 13) == w.subrange(9, 13));
        assert_seqs_equal!(b@.subrange(pos as int + 13, pos as int + 17) == w.subrange(13, 17));
        assert forall|s: Spec| w == ser_op(s) implies op_tag(s) == t && op_params(s) == (
            p0,
            p1,
            p2,
            p3,
        ) by {
            lemma_ser_op_parts(s);
            lemma_le32_val_le32(op_params(s).0);
            lemma_le32_val_le32(op_params(s).1);
            lemma_le32_val_le32(op_params(s).2);
            lemma_le32_val_le32(op_params(s).3);
        }
    }
    if t > 8 {
        proof {
            assert forall|s: Spec| wf_spec(s) && w == ser_op(s) implies false by {
                lemma_parts_of_op(s);
            }
        }
        return Err(DecodeError::UnknownTag);
    }
    if !valid_parts_exec(t, p0, p1, p2, p3) {
        proof {
            assert forall|s: Spec| wf_spec(s) && w == ser_op(s) implies false by {
                lemma_parts_of_op(s);
            }
        }
        return Err(DecodeError::BadValue);
    }
    let s = op_of_parts_exec(t, p0, p1, p2, p3);
    proof {
        lemma_op_of_parts(t, p0, p1, p2, p3);
        lemma_chunk_eq(w, t, p0, p1, p2, p3);
        lemma_ser_op_parts(s);
        assert_seqs_equal!(w == ser_op(s));
        assert forall|s2: Spec| wf_spec(s2) && w == ser_op(s2) implies s2 == s by {
            lemma_parts_of_op(s2);
        }
    }
    Ok(s)
}

/// Reads a whole pipeline back from its wire form. Returns the one pipeline
/// the bytes serialize, and an error exactly when the bytes serialize none.
fn parse_ops(b: &Vec<u8>) -> (r: Result<Vec<Spec>, DecodeError>)
    ensures
        r matches Ok(sp) ==> wf_specs(sp@) && b@ == ser_ops(sp@),
        forall|ops: Seq<Spec>|
            wf_specs(ops) && b@ == ser_ops(ops) ==> (r matches Ok(sp) && sp@ == ops),
{
    let n = b.len();
    if n % 17 != 0 {
        proof {
            assert forall|ops: Seq<Spec>| wf_specs(ops) && b@ == ser_ops(ops) implies false by {
                lemma_ser_ops_len(ops);
                lemma_fundamental_div_mod_converse(n as int, 17, ops.len() as int, 0);
            }
        }
        return Err(DecodeError::Truncated);
    }
    let count = n / 17;
    proof {
        lemma_fundamental_div_mod(n as int, 17);
    }
    let mut acc: Vec<Spec> = Vec::new();
    let mut i: usize = 0;
    while i < count
        invariant
            n == b@.len(),
            count == n as int / 17,
            n == 17 * count,
            0 <= i <= count,
            acc@.len() == i,
            wf_specs(acc@),
            ser_ops(acc@) == b@.subrange(0, 17 * i),
            forall|ops: Seq<Spec>|
                wf_specs(ops) && b@ == ser_ops(ops) ==> ops.take(i as int) == acc@,
        decreases count - i,
    {
        let ghost accv = acc@;
        match parse_chunk(b, 17 * i) {
            Ok(s) => {
                acc.push(s);
                proof {
                    lemma_ser_ops_push(accv, s);
                    assert_seqs_equal!(ser_ops(acc@) == b@.subrange(0, 17 * (i + 1)));
                    assert(wf_specs(acc@)) by {
                        assert(forall|j: int|
                            0 <= j < accv.len() ==> acc@[j] == #[trigger] accv[j]);
                        assert(acc@[accv.len() as int] == s);
                    }
                    assert forall|ops: Seq<Spec>|
                        wf_specs(ops) && b@ == ser_ops(ops) implies ops.take(i as int + 1)
                        == acc@ by {
                        lemma_ser_ops_len(ops);
                        assert(17 * ops.len() == 17 * count);
                        assert(ops.len() == count);
                        lemma_ser_ops_index(ops, i as int);
                        assert(wf_spec(ops[i as int]));
                        assert(b@.subrange(17 * i, 17 * i + 17) == ser_op(ops[i as int]));
                        assert(s == ops[i as int]);
                        assert(ops.take(i as int) == accv);
                        assert_seqs_equal!(ops.take(i as int + 1) == acc@);
                    }
                }
                i += 1;
            },
            Err(e) => {
                proof {
                    assert forall|ops: Seq<Spec>|
                        wf_specs(ops) && b@ == ser_ops(ops) implies false by {
                        lemma_ser_ops_len(ops);
                        assert(ops.len() == count);
                        lemma_ser_ops_index(ops, i as int);
                        assert(wf_spec(ops[i as int]));
                    }
                }
                return Err(e);
            },
        }
    }
    proof {
        assert_seqs_equal!(b@.subrange(0, 17 * (count as int)) == b@);
        assert forall|ops: Seq<Spec>| wf_specs(ops) && b@ == ser_ops(ops) implies ops.take(
            count as int,
        ) == ops by {
            lemma_ser_ops_len(ops);
            assert(ops.len() == count);
            assert_seqs_equal!(ops.take(count as int) == ops);
        }
    }
    Ok(acc)
}

impl ImageSpec {
    /// Serializes the pipeline and maps the bytes to the URL-safe,
    /// padding-free token. Equal pipelines give equal tokens, and every
    /// character of a token may stand unescaped in a locator's path segment.
    pub fn encode(&self) -> (r: String)
        ensures
            r@ == token_of(self.specs@),
            forall|i: int| 0 <= i < r@.len() ==> url_safe_char(#[trigger] r@[i]),
    {
        let bytes = encode_ops(&self.specs);
        b64_encode(&bytes)
    }

    /// Inverse of `encode`: returns the one pipeline whose token this is, and
    /// an error exactly when the string is no valid pipeline's token — in
    /// particular on any token whose bytes no structurally valid pipeline
    /// serializes to.
    pub fn decode(s: &str) -> (r: Result<ImageSpec, DecodeError>)
        ensures
            r matches Ok(d) ==> wf_specs(d.specs@) && s@ == token_of(d.specs@),
            forall|ops: Seq<Spec>|
                wf_specs(ops) && s@ == token_of(ops) ==> (r matches Ok(d) && d.specs@ == ops),
            forall|b: Seq<u8>|
                s@ == b64_of(b) && !(exists|ops: Seq<Spec>| wf_specs(ops) && b == ser_ops(ops))
                    ==> r is Err,
    {
        let bytes = match b64_decode(s) {
            Ok(v) => v,
            Err(e) => {
                return Err(e);
            },
        };
        match parse_ops(&bytes) {
            Ok(sp) => {
                proof {
                    assert forall|b: Seq<u8>| s@ == b64_of(b) implies (exists|ops: Seq<Spec>|
                        wf_specs(ops) && b == ser_ops(ops)) by {
                        assert(bytes@ == b);
                        assert(wf_specs(sp@) && b == ser_ops(sp@));
                    }
                }
                Ok(ImageSpec { specs: sp })
            },
            Err(e) => Err(e),
        }
    }
}

} // verus!
