//! The field value universe and the byte encoding of a single value.
//!
//! A record's fields, and therefore its key fields, take values in a small
//! closed universe of shapes.  Each shape has one deterministic, self-
//! delimiting byte encoding; the decoder is schema-directed and is proved to
//! be the encoder's inverse.

use vstd::prelude::*;

use crate::bytes::{
    append_u64, lemma_subrange_within, lemma_take_u64_at, read_u64, take_u64, u64_le_bytes,
};
use crate::errors::DecodeError;
use vstd::slice::slice_subrange;
use vstd::string::{StrSliceExecFns, StringExecFns, StringSliceAdditionalSpecFns};
use vstd::utf8::{
    decode_utf8, encode_utf8, encode_utf8_decode_utf8, encode_utf8_valid_utf8, valid_utf8,
};

verus! {

/// The shape of one field value.
#[derive(Debug, Clone, Copy, PartialEq, Eq, Structural)]
pub enum FieldType {
    /// A single byte.
    Byte,
    /// A 64-bit unsigned integer.
    UInt,
    /// A text string.
    Text,
    /// A list of text strings.
    TextList,
    /// An optional text string.
    OptText,
}

/// One field value.
#[derive(Debug, Clone, PartialEq, Eq)]
pub enum FieldValue {
    Byte(u8),
    UInt(u64),
    Text(String),
    TextList(Vec<String>),
    OptText(Option<String>),
}

/// The mathematical model of a field value: texts become character
/// sequences.
pub enum ValueModel {
    Byte(u8),
    UInt(u64),
    Text(Seq<char>),
    TextList(Seq<Seq<char>>),
    OptText(Option<Seq<char>>),
}

/// The views of a sequence of strings.
pub open spec fn texts_view(l: Seq<String>) -> Seq<Seq<char>> {
    Seq::new(l.len(), |i: int| l[i]@)
}

impl View for FieldValue {
    type V = ValueModel;

    open spec fn view(&self) -> ValueModel {
        match self {
            FieldValue::Byte(b) => ValueModel::Byte(*b),
            FieldValue::UInt(x) => ValueModel::UInt(*x),
            FieldValue::Text(s) => ValueModel::Text(s@),
            FieldValue::TextList(l) => ValueModel::TextList(texts_view(l@)),
            FieldValue::OptText(o) => ValueModel::OptText(
                match o {
                    Some(s) => Some(s@),
                    None => None,
                },
            ),
        }
    }
}

/// The shape of a model value.
pub open spec fn type_of(v: ValueModel) -> FieldType {
    match v {
        ValueModel::Byte(_) => FieldType::Byte,
        ValueModel::UInt(_) => FieldType::UInt,
        ValueModel::Text(_) => FieldType::Text,
        ValueModel::TextList(_) => FieldType::TextList,
        ValueModel::OptText(_) => FieldType::OptText,
    }
}

/// Whether an executable value has the given shape.
pub fn value_has_type(v: &FieldValue, t: &FieldType) -> (r: bool)
    ensures
        r == (type_of(v@) == *t),
{
    match (v, t) {
        (FieldValue::Byte(_), FieldType::Byte) => true,
        (FieldValue::UInt(_), FieldType::UInt) => true,
        (FieldValue::Text(_), FieldType::Text) => true,
        (FieldValue::TextList(_), FieldType::TextList) => true,
        (FieldValue::OptText(_), FieldType::OptText) => true,
        _ => false,
    }
}

/// A text is encodable when the length of its UTF-8 form fits in the
/// eight-byte length prefix; every text held by a real `String` is.
pub open spec fn text_wf(t: Seq<char>) -> bool {
    encode_utf8(t).len() <= u64::MAX
}

/// A model value is encodable: every text in it fits its length prefix.
pub open spec fn model_wf(v: ValueModel) -> bool {
    match v {
        ValueModel::Byte(_) => true,
        ValueModel::UInt(_) => true,
        ValueModel::Text(t) => text_wf(t),
        ValueModel::TextList(l) => l.len() <= u64::MAX && (forall|i: int|
            0 <= i < l.len() ==> text_wf(#[trigger] l[i])),
        ValueModel::OptText(o) => (o is Some ==> text_wf(o->0)),
    }
}

/// The byte encoding of one text: an eight-byte length prefix, then the
/// UTF-8 bytes.
pub open spec fn text_bytes(t: Seq<char>) -> Seq<u8> {
    u64_le_bytes(encode_utf8(t).len() as u64) + encode_utf8(t)
}

/// The concatenated encodings of a list of texts.
pub open spec fn texts_bytes(l: Seq<Seq<char>>) -> Seq<u8>
    decreases l.len(),
{
    if l.len() == 0 {
        Seq::empty()
    } else {
        text_bytes(l[0]) + texts_bytes(l.drop_first())
    }
}

/// The byte encoding of one value.  An option carries a one-byte presence
/// tag; a list carries an eight-byte count.
pub open spec fn value_bytes(v: ValueModel) -> Seq<u8> {
    match v {
        ValueModel::Byte(b) => seq![b],
        ValueModel::UInt(x) => u64_le_bytes(x),
        ValueModel::Text(t) => text_bytes(t),
        ValueModel::TextList(l) => u64_le_bytes(l.len() as u64) + texts_bytes(l),
        ValueModel::OptText(o) => match o {
            None => seq![0u8],
            Some(t) => seq![1u8] + text_bytes(t),
        },
    }
}

/// Parse one text at `pos`: its character sequence and the position after
/// it, or the decode failure.
pub open spec fn take_text(bytes: Seq<u8>, pos: int) -> Result<(Seq<char>, int), DecodeError> {
    match take_u64(bytes, pos) {
        None => Err(DecodeError::Malformed),
        Some((n, p)) => if p + n <= bytes.len() {
            if valid_utf8(bytes.subrange(p, p + n)) {
                Ok((decode_utf8(bytes.subrange(p, p + n)), p + n))
            } else {
                Err(DecodeError::Malformed)
            }
        } else {
            Err(DecodeError::Malformed)
        },
    }
}

/// Parse `n` texts in sequence.
pub open spec fn take_texts(n: nat, bytes: Seq<u8>, pos: int) -> Result<
    (Seq<Seq<char>>, int),
    DecodeError,
>
    decreases n,
{
    if n == 0 {
        Ok((Seq::empty(), pos))
    } else {
        match take_text(bytes, pos) {
            Err(e) => Err(e),
            Ok((t, p)) => match take_texts((n - 1) as nat, bytes, p) {
                Err(e) => Err(e),
                Ok((ts, p2)) => Ok((seq![t] + ts, p2)),
            },
        }
    }
}

/// Parse one value of shape `t` at `pos`.
pub open spec fn take_value(t: FieldType, bytes: Seq<u8>, pos: int) -> Result<
    (ValueModel, int),
    DecodeError,
> {
    match t {
        FieldType::Byte => if 0 <= pos < bytes.len() {
            Ok((ValueModel::Byte(bytes[pos]), pos + 1))
        } else {
            Err(DecodeError::Malformed)
        },
        FieldType::UInt => match take_u64(bytes, pos) {
            Some((x, p)) => Ok((ValueModel::UInt(x), p)),
            None => Err(DecodeError::Malformed),
        },
        FieldType::Text => match take_text(bytes, pos) {
            Ok((t, p)) => Ok((ValueModel::Text(t), p)),
            Err(e) => Err(e),
        },
        FieldType::TextList => match take_u64(bytes, pos) {
            None => Err(DecodeError::Malformed),
            Some((n, p)) => match take_texts(n as nat, bytes, p) {
                Ok((l, p2)) => Ok((ValueModel::TextList(l), p2)),
                Err(e) => Err(e),
            },
        },
        FieldType::OptText => if 0 <= pos < bytes.len() {
            if bytes[pos] == 0 {
                Ok((ValueModel::OptText(None), pos + 1))
            } else if bytes[pos] == 1 {
                match take_text(bytes, pos + 1) {
                    Ok((t, p)) => Ok((ValueModel::OptText(Some(t)), p)),
                    Err(e) => Err(e),
                }
            } else {
                Err(DecodeError::Malformed)
            }
        } else {
            Err(DecodeError::Malformed)
        },
    }
}

/// Append a byte slice.
pub fn append_bytes(out: &mut Vec<u8>, bs: &[u8])
    ensures
        final(out)@ == old(out)@ + bs@,
{
    let n = bs.len();
    let ghost base = out@;
    let mut i: usize = 0;
    while i < n
        invariant
            i <= n,
            n == bs@.len(),
            out@ == base + bs@.take(i as int),
        decreases n - i,
    {
        out.push(bs[i]);
        proof {
            assert(out@ =~= base + bs@.take(i as int + 1));
        }
        i = i + 1;
    }
    proof {
        assert(bs@.take(n as int) =~= bs@);
    }
}

/// Append the encoding of one text: length prefix, then UTF-8 bytes.
pub fn append_text(out: &mut Vec<u8>, s: &String)
    ensures
        final(out)@ == old(out)@ + text_bytes(s@),
        text_wf(s@),
{
    let bs = s.as_str().as_bytes_vec();
    append_u64(out, bs.len() as u64);
    append_bytes(out, bs.as_slice());
    proof {
        assert(out@ =~= old(out)@ + text_bytes(s@));
    }
}

/// A list of texts encodes to the concatenation of the parts' encodings.
pub proof fn lemma_texts_bytes_concat(a: Seq<Seq<char>>, b: Seq<Seq<char>>)
    ensures
        texts_bytes(a + b) == texts_bytes(a) + texts_bytes(b),
    decreases a.len(),
{
    if a.len() == 0 {
        assert(a + b =~= b);
        assert(texts_bytes(a) + texts_bytes(b) =~= texts_bytes(b));
    } else {
        assert((a + b).drop_first() =~= a.drop_first() + b);
        lemma_texts_bytes_concat(a.drop_first(), b);
        assert(text_bytes(a[0]) + (texts_bytes(a.drop_first()) + texts_bytes(b)) =~= (text_bytes(
            a[0],
        ) + texts_bytes(a.drop_first())) + texts_bytes(b));
    }
}

/// The encoding of a one-text list is that text's encoding.
pub proof fn lemma_texts_bytes_one(t: Seq<char>)
    ensures
        texts_bytes(seq![t]) == text_bytes(t),
{
    assert(seq![t].drop_first() =~= Seq::<Seq<char>>::empty());
    assert(text_bytes(t) + texts_bytes(Seq::<Seq<char>>::empty()) =~= text_bytes(t));
}

/// Append the encoding of one value.
pub fn append_value(out: &mut Vec<u8>, v: &FieldValue)
    ensures
        final(out)@ == old(out)@ + value_bytes(v@),
        model_wf(v@),
{
    match v {
        FieldValue::Byte(b) => {
            out.push(*b);
            proof {
                assert(out@ =~= old(out)@ + value_bytes(v@));
            }
        },
        FieldValue::UInt(x) => {
            append_u64(out, *x);
        },
        FieldValue::Text(s) => {
            append_text(out, s);
        },
        FieldValue::TextList(l) => {
            let n = l.len();
            append_u64(out, n as u64);
            let ghost base = out@;
            let mut i: usize = 0;
            while i < n
                invariant
                    i <= n,
                    n == l@.len(),
                    out@ == base + texts_bytes(texts_view(l@).take(i as int)),
                    forall|j: int| 0 <= j < i ==> text_wf(#[trigger] texts_view(l@)[j]),
                decreases n - i,
            {
                append_text(out, &l[i]);
                proof {
                    let tv = texts_view(l@);
                    assert(tv.take(i as int + 1) =~= tv.take(i as int) + seq![tv[i as int]]);
                    lemma_texts_bytes_concat(tv.take(i as int), seq![tv[i as int]]);
                    lemma_texts_bytes_one(tv[i as int]);
                    assert(out@ =~= base + texts_bytes(tv.take(i as int + 1)));
                }
                i = i + 1;
            }
            proof {
                assert(texts_view(l@).take(n as int) =~= texts_view(l@));
                assert(out@ =~= old(out)@ + value_bytes(v@));
            }
        },
        FieldValue::OptText(o) => match o {
            None => {
                out.push(0u8);
                proof {
                    assert(out@ =~= old(out)@ + value_bytes(v@));
                }
            },
            Some(s) => {
                out.push(1u8);
                append_text(out, s);
                proof {
                    assert(out@ =~= old(out)@ + value_bytes(v@));
                }
            },
        },
    }
}

/// Copy a run of texts.
pub fn clone_texts(l: &Vec<String>) -> (r: Vec<String>)
    ensures
        texts_view(r@) == texts_view(l@),
{
    let n = l.len();
    let mut r: Vec<String> = Vec::new();
    let mut i: usize = 0;
    while i < n
        invariant
            i <= n,
            n == l@.len(),
            r@.len() == i,
            forall|j: int| 0 <= j < i ==> r@[j]@ == l@[j]@,
        decreases n - i,
    {
        r.push(l[i].clone());
        i = i + 1;
    }
    proof {
        assert(texts_view(r@) =~= texts_view(l@));
    }
    r
}

/// Copy one value.
pub fn clone_value(v: &FieldValue) -> (r: FieldValue)
    ensures
        r@ == v@,
{
    match v {
        FieldValue::Byte(b) => FieldValue::Byte(*b),
        FieldValue::UInt(x) => FieldValue::UInt(*x),
        FieldValue::Text(s) => FieldValue::Text(s.clone()),
        FieldValue::TextList(l) => FieldValue::TextList(clone_texts(l)),
        FieldValue::OptText(o) => match o {
            Some(s) => FieldValue::OptText(Some(s.clone())),
            None => FieldValue::OptText(None),
        },
    }
}

/// Relies on std's `str::from_utf8`: it returns a string slice exactly when
/// the bytes are valid UTF-8, and that slice's UTF-8 bytes are the input
/// bytes (vstd's `from_utf8_unchecked` specification states the same
/// byte-to-view relation).
#[verifier::external_body]
fn utf8_to_str(v: &[u8]) -> (r: Option<&str>)
    ensures
        match r {
            Some(s) => valid_utf8(v@) && s.spec_bytes() == v@,
            None => !valid_utf8(v@),
        },
{
    core::str::from_utf8(v).ok()
}

/// Parse one text at `pos` as `take_text` describes.
pub fn read_text(data: &Vec<u8>, pos: usize) -> (r: Result<(String, usize), DecodeError>)
    requires
        pos <= data@.len(),
    ensures
        match r {
            Ok(sp) => take_text(data@, pos as int) == Ok::<(Seq<char>, int), DecodeError>(
                (sp.0@, sp.1 as int),
            ) && sp.1 <= data@.len(),
            Err(e) => take_text(data@, pos as int) == Err::<(Seq<char>, int), DecodeError>(e),
        },
{
    match read_u64(data, pos) {
        None => Err(DecodeError::Malformed),
        Some(np) => {
            let n = np.0;
            let p = np.1;
            let rem = data.len() - p;
            if n <= rem as u64 {
                let len = n as usize;
                let chunk = slice_subrange(data.as_slice(), p, p + len);
                match utf8_to_str(chunk) {
                    Some(s) => {
                        let owned = String::from_str(s);
                        proof {
                            encode_utf8_decode_utf8(owned@);
                        }
                        Ok((owned, p + len))
                    },
                    None => Err(DecodeError::Malformed),
                }
            } else {
                Err(DecodeError::Malformed)
            }
        },
    }
}

/// Splitting a run of texts parses as the two runs in sequence.
pub proof fn lemma_take_texts_compose(a: nat, b: nat, bytes: Seq<u8>, pos: int)
    ensures
        take_texts(a + b, bytes, pos) == (match take_texts(a, bytes, pos) {
            Err(e) => Err::<(Seq<Seq<char>>, int), DecodeError>(e),
            Ok((ts, p)) => match take_texts(b, bytes, p) {
                Err(e) => Err(e),
                Ok((ts2, p2)) => Ok((ts + ts2, p2)),
            },
        }),
    decreases a,
{
    if a == 0 {
        match take_texts(b, bytes, pos) {
            Err(e) => {
            },
            Ok((ts2, p2)) => {
                assert(Seq::<Seq<char>>::empty() + ts2 =~= ts2);
            },
        }
    } else {
        match take_text(bytes, pos) {
            Err(e) => {
            },
            Ok((t, p)) => {
                lemma_take_texts_compose((a - 1) as nat, b, bytes, p);
                match take_texts((a - 1) as nat, bytes, p) {
                    Err(e) => {
                    },
                    Ok((ts1, p1)) => {
                        match take_texts(b, bytes, p1) {
                            Err(e) => {
                            },
                            Ok((ts2, p2)) => {
                                assert(seq![t] + (ts1 + ts2) =~= (seq![t] + ts1) + ts2);
                            },
                        }
                    },
                }
            },
        }
    }
}

/// Parse `n` texts at `pos` as `take_texts` describes.
pub fn read_texts(n: u64, data: &Vec<u8>, pos: usize) -> (r: Result<
    (Vec<String>, usize),
    DecodeError,
>)
    requires
        pos <= data@.len(),
    ensures
        match r {
            Ok(lp) => take_texts(n as nat, data@, pos as int) == Ok::<
                (Seq<Seq<char>>, int),
                DecodeError,
            >((texts_view(lp.0@), lp.1 as int)) && lp.1 <= data@.len(),
            Err(e) => take_texts(n as nat, data@, pos as int) == Err::<
                (Seq<Seq<char>>, int),
                DecodeError,
            >(e),
        },
{
    let mut acc: Vec<String> = Vec::new();
    let mut cur: usize = pos;
    let mut j: u64 = 0;
    proof {
        assert(texts_view(acc@) =~= Seq::<Seq<char>>::empty());
    }
    while j < n
        invariant
            j <= n,
            pos <= data@.len(),
            cur <= data@.len(),
            take_texts(j as nat, data@, pos as int) == Ok::<(Seq<Seq<char>>, int), DecodeError>(
                (texts_view(acc@), cur as int),
            ),
        decreases n - j,
    {
        match read_text(data, cur) {
            Err(e) => {
                proof {
                    lemma_take_texts_compose(j as nat, (n - j) as nat, data@, pos as int);
                    assert(take_texts((n - j) as nat, data@, cur as int) == Err::<
                        (Seq<Seq<char>>, int),
                        DecodeError,
                    >(e));
                    assert(j as nat + (n - j) as nat == n as nat);
                }
                return Err(e);
            },
            Ok(sp) => {
                proof {
                    lemma_take_texts_compose(j as nat, 1, data@, pos as int);
                    assert(take_texts(0, data@, sp.1 as int) == Ok::<
                        (Seq<Seq<char>>, int),
                        DecodeError,
                    >((Seq::empty(), sp.1 as int)));
                    assert(seq![sp.0@] + Seq::<Seq<char>>::empty() =~= seq![sp.0@]);
                    assert(take_texts(1, data@, cur as int) == Ok::<
                        (Seq<Seq<char>>, int),
                        DecodeError,
                    >((seq![sp.0@], sp.1 as int)));
                    assert(texts_view(acc@.push(sp.0)) =~= texts_view(acc@) + seq![sp.0@]);
                    assert(j as nat + 1 == (j + 1) as nat);
                }
                acc.push(sp.0);
                cur = sp.1;
                j = j + 1;
            },
        }
    }
    Ok((acc, cur))
}

/// Parsing a text where its encoding sits yields that text back.
pub proof fn lemma_take_text_exact(t: Seq<char>, bytes: Seq<u8>, pos: int)
    requires
        0 <= pos,
        text_wf(t),
        pos + text_bytes(t).len() <= bytes.len(),
        bytes.subrange(pos, pos + text_bytes(t).len()) == text_bytes(t),
    ensures
        take_text(bytes, pos) == Ok::<(Seq<char>, int), DecodeError>(
            (t, pos + text_bytes(t).len()),
        ),
{
    let tb = encode_utf8(t);
    let n = tb.len() as u64;
    let whole = text_bytes(t);
    lemma_subrange_within(bytes, pos, whole, 0, 8);
    assert(whole.subrange(0, 8) =~= u64_le_bytes(n));
    assert(bytes.subrange(pos, pos + 8) == u64_le_bytes(n));
    lemma_take_u64_at(n, bytes, pos);
    lemma_subrange_within(bytes, pos, whole, 8, whole.len() as int);
    assert(whole.subrange(8, whole.len() as int) =~= tb);
    assert(bytes.subrange(pos + 8, pos + 8 + n) == tb);
    encode_utf8_valid_utf8(t);
    encode_utf8_decode_utf8(t);
}

/// Parsing a run of texts where their encodings sit yields the texts back.
pub proof fn lemma_take_texts_exact(l: Seq<Seq<char>>, bytes: Seq<u8>, pos: int)
    requires
        0 <= pos,
        forall|i: int| 0 <= i < l.len() ==> text_wf(#[trigger] l[i]),
        pos + texts_bytes(l).len() <= bytes.len(),
        bytes.subrange(pos, pos + texts_bytes(l).len()) == texts_bytes(l),
    ensures
        take_texts(l.len(), bytes, pos) == Ok::<(Seq<Seq<char>>, int), DecodeError>(
            (l, pos + texts_bytes(l).len()),
        ),
    decreases l.len(),
{
    if l.len() == 0 {
        assert(l =~= Seq::<Seq<char>>::empty());
    } else {
        let first = text_bytes(l[0]);
        let rest = texts_bytes(l.drop_first());
        let len0 = first.len() as int;
        let whole = texts_bytes(l);
        lemma_subrange_within(bytes, pos, whole, 0, len0);
        assert(whole.subrange(0, len0) =~= first);
        assert(bytes.subrange(pos, pos + len0) == first);
        lemma_take_text_exact(l[0], bytes, pos);
        lemma_subrange_within(bytes, pos, whole, len0, whole.len() as int);
        assert(whole.subrange(len0, whole.len() as int) =~= rest);
        assert(bytes.subrange(pos + len0, pos + len0 + rest.len()) == rest);
        lemma_take_texts_exact(l.drop_first(), bytes, pos + len0);
        assert(seq![l[0]] + l.drop_first() =~= l);
    }
}

/// Parsing a value of the right shape where its encoding sits yields that
/// value back.
#[verifier::rlimit(50)]
pub proof fn lemma_take_value_exact(v: ValueModel, bytes: Seq<u8>, pos: int)
    requires
        0 <= pos,
        model_wf(v),
        pos + value_bytes(v).len() <= bytes.len(),
        bytes.subrange(pos, pos + value_bytes(v).len()) == value_bytes(v),
    ensures
        take_value(type_of(v), bytes, pos) == Ok::<(ValueModel, int), DecodeError>(
            (v, pos + value_bytes(v).len()),
        ),
{
    match v {
        ValueModel::Byte(b) => {
            assert(bytes[pos] == value_bytes(v)[0]);
        },
        ValueModel::UInt(x) => {
            assert(bytes.subrange(pos, pos + 8) =~= u64_le_bytes(x));
            lemma_take_u64_at(x, bytes, pos);
        },
        ValueModel::Text(t) => {
            lemma_take_text_exact(t, bytes, pos);
        },
        ValueModel::TextList(l) => {
            let n = l.len() as u64;
            let body = texts_bytes(l);
            let whole = value_bytes(v);
            lemma_subrange_within(bytes, pos, whole, 0, 8);
            assert(whole.subrange(0, 8) =~= u64_le_bytes(n));
            assert(bytes.subrange(pos, pos + 8) == u64_le_bytes(n));
            lemma_take_u64_at(n, bytes, pos);
            lemma_subrange_within(bytes, pos, whole, 8, whole.len() as int);
            assert(whole.subrange(8, whole.len() as int) =~= body);
            assert(bytes.subrange(pos + 8, pos + 8 + body.len()) == body);
            lemma_take_texts_exact(l, bytes, pos + 8);
        },
        ValueModel::OptText(o) => match o {
            None => {
                assert(bytes[pos] == value_bytes(v)[0]);
            },
            Some(t) => {
                assert(bytes[pos] == value_bytes(v)[0]);
                let tb = text_bytes(t);
                let whole = value_bytes(v);
                lemma_subrange_within(bytes, pos, whole, 1, whole.len() as int);
                assert(whole.subrange(1, whole.len() as int) =~= tb);
                assert(bytes.subrange(pos + 1, pos + 1 + tb.len()) == tb);
                lemma_take_text_exact(t, bytes, pos + 1);
            },
        },
    }
}

/// Parse one value of shape `t` at `pos` as `take_value` describes.
pub fn read_value(t: &FieldType, data: &Vec<u8>, pos: usize) -> (r: Result<
    (FieldValue, usize),
    DecodeError,
>)
    requires
        pos <= data@.len(),
    ensures
        match r {
            Ok(vp) => take_value(*t, data@, pos as int) == Ok::<(ValueModel, int), DecodeError>(
                (vp.0@, vp.1 as int),
            ) && vp.1 <= data@.len(),
            Err(e) => take_value(*t, data@, pos as int) == Err::<(ValueModel, int), DecodeError>(e),
        },
{
    match t {
        FieldType::Byte => {
            if pos < data.len() {
                Ok((FieldValue::Byte(data[pos]), pos + 1))
            } else {
                Err(DecodeError::Malformed)
            }
        },
        FieldType::UInt => match read_u64(data, pos) {
            Some(xp) => Ok((FieldValue::UInt(xp.0), xp.1)),
            None => Err(DecodeError::Malformed),
        },
        FieldType::Text => match read_text(data, pos) {
            Ok(sp) => Ok((FieldValue::Text(sp.0), sp.1)),
            Err(e) => Err(e),
        },
        FieldType::TextList => match read_u64(data, pos) {
            None => Err(DecodeError::Malformed),
            Some(np) => match read_texts(np.0, data, np.1) {
                Ok(lp) => Ok((FieldValue::TextList(lp.0), lp.1)),
                Err(e) => Err(e),
            },
        },
        FieldType::OptText => {
            if pos < data.len() {
                let tag = data[pos];
                if tag == 0 {
                    Ok((FieldValue::OptText(None), pos + 1))
                } else if tag == 1 {
                    match read_text(data, pos + 1) {
                        Ok(sp) => Ok((FieldValue::OptText(Some(sp.0)), sp.1)),
                        Err(e) => Err(e),
                    }
                } else {
                    Err(DecodeError::Malformed)
                }
            } else {
                Err(DecodeError::Malformed)
            }
        },
    }
}

} // verus!
