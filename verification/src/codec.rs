//! The tuple codec: deterministic byte encoding of an ordered run of field
//! values, prefixed with a shape descriptor.
//!
//! The descriptor (a count and one shape tag per field) lets the decoder
//! tell bytes produced for a different record shape apart from corruption:
//! a shape that differs from the expected one surfaces as a schema mismatch
//! rather than as a wrong-but-valid tuple.

use vstd::prelude::*;

use crate::bytes::{
    append_u64, lemma_subrange_within, lemma_take_u64_at, read_u64, take_u64, u64_le_bytes,
};
use crate::errors::DecodeError;
use crate::value::{
    append_value, lemma_take_value_exact, model_wf, read_value, take_value, type_of, value_bytes,
    value_has_type, FieldType, FieldValue, ValueModel,
};

verus! {

/// The descriptor tag of one shape.
pub open spec fn tag_of(t: FieldType) -> u8 {
    match t {
        FieldType::Byte => 0u8,
        FieldType::UInt => 1u8,
        FieldType::Text => 2u8,
        FieldType::TextList => 3u8,
        FieldType::OptText => 4u8,
    }
}

/// The descriptor tag of one shape, executably.
pub fn tag_byte(t: &FieldType) -> (r: u8)
    ensures
        r == tag_of(*t),
{
    match t {
        FieldType::Byte => 0u8,
        FieldType::UInt => 1u8,
        FieldType::Text => 2u8,
        FieldType::TextList => 3u8,
        FieldType::OptText => 4u8,
    }
}

/// Distinct shapes carry distinct descriptor tags.
pub proof fn lemma_tag_of_injective(t1: FieldType, t2: FieldType)
    requires
        tag_of(t1) == tag_of(t2),
    ensures
        t1 == t2,
{
}

/// The shapes of a run of model values.
pub open spec fn types_of(vs: Seq<ValueModel>) -> Seq<FieldType> {
    Seq::new(vs.len(), |i: int| type_of(vs[i]))
}

/// The views of a run of executable values.
pub open spec fn views_of(vs: Seq<FieldValue>) -> Seq<ValueModel> {
    Seq::new(vs.len(), |i: int| vs[i]@)
}

/// A run of model values is encodable: its count fits the descriptor and
/// every value is encodable.
pub open spec fn models_wf(vs: Seq<ValueModel>) -> bool {
    vs.len() <= u64::MAX && (forall|i: int| 0 <= i < vs.len() ==> model_wf(#[trigger] vs[i]))
}

/// The descriptor of a run of shapes: the count, then one tag per shape.
pub open spec fn descriptor_bytes(ts: Seq<FieldType>) -> Seq<u8> {
    u64_le_bytes(ts.len() as u64) + Seq::new(ts.len(), |i: int| tag_of(ts[i]))
}

/// The concatenated encodings of a run of values.
pub open spec fn fields_bytes(vs: Seq<ValueModel>) -> Seq<u8>
    decreases vs.len(),
{
    if vs.len() == 0 {
        Seq::empty()
    } else {
        value_bytes(vs[0]) + fields_bytes(vs.drop_first())
    }
}

/// The full encoding of a run of values: descriptor, then payloads.
pub open spec fn encoding_bytes(vs: Seq<ValueModel>) -> Seq<u8> {
    descriptor_bytes(types_of(vs)) + fields_bytes(vs)
}

/// The dedicated encoding of a single value, with no tuple wrapping beyond
/// the one-shape descriptor.
pub open spec fn single_encoding_bytes(v: ValueModel) -> Seq<u8> {
    u64_le_bytes(1) + seq![tag_of(type_of(v))] + value_bytes(v)
}

/// Parse a run of values of the given shapes in sequence.
pub open spec fn take_values(ts: Seq<FieldType>, bytes: Seq<u8>, pos: int) -> Result<
    (Seq<ValueModel>, int),
    DecodeError,
>
    decreases ts.len(),
{
    if ts.len() == 0 {
        Ok((Seq::empty(), pos))
    } else {
        match take_value(ts[0], bytes, pos) {
            Err(e) => Err(e),
            Ok((v, p)) => match take_values(ts.drop_first(), bytes, p) {
                Err(e) => Err(e),
                Ok((vs, p2)) => Ok((seq![v] + vs, p2)),
            },
        }
    }
}

/// What decoding a whole buffer against an expected run of shapes yields:
/// the values, or the first failure.  A count or tag that differs from the
/// expected shapes is a schema mismatch; truncation, trailing bytes and
/// invalid structure are malformed input.
pub open spec fn spec_decode(schema: Seq<FieldType>, bytes: Seq<u8>) -> Result<
    Seq<ValueModel>,
    DecodeError,
> {
    match take_u64(bytes, 0) {
        None => Err(DecodeError::Malformed),
        Some((n, p)) => if n != schema.len() {
            Err(DecodeError::SchemaMismatch)
        } else if bytes.len() < p + n {
            Err(DecodeError::Malformed)
        } else if !(forall|i: int| 0 <= i < schema.len() ==> bytes[p + i] == tag_of(schema[i])) {
            Err(DecodeError::SchemaMismatch)
        } else {
            match take_values(schema, bytes, p + n) {
                Err(e) => Err(e),
                Ok((vs, p2)) => if p2 == bytes.len() {
                    Ok(vs)
                } else {
                    Err(DecodeError::Malformed)
                },
            }
        },
    }
}

/// A run of values encodes to the concatenation of the parts' encodings.
pub proof fn lemma_fields_bytes_concat(a: Seq<ValueModel>, b: Seq<ValueModel>)
    ensures
        fields_bytes(a + b) == fields_bytes(a) + fields_bytes(b),
    decreases a.len(),
{
    if a.len() == 0 {
        assert(a + b =~= b);
        assert(fields_bytes(a) + fields_bytes(b) =~= fields_bytes(b));
    } else {
        assert((a + b).drop_first() =~= a.drop_first() + b);
        lemma_fields_bytes_concat(a.drop_first(), b);
        assert(value_bytes(a[0]) + (fields_bytes(a.drop_first()) + fields_bytes(b)) =~= (
        value_bytes(a[0]) + fields_bytes(a.drop_first())) + fields_bytes(b));
    }
}

/// The encoding of a one-value run is that value's encoding.
pub proof fn lemma_fields_bytes_one(v: ValueModel)
    ensures
        fields_bytes(seq![v]) == value_bytes(v),
{
    assert(seq![v].drop_first() =~= Seq::<ValueModel>::empty());
    assert(value_bytes(v) + fields_bytes(Seq::<ValueModel>::empty()) =~= value_bytes(v));
}

/// Splitting a run of shapes parses as the two runs in sequence.
pub proof fn lemma_take_values_compose(a: Seq<FieldType>, b: Seq<FieldType>, bytes: Seq<u8>, pos: int)
    ensures
        take_values(a + b, bytes, pos) == (match take_values(a, bytes, pos) {
            Err(e) => Err::<(Seq<ValueModel>, int), DecodeError>(e),
            Ok((vs, p)) => match take_values(b, bytes, p) {
                Err(e) => Err(e),
                Ok((vs2, p2)) => Ok((vs + vs2, p2)),
            },
        }),
    decreases a.len(),
{
    if a.len() == 0 {
        assert(a + b =~= b);
        match take_values(b, bytes, pos) {
            Err(e) => {
            },
            Ok((vs2, p2)) => {
                assert(Seq::<ValueModel>::empty() + vs2 =~= vs2);
            },
        }
    } else {
        assert((a + b).drop_first() =~= a.drop_first() + b);
        match take_value(a[0], bytes, pos) {
            Err(e) => {
            },
            Ok((v, p)) => {
                lemma_take_values_compose(a.drop_first(), b, bytes, p);
                match take_values(a.drop_first(), bytes, p) {
                    Err(e) => {
                    },
                    Ok((vs1, p1)) => {
                        match take_values(b, bytes, p1) {
                            Err(e) => {
                            },
                            Ok((vs2, p2)) => {
                                assert(seq![v] + (vs1 + vs2) =~= (seq![v] + vs1) + vs2);
                            },
                        }
                    },
                }
            },
        }
    }
}

/// Parsing a run of values of the right shapes where their encodings sit
/// yields the values back.
pub proof fn lemma_take_values_exact(vs: Seq<ValueModel>, bytes: Seq<u8>, pos: int)
    requires
        0 <= pos,
        forall|i: int| 0 <= i < vs.len() ==> model_wf(#[trigger] vs[i]),
        pos + fields_bytes(vs).len() <= bytes.len(),
        bytes.subrange(pos, pos + fields_bytes(vs).len()) == fields_bytes(vs),
    ensures
        take_values(types_of(vs), bytes, pos) == Ok::<(Seq<ValueModel>, int), DecodeError>(
            (vs, pos + fields_bytes(vs).len()),
        ),
    decreases vs.len(),
{
    if vs.len() == 0 {
        assert(types_of(vs) =~= Seq::<FieldType>::empty());
        assert(vs =~= Seq::<ValueModel>::empty());
    } else {
        let first = value_bytes(vs[0]);
        let rest = fields_bytes(vs.drop_first());
        let len0 = first.len() as int;
        let whole = fields_bytes(vs);
        lemma_subrange_within(bytes, pos, whole, 0, len0);
        assert(whole.subrange(0, len0) =~= first);
        assert(bytes.subrange(pos, pos + len0) == first);
        lemma_take_value_exact(vs[0], bytes, pos);
        lemma_subrange_within(bytes, pos, whole, len0, whole.len() as int);
        assert(whole.subrange(len0, whole.len() as int) =~= rest);
        assert(bytes.subrange(pos + len0, pos + len0 + rest.len()) == rest);
        lemma_take_values_exact(vs.drop_first(), bytes, pos + len0);
        assert(types_of(vs).drop_first() =~= types_of(vs.drop_first()));
        assert(types_of(vs)[0] == type_of(vs[0]));
        assert(seq![vs[0]] + vs.drop_first() =~= vs);
    }
}

/// Decoding an encoded run of values against its own shapes yields the run
/// back: the decoder is the encoder's inverse.
pub proof fn lemma_decode_encode(vs: Seq<ValueModel>)
    requires
        models_wf(vs),
    ensures
        spec_decode(types_of(vs), encoding_bytes(vs)) == Ok::<Seq<ValueModel>, DecodeError>(vs),
{
    let ts = types_of(vs);
    let n = vs.len() as u64;
    let tags = Seq::new(ts.len(), |i: int| tag_of(ts[i]));
    let bytes = encoding_bytes(vs);
    let body = fields_bytes(vs);
    assert(bytes =~= u64_le_bytes(n) + tags + body);
    assert(bytes.subrange(0, 8) =~= u64_le_bytes(n));
    lemma_take_u64_at(n, bytes, 0);
    assert forall|i: int| 0 <= i < ts.len() implies bytes[8 + i] == tag_of(ts[i]) by {
        assert(bytes[8 + i] == (u64_le_bytes(n) + tags + body)[8 + i]);
    }
    let start = 8 + n as int;
    assert(bytes.subrange(start, start + body.len()) =~= body);
    lemma_take_values_exact(vs, bytes, start);
    assert(start + body.len() == bytes.len());
}

/// Structurally distinct runs of values with the same shapes encode to
/// distinct bytes: store-level key uniqueness implies logical uniqueness.
pub proof fn lemma_encode_injective(vs1: Seq<ValueModel>, vs2: Seq<ValueModel>)
    requires
        models_wf(vs1),
        models_wf(vs2),
        types_of(vs1) == types_of(vs2),
        vs1 != vs2,
    ensures
        encoding_bytes(vs1) != encoding_bytes(vs2),
{
    if encoding_bytes(vs1) == encoding_bytes(vs2) {
        lemma_decode_encode(vs1);
        lemma_decode_encode(vs2);
        assert(vs1 == vs2);
    }
}

/// Bytes encoded for one run of shapes, decoded against different shapes,
/// surface a schema mismatch rather than a wrong-but-valid run of values.
pub proof fn lemma_cross_schema_mismatch(vs: Seq<ValueModel>, other: Seq<FieldType>)
    requires
        models_wf(vs),
        other != types_of(vs),
    ensures
        spec_decode(other, encoding_bytes(vs)) == Err::<Seq<ValueModel>, DecodeError>(
            DecodeError::SchemaMismatch,
        ),
{
    let ts = types_of(vs);
    let n = vs.len() as u64;
    let tags = Seq::new(ts.len(), |i: int| tag_of(ts[i]));
    let bytes = encoding_bytes(vs);
    let body = fields_bytes(vs);
    assert(bytes =~= u64_le_bytes(n) + tags + body);
    assert(bytes.subrange(0, 8) =~= u64_le_bytes(n));
    lemma_take_u64_at(n, bytes, 0);
    if other.len() != vs.len() {
    } else {
        assert(!(forall|i: int| 0 <= i < other.len() ==> other[i] == ts[i])) by {
            if forall|i: int| 0 <= i < other.len() ==> other[i] == ts[i] {
                assert(other =~= ts);
            }
        }
        let i = choose|i: int| 0 <= i < other.len() && other[i] != ts[i];
        assert(bytes[8 + i] == (u64_le_bytes(n) + tags + body)[8 + i]);
        assert(bytes[8 + i] == tag_of(ts[i]));
        if bytes[8 + i] == tag_of(other[i]) {
            lemma_tag_of_injective(ts[i], other[i]);
        }
        assert(!(forall|j: int| 0 <= j < other.len() ==> bytes[8 + j] == tag_of(other[j])));
    }
}

/// The descriptor tag of one executable value's shape.
pub fn value_tag(v: &FieldValue) -> (r: u8)
    ensures
        r == tag_of(type_of(v@)),
{
    match v {
        FieldValue::Byte(_) => 0u8,
        FieldValue::UInt(_) => 1u8,
        FieldValue::Text(_) => 2u8,
        FieldValue::TextList(_) => 3u8,
        FieldValue::OptText(_) => 4u8,
    }
}

/// Whether a run of values has exactly the given run of shapes.
pub fn types_match(values: &Vec<FieldValue>, schema: &Vec<FieldType>) -> (r: bool)
    ensures
        r == (types_of(views_of(values@)) == schema@),
{
    let n = values.len();
    if n != schema.len() {
        proof {
            assert(types_of(views_of(values@)).len() == values@.len());
        }
        return false;
    }
    let mut i: usize = 0;
    while i < n
        invariant
            i <= n,
            n == values@.len(),
            n == schema@.len(),
            forall|j: int| 0 <= j < i ==> types_of(views_of(values@))[j] == schema@[j],
        decreases n - i,
    {
        if !value_has_type(&values[i], &schema[i]) {
            proof {
                assert(types_of(views_of(values@))[i as int] != schema@[i as int]);
            }
            return false;
        }
        i = i + 1;
    }
    proof {
        assert(types_of(views_of(values@)) =~= schema@);
    }
    true
}

/// Encode a run of values: descriptor, then payloads.  Deterministic, and
/// injective over runs of the same shapes.
pub fn encode_fields(values: &Vec<FieldValue>) -> (r: Vec<u8>)
    ensures
        r@ == encoding_bytes(views_of(values@)),
        models_wf(views_of(values@)),
{
    let ghost vm = views_of(values@);
    let ghost ts = types_of(vm);
    let ghost tags = Seq::new(ts.len(), |i: int| tag_of(ts[i]));
    let n = values.len();
    let mut out: Vec<u8> = Vec::new();
    append_u64(&mut out, n as u64);
    let mut i: usize = 0;
    while i < n
        invariant
            i <= n,
            n == values@.len(),
            vm == views_of(values@),
            ts == types_of(vm),
            tags == Seq::new(ts.len(), |j: int| tag_of(ts[j])),
            out@ == u64_le_bytes(n as u64) + tags.take(i as int),
        decreases n - i,
    {
        let t = value_tag(&values[i]);
        out.push(t);
        proof {
            assert(tags.take(i as int + 1) =~= tags.take(i as int) + seq![tags[i as int]]);
            assert(out@ =~= u64_le_bytes(n as u64) + tags.take(i as int + 1));
        }
        i = i + 1;
    }
    proof {
        assert(tags.take(n as int) =~= tags);
        assert(out@ == u64_le_bytes(n as u64) + tags);
        assert(out@ =~= descriptor_bytes(ts));
    }
    let ghost descr = out@;
    let mut i: usize = 0;
    while i < n
        invariant
            i <= n,
            n == values@.len(),
            vm == views_of(values@),
            out@ == descr + fields_bytes(vm.take(i as int)),
            forall|j: int| 0 <= j < i ==> model_wf(#[trigger] vm[j]),
        decreases n - i,
    {
        append_value(&mut out, &values[i]);
        proof {
            assert(vm.take(i as int + 1) =~= vm.take(i as int) + seq![vm[i as int]]);
            lemma_fields_bytes_concat(vm.take(i as int), seq![vm[i as int]]);
            lemma_fields_bytes_one(vm[i as int]);
            assert(out@ =~= descr + fields_bytes(vm.take(i as int + 1)));
        }
        i = i + 1;
    }
    proof {
        assert(vm.take(n as int) =~= vm);
    }
    out
}

/// Decode a whole buffer against an expected run of shapes, as
/// `spec_decode` describes: the encoded values, a schema mismatch when the
/// bytes carry a different shape, or malformed input otherwise.
#[verifier::loop_isolation(false)]
#[verifier::rlimit(100)]
pub fn decode_fields(schema: &Vec<FieldType>, data: &Vec<u8>) -> (r: Result<
    Vec<FieldValue>,
    DecodeError,
>)
    ensures
        match r {
            Ok(vs) => spec_decode(schema@, data@) == Ok::<Seq<ValueModel>, DecodeError>(
                views_of(vs@),
            ),
            Err(e) => spec_decode(schema@, data@) == Err::<Seq<ValueModel>, DecodeError>(e),
        },
{
    let count = schema.len();
    match read_u64(data, 0) {
        None => Err(DecodeError::Malformed),
        Some(np) => {
            let n = np.0;
            let p = np.1;
            if n != count as u64 {
                return Err(DecodeError::SchemaMismatch);
            }
            let dlen = data.len();
            let rem = dlen - p;
            if rem < count {
                return Err(DecodeError::Malformed);
            }
            let mut i: usize = 0;
            while i < count
                invariant
                    i <= count,
                    count == schema@.len(),
                    p + count <= data@.len(),
                    forall|j: int| 0 <= j < i ==> data@[p + j] == tag_of(schema@[j]),
                decreases count - i,
            {
                let expected = tag_byte(&schema[i]);
                if data[p + i] != expected {
                    proof {
                        assert(data@[p as int + i as int] != tag_of(schema@[i as int]));
                    }
                    return Err(DecodeError::SchemaMismatch);
                }
                i = i + 1;
            }
            let start = p + count;
            let mut acc: Vec<FieldValue> = Vec::new();
            let mut cur: usize = start;
            let mut j: usize = 0;
            proof {
                assert(views_of(acc@) =~= Seq::<ValueModel>::empty());
                assert(schema@.take(0) =~= Seq::<FieldType>::empty());
            }
            while j < count
                invariant
                    j <= count,
                    count == schema@.len(),
                    start <= data@.len(),
                    cur <= data@.len(),
                    take_values(schema@.take(j as int), data@, start as int) == Ok::<
                        (Seq<ValueModel>, int),
                        DecodeError,
                    >((views_of(acc@), cur as int)),
                decreases count - j,
            {
                match read_value(&schema[j], data, cur) {
                    Err(e) => {
                        proof {
                            lemma_take_values_compose(
                                schema@.take(j as int),
                                schema@.skip(j as int),
                                data@,
                                start as int,
                            );
                            assert(schema@.take(j as int) + schema@.skip(j as int) =~= schema@);
                            assert(schema@.skip(j as int)[0] == schema@[j as int]);
                            assert(take_values(schema@.skip(j as int), data@, cur as int) == Err::<
                                (Seq<ValueModel>, int),
                                DecodeError,
                            >(e));
                        }
                        return Err(e);
                    },
                    Ok(vp) => {
                        proof {
                            lemma_take_values_compose(
                                schema@.take(j as int),
                                seq![schema@[j as int]],
                                data@,
                                start as int,
                            );
                            assert(schema@.take(j as int) + seq![schema@[j as int]] =~= schema@.take(
                                j as int + 1,
                            ));
                            assert(seq![schema@[j as int]].drop_first() =~= Seq::<
                                FieldType,
                            >::empty());
                            assert(take_values(
                                Seq::<FieldType>::empty(),
                                data@,
                                vp.1 as int,
                            ) == Ok::<(Seq<ValueModel>, int), DecodeError>(
                                (Seq::empty(), vp.1 as int),
                            ));
                            assert(seq![vp.0@] + Seq::<ValueModel>::empty() =~= seq![vp.0@]);
                            assert(take_values(
                                seq![schema@[j as int]],
                                data@,
                                cur as int,
                            ) == Ok::<(Seq<ValueModel>, int), DecodeError>(
                                (seq![vp.0@], vp.1 as int),
                            ));
                            assert(views_of(acc@.push(vp.0)) =~= views_of(acc@) + seq![vp.0@]);
                        }
                        acc.push(vp.0);
                        cur = vp.1;
                        j = j + 1;
                    },
                }
            }
            proof {
                assert(schema@.take(count as int) =~= schema@);
            }
            if cur == data.len() {
                Ok(acc)
            } else {
                Err(DecodeError::Malformed)
            }
        },
    }
}

/// The dedicated single-value encoder: one value, written directly, with
/// no tuple wrapping beyond its one-shape descriptor.
pub fn encode_single(value: &FieldValue) -> (r: Vec<u8>)
    ensures
        r@ == single_encoding_bytes(value@),
{
    let mut out: Vec<u8> = Vec::new();
    append_u64(&mut out, 1);
    out.push(value_tag(value));
    append_value(&mut out, value);
    proof {
        assert(out@ =~= single_encoding_bytes(value@));
    }
    out
}

/// A one-field key spec produces byte-identical output to the dedicated
/// single-value encoding: collapsing the tuple adds no wrapping bytes.
pub proof fn lemma_single_field_collapse(v: ValueModel)
    ensures
        encoding_bytes(seq![v]) == single_encoding_bytes(v),
{
    let vs = seq![v];
    assert(types_of(vs) =~= seq![type_of(v)]);
    lemma_fields_bytes_one(v);
    assert(Seq::new(1, |i: int| tag_of(seq![type_of(v)][i])) =~= seq![tag_of(type_of(v))]);
    assert(encoding_bytes(vs) =~= single_encoding_bytes(v));
}

} // verus!
