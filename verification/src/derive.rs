//! The key derivation engine.
//!
//! A record type is described once, at registration time, by its shape (its
//! named, typed fields) and its attributes; the engine validates the
//! declared key field list against the shape and synthesizes the composite
//! key: the key fields' positions and shapes, in declared order.

use vstd::prelude::*;

use crate::errors::ValidationError;
use crate::value::{texts_view, FieldType};
use vstd::string::StringExecFns;

verus! {

/// One named, typed field of a record shape.
pub struct FieldDef {
    pub name: String,
    pub ty: FieldType,
}

/// The shape of a record type: a struct with named fields, or something
/// else (a tagged union, say), on which no key spec can be declared.
pub enum TypeData {
    Struct(Vec<FieldDef>),
    Unsupported,
}

/// One attribute of a record type: a path and the identifiers it lists.
pub struct KeyAttr {
    pub path: String,
    pub idents: Vec<String>,
}

/// A record type's description as handed to the engine: its shape and its
/// attributes.
pub struct TypeInput {
    pub data: TypeData,
    pub attrs: Vec<KeyAttr>,
}


/// The shapes of a run of fields.
pub open spec fn field_types(fields: Seq<FieldDef>) -> Seq<FieldType> {
    Seq::new(fields.len(), |i: int| fields[i].ty)
}

/// Whether an attribute declares a non-empty key field list.
pub open spec fn is_key_attr(a: KeyAttr) -> bool {
    a.path@ == "leveldb_key"@ && a.idents@.len() > 0
}

/// Whether position `i` holds the first field named `name`.
pub open spec fn found_at(fields: Seq<FieldDef>, name: Seq<char>, i: int) -> bool {
    &&& 0 <= i < fields.len()
    &&& fields[i].name@ == name
    &&& forall|j: int| 0 <= j < i ==> fields[j].name@ != name
}

/// Whether the first field named `name` has shape `ty`.
pub open spec fn resolves_to(fields: Seq<FieldDef>, name: Seq<char>, ty: FieldType) -> bool {
    exists|i: int| #[trigger] found_at(fields, name, i) && ty == fields[i].ty
}

/// Find the first field with the given name.
pub fn find_field(fields: &Vec<FieldDef>, name: &String) -> (r: Option<usize>)
    ensures
        match r {
            Some(i) => found_at(fields@, name@, i as int),
            None => forall|j: int| 0 <= j < fields@.len() ==> fields@[j].name@ != name@,
        },
{
    let n = fields.len();
    let mut i: usize = 0;
    while i < n
        invariant
            i <= n,
            n == fields@.len(),
            forall|j: int| 0 <= j < i ==> fields@[j].name@ != name@,
        decreases n - i,
    {
        if fields[i].name.eq(name) {
            return Some(i);
        }
        i = i + 1;
    }
    None
}

/// The declared key field names: those of the first attribute that names a
/// non-empty key field list, or nothing when no attribute does.
pub fn parse_leveldb_key(attrs: &Vec<KeyAttr>) -> (r: Option<Vec<String>>)
    ensures
        match r {
            Some(keys) => exists|i: int|
                0 <= i < attrs@.len() && #[trigger] is_key_attr(attrs@[i]) && (forall|j: int|
                    0 <= j < i ==> !is_key_attr(attrs@[j])) && texts_view(keys@) == texts_view(
                    attrs@[i].idents@,
                ) && keys@.len() > 0,
            None => forall|i: int| 0 <= i < attrs@.len() ==> !is_key_attr(attrs@[i]),
        },
{
    let marker = String::from_str("leveldb_key");
    let n = attrs.len();
    let mut i: usize = 0;
    while i < n
        invariant
            i <= n,
            n == attrs@.len(),
            marker@ == "leveldb_key"@,
            forall|j: int| 0 <= j < i ==> !is_key_attr(attrs@[j]),
        decreases n - i,
    {
        if attrs[i].path.eq(&marker) && attrs[i].idents.len() > 0 {
            let mut keys: Vec<String> = Vec::new();
            let idents = &attrs[i].idents;
            let m = idents.len();
            let mut k: usize = 0;
            while k < m
                invariant
                    k <= m,
                    m == idents@.len(),
                    keys@.len() == k,
                    forall|j: int| 0 <= j < k ==> keys@[j]@ == idents@[j]@,
                decreases m - k,
            {
                keys.push(idents[k].clone());
                k = k + 1;
            }
            proof {
                assert(texts_view(keys@) =~= texts_view(idents@));
                assert(is_key_attr(attrs@[i as int]));
            }
            return Some(keys);
        }
        i = i + 1;
    }
    None
}

/// Resolve each declared key field name to its field's shape, in declared
/// order; the first name with no matching field is the unknown field.
pub fn parse_key_types(keys: &Vec<String>, fields: &Vec<FieldDef>) -> (r: Result<
    Vec<FieldType>,
    ValidationError,
>)
    ensures
        match r {
            Ok(tys) => tys@.len() == keys@.len() && (forall|k: int|
                0 <= k < keys@.len() ==> #[trigger] resolves_to(fields@, keys@[k]@, tys@[k])),
            Err(e) => exists|k: int|
                0 <= k < keys@.len() && e == ValidationError::UnknownField(#[trigger] keys@[k])
                    && (forall|j: int| 0 <= j < fields@.len() ==> fields@[j].name@ != keys@[k]@),
        },
{
    let n = keys.len();
    let mut tys: Vec<FieldType> = Vec::new();
    let mut k: usize = 0;
    while k < n
        invariant
            k <= n,
            n == keys@.len(),
            tys@.len() == k,
            forall|q: int|
                0 <= q < k ==> #[trigger] resolves_to(fields@, keys@[q]@, tys@[q]),
        decreases n - k,
    {
        match find_field(fields, &keys[k]) {
            Some(i) => {
                tys.push(fields[i].ty);
                proof {
                    assert(found_at(fields@, keys@[k as int]@, i as int));
                    assert(resolves_to(fields@, keys@[k as int]@, tys@[k as int]));
                }
            },
            None => {
                return Err(ValidationError::UnknownField(keys[k].clone()));
            },
        }
        k = k + 1;
    }
    Ok(tys)
}

/// The synthesized composite key of a record type: the declared key field
/// names, each one's position among the fields, and each one's shape, all
/// in declared order.
pub struct KeyPlan {
    pub keys: Vec<String>,
    pub indices: Vec<usize>,
    pub types: Vec<FieldType>,
}

/// A key plan is faithful to a run of fields: every declared name resolves
/// to the first field of that name, at the recorded position and with the
/// recorded shape, and the plan is non-empty.
pub open spec fn plan_wf(plan: KeyPlan, fields: Seq<FieldDef>) -> bool {
    &&& plan.keys@.len() == plan.indices@.len()
    &&& plan.keys@.len() == plan.types@.len()
    &&& plan.keys@.len() > 0
    &&& forall|k: int|
        #![trigger plan.indices@[k]]
        0 <= k < plan.keys@.len() ==> found_at(fields, plan.keys@[k]@, plan.indices@[k] as int)
            && plan.types@[k] == fields[plan.indices@[k] as int].ty
}

/// Whether position `i` holds the first attribute that declares a key
/// field list.
pub open spec fn key_attr_at(attrs: Seq<KeyAttr>, i: int) -> bool {
    &&& 0 <= i < attrs.len()
    &&& is_key_attr(attrs[i])
    &&& forall|j: int| 0 <= j < i ==> !is_key_attr(attrs[j])
}

/// Whether `names` is the key field list that the attributes declare.
pub open spec fn declared_keys(attrs: Seq<KeyAttr>, names: Seq<Seq<char>>) -> bool {
    exists|i: int| #[trigger] key_attr_at(attrs, i) && names == texts_view(attrs[i].idents@)
}

/// Only one position holds the first field of a given name.
pub proof fn lemma_found_at_unique(fields: Seq<FieldDef>, name: Seq<char>, i1: int, i2: int)
    requires
        found_at(fields, name, i1),
        found_at(fields, name, i2),
    ensures
        i1 == i2,
{
}

/// Validate a record type's description and synthesize its key plan.
///
/// A shape that is not a struct with fields is unsupported; attributes that
/// declare no key field are an empty key spec; a declared name with no
/// matching field is unknown.  On success the plan resolves every declared
/// name, in order.
#[verifier::loop_isolation(false)]
pub fn derive_orm(input: &TypeInput) -> (r: Result<KeyPlan, ValidationError>)
    ensures
        match input.data {
            TypeData::Unsupported => r == Err::<KeyPlan, ValidationError>(
                ValidationError::UnsupportedShape,
            ),
            TypeData::Struct(fields) => match r {
                Ok(plan) => plan_wf(plan, fields@) && declared_keys(
                    input.attrs@,
                    texts_view(plan.keys@),
                ),
                Err(e) => match e {
                    ValidationError::EmptyKeySpec => forall|i: int|
                        0 <= i < input.attrs@.len() ==> !is_key_attr(input.attrs@[i]),
                    ValidationError::UnknownField(nm) => (forall|j: int|
                        0 <= j < fields@.len() ==> fields@[j].name@ != nm@) && (exists|
                        names: Seq<Seq<char>>,
                    |
                        #[trigger] declared_keys(input.attrs@, names) && names.contains(nm@)),
                    ValidationError::UnsupportedShape => false,
                },
            },
        },
{
    let fields = match &input.data {
        TypeData::Struct(fields) => fields,
        TypeData::Unsupported => {
            return Err(ValidationError::UnsupportedShape);
        },
    };
    let keys = match parse_leveldb_key(&input.attrs) {
        Some(keys) => keys,
        None => {
            return Err(ValidationError::EmptyKeySpec);
        },
    };
    let ghost names = texts_view(keys@);
    proof {
        let i = choose|i: int|
            0 <= i < input.attrs@.len() && #[trigger] is_key_attr(input.attrs@[i]) && (forall|
                j: int,
            |
                0 <= j < i ==> !is_key_attr(input.attrs@[j])) && texts_view(keys@) == texts_view(
                input.attrs@[i].idents@,
            ) && keys@.len() > 0;
        assert(key_attr_at(input.attrs@, i));
        assert(declared_keys(input.attrs@, names));
    }
    let types = match parse_key_types(&keys, fields) {
        Ok(types) => types,
        Err(e) => {
            proof {
                let k = choose|k: int|
                    0 <= k < keys@.len() && e == ValidationError::UnknownField(
                        #[trigger] keys@[k],
                    ) && (forall|j: int|
                        0 <= j < fields@.len() ==> fields@[j].name@ != keys@[k]@);
                assert(names[k] == keys@[k]@);
                assert(names.contains(keys@[k]@));
            }
            return Err(e);
        },
    };
    let n = keys.len();
    let mut indices: Vec<usize> = Vec::new();
    let mut k: usize = 0;
    while k < n
        invariant
            k <= n,
            n == keys@.len(),
            indices@.len() == k,
            forall|q: int|
                #![trigger indices@[q]]
                0 <= q < k ==> found_at(fields@, keys@[q]@, indices@[q] as int),
        decreases n - k,
    {
        match find_field(fields, &keys[k]) {
            Some(i) => {
                indices.push(i);
            },
            None => {
                proof {
                    assert(names[k as int] == keys@[k as int]@);
                    assert(names.contains(keys@[k as int]@));
                }
                return Err(ValidationError::UnknownField(keys[k].clone()));
            },
        }
        k = k + 1;
    }
    let plan = KeyPlan { keys, indices, types };
    proof {
        assert forall|q: int|
            #![trigger plan.indices@[q]]
            0 <= q < plan.keys@.len() implies found_at(
            fields@,
            plan.keys@[q]@,
            plan.indices@[q] as int,
        ) && plan.types@[q] == fields@[plan.indices@[q] as int].ty by {
            assert(resolves_to(fields@, plan.keys@[q]@, plan.types@[q]));
            let i2 = choose|i2: int|
                #[trigger] found_at(fields@, plan.keys@[q]@, i2) && plan.types@[q] == fields@[i2].ty;
            lemma_found_at_unique(fields@, plan.keys@[q]@, i2, plan.indices@[q] as int);
        }
    }
    Ok(plan)
}

} // verus!
