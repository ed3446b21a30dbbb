//! The wire-shape compatibility adapter for a single create item.
//!
//! Two JSON layouts are accepted and map to one canonical in-memory form:
//! the legacy flattened shape, whose fields `object_id`, `encoded_collab_v1`,
//! `workspace_id` and `collab_type` sit at the top level and which knows no
//! `override_if_exist`; and the canonical shape, which nests the same fields
//! one level deeper under `inner` together with an explicit
//! `override_if_exist` boolean. A missing `override_if_exist` defaults to
//! `false`; unknown fields are ignored in either shape; a payload missing a
//! required field is rejected.
//!
//! The adapter works on `WireDoc`, a plain model of the JSON documents this
//! endpoint can receive: an object of scalar fields, byte arrays, and one
//! level of nested object. The surrounding transport layer converts its JSON
//! values into this form.

use vstd::prelude::*;
use vstd::string::StringExecFns;
use crate::entity::{CollabParams, CollabParamsModel, CollabType};

verus! {

/// A scalar JSON field value: null, boolean, integer, string, or an array
/// of integers (how byte payloads travel in JSON).
#[derive(Clone, Debug)]
pub enum WireLeaf {
    Null,
    Bool(bool),
    Int(i64),
    Str(String),
    IntArr(Vec<i64>),
}

/// A top-level JSON field value: a scalar, or one nested object of scalars.
#[derive(Clone, Debug)]
pub enum WireValue {
    Leaf(WireLeaf),
    Obj(Vec<(String, WireLeaf)>),
}

/// A received JSON document: its fields in document order.
#[derive(Clone, Debug)]
pub struct WireDoc {
    pub fields: Vec<(String, WireValue)>,
}

/// Mathematical model of a scalar field value.
pub ghost enum LeafModel {
    Null,
    Bool(bool),
    Int(i64),
    Str(Seq<char>),
    IntArr(Seq<i64>),
}

/// Mathematical model of a top-level field value.
pub ghost enum ValueModel {
    Leaf(LeafModel),
    Obj(Seq<(Seq<char>, LeafModel)>),
}

impl View for WireLeaf {
    type V = LeafModel;

    open spec fn view(&self) -> LeafModel {
        match self {
            WireLeaf::Null => LeafModel::Null,
            WireLeaf::Bool(b) => LeafModel::Bool(*b),
            WireLeaf::Int(i) => LeafModel::Int(*i),
            WireLeaf::Str(s) => LeafModel::Str(s@),
            WireLeaf::IntArr(v) => LeafModel::IntArr(v@),
        }
    }
}

impl View for WireValue {
    type V = ValueModel;

    open spec fn view(&self) -> ValueModel {
        match self {
            WireValue::Leaf(l) => ValueModel::Leaf(l@),
            WireValue::Obj(fs) => ValueModel::Obj(
                fs@.map_values(|p: (String, WireLeaf)| (p.0@, p.1@)),
            ),
        }
    }
}

/// Abstract field list of a document.
pub open spec fn value_pairs(s: Seq<(String, WireValue)>) -> Seq<(Seq<char>, ValueModel)> {
    s.map_values(|p: (String, WireValue)| (p.0@, p.1@))
}

/// Abstract field list of a nested object.
pub open spec fn leaf_pairs(s: Seq<(String, WireLeaf)>) -> Seq<(Seq<char>, LeafModel)> {
    s.map_values(|p: (String, WireLeaf)| (p.0@, p.1@))
}

impl View for WireDoc {
    type V = Seq<(Seq<char>, ValueModel)>;

    open spec fn view(&self) -> Seq<(Seq<char>, ValueModel)> {
        value_pairs(self.fields@)
    }
}

/// A field of a create-item payload, for naming what a rejection is about.
#[derive(Clone, Copy, Debug, PartialEq, Eq, Structural)]
pub enum WireField {
    ObjectId,
    EncodedCollabV1,
    WorkspaceId,
    CollabType,
    OverrideIfExist,
    Inner,
}

/// Rejection of a wire payload: a required field is absent, or a field is
/// present with the wrong shape.
#[derive(Clone, Copy, Debug, PartialEq, Eq, Structural)]
pub enum WireError {
    MissingField(WireField),
    InvalidField(WireField),
}

/// The canonical in-memory form of a single create request: the workspace
/// and the create item.
#[derive(Clone, Debug)]
pub struct CreateCollabParams {
    pub workspace_id: String,
    pub inner: CollabParams,
}

/// Mathematical model of a `CreateCollabParams`.
pub ghost struct CreateCollabModel {
    pub workspace_id: Seq<char>,
    pub inner: CollabParamsModel,
}

impl View for CreateCollabParams {
    type V = CreateCollabModel;

    open spec fn view(&self) -> CreateCollabModel {
        CreateCollabModel { workspace_id: self.workspace_id@, inner: self.inner@ }
    }
}

/// Value of the first field with the given name, if any.
pub open spec fn lookup_value(
    fields: Seq<(Seq<char>, ValueModel)>,
    key: Seq<char>,
) -> Option<ValueModel>
    decreases fields.len(),
{
    if fields.len() == 0 {
        None
    } else if fields[0].0 == key {
        Some(fields[0].1)
    } else {
        lookup_value(fields.drop_first(), key)
    }
}

/// Value of the first nested field with the given name, if any.
pub open spec fn lookup_leaf(
    fields: Seq<(Seq<char>, LeafModel)>,
    key: Seq<char>,
) -> Option<LeafModel>
    decreases fields.len(),
{
    if fields.len() == 0 {
        None
    } else if fields[0].0 == key {
        Some(fields[0].1)
    } else {
        lookup_leaf(fields.drop_first(), key)
    }
}

/// A top-level value where a scalar is expected: absent is allowed, a
/// nested object is not.
pub open spec fn value_leaf(o: Option<ValueModel>, f: WireField) -> Result<
    Option<LeafModel>,
    WireError,
> {
    match o {
        Option::None => Ok(Option::None),
        Option::Some(ValueModel::Leaf(l)) => Ok(Option::Some(l)),
        Option::Some(ValueModel::Obj(_)) => Err(WireError::InvalidField(f)),
    }
}

/// A top-level field read where a scalar is expected.
pub open spec fn field_leaf(
    fields: Seq<(Seq<char>, ValueModel)>,
    key: Seq<char>,
    f: WireField,
) -> Result<Option<LeafModel>, WireError> {
    value_leaf(lookup_value(fields, key), f)
}

/// The bytes an integer array denotes, if every element is in `0..=255`.
pub open spec fn bytes_of(s: Seq<i64>) -> Option<Seq<u8>>
    decreases s.len(),
{
    if s.len() == 0 {
        Some(Seq::empty())
    } else if 0 <= s[0] <= 255 {
        match bytes_of(s.drop_first()) {
            Option::Some(rest) => Some(seq![s[0] as u8] + rest),
            Option::None => None,
        }
    } else {
        None
    }
}

/// A required string field.
pub open spec fn leaf_str(l: Option<LeafModel>, f: WireField) -> Result<Seq<char>, WireError> {
    match l {
        Option::None => Err(WireError::MissingField(f)),
        Option::Some(LeafModel::Str(s)) => Ok(s),
        Option::Some(_) => Err(WireError::InvalidField(f)),
    }
}

/// A required byte-array field.
pub open spec fn leaf_bytes(l: Option<LeafModel>, f: WireField) -> Result<Seq<u8>, WireError> {
    match l {
        Option::None => Err(WireError::MissingField(f)),
        Option::Some(LeafModel::IntArr(s)) => match bytes_of(s) {
            Option::Some(b) => Ok(b),
            Option::None => Err(WireError::InvalidField(f)),
        },
        Option::Some(_) => Err(WireError::InvalidField(f)),
    }
}

/// A required document-kind field, as its integer wire code.
pub open spec fn leaf_collab_type(l: Option<LeafModel>, f: WireField) -> Result<
    CollabType,
    WireError,
> {
    match l {
        Option::None => Err(WireError::MissingField(f)),
        Option::Some(LeafModel::Int(c)) => match CollabType::spec_from_code(c) {
            Option::Some(t) => Ok(t),
            Option::None => Err(WireError::InvalidField(f)),
        },
        Option::Some(_) => Err(WireError::InvalidField(f)),
    }
}

/// An optional boolean field, absent meaning `false`.
pub open spec fn leaf_bool_or_default(l: Option<LeafModel>, f: WireField) -> Result<
    bool,
    WireError,
> {
    match l {
        Option::None => Ok(false),
        Option::Some(LeafModel::Bool(b)) => Ok(b),
        Option::Some(_) => Err(WireError::InvalidField(f)),
    }
}

/// Parse the create-item fields found at one nesting level.
pub open spec fn parse_item_fields(
    oid_l: Option<LeafModel>,
    bytes_l: Option<LeafModel>,
    ws_l: Option<LeafModel>,
    type_l: Option<LeafModel>,
    ov_l: Option<LeafModel>,
) -> Result<CreateCollabModel, WireError> {
    match leaf_str(oid_l, WireField::ObjectId) {
        Err(e) => Err(e),
        Ok(oid) => match leaf_bytes(bytes_l, WireField::EncodedCollabV1) {
            Err(e) => Err(e),
            Ok(bytes) => match leaf_str(ws_l, WireField::WorkspaceId) {
                Err(e) => Err(e),
                Ok(ws) => match leaf_collab_type(type_l, WireField::CollabType) {
                    Err(e) => Err(e),
                    Ok(t) => match leaf_bool_or_default(ov_l, WireField::OverrideIfExist) {
                        Err(e) => Err(e),
                        Ok(ov) => Ok(
                            CreateCollabModel {
                                workspace_id: ws,
                                inner: CollabParamsModel {
                                    object_id: oid,
                                    encoded_collab_v1: bytes,
                                    collab_type: t,
                                    override_if_exist: ov,
                                },
                            },
                        ),
                    },
                },
            },
        },
    }
}

/// Parse the canonical shape: the item fields nested under `inner`.
pub open spec fn parse_canonical(
    inner: Seq<(Seq<char>, LeafModel)>,
) -> Result<CreateCollabModel, WireError> {
    parse_item_fields(
        lookup_leaf(inner, "object_id"@),
        lookup_leaf(inner, "encoded_collab_v1"@),
        lookup_leaf(inner, "workspace_id"@),
        lookup_leaf(inner, "collab_type"@),
        lookup_leaf(inner, "override_if_exist"@),
    )
}

/// Parse the legacy flattened shape: the item fields at the top level.
pub open spec fn parse_legacy(
    fields: Seq<(Seq<char>, ValueModel)>,
) -> Result<CreateCollabModel, WireError> {
    match field_leaf(fields, "object_id"@, WireField::ObjectId) {
        Err(e) => Err(e),
        Ok(oid_l) => match field_leaf(fields, "encoded_collab_v1"@, WireField::EncodedCollabV1) {
            Err(e) => Err(e),
            Ok(bytes_l) => match field_leaf(fields, "workspace_id"@, WireField::WorkspaceId) {
                Err(e) => Err(e),
                Ok(ws_l) => match field_leaf(fields, "collab_type"@, WireField::CollabType) {
                    Err(e) => Err(e),
                    Ok(type_l) => match field_leaf(
                        fields,
                        "override_if_exist"@,
                        WireField::OverrideIfExist,
                    ) {
                        Err(e) => Err(e),
                        Ok(ov_l) => parse_item_fields(oid_l, bytes_l, ws_l, type_l, ov_l),
                    },
                },
            },
        },
    }
}

/// What parsing a received document yields: the canonical shape when an
/// `inner` object is present, the legacy flattened shape otherwise.
pub open spec fn parse_doc_model(
    fields: Seq<(Seq<char>, ValueModel)>,
) -> Result<CreateCollabModel, WireError> {
    match lookup_value(fields, "inner"@) {
        Option::Some(ValueModel::Obj(inner)) => parse_canonical(inner),
        Option::Some(ValueModel::Leaf(_)) => Err(WireError::InvalidField(WireField::Inner)),
        Option::None => parse_legacy(fields),
    }
}

/// The legacy flattened document that carries the given create item: the
/// four fields at the top level, with no `override_if_exist`.
pub open spec fn legacy_doc(ws: Seq<char>, oid: Seq<char>, bytes: Seq<u8>, t: CollabType) -> Seq<
    (Seq<char>, ValueModel),
> {
    seq![
        ("object_id"@, ValueModel::Leaf(LeafModel::Str(oid))),
        (
            "encoded_collab_v1"@,
            ValueModel::Leaf(LeafModel::IntArr(bytes.map_values(|b: u8| b as i64))),
        ),
        ("workspace_id"@, ValueModel::Leaf(LeafModel::Str(ws))),
        ("collab_type"@, ValueModel::Leaf(LeafModel::Int(t.spec_code()))),
    ]
}

/// The canonical document that carries the given create item: the same
/// fields nested under `inner`, with an explicit `override_if_exist`.
pub open spec fn canonical_doc(
    ws: Seq<char>,
    oid: Seq<char>,
    bytes: Seq<u8>,
    t: CollabType,
    ov: bool,
) -> Seq<(Seq<char>, ValueModel)> {
    seq![
        (
            "inner"@,
            ValueModel::Obj(
                seq![
                    ("object_id"@, LeafModel::Str(oid)),
                    ("encoded_collab_v1"@, LeafModel::IntArr(bytes.map_values(|b: u8| b as i64))),
                    ("workspace_id"@, LeafModel::Str(ws)),
                    ("collab_type"@, LeafModel::Int(t.spec_code())),
                    ("override_if_exist"@, LeafModel::Bool(ov)),
                ],
            ),
        ),
    ]
}

/// Legacy-shape compatibility: a legacy flattened document and its
/// canonical-shape equivalent with `override_if_exist` false parse to the
/// same in-memory create item, with the same object id, bytes, kind and
/// workspace, and `override_if_exist` defaulted to false.
pub proof fn lemma_wire_shape_compat(ws: Seq<char>, oid: Seq<char>, bytes: Seq<u8>, t: CollabType)
    ensures
        parse_doc_model(legacy_doc(ws, oid, bytes, t)) == Ok::<CreateCollabModel, WireError>(
            CreateCollabModel {
                workspace_id: ws,
                inner: CollabParamsModel {
                    object_id: oid,
                    encoded_collab_v1: bytes,
                    collab_type: t,
                    override_if_exist: false,
                },
            },
        ),
        parse_doc_model(canonical_doc(ws, oid, bytes, t, false)) == parse_doc_model(
            legacy_doc(ws, oid, bytes, t),
        ),
{
    reveal_strlit("inner");
    reveal_strlit("object_id");
    reveal_strlit("encoded_collab_v1");
    reveal_strlit("workspace_id");
    reveal_strlit("collab_type");
    reveal_strlit("override_if_exist");
    let ints = bytes.map_values(|b: u8| b as i64);
    assert(bytes_of(ints) == Some(bytes)) by {
        assert forall|i: int| 0 <= i < ints.len() implies 0 <= #[trigger] ints[i] <= 255 by {
            assert(ints[i] == bytes[i] as i64);
        }
        lemma_bytes_of_ok(ints);
        assert(ints.map_values(|x: i64| x as u8) =~= bytes);
    }
    assert(CollabType::spec_from_code(t.spec_code()) == Some(t));
    assert("inner"@.len() == 5);
    assert("object_id"@.len() == 9);
    assert("workspace_id"@.len() == 12);
    assert("collab_type"@.len() == 11);
    assert("encoded_collab_v1"@.len() == 17);
    assert("override_if_exist"@.len() == 17);
    assert("encoded_collab_v1"@[0] == 'e');
    assert("override_if_exist"@[0] == 'o');
    let target = CreateCollabModel {
        workspace_id: ws,
        inner: CollabParamsModel {
            object_id: oid,
            encoded_collab_v1: bytes,
            collab_type: t,
            override_if_exist: false,
        },
    };
    // The legacy document.
    let lf = legacy_doc(ws, oid, bytes, t);
    assert("object_id"@ != "inner"@);
    assert("encoded_collab_v1"@ != "inner"@);
    assert("workspace_id"@ != "inner"@);
    assert("collab_type"@ != "inner"@);
    assert(lookup_value(lf, "inner"@) is None) by {
        lemma_lookup_value_at(lf, "inner"@, 4);
    }
    assert(lookup_value(lf, "object_id"@) == Some(lf[0].1)) by {
        lemma_lookup_value_at(lf, "object_id"@, 0);
    }
    assert("encoded_collab_v1"@ != "object_id"@);
    assert(lookup_value(lf, "encoded_collab_v1"@) == Some(lf[1].1)) by {
        lemma_lookup_value_at(lf, "encoded_collab_v1"@, 1);
    }
    assert("workspace_id"@ != "object_id"@);
    assert("workspace_id"@ != "encoded_collab_v1"@);
    assert(lookup_value(lf, "workspace_id"@) == Some(lf[2].1)) by {
        lemma_lookup_value_at(lf, "workspace_id"@, 2);
    }
    assert("collab_type"@ != "object_id"@);
    assert("collab_type"@ != "encoded_collab_v1"@);
    assert("collab_type"@ != "workspace_id"@);
    assert(lookup_value(lf, "collab_type"@) == Some(lf[3].1)) by {
        lemma_lookup_value_at(lf, "collab_type"@, 3);
    }
    assert("override_if_exist"@ != "object_id"@);
    assert("override_if_exist"@ != "encoded_collab_v1"@);
    assert("override_if_exist"@ != "workspace_id"@);
    assert("override_if_exist"@ != "collab_type"@);
    assert(lookup_value(lf, "override_if_exist"@) is None) by {
        lemma_lookup_value_at(lf, "override_if_exist"@, 4);
    }
    assert(parse_legacy(lf) == Ok::<CreateCollabModel, WireError>(target));
    assert(parse_doc_model(lf) == Ok::<CreateCollabModel, WireError>(target));
    // The canonical document.
    let cf = canonical_doc(ws, oid, bytes, t, false);
    assert(cf[0].0 == "inner"@);
    assert(lookup_value(cf, "inner"@) == Some(cf[0].1));
    let inner = seq![
        ("object_id"@, LeafModel::Str(oid)),
        ("encoded_collab_v1"@, LeafModel::IntArr(ints)),
        ("workspace_id"@, LeafModel::Str(ws)),
        ("collab_type"@, LeafModel::Int(t.spec_code())),
        ("override_if_exist"@, LeafModel::Bool(false)),
    ];
    assert(cf[0].1 == ValueModel::Obj(inner));
    assert(lookup_leaf(inner, "object_id"@) == Some(inner[0].1)) by {
        lemma_lookup_leaf_at(inner, "object_id"@, 0);
    }
    assert(lookup_leaf(inner, "encoded_collab_v1"@) == Some(inner[1].1)) by {
        lemma_lookup_leaf_at(inner, "encoded_collab_v1"@, 1);
    }
    assert(lookup_leaf(inner, "workspace_id"@) == Some(inner[2].1)) by {
        lemma_lookup_leaf_at(inner, "workspace_id"@, 2);
    }
    assert(lookup_leaf(inner, "collab_type"@) == Some(inner[3].1)) by {
        lemma_lookup_leaf_at(inner, "collab_type"@, 3);
    }
    assert(lookup_leaf(inner, "override_if_exist"@) == Some(inner[4].1)) by {
        lemma_lookup_leaf_at(inner, "override_if_exist"@, 4);
    }
    assert(parse_canonical(inner) == Ok::<CreateCollabModel, WireError>(target));
}

/// The field at a position, when no earlier field has the name, settles what
/// a lookup yields.
proof fn lemma_lookup_value_at(s: Seq<(Seq<char>, ValueModel)>, key: Seq<char>, i: int)
    requires
        0 <= i <= s.len(),
        forall|j: int| 0 <= j < i ==> (#[trigger] s[j]).0 != key,
        i < s.len() ==> s[i].0 == key,
    ensures
        i == s.len() ==> lookup_value(s, key) is None,
        i < s.len() ==> lookup_value(s, key) == Some(s[i].1),
    decreases i, s.len(),
{
    if s.len() > 0 {
        if i > 0 {
            let t = s.drop_first();
            assert forall|j: int| 0 <= j < i - 1 implies (#[trigger] t[j]).0 != key by {
                assert(t[j] == s[j + 1]);
            }
            assert(i - 1 < t.len() ==> t[i - 1] == s[i]);
            lemma_lookup_value_at(t, key, i - 1);
        } else if i == 0 && s.len() > 0 && s[0].0 != key {
            let t = s.drop_first();
            lemma_lookup_value_at(t, key, 0);
        }
    }
}

/// As `lemma_lookup_value_at`, for nested fields.
proof fn lemma_lookup_leaf_at(s: Seq<(Seq<char>, LeafModel)>, key: Seq<char>, i: int)
    requires
        0 <= i <= s.len(),
        forall|j: int| 0 <= j < i ==> (#[trigger] s[j]).0 != key,
        i < s.len() ==> s[i].0 == key,
    ensures
        i == s.len() ==> lookup_leaf(s, key) is None,
        i < s.len() ==> lookup_leaf(s, key) == Some(s[i].1),
    decreases i, s.len(),
{
    if s.len() > 0 {
        if i > 0 {
            let t = s.drop_first();
            assert forall|j: int| 0 <= j < i - 1 implies (#[trigger] t[j]).0 != key by {
                assert(t[j] == s[j + 1]);
            }
            assert(i - 1 < t.len() ==> t[i - 1] == s[i]);
            lemma_lookup_leaf_at(t, key, i - 1);
        } else if i == 0 && s.len() > 0 && s[0].0 != key {
            let t = s.drop_first();
            lemma_lookup_leaf_at(t, key, 0);
        }
    }
}

/// An integer array whose elements all fit a byte denotes those bytes.
proof fn lemma_bytes_of_ok(s: Seq<i64>)
    requires
        forall|i: int| 0 <= i < s.len() ==> 0 <= #[trigger] s[i] <= 255,
    ensures
        bytes_of(s) == Some(s.map_values(|x: i64| x as u8)),
    decreases s.len(),
{
    if s.len() == 0 {
        assert(s.map_values(|x: i64| x as u8) =~= Seq::<u8>::empty());
    } else {
        let t = s.drop_first();
        assert forall|i: int| 0 <= i < t.len() implies 0 <= #[trigger] t[i] <= 255 by {
            assert(t[i] == s[i + 1]);
        }
        lemma_bytes_of_ok(t);
        assert(seq![s[0] as u8] + t.map_values(|x: i64| x as u8) =~= s.map_values(
            |x: i64| x as u8,
        ));
    }
}

/// An integer array with an element outside a byte's range denotes nothing.
proof fn lemma_bytes_of_bad(s: Seq<i64>, i: int)
    requires
        0 <= i < s.len(),
        !(0 <= s[i] <= 255),
    ensures
        bytes_of(s) is None,
    decreases i,
{
    if 0 <= s[0] <= 255 {
        let t = s.drop_first();
        assert(t[i - 1] == s[i]);
        lemma_bytes_of_bad(t, i - 1);
    }
}

/// First field whose name equals `key`, if any.
#[verifier::loop_isolation(false)]
fn find_value<'a>(fields: &'a Vec<(String, WireValue)>, key: &String) -> (r: Option<
    &'a WireValue,
>)
    ensures
        match r {
            Some(v) => lookup_value(value_pairs(fields@), key@) == Some(v@),
            None => lookup_value(value_pairs(fields@), key@) is None,
        },
{
    let n = fields.len();
    let mut i: usize = 0;
    while i < n
        invariant
            0 <= i <= n,
            forall|j: int| 0 <= j < i ==> (#[trigger] fields@[j]).0@ != key@,
        decreases n - i,
    {
        if fields[i].0 == *key {
            proof {
                assert forall|j: int| 0 <= j < i implies (#[trigger] value_pairs(fields@)[j]).0
                    != key@ by {
                    assert(value_pairs(fields@)[j].0 == fields@[j].0@);
                }
                lemma_lookup_value_at(value_pairs(fields@), key@, i as int);
            }
            return Some(&fields[i].1);
        }
        i += 1;
    }
    proof {
        assert forall|j: int| 0 <= j < n implies (#[trigger] value_pairs(fields@)[j]).0
            != key@ by {
            assert(value_pairs(fields@)[j].0 == fields@[j].0@);
        }
        lemma_lookup_value_at(value_pairs(fields@), key@, n as int);
    }
    None
}

/// First nested field whose name equals `key`, if any.
#[verifier::loop_isolation(false)]
fn find_leaf<'a>(fields: &'a Vec<(String, WireLeaf)>, key: &String) -> (r: Option<&'a WireLeaf>)
    ensures
        match r {
            Some(v) => lookup_leaf(leaf_pairs(fields@), key@) == Some(v@),
            None => lookup_leaf(leaf_pairs(fields@), key@) is None,
        },
{
    let n = fields.len();
    let mut i: usize = 0;
    while i < n
        invariant
            0 <= i <= n,
            forall|j: int| 0 <= j < i ==> (#[trigger] fields@[j]).0@ != key@,
        decreases n - i,
    {
        if fields[i].0 == *key {
            proof {
                assert forall|j: int| 0 <= j < i implies (#[trigger] leaf_pairs(fields@)[j]).0
                    != key@ by {
                    assert(leaf_pairs(fields@)[j].0 == fields@[j].0@);
                }
                lemma_lookup_leaf_at(leaf_pairs(fields@), key@, i as int);
            }
            return Some(&fields[i].1);
        }
        i += 1;
    }
    proof {
        assert forall|j: int| 0 <= j < n implies (#[trigger] leaf_pairs(fields@)[j]).0
            != key@ by {
            assert(leaf_pairs(fields@)[j].0 == fields@[j].0@);
        }
        lemma_lookup_leaf_at(leaf_pairs(fields@), key@, n as int);
    }
    None
}

/// Abstract value of an optional borrowed scalar.
pub open spec fn opt_leaf_view(o: Option<&WireLeaf>) -> Option<LeafModel> {
    match o {
        Option::None => Option::None,
        Option::Some(l) => Option::Some(l@),
    }
}

/// Abstract value of an optional borrowed top-level value.
pub open spec fn opt_value_view(o: Option<&WireValue>) -> Option<ValueModel> {
    match o {
        Option::None => Option::None,
        Option::Some(v) => Option::Some(v@),
    }
}

/// Require a scalar where a top-level value was found.
fn leaf_of_value<'a>(v: Option<&'a WireValue>, f: WireField) -> (r: Result<
    Option<&'a WireLeaf>,
    WireError,
>)
    ensures
        match r {
            Ok(o) => value_leaf(opt_value_view(v), f) == Ok::<Option<LeafModel>, WireError>(
                opt_leaf_view(o),
            ),
            Err(e) => value_leaf(opt_value_view(v), f) == Err::<Option<LeafModel>, WireError>(e),
        },
{
    match v {
        None => Ok(None),
        Some(WireValue::Leaf(l)) => Ok(Some(l)),
        Some(WireValue::Obj(_)) => Err(WireError::InvalidField(f)),
    }
}

/// The bytes an integer array carries, when every element fits a byte.
#[verifier::loop_isolation(false)]
fn int_array_bytes(v: &Vec<i64>) -> (r: Option<Vec<u8>>)
    ensures
        match r {
            Some(b) => bytes_of(v@) == Some(b@),
            None => bytes_of(v@) is None,
        },
{
    let n = v.len();
    let mut out: Vec<u8> = Vec::new();
    let mut i: usize = 0;
    while i < n
        invariant
            0 <= i <= n,
            out@.len() == i,
            forall|j: int| 0 <= j < i ==> 0 <= #[trigger] v@[j] <= 255,
            forall|j: int| 0 <= j < i ==> #[trigger] out@[j] == v@[j] as u8,
        decreases n - i,
    {
        let x = v[i];
        if x < 0 || x > 255 {
            proof {
                lemma_bytes_of_bad(v@, i as int);
            }
            return None;
        }
        out.push(x as u8);
        i += 1;
    }
    proof {
        lemma_bytes_of_ok(v@);
        assert(out@ =~= v@.map_values(|x: i64| x as u8));
    }
    Some(out)
}

/// Build the canonical item from the scalar fields found at one level.
fn item_from_leaves(
    oid_l: Option<&WireLeaf>,
    bytes_l: Option<&WireLeaf>,
    ws_l: Option<&WireLeaf>,
    type_l: Option<&WireLeaf>,
    ov_l: Option<&WireLeaf>,
) -> (r: Result<CreateCollabParams, WireError>)
    ensures
        match r {
            Ok(c) => parse_item_fields(
                opt_leaf_view(oid_l),
                opt_leaf_view(bytes_l),
                opt_leaf_view(ws_l),
                opt_leaf_view(type_l),
                opt_leaf_view(ov_l),
            ) == Ok::<CreateCollabModel, WireError>(c@),
            Err(e) => parse_item_fields(
                opt_leaf_view(oid_l),
                opt_leaf_view(bytes_l),
                opt_leaf_view(ws_l),
                opt_leaf_view(type_l),
                opt_leaf_view(ov_l),
            ) == Err::<CreateCollabModel, WireError>(e),
        },
{
    let object_id = match oid_l {
        None => {
            return Err(WireError::MissingField(WireField::ObjectId));
        },
        Some(WireLeaf::Str(s)) => s.clone(),
        Some(_) => {
            return Err(WireError::InvalidField(WireField::ObjectId));
        },
    };
    let encoded_collab_v1 = match bytes_l {
        None => {
            return Err(WireError::MissingField(WireField::EncodedCollabV1));
        },
        Some(WireLeaf::IntArr(v)) => match int_array_bytes(v) {
            Some(b) => b,
            None => {
                return Err(WireError::InvalidField(WireField::EncodedCollabV1));
            },
        },
        Some(_) => {
            return Err(WireError::InvalidField(WireField::EncodedCollabV1));
        },
    };
    let workspace_id = match ws_l {
        None => {
            return Err(WireError::MissingField(WireField::WorkspaceId));
        },
        Some(WireLeaf::Str(s)) => s.clone(),
        Some(_) => {
            return Err(WireError::InvalidField(WireField::WorkspaceId));
        },
    };
    let collab_type = match type_l {
        None => {
            return Err(WireError::MissingField(WireField::CollabType));
        },
        Some(WireLeaf::Int(c)) => match CollabType::from_code(*c) {
            Some(t) => t,
            None => {
                return Err(WireError::InvalidField(WireField::CollabType));
            },
        },
        Some(_) => {
            return Err(WireError::InvalidField(WireField::CollabType));
        },
    };
    let override_if_exist = match ov_l {
        None => false,
        Some(WireLeaf::Bool(b)) => *b,
        Some(_) => {
            return Err(WireError::InvalidField(WireField::OverrideIfExist));
        },
    };
    Ok(
        CreateCollabParams {
            workspace_id,
            inner: CollabParams {
                object_id,
                encoded_collab_v1,
                collab_type,
                override_if_exist,
            },
        },
    )
}

/// Parse a received document in either accepted shape into the canonical
/// in-memory form.
pub fn from_wire_shape(doc: &WireDoc) -> (r: Result<CreateCollabParams, WireError>)
    ensures
        match r {
            Ok(c) => parse_doc_model(doc@) == Ok::<CreateCollabModel, WireError>(c@),
            Err(e) => parse_doc_model(doc@) == Err::<CreateCollabModel, WireError>(e),
        },
{
    let inner_key = String::from_str("inner");
    match find_value(&doc.fields, &inner_key) {
        Some(WireValue::Obj(inner)) => {
            let oid_l = find_leaf(inner, &String::from_str("object_id"));
            let bytes_l = find_leaf(inner, &String::from_str("encoded_collab_v1"));
            let ws_l = find_leaf(inner, &String::from_str("workspace_id"));
            let type_l = find_leaf(inner, &String::from_str("collab_type"));
            let ov_l = find_leaf(inner, &String::from_str("override_if_exist"));
            item_from_leaves(oid_l, bytes_l, ws_l, type_l, ov_l)
        },
        Some(WireValue::Leaf(_)) => Err(WireError::InvalidField(WireField::Inner)),
        None => {
            let oid_v = find_value(&doc.fields, &String::from_str("object_id"));
            let oid_l = match leaf_of_value(oid_v, WireField::ObjectId) {
                Ok(o) => o,
                Err(e) => {
                    return Err(e);
                },
            };
            let bytes_v = find_value(&doc.fields, &String::from_str("encoded_collab_v1"));
            let bytes_l = match leaf_of_value(bytes_v, WireField::EncodedCollabV1) {
                Ok(o) => o,
                Err(e) => {
                    return Err(e);
                },
            };
            let ws_v = find_value(&doc.fields, &String::from_str("workspace_id"));
            let ws_l = match leaf_of_value(ws_v, WireField::WorkspaceId) {
                Ok(o) => o,
                Err(e) => {
                    return Err(e);
                },
            };
            let type_v = find_value(&doc.fields, &String::from_str("collab_type"));
            let type_l = match leaf_of_value(type_v, WireField::CollabType) {
                Ok(o) => o,
                Err(e) => {
                    return Err(e);
                },
            };
            let ov_v = find_value(&doc.fields, &String::from_str("override_if_exist"));
            let ov_l = match leaf_of_value(ov_v, WireField::OverrideIfExist) {
                Ok(o) => o,
                Err(e) => {
                    return Err(e);
                },
            };
            item_from_leaves(oid_l, bytes_l, ws_l, type_l, ov_l)
        },
    }
}

} // verus!
