use vstd::prelude::*;
use crate::json::{Json, member, is_i64, lemma_member_decreases};
use crate::pointer::{resolution, resolve};

verus! {

/// Why a document was rejected. Validation stops at the first violation.
#[derive(Debug, PartialEq, Eq)]
pub enum ValidationError {
    /// The schema has no `properties` object.
    SchemaMalformed,
    /// The document, or a value checked against a referenced fragment, is not an object.
    DataTypeMismatch,
    /// The named field is present but not of its declared type.
    FieldTypeMismatch(String),
    /// The named field is required but absent.
    MissingRequiredField(String),
    /// The named field declares a constraint that is not supported.
    UnsupportedType(String),
    /// The pointer addresses nothing in the schema.
    ReferenceResolutionFailed(String),
}

/// The constraint that a schema declares for one field.
#[derive(Debug)]
pub enum FieldKind {
    /// `"type": "integer"`
    Integer,
    /// `"type": "string"`
    Text,
    /// A `$ref` member holding a pointer into the schema.
    Reference(String),
    /// Anything else.
    Unknown,
}

/// The constraint of a field schema: a `$ref` member makes it a reference (a pointer that is
/// not a string is not understood); otherwise its `type` tag decides.
pub open spec fn kind_of(fs: Json) -> FieldKind {
    match member(fs, "$ref"@) {
        Some(Json::Str(p)) => FieldKind::Reference(p),
        Some(_) => FieldKind::Unknown,
        None => match member(fs, "type"@) {
            Some(Json::Str(t)) => if t@ == "integer"@ {
                FieldKind::Integer
            } else if t@ == "string"@ {
                FieldKind::Text
            } else {
                FieldKind::Unknown
            },
            _ => FieldKind::Unknown,
        },
    }
}

/// Whether the schema's `required` list names `key`.
pub open spec fn is_required(schema: Json, key: Seq<char>) -> bool {
    match member(schema, "required"@) {
        Some(Json::Array(items)) => exists|j: int|
            0 <= j < items@.len() && (#[trigger] items@[j] matches Json::Str(s) && s@ == key),
        _ => false,
    }
}

/// The outcome of checking the field `key`, declared by `fs` in `schema`, against `data`.
pub open spec fn field_outcome(schema: Json, key: String, fs: Json, data: Json) -> Result<
    (),
    ValidationError,
>
    decreases data, 0nat, 0nat,
    via field_outcome_decreases
{
    match member(data, key@) {
        Some(value) => match kind_of(fs) {
            FieldKind::Integer => if is_i64(value) {
                Ok(())
            } else {
                Err(ValidationError::FieldTypeMismatch(key))
            },
            FieldKind::Text => if value is Str {
                Ok(())
            } else {
                Err(ValidationError::FieldTypeMismatch(key))
            },
            FieldKind::Reference(p) => match resolution(schema, p@) {
                Some(frag) => validation(frag, value),
                None => Err(ValidationError::ReferenceResolutionFailed(p)),
            },
            FieldKind::Unknown => Err(ValidationError::UnsupportedType(key)),
        },
        None => if is_required(schema, key@) {
            Err(ValidationError::MissingRequiredField(key))
        } else {
            Ok(())
        },
    }
}

#[via_fn]
proof fn field_outcome_decreases(schema: Json, key: String, fs: Json, data: Json) {
    if member(data, key@) is Some {
        lemma_member_decreases(data, key@);
    }
}

/// The outcome of checking the fields `props[i..]` in order: the first failure, if any.
pub open spec fn fields_outcome(
    schema: Json,
    props: Seq<(String, Json)>,
    data: Json,
    i: nat,
) -> Result<(), ValidationError>
    decreases data, 0nat, props.len() - i + 1,
{
    if i >= props.len() {
        Ok(())
    } else {
        match field_outcome(schema, props[i as int].0, props[i as int].1, data) {
            Ok(()) => fields_outcome(schema, props, data, i + 1),
            Err(e) => Err(e),
        }
    }
}

/// The outcome of validating `data` against `schema`: the schema must carry a `properties`
/// object and the document must be an object; then its fields are checked in the order in
/// which the schema declares them.
pub open spec fn validation(schema: Json, data: Json) -> Result<(), ValidationError>
    decreases data, 1nat, 0nat,
{
    match member(schema, "properties"@) {
        Some(Json::Object(props)) => match data {
            Json::Object(_) => fields_outcome(schema, props@, data, 0),
            _ => Err(ValidationError::DataTypeMismatch),
        },
        _ => Err(ValidationError::SchemaMalformed),
    }
}

/// Reads the constraint that the field schema `fs` declares.
pub fn classify(fs: &Json) -> (r: FieldKind)
    ensures
        r == kind_of(*fs),
{
    match fs.get("$ref") {
        Some(Json::Str(p)) => FieldKind::Reference(p.clone()),
        Some(_) => FieldKind::Unknown,
        None => match fs.get("type") {
            Some(Json::Str(t)) => {
                let integer = "integer".to_owned();
                let string = "string".to_owned();
                if *t == integer {
                    FieldKind::Integer
                } else if *t == string {
                    FieldKind::Text
                } else {
                    FieldKind::Unknown
                }
            },
            _ => FieldKind::Unknown,
        },
    }
}

/// Whether the `required` list of `schema` names `key`.
pub fn requires_field(schema: &Json, key: &String) -> (r: bool)
    ensures
        r == is_required(*schema, key@),
{
    match schema.get("required") {
        Some(Json::Array(items)) => {
            let mut j: usize = 0;
            while j < items.len()
                invariant
                    j <= items@.len(),
                    member(*schema, "required"@) == Some(Json::Array(*items)),
                    forall|k: int|
                        0 <= k < j ==> !(#[trigger] items@[k] matches Json::Str(s) && s@ == key@),
                decreases items.len() - j,
            {
                if let Json::Str(s) = &items[j] {
                    if *s == *key {
                        assert(items@[j as int] matches Json::Str(s) && s@ == key@);
                        return true;
                    }
                }
                j = j + 1;
            }
            false
        },
        _ => false,
    }
}

/// Validates `data` against `schema`, stopping at the first violation.
///
/// A reference is followed only into the value of a field of `data`, so each nested call
/// works on a strict part of the document: however the schema's references chain or loop,
/// the nesting never exceeds the depth of the document.
pub fn validate_node(schema: &Json, data: &Json) -> (r: Result<(), ValidationError>)
    ensures
        r == validation(*schema, *data),
    decreases *data,
{
    let props = match schema.get("properties") {
        Some(Json::Object(props)) => props,
        _ => {
            return Err(ValidationError::SchemaMalformed);
        },
    };
    if !matches!(data, Json::Object(_)) {
        return Err(ValidationError::DataTypeMismatch);
    }
    let mut i: usize = 0;
    while i < props.len()
        invariant
            i <= props@.len(),
            member(*schema, "properties"@) == Some(Json::Object(*props)),
            *data is Object,
            validation(*schema, *data) == fields_outcome(*schema, props@, *data, i as nat),
        decreases props.len() - i,
    {
        let key = &props[i].0;
        let fs = &props[i].1;
        match data.get(key.as_str()) {
            Some(value) => {
                match classify(fs) {
                    FieldKind::Integer => {
                        if value.as_i64().is_none() {
                            assert(!is_i64(*value));
                            assert(field_outcome(*schema, *key, *fs, *data) is Err);
                            return Err(ValidationError::FieldTypeMismatch(key.clone()));
                        }
                    },
                    FieldKind::Text => {
                        if value.as_str().is_none() {
                            return Err(ValidationError::FieldTypeMismatch(key.clone()));
                        }
                    },
                    FieldKind::Reference(p) => {
                        match resolve(schema, p.as_str()) {
                            Some(frag) => {
                                proof {
                                    lemma_member_decreases(*data, key@);
                                }
                                let nested = validate_node(frag, value);
                                assert(field_outcome(*schema, *key, *fs, *data) == nested);
                                if nested.is_err() {
                                    return nested;
                                }
                            },
                            None => {
                                return Err(ValidationError::ReferenceResolutionFailed(p));
                            },
                        }
                    },
                    FieldKind::Unknown => {
                        return Err(ValidationError::UnsupportedType(key.clone()));
                    },
                }
            },
            None => {
                if requires_field(schema, key) {
                    return Err(ValidationError::MissingRequiredField(key.clone()));
                }
            },
        }
        i = i + 1;
    }
    Ok(())
}

/// A loaded schema, ready to check documents against. The schema is never changed after
/// construction, so one validator can serve any number of checks.
pub struct Validator {
    schema: Json,
}

impl Validator {
    /// The schema this validator checks against.
    pub closed spec fn schema_value(&self) -> Json {
        self.schema
    }

    pub fn new(schema: Json) -> (r: Validator)
        ensures
            r.schema_value() == schema,
    {
        Validator { schema }
    }

    pub fn schema(&self) -> (r: &Json)
        ensures
            *r == self.schema_value(),
    {
        &self.schema
    }

    /// Checks `data` against the schema, reporting the first violation in the order in which
    /// the schema declares its fields.
    pub fn validate(&self, data: &Json) -> (r: Result<(), ValidationError>)
        ensures
            r == validation(self.schema_value(), *data),
    {
        validate_node(&self.schema, data)
    }
}

/// The declared fields of a schema, in order; empty where it has no `properties` object.
pub open spec fn properties_of(schema: Json) -> Seq<(String, Json)> {
    match member(schema, "properties"@) {
        Some(Json::Object(props)) => props@,
        _ => Seq::empty(),
    }
}

/// Whether a schema carries a `properties` object.
pub open spec fn has_properties(schema: Json) -> bool {
    member(schema, "properties"@) matches Some(Json::Object(_))
}

/// Whether every field declared before position `i` passes.
pub open spec fn earlier_fields_pass(schema: Json, data: Json, i: int) -> bool {
    forall|j: int|
        0 <= j < i ==> (#[trigger] field_outcome(
            schema,
            properties_of(schema)[j].0,
            properties_of(schema)[j].1,
            data,
        )) is Ok
}

proof fn lemma_fields_skip(schema: Json, props: Seq<(String, Json)>, data: Json, k: nat, i: nat)
    requires
        k <= i <= props.len(),
        forall|j: int| k <= j < i ==> (#[trigger] field_outcome(schema, props[j].0, props[j].1, data)) is Ok,
    ensures
        fields_outcome(schema, props, data, k) == fields_outcome(schema, props, data, i),
    decreases i - k,
{
    if k < i {
        assert(field_outcome(schema, props[k as int].0, props[k as int].1, data) is Ok);
        lemma_fields_skip(schema, props, data, k + 1, i);
    }
}

/// Where every field declared before position `i` passes and field `i` fails, validation
/// reports field `i`'s failure: fields are checked in declaration order and the first
/// failure ends the check.
pub proof fn lemma_first_failure(schema: Json, data: Json, i: int)
    requires
        has_properties(schema),
        data is Object,
        0 <= i < properties_of(schema).len(),
        earlier_fields_pass(schema, data, i),
        field_outcome(schema, properties_of(schema)[i].0, properties_of(schema)[i].1, data) is Err,
    ensures
        validation(schema, data) == field_outcome(
            schema,
            properties_of(schema)[i].0,
            properties_of(schema)[i].1,
            data,
        ),
{
    let props = properties_of(schema);
    lemma_fields_skip(schema, props, data, 0, i as nat);
}

/// A schema whose `properties` object is empty accepts every object, whatever it holds.
pub proof fn lemma_empty_properties_accept(schema: Json, data: Json)
    requires
        has_properties(schema),
        properties_of(schema).len() == 0,
        data is Object,
    ensures
        validation(schema, data) == Ok::<(), ValidationError>(()),
{
}

/// A required field that the document lacks is reported by name, whatever later fields
/// lack too, once the fields declared before it pass.
pub proof fn lemma_missing_required_reported(schema: Json, data: Json, i: int)
    requires
        has_properties(schema),
        data is Object,
        0 <= i < properties_of(schema).len(),
        is_required(schema, properties_of(schema)[i].0@),
        member(data, properties_of(schema)[i].0@) is None,
        earlier_fields_pass(schema, data, i),
    ensures
        validation(schema, data) == Err::<(), ValidationError>(
            ValidationError::MissingRequiredField(properties_of(schema)[i].0),
        ),
{
    lemma_first_failure(schema, data, i);
}

/// A field declared `integer` whose value is anything but an integer within `i64` (text, a
/// fraction, a boolean, null, an array, an object) is reported as mistyped, once the fields
/// declared before it pass.
pub proof fn lemma_integer_mismatch_reported(schema: Json, data: Json, i: int)
    requires
        has_properties(schema),
        data is Object,
        0 <= i < properties_of(schema).len(),
        kind_of(properties_of(schema)[i].1) == FieldKind::Integer,
        member(data, properties_of(schema)[i].0@) matches Some(v) && !is_i64(v),
        earlier_fields_pass(schema, data, i),
    ensures
        validation(schema, data) == Err::<(), ValidationError>(
            ValidationError::FieldTypeMismatch(properties_of(schema)[i].0),
        ),
{
    lemma_first_failure(schema, data, i);
}

/// Validation depends on the schema and the document alone: checking the same pair twice
/// gives the same outcome.
pub proof fn lemma_validation_repeatable(schema1: Json, data1: Json, schema2: Json, data2: Json)
    requires
        schema1 == schema2,
        data1 == data2,
    ensures
        validation(schema1, data1) == validation(schema2, data2),
{
}

} // verus!
