//! Validation of objects against schemas.
use crate::error::{Error, Result};
use crate::object::Object;
use crate::schema::{field_type_name, FieldDef, FieldDefView, FieldType, Schema};
use crate::value::{value_type_name, Value, ValueView};
use vstd::prelude::*;

verus! {

/// Whether a value may be stored in a field of a type; an Integer may stand
/// for a Float.
pub open spec fn value_matches_type_spec(v: ValueView, t: FieldType) -> bool {
    match t {
        FieldType::String => v is Str,
        FieldType::Integer => v is Int,
        FieldType::Float => v is Float || v is Int,
        FieldType::Boolean => v is Bool,
        FieldType::Reference => v is Ref,
    }
}

/// The ways a field's value can break its definition.
pub enum FieldViolation {
    RequiredMissing,
    NotNullable,
    Mismatch,
}

/// How the value of a field (None when the object lacks it) breaks the
/// field's definition, if it does: a required field missing or null, a null
/// in a field that is not nullable, or a value of the wrong type.
pub open spec fn field_violation(def: FieldDefView, v: Option<ValueView>) -> Option<FieldViolation> {
    if def.required && (v is None || v == Some(ValueView::Null)) {
        Some(FieldViolation::RequiredMissing)
    } else {
        match v {
            Some(ValueView::Null) => if !def.nullable {
                Some(FieldViolation::NotNullable)
            } else {
                None
            },
            Some(x) => if !value_matches_type_spec(x, def.field_type) {
                Some(FieldViolation::Mismatch)
            } else {
                None
            },
            None => None,
        }
    }
}

/// The value an object holds for a field name, if any.
pub open spec fn field_value(fields: Map<Seq<char>, ValueView>, name: Seq<char>) -> Option<ValueView> {
    if fields.contains_key(name) {
        Some(fields[name])
    } else {
        None
    }
}

/// The error that validation reports for a field's violation.
pub open spec fn violation_error(e: Error, def: FieldDefView, v: Option<ValueView>, kind: FieldViolation) -> bool {
    match kind {
        FieldViolation::RequiredMissing => e matches Error::RequiredFieldMissing { field } && field@
            == def.name,
        FieldViolation::NotNullable => e matches Error::FieldNotNullable { field } && field@
            == def.name,
        FieldViolation::Mismatch => e matches Error::TypeMismatch { field, expected, actual } && field@
            == def.name && expected@ == field_type_name(def.field_type) && actual@ == value_type_name(
            v->0,
        ),
    }
}

/// Validates objects against schemas.
pub struct Validator;

impl Validator {
    /// Validate an object against a schema: every schema field, in schema
    /// order, must be satisfied by the object's value for it; the first field
    /// that is not gives the error.
    pub fn validate(obj: &Object, schema: &Schema) -> (r: Result<()>)
        ensures
            match r {
                Ok(()) => forall|i: int|
                    0 <= i < schema.fields@.len() ==> field_violation(
                        #[trigger] schema.fields@[i]@,
                        field_value(obj@.fields, schema.fields@[i].name@),
                    ) is None,
                Err(e) => exists|i: int|
                    #![trigger schema.fields@[i]]
                    0 <= i < schema.fields@.len() && (forall|j: int|
                        0 <= j < i ==> field_violation(
                            #[trigger] schema.fields@[j]@,
                            field_value(obj@.fields, schema.fields@[j].name@),
                        ) is None) && match field_violation(
                        schema.fields@[i]@,
                        field_value(obj@.fields, schema.fields@[i].name@),
                    ) {
                        Some(kind) => violation_error(
                            e,
                            schema.fields@[i]@,
                            field_value(obj@.fields, schema.fields@[i].name@),
                            kind,
                        ),
                        None => false,
                    },
            },
    {
        let mut i: usize = 0;
        while i < schema.fields.len()
            invariant
                i <= schema.fields@.len(),
                forall|j: int|
                    0 <= j < i ==> field_violation(
                        #[trigger] schema.fields@[j]@,
                        field_value(obj@.fields, schema.fields@[j].name@),
                    ) is None,
            decreases schema.fields@.len() - i,
        {
            let field_def = &schema.fields[i];
            let value = obj.get_field(field_def.name.as_str());
            // Check required fields
            let missing = match value {
                None => true,
                Some(v) => v.is_null(),
            };
            if field_def.required && missing {
                return Err(Error::RequiredFieldMissing { field: field_def.name.clone() });
            }
            match value {
                Some(Value::Null) => {
                    if !field_def.nullable {
                        return Err(Error::FieldNotNullable { field: field_def.name.clone() });
                    }
                },
                Some(val) => {
                    Self::validate_field_type(field_def.name.as_str(), val, field_def)?;
                },
                None => {},
            }
            i = i + 1;
        }
        Ok(())
    }

    /// Validate a single field value against its field definition.
    fn validate_field_type(field_name: &str, value: &Value, field_def: &FieldDef) -> (r: Result<()>)
        ensures
            value_matches_type_spec(value@, field_def.field_type) ==> r is Ok,
            !value_matches_type_spec(value@, field_def.field_type) ==> (r matches Err(
                Error::TypeMismatch { field, expected, actual },
            ) && field@ == field_name@ && expected@ == field_type_name(field_def.field_type)
                && actual@ == value_type_name(value@)),
    {
        if Self::value_matches_type(value, field_def.field_type) {
            Ok(())
        } else {
            Err(
                Error::TypeMismatch {
                    field: field_name.to_owned(),
                    expected: field_def.field_type.as_str().to_owned(),
                    actual: value.typename().to_owned(),
                },
            )
        }
    }

    /// Check if a value matches a field type.
    pub fn value_matches_type(value: &Value, field_type: FieldType) -> (r: bool)
        ensures
            r == value_matches_type_spec(value@, field_type),
    {
        match field_type {
            FieldType::String => match value {
                Value::String(_) => true,
                _ => false,
            },
            FieldType::Integer => match value {
                Value::Integer(_) => true,
                _ => false,
            },
            FieldType::Float => match value {
                Value::Float(_) | Value::Integer(_) => true,
                _ => false,
            },
            FieldType::Boolean => match value {
                Value::Boolean(_) => true,
                _ => false,
            },
            FieldType::Reference => match value {
                Value::Reference(_) => true,
                _ => false,
            },
        }
    }
}

/// Each field type admits values of its own kind only: text in a String
/// field, integers in an Integer field, floats or integers in a Float field,
/// booleans in a Boolean field and references in a Reference field.
pub proof fn lemma_field_types_admit_their_kind(v: ValueView)
    ensures
        value_matches_type_spec(v, FieldType::String) <==> v is Str,
        value_matches_type_spec(v, FieldType::Integer) <==> v is Int,
        value_matches_type_spec(v, FieldType::Float) <==> (v is Float || v is Int),
        value_matches_type_spec(v, FieldType::Boolean) <==> v is Bool,
        value_matches_type_spec(v, FieldType::Reference) <==> v is Ref,
        !value_matches_type_spec(ValueView::Null, FieldType::String),
{
}

/// A value that is not null breaks a field's definition by its type exactly
/// when the field type does not admit its kind; so an integer in a Boolean
/// field, for instance, is a type mismatch, and a boolean there is not.
pub proof fn lemma_mismatch_by_kind(def: FieldDefView, x: ValueView)
    requires
        !(x is Null),
    ensures
        (field_violation(def, Some(x)) matches Some(FieldViolation::Mismatch)) <==> !value_matches_type_spec(
            x,
            def.field_type,
        ),
        def.field_type == FieldType::Boolean ==> ((field_violation(def, Some(x)) matches Some(
            FieldViolation::Mismatch,
        )) <==> !(x is Bool)),
        def.field_type == FieldType::Integer ==> ((field_violation(def, Some(x)) matches Some(
            FieldViolation::Mismatch,
        )) <==> !(x is Int)),
        def.field_type == FieldType::String ==> ((field_violation(def, Some(x)) matches Some(
            FieldViolation::Mismatch,
        )) <==> !(x is Str)),
        def.field_type == FieldType::Reference ==> ((field_violation(def, Some(x)) matches Some(
            FieldViolation::Mismatch,
        )) <==> !(x is Ref)),
        def.field_type == FieldType::Float ==> ((field_violation(def, Some(x)) matches Some(
            FieldViolation::Mismatch,
        )) <==> !(x is Float || x is Int)),
{
}

} // verus!

