//! Models: read-time projections of objects onto named fields.
use crate::assoc::{assoc_map, find_key, is_first_index, lemma_assoc_contains, lemma_assoc_push, lemma_assoc_update};
use crate::error::{Error, Result};
use crate::object::Object;
use crate::value::{Value, ValueView};
use vstd::prelude::*;

verus! {

/// Defines how to project a single field.
#[derive(Debug)]
pub enum FieldProjection {
    /// Include a direct field
    Direct { field: String },
    /// Include a nested field from a reference (e.g., order.customer.name)
    Nested { reference_field: String, nested_field: String },
}

/// The mathematical content of a projection.
pub enum ProjectionView {
    Direct { field: Seq<char> },
    Nested { reference_field: Seq<char>, nested_field: Seq<char> },
}

impl View for FieldProjection {
    type V = ProjectionView;

    open spec fn view(&self) -> ProjectionView {
        match self {
            FieldProjection::Direct { field } => ProjectionView::Direct { field: field@ },
            FieldProjection::Nested { reference_field, nested_field } => ProjectionView::Nested {
                reference_field: reference_field@,
                nested_field: nested_field@,
            },
        }
    }
}

/// A projection/view of objects: which fields of a base type to include,
/// possibly through references.
#[derive(Debug)]
pub struct Model {
    /// Name of the model
    pub name: String,
    /// The object type this model projects from
    pub base_type: String,
    /// Field projections: projection name and projection spec
    pub fields: Vec<(String, FieldProjection)>,
}

/// The (name, projection) entries of a model, by their views.
pub open spec fn projection_entries(v: Seq<(String, FieldProjection)>) -> Seq<(Seq<char>, ProjectionView)> {
    v.map_values(|p: (String, FieldProjection)| (p.0@, p.1@))
}

/// The projections of a model, by name.
pub open spec fn model_fields(m: Model) -> Map<Seq<char>, ProjectionView> {
    assoc_map(projection_entries(m.fields@))
}

impl Model {
    /// Create a new model with no projections.
    pub fn new(name: &str, base_type: &str) -> (r: Self)
        ensures
            r.name@ == name@,
            r.base_type@ == base_type@,
            model_fields(r) == Map::<Seq<char>, ProjectionView>::empty(),
            r.fields@.len() == 0,
    {
        let r = Self { name: name.to_owned(), base_type: base_type.to_owned(), fields: Vec::new() };
        assert(projection_entries(r.fields@) =~= Seq::empty());
        r
    }

    fn insert_projection(self, projection_name: &str, projection: FieldProjection) -> (r: Self)
        ensures
            r.name == self.name,
            r.base_type == self.base_type,
            model_fields(r) == model_fields(self).insert(projection_name@, projection@),
    {
        let mut s = self;
        let ghost entries = projection_entries(s.fields@);
        match find_key(&s.fields, projection_name) {
            Some(i) => {
                proof {
                    assert(is_first_index(entries, projection_name@, i as int));
                    lemma_assoc_update(entries, projection_name@, i as int, projection@);
                }
                let key = s.fields[i].0.clone();
                s.fields.set(i, (key, projection));
                assert(projection_entries(s.fields@) =~= entries.update(
                    i as int,
                    (projection_name@, projection@),
                ));
            },
            None => {
                proof {
                    lemma_assoc_contains(entries, projection_name@);
                    lemma_assoc_push(entries, projection_name@, projection@);
                }
                s.fields.push((projection_name.to_owned(), projection));
                assert(projection_entries(s.fields@) =~= entries.push(
                    (projection_name@, projection@),
                ));
            },
        }
        s
    }

    /// Add a direct field projection.
    pub fn add_field(self, projection_name: &str, field: &str) -> (r: Self)
        ensures
            r.name == self.name,
            r.base_type == self.base_type,
            model_fields(r) == model_fields(self).insert(
                projection_name@,
                ProjectionView::Direct { field: field@ },
            ),
    {
        self.insert_projection(projection_name, FieldProjection::Direct { field: field.to_owned() })
    }

    /// Add a nested field projection (e.g., for order.customer.name).
    pub fn add_nested_field(self, projection_name: &str, reference_field: &str, nested_field: &str) -> (r:
        Self)
        ensures
            r.name == self.name,
            r.base_type == self.base_type,
            model_fields(r) == model_fields(self).insert(
                projection_name@,
                ProjectionView::Nested {
                    reference_field: reference_field@,
                    nested_field: nested_field@,
                },
            ),
    {
        self.insert_projection(
            projection_name,
            FieldProjection::Nested {
                reference_field: reference_field.to_owned(),
                nested_field: nested_field.to_owned(),
            },
        )
    }

    /// Validate the model definition: it needs a name, a base type and at
    /// least one field.
    pub fn validate(&self) -> (r: Result<()>)
        ensures
            r is Ok <==> (self.name@.len() > 0 && self.base_type@.len() > 0 && model_fields(
                *self,
            ).dom().len() > 0),
            r matches Err(e) ==> e is ModelError,
    {
        proof {
            crate::assoc::lemma_assoc_finite(projection_entries(self.fields@));
            if self.fields@.len() > 0 {
                lemma_assoc_contains(projection_entries(self.fields@), projection_entries(self.fields@)[0].0);
                assert(model_fields(*self).dom().contains(projection_entries(self.fields@)[0].0));
            } else {
                assert(model_fields(*self).dom() =~= Set::empty());
            }
        }
        if self.name.as_str().is_empty() {
            return Err(Error::ModelError { reason: "Model name cannot be empty".to_owned() });
        }
        if self.base_type.as_str().is_empty() {
            return Err(Error::ModelError { reason: "Base type cannot be empty".to_owned() });
        }
        if self.fields.len() == 0 {
            return Err(Error::ModelError { reason: "Model must have at least one field".to_owned() });
        }
        Ok(())
    }
}

/// The value a projected field takes from an object's field: the field's
/// value, or Null when the object lacks it.
pub open spec fn field_or_null(fields: Map<Seq<char>, ValueView>, name: Seq<char>) -> ValueView {
    if fields.contains_key(name) {
        fields[name]
    } else {
        ValueView::Null
    }
}

/// Projects objects according to a model.
pub struct ModelProjector;

impl ModelProjector {
    /// Project an object using a model: for each projection, in model order,
    /// its name and value. A direct projection takes the object's field; a
    /// nested one follows the object's reference field through `resolve_reference`
    /// and takes the nested field of the object it resolves to. Whatever is
    /// missing (the field, a reference, a resolved object) projects as Null.
    pub fn project<F: Fn(&str) -> Result<Option<Object>>>(
        obj: &Object,
        model: &Model,
        resolve_reference: F,
    ) -> (r: Result<Vec<(String, Value)>>)
        requires
            forall|s: &str| call_requires(resolve_reference, (s,)),
        ensures
            r matches Ok(out) && out@.len() == model.fields@.len() && forall|i: int|
                0 <= i < out@.len() ==> {
                    &&& (#[trigger] out@[i]).0@ == model.fields@[i].0@
                    &&& match model.fields@[i].1@ {
                        ProjectionView::Direct { field } => out@[i].1@ == field_or_null(
                            obj@.fields,
                            field,
                        ),
                        ProjectionView::Nested { reference_field, nested_field } => match field_or_null(
                            obj@.fields,
                            reference_field,
                        ) {
                            ValueView::Ref(rs) => exists|s: &str, res: Result<Option<Object>>|
                                #[trigger] call_ensures(resolve_reference, (s,), res) && s@ == rs
                                    && out@[i].1@ == match res {
                                    Ok(Some(o2)) => field_or_null(o2@.fields, nested_field),
                                    _ => ValueView::Null,
                                },
                            _ => out@[i].1@ is Null,
                        },
                    }
                },
    {
        let mut result: Vec<(String, Value)> = Vec::new();
        let mut i: usize = 0;
        while i < model.fields.len()
            invariant
                i <= model.fields@.len(),
                result@.len() == i,
                forall|s: &str| call_requires(resolve_reference, (s,)),
                forall|j: int|
                    0 <= j < i ==> {
                        &&& (#[trigger] result@[j]).0@ == model.fields@[j].0@
                        &&& match model.fields@[j].1@ {
                            ProjectionView::Direct { field } => result@[j].1@ == field_or_null(
                                obj@.fields,
                                field,
                            ),
                            ProjectionView::Nested { reference_field, nested_field } => match field_or_null(
                                obj@.fields,
                                reference_field,
                            ) {
                            ValueView::Ref(rs) => exists|s: &str, res: Result<Option<Object>>|
                                #[trigger] call_ensures(resolve_reference, (s,), res) && s@ == rs
                                    && result@[j].1@ == match res {
                                    Ok(Some(o2)) => field_or_null(o2@.fields, nested_field),
                                    _ => ValueView::Null,
                                },
                                _ => result@[j].1@ is Null,
                            },
                        }
                    },
            decreases model.fields@.len() - i,
        {
            let proj_name = model.fields[i].0.clone();
            let value = match &model.fields[i].1 {
                FieldProjection::Direct { field } => match obj.get_field(field.as_str()) {
                    Some(v) => v.clone(),
                    None => Value::Null,
                },
                FieldProjection::Nested { reference_field, nested_field } => {
                    match obj.get_field(reference_field.as_str()) {
                        Some(Value::Reference(ref_str)) => {
                            let resolved = resolve_reference(ref_str.as_str());
                            match resolved {
                                Ok(Some(ref_obj)) => match ref_obj.get_field(nested_field.as_str()) {
                                    Some(v) => v.clone(),
                                    None => Value::Null,
                                },
                                _ => Value::Null,
                            }
                        },
                        _ => Value::Null,
                    }
                },
            };
            result.push((proj_name, value));
            i = i + 1;
        }
        Ok(result)
    }
}

} // verus!
