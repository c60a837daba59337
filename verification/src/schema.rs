//! Schemas: the fields, types and constraints of an object type, and the
//! physical layout compiled from them.
use crate::assoc::{assoc_map, is_first_index, lemma_assoc_contains, lemma_assoc_first, lemma_assoc_push, lemma_assoc_update};
use crate::error::{Error, Result};
use crate::text::join3;
use vstd::prelude::*;

verus! {

/// The types that a field can have in a schema.
#[derive(Debug, Clone, Copy, PartialEq, Eq, Structural)]
pub enum FieldType {
    /// String type
    String,
    /// Integer type (64-bit signed)
    Integer,
    /// Float type (64-bit)
    Float,
    /// Boolean type
    Boolean,
    /// Reference type (points to another object)
    Reference,
}

/// The name of a field type.
pub open spec fn field_type_name(t: FieldType) -> Seq<char> {
    match t {
        FieldType::String => "String"@,
        FieldType::Integer => "Integer"@,
        FieldType::Float => "Float"@,
        FieldType::Boolean => "Boolean"@,
        FieldType::Reference => "Reference"@,
    }
}

impl FieldType {
    pub fn as_str(&self) -> (r: &'static str)
        ensures
            r@ == field_type_name(*self),
    {
        match self {
            FieldType::String => "String",
            FieldType::Integer => "Integer",
            FieldType::Float => "Float",
            FieldType::Boolean => "Boolean",
            FieldType::Reference => "Reference",
        }
    }
}

/// Definition of a single field in an object schema.
#[derive(Debug)]
pub struct FieldDef {
    /// Field name
    pub name: String,
    /// Field type
    pub field_type: FieldType,
    /// Whether this field is required (must have a value)
    pub required: bool,
    /// Whether this field can be null
    pub nullable: bool,
    /// Default value (if any)
    pub default: Option<String>,
    /// For Reference types, the target object type
    pub reference_type: Option<String>,
}

/// The mathematical content of a field definition.
pub struct FieldDefView {
    pub name: Seq<char>,
    pub field_type: FieldType,
    pub required: bool,
    pub nullable: bool,
    pub default: Option<Seq<char>>,
    pub reference_type: Option<Seq<char>>,
}

/// The view of an optional string.
pub open spec fn opt_view(o: Option<String>) -> Option<Seq<char>> {
    match o {
        Some(s) => Some(s@),
        None => None,
    }
}

impl View for FieldDef {
    type V = FieldDefView;

    open spec fn view(&self) -> FieldDefView {
        FieldDefView {
            name: self.name@,
            field_type: self.field_type,
            required: self.required,
            nullable: self.nullable,
            default: opt_view(self.default),
            reference_type: opt_view(self.reference_type),
        }
    }
}

fn clone_opt_string(o: &Option<String>) -> (r: Option<String>)
    ensures
        r == *o,
{
    match o {
        Some(s) => Some(s.clone()),
        None => None,
    }
}

impl Clone for FieldDef {
    fn clone(&self) -> (r: Self)
        ensures
            r == *self,
    {
        FieldDef {
            name: self.name.clone(),
            field_type: self.field_type,
            required: self.required,
            nullable: self.nullable,
            default: clone_opt_string(&self.default),
            reference_type: clone_opt_string(&self.reference_type),
        }
    }
}

impl FieldDef {
    /// Create a new field definition: optional, not nullable, no default and
    /// no reference target.
    pub fn new(name: &str, field_type: FieldType) -> (r: Self)
        ensures
            r@ == (FieldDefView {
                name: name@,
                field_type,
                required: false,
                nullable: false,
                default: None,
                reference_type: None,
            }),
    {
        Self {
            name: name.to_owned(),
            field_type,
            required: false,
            nullable: false,
            default: None,
            reference_type: None,
        }
    }

    /// Mark this field as required.
    pub fn required(self) -> (r: Self)
        ensures
            r@ == (FieldDefView { required: true, ..self@ }),
    {
        let mut s = self;
        s.required = true;
        s
    }

    /// Mark this field as nullable.
    pub fn nullable(self) -> (r: Self)
        ensures
            r@ == (FieldDefView { nullable: true, ..self@ }),
    {
        let mut s = self;
        s.nullable = true;
        s
    }

    /// Set reference target type (for Reference fields).
    pub fn references(self, target_type: &str) -> (r: Self)
        ensures
            r@ == (FieldDefView { reference_type: Some(target_type@), ..self@ }),
    {
        let mut s = self;
        s.reference_type = Some(target_type.to_owned());
        s
    }

    /// Set a default value.
    pub fn with_default(self, default: &str) -> (r: Self)
        ensures
            r@ == (FieldDefView { default: Some(default@), ..self@ }),
    {
        let mut s = self;
        s.default = Some(default.to_owned());
        s
    }
}

/// Stable field identifier used in physical storage layouts: the position of
/// the field in schema order, counting from 1.
#[derive(Debug, Clone, Copy, PartialEq, Eq, PartialOrd, Ord, Structural)]
pub struct FieldId(pub u16);

impl FieldId {
    pub fn new(id: u16) -> (r: Self)
        ensures
            r.0 == id,
    {
        Self(id)
    }

    pub fn as_u16(self) -> (r: u16)
        ensures
            r == self.0,
    {
        self.0
    }
}

/// Schema definition for an object type.
#[derive(Debug)]
pub struct Schema {
    /// Name of the object type (e.g., "Customer", "Order")
    pub name: String,
    /// Schema version; bump when field meaning or layout changes.
    pub schema_version: u32,
    /// Field definitions in schema order; their position gives their field id.
    pub fields: Vec<FieldDef>,
}

/// The (name, definition) entries of a list of field definitions.
pub open spec fn field_entries_of(fields: Seq<FieldDef>) -> Seq<(Seq<char>, FieldDefView)> {
    fields.map_values(|f: FieldDef| (f.name@, f@))
}

/// The field names in schema order.
pub open spec fn field_order_of(fields: Seq<FieldDef>) -> Seq<Seq<char>> {
    fields.map_values(|f: FieldDef| f.name@)
}

/// The mathematical content of a schema.
pub struct SchemaView {
    pub name: Seq<char>,
    pub schema_version: u32,
    pub fields: Map<Seq<char>, FieldDefView>,
    pub field_order: Seq<Seq<char>>,
}

impl View for Schema {
    type V = SchemaView;

    open spec fn view(&self) -> SchemaView {
        SchemaView {
            name: self.name@,
            schema_version: self.schema_version,
            fields: assoc_map(field_entries_of(self.fields@)),
            field_order: field_order_of(self.fields@),
        }
    }
}

/// Copies a list of field definitions.
pub fn copy_field_defs(v: &Vec<FieldDef>) -> (r: Vec<FieldDef>)
    ensures
        r@ == v@,
{
    let mut r: Vec<FieldDef> = Vec::new();
    let mut i: usize = 0;
    while i < v.len()
        invariant
            i <= v@.len(),
            r@ == v@.take(i as int),
        decreases v@.len() - i,
    {
        r.push(v[i].clone());
        i = i + 1;
        assert(r@ =~= v@.take(i as int));
    }
    assert(v@.take(v@.len() as int) =~= v@);
    r
}

impl Clone for Schema {
    fn clone(&self) -> (r: Self)
        ensures
            r.name == self.name,
            r.schema_version == self.schema_version,
            r.fields@ == self.fields@,
    {
        Schema {
            name: self.name.clone(),
            schema_version: self.schema_version,
            fields: copy_field_defs(&self.fields),
        }
    }
}

/// The schema error a field definition gives, if any: a Reference field
/// without a target type, or a field both required and nullable.
pub open spec fn field_def_invalid(f: FieldDefView) -> bool {
    (f.field_type == FieldType::Reference && f.reference_type is None) || (f.required
        && f.nullable)
}

/// Whether `Schema::validate` accepts a schema.
pub open spec fn schema_valid(s: SchemaView, fields: Seq<FieldDef>) -> bool {
    &&& s.name.len() > 0
    &&& s.schema_version != 0
    &&& forall|i: int| 0 <= i < fields.len() ==> !field_def_invalid(#[trigger] fields[i]@)
}

/// The width in bytes of a fixed-width field type.
pub open spec fn type_width(t: FieldType) -> Option<usize> {
    match t {
        FieldType::String | FieldType::Reference => None,
        FieldType::Integer | FieldType::Float => Some(8),
        FieldType::Boolean => Some(1),
    }
}

/// The total width of the fixed-width fields among the first `n`.
pub open spec fn fixed_size_upto(fields: Seq<FieldDef>, n: int) -> int
    decreases n,
{
    if n <= 0 {
        0
    } else {
        fixed_size_upto(fields, n - 1) + match type_width(fields[n - 1].field_type) {
            Some(w) => w as int,
            None => 0,
        }
    }
}

/// The compiled layout of the `i`th field.
pub open spec fn field_layout_spec(fields: Seq<FieldDef>, i: int) -> FieldLayoutView {
    let f = fields[i];
    let width = type_width(f.field_type);
    FieldLayoutView {
        field_id: FieldId((i + 1) as u16),
        name: f.name@,
        field_type: f.field_type,
        offset: if width is Some {
            fixed_size_upto(fields, i) as usize
        } else {
            0
        },
        width,
        nullable: f.nullable,
        is_fixed: width is Some,
        is_variable: width is None,
        overflow_capable: width is None,
    }
}

/// The layouts of the variable-width fields among the first `n`, in order.
pub open spec fn variable_layouts_upto(fields: Seq<FieldDef>, n: int) -> Seq<FieldLayoutView>
    decreases n,
{
    if n <= 0 {
        Seq::empty()
    } else {
        let rest = variable_layouts_upto(fields, n - 1);
        if type_width(fields[n - 1].field_type) is None {
            rest.push(field_layout_spec(fields, n - 1))
        } else {
            rest
        }
    }
}

impl Schema {
    /// Create a new schema with the given name, version 1 and no fields.
    pub fn new(name: &str) -> (r: Self)
        ensures
            r@.name == name@,
            r@.schema_version == 1,
            r.fields@.len() == 0,
            r@.fields == Map::<Seq<char>, FieldDefView>::empty(),
    {
        let r = Self { name: name.to_owned(), schema_version: 1, fields: Vec::new() };
        assert(field_entries_of(r.fields@) =~= Seq::empty());
        r
    }

    /// Add a field to this schema. A field with a new name goes last in
    /// schema order; one with an existing name replaces that field's
    /// definition and keeps its position.
    pub fn add_field(self, field: FieldDef) -> (r: Self)
        ensures
            r@.name == self@.name,
            r@.schema_version == self@.schema_version,
            r@.fields == self@.fields.insert(field@.name, field@),
            self@.fields.contains_key(field@.name) ==> r@.field_order == self@.field_order,
            !self@.fields.contains_key(field@.name) ==> r@.field_order == self@.field_order.push(
                field@.name,
            ),
    {
        let mut s = self;
        let ghost old_fields = s.fields@;
        let ghost entries = field_entries_of(s.fields@);
        let mut i: usize = 0;
        let mut found = false;
        while i < s.fields.len()
            invariant_except_break
                !found,
            invariant
                i <= s.fields@.len(),
                s.fields@ == old_fields,
                forall|j: int| 0 <= j < i ==> s.fields@[j].name@ != field.name@,
            ensures
                i <= s.fields@.len(),
                s.fields@ == old_fields,
                forall|j: int| 0 <= j < i ==> s.fields@[j].name@ != field.name@,
                found ==> i < s.fields@.len() && s.fields@[i as int].name@ == field.name@,
                !found ==> i == s.fields@.len(),
            decreases s.fields@.len() - i,
        {
            if s.fields[i].name == field.name {
                found = true;
                break;
            }
            i = i + 1;
        }
        assert forall|j: int| 0 <= j < old_fields.len() implies #[trigger] entries[j] == (
        old_fields[j].name@, old_fields[j]@) by {}
        if found {
            proof {
                assert(entries[i as int].0 == field@.name);
                assert forall|j: int| 0 <= j < i implies entries[j].0 != field@.name by {
                    assert(entries[j] == (old_fields[j].name@, old_fields[j]@));
                }
                assert(is_first_index(entries, field@.name, i as int));
                lemma_assoc_first(entries, field@.name, i as int);
                lemma_assoc_update(entries, field@.name, i as int, field@);
            }
            s.fields.set(i, field);
            assert(field_entries_of(s.fields@) =~= entries.update(i as int, (field@.name, field@)));
            assert(field_order_of(s.fields@) =~= field_order_of(old_fields));
        } else {
            proof {
                lemma_assoc_contains(entries, field@.name);
                if assoc_map(entries).contains_key(field@.name) {
                    let j = choose|j: int| 0 <= j < entries.len() && entries[j].0 == field@.name;
                    assert(entries[j] == (old_fields[j].name@, old_fields[j]@));
                }
                lemma_assoc_push(entries, field@.name, field@);
            }
            s.fields.push(field);
            assert(field_entries_of(s.fields@) =~= entries.push((field@.name, field@)));
            assert(field_order_of(s.fields@) =~= field_order_of(old_fields).push(field@.name));
        }
        s
    }

    /// Position of the first field with the given name.
    fn position(&self, name: &str) -> (r: Option<usize>)
        ensures
            match r {
                Some(i) => is_first_index(field_entries_of(self.fields@), name@, i as int),
                None => !self@.fields.contains_key(name@),
            },
    {
        let key = name.to_owned();
        let mut i: usize = 0;
        while i < self.fields.len()
            invariant
                i <= self.fields@.len(),
                key@ == name@,
                forall|j: int| 0 <= j < i ==> self.fields@[j].name@ != name@,
            decreases self.fields@.len() - i,
        {
            if self.fields[i].name == key {
                return Some(i);
            }
            i = i + 1;
        }
        proof {
            lemma_assoc_contains(field_entries_of(self.fields@), name@);
        }
        None
    }

    /// Get a stable field identifier for a field name: its position in schema
    /// order, counting from 1.
    pub fn field_id(&self, name: &str) -> (r: Option<FieldId>)
        requires
            self.fields@.len() <= u16::MAX,
        ensures
            match r {
                Some(id) => id.0 >= 1 && is_first_index(
                    field_entries_of(self.fields@),
                    name@,
                    id.0 - 1,
                ),
                None => !self@.fields.contains_key(name@),
            },
    {
        match self.position(name) {
            Some(i) => Some(FieldId::new((i as u16) + 1)),
            None => None,
        }
    }

    /// Get the field for a stable field ID.
    pub fn field_by_id(&self, field_id: FieldId) -> (r: Option<(&String, &FieldDef)>)
        ensures
            ({
                let idx = if field_id.0 == 0 {
                    0
                } else {
                    field_id.0 - 1
                };
                match r {
                    Some((n, f)) => idx < self.fields@.len() && *f == self.fields@[idx] && *n
                        == self.fields@[idx].name,
                    None => idx >= self.fields@.len(),
                }
            }),
    {
        let idx = field_id.as_u16().saturating_sub(1) as usize;
        if idx < self.fields.len() {
            let f = &self.fields[idx];
            Some((&f.name, f))
        } else {
            None
        }
    }

    /// Compile a deterministic physical layout for this schema.
    pub fn layout(&self) -> (r: SchemaLayout)
        requires
            self.fields@.len() <= u16::MAX,
        ensures
            r.schema_name@ == self.name@,
            r.schema_version == self.schema_version,
            r.fields@.len() == self.fields@.len(),
            forall|i: int|
                0 <= i < self.fields@.len() ==> (#[trigger] r.fields@[i])@ == field_layout_spec(
                    self.fields@,
                    i,
                ),
            r.fixed_size == fixed_size_upto(self.fields@, self.fields@.len() as int),
            r.variable_fields@.map_values(|l: FieldLayout| l@) == variable_layouts_upto(
                self.fields@,
                self.fields@.len() as int,
            ),
    {
        let mut fixed_size: usize = 0;
        let mut fields: Vec<FieldLayout> = Vec::with_capacity(self.fields.len());
        let mut variable_fields: Vec<FieldLayout> = Vec::new();
        let mut idx: usize = 0;
        while idx < self.fields.len()
            invariant
                idx <= self.fields@.len() <= u16::MAX,
                fixed_size == fixed_size_upto(self.fields@, idx as int),
                fixed_size <= 8 * idx,
                fields@.len() == idx,
                forall|i: int| 0 <= i < idx ==> (#[trigger] fields@[i])@ == field_layout_spec(
                    self.fields@,
                    i,
                ),
                variable_fields@.map_values(|l: FieldLayout| l@) == variable_layouts_upto(
                    self.fields@,
                    idx as int,
                ),
            decreases self.fields@.len() - idx,
        {
            let field_def = &self.fields[idx];
            let field_id = FieldId::new((idx as u16) + 1);
            let (is_fixed, width, is_variable): (bool, Option<usize>, bool) = match field_def.field_type {
                FieldType::String | FieldType::Reference => (false, None, true),
                FieldType::Integer => (true, Some(8), false),
                FieldType::Float => (true, Some(8), false),
                FieldType::Boolean => (true, Some(1), false),
            };
            let offset = if is_fixed {
                fixed_size
            } else {
                0
            };
            if is_fixed {
                fixed_size = fixed_size + match width {
                    Some(w) => w,
                    None => 0,
                };
            }
            let layout = FieldLayout {
                field_id,
                name: field_def.name.clone(),
                field_type: field_def.field_type,
                offset,
                width,
                nullable: field_def.nullable,
                is_fixed,
                is_variable,
                overflow_capable: is_variable,
            };
            assert(layout@ == field_layout_spec(self.fields@, idx as int));
            let ghost prev_var = variable_fields@;
            if is_variable {
                variable_fields.push(layout.clone());
                assert(variable_fields@.map_values(|l: FieldLayout| l@) =~= prev_var.map_values(
                    |l: FieldLayout| l@,
                ).push(layout@));
            }
            fields.push(layout);
            idx = idx + 1;
        }
        SchemaLayout {
            schema_name: self.name.clone(),
            schema_version: self.schema_version,
            fields,
            fixed_size,
            variable_fields,
        }
    }

    /// Get a field by name.
    pub fn get_field(&self, name: &str) -> (r: Option<&FieldDef>)
        ensures
            match r {
                Some(f) => self@.fields.contains_key(name@) && self@.fields[name@] == f@,
                None => !self@.fields.contains_key(name@),
            },
    {
        match self.position(name) {
            Some(i) => {
                proof {
                    lemma_assoc_first(field_entries_of(self.fields@), name@, i as int);
                }
                Some(&self.fields[i])
            },
            None => None,
        }
    }

    /// Check if a field exists.
    pub fn has_field(&self, name: &str) -> (r: bool)
        ensures
            r == self@.fields.contains_key(name@),
    {
        match self.position(name) {
            Some(i) => {
                proof {
                    lemma_assoc_first(field_entries_of(self.fields@), name@, i as int);
                }
                true
            },
            None => false,
        }
    }

    /// Get all field names, in schema order.
    pub fn field_names(&self) -> (r: Vec<String>)
        ensures
            r@.map_values(|s: String| s@) == self@.field_order,
    {
        let mut r: Vec<String> = Vec::new();
        let mut i: usize = 0;
        while i < self.fields.len()
            invariant
                i <= self.fields@.len(),
                r@.map_values(|s: String| s@) == field_order_of(self.fields@.take(i as int)),
            decreases self.fields@.len() - i,
        {
            let name = self.fields[i].name.clone();
            let ghost prev = r@;
            r.push(name);
            assert(r@.map_values(|s: String| s@) =~= prev.map_values(|s: String| s@).push(
                self.fields@[i as int].name@,
            ));
            assert(field_order_of(self.fields@.take(i + 1)) =~= field_order_of(
                self.fields@.take(i as int),
            ).push(self.fields@[i as int].name@));
            i = i + 1;
        }
        assert(self.fields@.take(i as int) =~= self.fields@);
        r
    }

    /// Validate schema for correctness: the name must not be empty, the
    /// version must not be zero, every Reference field must name its target
    /// type and no field may be both required and nullable.
    pub fn validate(&self) -> (r: Result<()>)
        ensures
            r is Ok <==> schema_valid(self@, self.fields@),
            r matches Err(e) ==> e is SchemaError,
    {
        if self.name.as_str().is_empty() {
            return Err(Error::SchemaError { reason: "Schema name cannot be empty".to_owned() });
        }
        if self.schema_version == 0 {
            return Err(
                Error::SchemaError { reason: "Schema version must be greater than zero".to_owned() },
            );
        }
        let mut i: usize = 0;
        while i < self.fields.len()
            invariant
                i <= self.fields@.len(),
                forall|j: int| 0 <= j < i ==> !field_def_invalid(#[trigger] self.fields@[j]@),
            decreases self.fields@.len() - i,
        {
            let field = &self.fields[i];
            // Reference fields must have a reference_type
            if field.field_type == FieldType::Reference && field.reference_type.is_none() {
                assert(field_def_invalid(self.fields@[i as int]@));
                return Err(
                    Error::SchemaError {
                        reason: join3(
                            "Reference field '",
                            field.name.as_str(),
                            "' must specify a reference_type",
                        ),
                    },
                );
            }
            if field.required && field.nullable {
                assert(field_def_invalid(self.fields@[i as int]@));
                return Err(
                    Error::SchemaError {
                        reason: join3(
                            "Field '",
                            field.name.as_str(),
                            "' cannot be both required and nullable",
                        ),
                    },
                );
            }
            i = i + 1;
        }
        Ok(())
    }
}

/// The id that `field_id` gives a name leads `field_by_id` to that name and
/// to the definition the schema holds for it.
pub proof fn lemma_field_id_by_id(schema: Schema, name: Seq<char>, id: FieldId)
    requires
        id.0 >= 1,
        is_first_index(field_entries_of(schema.fields@), name, id.0 - 1),
    ensures
        schema@.fields.contains_key(name),
        schema.fields@[id.0 - 1]@ == schema@.fields[name],
        schema.fields@[id.0 - 1].name@ == name,
{
    lemma_assoc_first(field_entries_of(schema.fields@), name, id.0 - 1);
}

/// Reference to an object type (by name).
#[derive(Debug, PartialEq, Eq)]
pub struct ObjectType {
    pub name: String,
}

impl ObjectType {
    pub fn new(name: &str) -> (r: Self)
        ensures
            r.name@ == name@,
    {
        Self { name: name.to_owned() }
    }
}

/// Compiled layout metadata for a field.
#[derive(Debug)]
pub struct FieldLayout {
    pub field_id: FieldId,
    pub name: String,
    pub field_type: FieldType,
    pub offset: usize,
    pub width: Option<usize>,
    pub nullable: bool,
    pub is_fixed: bool,
    pub is_variable: bool,
    pub overflow_capable: bool,
}

/// The mathematical content of a field layout.
pub struct FieldLayoutView {
    pub field_id: FieldId,
    pub name: Seq<char>,
    pub field_type: FieldType,
    pub offset: usize,
    pub width: Option<usize>,
    pub nullable: bool,
    pub is_fixed: bool,
    pub is_variable: bool,
    pub overflow_capable: bool,
}

impl View for FieldLayout {
    type V = FieldLayoutView;

    open spec fn view(&self) -> FieldLayoutView {
        FieldLayoutView {
            field_id: self.field_id,
            name: self.name@,
            field_type: self.field_type,
            offset: self.offset,
            width: self.width,
            nullable: self.nullable,
            is_fixed: self.is_fixed,
            is_variable: self.is_variable,
            overflow_capable: self.overflow_capable,
        }
    }
}

impl Clone for FieldLayout {
    fn clone(&self) -> (r: Self)
        ensures
            r == *self,
    {
        FieldLayout {
            field_id: self.field_id,
            name: self.name.clone(),
            field_type: self.field_type,
            offset: self.offset,
            width: self.width,
            nullable: self.nullable,
            is_fixed: self.is_fixed,
            is_variable: self.is_variable,
            overflow_capable: self.overflow_capable,
        }
    }
}

/// Compiled storage layout for a schema.
#[derive(Debug)]
pub struct SchemaLayout {
    pub schema_name: String,
    pub schema_version: u32,
    pub fields: Vec<FieldLayout>,
    pub fixed_size: usize,
    pub variable_fields: Vec<FieldLayout>,
}

impl SchemaLayout {
    /// The first field layout with the given id.
    pub fn field_for_id(&self, field_id: FieldId) -> (r: Option<&FieldLayout>)
        ensures
            match r {
                Some(l) => exists|i: int|
                    0 <= i < self.fields@.len() && self.fields@[i] == *l && l.field_id == field_id
                        && forall|j: int| 0 <= j < i ==> self.fields@[j].field_id != field_id,
                None => forall|i: int|
                    0 <= i < self.fields@.len() ==> self.fields@[i].field_id != field_id,
            },
    {
        let mut i: usize = 0;
        while i < self.fields.len()
            invariant
                i <= self.fields@.len(),
                forall|j: int| 0 <= j < i ==> self.fields@[j].field_id != field_id,
            decreases self.fields@.len() - i,
        {
            if self.fields[i].field_id == field_id {
                return Some(&self.fields[i]);
            }
            i = i + 1;
        }
        None
    }
}

} // verus!
