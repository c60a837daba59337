//! The HTTP API's own rules: which endpoint a request names, what its query
//! string says, and whether it carries the right token.
use crate::database::Database;
use crate::object::Object;
use crate::schema::{FieldDef, FieldDefView, FieldType, Schema, SchemaView};
use crate::text::{
    assignment_parts, join2, split_assignment, split_spec, split_text, starts_with,
    starts_with_spec, string_views, text_is, trim_spec, trim_text,
};
use vstd::prelude::*;

verus! {

/// The endpoint a request names.
pub enum Route {
    /// `GET /health`
    Health,
    /// `POST /put`: create or update an object from the body.
    Put,
    /// `GET /get?type=..&id=..`
    Get { typename: String, object_id: String },
    /// `GET /get` without both parameters.
    GetBadRequest,
    /// `GET /list?type=..`
    List { typename: String },
    /// `GET /list` without a type.
    ListBadRequest,
    /// `POST /schema`: create a schema from the body.
    CreateSchema,
    /// `GET /schemas`
    ListSchemas,
    /// `POST /query`: query with the body's filters.
    Query,
    /// `POST /txn/begin`
    TxnBegin,
    /// `POST /txn/commit`
    TxnCommit,
    /// `POST /txn/rollback`
    TxnRollback,
    /// Anything else.
    NotFound,
}

/// The value the last `key=value` part with this key gives, if any.
pub open spec fn param_value(parts: Seq<Seq<char>>, key: Seq<char>) -> Option<Seq<char>>
    decreases parts.len(),
{
    if parts.len() == 0 {
        None
    } else {
        match assignment_parts(parts.last()) {
            Some((k, v)) if k == key => Some(v),
            _ => param_value(parts.drop_last(), key),
        }
    }
}

/// The `key=value` parts of a URL's query string: the text between its
/// first and second `?`, split at `&`; none when the URL has no `?`.
pub open spec fn query_parts(url: Seq<char>) -> Option<Seq<Seq<char>>> {
    let pieces = split_spec(url, '?');
    if pieces.len() >= 2 {
        Some(split_spec(pieces[1], '&'))
    } else {
        None
    }
}

/// The value of a query parameter of a URL.
pub open spec fn url_param(url: Seq<char>, key: Seq<char>) -> Option<Seq<char>> {
    match query_parts(url) {
        Some(parts) => param_value(parts, key),
        None => None,
    }
}

/// The route a request method and URL name.
pub open spec fn route_is(r: Route, method: Seq<char>, url: Seq<char>) -> bool {
    if method == "GET"@ && url == "/health"@ {
        r is Health
    } else if method == "POST"@ && url == "/put"@ {
        r is Put
    } else if method == "GET"@ && starts_with_spec(url, "/get"@) {
        match (url_param(url, "type"@), url_param(url, "id"@)) {
            (Some(t), Some(i)) => r matches Route::Get { typename, object_id } && typename@ == t
                && object_id@ == i,
            _ => r is GetBadRequest,
        }
    } else if method == "GET"@ && starts_with_spec(url, "/list"@) {
        match url_param(url, "type"@) {
            Some(t) => r matches Route::List { typename } && typename@ == t,
            None => r is ListBadRequest,
        }
    } else if method == "POST"@ && url == "/schema"@ {
        r is CreateSchema
    } else if method == "GET"@ && url == "/schemas"@ {
        r is ListSchemas
    } else if method == "POST"@ && url == "/query"@ {
        r is Query
    } else if method == "POST"@ && url == "/txn/begin"@ {
        r is TxnBegin
    } else if method == "POST"@ && url == "/txn/commit"@ {
        r is TxnCommit
    } else if method == "POST"@ && url == "/txn/rollback"@ {
        r is TxnRollback
    } else {
        r is NotFound
    }
}

/// The value of a query parameter: the last `key=value` part of the query
/// string with that key.
pub fn query_param(url: &str, key: &str) -> (r: Option<String>)
    ensures
        match r {
            Some(v) => url_param(url@, key@) == Some(v@),
            None => url_param(url@, key@) is None,
        },
{
    let pieces = split_text(url, '?');
    if pieces.len() < 2 {
        return None;
    }
    assert(string_views(pieces@)[1] == pieces@[1]@);
    let parts = split_text(pieces[1].as_str(), '&');
    let ghost ps = string_views(parts@);
    let key_text = key.to_owned();
    let mut found: Option<String> = None;
    let mut i: usize = 0;
    while i < parts.len()
        invariant
            i <= parts@.len(),
            ps == string_views(parts@),
            key_text@ == key@,
            match found {
                Some(v) => param_value(ps.take(i as int), key@) == Some(v@),
                None => param_value(ps.take(i as int), key@) is None,
            },
        decreases parts@.len() - i,
    {
        assert(ps.take(i + 1).drop_last() =~= ps.take(i as int));
        assert(ps.take(i + 1).last() == parts@[i as int]@);
        match split_assignment(parts[i].as_str()) {
            Some((k, v)) => {
                if k == key_text {
                    found = Some(v);
                }
            },
            None => {},
        }
        i = i + 1;
    }
    assert(ps.take(i as int) =~= ps);
    found
}

/// The endpoint a request method and URL name.
pub fn route(method: &str, url: &str) -> (r: Route)
    ensures
        route_is(r, method@, url@),
{
    let m = method.to_owned();
    let u = url.to_owned();
    if text_is(&m, "GET") && text_is(&u, "/health") {
        return Route::Health;
    }
    if text_is(&m, "POST") && text_is(&u, "/put") {
        return Route::Put;
    }
    if text_is(&m, "GET") && starts_with(url, "/get") {
        return match (query_param(url, "type"), query_param(url, "id")) {
            (Some(typename), Some(object_id)) => Route::Get { typename, object_id },
            _ => Route::GetBadRequest,
        };
    }
    if text_is(&m, "GET") && starts_with(url, "/list") {
        return match query_param(url, "type") {
            Some(typename) => Route::List { typename },
            None => Route::ListBadRequest,
        };
    }
    if text_is(&m, "POST") && text_is(&u, "/schema") {
        return Route::CreateSchema;
    }
    if text_is(&m, "GET") && text_is(&u, "/schemas") {
        return Route::ListSchemas;
    }
    if text_is(&m, "POST") && text_is(&u, "/query") {
        return Route::Query;
    }
    if text_is(&m, "POST") && text_is(&u, "/txn/begin") {
        return Route::TxnBegin;
    }
    if text_is(&m, "POST") && text_is(&u, "/txn/commit") {
        return Route::TxnCommit;
    }
    if text_is(&m, "POST") && text_is(&u, "/txn/rollback") {
        return Route::TxnRollback;
    }
    Route::NotFound
}

/// Whether an `Authorization` header value carries the token: trimmed, it
/// must read `Bearer <token>`.
pub fn bearer_matches(header_value: &str, token: &str) -> (r: bool)
    ensures
        r == (trim_spec(header_value@) == "Bearer "@ + token@),
{
    let trimmed = trim_text(header_value);
    let expected = join2("Bearer ", token);
    trimmed == expected
}

/// The field type a schema body names, given in lower case; an unknown name
/// means String.
pub open spec fn body_field_type(word: Seq<char>) -> FieldType {
    if word == "string"@ {
        FieldType::String
    } else if word == "integer"@ {
        FieldType::Integer
    } else if word == "float"@ {
        FieldType::Float
    } else if word == "boolean"@ {
        FieldType::Boolean
    } else if word == "reference"@ {
        FieldType::Reference
    } else {
        FieldType::String
    }
}

/// The field type a schema body names, given in lower case.
pub fn field_type_from_body(word: &str) -> (t: FieldType)
    ensures
        t == body_field_type(word@),
{
    let w = word.to_owned();
    if text_is(&w, "string") {
        FieldType::String
    } else if text_is(&w, "integer") {
        FieldType::Integer
    } else if text_is(&w, "float") {
        FieldType::Float
    } else if text_is(&w, "boolean") {
        FieldType::Boolean
    } else if text_is(&w, "reference") {
        FieldType::Reference
    } else {
        FieldType::String
    }
}

/// The field a schema body describes: its name, its type word (read as
/// `body_field_type` reads it), and whether it is required and nullable.
pub open spec fn body_field(name: Seq<char>, word: Seq<char>, required: bool, nullable: bool) -> FieldDefView {
    FieldDefView {
        name,
        field_type: body_field_type(word),
        required,
        nullable,
        default: None,
        reference_type: None,
    }
}

/// The field definition a schema body describes.
pub fn field_def_from_body(name: &str, word: &str, required: bool, nullable: bool) -> (r: FieldDef)
    ensures
        r@ == body_field(name@, word@, required, nullable),
{
    let mut fd = FieldDef::new(name, field_type_from_body(word));
    if required {
        fd = fd.required();
    }
    if nullable {
        fd = fd.nullable();
    }
    fd
}

/// A schema with fields added one after another: a new name goes last in
/// field order, an existing one has its definition replaced in place.
pub open spec fn with_fields(s: SchemaView, fields: Seq<FieldDefView>) -> SchemaView
    decreases fields.len(),
{
    if fields.len() == 0 {
        s
    } else {
        let before = with_fields(s, fields.drop_last());
        let f = fields.last();
        SchemaView {
            fields: before.fields.insert(f.name, f),
            field_order: if before.fields.contains_key(f.name) {
                before.field_order
            } else {
                before.field_order.push(f.name)
            },
            ..before
        }
    }
}

/// The schema a schema body describes: its name, version 1, and its fields
/// added in order.
pub fn schema_from_body(name: &str, fields: Vec<FieldDef>) -> (r: Schema)
    ensures
        r@ == with_fields(
            SchemaView {
                name: name@,
                schema_version: 1,
                fields: Map::empty(),
                field_order: Seq::empty(),
            },
            fields@.map_values(|f: FieldDef| f@),
        ),
{
    let mut schema = Schema::new(name);
    let ghost start = schema@;
    assert(start.field_order =~= Seq::<Seq<char>>::empty());
    let ghost views = fields@.map_values(|f: FieldDef| f@);
    let mut i: usize = 0;
    let n = fields.len();
    while i < n
        invariant
            n == views.len(),
            i <= n,
            fields@.len() == n,
            forall|k: int| 0 <= k < n ==> #[trigger] fields@[k]@ == views[k],
            schema@ == with_fields(start, views.take(i as int)),
        decreases n - i,
    {
        let f = fields[i].clone();
        proof {
            assert(views.take(i + 1).drop_last() =~= views.take(i as int));
        }
        schema = schema.add_field(f);
        i = i + 1;
    }
    assert(views.take(n as int) =~= views);
    schema
}

/// Stores an object from a `PUT`-style body: created when it is new, and
/// otherwise (whatever made the creation fail) written as an update.
pub fn create_or_update(db: &mut Database, object: &Object) -> (r: Result<(), crate::error::Error>)
    ensures
        final(db).in_transaction() == old(db).in_transaction(),
        final(db).spec_path() == old(db).spec_path(),
{
    let created = db.create_object(object);
    update_unless_created(db, object, created)
}

/// The rest of `create_or_update`, from what the creation gave: a created
/// object is done, with nothing more asked of the database; otherwise the
/// object is written as an update, whose result is the answer.
pub fn update_unless_created(
    db: &mut Database,
    object: &Object,
    created: Result<(), crate::error::Error>,
) -> (r: Result<(), crate::error::Error>)
    ensures
        created is Ok ==> r is Ok && *final(db) == *old(db),
        final(db).in_transaction() == old(db).in_transaction(),
        final(db).spec_path() == old(db).spec_path(),
{
    match created {
        Ok(()) => Ok(()),
        Err(_) => db.update_object(object),
    }
}

} // verus!
