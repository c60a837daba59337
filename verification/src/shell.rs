//! The shell's own rules: its configuration and how it reads a field
//! definition typed on the command line.
use crate::schema::{FieldDef, FieldDefView, FieldType};
use crate::text::{
    eq_ignore_ascii_case, has_char, lemma_split_has_sep, parse_i64, parse_i64_spec, parse_usize,
    parse_usize_spec, same_ignoring_ascii_case, split_at_char, split_at_pair, split_first,
    split_first_pair, split_spec, split_text, split_words, string_views, text_is, trim_spec,
    trim_text, words_spec, assignment_parts, split_assignment, lemma_split_nonempty,
};
use crate::value::{Value, ValueView};
use vstd::prelude::*;

verus! {

/// Configuration of a shell session.
#[derive(Debug, Clone, Copy, PartialEq, Eq, Structural)]
pub struct ShellConfig {
    /// Enable performance debugging output
    pub debug: bool,
    /// Show timing information for commands
    pub show_timing: bool,
    /// Track storage changes
    pub track_storage: bool,
}

impl Default for ShellConfig {
    fn default() -> (r: Self)
        ensures
            !r.debug && !r.show_timing && !r.track_storage,
    {
        Self { debug: false, show_timing: false, track_storage: false }
    }
}

/// The field type a shell type word names; an unknown word means String.
pub open spec fn field_type_word(t: Seq<char>) -> FieldType {
    if t == "string"@ || t == "String"@ {
        FieldType::String
    } else if t == "integer"@ || t == "Integer"@ || t == "int"@ {
        FieldType::Integer
    } else if t == "float"@ || t == "Float"@ {
        FieldType::Float
    } else if t == "boolean"@ || t == "Boolean"@ || t == "bool"@ {
        FieldType::Boolean
    } else if t == "reference"@ || t == "Reference"@ {
        FieldType::Reference
    } else {
        FieldType::String
    }
}

/// A field definition after its options, in order: "required" and
/// "nullable" set their flags; any other word names the target of a
/// Reference field and is ignored for other types.
pub open spec fn with_field_options(f: FieldDefView, options: Seq<Seq<char>>) -> FieldDefView
    decreases options.len(),
{
    if options.len() == 0 {
        f
    } else {
        let g = with_field_options(f, options.drop_last());
        let o = options.last();
        if o == "required"@ {
            FieldDefView { required: true, ..g }
        } else if o == "nullable"@ {
            FieldDefView { nullable: true, ..g }
        } else if g.field_type == FieldType::Reference {
            FieldDefView { reference_type: Some(o), ..g }
        } else {
            g
        }
    }
}

/// The field a `name:type[:option...]` text defines.
pub open spec fn field_spec_def(spec: Seq<char>) -> FieldDefView {
    let parts = split_spec(spec, ':');
    with_field_options(
        FieldDefView {
            name: parts[0],
            field_type: field_type_word(parts[1]),
            required: false,
            nullable: false,
            default: None,
            reference_type: None,
        },
        parts.skip(2),
    )
}

/// The field type a type word names.
fn field_type_of(word: &String) -> (t: FieldType)
    ensures
        t == field_type_word(word@),
{
    if text_is(word, "string") || text_is(word, "String") {
        FieldType::String
    } else if text_is(word, "integer") || text_is(word, "Integer") || text_is(word, "int") {
        FieldType::Integer
    } else if text_is(word, "float") || text_is(word, "Float") {
        FieldType::Float
    } else if text_is(word, "boolean") || text_is(word, "Boolean") || text_is(word, "bool") {
        FieldType::Boolean
    } else if text_is(word, "reference") || text_is(word, "Reference") {
        FieldType::Reference
    } else {
        FieldType::String
    }
}

/// Reads a field definition written `name:type[:required|nullable|Target...]`.
pub fn parse_field_spec(spec: &str) -> (r: FieldDef)
    requires
        has_char(spec@, ':'),
    ensures
        r@ == field_spec_def(spec@),
{
    proof {
        lemma_split_has_sep(spec@, ':');
    }
    let parts = split_text(spec, ':');
    let ghost words = split_spec(spec@, ':');
    assert(parts@[0]@ == words[0] && parts@[1]@ == words[1]);
    let field_type = field_type_of(&parts[1]);
    let mut field = FieldDef::new(parts[0].as_str(), field_type);
    let ghost base = field@;
    let mut i: usize = 2;
    while i < parts.len()
        invariant
            2 <= i <= parts@.len(),
            string_views_eq(parts@, words),
            field@ == with_field_options(base, words.skip(2).take(i - 2)),
            base.field_type == field_type,
        decreases parts@.len() - i,
    {
        let ghost prev = field@;
        assert(words.skip(2).take(i - 1).drop_last() =~= words.skip(2).take(i - 2));
        assert(words.skip(2).take(i - 1).last() == words[i as int]);
        proof {
            lemma_options_keep_type(base, words.skip(2).take(i - 2));
        }
        if text_is(&parts[i], "required") {
            field = field.required();
        } else if text_is(&parts[i], "nullable") {
            field = field.nullable();
        } else if field_type == FieldType::Reference {
            field = field.references(parts[i].as_str());
        }
        i = i + 1;
    }
    assert(words.skip(2).take(parts@.len() - 2) =~= words.skip(2));
    field
}

/// The parts of a list of strings are, by view, the given texts.
pub open spec fn string_views_eq(v: Seq<String>, w: Seq<Seq<char>>) -> bool {
    &&& v.len() == w.len()
    &&& forall|k: int| 0 <= k < v.len() ==> (#[trigger] v[k])@ == w[k]
}

/// Options never change the type of a field.
proof fn lemma_options_keep_type(f: FieldDefView, options: Seq<Seq<char>>)
    ensures
        with_field_options(f, options).field_type == f.field_type,
    decreases options.len(),
{
    if options.len() > 0 {
        lemma_options_keep_type(f, options.drop_last());
    }
}

/// A `schema` command.
pub enum SchemaCommand {
    /// No subcommand.
    Usage,
    /// `schema create` without a name.
    CreateUsage,
    /// `schema create <Name> [field specs...]`
    Create { name: String, field_specs: Vec<String> },
    /// `schema list`
    List,
    /// `schema show` without a name.
    ShowUsage,
    /// `schema show <Name>`
    Show { name: String },
    /// Any other subcommand.
    Unknown,
}

/// An `object` command.
pub enum ObjectCommand {
    /// No subcommand.
    Usage,
    /// `object create <Type> <Id> [field=value ...]`
    Create { typename: String, object_id: String, assignments: Vec<String> },
    CreateUsage,
    /// `object get <Type> <Id>`
    Get { typename: String, object_id: String },
    GetUsage,
    /// `object list <Type> [--limit N]`
    List { typename: String, limit: Option<usize> },
    ListUsage,
    /// `object delete <Type> <Id>`
    Delete { typename: String, object_id: String },
    DeleteUsage,
    /// `object update <Type> <Id> field=value [...]`
    Update { typename: String, object_id: String, assignments: Vec<String> },
    UpdateUsage,
    /// Any other subcommand.
    Unknown,
}

/// A `debug` command.
#[derive(Debug, Clone, Copy, PartialEq, Eq, Structural)]
pub enum DebugCommand {
    Status,
    On,
    Off,
    Usage,
}

/// A `precompute` command.
pub enum PrecomputeCommand {
    Usage,
    /// `precompute save <name> <query...>`: the query is the remaining words
    /// joined by single spaces.
    Save { name: String, query: String },
    SaveUsage,
    List,
}

/// One line typed into the shell.
pub enum ShellCommand {
    /// A blank line.
    Empty,
    /// `exit` or `quit`.
    Exit,
    /// `help [topic]`, with the words after `help`.
    Help { args: Vec<String> },
    Schema(SchemaCommand),
    Object(ObjectCommand),
    /// `query <Type> [conditions...]`
    Query { typename: String, conditions: Vec<String> },
    QueryUsage,
    Inspect,
    /// `list <Type>`
    List { typename: String },
    ListUsage,
    Debug(DebugCommand),
    Precompute(PrecomputeCommand),
    Clear,
    /// An unknown command word.
    Unknown { word: String },
}

/// The words joined by single spaces.
pub open spec fn joined_words(ws: Seq<Seq<char>>) -> Seq<char>
    decreases ws.len(),
{
    if ws.len() == 0 {
        Seq::empty()
    } else if ws.len() == 1 {
        ws[0]
    } else {
        joined_words(ws.drop_last()) + seq![' '] + ws.last()
    }
}

/// The position of the first `--limit` among the words, if any.
pub open spec fn limit_flag_at(args: Seq<Seq<char>>, i: int) -> bool {
    &&& 0 <= i < args.len()
    &&& args[i] == "--limit"@
    &&& forall|j: int| 0 <= j < i ==> args[j] != "--limit"@
}

/// The `--limit` of an `object list`: the number after the first
/// `--limit`, when there is one and it reads as a number.
pub open spec fn list_limit(args: Seq<Seq<char>>) -> Option<usize> {
    if exists|i: int| limit_flag_at(args, i) {
        let i = choose|i: int| limit_flag_at(args, i);
        if i + 1 < args.len() {
            parse_usize_spec(args[i + 1])
        } else {
            None
        }
    } else {
        None
    }
}

/// What a `schema` command's words (after `schema`) mean.
pub open spec fn schema_command_is(c: SchemaCommand, args: Seq<Seq<char>>) -> bool {
    if args.len() == 0 {
        c is Usage
    } else if args[0] == "create"@ {
        if args.len() < 2 {
            c is CreateUsage
        } else {
            c matches SchemaCommand::Create { name, field_specs } && name@ == args[1]
                && string_views(field_specs@) == args.skip(2)
        }
    } else if args[0] == "list"@ {
        c is List
    } else if args[0] == "show"@ {
        if args.len() < 2 {
            c is ShowUsage
        } else {
            c matches SchemaCommand::Show { name } && name@ == args[1]
        }
    } else {
        c is Unknown
    }
}

/// What an `object` command's words (after `object`) mean.
pub open spec fn object_command_is(c: ObjectCommand, args: Seq<Seq<char>>) -> bool {
    if args.len() == 0 {
        c is Usage
    } else if args[0] == "create"@ {
        if args.len() < 3 {
            c is CreateUsage
        } else {
            c matches ObjectCommand::Create { typename, object_id, assignments } && typename@
                == args[1] && object_id@ == args[2] && string_views(assignments@) == args.skip(3)
        }
    } else if args[0] == "get"@ {
        if args.len() < 3 {
            c is GetUsage
        } else {
            c matches ObjectCommand::Get { typename, object_id } && typename@ == args[1]
                && object_id@ == args[2]
        }
    } else if args[0] == "list"@ {
        if args.len() < 2 {
            c is ListUsage
        } else {
            c matches ObjectCommand::List { typename, limit } && typename@ == args[1] && limit
                == list_limit(args)
        }
    } else if args[0] == "delete"@ {
        if args.len() < 3 {
            c is DeleteUsage
        } else {
            c matches ObjectCommand::Delete { typename, object_id } && typename@ == args[1]
                && object_id@ == args[2]
        }
    } else if args[0] == "update"@ {
        if args.len() < 3 {
            c is UpdateUsage
        } else {
            c matches ObjectCommand::Update { typename, object_id, assignments } && typename@
                == args[1] && object_id@ == args[2] && string_views(assignments@) == args.skip(3)
        }
    } else {
        c is Unknown
    }
}

/// What a `debug` command's words (after `debug`) mean.
pub open spec fn debug_command_of(args: Seq<Seq<char>>) -> DebugCommand {
    if args.len() == 0 || args[0] == "status"@ {
        DebugCommand::Status
    } else if args[0] == "on"@ {
        DebugCommand::On
    } else if args[0] == "off"@ {
        DebugCommand::Off
    } else {
        DebugCommand::Usage
    }
}

/// What a `precompute` command's words (after `precompute`) mean.
pub open spec fn precompute_command_is(c: PrecomputeCommand, args: Seq<Seq<char>>) -> bool {
    if args.len() == 0 {
        c is Usage
    } else if args[0] == "save"@ {
        if args.len() < 3 {
            c is SaveUsage
        } else {
            c matches PrecomputeCommand::Save { name, query } && name@ == args[1] && query@
                == joined_words(args.skip(2))
        }
    } else if args[0] == "list"@ {
        c is List
    } else {
        c is Usage
    }
}

/// What the words of a shell line mean.
pub open spec fn shell_command_is(c: ShellCommand, words: Seq<Seq<char>>) -> bool {
    let args = words.skip(1);
    if words[0] == "help"@ {
        c matches ShellCommand::Help { args: a } && string_views(a@) == args
    } else if words[0] == "schema"@ {
        c matches ShellCommand::Schema(sc) && schema_command_is(sc, args)
    } else if words[0] == "object"@ {
        c matches ShellCommand::Object(oc) && object_command_is(oc, args)
    } else if words[0] == "query"@ {
        if args.len() == 0 {
            c is QueryUsage
        } else {
            c matches ShellCommand::Query { typename, conditions } && typename@ == args[0]
                && string_views(conditions@) == args.skip(1)
        }
    } else if words[0] == "inspect"@ {
        c is Inspect
    } else if words[0] == "list"@ {
        if args.len() == 0 {
            c is ListUsage
        } else {
            c matches ShellCommand::List { typename } && typename@ == args[0]
        }
    } else if words[0] == "debug"@ {
        c == ShellCommand::Debug(debug_command_of(args))
    } else if words[0] == "precompute"@ {
        c matches ShellCommand::Precompute(pc) && precompute_command_is(pc, args)
    } else if words[0] == "clear"@ {
        c is Clear
    } else {
        c matches ShellCommand::Unknown { word } && word@ == words[0]
    }
}

/// The strings from position `from` on.
fn tail_strings(v: &Vec<String>, from: usize) -> (r: Vec<String>)
    requires
        from <= v@.len(),
    ensures
        string_views(r@) == string_views(v@).skip(from as int),
{
    let mut r: Vec<String> = Vec::new();
    let mut i: usize = from;
    while i < v.len()
        invariant
            from <= i <= v@.len(),
            string_views(r@) == string_views(v@).subrange(from as int, i as int),
        decreases v@.len() - i,
    {
        let ghost before = string_views(r@);
        r.push(v[i].clone());
        assert(string_views(r@) =~= before.push(v@[i as int]@));
        assert(string_views(v@).subrange(from as int, i + 1) =~= string_views(v@).subrange(
            from as int,
            i as int,
        ).push(v@[i as int]@));
        i = i + 1;
    }
    assert(string_views(v@).subrange(from as int, i as int) =~= string_views(v@).skip(from as int));
    r
}

/// The strings from position `from` on, joined by single spaces.
fn join_from(v: &Vec<String>, from: usize) -> (r: String)
    requires
        from <= v@.len(),
    ensures
        r@ == joined_words(string_views(v@).skip(from as int)),
{
    let mut r = String::new();
    let mut i: usize = from;
    proof {
        reveal_strlit("");
        assert(string_views(v@).subrange(from as int, from as int) =~= Seq::<Seq<char>>::empty());
    }
    while i < v.len()
        invariant
            from <= i <= v@.len(),
            r@ == joined_words(string_views(v@).subrange(from as int, i as int)),
        decreases v@.len() - i,
    {
        let ghost before = r@;
        let ghost part = string_views(v@).subrange(from as int, i + 1);
        assert(part.drop_last() =~= string_views(v@).subrange(from as int, i as int));
        if i > from {
            r.append(" ");
            proof {
                reveal_strlit(" ");
            }
        }
        r.append(v[i].as_str());
        proof {
            if i > from {
                assert(r@ =~= before + seq![' '] + v@[i as int]@);
            } else {
                assert(string_views(v@).subrange(from as int, i as int) =~= Seq::<Seq<char>>::empty());
                assert(r@ =~= part[0]);
            }
        }
        i = i + 1;
    }
    assert(string_views(v@).subrange(from as int, i as int) =~= string_views(v@).skip(from as int));
    r
}

/// The number after the first `--limit` among the words, if it reads as one.
fn find_limit(args: &Vec<String>) -> (r: Option<usize>)
    ensures
        r == list_limit(string_views(args@)),
{
    let ghost w = string_views(args@);
    let mut i: usize = 0;
    while i < args.len()
        invariant
            i <= args@.len(),
            w == string_views(args@),
            forall|j: int| 0 <= j < i ==> w[j] != "--limit"@,
        decreases args@.len() - i,
    {
        if text_is(&args[i], "--limit") {
            assert(limit_flag_at(w, i as int));
            proof {
                let k = choose|k: int| limit_flag_at(w, k);
                assert(k == i);
            }
            if i + 1 < args.len() {
                return parse_usize(args[i + 1].as_str());
            }
            return None;
        }
        i = i + 1;
    }
    None
}

/// Reads a `schema` command from the words after `schema`.
fn schema_command(args: &Vec<String>) -> (r: SchemaCommand)
    ensures
        schema_command_is(r, string_views(args@)),
{
    if args.len() == 0 {
        return SchemaCommand::Usage;
    }
    if text_is(&args[0], "create") {
        if args.len() < 2 {
            return SchemaCommand::CreateUsage;
        }
        return SchemaCommand::Create { name: args[1].clone(), field_specs: tail_strings(args, 2) };
    }
    if text_is(&args[0], "list") {
        return SchemaCommand::List;
    }
    if text_is(&args[0], "show") {
        if args.len() < 2 {
            return SchemaCommand::ShowUsage;
        }
        return SchemaCommand::Show { name: args[1].clone() };
    }
    SchemaCommand::Unknown
}

/// Reads an `object` command from the words after `object`.
fn object_command(args: &Vec<String>) -> (r: ObjectCommand)
    ensures
        object_command_is(r, string_views(args@)),
{
    if args.len() == 0 {
        return ObjectCommand::Usage;
    }
    if text_is(&args[0], "create") {
        if args.len() < 3 {
            return ObjectCommand::CreateUsage;
        }
        return ObjectCommand::Create {
            typename: args[1].clone(),
            object_id: args[2].clone(),
            assignments: tail_strings(args, 3),
        };
    }
    if text_is(&args[0], "get") {
        if args.len() < 3 {
            return ObjectCommand::GetUsage;
        }
        return ObjectCommand::Get { typename: args[1].clone(), object_id: args[2].clone() };
    }
    if text_is(&args[0], "list") {
        if args.len() < 2 {
            return ObjectCommand::ListUsage;
        }
        return ObjectCommand::List { typename: args[1].clone(), limit: find_limit(args) };
    }
    if text_is(&args[0], "delete") {
        if args.len() < 3 {
            return ObjectCommand::DeleteUsage;
        }
        return ObjectCommand::Delete { typename: args[1].clone(), object_id: args[2].clone() };
    }
    if text_is(&args[0], "update") {
        if args.len() < 3 {
            return ObjectCommand::UpdateUsage;
        }
        return ObjectCommand::Update {
            typename: args[1].clone(),
            object_id: args[2].clone(),
            assignments: tail_strings(args, 3),
        };
    }
    ObjectCommand::Unknown
}

/// Reads a `debug` command from the words after `debug`.
fn debug_command(args: &Vec<String>) -> (r: DebugCommand)
    ensures
        r == debug_command_of(string_views(args@)),
{
    if args.len() == 0 || text_is(&args[0], "status") {
        DebugCommand::Status
    } else if text_is(&args[0], "on") {
        DebugCommand::On
    } else if text_is(&args[0], "off") {
        DebugCommand::Off
    } else {
        DebugCommand::Usage
    }
}

/// Reads a `precompute` command from the words after `precompute`.
fn precompute_command(args: &Vec<String>) -> (r: PrecomputeCommand)
    ensures
        precompute_command_is(r, string_views(args@)),
{
    if args.len() == 0 {
        return PrecomputeCommand::Usage;
    }
    if text_is(&args[0], "save") {
        if args.len() < 3 {
            return PrecomputeCommand::SaveUsage;
        }
        return PrecomputeCommand::Save { name: args[1].clone(), query: join_from(args, 2) };
    }
    if text_is(&args[0], "list") {
        return PrecomputeCommand::List;
    }
    PrecomputeCommand::Usage
}

/// Reads one line typed into the shell. A blank line is nothing to do;
/// `exit` or `quit` alone ends the session; otherwise the first word picks
/// the command and the others are its arguments.
pub fn parse_shell_line(line: &str) -> (r: ShellCommand)
    ensures
        trim_spec(line@).len() == 0 ==> r is Empty,
        (trim_spec(line@).len() > 0 && (trim_spec(line@) == "exit"@ || trim_spec(line@)
            == "quit"@)) ==> r is Exit,
        (trim_spec(line@).len() > 0 && trim_spec(line@) != "exit"@ && trim_spec(line@)
            != "quit"@) ==> words_spec(trim_spec(line@)).len() > 0 && shell_command_is(
            r,
            words_spec(trim_spec(line@)),
        ),
{
    let trimmed = trim_text(line);
    if trimmed.as_str().is_empty() {
        return ShellCommand::Empty;
    }
    if text_is(&trimmed, "exit") || text_is(&trimmed, "quit") {
        return ShellCommand::Exit;
    }
    let words = split_words(trimmed.as_str());
    proof {
        lemma_trimmed_has_word(line@);
    }
    let args = tail_strings(&words, 1);
    let ghost ws = string_views(words@);
    assert(ws[0] == words@[0]@);
    if text_is(&words[0], "help") {
        return ShellCommand::Help { args };
    }
    if text_is(&words[0], "schema") {
        return ShellCommand::Schema(schema_command(&args));
    }
    if text_is(&words[0], "object") {
        return ShellCommand::Object(object_command(&args));
    }
    if text_is(&words[0], "query") {
        if args.len() == 0 {
            return ShellCommand::QueryUsage;
        }
        let conditions = tail_strings(&args, 1);
        assert(string_views(args@).skip(1) =~= ws.skip(1).skip(1));
        return ShellCommand::Query { typename: args[0].clone(), conditions };
    }
    if text_is(&words[0], "inspect") {
        return ShellCommand::Inspect;
    }
    if text_is(&words[0], "list") {
        if args.len() == 0 {
            return ShellCommand::ListUsage;
        }
        return ShellCommand::List { typename: args[0].clone() };
    }
    if text_is(&words[0], "debug") {
        return ShellCommand::Debug(debug_command(&args));
    }
    if text_is(&words[0], "precompute") {
        return ShellCommand::Precompute(precompute_command(&args));
    }
    if text_is(&words[0], "clear") {
        return ShellCommand::Clear;
    }
    ShellCommand::Unknown { word: words[0].clone() }
}

/// A text with something besides white space has a word.
proof fn lemma_trimmed_has_word(s: Seq<char>)
    requires
        trim_spec(s).len() > 0,
    ensures
        words_spec(trim_spec(s)).len() > 0,
{
    crate::text::lemma_trim_ends(s);
    crate::text::lemma_words_of_nonblank(trim_spec(s));
}

/// The shell settings after a `debug` command: on turns debugging, timing
/// and storage tracking on, off turns them off, anything else leaves them.
pub fn apply_debug(config: ShellConfig, command: DebugCommand) -> (r: ShellConfig)
    ensures
        command == DebugCommand::On ==> r.debug && r.show_timing && r.track_storage,
        command == DebugCommand::Off ==> !r.debug && !r.show_timing && !r.track_storage,
        (command == DebugCommand::Status || command == DebugCommand::Usage) ==> r == config,
{
    match command {
        DebugCommand::On => ShellConfig { debug: true, show_timing: true, track_storage: true },
        DebugCommand::Off => ShellConfig { debug: false, show_timing: false, track_storage: false },
        _ => config,
    }
}

/// How a query condition compares a field with a value.
#[derive(Debug, Clone, Copy, PartialEq, Eq, Structural)]
pub enum Comparison {
    Equals,
    NotEquals,
    GreaterThan,
    GreaterOrEqual,
    LessThan,
    LessOrEqual,
}

/// The field, comparison and value text of a condition typed in the shell:
/// the text around its first `>` (`>=` when `=` follows), else its first
/// `<` (`<=` likewise), else its first `!=`, else its first `=`; None
/// without any of these.
pub open spec fn condition_parts(c: Seq<char>) -> Option<(Seq<char>, Comparison, Seq<char>)> {
    match split_first(c, '>') {
        Some((f, rest)) => if rest.len() > 0 && rest[0] == '=' {
            Some((f, Comparison::GreaterOrEqual, rest.skip(1)))
        } else {
            Some((f, Comparison::GreaterThan, rest))
        },
        None => match split_first(c, '<') {
            Some((f, rest)) => if rest.len() > 0 && rest[0] == '=' {
                Some((f, Comparison::LessOrEqual, rest.skip(1)))
            } else {
                Some((f, Comparison::LessThan, rest))
            },
            None => match split_first_pair(c, '!', '=') {
                Some((f, rest)) => Some((f, Comparison::NotEquals, rest)),
                None => match split_first(c, '=') {
                    Some((f, v)) => Some((f, Comparison::Equals, v)),
                    None => None,
                },
            },
        },
    }
}

/// A comparison after its operator: `>=` or `<=` when the rest begins with
/// `=`, the bare operator otherwise.
fn after_operator(rest: String, bare: Comparison, with_equals: Comparison) -> (r: (Comparison, String))
    ensures
        rest@.len() > 0 && rest@[0] == '=' ==> r.0 == with_equals && r.1@ == rest@.skip(1),
        !(rest@.len() > 0 && rest@[0] == '=') ==> r.0 == bare && r.1@ == rest@,
{
    let n = rest.as_str().unicode_len();
    if n > 0 && rest.as_str().get_char(0) == '=' {
        let v = rest.as_str().substring_char(1, n).to_owned();
        assert(v@ =~= rest@.skip(1));
        (with_equals, v)
    } else {
        (bare, rest)
    }
}

/// Splits a query condition typed in the shell into its field, comparison
/// and value text.
pub fn split_condition(condition: &str) -> (r: Option<(String, Comparison, String)>)
    ensures
        match r {
            Some((f, op, v)) => condition_parts(condition@) == Some((f@, op, v@)),
            None => condition_parts(condition@) is None,
        },
{
    match split_at_char(condition, '>') {
        Some((f, rest)) => {
            let (op, v) = after_operator(rest, Comparison::GreaterThan, Comparison::GreaterOrEqual);
            return Some((f, op, v));
        },
        None => {},
    }
    match split_at_char(condition, '<') {
        Some((f, rest)) => {
            let (op, v) = after_operator(rest, Comparison::LessThan, Comparison::LessOrEqual);
            return Some((f, op, v));
        },
        None => {},
    }
    match split_at_pair(condition, '!', '=') {
        Some((f, v)) => {
            return Some((f, Comparison::NotEquals, v));
        },
        None => {},
    }
    match split_at_char(condition, '=') {
        Some((f, v)) => Some((f, Comparison::Equals, v)),
        None => None,
    }
}

/// The value a text typed in the shell stands for: null, true and false
/// (in any ASCII case), then an integer, then a float, then a reference
/// (text with exactly one `/`), and otherwise a string. `float_bits` is
/// the bit pattern of the `f64` the text reads as, if it reads as one.
pub open spec fn value_of_text(t: Seq<char>, float_bits: Option<u64>) -> ValueView {
    if same_ignoring_ascii_case(t, "null"@) {
        ValueView::Null
    } else if same_ignoring_ascii_case(t, "true"@) {
        ValueView::Bool(true)
    } else if same_ignoring_ascii_case(t, "false"@) {
        ValueView::Bool(false)
    } else if parse_i64_spec(t) is Some {
        ValueView::Int(parse_i64_spec(t)->0)
    } else if float_bits is Some {
        ValueView::Float(float_bits->0)
    } else if split_spec(t, '/').len() == 2 {
        ValueView::Ref(t)
    } else {
        ValueView::Str(t)
    }
}

/// The value a text typed in the shell stands for, read after trimming
/// white space. Reading a float is left to the caller, which hands in the
/// bit pattern of the `f64` that the trimmed text reads as, if any.
pub fn value_from_text(raw: &str, float_bits: Option<u64>) -> (v: Value)
    ensures
        v@ == value_of_text(trim_spec(raw@), float_bits),
{
    let cleaned = trim_text(raw);
    if eq_ignore_ascii_case(cleaned.as_str(), "null") {
        return Value::Null;
    }
    if eq_ignore_ascii_case(cleaned.as_str(), "true") {
        return Value::Boolean(true);
    }
    if eq_ignore_ascii_case(cleaned.as_str(), "false") {
        return Value::Boolean(false);
    }
    match parse_i64(cleaned.as_str()) {
        Some(i) => {
            return Value::Integer(i);
        },
        None => {},
    }
    match float_bits {
        Some(b) => {
            return Value::Float(b);
        },
        None => {},
    }
    if split_text(cleaned.as_str(), '/').len() == 2 {
        return Value::Reference(cleaned);
    }
    Value::String(cleaned)
}

/// The views of `key=value` pairs.
pub open spec fn pair_views(v: Seq<(String, String)>) -> Seq<(Seq<char>, Seq<char>)> {
    v.map_values(|p: (String, String)| (p.0@, p.1@))
}

/// The `key=value` parts of the assignments that have an `=`, in order.
pub open spec fn valid_assignments(a: Seq<Seq<char>>) -> Seq<(Seq<char>, Seq<char>)>
    decreases a.len(),
{
    if a.len() == 0 {
        Seq::empty()
    } else {
        let rest = valid_assignments(a.drop_last());
        match assignment_parts(a.last()) {
            Some(p) => rest.push(p),
            None => rest,
        }
    }
}

/// The assignments of an `object create` line, each split at its first `=`;
/// the first one without `=` is handed back as the error, and then nothing
/// is created.
pub fn create_assignments(assignments: &Vec<String>) -> (r: Result<Vec<(String, String)>, String>)
    ensures
        match r {
            Ok(v) => {
                &&& v@.len() == assignments@.len()
                &&& forall|i: int|
                    0 <= i < v@.len() ==> assignment_parts(assignments@[i]@) == Some(
                        ((#[trigger] v@[i]).0@, v@[i].1@),
                    )
            },
            Err(bad) => exists|i: int|
                0 <= i < assignments@.len() && #[trigger] assignments@[i]@ == bad@ && assignment_parts(
                    bad@,
                ) is None && forall|j: int|
                    0 <= j < i ==> assignment_parts(#[trigger] assignments@[j]@) is Some,
        },
{
    let mut out: Vec<(String, String)> = Vec::new();
    let mut i: usize = 0;
    while i < assignments.len()
        invariant
            i <= assignments@.len(),
            out@.len() == i,
            forall|k: int|
                0 <= k < i ==> assignment_parts(assignments@[k]@) == Some(
                    ((#[trigger] out@[k]).0@, out@[k].1@),
                ),
        decreases assignments@.len() - i,
    {
        match split_assignment(assignments[i].as_str()) {
            Some(p) => {
                out.push(p);
            },
            None => {
                let bad = assignments[i].clone();
                assert(assignments@[i as int]@ == bad@);
                assert forall|j: int| 0 <= j < i implies assignment_parts(
                    #[trigger] assignments@[j]@,
                ) is Some by {
                    assert(assignment_parts(assignments@[j]@) == Some((out@[j].0@, out@[j].1@)));
                }
                return Err(bad);
            },
        }
        i = i + 1;
    }
    Ok(out)
}

/// The assignments of an `object update` line that have an `=`, each split
/// at its first `=`, in order; the others are skipped.
pub fn update_assignments(assignments: &Vec<String>) -> (r: Vec<(String, String)>)
    ensures
        pair_views(r@) == valid_assignments(string_views(assignments@)),
{
    let ghost views = string_views(assignments@);
    let mut out: Vec<(String, String)> = Vec::new();
    let mut i: usize = 0;
    while i < assignments.len()
        invariant
            i <= assignments@.len(),
            views == string_views(assignments@),
            pair_views(out@) == valid_assignments(views.take(i as int)),
        decreases assignments@.len() - i,
    {
        let ghost before = out@;
        assert(views.take(i + 1).drop_last() =~= views.take(i as int));
        assert(views.take(i + 1).last() == assignments@[i as int]@);
        match split_assignment(assignments[i].as_str()) {
            Some(p) => {
                out.push(p);
                let ghost k = before.len() as int;
                assert(pair_views(out@) =~= pair_views(before).push((out@[k].0@, out@[k].1@)));
            },
            None => {},
        }
        i = i + 1;
    }
    assert(views.take(assignments@.len() as int) =~= views);
    out
}

/// A text without the separator is one part.
proof fn lemma_split_without_sep(s: Seq<char>, sep: char)
    requires
        !has_char(s, sep),
    ensures
        split_spec(s, sep) == seq![s],
    decreases s.len(),
{
    if s.len() > 0 {
        let d = s.drop_last();
        assert(!has_char(d, sep)) by {
            if has_char(d, sep) {
                let i = choose|i: int| 0 <= i < d.len() && d[i] == sep;
                assert(s[i] == sep);
            }
        }
        lemma_split_without_sep(d, sep);
        assert(s.last() != sep) by {
            assert(s[s.len() - 1] == s.last());
        }
        assert(d.push(s.last()) =~= s);
        assert(seq![d].update(0, d.push(s.last())) =~= seq![s]);
    } else {
        assert(s =~= Seq::<char>::empty());
    }
}

/// Text without the separator, appended, extends the last part.
proof fn lemma_split_extend(a: Seq<char>, b: Seq<char>, sep: char)
    requires
        !has_char(b, sep),
    ensures
        split_spec(a + b, sep) == split_spec(a, sep).update(
            split_spec(a, sep).len() - 1,
            split_spec(a, sep).last() + b,
        ),
    decreases b.len(),
{
    lemma_split_nonempty(a, sep);
    if b.len() == 0 {
        assert(a + b =~= a);
        assert(split_spec(a, sep).last() + b =~= split_spec(a, sep).last());
        assert(split_spec(a, sep).update(split_spec(a, sep).len() - 1, split_spec(a, sep).last())
            =~= split_spec(a, sep));
    } else {
        let c = b.drop_last();
        assert(!has_char(c, sep)) by {
            if has_char(c, sep) {
                let i = choose|i: int| 0 <= i < c.len() && c[i] == sep;
                assert(b[i] == sep);
            }
        }
        assert(b.last() != sep) by {
            assert(b[b.len() - 1] == b.last());
        }
        lemma_split_extend(a, c, sep);
        lemma_split_nonempty(a + c, sep);
        assert((a + b).drop_last() =~= a + c);
        assert((a + b).last() == b.last());
        let p = split_spec(a, sep);
        assert(split_spec(a + b, sep) =~= p.update(p.len() - 1, p.last() + b)) by {
            assert((p.last() + c).push(b.last()) =~= p.last() + b);
        }
    }
}

/// The field a `name:word` text defines, for a name and a type word without
/// `:`: that name, the type the word names, and no options.
proof fn lemma_spec_of_name_and_word(n: Seq<char>, w: Seq<char>)
    requires
        !has_char(n, ':'),
        !has_char(w, ':'),
    ensures
        field_spec_def(n + seq![':'] + w) == (FieldDefView {
            name: n,
            field_type: field_type_word(w),
            required: false,
            nullable: false,
            default: None,
            reference_type: None,
        }),
{
    lemma_split_without_sep(n, ':');
    let a = n + seq![':'];
    assert(a.drop_last() =~= n);
    assert(a.last() == ':');
    assert(split_spec(a, ':') =~= seq![n, Seq::<char>::empty()]);
    lemma_split_extend(a, w, ':');
    assert(seq![n, Seq::<char>::empty()].update(1, Seq::<char>::empty() + w) =~= seq![n, w]);
    let parts = split_spec(n + seq![':'] + w, ':');
    assert(parts =~= seq![n, w]);
    assert(parts.skip(2) =~= Seq::<Seq<char>>::empty());
}

/// Each type word the shell documents names its field type, whatever the
/// field's name: `name:string` and `name:String` give String fields,
/// `integer`, `Integer` and `int` Integer fields, `float` and `Float` Float
/// fields, `boolean`, `Boolean` and `bool` Boolean fields, and `reference`
/// and `Reference` Reference fields; the field keeps its name and takes no
/// options.
pub proof fn lemma_type_words_name_their_types(n: Seq<char>)
    requires
        !has_char(n, ':'),
    ensures
        field_spec_def(n + seq![':'] + "string"@).field_type == FieldType::String,
        field_spec_def(n + seq![':'] + "String"@).field_type == FieldType::String,
        field_spec_def(n + seq![':'] + "integer"@).field_type == FieldType::Integer,
        field_spec_def(n + seq![':'] + "Integer"@).field_type == FieldType::Integer,
        field_spec_def(n + seq![':'] + "int"@).field_type == FieldType::Integer,
        field_spec_def(n + seq![':'] + "float"@).field_type == FieldType::Float,
        field_spec_def(n + seq![':'] + "Float"@).field_type == FieldType::Float,
        field_spec_def(n + seq![':'] + "boolean"@).field_type == FieldType::Boolean,
        field_spec_def(n + seq![':'] + "Boolean"@).field_type == FieldType::Boolean,
        field_spec_def(n + seq![':'] + "bool"@).field_type == FieldType::Boolean,
        field_spec_def(n + seq![':'] + "reference"@).field_type == FieldType::Reference,
        field_spec_def(n + seq![':'] + "Reference"@).field_type == FieldType::Reference,
        forall|w: Seq<char>|
            !has_char(w, ':') ==> (#[trigger] field_spec_def(n + seq![':'] + w)).name == n && !field_spec_def(
                n + seq![':'] + w,
            ).required && !field_spec_def(n + seq![':'] + w).nullable,
{
    reveal_strlit("string");
    reveal_strlit("String");
    reveal_strlit("integer");
    reveal_strlit("Integer");
    reveal_strlit("int");
    reveal_strlit("float");
    reveal_strlit("Float");
    reveal_strlit("boolean");
    reveal_strlit("Boolean");
    reveal_strlit("bool");
    reveal_strlit("reference");
    reveal_strlit("Reference");
    assert forall|w: Seq<char>| !has_char(w, ':') implies (#[trigger] field_spec_def(
        n + seq![':'] + w,
    )).name == n && !field_spec_def(n + seq![':'] + w).required && !field_spec_def(
        n + seq![':'] + w,
    ).nullable by {
        lemma_spec_of_name_and_word(n, w);
    }
    lemma_word(n, "string"@);
    lemma_word(n, "String"@);
    lemma_word(n, "integer"@);
    lemma_word(n, "Integer"@);
    lemma_word(n, "int"@);
    lemma_word(n, "float"@);
    lemma_word(n, "Float"@);
    lemma_word(n, "boolean"@);
    lemma_word(n, "Boolean"@);
    lemma_word(n, "bool"@);
    lemma_word(n, "reference"@);
    lemma_word(n, "Reference"@);
}

/// A type word made of letters only holds no `:`, so `name:word` defines a
/// field of the type the word names.
proof fn lemma_word(n: Seq<char>, w: Seq<char>)
    requires
        !has_char(n, ':'),
        forall|i: int| 0 <= i < w.len() ==> #[trigger] w[i] != ':',
    ensures
        field_spec_def(n + seq![':'] + w).field_type == field_type_word(w),
{
    lemma_spec_of_name_and_word(n, w);
}

/// The field a `name:word:option` text defines, for parts without `:`: the
/// field of `name:word` with that one option applied.
proof fn lemma_spec_with_option(n: Seq<char>, w: Seq<char>, o: Seq<char>)
    requires
        !has_char(n, ':'),
        !has_char(w, ':'),
        !has_char(o, ':'),
    ensures
        field_spec_def(n + seq![':'] + w + seq![':'] + o) == with_field_options(
            FieldDefView {
                name: n,
                field_type: field_type_word(w),
                required: false,
                nullable: false,
                default: None,
                reference_type: None,
            },
            seq![o],
        ),
{
    lemma_split_without_sep(n, ':');
    let a = n + seq![':'];
    assert(a.drop_last() =~= n);
    assert(split_spec(a, ':') =~= seq![n, Seq::<char>::empty()]);
    lemma_split_extend(a, w, ':');
    assert(seq![n, Seq::<char>::empty()].update(1, Seq::<char>::empty() + w) =~= seq![n, w]);
    let b = a + w + seq![':'];
    assert(b.drop_last() =~= a + w);
    assert(b.last() == ':');
    assert(split_spec(b, ':') =~= seq![n, w, Seq::<char>::empty()]);
    lemma_split_extend(b, o, ':');
    assert(seq![n, w, Seq::<char>::empty()].update(2, Seq::<char>::empty() + o) =~= seq![n, w, o]);
    let parts = split_spec(n + seq![':'] + w + seq![':'] + o, ':');
    assert(n + seq![':'] + w + seq![':'] + o =~= b + o);
    assert(parts =~= seq![n, w, o]);
    assert(parts.skip(2) =~= seq![o]);
}

/// The options a field definition takes: `name:type:required` makes the
/// field required and `name:type:nullable` nullable, for any name and type
/// word, and `name:reference:Target` makes a Reference field to `Target`
/// (any target word other than these two options).
pub proof fn lemma_field_options(n: Seq<char>, w: Seq<char>, o: Seq<char>)
    requires
        !has_char(n, ':'),
        !has_char(w, ':'),
        !has_char(o, ':'),
    ensures
        ({
            let f = field_spec_def(n + seq![':'] + w + seq![':'] + "required"@);
            f.name == n && f.field_type == field_spec_def(n + seq![':'] + w).field_type
                && f.required && !f.nullable && f.reference_type is None
        }),
        ({
            let f = field_spec_def(n + seq![':'] + w + seq![':'] + "nullable"@);
            f.name == n && f.field_type == field_spec_def(n + seq![':'] + w).field_type
                && f.nullable && !f.required && f.reference_type is None
        }),
        o != "required"@ && o != "nullable"@ ==> ({
            let f = field_spec_def(n + seq![':'] + "reference"@ + seq![':'] + o);
            f.field_type == FieldType::Reference && f.reference_type == Some(o) && !f.required
                && !f.nullable
        }),
{
    reveal_strlit("required");
    reveal_strlit("nullable");
    reveal_strlit("reference");
    lemma_spec_of_name_and_word(n, w);
    let r = "required"@;
    let u = "nullable"@;
    let t = "reference"@;
    assert(!has_char(r, ':')) by {
        if has_char(r, ':') {
            let i = choose|i: int| 0 <= i < r.len() && r[i] == ':';
        }
    }
    assert(!has_char(u, ':')) by {
        if has_char(u, ':') {
            let i = choose|i: int| 0 <= i < u.len() && u[i] == ':';
        }
    }
    assert(!has_char(t, ':')) by {
        if has_char(t, ':') {
            let i = choose|i: int| 0 <= i < t.len() && t[i] == ':';
        }
    }
    lemma_spec_with_option(n, w, r);
    lemma_spec_with_option(n, w, u);
    lemma_spec_with_option(n, t, o);
    assert(seq![r].drop_last() =~= Seq::<Seq<char>>::empty());
    assert(seq![u].drop_last() =~= Seq::<Seq<char>>::empty());
    assert(seq![o].drop_last() =~= Seq::<Seq<char>>::empty());
    let base = field_spec_def(n + seq![':'] + w);
    assert(with_field_options(base, Seq::<Seq<char>>::empty()) == base);
    assert(seq![r].last() == r);
    assert(seq![u].last() == u);
    assert(u != r) by {
        assert(u[0] != r[0]);
    }
    assert(field_spec_def(n + seq![':'] + w + seq![':'] + r) == with_field_options(base, seq![r]));
    assert(with_field_options(base, seq![r]).required);
    assert(!with_field_options(base, seq![r]).nullable);
    assert(field_spec_def(n + seq![':'] + w + seq![':'] + u) == with_field_options(base, seq![u]));
    lemma_reference_word();
    lemma_spec_of_name_and_word(n, t);
    let base_t = field_spec_def(n + seq![':'] + t);
    assert(base_t.field_type == FieldType::Reference);
    assert(with_field_options(base_t, Seq::<Seq<char>>::empty()) == base_t);
    assert(seq![o].last() == o);
    assert(field_spec_def(n + seq![':'] + t + seq![':'] + o) == with_field_options(base_t, seq![o]));
}

/// The word "reference" names the Reference type.
proof fn lemma_reference_word()
    ensures
        field_type_word("reference"@) == FieldType::Reference,
{
    reveal_strlit("string");
    reveal_strlit("String");
    reveal_strlit("integer");
    reveal_strlit("Integer");
    reveal_strlit("int");
    reveal_strlit("float");
    reveal_strlit("Float");
    reveal_strlit("boolean");
    reveal_strlit("Boolean");
    reveal_strlit("bool");
    reveal_strlit("reference");
    let t = "reference"@;
    assert(t.len() == 9);
    assert(t != "string"@ && t != "String"@ && t != "integer"@ && t != "Integer"@ && t != "int"@);
    assert(t != "float"@ && t != "Float"@ && t != "boolean"@ && t != "Boolean"@ && t != "bool"@);
}

} // verus!



