use kelp_db::schema::FieldType;
use kelp_db::server::{field_def_from_body, schema_from_body};
use kelp_db::server::{bearer_matches, field_type_from_body, query_param, route, Route};
use kelp_db::shell::{
    apply_debug, parse_shell_line, DebugCommand, ObjectCommand, PrecomputeCommand, SchemaCommand,
    ShellCommand, ShellConfig,
};
use kelp_db::storage::wal::{committed_changes, WalRecord, WalRecordType};
use kelp_db::text::{
    eq_ignore_ascii_case, parse_i64, parse_usize, split_assignment, split_at_char, split_at_pair,
    split_text, split_words, starts_with,
};
use kelp_db::shell::{split_condition, value_from_text, Comparison};
use kelp_db::value::Value;
use kelp_db::storage::schema_name_from_file;
use kelp_db::text::{ends_with, trim_end_matches};

#[test]
fn shell_blank_and_exit_lines() {
    assert!(matches!(parse_shell_line("   "), ShellCommand::Empty));
    assert!(matches!(parse_shell_line(""), ShellCommand::Empty));
    assert!(matches!(parse_shell_line("  exit "), ShellCommand::Exit));
    assert!(matches!(parse_shell_line("quit"), ShellCommand::Exit));
    match parse_shell_line("exit now") {
        ShellCommand::Unknown { word } => assert_eq!(word, "exit"),
        _ => panic!("a word after exit makes an unknown command"),
    }
    match parse_shell_line("frobnicate x") {
        ShellCommand::Unknown { word } => assert_eq!(word, "frobnicate"),
        _ => panic!("expected an unknown command"),
    }
}

#[test]
fn shell_schema_commands() {
    match parse_shell_line("schema create User name:string:required  age:int") {
        ShellCommand::Schema(SchemaCommand::Create { name, field_specs }) => {
            assert_eq!(name, "User");
            assert_eq!(field_specs, vec!["name:string:required".to_string(), "age:int".to_string()]);
        }
        _ => panic!("expected schema create"),
    }
    assert!(matches!(parse_shell_line("schema"), ShellCommand::Schema(SchemaCommand::Usage)));
    assert!(matches!(parse_shell_line("schema create"), ShellCommand::Schema(SchemaCommand::CreateUsage)));
    assert!(matches!(parse_shell_line("schema list"), ShellCommand::Schema(SchemaCommand::List)));
    assert!(matches!(parse_shell_line("schema show"), ShellCommand::Schema(SchemaCommand::ShowUsage)));
    match parse_shell_line("schema show User") {
        ShellCommand::Schema(SchemaCommand::Show { name }) => assert_eq!(name, "User"),
        _ => panic!("expected schema show"),
    }
    assert!(matches!(parse_shell_line("schema drop"), ShellCommand::Schema(SchemaCommand::Unknown)));
}

#[test]
fn shell_object_commands() {
    match parse_shell_line("object create User u1 name=Alice age=30") {
        ShellCommand::Object(ObjectCommand::Create { typename, object_id, assignments }) => {
            assert_eq!(typename, "User");
            assert_eq!(object_id, "u1");
            assert_eq!(assignments, vec!["name=Alice".to_string(), "age=30".to_string()]);
        }
        _ => panic!("expected object create"),
    }
    assert!(matches!(parse_shell_line("object create User"), ShellCommand::Object(ObjectCommand::CreateUsage)));
    assert!(matches!(parse_shell_line("object"), ShellCommand::Object(ObjectCommand::Usage)));
    match parse_shell_line("object list User --limit 5") {
        ShellCommand::Object(ObjectCommand::List { typename, limit }) => {
            assert_eq!(typename, "User");
            assert_eq!(limit, Some(5));
        }
        _ => panic!("expected object list"),
    }
    match parse_shell_line("object list User --limit many") {
        ShellCommand::Object(ObjectCommand::List { limit, .. }) => assert_eq!(limit, None),
        _ => panic!("expected object list"),
    }
    match parse_shell_line("object list User") {
        ShellCommand::Object(ObjectCommand::List { limit, .. }) => assert_eq!(limit, None),
        _ => panic!("expected object list"),
    }
    match parse_shell_line("object get User u1") {
        ShellCommand::Object(ObjectCommand::Get { typename, object_id }) => {
            assert_eq!((typename.as_str(), object_id.as_str()), ("User", "u1"))
        }
        _ => panic!("expected object get"),
    }
    assert!(matches!(parse_shell_line("object delete User"), ShellCommand::Object(ObjectCommand::DeleteUsage)));
    match parse_shell_line("object update User u1 age=31") {
        ShellCommand::Object(ObjectCommand::Update { assignments, .. }) => {
            assert_eq!(assignments, vec!["age=31".to_string()])
        }
        _ => panic!("expected object update"),
    }
    assert!(matches!(parse_shell_line("object rename"), ShellCommand::Object(ObjectCommand::Unknown)));
}

#[test]
fn shell_other_commands() {
    match parse_shell_line("query Order status=pending total>100") {
        ShellCommand::Query { typename, conditions } => {
            assert_eq!(typename, "Order");
            assert_eq!(conditions, vec!["status=pending".to_string(), "total>100".to_string()]);
        }
        _ => panic!("expected query"),
    }
    assert!(matches!(parse_shell_line("query"), ShellCommand::QueryUsage));
    assert!(matches!(parse_shell_line("inspect"), ShellCommand::Inspect));
    assert!(matches!(parse_shell_line("list"), ShellCommand::ListUsage));
    assert!(matches!(parse_shell_line("clear"), ShellCommand::Clear));
    match parse_shell_line("help object") {
        ShellCommand::Help { args } => assert_eq!(args, vec!["object".to_string()]),
        _ => panic!("expected help"),
    }
    assert!(matches!(parse_shell_line("debug"), ShellCommand::Debug(DebugCommand::Status)));
    assert!(matches!(parse_shell_line("debug on"), ShellCommand::Debug(DebugCommand::On)));
    assert!(matches!(parse_shell_line("debug maybe"), ShellCommand::Debug(DebugCommand::Usage)));
    match parse_shell_line("precompute save recent query Order  status=new") {
        ShellCommand::Precompute(PrecomputeCommand::Save { name, query }) => {
            assert_eq!(name, "recent");
            assert_eq!(query, "query Order status=new");
        }
        _ => panic!("expected precompute save"),
    }
    assert!(matches!(
        parse_shell_line("precompute save recent"),
        ShellCommand::Precompute(PrecomputeCommand::SaveUsage)
    ));
    assert!(matches!(parse_shell_line("precompute list"), ShellCommand::Precompute(PrecomputeCommand::List)));
    assert!(matches!(parse_shell_line("precompute"), ShellCommand::Precompute(PrecomputeCommand::Usage)));
}

#[test]
fn debug_settings() {
    let off = ShellConfig::default();
    let on = apply_debug(off, DebugCommand::On);
    assert!(on.debug && on.show_timing && on.track_storage);
    assert_eq!(apply_debug(on, DebugCommand::Status), on);
    assert_eq!(apply_debug(on, DebugCommand::Off), off);
}

#[test]
fn server_routes() {
    assert!(matches!(route("GET", "/health"), Route::Health));
    assert!(matches!(route("POST", "/put"), Route::Put));
    match route("GET", "/get?type=User&id=u1") {
        Route::Get { typename, object_id } => {
            assert_eq!(typename, "User");
            assert_eq!(object_id, "u1");
        }
        _ => panic!("expected get"),
    }
    assert!(matches!(route("GET", "/get?type=User"), Route::GetBadRequest));
    assert!(matches!(route("GET", "/get"), Route::GetBadRequest));
    match route("GET", "/list?type=Order&type=Item") {
        Route::List { typename } => assert_eq!(typename, "Item"),
        _ => panic!("expected list"),
    }
    assert!(matches!(route("GET", "/list"), Route::ListBadRequest));
    assert!(matches!(route("POST", "/schema"), Route::CreateSchema));
    assert!(matches!(route("GET", "/schemas"), Route::ListSchemas));
    assert!(matches!(route("POST", "/query"), Route::Query));
    assert!(matches!(route("POST", "/txn/begin"), Route::TxnBegin));
    assert!(matches!(route("POST", "/txn/commit"), Route::TxnCommit));
    assert!(matches!(route("POST", "/txn/rollback"), Route::TxnRollback));
    assert!(matches!(route("GET", "/put"), Route::NotFound));
    assert!(matches!(route("DELETE", "/health"), Route::NotFound));
}

#[test]
fn server_query_params_and_token() {
    assert_eq!(query_param("/get?a=1&b=2=3", "b"), Some("2=3".to_string()));
    assert_eq!(query_param("/get?a=1&b", "b"), None);
    assert_eq!(query_param("/get?a=1?b=2", "b"), None);
    assert_eq!(query_param("/get?id=", "id"), Some(String::new()));
    assert!(bearer_matches("  Bearer s3cret ", "s3cret"));
    assert!(!bearer_matches("Bearer other", "s3cret"));
    assert!(!bearer_matches("s3cret", "s3cret"));
    assert_eq!(field_type_from_body("integer"), FieldType::Integer);
    assert_eq!(field_type_from_body("reference"), FieldType::Reference);
    assert_eq!(field_type_from_body("Integer"), FieldType::String);
}

#[test]
fn text_helpers() {
    assert_eq!(split_words("  a \t bc\nd "), vec!["a".to_string(), "bc".to_string(), "d".to_string()]);
    assert!(split_words(" \u{3000} ").is_empty());
    assert_eq!(split_text("a::b", ':'), vec!["a".to_string(), String::new(), "b".to_string()]);
    assert_eq!(split_text("", ':'), vec![String::new()]);
    assert_eq!(split_assignment("k=v=w"), Some(("k".to_string(), "v=w".to_string())));
    assert_eq!(split_assignment("kv"), None);
    assert_eq!(parse_usize("42"), Some(42));
    assert_eq!(parse_usize("+7"), Some(7));
    assert_eq!(parse_usize("+"), None);
    assert_eq!(parse_usize(""), None);
    assert_eq!(parse_usize("-1"), None);
    assert_eq!(parse_usize("12a"), None);
    assert_eq!(parse_usize("99999999999999999999999"), None);
    assert_eq!(parse_usize(&usize::MAX.to_string()), Some(usize::MAX));
    assert!(starts_with("/getx", "/get"));
    assert!(!starts_with("/ge", "/get"));
}

#[test]
fn replay_keeps_only_committed_changes() {
    let log = vec![
        WalRecord::new(1, 1, WalRecordType::Begin),
        WalRecord::new(1, 2, WalRecordType::Insert).with_payload(b"a".to_vec()),
        WalRecord::new(2, 3, WalRecordType::Begin),
        WalRecord::new(2, 4, WalRecordType::Insert).with_payload(b"b".to_vec()),
        WalRecord::new(1, 5, WalRecordType::Update).with_payload(b"c".to_vec()),
        WalRecord::new(1, 6, WalRecordType::Commit),
        WalRecord::new(3, 7, WalRecordType::Delete),
        WalRecord::new(3, 8, WalRecordType::Commit),
    ];
    let replay = committed_changes(&log);
    let lsns: Vec<u64> = replay.iter().map(|r| r.lsn).collect();
    assert_eq!(lsns, vec![2, 5, 7]);
    assert_eq!(replay[1].payload, b"c".to_vec());
    assert!(committed_changes(&Vec::new()).is_empty());
}

fn cond(c: &str) -> Option<(String, Comparison, String)> {
    split_condition(c)
}

#[test]
fn conditions_split_at_their_operator() {
    assert_eq!(cond("age>=30"), Some(("age".to_string(), Comparison::GreaterOrEqual, "30".to_string())));
    assert_eq!(cond("age>30"), Some(("age".to_string(), Comparison::GreaterThan, "30".to_string())));
    assert_eq!(cond("age<=5"), Some(("age".to_string(), Comparison::LessOrEqual, "5".to_string())));
    assert_eq!(cond("age<5"), Some(("age".to_string(), Comparison::LessThan, "5".to_string())));
    assert_eq!(cond("name!=Bob"), Some(("name".to_string(), Comparison::NotEquals, "Bob".to_string())));
    assert_eq!(cond("name=Alice"), Some(("name".to_string(), Comparison::Equals, "Alice".to_string())));
    assert_eq!(cond("a=b>c"), Some(("a=b".to_string(), Comparison::GreaterThan, "c".to_string())));
    assert_eq!(cond("noop"), None);
}

#[test]
fn shell_values_from_text() {
    assert_eq!(value_from_text("  NULL ", None), Value::Null);
    assert_eq!(value_from_text("True", None), Value::Boolean(true));
    assert_eq!(value_from_text("FALSE", None), Value::Boolean(false));
    assert_eq!(value_from_text(" 42 ", Some(42.0f64.to_bits())), Value::Integer(42));
    assert_eq!(value_from_text("-9223372036854775808", None), Value::Integer(i64::MIN));
    let big = 9223372036854775808.0f64.to_bits();
    assert_eq!(value_from_text("9223372036854775808", Some(big)), Value::Float(big));
    assert_eq!(value_from_text("3.5", Some(3.5f64.to_bits())), Value::Float(3.5f64.to_bits()));
    assert_eq!(value_from_text("User/u1", None), Value::Reference("User/u1".to_string()));
    assert_eq!(value_from_text("a/b/c", None), Value::String("a/b/c".to_string()));
    assert_eq!(value_from_text("hello", None), Value::String("hello".to_string()));
}

#[test]
fn integers_parse_as_i64_does() {
    assert_eq!(parse_i64("+5"), Some(5));
    assert_eq!(parse_i64("-17"), Some(-17));
    assert_eq!(parse_i64("9223372036854775807"), Some(i64::MAX));
    assert_eq!(parse_i64("9223372036854775808"), None);
    assert_eq!(parse_i64("-9223372036854775809"), None);
    assert_eq!(parse_i64("-"), None);
    assert_eq!(parse_i64(""), None);
    assert_eq!(parse_i64("12a"), None);
}

#[test]
fn ascii_case_is_ignored_only_for_letters() {
    assert!(eq_ignore_ascii_case("NuLl", "null"));
    assert!(!eq_ignore_ascii_case("nul", "null"));
    assert!(!eq_ignore_ascii_case("n@ll", "n`ll"));
    assert!(eq_ignore_ascii_case("", ""));
}

#[test]
fn texts_split_at_first_separator() {
    assert_eq!(split_at_char("a=b=c", '='), Some(("a".to_string(), "b=c".to_string())));
    assert_eq!(split_at_char("abc", '='), None);
    assert_eq!(split_at_pair("x!=y!=z", '!', '='), Some(("x".to_string(), "y!=z".to_string())));
    assert_eq!(split_at_pair("x!y=z", '!', '='), None);
}

#[test]
fn schema_files_name_their_schema() {
    assert_eq!(schema_name_from_file("User.json"), Some("User".to_string()));
    assert_eq!(schema_name_from_file("a.json.json"), Some("a".to_string()));
    assert_eq!(schema_name_from_file(".json"), Some("".to_string()));
    assert_eq!(schema_name_from_file("User.txt"), None);
    assert_eq!(schema_name_from_file("json"), None);
}

#[test]
fn texts_trim_and_test_suffixes() {
    assert!(ends_with("name.json", ".json"));
    assert!(!ends_with("json", ".json"));
    assert_eq!(trim_end_matches("xababab", "ab"), "x".to_string());
    assert_eq!(trim_end_matches("abc", "ab"), "abc".to_string());
}

#[test]
fn schema_bodies_build_fields_in_order() {
    let a = field_def_from_body("age", "integer", true, false);
    assert_eq!(a.field_type, FieldType::Integer);
    assert!(a.required && !a.nullable);
    let b = field_def_from_body("name", "whatever", false, true);
    assert_eq!(b.field_type, FieldType::String);
    let again = field_def_from_body("age", "float", false, false);
    let schema = schema_from_body("User", vec![a, b, again]);
    assert_eq!(schema.name, "User");
    assert_eq!(schema.field_names(), vec!["age".to_string(), "name".to_string()]);
    assert_eq!(schema.get_field("age").unwrap().field_type, FieldType::Float);
}
