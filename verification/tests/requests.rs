use serde_json::Value;
use stryke_spark::error::Error;
use stryke_spark::json::Json;
use stryke_spark::opts::{Env, SparkOpts};
use stryke_spark::requests::{
    answer, answer_output, build_request, coerce_submit_args, collect_rows, ndjson_to_rows,
    request_body, Op,
};
use stryke_spark::wire::{encode_json, parse_json};

fn j(text: &str) -> Json {
    parse_json(text).unwrap()
}

fn opts(text: &str) -> SparkOpts {
    SparkOpts::from_value(&j(text), &Env { submit: None, home: None, path: None })
}

fn val(x: Json) -> Value {
    serde_json::from_str(&encode_json(x)).unwrap()
}

fn body(op: Op, text: &str) -> String {
    encode_json(request_body(op, &j(text)).unwrap())
}

fn refused(op: Op, text: &str) -> String {
    request_body(op, &j(text)).unwrap_err().message
}

#[test]
fn build_request_no_database_passes_body_through() {
    let req = val(build_request(&opts("{}"), j(r#"{"cmd": "ping"}"#)));
    assert_eq!(req["cmd"], Value::from("ping"));
    assert!(req.get("database").is_none());
}

#[test]
fn build_request_database_overrides_body() {
    let o = opts(r#"{"database": "shop"}"#);
    let req = val(build_request(&o, j(r#"{"cmd": "query", "database": "other"}"#)));
    assert_eq!(req["database"], Value::from("shop"));
    assert_eq!(req["cmd"], Value::from("query"));
}

#[test]
fn build_request_non_object_body_yields_only_database() {
    let req = val(build_request(&opts(r#"{"database": "d"}"#), Json::Null));
    assert_eq!(req["database"], Value::from("d"));
    assert_eq!(req.as_object().unwrap().len(), 1);
    assert_eq!(encode_json(build_request(&opts("{}"), j("[1]"))), "{}");
}

#[test]
fn ndjson_multi_line() {
    let buf = "{\"a\":1}\n{\"a\":2}\n";
    let r = ndjson_to_rows(buf).unwrap();
    assert_eq!(r.len(), 2);
    assert_eq!(r[1].u64_at("a"), Some(2));
}

#[test]
fn ndjson_skips_blank() {
    let r = ndjson_to_rows("{\"a\":1}\n\n{\"a\":2}\n\n").unwrap();
    assert_eq!(r.len(), 2);
}

#[test]
fn ndjson_empty_yields_empty() {
    assert!(ndjson_to_rows("").unwrap().is_empty());
    assert!(ndjson_to_rows("\n\n").unwrap().is_empty());
}

#[test]
fn ndjson_invalid_line_errors() {
    assert!(ndjson_to_rows("{\"a\":1}\ngarbage\n").is_err());
}

#[test]
fn rows_are_the_lines_in_order() {
    let r = ndjson_to_rows("1\r\n\r\n\"a\nb\"").unwrap_err();
    let first = serde_json::from_str::<Value>("\"a").unwrap_err().to_string();
    assert_eq!(r.message, first);
    let r = ndjson_to_rows("1\r\n\r\n[2]\n {\"x\": null} ").unwrap();
    let texts: Vec<String> = r.into_iter().map(encode_json).collect();
    assert_eq!(texts, vec!["1", "[2]", "{\"x\":null}"]);
}

#[test]
fn lines_are_those_of_the_standard_library() {
    for text in ["", "\n", "1", "1\n2", "1\r\n2\r", "\r\n", "1\n\n2\n", "\r", "1\r\r\n2"] {
        let want: Vec<&str> = text.lines().filter(|l| !l.is_empty()).collect();
        assert_eq!(stryke_spark::text::lines_of(text), want, "{text:?}");
    }
}

#[test]
fn the_first_failure_is_the_one_that_is_told() {
    let fine = collect_rows(vec![Ok(j("1")), Ok(j("2"))]).unwrap();
    assert_eq!(fine, vec![j("1"), j("2")]);
    let e = collect_rows(vec![
        Ok(j("1")),
        Err(Error::new("first")),
        Ok(j("2")),
        Err(Error::new("second")),
    ])
    .unwrap_err();
    assert_eq!(e.message, "first");
}

#[test]
fn coerce_submit_args_preserves_number_and_bool_values() {
    let arr = vec![j("\"--num\""), j("42"), j("\"--flag\""), j("true")];
    let out = coerce_submit_args(&arr).expect("scalar args must coerce");
    assert_eq!(out, vec!["--num", "42", "--flag", "true"]);
}

#[test]
fn coerce_submit_args_encodes_compound_values_as_json() {
    let arr = vec![j("\"--config\""), j(r#"{"k": 1}"#)];
    let out = coerce_submit_args(&arr).expect("compound args coerce to JSON");
    assert_eq!(out, vec!["--config", "{\"k\":1}"]);
}

#[test]
fn coerce_submit_args_rejects_null_with_indexed_error() {
    let arr = vec![j("\"--x\""), Json::Null, j("\"--y\"")];
    let msg = coerce_submit_args(&arr).expect_err("null must hard-fail").message;
    assert!(msg.contains("args[1]"), "error must name the index, got: {msg}");
    assert!(msg.contains("null"), "error must mention null, got: {msg}");
    assert_eq!(msg, "args[1] is null — spark-submit args must be scalar");
}

#[test]
fn numbers_are_passed_as_their_text() {
    let arr = vec![j("-7"), j("18446744073709551615"), j("1.50"), j("false"), j("[null]")];
    let out = coerce_submit_args(&arr).unwrap();
    assert_eq!(out, vec!["-7", "18446744073709551615", "1.5", "false", "[null]"]);
    assert!(coerce_submit_args(&vec![]).unwrap().is_empty());
}

#[test]
fn arguments_that_are_no_strings_read_back() {
    let arr = vec![j(r#"[1, {"a": "x\"y"}]"#), j("true"), j("-3"), j(r#"{"b": [], "a": null}"#)];
    let out = coerce_submit_args(&arr).unwrap();
    assert_eq!(out[0], r#"[1,{"a":"x\"y"}]"#);
    assert_eq!(out[3], r#"{"a":null,"b":[]}"#);
    for (text, value) in out.iter().zip(arr) {
        assert_eq!(encode_json(j(text)), encode_json(value));
    }
}

#[test]
fn commands_without_fields_ask_for_themselves() {
    for (op, cmd) in [
        (Op::Ping, "ping"),
        (Op::Tables, "tables"),
        (Op::Databases, "databases"),
        (Op::Views, "views"),
        (Op::Catalogs, "catalogs"),
        (Op::CurrentDatabase, "current_database"),
        (Op::Functions, "functions"),
    ] {
        assert_eq!(body(op, r#"{"sql": "x", "table": "t"}"#), format!("{{\"cmd\":\"{cmd}\"}}"));
    }
}

#[test]
fn commands_with_one_field_need_it() {
    for (op, cmd, field) in [
        (Op::Execute, "execute", "sql"),
        (Op::DropTempView, "drop_temp_view", "name"),
        (Op::SetDatabase, "set_database", "database"),
        (Op::RefreshTable, "refresh_table", "table"),
        (Op::Schema, "schema", "table"),
        (Op::Columns, "columns", "table"),
        (Op::Cache, "cache", "table"),
        (Op::Uncache, "uncache", "table"),
    ] {
        let text = format!("{{\"{field}\": \"v\", \"limit\": 3}}");
        assert_eq!(body(op, &text), format!("{{\"cmd\":\"{cmd}\",\"{field}\":\"v\"}}"));
        assert_eq!(refused(op, "{}"), format!("missing {field}"));
        assert_eq!(refused(op, &format!("{{\"{field}\": 1}}")), format!("missing {field}"));
    }
}

#[test]
fn commands_with_more_fields_pass_them_on() {
    assert_eq!(
        body(Op::Query, r#"{"sql": "s", "limit": 5}"#),
        r#"{"cmd":"query","limit":5,"sql":"s"}"#
    );
    assert_eq!(
        body(Op::Query, r#"{"sql": "s", "limit": -5}"#),
        r#"{"cmd":"query","sql":"s"}"#
    );
    assert_eq!(
        body(
            Op::Dump,
            r#"{"table": "t", "columns": "a", "where": "w", "order_by": "o", "limit": 1}"#
        ),
        r#"{"cmd":"dump","columns":"a","limit":1,"order_by":"o","table":"t","where":"w"}"#
    );
    assert_eq!(
        body(Op::CreateTempView, r#"{"name": "v", "sql": "s"}"#),
        r#"{"cmd":"create_temp_view","name":"v","sql":"s"}"#
    );
    assert_eq!(
        body(Op::CreateTempView, r#"{"name": "v", "sql": 3}"#),
        r#"{"cmd":"create_temp_view","name":"v"}"#
    );
    assert_eq!(
        body(Op::Explain, r#"{"sql": "s", "mode": "cost"}"#),
        r#"{"cmd":"explain","mode":"cost","sql":"s"}"#
    );
    assert_eq!(
        body(
            Op::Read,
            r#"{"path": "p", "format": "csv", "view": "v", "sql": "s", "options": {"h": true}, "limit": 2}"#
        ),
        r#"{"cmd":"read","format":"csv","limit":2,"options":{"h":true},"path":"p","sql":"s","view":"v"}"#
    );
    assert_eq!(
        body(Op::Read, r#"{"path": "p", "options": [1]}"#),
        r#"{"cmd":"read","path":"p"}"#
    );
    assert_eq!(
        body(Op::Write, r#"{"sql": "s", "path": "p", "table": "t", "mode": "append", "options": {}}"#),
        r#"{"cmd":"write","mode":"append","options":{},"path":"p","sql":"s","table":"t"}"#
    );
}

#[test]
fn commands_that_lack_something_are_refused_in_words() {
    assert_eq!(refused(Op::Query, "{}"), "missing sql");
    assert_eq!(refused(Op::Dump, "{}"), "missing table");
    assert_eq!(refused(Op::CreateTempView, "{}"), "missing name");
    assert_eq!(refused(Op::Explain, "null"), "missing sql");
    assert_eq!(refused(Op::Read, "[]"), "missing path");
    assert_eq!(refused(Op::Config, "{}"), "missing key");
    assert_eq!(
        refused(Op::Write, r#"{"path": "p"}"#),
        "missing sql (query producing the data to write)"
    );
    assert_eq!(
        refused(Op::Write, r#"{"sql": "s", "path": 1}"#),
        "write needs a `path` or a `table` target"
    );
}

#[test]
fn config_reads_without_a_value_and_sets_with_one() {
    assert_eq!(body(Op::Config, r#"{"key": "k"}"#), r#"{"cmd":"config","key":"k"}"#);
    assert_eq!(
        body(Op::Config, r#"{"key": "k", "value": null}"#),
        r#"{"cmd":"config","key":"k"}"#
    );
    assert_eq!(
        body(Op::Config, r#"{"key": "k", "value": false}"#),
        r#"{"cmd":"config","key":"k","value":false}"#
    );
    assert_eq!(
        body(Op::Config, r#"{"key": "k", "value": {"a": 1.5}}"#),
        r#"{"cmd":"config","key":"k","value":{"a":1.5}}"#
    );
}

#[test]
fn rows_become_answers() {
    let said = |op: Op, out: &str| encode_json(answer_output(op, out).unwrap());
    assert_eq!(said(Op::Ping, "{\"a\":1}\n"), r#"{"ok":true,"rows":[{"a":1}]}"#);
    assert_eq!(said(Op::Query, "1\n2\n"), r#"{"rows":[1,2]}"#);
    assert_eq!(said(Op::Columns, ""), r#"{"rows":[]}"#);
    assert_eq!(said(Op::CurrentDatabase, "{\"database\":\"d\"}\n"), r#"{"database":"d"}"#);
    assert_eq!(said(Op::CurrentDatabase, ""), r#"{"database":null}"#);
    assert_eq!(said(Op::CurrentDatabase, "[]"), r#"{"database":null}"#);
    for op in [
        Op::CreateTempView,
        Op::DropTempView,
        Op::SetDatabase,
        Op::RefreshTable,
        Op::Write,
        Op::Cache,
        Op::Uncache,
        Op::Config,
    ] {
        assert_eq!(said(op, ""), r#"{"ok":true}"#);
        assert_eq!(said(op, "{\"ok\":false}\n2\n"), r#"{"ok":false}"#);
    }
    assert_eq!(said(Op::Explain, ""), r#"{"plan":""}"#);
    assert_eq!(said(Op::Explain, "{\"plan\":\"p\"}"), r#"{"plan":"p"}"#);
    assert_eq!(answer(Op::Explain, vec![j("1")]), j("1"));
    assert!(answer_output(Op::Ping, "x").is_err());
}
