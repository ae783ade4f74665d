use serde_json::Value;
use stryke_spark::call::{
    begin, begin_submit, decode_args, panicked, refuse, reply, CallStep, Exit, SpawnCall,
};
use stryke_spark::error::Error;
use stryke_spark::exports::{
    spark__build_master_url, spark__build_memory, spark__build_table_name, spark__cache,
    spark__catalogs, spark__columns, spark__config, spark__create_temp_view,
    spark__current_database, spark__databases, spark__drop_temp_view, spark__dump, spark__execute,
    spark__explain, spark__functions, spark__parse_master_url, spark__parse_table_name,
    spark__ping, spark__pkg_version, spark__query, spark__quote_ident,
    spark__quote_qualified_ident, spark__read, spark__refresh_table, spark__schema,
    spark__set_database, spark__submit, spark__tables, spark__uncache, spark__unquote_ident,
    spark__views, spark__write,
};
use stryke_spark::json::Json;
use stryke_spark::opts::Env;
use stryke_spark::requests::Op;
use stryke_spark::wire::parse_json;

fn env() -> Env {
    Env { submit: Some("/opt/spark-submit".into()), home: None, path: None }
}

fn no_env() -> Env {
    Env { submit: None, home: None, path: None }
}

fn said(text: &str) -> Value {
    serde_json::from_str(text).unwrap()
}

fn j(text: &str) -> Json {
    parse_json(text).unwrap()
}

fn replied(step: CallStep) -> String {
    let CallStep::Reply(s) = step else {
        panic!("a reply at once");
    };
    s
}

fn spawned(step: CallStep) -> SpawnCall {
    let CallStep::WriteDriver(d) = step else {
        panic!("the driver is written first");
    };
    let CallStep::Probe(p) = d.written("/tmp/driver.py".into()) else {
        panic!("then spark-submit is looked for");
    };
    let CallStep::Spawn(s) = p.answer(true) else {
        panic!("a file is started");
    };
    s
}

fn success() -> Exit {
    Exit { success: true, code: Some(0), words: "exit status: 0".into() }
}

#[test]
fn cdylib_replacement_for_helper_binary_compiles() {}

#[test]
fn a_panic_is_told_in_fixed_words() {
    let v = said(&panicked());
    assert_eq!(v["error"], Value::from("stryke-spark handler panicked"));
    assert_eq!(v.as_object().unwrap().len(), 1);
}

#[test]
fn the_version_is_told_as_it_was_handed_in() {
    let v = said(&spark__pkg_version(None, "0.2.1"));
    assert_eq!(v["version"], Value::from("0.2.1"));
    assert_eq!(spark__pkg_version(Some(b"garbage"), "1\"2"), r#"{"version":"1\"2"}"#);
}

#[test]
fn ffi_call_malformed_json_input_silently_becomes_null() {
    assert_eq!(decode_args(Some(b"not json {{{")), Json::Null);
    assert_eq!(decode_args(Some(&[0xff, 0xfe])), Json::Null);
    assert_eq!(decode_args(Some(b"")), Json::Null);
    assert_eq!(decode_args(None), Json::Null);
    assert_eq!(decode_args(Some(b" {\"a\": [1, true]} ")), j(r#"{"a":[1,true]}"#));
}

#[test]
fn new_ops_validate_before_spark_submit() {
    let cases: &[(fn(Option<&[u8]>, &Env) -> CallStep, &str, &str)] = &[
        (spark__explain, r#"{}"#, "missing sql"),
        (spark__read, r#"{}"#, "missing path"),
        (spark__write, r#"{}"#, "missing sql"),
        (spark__write, r#"{"sql":"select 1"}"#, "needs a `path` or a `table`"),
        (spark__columns, r#"{}"#, "missing table"),
        (spark__cache, r#"{}"#, "missing table"),
        (spark__uncache, r#"{}"#, "missing table"),
        (spark__config, r#"{}"#, "missing key"),
    ];
    for (f, arg, want) in cases {
        let v = said(&replied(f(Some(arg.as_bytes()), &env())));
        let err = v.get("error").and_then(|e| e.as_str()).unwrap_or("");
        assert!(err.contains(want), "expected `{want}` for {arg}; got: {err}");
        assert!(
            !err.contains("spark-submit"),
            "validation must fire before spark-submit lookup; got: {err}"
        );
    }
}

#[test]
fn every_call_that_needs_a_field_is_refused_without_it() {
    let cases: &[(fn(Option<&[u8]>, &Env) -> CallStep, &str)] = &[
        (spark__query, "missing sql"),
        (spark__execute, "missing sql"),
        (spark__dump, "missing table"),
        (spark__create_temp_view, "missing name"),
        (spark__drop_temp_view, "missing name"),
        (spark__set_database, "missing database"),
        (spark__refresh_table, "missing table"),
        (spark__schema, "missing table"),
        (spark__submit, "missing script"),
    ];
    for (f, want) in cases {
        assert_eq!(said(&replied(f(None, &env())))["error"], Value::from(*want));
    }
}

#[test]
fn every_call_without_fields_reaches_the_driver() {
    let cases: &[(fn(Option<&[u8]>, &Env) -> CallStep, &str)] = &[
        (spark__ping, "ping"),
        (spark__tables, "tables"),
        (spark__databases, "databases"),
        (spark__views, "views"),
        (spark__catalogs, "catalogs"),
        (spark__current_database, "current_database"),
        (spark__functions, "functions"),
    ];
    for (f, cmd) in cases {
        let s = spawned(f(Some(b"junk"), &env()));
        assert_eq!(s.spawn.program, "/opt/spark-submit");
        assert_eq!(said(s.spawn.args.last().unwrap())["cmd"], Value::from(*cmd));
    }
}

#[test]
fn a_query_is_carried_through_to_its_rows() {
    let args = br#"{"sql": "SELECT 1", "limit": 2, "database": "shop", "master": "yarn"}"#;
    let s = spawned(spark__query(Some(args), &env()));
    assert_eq!(
        s.spawn.args,
        vec![
            "--conf",
            "spark.log.level=ERROR",
            "--conf",
            "spark.sql.catalogImplementation=in-memory",
            "--master",
            "yarn",
            "--name",
            "stryke-spark",
            "/tmp/driver.py",
            r#"{"cmd":"query","database":"shop","limit":2,"sql":"SELECT 1"}"#,
        ]
    );
    let r = s.finished(&success(), "{\"x\":1}\n{\"x\":2}\n".into());
    assert_eq!(r, r#"{"rows":[{"x":1},{"x":2}]}"#);
}

#[test]
fn a_driver_that_fails_is_an_error() {
    let s = spawned(spark__ping(None, &env()));
    let exit = Exit { success: false, code: Some(3), words: "exit status: 3".into() };
    assert_eq!(
        said(&s.finished(&exit, "{\"ok\":true}\n".into()))["error"],
        Value::from("spark-submit exited with exit status: 3 — see stderr for driver output")
    );
    let s = spawned(spark__ping(None, &env()));
    assert!(said(&s.finished(&success(), "oops".into()))["error"].is_string());
    let s = spawned(spark__ping(None, &env()));
    assert_eq!(said(&s.not_spawned())["error"], Value::from("spawning /opt/spark-submit"));
}

#[test]
fn a_driver_that_cannot_be_written_is_an_error() {
    let CallStep::WriteDriver(d) = begin(Op::Ping, Json::Null, &no_env()) else {
        panic!("the driver is written first");
    };
    assert_eq!(said(&d.not_created())["error"], Value::from("creating temp driver file"));
    let CallStep::WriteDriver(d) = begin(Op::Ping, Json::Null, &no_env()) else {
        panic!("the driver is written first");
    };
    assert_eq!(said(&d.not_written())["error"], Value::from("writing driver to temp file"));
    assert_eq!(refuse("disk \"full\""), r#"{"error":"disk \"full\""}"#);
}

#[test]
fn a_missing_spark_submit_is_told_after_the_driver_is_written() {
    let CallStep::WriteDriver(d) = begin(Op::Ping, Json::Null, &no_env()) else {
        panic!("the driver is written first");
    };
    let r = replied(d.written("/tmp/driver.py".into()));
    assert!(said(&r)["error"].as_str().unwrap().starts_with("spark-submit not found"));
    let CallStep::WriteDriver(d) = begin(Op::Ping, Json::Null, &env()) else {
        panic!("the driver is written first");
    };
    let CallStep::Probe(p) = d.written("/tmp/driver.py".into()) else {
        panic!("then spark-submit is looked for");
    };
    assert_eq!(
        said(&replied(p.answer(false)))["error"],
        Value::from("spark_submit `/opt/spark-submit` is not a file")
    );
}

#[test]
fn a_script_is_started_with_its_arguments_and_answered_with_its_output() {
    let args = br#"{"script": "job.py", "args": ["--n", 42, true], "app_name": "etl"}"#;
    let CallStep::Probe(p) = spark__submit(Some(args), &env()) else {
        panic!("a script is looked for at once");
    };
    let CallStep::Spawn(s) = p.answer(true) else {
        panic!("a file is started");
    };
    let n = s.spawn.args.len();
    assert_eq!(s.spawn.args[n - 4..], ["job.py", "--n", "42", "true"]);
    let exit = Exit { success: false, code: Some(2), words: "exit status: 2".into() };
    assert_eq!(
        s.finished(&exit, "a\nb".into()),
        r#"{"exit_code":2,"output":"a\nb","script":"job.py"}"#
    );
}

#[test]
fn a_killed_script_has_no_exit_code() {
    let CallStep::Probe(p) = begin_submit(j(r#"{"script": "s", "args": "x"}"#), &env()) else {
        panic!("a script is looked for at once");
    };
    let CallStep::Spawn(s) = p.answer(true) else {
        panic!("a file is started");
    };
    assert_eq!(s.spawn.args.last().unwrap(), "s");
    let exit = Exit { success: false, code: None, words: "signal: 9".into() };
    assert_eq!(
        s.finished(&exit, "".into()),
        r#"{"exit_code":null,"output":"","script":"s"}"#
    );
    let exit = Exit { success: false, code: Some(-5), words: "".into() };
    let CallStep::Probe(p) = begin_submit(j(r#"{"script": "s"}"#), &env()) else {
        panic!("a script is looked for at once");
    };
    let CallStep::Spawn(s) = p.answer(true) else {
        panic!("a file is started");
    };
    assert_eq!(said(&s.finished(&exit, "".into()))["exit_code"], Value::from(-5));
}

#[test]
fn a_null_argument_is_refused_before_any_search() {
    let r = replied(begin_submit(j(r#"{"script": "s", "args": [null]}"#), &no_env()));
    assert_eq!(
        said(&r)["error"],
        Value::from("args[0] is null — spark-submit args must be scalar")
    );
}

#[test]
fn pure_calls_reply_in_json() {
    assert_eq!(
        spark__parse_master_url(Some(br#"{"url": "spark://h:7077"}"#)),
        r#"{"hosts":[{"host":"h","port":7077}],"scheme":"spark"}"#
    );
    assert_eq!(spark__parse_master_url(None), r#"{"error":"missing url"}"#);
    assert_eq!(
        spark__build_master_url(Some(br#"{"scheme": "local", "threads": 4}"#)),
        r#"{"url":"local[4]"}"#
    );
    assert_eq!(
        spark__parse_table_name(Some(br#"{"name": "d.t"}"#)),
        r#"{"catalog":null,"database":"d","parts":["d","t"],"table":"t"}"#
    );
    assert_eq!(spark__build_table_name(Some(br#"{"table": "a.b"}"#)), r#"{"name":"`a.b`"}"#);
    assert_eq!(
        spark__build_memory(Some(br#"{"bytes": 2048}"#)),
        r#"{"bytes":2048,"string":"2k","suffix":"k","value":2}"#
    );
    assert_eq!(spark__quote_ident(Some(br#"{"name": "a`b"}"#)), r#"{"quoted":"`a``b`"}"#);
    assert_eq!(spark__unquote_ident(Some(br#"{"quoted": "`a``b`"}"#)), r#"{"name":"a`b"}"#);
    assert_eq!(
        spark__quote_qualified_ident(Some(br#"{"name": "d.t"}"#)),
        r#"{"parts":["d","t"],"quoted":"`d`.`t`"}"#
    );
}

#[test]
fn a_reply_holds_no_null_character_and_reads_back() {
    let text = reply(Ok(j(r#"{"a": "x\u0000y", "b": [1, -2, null, {"c": "é"}]}"#)));
    assert!(!text.contains('\0'));
    assert_eq!(parse_json(&text).unwrap(), j(&text));
    let text = reply(Err(Error::new("\0\n\"")));
    assert!(!text.contains('\0'));
    assert_eq!(said(&text)["error"], Value::from("\0\n\""));
}
