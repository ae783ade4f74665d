use serde_json::Value;
use stryke_spark::error::Error;
use stryke_spark::json::Json;
use stryke_spark::master::{op_build_master_url, op_parse_master_url};
use stryke_spark::wire::{encode_json, parse_json};

fn j(text: &str) -> Json {
    parse_json(text).unwrap()
}

fn url(text: &str) -> Json {
    Json::Object(vec![("url".to_string(), Json::text(text))])
}

fn ok(r: Result<Json, Error>) -> Value {
    serde_json::from_str(&encode_json(r.unwrap())).unwrap()
}

fn err(r: Result<Json, Error>) -> String {
    r.unwrap_err().message
}

#[test]
fn parse_master_url_local_forms() {
    assert_eq!(
        ok(op_parse_master_url(url("local"))),
        ok(Ok(j(r#"{"scheme": "local", "threads": 1}"#)))
    );
    assert_eq!(ok(op_parse_master_url(url("local[8]")))["threads"], Value::from(8));
    assert_eq!(ok(op_parse_master_url(url("local[*]")))["threads"], Value::from("*"));
    assert!(op_parse_master_url(url("local[x]")).is_err());
}

#[test]
fn parse_master_url_standalone_and_scheme_forms() {
    let ha = ok(op_parse_master_url(url("spark://m1:7077,m2:7077")));
    let hosts = ha["hosts"].as_array().unwrap();
    assert_eq!(hosts.len(), 2, "standalone HA host list");
    assert_eq!(hosts[0]["host"], Value::from("m1"));
    assert_eq!(hosts[0]["port"], Value::from(7077));
    assert_eq!(ok(op_parse_master_url(url("yarn")))["scheme"], Value::from("yarn"));
    let k8s = ok(op_parse_master_url(url("k8s://https://api:6443")));
    assert_eq!(k8s["scheme"], Value::from("k8s"));
    assert_eq!(
        k8s["master"],
        Value::from("https://api:6443"),
        "k8s keeps the full inner URL"
    );
}

#[test]
fn build_master_url_inverts_parse_master_url() {
    assert_eq!(
        ok(op_build_master_url(j(r#"{"scheme": "local"}"#)))["url"],
        Value::from("local")
    );
    assert_eq!(
        ok(op_build_master_url(j(r#"{"scheme": "local", "threads": 1}"#)))["url"],
        Value::from("local")
    );
    assert_eq!(
        ok(op_build_master_url(j(r#"{"scheme": "local", "threads": 8}"#)))["url"],
        Value::from("local[8]")
    );
    assert_eq!(
        ok(op_build_master_url(j(r#"{"scheme": "local", "threads": "*"}"#)))["url"],
        Value::from("local[*]")
    );
    for u in [
        "local",
        "local[8]",
        "local[*]",
        "yarn",
        "spark://m1:7077",
        "spark://m1:7077,m2:7077",
        "mesos://host:5050",
        "k8s://https://api:6443",
    ] {
        let parsed = op_parse_master_url(url(u)).unwrap();
        let rebuilt = ok(op_build_master_url(parsed))["url"].clone();
        assert_eq!(rebuilt, Value::from(u), "round-trip for {u}");
    }
    assert!(op_build_master_url(j(r#"{"scheme": "spark", "hosts": []}"#)).is_err());
    assert!(op_build_master_url(j(r#"{"scheme": "mesos"}"#)).is_err());
    assert!(op_build_master_url(j("{}")).is_err());
}

#[test]
fn urls_that_are_no_master_are_refused_in_words() {
    assert_eq!(err(op_parse_master_url(j("{}"))), "missing url");
    assert_eq!(err(op_parse_master_url(url("hello"))), "not a Spark master URL: hello");
    assert_eq!(
        err(op_parse_master_url(url("local[x]"))),
        "invalid local thread count `x`"
    );
    assert_eq!(err(op_parse_master_url(url("local[]"))), "invalid local thread count ``");
    assert_eq!(
        err(op_parse_master_url(url("local[4294967296]"))),
        "invalid local thread count `4294967296`"
    );
    assert_eq!(
        ok(op_parse_master_url(j(r#"{"master": "local[4294967295]"}"#)))["threads"],
        Value::from(4294967295u64)
    );
}

#[test]
fn hosts_are_told_from_ports_at_the_last_colon() {
    let v = ok(op_parse_master_url(url("spark://a:1,b,,[::1]:2,c:d,e:4294967296,:3")));
    let hosts = v["hosts"].as_array().unwrap();
    let seen: Vec<(String, Value)> = hosts
        .iter()
        .map(|h| (h["host"].as_str().unwrap().to_string(), h["port"].clone()))
        .collect();
    assert_eq!(
        seen,
        vec![
            ("a".to_string(), Value::from(1)),
            ("b".to_string(), Value::Null),
            ("[::1]".to_string(), Value::from(2)),
            ("c:d".to_string(), Value::Null),
            ("e:4294967296".to_string(), Value::Null),
            ("".to_string(), Value::from(3)),
        ]
    );
}

#[test]
fn parts_that_make_no_url_are_refused_in_words() {
    assert_eq!(err(op_build_master_url(j("{}"))), "missing scheme");
    assert_eq!(
        err(op_build_master_url(j(r#"{"scheme": "local", "threads": -1}"#))),
        "invalid thread count"
    );
    assert_eq!(
        err(op_build_master_url(j(r#"{"scheme": "local", "threads": 2.5}"#))),
        "invalid thread count"
    );
    assert_eq!(
        err(op_build_master_url(j(r#"{"scheme": "local", "threads": "x"}"#))),
        r#"invalid threads value: "x""#
    );
    assert_eq!(
        err(op_build_master_url(j(r#"{"scheme": "local", "threads": null}"#))),
        "invalid threads value: null"
    );
    assert_eq!(
        err(op_build_master_url(j(r#"{"scheme": "local", "threads": {"b": 1, "a": [true]}}"#))),
        r#"invalid threads value: {"a":[true],"b":1}"#
    );
    assert_eq!(
        err(op_build_master_url(j(r#"{"scheme": "spark", "hosts": []}"#))),
        "spark scheme requires a non-empty hosts list"
    );
    assert_eq!(
        err(op_build_master_url(j(r#"{"scheme": "spark", "hosts": "h"}"#))),
        "spark scheme requires a non-empty hosts list"
    );
    assert_eq!(
        err(op_build_master_url(j(r#"{"scheme": "spark", "hosts": [{"host": "a"}, {}]}"#))),
        "host entry missing `host`"
    );
    assert_eq!(
        err(op_build_master_url(j(r#"{"scheme": "spark", "hosts": [{"host": ""}]}"#))),
        "host entry missing `host`"
    );
    assert_eq!(
        err(op_build_master_url(j(r#"{"scheme": "k8s"}"#))),
        "`k8s` scheme requires a master address"
    );
}

#[test]
fn only_canonical_urls_are_built_again_as_they_were() {
    let again = |u: &str| -> Option<String> {
        let parsed = op_parse_master_url(url(u)).ok()?;
        let built = op_build_master_url(parsed).ok()?;
        Some(built.str_at("url").unwrap().to_string())
    };
    assert_eq!(again("local[1]").as_deref(), Some("local"));
    assert_eq!(again("local[0]").as_deref(), Some("local[0]"));
    assert_eq!(again("local[08]").as_deref(), Some("local[8]"));
    assert_eq!(again("local[+8]").as_deref(), Some("local[8]"));
    assert_eq!(again("spark://h:07077").as_deref(), Some("spark://h:7077"));
    assert_eq!(again("spark://a,,b").as_deref(), Some("spark://a,b"));
    assert_eq!(again("spark://,"), None);
    assert_eq!(again("local://x").as_deref(), Some("local"));
    assert_eq!(again("spark://a,b:1,[::1]:5").as_deref(), Some("spark://a,b:1,[::1]:5"));
    assert_eq!(again("://x").as_deref(), Some("://x"));
}

#[test]
fn ports_of_any_size_are_written() {
    let hosts = r#"{"scheme": "spark", "hosts": [{"host": "a", "port": 18446744073709551615}, {"host": "b", "port": "x"}]}"#;
    assert_eq!(
        ok(op_build_master_url(j(hosts)))["url"],
        Value::from("spark://a:18446744073709551615,b")
    );
}

#[test]
fn what_is_built_parses_into_its_parts() {
    for (given, want) in [
        (r#"{"scheme": "local"}"#, r#"{"scheme":"local","threads":1}"#),
        (r#"{"scheme": "local", "threads": 0}"#, r#"{"scheme":"local","threads":0}"#),
        (r#"{"scheme": "local", "threads": 16}"#, r#"{"scheme":"local","threads":16}"#),
        (r#"{"scheme": "local", "threads": "*"}"#, r#"{"scheme":"local","threads":"*"}"#),
        (r#"{"scheme": "yarn", "hosts": []}"#, r#"{"scheme":"yarn"}"#),
        (
            r#"{"scheme": "spark", "hosts": [{"host": "a"}, {"host": "b", "port": 7077}]}"#,
            r#"{"hosts":[{"host":"a","port":null},{"host":"b","port":7077}],"scheme":"spark"}"#,
        ),
        (
            r#"{"scheme": "k8s", "master": "https://api:6443"}"#,
            r#"{"master":"https://api:6443","scheme":"k8s"}"#,
        ),
    ] {
        let built = op_build_master_url(j(given)).unwrap();
        assert_eq!(encode_json(op_parse_master_url(built).unwrap()), want);
    }
}
