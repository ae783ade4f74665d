use serde_json::Value;
use stryke_spark::error::Error;
use stryke_spark::ident::{quote_ident_str, split_qualified};
use stryke_spark::json::Json;
use stryke_spark::names::{
    op_build_table_name, op_parse_table_name, op_quote_ident, op_quote_qualified_ident,
    op_unquote_ident,
};
use stryke_spark::wire::{encode_json, parse_json};

fn j(text: &str) -> Json {
    parse_json(text).unwrap()
}

fn one(key: &str, text: &str) -> Json {
    Json::Object(vec![(key.to_string(), Json::text(text))])
}

fn ok(r: Result<Json, Error>) -> Value {
    serde_json::from_str(&encode_json(r.unwrap())).unwrap()
}

fn err(r: Result<Json, Error>) -> String {
    r.unwrap_err().message
}

#[test]
fn parse_table_name_one_two_three_parts() {
    let t = ok(op_parse_table_name(j(r#"{"name": "events"}"#)));
    assert_eq!(t["table"], Value::from("events"));
    assert_eq!(t["database"], Value::Null);
    let dt = ok(op_parse_table_name(j(r#"{"name": "analytics.events"}"#)));
    assert_eq!(dt["database"], Value::from("analytics"));
    assert_eq!(dt["table"], Value::from("events"));
    let cdt = ok(op_parse_table_name(j(r#"{"name": "iceberg.analytics.events"}"#)));
    assert_eq!(cdt["catalog"], Value::from("iceberg"));
    assert_eq!(cdt["database"], Value::from("analytics"));
    assert_eq!(cdt["table"], Value::from("events"));
    assert!(op_parse_table_name(j(r#"{"name": "a.b.c.d"}"#)).is_err());
}

#[test]
fn parse_table_name_honors_backtick_quoting() {
    let t = ok(op_parse_table_name(j(r#"{"name": "db.`weird.table`"}"#)));
    assert_eq!(t["database"], Value::from("db"));
    assert_eq!(t["table"], Value::from("weird.table"), "dotted quoted name stays together");
    let t2 = ok(op_parse_table_name(j(r#"{"name": "`a``b`"}"#)));
    assert_eq!(t2["table"], Value::from("a`b"));
}

#[test]
fn build_table_name_inverts_parse_table_name() {
    let three = r#"{"catalog": "iceberg", "database": "analytics", "table": "events"}"#;
    assert_eq!(
        ok(op_build_table_name(j(three)))["name"],
        Value::from("iceberg.analytics.events")
    );
    assert_eq!(
        ok(op_build_table_name(j(r#"{"table": "events"}"#)))["name"],
        Value::from("events")
    );
    assert_eq!(
        ok(op_build_table_name(j(r#"{"database": "db", "table": "t"}"#)))["name"],
        Value::from("db.t")
    );
    let built =
        ok(op_build_table_name(j(r#"{"database": "db", "table": "weird.table"}"#)))["name"].clone();
    assert_eq!(built, Value::from("db.`weird.table`"));
    let back = ok(op_parse_table_name(one("name", built.as_str().unwrap())));
    assert_eq!(back["database"], Value::from("db"));
    assert_eq!(back["table"], Value::from("weird.table"));
    assert!(op_build_table_name(j(r#"{"catalog": "c", "table": "t"}"#)).is_err());
    assert!(op_build_table_name(j(r#"{"database": "db"}"#)).is_err());
}

#[test]
fn quote_ident_doubles_backticks() {
    assert_eq!(
        ok(op_quote_ident(j(r#"{"name": "weird`col"}"#)))["quoted"],
        Value::from("`weird``col`")
    );
}

#[test]
fn unquote_ident_inverts_quote_ident() {
    assert_eq!(
        ok(op_unquote_ident(j(r#"{"quoted": "`weird``col`"}"#)))["name"],
        Value::from("weird`col")
    );
    assert_eq!(
        ok(op_unquote_ident(j(r#"{"quoted": "`plain`"}"#)))["name"],
        Value::from("plain")
    );
    assert_eq!(ok(op_unquote_ident(j(r#"{"quoted": "``"}"#)))["name"], Value::from(""));
    for raw in ["table", "weird`col", "has space", "a``b`c"] {
        let q = ok(op_quote_ident(one("name", raw)))["quoted"].clone();
        assert_eq!(
            ok(op_unquote_ident(one("quoted", q.as_str().unwrap())))["name"],
            Value::from(raw),
            "round-trip {raw:?}"
        );
    }
    assert!(op_unquote_ident(j(r#"{"quoted": "plain"}"#)).is_err());
    assert!(op_unquote_ident(j(r#"{"quoted": "`a`b`"}"#)).is_err());
    assert!(op_unquote_ident(j("{}")).is_err());
}

#[test]
fn quote_qualified_ident_backticks_each_part() {
    let v = ok(op_quote_qualified_ident(j(r#"{"name": "cat.db.my table"}"#)));
    assert_eq!(v["quoted"], Value::from("`cat`.`db`.`my table`"));
    assert_eq!(v["parts"], Value::from(vec!["cat", "db", "my table"]));
    let q = ok(op_quote_qualified_ident(j(r#"{"name": "db.`weird.table`"}"#)));
    assert_eq!(q["quoted"], Value::from("`db`.`weird.table`"));
    let back = ok(op_parse_table_name(one("name", q["quoted"].as_str().unwrap())));
    assert_eq!(back["database"], Value::from("db"));
    assert_eq!(back["table"], Value::from("weird.table"));
    assert_eq!(
        ok(op_quote_qualified_ident(j(r#"{"name": "t"}"#)))["quoted"],
        Value::from("`t`")
    );
    assert!(op_quote_qualified_ident(j(r#"{"name": "a.b.c.d"}"#)).is_err());
}

#[test]
fn every_backtick_inside_a_quoted_name_is_doubled() {
    assert_eq!(
        err(op_unquote_ident(one("quoted", "`a`b`c`"))),
        "malformed identifier: unpaired backtick in `a`b`c`"
    );
    assert_eq!(
        err(op_unquote_ident(one("quoted", "`a`b`"))),
        "malformed identifier: unpaired backtick in `a`b`"
    );
    assert_eq!(
        err(op_unquote_ident(one("quoted", "plain"))),
        "not a backtick-quoted identifier: plain"
    );
    assert_eq!(
        err(op_unquote_ident(one("quoted", "`"))),
        "not a backtick-quoted identifier: `"
    );
    assert_eq!(err(op_unquote_ident(j("{}"))), "missing quoted");
    assert_eq!(ok(op_unquote_ident(one("ident", "````")))["name"], Value::from("`"));
}

#[test]
fn what_decodes_is_quoted_again_as_it_was() {
    for q in ["``", "````", "`a``b`", "`日本``語`"] {
        let name = ok(op_unquote_ident(one("quoted", q)))["name"].clone();
        assert_eq!(
            ok(op_quote_ident(one("name", name.as_str().unwrap())))["quoted"],
            Value::from(q)
        );
    }
    assert_eq!(err(op_quote_ident(j(r#"{"name": 1}"#))), "missing name");
}

#[test]
fn a_dotted_name_splits_outside_backticks_only() {
    assert_eq!(split_qualified(""), vec![""]);
    assert_eq!(split_qualified("a..b"), vec!["a", "", "b"]);
    assert_eq!(split_qualified("`a.b`.c"), vec!["a.b", "c"]);
    assert_eq!(split_qualified("``.x"), vec!["", "x"]);
    assert_eq!(split_qualified("`a``.b`"), vec!["a`.b"]);
    assert_eq!(split_qualified("a`b.c"), vec!["ab.c"]);
    assert_eq!(quote_ident_str(""), "``");
}

#[test]
fn table_names_are_refused_in_words() {
    assert_eq!(err(op_parse_table_name(j("{}"))), "missing name");
    assert_eq!(
        err(op_parse_table_name(one("table", "a.b.c.d"))),
        "too many parts (max catalog.database.table): a.b.c.d"
    );
    assert_eq!(err(op_build_table_name(j(r#"{"table": ""}"#))), "missing table");
    assert_eq!(
        err(op_build_table_name(j(r#"{"catalog": "c", "table": "t"}"#))),
        "catalog requires a database"
    );
    assert_eq!(
        err(op_quote_qualified_ident(one("name", "a..b.c.d"))),
        "qualified identifier has an empty part: a..b.c.d"
    );
    assert_eq!(
        err(op_quote_qualified_ident(one("name", "a.b.c.d"))),
        "too many parts (max catalog.database.table): a.b.c.d"
    );
    assert_eq!(err(op_quote_qualified_ident(j("null"))), "missing name");
}

#[test]
fn the_first_of_two_keys_decides() {
    assert_eq!(
        err(op_parse_table_name(j(r#"{"name": 1, "table": "t"}"#))),
        "missing name"
    );
    let t = ok(op_parse_table_name(j(r#"{"name": "n", "table": "t"}"#)));
    assert_eq!(t["table"], Value::from("n"));
}

#[test]
fn built_names_parse_into_their_parts_whatever_they_hold() {
    for (c, d, t) in [("a.b", "`", "x"), ("`.`", "d e", "..."), ("c", "``", "日.本")] {
        let opts = Json::Object(vec![
            ("catalog".to_string(), Json::text(c)),
            ("database".to_string(), Json::text(d)),
            ("table".to_string(), Json::text(t)),
        ]);
        let built = op_build_table_name(opts).unwrap();
        let back = ok(op_parse_table_name(built));
        assert_eq!(back["catalog"], Value::from(c));
        assert_eq!(back["database"], Value::from(d));
        assert_eq!(back["table"], Value::from(t));
        assert_eq!(back["parts"], Value::from(vec![c, d, t]));
    }
}

#[test]
fn building_from_a_parsed_name_keeps_its_parts() {
    let parsed = op_parse_table_name(one("name", "`db`.`t``x`")).unwrap();
    let again = op_parse_table_name(one("name", "`db`.`t``x`")).unwrap();
    let built = op_build_table_name(parsed).unwrap();
    assert_eq!(built.str_at("name"), Some("db.`t``x`"));
    assert_eq!(op_parse_table_name(built).unwrap(), again);
}
