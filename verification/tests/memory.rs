use serde_json::{Number, Value};
use stryke_spark::error::Error;
use stryke_spark::exports::{spark__parse_memory, MemoryStep};
use stryke_spark::json::Json;
use stryke_spark::memory::{op_build_memory, op_parse_memory};
use stryke_spark::wire::{encode_json, parse_json};

fn j(text: &str) -> Json {
    parse_json(text).unwrap()
}

fn size(text: &str) -> Json {
    Json::Object(vec![("memory".to_string(), Json::text(text))])
}

fn bytes(n: u64) -> Json {
    Json::Object(vec![("bytes".to_string(), Json::uint(n))])
}

fn ok(r: Result<Json, Error>) -> Value {
    serde_json::from_str(&encode_json(r.unwrap())).unwrap()
}

fn err(r: Result<Json, Error>) -> String {
    r.unwrap_err().message
}

/// The whole answer to a caller who names a size.
fn parsed(opts: Json) -> Result<Json, Error> {
    let z = op_parse_memory(opts)?;
    let mib = z.bytes as f64 / (1024.0 * 1024.0);
    Ok(z.to_json(Number::from_f64(mib).unwrap()))
}

fn with_mib(text: &str) -> Value {
    let MemoryStep::Mib(call) = spark__parse_memory(Some(text.as_bytes())) else {
        panic!("a size that can be read");
    };
    let mib = call.size.bytes as f64 / (1024.0 * 1024.0);
    serde_json::from_str(&call.finished(Number::from_f64(mib).unwrap())).unwrap()
}

#[test]
fn parse_memory_uses_binary_suffixes() {
    let m = ok(parsed(size("512m")));
    assert_eq!(m["value"], Value::from(512));
    assert_eq!(m["bytes"], Value::from(536_870_912u64));
    assert_eq!(m["mib"], Value::from(512.0));
    assert_eq!(
        ok(parsed(size("1kb")))["bytes"],
        Value::from(1024),
        "kb is 1024 bytes in Spark"
    );
    for s in ["2g", "2G", "2gb", "2GiB"] {
        assert_eq!(
            ok(parsed(size(s)))["bytes"],
            Value::from(2_147_483_648u64),
            "{s} = 2 GiB"
        );
    }
    assert_eq!(ok(parsed(size("4096")))["bytes"], Value::from(4096));
    assert_eq!(
        ok(parsed(size("1t")))["bytes"],
        Value::from(1_099_511_627_776u64)
    );
    assert!(parsed(size("g")).is_err());
    assert!(parsed(size("10x")).is_err());
    assert!(parsed(j("{}")).is_err());
}

#[test]
fn build_memory_picks_largest_dividing_unit_and_round_trips() {
    assert_eq!(ok(op_build_memory(bytes(0)))["string"], Value::from("0b"));
    let g = ok(op_build_memory(bytes(2_147_483_648)));
    assert_eq!(g["string"], Value::from("2g"));
    assert_eq!(g["suffix"], Value::from("g"));
    assert_eq!(
        ok(op_build_memory(bytes(1_610_612_736)))["string"],
        Value::from("1536m")
    );
    assert_eq!(ok(op_build_memory(bytes(1234)))["string"], Value::from("1234b"));
    assert_eq!(
        ok(op_build_memory(bytes(1_099_511_627_776)))["string"],
        Value::from("1t")
    );
    for n in [1234u64, 1024, 536_870_912, 2_147_483_648, 1_610_612_736] {
        let s = ok(op_build_memory(bytes(n)))["string"].as_str().unwrap().to_string();
        assert_eq!(
            ok(parsed(size(&s)))["bytes"],
            Value::from(n),
            "round-trip {n}"
        );
    }
    assert!(op_build_memory(j("{}")).is_err());
}

#[test]
fn every_suffix_in_either_case() {
    let units: [(&str, u64); 6] = [
        ("b", 1),
        ("k", 1 << 10),
        ("m", 1 << 20),
        ("g", 1 << 30),
        ("t", 1 << 40),
        ("p", 1 << 50),
    ];
    for (letter, unit) in units {
        let mut forms = vec![letter.to_string(), letter.to_uppercase()];
        if letter != "b" {
            for tail in ["b", "i", "ib", "B", "Ib"] {
                forms.push(format!("{letter}{tail}"));
            }
        }
        for f in forms {
            let v = ok(parsed(size(&format!("3{f}"))));
            assert_eq!(v["bytes"], Value::from(3 * unit), "3{f}");
            assert_eq!(v["suffix"], Value::from(f.to_lowercase()));
            assert_eq!(v["value"], Value::from(3));
        }
    }
}

#[test]
fn sizes_that_cannot_be_read_are_refused_in_words() {
    assert_eq!(err(parsed(j("{}"))), "missing memory");
    assert_eq!(err(parsed(size(" g "))), "Spark size `g` has no numeric value");
    assert_eq!(err(parsed(size(""))), "Spark size `` has no numeric value");
    assert_eq!(err(parsed(size("10X"))), "unknown Spark size suffix `x`");
    assert_eq!(err(parsed(size("10 m"))), "unknown Spark size suffix ` m`");
    assert_eq!(
        err(parsed(size("18446744073709551616"))),
        "number too large to fit in target type"
    );
    assert_eq!(
        err(parsed(size("\t16384P\n"))),
        "size overflows u64 bytes: `16384P`"
    );
    assert_eq!(
        ok(parsed(j(r#"{"size": "16383p"}"#)))["bytes"],
        Value::from(16383u64 << 50)
    );
    let MemoryStep::Reply(r) = spark__parse_memory(None) else {
        panic!("nothing to read");
    };
    assert_eq!(r, r#"{"error":"missing memory"}"#);
}

#[test]
fn a_built_size_is_answered_with_all_its_parts() {
    assert_eq!(
        ok(op_build_memory(bytes(3 << 40))),
        ok(Ok(j(r#"{"value": 3, "suffix": "t", "string": "3t", "bytes": 3298534883328}"#)))
    );
    assert_eq!(
        ok(op_build_memory(bytes(0))),
        ok(Ok(j(r#"{"value": 0, "suffix": "b", "string": "0b", "bytes": 0}"#)))
    );
    assert_eq!(ok(op_build_memory(bytes(u64::MAX)))["string"], Value::from("18446744073709551615b"));
    assert_eq!(ok(op_build_memory(bytes(1 << 60)))["string"], Value::from("1024p"));
    assert_eq!(err(op_build_memory(j(r#"{"bytes": -1}"#))), "missing bytes");
    assert_eq!(err(op_build_memory(j(r#"{"bytes": 1.5}"#))), "missing bytes");
}

#[test]
fn a_read_size_is_answered_with_its_mebibytes() {
    let v = with_mib(r#"{"memory": "1536k"}"#);
    assert_eq!(v["mib"], Value::from(1.5));
    assert_eq!(v["suffix"], Value::from("k"));
    assert_eq!(v.as_object().unwrap().len(), 4);
}
