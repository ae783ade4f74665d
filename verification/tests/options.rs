use stryke_spark::json::Json;
use stryke_spark::launch::{path_below, Step};
use stryke_spark::opts::{Env, SparkOpts};
use stryke_spark::wire::parse_json;

fn no_env() -> Env {
    Env { submit: None, home: None, path: None }
}

fn j(text: &str) -> Json {
    parse_json(text).unwrap()
}

fn opts(text: &str) -> SparkOpts {
    SparkOpts::from_value(&j(text), &no_env())
}

fn locate(o: &SparkOpts, path: Option<&str>, files: &[&str]) -> Result<String, String> {
    let mut step = o.locate_spark_submit(path, vec![]);
    loop {
        step = match step {
            Step::Probe(p) => {
                let there = files.contains(&p.path.as_str());
                p.answer(there)
            }
            Step::Spawn(s) => return Ok(s.program),
            Step::Fail(e) => return Err(e),
        };
    }
}

#[test]
fn opts_defaults_all_none() {
    let o = opts("{}");
    assert_eq!(o.master, None);
    assert_eq!(o.app_name, None);
    assert!(o.confs.is_empty());
    assert_eq!(o.spark_submit, None);
    assert_eq!(o.spark_home, None);
}

#[test]
fn opts_full_overrides_round_trip() {
    let o = opts(
        r#"{
            "master": "yarn",
            "app_name": "demo",
            "deploy_mode": "client",
            "packages": "org.apache.iceberg:iceberg-spark:1.4.0",
            "jars": "/lib/foo.jar",
            "confs": ["spark.executor.memory=4g", "spark.cores.max=8"],
            "database": "default"
        }"#,
    );
    assert_eq!(o.master.as_deref(), Some("yarn"));
    assert_eq!(o.app_name.as_deref(), Some("demo"));
    assert_eq!(o.deploy_mode.as_deref(), Some("client"));
    assert_eq!(o.packages.as_deref(), Some("org.apache.iceberg:iceberg-spark:1.4.0"));
    assert_eq!(o.jars.as_deref(), Some("/lib/foo.jar"));
    assert_eq!(o.confs.len(), 2);
    assert_eq!(o.database.as_deref(), Some("default"));
}

#[test]
fn opts_spark_submit_from_env_when_not_in_opts() {
    let env = Env { submit: Some("/from/env/spark-submit".into()), home: None, path: None };
    let o = SparkOpts::from_value(&j("{}"), &env);
    assert_eq!(o.spark_submit.as_deref(), Some("/from/env/spark-submit"));
}

#[test]
fn opts_spark_submit_opts_wins_over_env() {
    let env = Env { submit: Some("/from/env".into()), home: None, path: None };
    let o = SparkOpts::from_value(&j(r#"{"spark_submit": "/from/opts"}"#), &env);
    assert_eq!(o.spark_submit.as_deref(), Some("/from/opts"));
}

#[test]
fn opts_spark_home_from_env() {
    let env = Env { submit: None, home: Some("/opt/spark".into()), path: None };
    let o = SparkOpts::from_value(&j("{}"), &env);
    assert_eq!(o.spark_home.as_deref(), Some("/opt/spark"));
}

#[test]
fn opts_of_another_type_are_not_set() {
    let o = opts(r#"{"master": 1, "confs": ["a=1", 2, null, "b=2"], "jars": null}"#);
    assert_eq!(o.master, None);
    assert_eq!(o.jars, None);
    assert_eq!(o.confs, vec!["a=1", "b=2"]);
    assert!(opts(r#"{"confs": {"a": "1"}}"#).confs.is_empty());
    assert_eq!(opts("null").master, None);
}

#[test]
fn locate_explicit_nonfile_errors() {
    let o = opts(r#"{"spark_submit": "/does/not/exist"}"#);
    let err = locate(&o, None, &[]).unwrap_err();
    assert!(err.contains("not a file"), "{err}");
    assert_eq!(err, "spark_submit `/does/not/exist` is not a file");
}

#[test]
fn locate_no_env_no_opts_no_path_errors() {
    let o = opts("{}");
    let err = locate(&o, Some("/no/spark/here"), &[]).unwrap_err();
    assert!(err.contains("spark-submit not found"), "{err}");
    assert_eq!(
        locate(&o, None, &[]).unwrap_err(),
        "spark-submit not found — set `spark_home` opt, or pass `spark_submit`, or put it on $PATH"
    );
}

#[test]
fn locate_picks_explicit_when_file_exists() {
    let o = opts(r#"{"spark_submit": "/tmp/some-file"}"#);
    assert_eq!(locate(&o, None, &["/tmp/some-file"]).unwrap(), "/tmp/some-file");
}

#[test]
fn locate_explicit_bad_does_not_fall_through_to_valid_path() {
    let o = opts(r#"{"spark_submit": "/definitely/not/here/spark-submit"}"#);
    let err = locate(&o, Some("/dir"), &["/dir/spark-submit"]).unwrap_err();
    assert!(
        err.contains("is not a file"),
        "explicit bad path must error, not silently use $PATH: {err}",
    );
    assert!(
        !err.contains("/dir/"),
        "error must reference the explicit path, not the PATH dir: {err}",
    );
}

#[test]
fn locate_spark_home_resolves_bin_spark_submit() {
    let o = opts(r#"{"spark_home": "/home/spark"}"#);
    let got = locate(&o, Some("/no/spark/here"), &["/home/spark/bin/spark-submit"]).unwrap();
    assert_eq!(got, "/home/spark/bin/spark-submit");
}

#[test]
fn locate_spark_home_without_bin_falls_through_to_path() {
    let o = opts(r#"{"spark_home": "/home/spark"}"#);
    let got = locate(&o, Some("/path/dir"), &["/path/dir/spark-submit"]).unwrap();
    assert_eq!(got, "/path/dir/spark-submit");
}

#[test]
fn locate_takes_the_first_directory_that_has_it() {
    let o = opts(r#"{"spark_home": "/home/spark"}"#);
    let files = ["/home/spark/bin/spark-submit", "/a/spark-submit", "/b/spark-submit"];
    assert_eq!(locate(&o, Some("/a:/b"), &files).unwrap(), files[0]);
    assert_eq!(locate(&o, Some("/x:/a:/b"), &files[1..]).unwrap(), files[1]);
    assert_eq!(locate(&o, Some("/b/:/a"), &files[1..]).unwrap(), files[2]);
    assert_eq!(locate(&o, Some("/x::/y"), &["spark-submit"]).unwrap(), "spark-submit");
}

#[test]
fn paths_are_joined_as_the_system_joins_them() {
    for dir in ["", "/", "a", "a/", "/a/b", "a//", "日本"] {
        let want = std::path::PathBuf::from(dir).join("bin").join("spark-submit");
        assert_eq!(path_below(dir, "bin/spark-submit"), want.to_str().unwrap());
    }
}

#[test]
fn apply_to_user_log_level_suppresses_default_and_keeps_user_conf() {
    let args = opts(r#"{"confs": ["spark.log.level=DEBUG"]}"#).apply_to();
    let user_pos = args
        .iter()
        .position(|a| a == "spark.log.level=DEBUG")
        .expect("user log.level conf must survive apply_to");
    assert_eq!(args[user_pos - 1], "--conf", "user conf needs --conf flag");
    assert!(
        !args.iter().any(|a| a == "spark.log.level=ERROR"),
        "default log.level=ERROR must be suppressed when user supplies one: {:?}",
        args
    );
    let n = args.iter().filter(|a| a.starts_with("spark.log.level=")).count();
    assert_eq!(n, 1, "exactly one log.level conf expected, got {n}: {:?}", args);
}

#[test]
fn apply_to_no_user_confs_emits_both_defaults_and_local_master() {
    let args = opts("{}").apply_to();
    assert!(
        args.iter().any(|a| a == "spark.log.level=ERROR"),
        "default log.level=ERROR missing: {:?}",
        args
    );
    assert!(
        args.iter().any(|a| a == "spark.sql.catalogImplementation=in-memory"),
        "default catalogImplementation=in-memory missing: {:?}",
        args
    );
    let mpos = args.iter().position(|a| a == "--master").expect("--master flag missing");
    assert_eq!(
        args.get(mpos + 1).map(String::as_str),
        Some("local[*]"),
        "default master must be local[*]: {:?}",
        args
    );
    let npos = args.iter().position(|a| a == "--name").expect("--name flag missing");
    assert_eq!(
        args.get(npos + 1).map(String::as_str),
        Some("stryke-spark"),
        "default app name must be stryke-spark: {:?}",
        args
    );
}

#[test]
fn apply_to_catalog_impl_suppression_is_case_sensitive() {
    let args = opts(r#"{"confs": ["spark.sql.catalogimplementation=hive"]}"#).apply_to();
    assert!(
        args.iter().any(|a| a == "spark.sql.catalogimplementation=hive"),
        "user (lowercased) conf must still appear: {:?}",
        args
    );
    assert!(
        args.iter().any(|a| a == "spark.sql.catalogImplementation=in-memory"),
        "default conf survives because suppression check is case-sensitive: {:?}",
        args
    );
}

#[test]
fn apply_to_all_optional_flags_emit_with_adjacent_values() {
    let args = opts(
        r#"{
            "master": "spark://m:7077",
            "app_name": "custom-app",
            "deploy_mode": "cluster",
            "packages": "com.example:lib:1.0",
            "jars": "/a.jar,/b.jar"
        }"#,
    )
    .apply_to();
    let assert_flag_value = |flag: &str, val: &str| {
        let pos = args
            .iter()
            .position(|a| a == flag)
            .unwrap_or_else(|| panic!("{flag} missing: {args:?}"));
        assert_eq!(
            args.get(pos + 1).map(String::as_str),
            Some(val),
            "{flag} value mismatch: {args:?}",
        );
    };
    assert_flag_value("--master", "spark://m:7077");
    assert_flag_value("--name", "custom-app");
    assert_flag_value("--deploy-mode", "cluster");
    assert_flag_value("--packages", "com.example:lib:1.0");
    assert_flag_value("--jars", "/a.jar,/b.jar");
    assert!(
        !args.iter().any(|a| a == "local[*]"),
        "user master must suppress local[*] default: {args:?}",
    );
}

#[test]
fn apply_to_preserves_user_conf_insertion_order() {
    let args = opts(
        r#"{
            "confs": [
                "spark.executor.memory=4g",
                "spark.cores.max=8",
                "spark.dynamicAllocation.enabled=false"
            ]
        }"#,
    )
    .apply_to();
    let p1 = args
        .iter()
        .position(|a| a == "spark.executor.memory=4g")
        .expect("first user conf missing");
    let p2 = args
        .iter()
        .position(|a| a == "spark.cores.max=8")
        .expect("second user conf missing");
    let p3 = args
        .iter()
        .position(|a| a == "spark.dynamicAllocation.enabled=false")
        .expect("third user conf missing");
    assert!(
        p1 < p2 && p2 < p3,
        "user conf order must be preserved (got positions {p1}, {p2}, {p3}): {args:?}",
    );
}

#[test]
fn arguments_stand_in_order() {
    let args = opts(r#"{"confs": ["a=1", "b=2"], "jars": "j", "packages": "p"}"#).apply_to();
    assert_eq!(
        args,
        vec![
            "--conf",
            "a=1",
            "--conf",
            "b=2",
            "--conf",
            "spark.log.level=ERROR",
            "--conf",
            "spark.sql.catalogImplementation=in-memory",
            "--master",
            "local[*]",
            "--name",
            "stryke-spark",
            "--packages",
            "p",
            "--jars",
            "j",
        ]
    );
}
