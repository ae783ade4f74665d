use serde_json::Value;
use stryke_spark::helper::{
    apply_common_args, build_request_json, fail, locate_spark_submit, run, Cli, Cmd, RunStep,
};
use stryke_spark::launch::Step;

fn base_cli(cmd: Cmd) -> Cli {
    Cli {
        master: None,
        spark_home: None,
        spark_submit: None,
        conf: vec![],
        packages: None,
        jars: None,
        app_name: "stryke-spark".into(),
        deploy_mode: None,
        database: None,
        cmd,
    }
}

fn parse(s: &str) -> Value {
    serde_json::from_str(s).unwrap()
}

fn collect_args(cli: &Cli) -> Vec<String> {
    apply_common_args(cli)
}

fn locate(cli: &Cli, dirs: Option<&str>, files: &[&str]) -> Result<String, String> {
    let mut step = locate_spark_submit(cli, dirs, vec![]);
    loop {
        step = match step {
            Step::Probe(p) => {
                let there = files.contains(&p.path.as_str());
                p.answer(there)
            }
            Step::Spawn(s) => return Ok(s.program),
            Step::Fail(e) => return Err(e),
        };
    }
}

#[test]
fn build_request_json_query_basic() {
    let cli = base_cli(Cmd::Query {
        sql: "SELECT 1".into(),
        columnar: false,
        with_meta: false,
        limit: None,
    });
    let v = parse(&build_request_json(&cli).unwrap());
    assert_eq!(v["cmd"], "query");
    assert_eq!(v["sql"], "SELECT 1");
    assert_eq!(v["columnar"], false);
    assert_eq!(v["with_meta"], false);
    assert!(v.as_object().unwrap().get("limit").is_none());
}

#[test]
fn build_request_json_query_with_limit_and_flags() {
    let cli = base_cli(Cmd::Query {
        sql: "SELECT * FROM t".into(),
        columnar: true,
        with_meta: true,
        limit: Some(100),
    });
    let v = parse(&build_request_json(&cli).unwrap());
    assert_eq!(v["columnar"], true);
    assert_eq!(v["with_meta"], true);
    assert_eq!(v["limit"], 100);
}

#[test]
fn build_request_json_execute() {
    let cli = base_cli(Cmd::Execute {
        sql: "CREATE TABLE t (x INT)".into(),
    });
    let v = parse(&build_request_json(&cli).unwrap());
    assert_eq!(v["cmd"], "execute");
    assert_eq!(v["sql"], "CREATE TABLE t (x INT)");
}

#[test]
fn build_request_json_dump_all_optional_fields() {
    let cli = base_cli(Cmd::Dump {
        table: "events".into(),
        columns: Some("a,b,c".into()),
        where_clause: Some("a > 0".into()),
        order_by: Some("a DESC".into()),
        limit: Some(50),
    });
    let v = parse(&build_request_json(&cli).unwrap());
    assert_eq!(v["cmd"], "dump");
    assert_eq!(v["table"], "events");
    assert_eq!(v["columns"], "a,b,c");
    assert_eq!(v["where"], "a > 0");
    assert_eq!(v["order_by"], "a DESC");
    assert_eq!(v["limit"], 50);
}

#[test]
fn build_request_json_dump_omits_unset_optionals() {
    let cli = base_cli(Cmd::Dump {
        table: "t".into(),
        columns: None,
        where_clause: None,
        order_by: None,
        limit: None,
    });
    let v = parse(&build_request_json(&cli).unwrap());
    let obj = v.as_object().unwrap();
    assert!(!obj.contains_key("columns"));
    assert!(!obj.contains_key("where"));
    assert!(!obj.contains_key("order_by"));
    assert!(!obj.contains_key("limit"));
}

#[test]
fn build_request_json_tables_minimal() {
    let v = parse(&build_request_json(&base_cli(Cmd::Tables)).unwrap());
    assert_eq!(v["cmd"], "tables");
}

#[test]
fn build_request_json_databases_minimal() {
    let v = parse(&build_request_json(&base_cli(Cmd::Databases)).unwrap());
    assert_eq!(v["cmd"], "databases");
}

#[test]
fn build_request_json_schema_carries_table() {
    let cli = base_cli(Cmd::Schema {
        table: "users".into(),
    });
    let v = parse(&build_request_json(&cli).unwrap());
    assert_eq!(v["cmd"], "schema");
    assert_eq!(v["table"], "users");
}

#[test]
fn build_request_json_ping_minimal() {
    let v = parse(&build_request_json(&base_cli(Cmd::Ping)).unwrap());
    assert_eq!(v["cmd"], "ping");
}

#[test]
fn build_request_json_database_propagates_to_envelope() {
    let mut cli = base_cli(Cmd::Ping);
    cli.database = Some("warehouse".into());
    let v = parse(&build_request_json(&cli).unwrap());
    assert_eq!(v["database"], "warehouse");
    assert_eq!(v["cmd"], "ping");
}

#[test]
fn build_request_json_submit_errors() {
    let cli = base_cli(Cmd::Submit {
        script: "/tmp/x.py".into(),
        args: vec![],
    });
    let err = build_request_json(&cli).unwrap_err();
    assert!(err.message.contains("submit"));
}

#[test]
fn locate_spark_submit_explicit_missing_errors() {
    let mut cli = base_cli(Cmd::Ping);
    cli.spark_submit = Some("/definitely/not/here/spark-submit".into());
    let msg = locate(&cli, Some("/usr/bin"), &["/usr/bin/spark-submit"]).unwrap_err();
    assert!(msg.contains("--spark-submit"));
    assert!(msg.contains("not found"));
    assert_eq!(msg, "--spark-submit /definitely/not/here/spark-submit not found");
}

#[test]
fn locate_spark_submit_no_hints_no_path_errors() {
    let cli = base_cli(Cmd::Ping);
    let msg = locate(&cli, None, &[]).unwrap_err();
    assert!(msg.contains("spark-submit"));
    assert!(msg.contains("not found"));
    assert_eq!(
        msg,
        "stryke-spark: `spark-submit` not found on PATH, $SPARK_HOME/bin/, or --spark-submit"
    );
}

#[test]
fn apply_common_args_defaults() {
    let cli = base_cli(Cmd::Ping);
    let args = collect_args(&cli);
    // Master defaults to local[*].
    let pos = args.iter().position(|a| a == "--master").unwrap();
    assert_eq!(args[pos + 1], "local[*]");
    // App name.
    let pos = args.iter().position(|a| a == "--name").unwrap();
    assert_eq!(args[pos + 1], "stryke-spark");
    // Default --conf spark.log.level=WARN.
    assert!(args.windows(2).any(|w| w[0] == "--conf" && w[1] == "spark.log.level=WARN"));
    // Default --conf spark.sql.catalogImplementation=in-memory.
    assert!(args
        .windows(2)
        .any(|w| w[0] == "--conf" && w[1] == "spark.sql.catalogImplementation=in-memory"));
}

#[test]
fn apply_common_args_master_override() {
    let mut cli = base_cli(Cmd::Ping);
    cli.master = Some("yarn".into());
    let args = collect_args(&cli);
    let pos = args.iter().position(|a| a == "--master").unwrap();
    assert_eq!(args[pos + 1], "yarn");
}

#[test]
fn apply_common_args_user_log_level_suppresses_default() {
    let mut cli = base_cli(Cmd::Ping);
    cli.conf.push("spark.log.level=DEBUG".into());
    let args = collect_args(&cli);
    let warn_count = args
        .windows(2)
        .filter(|w| w[0] == "--conf" && w[1].starts_with("spark.log.level="))
        .count();
    assert_eq!(warn_count, 1, "expected exactly 1 log.level conf, got {warn_count}: {args:?}");
    assert!(args
        .windows(2)
        .any(|w| w[0] == "--conf" && w[1] == "spark.log.level=DEBUG"));
}

#[test]
fn apply_common_args_user_catalog_impl_suppresses_default() {
    let mut cli = base_cli(Cmd::Ping);
    cli.conf.push("spark.sql.catalogImplementation=hive".into());
    let args = collect_args(&cli);
    let count = args
        .windows(2)
        .filter(|w| w[0] == "--conf" && w[1].starts_with("spark.sql.catalogImplementation="))
        .count();
    assert_eq!(count, 1);
}

#[test]
fn apply_common_args_deploy_mode_packages_jars_propagate() {
    let mut cli = base_cli(Cmd::Ping);
    cli.deploy_mode = Some("cluster".into());
    cli.packages = Some("org.x:y:1.0".into());
    cli.jars = Some("/tmp/a.jar,/tmp/b.jar".into());
    let args = collect_args(&cli);
    let pos = args.iter().position(|a| a == "--deploy-mode").unwrap();
    assert_eq!(args[pos + 1], "cluster");
    let pos = args.iter().position(|a| a == "--packages").unwrap();
    assert_eq!(args[pos + 1], "org.x:y:1.0");
    let pos = args.iter().position(|a| a == "--jars").unwrap();
    assert_eq!(args[pos + 1], "/tmp/a.jar,/tmp/b.jar");
}

#[test]
fn apply_common_args_extra_confs_passed_through() {
    let mut cli = base_cli(Cmd::Ping);
    cli.conf.push("spark.executor.memory=4g".into());
    cli.conf.push("spark.executor.cores=2".into());
    let args = collect_args(&cli);
    assert!(args
        .windows(2)
        .any(|w| w[0] == "--conf" && w[1] == "spark.executor.memory=4g"));
    assert!(args
        .windows(2)
        .any(|w| w[0] == "--conf" && w[1] == "spark.executor.cores=2"));
}

#[test]
fn build_request_json_tables_with_database() {
    let mut cli = base_cli(Cmd::Tables);
    cli.database = Some("analytics".into());
    let v = parse(&build_request_json(&cli).unwrap());
    assert_eq!(v["cmd"], "tables");
    assert_eq!(v["database"], "analytics");
}

#[test]
fn build_request_json_execute_minimal() {
    let v = parse(&build_request_json(&base_cli(Cmd::Execute {
        sql: "DROP TABLE t".into(),
    }))
    .unwrap());
    assert_eq!(v["cmd"], "execute");
    assert_eq!(v["sql"], "DROP TABLE t");
}

#[test]
fn apply_common_args_custom_app_name() {
    let mut cli = base_cli(Cmd::Ping);
    cli.app_name = "etl-job".into();
    let args = collect_args(&cli);
    let pos = args.iter().position(|a| a == "--name").unwrap();
    assert_eq!(args[pos + 1], "etl-job");
}

#[test]
fn build_request_json_dump_limit_only() {
    let v = parse(&build_request_json(&base_cli(Cmd::Dump {
        table: "t".into(),
        columns: None,
        where_clause: None,
        order_by: None,
        limit: Some(1),
    }))
    .unwrap());
    assert_eq!(v["limit"], 1);
    assert!(!v.as_object().unwrap().contains_key("columns"));
}

#[test]
fn locate_spark_submit_from_spark_home_when_set() {
    let mut cli = base_cli(Cmd::Ping);
    cli.spark_home = Some("/opt/spark".into());
    cli.spark_submit = None;
    let files = ["/opt/spark/bin/spark-submit", "/usr/bin/spark-submit"];
    let got = locate(&cli, Some("/usr/bin"), &files).unwrap();
    assert_eq!(got, "/opt/spark/bin/spark-submit");
}

#[test]
fn build_request_json_without_database_omits_key() {
    let v = parse(&build_request_json(&base_cli(Cmd::Ping)).unwrap());
    assert!(!v.as_object().unwrap().contains_key("database"));
}

#[test]
fn build_request_json_query_sql_unicode() {
    let cli = base_cli(Cmd::Query {
        sql: "SELECT '日本語'".into(),
        columnar: false,
        with_meta: false,
        limit: None,
    });
    let v = parse(&build_request_json(&cli).unwrap());
    assert_eq!(v["sql"], "SELECT '日本語'");
}

#[test]
fn build_request_json_dump_where_only() {
    let v = parse(&build_request_json(&base_cli(Cmd::Dump {
        table: "t".into(),
        columns: None,
        where_clause: Some("id > 0".into()),
        order_by: None,
        limit: None,
    }))
    .unwrap());
    assert_eq!(v["where"], "id > 0");
    assert!(!v.as_object().unwrap().contains_key("order_by"));
}

#[test]
fn apply_common_args_both_defaults_suppressed_when_set() {
    let mut cli = base_cli(Cmd::Ping);
    cli.conf.push("spark.log.level=ERROR".into());
    cli.conf
        .push("spark.sql.catalogImplementation=hive".into());
    let args = collect_args(&cli);
    assert!(args
        .windows(2)
        .any(|w| w[0] == "--conf" && w[1] == "spark.log.level=ERROR"));
    assert!(args.windows(2).any(|w| {
        w[0] == "--conf" && w[1] == "spark.sql.catalogImplementation=hive"
    }));
    assert!(!args
        .windows(2)
        .any(|w| w[0] == "--conf" && w[1] == "spark.log.level=WARN"));
}

#[test]
fn build_request_json_ping_has_no_sql_key() {
    let v = parse(&build_request_json(&base_cli(Cmd::Ping)).unwrap());
    assert!(!v.as_object().unwrap().contains_key("sql"));
}

#[test]
fn apply_common_args_master_yarn() {
    let mut cli = base_cli(Cmd::Ping);
    cli.master = Some("yarn".into());
    let args = collect_args(&cli);
    let pos = args.iter().position(|a| a == "--master").unwrap();
    assert_eq!(args[pos + 1], "yarn");
}

#[test]
fn build_request_json_schema_table_name() {
    let v = parse(&build_request_json(&base_cli(Cmd::Schema {
        table: "db.tbl".into(),
    }))
    .unwrap());
    assert_eq!(v["table"], "db.tbl");
}

#[test]
fn collect_args_includes_jars_when_set() {
    let mut cli = base_cli(Cmd::Ping);
    cli.jars = Some("/a.jar,/b.jar".into());
    let args = collect_args(&cli);
    assert!(args.iter().any(|a| a == "--jars"));
}

#[test]
fn build_request_json_execute_no_extra_keys() {
    let v = parse(&build_request_json(&base_cli(Cmd::Execute {
        sql: "VACUUM".into(),
    }))
    .unwrap());
    assert_eq!(v["cmd"], "execute");
    assert!(!v.as_object().unwrap().contains_key("columnar"));
}

#[test]
fn apply_common_args_packages_when_set() {
    let mut cli = base_cli(Cmd::Ping);
    cli.packages = Some("org.apache.spark:pkg:1.0".into());
    let args = collect_args(&cli);
    assert!(args.windows(2).any(|w| w[0] == "--packages" && w[1].contains("spark")));
}

#[test]
fn build_request_json_query_limit_zero() {
    let v = parse(&build_request_json(&base_cli(Cmd::Query {
        sql: "SELECT 1".into(),
        columnar: false,
        with_meta: false,
        limit: Some(0),
    }))
    .unwrap());
    assert_eq!(v["limit"], 0);
}

#[test]
fn build_request_json_databases_cmd() {
    let v = parse(&build_request_json(&base_cli(Cmd::Databases)).unwrap());
    assert_eq!(v["cmd"], "databases");
}

#[test]
fn apply_common_args_only_user_conf_no_defaults_when_both_set() {
    let mut cli = base_cli(Cmd::Ping);
    cli.conf = vec![
        "spark.log.level=INFO".into(),
        "spark.sql.catalogImplementation=hive".into(),
    ];
    let args = collect_args(&cli);
    let log_levels: Vec<_> = args
        .windows(2)
        .filter(|w| w[0] == "--conf" && w[1].starts_with("spark.log.level="))
        .map(|w| w[1].as_str())
        .collect();
    assert_eq!(log_levels, vec!["spark.log.level=INFO"]);
}

#[test]
fn build_request_json_dump_columns_only() {
    let v = parse(&build_request_json(&base_cli(Cmd::Dump {
        table: "t".into(),
        columns: Some("a,b".into()),
        where_clause: None,
        order_by: None,
        limit: None,
    }))
    .unwrap());
    assert_eq!(v["columns"], "a,b");
}

#[test]
fn collect_args_deploy_mode_client() {
    let mut cli = base_cli(Cmd::Ping);
    cli.deploy_mode = Some("client".into());
    let args = collect_args(&cli);
    let pos = args.iter().position(|a| a == "--deploy-mode").unwrap();
    assert_eq!(args[pos + 1], "client");
}

#[test]
fn build_request_json_valid_json_string() {
    let s = build_request_json(&base_cli(Cmd::Ping)).unwrap();
    assert!(serde_json::from_str::<serde_json::Value>(&s).is_ok());
}

#[test]
fn build_request_json_query_with_meta_flag() {
    let v = parse(&build_request_json(&base_cli(Cmd::Query {
        sql: "SELECT 1".into(),
        columnar: false,
        with_meta: true,
        limit: None,
    }))
    .unwrap());
    assert_eq!(v["with_meta"], true);
}

#[test]
fn build_request_json_query_columnar_flag() {
    let v = parse(&build_request_json(&base_cli(Cmd::Query {
        sql: "SELECT 1".into(),
        columnar: true,
        with_meta: false,
        limit: None,
    }))
    .unwrap());
    assert_eq!(v["columnar"], true);
}

#[test]
fn collect_args_includes_master_flag() {
    let args = collect_args(&base_cli(Cmd::Ping));
    assert!(args.iter().any(|a| a == "--master"));
}

#[test]
fn build_request_json_dump_order_by_only() {
    let v = parse(&build_request_json(&base_cli(Cmd::Dump {
        table: "t".into(),
        columns: None,
        where_clause: None,
        order_by: Some("id DESC".into()),
        limit: None,
    }))
    .unwrap());
    assert_eq!(v["order_by"], "id DESC");
}

#[test]
fn apply_common_args_empty_conf_still_has_defaults() {
    let cli = base_cli(Cmd::Ping);
    let args = collect_args(&cli);
    assert!(args.windows(2).any(|w| w[0] == "--conf" && w[1] == "spark.log.level=WARN"));
}

#[test]
fn build_request_json_ping_cmd_only() {
    let v = parse(&build_request_json(&base_cli(Cmd::Ping)).unwrap());
    assert_eq!(v.as_object().unwrap().len(), 1);
    assert_eq!(v["cmd"], "ping");
}

#[test]
fn build_request_json_execute_sql_unicode() {
    let v = parse(&build_request_json(&base_cli(Cmd::Execute {
        sql: "SELECT '日本語'".into(),
    }))
    .unwrap());
    assert_eq!(v["sql"], "SELECT '日本語'");
}

#[test]
fn collect_args_master_local_star_default() {
    let args = collect_args(&base_cli(Cmd::Ping));
    let pos = args.iter().position(|a| a == "--master").unwrap();
    assert_eq!(args[pos + 1], "local[*]");
}

#[test]
fn build_request_json_schema_cmd() {
    let v = parse(&build_request_json(&base_cli(Cmd::Schema {
        table: "t".into(),
    }))
    .unwrap());
    assert_eq!(v["cmd"], "schema");
    assert_eq!(v["table"], "t");
}

#[test]
fn build_request_json_tables_cmd() {
    let v = parse(&build_request_json(&base_cli(Cmd::Tables)).unwrap());
    assert_eq!(v["cmd"], "tables");
}

#[test]
fn apply_common_args_name_flag() {
    let args = collect_args(&base_cli(Cmd::Ping));
    assert!(args.windows(2).any(|w| w[0] == "--name" && w[1] == "stryke-spark"));
}

#[test]
fn build_request_json_query_limit_some() {
    let v = parse(&build_request_json(&base_cli(Cmd::Query {
        sql: "SELECT 1".into(),
        columnar: false,
        with_meta: false,
        limit: Some(100),
    }))
    .unwrap());
    assert_eq!(v["limit"], 100);
}

#[test]
fn collect_args_has_conf_flags() {
    let args = collect_args(&base_cli(Cmd::Ping));
    assert!(args.iter().filter(|a| *a == "--conf").count() >= 2);
}

#[test]
fn build_request_json_execute_no_limit_key() {
    let v = parse(&build_request_json(&base_cli(Cmd::Execute {
        sql: "DELETE FROM t".into(),
    }))
    .unwrap());
    assert!(!v.as_object().unwrap().contains_key("limit"));
}

#[test]
fn apply_common_args_deploy_mode_cluster() {
    let mut cli = base_cli(Cmd::Ping);
    cli.deploy_mode = Some("cluster".into());
    let args = collect_args(&cli);
    let pos = args.iter().position(|a| a == "--deploy-mode").unwrap();
    assert_eq!(args[pos + 1], "cluster");
}

#[test]
fn build_request_json_query_columnar_true() {
    let v = parse(&build_request_json(&base_cli(Cmd::Query {
        sql: "SELECT 1".into(),
        columnar: true,
        with_meta: false,
        limit: None,
    }))
    .unwrap());
    assert_eq!(v["columnar"], true);
}

#[test]
fn build_request_json_ping_no_table_key() {
    let v = parse(&build_request_json(&base_cli(Cmd::Ping)).unwrap());
    assert!(!v.as_object().unwrap().contains_key("table"));
}

#[test]
fn apply_common_args_jars_flag() {
    let mut cli = base_cli(Cmd::Ping);
    cli.jars = Some("/x.jar".into());
    assert!(collect_args(&cli).windows(2).any(|w| w[0] == "--jars"));
}

#[test]
fn build_request_json_dump_table_only() {
    let v = parse(&build_request_json(&base_cli(Cmd::Dump {
        table: "events".into(),
        columns: None,
        where_clause: None,
        order_by: None,
        limit: None,
    }))
    .unwrap());
    assert_eq!(v["table"], "events");
}

#[test]
fn build_request_json_valid_roundtrip() {
    let s = build_request_json(&base_cli(Cmd::Tables)).unwrap();
    assert_eq!(serde_json::from_str::<serde_json::Value>(&s).unwrap()["cmd"], "tables");
}

#[test]
fn collect_args_packages_when_set() {
    let mut cli = base_cli(Cmd::Ping);
    cli.packages = Some("g:a:1".into());
    assert!(collect_args(&cli).iter().any(|a| a == "--packages"));
}

#[test]
fn build_request_json_execute_sql_only_keys() {
    let v = parse(&build_request_json(&base_cli(Cmd::Execute {
        sql: "TRUNCATE t".into(),
    }))
    .unwrap());
    let keys: Vec<_> = v.as_object().unwrap().keys().collect();
    assert_eq!(keys, vec!["cmd", "sql"]);
}

#[test]
fn apply_common_args_custom_app_name_propagates() {
    let mut cli = base_cli(Cmd::Ping);
    cli.app_name = "job".into();
    let args = collect_args(&cli);
    let pos = args.iter().position(|a| a == "--name").unwrap();
    assert_eq!(args[pos + 1], "job");
}

#[test]
fn common_args_stand_in_order() {
    let mut cli = base_cli(Cmd::Ping);
    cli.master = Some("yarn".into());
    cli.deploy_mode = Some("client".into());
    cli.packages = Some("g:a:1".into());
    cli.jars = Some("/a.jar".into());
    cli.conf.push("a=1".into());
    cli.conf.push("b=2".into());
    assert_eq!(
        collect_args(&cli),
        vec![
            "--master",
            "yarn",
            "--name",
            "stryke-spark",
            "--deploy-mode",
            "client",
            "--packages",
            "g:a:1",
            "--jars",
            "/a.jar",
            "--conf",
            "a=1",
            "--conf",
            "b=2",
            "--conf",
            "spark.log.level=WARN",
            "--conf",
            "spark.sql.catalogImplementation=in-memory",
        ]
    );
}

#[test]
fn submit_is_run_without_a_driver_and_keeps_its_arguments() {
    let mut cli = base_cli(Cmd::Submit {
        script: "/tmp/x.py".into(),
        args: vec!["--date".into(), "2026-01-01".into()],
    });
    cli.spark_submit = Some("/opt/spark-submit".into());
    let RunStep::Probe(p) = run(cli, None) else {
        panic!("a script is looked for at once");
    };
    assert_eq!(p.probe.path, "/opt/spark-submit");
    assert!(p.reads_input);
    let RunStep::Spawn(s) = p.answer(true) else {
        panic!("a file is started");
    };
    assert!(s.reads_input);
    assert_eq!(s.spawn.program, "/opt/spark-submit");
    let n = s.spawn.args.len();
    assert_eq!(s.spawn.args[n - 3..], ["/tmp/x.py", "--date", "2026-01-01"]);
    let end = s.finished(Some(7));
    assert_eq!(end.code, 7);
    assert!(end.words.is_none());
}

#[test]
fn a_killed_program_ends_the_helper_with_one() {
    let mut cli = base_cli(Cmd::Submit { script: "x.py".into(), args: vec![] });
    cli.spark_submit = Some("/s".into());
    let RunStep::Probe(p) = run(cli, None) else {
        panic!("a script is looked for at once");
    };
    let RunStep::Spawn(s) = p.answer(true) else {
        panic!("a file is started");
    };
    assert_eq!(s.finished(None).code, 1);
}

#[test]
fn a_driver_run_hands_over_file_and_request() {
    let mut cli = base_cli(Cmd::Execute { sql: "VACUUM".into() });
    cli.spark_home = Some("/opt/spark/".into());
    let RunStep::WriteDriver(d) = run(cli, Some("/usr/bin:/bin".into())) else {
        panic!("the driver is written first");
    };
    let RunStep::Probe(p) = d.written("/tmp/driver.py".into()) else {
        panic!("then spark-submit is looked for");
    };
    assert_eq!(p.probe.path, "/opt/spark/bin/spark-submit");
    assert!(!p.reads_input);
    let RunStep::Probe(p) = p.answer(false) else {
        panic!("the search goes on");
    };
    assert_eq!(p.probe.path, "/usr/bin/spark-submit");
    let RunStep::Spawn(s) = p.answer(true) else {
        panic!("a file is started");
    };
    assert!(!s.reads_input);
    let n = s.spawn.args.len();
    assert_eq!(s.spawn.args[n - 2], "/tmp/driver.py");
    assert_eq!(s.spawn.args[n - 1], r#"{"cmd":"execute","sql":"VACUUM"}"#);
}

#[test]
fn failures_of_the_helper_are_told_with_their_cause() {
    assert_eq!(fail("x").words.unwrap(), "stryke-spark-helper: x");
    assert_eq!(fail("x").code, 1);
    let RunStep::WriteDriver(d) = run(base_cli(Cmd::Ping), None) else {
        panic!("the driver is written first");
    };
    let end = d.not_created("disk full");
    assert_eq!(
        end.words.unwrap(),
        "stryke-spark-helper: creating temp driver file: disk full"
    );
    let RunStep::WriteDriver(d) = run(base_cli(Cmd::Ping), None) else {
        panic!("the driver is written first");
    };
    assert_eq!(
        d.not_written("disk full").words.unwrap(),
        "stryke-spark-helper: writing driver to temp file: disk full"
    );
    let mut cli = base_cli(Cmd::Submit { script: "x.py".into(), args: vec![] });
    cli.spark_submit = Some("/s".into());
    let RunStep::Probe(p) = run(cli, None) else {
        panic!("a script is looked for at once");
    };
    let RunStep::Spawn(s) = p.answer(true) else {
        panic!("a file is started");
    };
    assert_eq!(
        s.not_spawned("denied").words.unwrap(),
        "stryke-spark-helper: spawning /s: denied"
    );
    let RunStep::WriteDriver(d) = run(base_cli(Cmd::Ping), None) else {
        panic!("the driver is written first");
    };
    let RunStep::End(end) = d.written("/tmp/d.py".into()) else {
        panic!("nothing can be found");
    };
    assert_eq!(end.code, 1);
    assert!(end.words.unwrap().starts_with("stryke-spark-helper: stryke-spark: `spark-submit`"));
}
