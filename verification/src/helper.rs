//! The helper program: what its command line asks for, and how it is carried out.

use vstd::prelude::*;
use vstd::string::*;

use crate::call::requests;
use crate::error::Error;
use crate::json::{members_map, no_members, put, Json, JsonView};
use crate::launch::{
    all_confs, candidates, conf_args, flag, law_default_stands_alone, law_defaults_fill_in,
    law_settings_in_order, lemma_conf_args_len, list_candidates, opt_str, opt_view, push_confs,
    push_flag, push_pair, push_unless_set, search, searching, starts_as, str_view, unless_set,
    Probe, Spawn, Step, StepView,
};
use crate::text::{lemma_views_push, views};
use crate::wire::{
    decoded_text, encode_json, encoded_text, exact_within, lemma_exact_insert, MAX_DEPTH,
};

verus! {

// ---------------------------------------------------------------------------
// The command line
// ---------------------------------------------------------------------------

/// A command of the helper.
pub enum Cmd {
    /// Runs a SELECT.
    Query { sql: String, columnar: bool, with_meta: bool, limit: Option<usize> },
    /// Runs a statement.
    Execute { sql: String },
    /// Selects from one table.
    Dump {
        table: String,
        columns: Option<String>,
        where_clause: Option<String>,
        order_by: Option<String>,
        limit: Option<usize>,
    },
    /// Lists tables.
    Tables,
    /// Lists databases.
    Databases,
    /// Describes one table.
    Schema { table: String },
    /// Runs `SELECT 1`.
    Ping,
    /// Hands a script to `spark-submit`.
    Submit { script: String, args: Vec<String> },
}

/// The command line of the helper.
pub struct Cli {
    pub master: Option<String>,
    pub spark_home: Option<String>,
    pub spark_submit: Option<String>,
    pub conf: Vec<String>,
    pub packages: Option<String>,
    pub jars: Option<String>,
    pub app_name: String,
    pub deploy_mode: Option<String>,
    pub database: Option<String>,
    pub cmd: Cmd,
}

// ---------------------------------------------------------------------------
// The request
// ---------------------------------------------------------------------------

/// The members with a text under a key, where there is one.
pub open spec fn with_text(
    m: Map<Seq<char>, JsonView>,
    key: Seq<char>,
    text: Option<Seq<char>>,
) -> Map<Seq<char>, JsonView> {
    match text {
        Some(s) => m.insert(key, JsonView::Str(s)),
        None => m,
    }
}

/// The members with a limit, where there is one.
pub open spec fn with_count(m: Map<Seq<char>, JsonView>, limit: Option<usize>) -> Map<
    Seq<char>,
    JsonView,
> {
    match limit {
        Some(n) => m.insert("limit"@, JsonView::Int(n as int)),
        None => m,
    }
}

/// The request that a command line makes of the driver. A script is no request.
pub open spec fn cli_request(cli: Cli) -> Result<JsonView, Seq<char>> {
    let start = with_text(Map::<Seq<char>, JsonView>::empty(), "database"@, opt_view(cli.database));
    match cli.cmd {
        Cmd::Query { sql, columnar, with_meta, limit } => Ok(
            JsonView::Object(
                with_count(
                    start.insert("cmd"@, JsonView::Str("query"@)).insert(
                        "sql"@,
                        JsonView::Str(sql@),
                    ).insert("columnar"@, JsonView::Bool(columnar)).insert(
                        "with_meta"@,
                        JsonView::Bool(with_meta),
                    ),
                    limit,
                ),
            ),
        ),
        Cmd::Execute { sql } => Ok(
            JsonView::Object(
                start.insert("cmd"@, JsonView::Str("execute"@)).insert(
                    "sql"@,
                    JsonView::Str(sql@),
                ),
            ),
        ),
        Cmd::Dump { table, columns, where_clause, order_by, limit } => {
            let m = start.insert("cmd"@, JsonView::Str("dump"@)).insert(
                "table"@,
                JsonView::Str(table@),
            );
            let m = with_text(m, "columns"@, opt_view(columns));
            let m = with_text(m, "where"@, opt_view(where_clause));
            let m = with_text(m, "order_by"@, opt_view(order_by));
            Ok(JsonView::Object(with_count(m, limit)))
        },
        Cmd::Tables => Ok(JsonView::Object(start.insert("cmd"@, JsonView::Str("tables"@)))),
        Cmd::Databases => Ok(JsonView::Object(start.insert("cmd"@, JsonView::Str("databases"@)))),
        Cmd::Schema { table } => Ok(
            JsonView::Object(
                start.insert("cmd"@, JsonView::Str("schema"@)).insert(
                    "table"@,
                    JsonView::Str(table@),
                ),
            ),
        ),
        Cmd::Ping => Ok(JsonView::Object(start.insert("cmd"@, JsonView::Str("ping"@)))),
        Cmd::Submit { .. } => Err("submit not handled here"@),
    }
}

/// Puts a text under a key, where there is one.
fn put_text(m: &mut Vec<(String, Json)>, key: &str, text: Option<&str>)
    ensures
        members_map(final(m)@) == with_text(members_map(old(m)@), key@, str_view(text)),
{
    if let Some(s) = text {
        put(m, key, Json::text(s));
    }
}

/// Puts a limit, where there is one.
fn put_count(m: &mut Vec<(String, Json)>, limit: Option<usize>)
    ensures
        members_map(final(m)@) == with_count(members_map(old(m)@), limit),
{
    if let Some(n) = limit {
        put(m, "limit", Json::uint(n as u64));
    }
}

/// The request that a command line makes of the driver.
pub fn request_json(cli: &Cli) -> (r: Result<Json, Error>)
    ensures
        crate::error::outcome(r) == cli_request(*cli),
{
    let mut m = no_members();
    put_text(&mut m, "database", opt_str(&cli.database));
    match &cli.cmd {
        Cmd::Query { sql, columnar, with_meta, limit } => {
            put(&mut m, "cmd", Json::text("query"));
            put(&mut m, "sql", Json::text(sql.as_str()));
            put(&mut m, "columnar", Json::Bool(*columnar));
            put(&mut m, "with_meta", Json::Bool(*with_meta));
            put_count(&mut m, *limit);
        },
        Cmd::Execute { sql } => {
            put(&mut m, "cmd", Json::text("execute"));
            put(&mut m, "sql", Json::text(sql.as_str()));
        },
        Cmd::Dump { table, columns, where_clause, order_by, limit } => {
            put(&mut m, "cmd", Json::text("dump"));
            put(&mut m, "table", Json::text(table.as_str()));
            put_text(&mut m, "columns", opt_str(columns));
            put_text(&mut m, "where", opt_str(where_clause));
            put_text(&mut m, "order_by", opt_str(order_by));
            put_count(&mut m, *limit);
        },
        Cmd::Tables => {
            put(&mut m, "cmd", Json::text("tables"));
        },
        Cmd::Databases => {
            put(&mut m, "cmd", Json::text("databases"));
        },
        Cmd::Schema { table } => {
            put(&mut m, "cmd", Json::text("schema"));
            put(&mut m, "table", Json::text(table.as_str()));
        },
        Cmd::Ping => {
            put(&mut m, "cmd", Json::text("ping"));
        },
        Cmd::Submit { .. } => {
            return Err(Error::new("submit not handled here"));
        },
    }
    Ok(Json::Object(m))
}

/// The text of the request that a command line makes of the driver.
pub fn build_request_json(cli: &Cli) -> (r: Result<String, Error>)
    ensures
        match r {
            Ok(s) => {
                &&& cli_request(*cli) is Ok
                &&& requests(s@, cli_request(*cli)->Ok_0)
                &&& decoded_text(s@) == cli_request(*cli)
            },
            Err(e) => cli_request(*cli) == Err::<JsonView, Seq<char>>(e@),
        },
{
    proof {
        law_request_reads_back(*cli);
    }
    match request_json(cli) {
        Ok(j) => Ok(encode_json(j)),
        Err(e) => Err(e),
    }
}

// ---------------------------------------------------------------------------
// Starting spark-submit
// ---------------------------------------------------------------------------

/// The arguments that a command line gives: the master, the name, what else is set, the
/// user's settings, and the settings that hold unless the user has them.
pub open spec fn common_args(cli: Cli) -> Seq<Seq<char>> {
    seq![
        "--master"@,
        match cli.master {
            Some(m) => m@,
            None => "local[*]"@,
        },
    ] + seq!["--name"@, cli.app_name@] + flag("--deploy-mode"@, opt_view(cli.deploy_mode)) + flag(
        "--packages"@,
        opt_view(cli.packages),
    ) + flag("--jars"@, opt_view(cli.jars)) + conf_args(views(cli.conf@)) + unless_set(
        views(cli.conf@),
        "spark.log.level="@,
        "spark.log.level=WARN"@,
    ) + unless_set(
        views(cli.conf@),
        "spark.sql.catalogImplementation="@,
        "spark.sql.catalogImplementation=in-memory"@,
    )
}

/// The arguments that a command line gives.
pub fn apply_common_args(cli: &Cli) -> (r: Vec<String>)
    ensures
        views(r@) == common_args(*cli),
{
    let mut out: Vec<String> = Vec::new();
    let master = match &cli.master {
        Some(m) => m.as_str(),
        None => "local[*]",
    };
    push_pair(&mut out, "--master", master);
    proof {
        assert(views(out@) =~= seq!["--master"@, master@]);
    }
    push_pair(&mut out, "--name", cli.app_name.as_str());
    push_flag(&mut out, "--deploy-mode", opt_str(&cli.deploy_mode));
    push_flag(&mut out, "--packages", opt_str(&cli.packages));
    push_flag(&mut out, "--jars", opt_str(&cli.jars));
    push_confs(&mut out, &cli.conf);
    push_unless_set(&mut out, &cli.conf, "spark.log.level=", "spark.log.level=WARN");
    push_unless_set(
        &mut out,
        &cli.conf,
        "spark.sql.catalogImplementation=",
        "spark.sql.catalogImplementation=in-memory",
    );
    out
}

/// What is said where `spark-submit` is not found.
pub open spec fn submit_missing(cli: Cli) -> Seq<char> {
    match cli.spark_submit {
        Some(p) => "--spark-submit "@ + p@ + " not found"@,
        None => "stryke-spark: `spark-submit` not found on PATH, $SPARK_HOME/bin/, or --spark-submit"@,
    }
}

/// Starts the search for `spark-submit`, which is to be started with the given
/// arguments: an explicit path alone, or else the one of the Spark home and then the
/// directories of the search path.
pub fn locate_spark_submit(cli: &Cli, dirs: Option<&str>, args: Vec<String>) -> (r: Step)
    ensures
        r@ == searching(
            candidates(opt_view(cli.spark_submit), opt_view(cli.spark_home), str_view(dirs)),
            views(args@),
            submit_missing(*cli),
        ),
{
    let failure: String = match &cli.spark_submit {
        Some(p) => {
            let mut s: String = "--spark-submit ".to_owned();
            s.append(p.as_str());
            s.append(" not found");
            s
        },
        None => "stryke-spark: `spark-submit` not found on PATH, $SPARK_HOME/bin/, or --spark-submit".to_owned(),
    };
    let paths = list_candidates(opt_str(&cli.spark_submit), opt_str(&cli.spark_home), dirs);
    search(paths, args, failure)
}

// ---------------------------------------------------------------------------
// The run
// ---------------------------------------------------------------------------

/// How the helper ends: its exit code, and what it says on the way out.
pub struct Ending {
    pub code: i32,
    pub words: Option<String>,
}

/// A run that waits for the driver to be written into a file. `dirs` is the search path
/// of the environment.
pub struct DriverRun {
    pub cli: Cli,
    pub dirs: Option<String>,
}

/// A run that waits for word whether a path is a file. A script reads the helper's
/// input, the driver reads none.
pub struct ProbeRun {
    pub probe: Probe,
    pub reads_input: bool,
}

/// A run that waits for a program to run to its end.
pub struct SpawnRun {
    pub spawn: Spawn,
    pub reads_input: bool,
}

/// What to do next in a run: end, write the driver into a file, look whether a path is
/// a file, or run a program.
pub enum RunStep {
    End(Ending),
    WriteDriver(DriverRun),
    Probe(ProbeRun),
    Spawn(SpawnRun),
}

/// What the helper says of a failure.
pub open spec fn complaint(words: Seq<char>) -> Seq<char> {
    "stryke-spark-helper: "@ + words
}

/// Whether a run ends in failure with the given words.
pub open spec fn fails_with(e: Ending, words: Seq<char>) -> bool {
    e.code == 1 && opt_view(e.words) == Some(complaint(words))
}

impl RunStep {
    /// Whether a step of a run is the given step of the search.
    pub open spec fn is_search(&self, step: StepView, reads_input: bool) -> bool {
        match (self, step) {
            (RunStep::End(e), StepView::Fail(words)) => fails_with(*e, words),
            (RunStep::Probe(p), StepView::Probe { path, rest, args, failure }) => {
                &&& p.probe.path@ == path
                &&& views(p.probe.rest@) == rest
                &&& views(p.probe.args@) == args
                &&& p.probe.failure@ == failure
                &&& p.reads_input == reads_input
            },
            (RunStep::Spawn(s), StepView::Spawn { program, args }) => {
                &&& s.spawn.program@ == program
                &&& views(s.spawn.args@) == args
                &&& s.reads_input == reads_input
            },
            _ => false,
        }
    }
}

/// The end of a run that failed with the given words.
pub fn fail(words: &str) -> (r: Ending)
    ensures
        fails_with(r, words@),
{
    let mut s: String = "stryke-spark-helper: ".to_owned();
    s.append(words);
    Ending { code: 1, words: Some(s) }
}

/// The end of a run that failed at what the words say, for the given cause.
fn fail_at(words: &str, cause: &str) -> (r: Ending)
    ensures
        fails_with(r, words@ + ": "@ + cause@),
{
    let mut s: String = words.to_owned();
    s.append(": ");
    s.append(cause);
    fail(s.as_str())
}

/// A step of the search as a step of the run.
fn go_on(step: Step, reads_input: bool) -> (r: RunStep)
    ensures
        r.is_search(step@, reads_input),
{
    match step {
        Step::Probe(probe) => RunStep::Probe(ProbeRun { probe, reads_input }),
        Step::Spawn(spawn) => RunStep::Spawn(SpawnRun { spawn, reads_input }),
        Step::Fail(e) => RunStep::End(fail(e.as_str())),
    }
}

/// The search for `spark-submit` with the given arguments.
pub open spec fn cli_search(cli: Cli, dirs: Option<Seq<char>>, args: Seq<Seq<char>>) -> StepView {
    searching(
        candidates(opt_view(cli.spark_submit), opt_view(cli.spark_home), dirs),
        args,
        submit_missing(cli),
    )
}

/// Begins a run: a script is handed to `spark-submit`, and for any other command the
/// driver is written into a file.
pub fn run(cli: Cli, dirs: Option<String>) -> (r: RunStep)
    ensures
        match cli.cmd {
            Cmd::Submit { script, args } => r.is_search(
                cli_search(
                    cli,
                    opt_view(dirs),
                    common_args(cli) + seq![script@] + views(args@),
                ),
                true,
            ),
            _ => match r {
                RunStep::WriteDriver(d) => d.cli == cli && d.dirs == dirs,
                _ => false,
            },
        },
{
    let submitted = match &cli.cmd {
        Cmd::Submit { script, args } => {
            let mut all = apply_common_args(&cli);
            let ghost head = views(all@);
            let s: String = script.clone();
            proof {
                lemma_views_push(all@, s);
                assert(head.push(s@) =~= head + seq![script@]);
            }
            all.push(s);
            let ghost before = views(all@);
            let mut i: usize = 0;
            proof {
                assert(before + views(args@).take(0) =~= before);
            }
            while i < args.len()
                invariant
                    i <= args@.len(),
                    views(all@) == before + views(args@).take(i as int),
                decreases args@.len() - i,
            {
                let a = args[i].clone();
                proof {
                    lemma_views_push(all@, a);
                    assert(before + views(args@).take(i + 1) =~= (before + views(args@).take(
                        i as int,
                    )).push(a@));
                }
                all.push(a);
                i = i + 1;
            }
            proof {
                assert(views(args@).take(i as int) =~= views(args@));
            }
            Some(all)
        },
        _ => None,
    };
    match submitted {
        Some(args) => go_on(locate_spark_submit(&cli, opt_str(&dirs), args), true),
        None => RunStep::WriteDriver(DriverRun { cli, dirs }),
    }
}

impl DriverRun {
    /// Goes on once the driver stands in the given file: `spark-submit` is looked for,
    /// to be started with the options, the driver and the text of the request. A script
    /// has no driver, and is refused.
    pub fn written(self, driver: String) -> (r: RunStep)
        ensures
            match cli_request(self.cli) {
                Ok(request) => {
                    &&& r.is_search(
                        cli_search(
                            self.cli,
                            opt_view(self.dirs),
                            common_args(self.cli) + seq![driver@, encoded_text(request)],
                        ),
                        false,
                    )
                    &&& requests(encoded_text(request), request)
                    &&& decoded_text(encoded_text(request)) == cli_request(self.cli)
                },
                Err(e) => match r {
                    RunStep::End(end) => fails_with(end, e),
                    _ => false,
                },
            },
    {
        let request = match build_request_json(&self.cli) {
            Ok(s) => s,
            Err(e) => {
                return RunStep::End(fail(e.message.as_str()));
            },
        };
        let mut args = apply_common_args(&self.cli);
        let ghost head = views(args@);
        let ghost text = request@;
        proof {
            lemma_views_push(args@, driver);
            lemma_views_push(args@.push(driver), request);
            assert(head.push(driver@).push(text) =~= head + seq![driver@, text]);
        }
        args.push(driver);
        args.push(request);
        go_on(locate_spark_submit(&self.cli, opt_str(&self.dirs), args), false)
    }

    /// The end of a run where no file could be made for the driver.
    pub fn not_created(self, cause: &str) -> (r: Ending)
        ensures
            fails_with(r, "creating temp driver file"@ + ": "@ + cause@),
    {
        fail_at("creating temp driver file", cause)
    }

    /// The end of a run where the driver could not be written into its file.
    pub fn not_written(self, cause: &str) -> (r: Ending)
        ensures
            fails_with(r, "writing driver to temp file"@ + ": "@ + cause@),
    {
        fail_at("writing driver to temp file", cause)
    }
}

impl ProbeRun {
    /// Goes on once it is known whether the path is a file.
    pub fn answer(self, is_file: bool) -> (r: RunStep)
        ensures
            r.is_search(
                if is_file {
                    StepView::Spawn { program: self.probe.path@, args: views(self.probe.args@) }
                } else {
                    searching(
                        views(self.probe.rest@),
                        views(self.probe.args@),
                        self.probe.failure@,
                    )
                },
                self.reads_input,
            ),
    {
        let step = self.probe.answer(is_file);
        go_on(step, self.reads_input)
    }
}

impl SpawnRun {
    /// The end of a run whose program could not be started.
    pub fn not_spawned(self, cause: &str) -> (r: Ending)
        ensures
            fails_with(r, "spawning "@ + self.spawn.program@ + ": "@ + cause@),
    {
        let mut s: String = "spawning ".to_owned();
        s.append(self.spawn.program.as_str());
        fail_at(s.as_str(), cause)
    }

    /// The end of a run whose program has ended: the helper takes over its exit code,
    /// and ends with 1 where there is none.
    pub fn finished(self, code: Option<i32>) -> (r: Ending)
        ensures
            r.words is None,
            r.code == match code {
                Some(c) => c,
                None => 1,
            },
    {
        let code: i32 = match code {
            Some(c) => c,
            None => 1,
        };
        Ending { code, words: None }
    }
}

// ---------------------------------------------------------------------------
// Laws
// ---------------------------------------------------------------------------

/// A text and a limit keep an exact request exact.
proof fn lemma_exact_with(
    m: Map<Seq<char>, JsonView>,
    key: Seq<char>,
    text: Option<Seq<char>>,
    limit: Option<usize>,
)
    requires
        exact_within(JsonView::Object(m), MAX_DEPTH as nat),
    ensures
        exact_within(JsonView::Object(with_text(m, key, text)), MAX_DEPTH as nat),
        exact_within(JsonView::Object(with_count(m, limit)), MAX_DEPTH as nat),
{
    let d = MAX_DEPTH as nat;
    if let Some(s) = text {
        lemma_exact_insert(m, key, JsonView::Str(s), d);
    }
    if let Some(n) = limit {
        lemma_exact_insert(m, "limit"@, JsonView::Int(n as int), d);
    }
}

/// The driver reads the request that was meant: a request of the helper holds nothing
/// that would not read back from its text.
pub proof fn law_request_reads_back(cli: Cli)
    ensures
        cli_request(cli) is Ok ==> exact_within(cli_request(cli)->Ok_0, MAX_DEPTH as nat),
{
    let d = MAX_DEPTH as nat;
    let e = Map::<Seq<char>, JsonView>::empty();
    assert(exact_within(JsonView::Object(e), d));
    lemma_exact_with(e, "database"@, opt_view(cli.database), None);
    let start = with_text(e, "database"@, opt_view(cli.database));
    match cli.cmd {
        Cmd::Query { sql, columnar, with_meta, limit } => {
            lemma_exact_insert(start, "cmd"@, JsonView::Str("query"@), d);
            let m = start.insert("cmd"@, JsonView::Str("query"@));
            lemma_exact_insert(m, "sql"@, JsonView::Str(sql@), d);
            let m = m.insert("sql"@, JsonView::Str(sql@));
            lemma_exact_insert(m, "columnar"@, JsonView::Bool(columnar), d);
            let m = m.insert("columnar"@, JsonView::Bool(columnar));
            lemma_exact_insert(m, "with_meta"@, JsonView::Bool(with_meta), d);
            let m = m.insert("with_meta"@, JsonView::Bool(with_meta));
            lemma_exact_with(m, ""@, None, limit);
        },
        Cmd::Execute { sql } => {
            lemma_exact_insert(start, "cmd"@, JsonView::Str("execute"@), d);
            let m = start.insert("cmd"@, JsonView::Str("execute"@));
            lemma_exact_insert(m, "sql"@, JsonView::Str(sql@), d);
        },
        Cmd::Dump { table, columns, where_clause, order_by, limit } => {
            lemma_exact_insert(start, "cmd"@, JsonView::Str("dump"@), d);
            let m = start.insert("cmd"@, JsonView::Str("dump"@));
            lemma_exact_insert(m, "table"@, JsonView::Str(table@), d);
            let m = m.insert("table"@, JsonView::Str(table@));
            lemma_exact_with(m, "columns"@, opt_view(columns), None);
            let m = with_text(m, "columns"@, opt_view(columns));
            lemma_exact_with(m, "where"@, opt_view(where_clause), None);
            let m = with_text(m, "where"@, opt_view(where_clause));
            lemma_exact_with(m, "order_by"@, opt_view(order_by), None);
            lemma_exact_with(with_text(m, "order_by"@, opt_view(order_by)), ""@, None, limit);
        },
        Cmd::Tables => lemma_exact_insert(start, "cmd"@, JsonView::Str("tables"@), d),
        Cmd::Databases => lemma_exact_insert(start, "cmd"@, JsonView::Str("databases"@), d),
        Cmd::Schema { table } => {
            lemma_exact_insert(start, "cmd"@, JsonView::Str("schema"@), d);
            let m = start.insert("cmd"@, JsonView::Str("schema"@));
            lemma_exact_insert(m, "table"@, JsonView::Str(table@), d);
        },
        Cmd::Ping => lemma_exact_insert(start, "cmd"@, JsonView::Str("ping"@), d),
        Cmd::Submit { .. } => {},
    }
}

/// A request of the helper names a command, and its database is the one of the command
/// line.
pub proof fn law_request_names_a_command(cli: Cli)
    ensures
        cli_request(cli) is Err <==> cli.cmd is Submit,
        cli_request(cli) is Ok ==> cli_request(cli)->Ok_0.str_at("cmd"@) is Some,
        cli_request(cli) is Ok ==> cli_request(cli)->Ok_0.str_at("database"@) == opt_view(
            cli.database,
        ),
{
    reveal_strlit("database");
    reveal_strlit("cmd");
    reveal_strlit("sql");
    reveal_strlit("table");
    reveal_strlit("columns");
    reveal_strlit("columnar");
    reveal_strlit("with_meta");
    reveal_strlit("where");
    reveal_strlit("order_by");
    reveal_strlit("limit");
    assert("database"@.len() == 8 && "cmd"@.len() == 3 && "sql"@.len() == 3);
    assert("columnar"@.len() == 8 && "order_by"@.len() == 8 && "with_meta"@.len() == 9);
    assert("table"@.len() == 5 && "columns"@.len() == 7 && "where"@.len() == 5 && "limit"@.len()
        == 5);
    assert("cmd"@[0] == 'c' && "sql"@[0] == 's');
    assert("database"@[0] == 'd' && "columnar"@[0] == 'c' && "order_by"@[0] == 'o');
}

/// The arguments of the helper always name a master and an application, and end with
/// the user's settings and the defaults that they leave open.
pub proof fn law_arguments_end_with_settings(cli: Cli)
    ensures
        common_args(cli) == seq![
            "--master"@,
            match cli.master {
                Some(m) => m@,
                None => "local[*]"@,
            },
            "--name"@,
            cli.app_name@,
        ] + flag("--deploy-mode"@, opt_view(cli.deploy_mode)) + flag(
            "--packages"@,
            opt_view(cli.packages),
        ) + flag("--jars"@, opt_view(cli.jars)) + conf_args(
            all_confs(views(cli.conf@), "spark.log.level=WARN"@),
        ),
{
    law_defaults_fill_in(views(cli.conf@), "spark.log.level=WARN"@);
}

/// The request of the helper holds what the command line says and nothing else: the
/// database where one is given, the command, and the fields of the command, each optional
/// one where it is given.
pub proof fn law_request_members(cli: Cli, key: Seq<char>)
    ensures
        cli_request(cli) matches Ok(a) ==> a.get(key) == (if key == "database"@ {
            text(cli.database)
        } else {
            match cli.cmd {
                Cmd::Query { sql, columnar, with_meta, limit } => if key == "cmd"@ {
                    Some(JsonView::Str("query"@))
                } else if key == "sql"@ {
                    Some(JsonView::Str(sql@))
                } else if key == "columnar"@ {
                    Some(JsonView::Bool(columnar))
                } else if key == "with_meta"@ {
                    Some(JsonView::Bool(with_meta))
                } else if key == "limit"@ && limit is Some {
                    Some(JsonView::Int(limit->0 as int))
                } else {
                    None
                },
                Cmd::Execute { sql } => if key == "cmd"@ {
                    Some(JsonView::Str("execute"@))
                } else if key == "sql"@ {
                    Some(JsonView::Str(sql@))
                } else {
                    None
                },
                Cmd::Dump { table, columns, where_clause, order_by, limit } => if key == "cmd"@ {
                    Some(JsonView::Str("dump"@))
                } else if key == "table"@ {
                    Some(JsonView::Str(table@))
                } else if key == "columns"@ {
                    text(columns)
                } else if key == "where"@ {
                    text(where_clause)
                } else if key == "order_by"@ {
                    text(order_by)
                } else if key == "limit"@ && limit is Some {
                    Some(JsonView::Int(limit->0 as int))
                } else {
                    None
                },
                Cmd::Schema { table } => if key == "cmd"@ {
                    Some(JsonView::Str("schema"@))
                } else if key == "table"@ {
                    Some(JsonView::Str(table@))
                } else {
                    None
                },
                Cmd::Tables => if key == "cmd"@ {
                    Some(JsonView::Str("tables"@))
                } else {
                    None
                },
                Cmd::Databases => if key == "cmd"@ {
                    Some(JsonView::Str("databases"@))
                } else {
                    None
                },
                Cmd::Ping => if key == "cmd"@ {
                    Some(JsonView::Str("ping"@))
                } else {
                    None
                },
                Cmd::Submit { .. } => None,
            }
        }),
{
    law_request_names_a_command(cli);
    reveal_strlit("database");
    reveal_strlit("cmd");
    reveal_strlit("sql");
    reveal_strlit("table");
    reveal_strlit("columns");
    reveal_strlit("columnar");
    reveal_strlit("with_meta");
    reveal_strlit("where");
    reveal_strlit("order_by");
    reveal_strlit("limit");
    assert("database"@.len() == 8 && "cmd"@.len() == 3 && "sql"@.len() == 3);
    assert("columnar"@.len() == 8 && "order_by"@.len() == 8 && "with_meta"@.len() == 9);
    assert("table"@.len() == 5 && "columns"@.len() == 7 && "where"@.len() == 5 && "limit"@.len()
        == 5);
    assert("cmd"@[0] == 'c' && "sql"@[0] == 's');
    assert("database"@[0] == 'd' && "columnar"@[0] == 'c' && "order_by"@[0] == 'o');
    assert("table"@[0] == 't' && "where"@[0] == 'w' && "limit"@[0] == 'l');
}

/// A text that may be absent, as JSON.
pub open spec fn text(s: Option<String>) -> Option<JsonView> {
    match s {
        Some(t) => Some(JsonView::Str(t@)),
        None => None,
    }
}

/// The arguments of the helper in their places: the master, given or by default, and the
/// name; the deploy mode, the packages and the jars where they are set; the user's
/// settings, each behind its `--conf`; and the defaults that no setting of the user's
/// starts with the key of.
pub proof fn law_arguments_in_place(cli: Cli)
    ensures
        ({
            let args = common_args(cli);
            let confs = views(cli.conf@);
            let n = confs.len() as int;
            let level = forall|i: int|
                0 <= i < n ==> !starts_as(#[trigger] confs[i], "spark.log.level="@);
            let catalog = forall|i: int|
                0 <= i < n ==> !starts_as(#[trigger] confs[i], "spark.sql.catalogImplementation="@);
            let a = 4 + (if cli.deploy_mode is Some {
                2int
            } else {
                0
            });
            let b = a + (if cli.packages is Some {
                2int
            } else {
                0
            });
            let c = b + (if cli.jars is Some {
                2int
            } else {
                0
            });
            let d = c + 2 * n;
            let e = d + (if level {
                2int
            } else {
                0
            });
            let f = e + (if catalog {
                2int
            } else {
                0
            });
            &&& args.len() == f
            &&& args[0] == "--master"@
            &&& args[1] == (if cli.master is Some {
                cli.master->0@
            } else {
                "local[*]"@
            })
            &&& args[2] == "--name"@
            &&& args[3] == cli.app_name@
            &&& cli.deploy_mode is Some ==> args[4] == "--deploy-mode"@ && args[5]
                == cli.deploy_mode->0@
            &&& cli.packages is Some ==> args[a] == "--packages"@ && args[a + 1] == cli.packages->0@
            &&& cli.jars is Some ==> args[b] == "--jars"@ && args[b + 1] == cli.jars->0@
            &&& forall|k: int|
                0 <= k < n ==> ((#[trigger] confs[k], "--conf"@) == (
                    args[c + 2 * k + 1],
                    args[c + 2 * k],
                ))
            &&& level ==> args[d] == "--conf"@ && args[d + 1] == "spark.log.level=WARN"@
            &&& catalog ==> args[e] == "--conf"@ && args[e + 1]
                == "spark.sql.catalogImplementation=in-memory"@
        }),
{
    let head = seq![
        "--master"@,
        match cli.master {
            Some(m) => m@,
            None => "local[*]"@,
        },
    ] + seq!["--name"@, cli.app_name@] + flag("--deploy-mode"@, opt_view(cli.deploy_mode)) + flag(
        "--packages"@,
        opt_view(cli.packages),
    ) + flag("--jars"@, opt_view(cli.jars));
    let args = common_args(cli);
    lemma_settings_behind(head, views(cli.conf@));
    assert forall|i: int| 0 <= i < head.len() implies args[i] == head[i] by {}
    lemma_head(cli, head);
}

/// The arguments before the settings.
proof fn lemma_head(cli: Cli, head: Seq<Seq<char>>)
    requires
        head == seq![
            "--master"@,
            match cli.master {
                Some(m) => m@,
                None => "local[*]"@,
            },
        ] + seq!["--name"@, cli.app_name@] + flag("--deploy-mode"@, opt_view(cli.deploy_mode))
            + flag("--packages"@, opt_view(cli.packages)) + flag("--jars"@, opt_view(cli.jars)),
    ensures
        ({
            let a = 4 + (if cli.deploy_mode is Some {
                2int
            } else {
                0
            });
            let b = a + (if cli.packages is Some {
                2int
            } else {
                0
            });
            let c = b + (if cli.jars is Some {
                2int
            } else {
                0
            });
            &&& head.len() == c
            &&& head[0] == "--master"@
            &&& head[1] == (if cli.master is Some {
                cli.master->0@
            } else {
                "local[*]"@
            })
            &&& head[2] == "--name"@
            &&& head[3] == cli.app_name@
            &&& cli.deploy_mode is Some ==> head[4] == "--deploy-mode"@ && head[5]
                == cli.deploy_mode->0@
            &&& cli.packages is Some ==> head[a] == "--packages"@ && head[a + 1] == cli.packages->0@
            &&& cli.jars is Some ==> head[b] == "--jars"@ && head[b + 1] == cli.jars->0@
        }),
{
}

/// The settings behind other arguments.
proof fn lemma_settings_behind(head: Seq<Seq<char>>, confs: Seq<Seq<char>>)
    ensures
        ({
            let args = head + conf_args(confs) + unless_set(
                confs,
                "spark.log.level="@,
                "spark.log.level=WARN"@,
            ) + unless_set(
                confs,
                "spark.sql.catalogImplementation="@,
                "spark.sql.catalogImplementation=in-memory"@,
            );
            let n = confs.len() as int;
            let level = forall|i: int|
                0 <= i < n ==> !starts_as(#[trigger] confs[i], "spark.log.level="@);
            let catalog = forall|i: int|
                0 <= i < n ==> !starts_as(#[trigger] confs[i], "spark.sql.catalogImplementation="@);
            let c = head.len() as int;
            let d = c + 2 * n;
            let e = d + (if level {
                2int
            } else {
                0
            });
            let f = e + (if catalog {
                2int
            } else {
                0
            });
            &&& args.len() == f
            &&& forall|k: int|
                0 <= k < n ==> ((#[trigger] confs[k], "--conf"@) == (
                    args[c + 2 * k + 1],
                    args[c + 2 * k],
                ))
            &&& level ==> args[d] == "--conf"@ && args[d + 1] == "spark.log.level=WARN"@
            &&& catalog ==> args[e] == "--conf"@ && args[e + 1]
                == "spark.sql.catalogImplementation=in-memory"@
        }),
{
    let n = confs.len() as int;
    law_default_stands_alone(confs, "spark.log.level="@, "spark.log.level=WARN"@);
    law_default_stands_alone(
        confs,
        "spark.sql.catalogImplementation="@,
        "spark.sql.catalogImplementation=in-memory"@,
    );
    lemma_conf_args_len(confs);
    let p1 = unless_set(confs, "spark.log.level="@, "spark.log.level=WARN"@);
    let p2 = unless_set(
        confs,
        "spark.sql.catalogImplementation="@,
        "spark.sql.catalogImplementation=in-memory"@,
    );
    let args = head + conf_args(confs) + p1 + p2;
    let level = forall|i: int| 0 <= i < n ==> !starts_as(#[trigger] confs[i], "spark.log.level="@);
    let catalog = forall|i: int|
        0 <= i < n ==> !starts_as(#[trigger] confs[i], "spark.sql.catalogImplementation="@);
    assert(p1.len() == (if level {
        2int
    } else {
        0
    }));
    assert(p2.len() == (if catalog {
        2int
    } else {
        0
    }));
    let c = head.len() as int;
    let d = c + 2 * n;
    let e = d + p1.len();
    if level {
        assert(args[d] == p1[0] && args[d + 1] == p1[1]);
    }
    if catalog {
        assert(args[e] == p2[0] && args[e + 1] == p2[1]);
    }
    assert forall|k: int| 0 <= k < n implies ((#[trigger] confs[k], "--conf"@) == (
        args[c + 2 * k + 1],
        args[c + 2 * k],
    )) by {
        law_settings_in_order(confs, k);
        assert(args[c + 2 * k] == conf_args(confs)[2 * k]);
        assert(args[c + 2 * k + 1] == conf_args(confs)[2 * k + 1]);
    }
}

/// How a run begins: a script is looked for at the first candidate, to be started with the
/// arguments of the command line, the script and all of its own arguments in order, on the
/// helper's input; and for any other command the driver is written.
pub proof fn law_run(cli: Cli, dirs: Option<String>, r: RunStep)
    requires
        call_ensures(run, (cli, dirs), r),
    ensures
        cli.cmd matches Cmd::Submit { script, args } ==> {
            let paths = candidates(
                opt_view(cli.spark_submit),
                opt_view(cli.spark_home),
                opt_view(dirs),
            );
            &&& paths.len() > 0 ==> (r matches RunStep::Probe(p) && {
                &&& p.probe.path@ == paths[0]
                &&& views(p.probe.rest@) == paths.skip(1)
                &&& views(p.probe.args@) == common_args(cli) + seq![script@] + views(args@)
                &&& p.reads_input
            })
            &&& paths.len() == 0 ==> (r matches RunStep::End(e) && e.code == 1)
        },
        !(cli.cmd is Submit) ==> (r matches RunStep::WriteDriver(d) && d.cli == cli && d.dirs
            == dirs),
{
}

/// What is looked for once the driver stands in its file: the first candidate, to be
/// started with the arguments of the command line, the driver's file and the text of the
/// request, on no input.
pub proof fn law_written(waiting: DriverRun, driver: String, r: RunStep)
    requires
        call_ensures(DriverRun::written, (waiting, driver), r),
        cli_request(waiting.cli) is Ok,
    ensures
        ({
            let cli = waiting.cli;
            let paths = candidates(
                opt_view(cli.spark_submit),
                opt_view(cli.spark_home),
                opt_view(waiting.dirs),
            );
            &&& paths.len() > 0 ==> (r matches RunStep::Probe(p) && {
                &&& p.probe.path@ == paths[0]
                &&& views(p.probe.rest@) == paths.skip(1)
                &&& views(p.probe.args@) == common_args(cli) + seq![
                    driver@,
                    encoded_text(cli_request(cli)->Ok_0),
                ]
                &&& !p.reads_input
            })
            &&& paths.len() == 0 ==> (r matches RunStep::End(e) && e.code == 1)
        }),
{
}

/// What follows word of a path: a file is started with the arguments, on the same input;
/// otherwise the next path is looked at, and where there is none the run ends with 1.
pub proof fn law_path_answer(waiting: ProbeRun, is_file: bool, r: RunStep)
    requires
        call_ensures(ProbeRun::answer, (waiting, is_file), r),
    ensures
        is_file ==> (r matches RunStep::Spawn(s) && {
            &&& s.spawn.program@ == waiting.probe.path@
            &&& views(s.spawn.args@) == views(waiting.probe.args@)
            &&& s.reads_input == waiting.reads_input
        }),
        !is_file && waiting.probe.rest@.len() > 0 ==> (r matches RunStep::Probe(p) && {
            &&& p.probe.path@ == views(waiting.probe.rest@)[0]
            &&& views(p.probe.rest@) == views(waiting.probe.rest@).skip(1)
            &&& views(p.probe.args@) == views(waiting.probe.args@)
            &&& p.reads_input == waiting.reads_input
        }),
        !is_file && waiting.probe.rest@.len() == 0 ==> (r matches RunStep::End(e) && e.code == 1
            && opt_view(e.words) == Some("stryke-spark-helper: "@ + waiting.probe.failure@)),
{
}

/// The helper ends with the exit code of its program, whatever the code is, and with 1
/// where the program had none; and says nothing.
pub proof fn law_exit_code_is_kept(running: SpawnRun, code: Option<i32>, r: Ending)
    requires
        call_ensures(SpawnRun::finished, (running, code), r),
    ensures
        code matches Some(c) ==> r.code == c,
        code is None ==> r.code == 1,
        r.words is None,
{
}

/// Where no `spark-submit` is found, the words show the explicit path where one was given;
/// and a script is no request.
pub proof fn law_not_found_words(cli: Cli)
    ensures
        cli.spark_submit matches Some(p) ==> submit_missing(cli) == "--spark-submit "@ + p@
            + " not found"@,
        cli.spark_submit is None ==> submit_missing(cli)
            == "stryke-spark: `spark-submit` not found on PATH, $SPARK_HOME/bin/, or --spark-submit"@,
        cli.cmd is Submit ==> cli_request(cli) == Err::<JsonView, Seq<char>>(
            "submit not handled here"@,
        ),
{
}

/// What the helper says where it fails: what it was at, and the cause.
pub proof fn law_failure_words(
    waiting: DriverRun,
    running: SpawnRun,
    words: &str,
    r: Ending,
)
    ensures
        call_ensures(fail, (words,), r) ==> r.code == 1 && opt_view(r.words) == Some(
            "stryke-spark-helper: "@ + words@,
        ),
        call_ensures(DriverRun::not_created, (waiting, words), r) ==> r.code == 1 && opt_view(
            r.words,
        ) == Some("stryke-spark-helper: "@ + ("creating temp driver file"@ + ": "@ + words@)),
        call_ensures(DriverRun::not_written, (waiting, words), r) ==> r.code == 1 && opt_view(
            r.words,
        ) == Some("stryke-spark-helper: "@ + ("writing driver to temp file"@ + ": "@ + words@)),
        call_ensures(SpawnRun::not_spawned, (running, words), r) ==> r.code == 1 && opt_view(
            r.words,
        ) == Some(
            "stryke-spark-helper: "@ + ("spawning "@ + running.spawn.program@ + ": "@ + words@),
        ),
{
}

/// The functions on command lines give what they come to.
pub proof fn law_operations(cli: &Cli, text: Result<String, Error>, args: Vec<String>)
    ensures
        call_ensures(build_request_json, (cli,), text) ==> match text {
            Ok(s) => cli_request(*cli) is Ok && s@ == encoded_text(cli_request(*cli)->Ok_0),
            Err(e) => cli_request(*cli) == Err::<JsonView, Seq<char>>(e@),
        },
        call_ensures(apply_common_args, (cli,), args) ==> views(args@) == common_args(*cli),
{
}

} // verus!
