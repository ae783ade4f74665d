//! A call of the package: bytes of JSON come in, a text of JSON goes out, and between
//! the two a driver or a script may have to be started.
//!
//! The work on files and processes is left to the caller. Each function here takes what
//! the caller found out and says what to do next.

use vstd::prelude::*;
use vstd::string::*;

use crate::error::{outcome, Error};
use crate::json::{no_members, put, Json, JsonView};
use crate::launch::{
    candidates, law_first_file_is_started, opt_str, opt_view, search_end, searching, Probe, Spawn,
    Step, StepView,
};
use crate::opts::{not_found, options_of, submit_args, Env, EnvView, SparkOpts, SparkOptsView};
use crate::requests::{
    answer_of, answer_output, answered, arg_text, body_of, build_request, coerce_submit_args,
    coerced, law_no_argument_is_dropped, law_printed_rows, law_request_members, missing,
    request_body, request_of, Op,
};
use crate::text::{lemma_views_push, printed, views};
use crate::wire::{
    decoded_bytes, decoded_text, encode_json, encoded_text, exact_within, parse_bytes, MAX_DEPTH,
};

verus! {

// ---------------------------------------------------------------------------
// Arguments and replies
// ---------------------------------------------------------------------------

/// The bytes of an argument that may be absent.
pub open spec fn bytes_view(args: Option<&[u8]>) -> Option<Seq<u8>> {
    match args {
        Some(b) => Some(b@),
        None => None,
    }
}

/// The options that the bytes of an argument hold. An absent argument and one that is
/// no JSON are a null.
pub open spec fn decoded_args(args: Option<Seq<u8>>) -> JsonView {
    match args {
        Some(b) => match decoded_bytes(b) {
            Some(t) => t,
            None => JsonView::Null,
        },
        None => JsonView::Null,
    }
}

/// What a caller is told: the answer, or `{"error": …}` with the words of the refusal.
pub open spec fn told(o: Result<JsonView, Seq<char>>) -> JsonView {
    match o {
        Ok(v) => v,
        Err(e) => JsonView::Object(map!["error"@ => JsonView::Str(e)]),
    }
}

/// Whether a text is the reply for an outcome. It is the JSON text of what the caller
/// is told, holds no null character, and reads back as what the caller is told unless
/// that holds a floating-point number or is nested too deep.
pub open spec fn replies(text: Seq<char>, o: Result<JsonView, Seq<char>>) -> bool {
    &&& text == encoded_text(told(o))
    &&& !text.contains('\0')
    &&& exact_within(told(o), MAX_DEPTH as nat) ==> decoded_text(text) == Ok::<
        JsonView,
        Seq<char>,
    >(told(o))
}

/// Reads the options of a call.
pub fn decode_args(args: Option<&[u8]>) -> (r: Json)
    ensures
        r@ == decoded_args(bytes_view(args)),
{
    match args {
        Some(b) => parse_bytes(b),
        None => Json::Null,
    }
}

/// The reply for an outcome. A refusal always reads back as `{"error": …}`.
pub fn reply(result: Result<Json, Error>) -> (r: String)
    ensures
        replies(r@, outcome(result)),
        result is Err ==> decoded_text(r@) == Ok::<JsonView, Seq<char>>(told(outcome(result))),
{
    match result {
        Ok(v) => encode_json(v),
        Err(e) => {
            let mut m = no_members();
            put(&mut m, "error", Json::Str(e.message));
            let j = Json::Object(m);
            proof {
                assert(j@ == told(outcome(result)));
                reveal_with_fuel(exact_within, 2);
            }
            encode_json(j)
        },
    }
}

/// The reply where a call could not be carried out for the given reason.
pub fn refuse(reason: &str) -> (r: String)
    ensures
        replies(r@, Err(reason@)),
        decoded_text(r@) == Ok::<JsonView, Seq<char>>(told(Err(reason@))),
{
    reply(Err(Error::new(reason)))
}

/// The reply where carrying out a call came to a panic.
pub fn panicked() -> (r: String)
    ensures
        replies(r@, Err("stryke-spark handler panicked"@)),
{
    refuse("stryke-spark handler panicked")
}

// ---------------------------------------------------------------------------
// Steps of a call
// ---------------------------------------------------------------------------

/// What a call was made for: a command of the driver, or a script.
pub enum Work {
    Driver(Op),
    Script(String),
}

/// What a call was made for, as the model has it.
pub enum WorkView {
    Driver(Op),
    Script(Seq<char>),
}

impl View for Work {
    type V = WorkView;

    open spec fn view(&self) -> WorkView {
        match self {
            Work::Driver(op) => WorkView::Driver(*op),
            Work::Script(s) => WorkView::Script(s@),
        }
    }
}

/// A call that waits for the driver to be written into a file. `dirs` is the search path
/// of the environment.
pub struct DriverCall {
    pub op: Op,
    pub options: SparkOpts,
    pub request: String,
    pub dirs: Option<String>,
}

/// A call that waits for word whether a path is a file.
pub struct ProbeCall {
    pub work: Work,
    pub probe: Probe,
}

/// A call that waits for a program to run to its end.
pub struct SpawnCall {
    pub work: Work,
    pub spawn: Spawn,
}

/// What to do next for a call: hand out the reply, write the driver into a file, look
/// whether a path is a file, or run a program.
pub enum CallStep {
    Reply(String),
    WriteDriver(DriverCall),
    Probe(ProbeCall),
    Spawn(SpawnCall),
}

/// A step of a call as the model has it. A reply is given by its outcome.
pub enum CallView {
    Reply(Result<JsonView, Seq<char>>),
    WriteDriver {
        op: Op,
        options: SparkOptsView,
        request: JsonView,
        dirs: Option<Seq<char>>,
    },
    Probe {
        work: WorkView,
        path: Seq<char>,
        rest: Seq<Seq<char>>,
        args: Seq<Seq<char>>,
        failure: Seq<char>,
    },
    Spawn { work: WorkView, program: Seq<char>, args: Seq<Seq<char>> },
}

/// Whether a text is a request for the driver. It is the JSON text of the request,
/// holds no null character, and reads back as the request unless that holds a
/// floating-point number or is nested too deep.
pub open spec fn requests(text: Seq<char>, request: JsonView) -> bool {
    &&& text == encoded_text(request)
    &&& !text.contains('\0')
    &&& exact_within(request, MAX_DEPTH as nat) ==> decoded_text(text) == Ok::<
        JsonView,
        Seq<char>,
    >(request)
}

impl CallStep {
    /// Whether a step is the given one.
    pub open spec fn is_step(&self, v: CallView) -> bool {
        match (self, v) {
            (CallStep::Reply(s), CallView::Reply(o)) => replies(s@, o),
            (
                CallStep::WriteDriver(c),
                CallView::WriteDriver { op, options, request, dirs },
            ) => {
                &&& c.op == op
                &&& c.options@ == options
                &&& requests(c.request@, request)
                &&& opt_view(c.dirs) == dirs
            },
            (CallStep::Probe(c), CallView::Probe { work, path, rest, args, failure }) => {
                &&& c.work@ == work
                &&& c.probe.path@ == path
                &&& views(c.probe.rest@) == rest
                &&& views(c.probe.args@) == args
                &&& c.probe.failure@ == failure
            },
            (CallStep::Spawn(c), CallView::Spawn { work, program, args }) => {
                &&& c.work@ == work
                &&& c.spawn.program@ == program
                &&& views(c.spawn.args@) == args
            },
            _ => false,
        }
    }
}

/// A step of the search for `spark-submit` as a step of the call.
pub open spec fn step_of(work: WorkView, step: StepView) -> CallView {
    match step {
        StepView::Probe { path, rest, args, failure } => CallView::Probe {
            work,
            path,
            rest,
            args,
            failure,
        },
        StepView::Spawn { program, args } => CallView::Spawn { work, program, args },
        StepView::Fail(e) => CallView::Reply(Err(e)),
    }
}

/// A step of the search for `spark-submit` as a step of the call.
fn go_on(work: Work, step: Step) -> (r: CallStep)
    ensures
        r.is_step(step_of(work@, step@)),
{
    match step {
        Step::Probe(probe) => CallStep::Probe(ProbeCall { work, probe }),
        Step::Spawn(spawn) => CallStep::Spawn(SpawnCall { work, spawn }),
        Step::Fail(e) => CallStep::Reply(refuse(e.as_str())),
    }
}

// ---------------------------------------------------------------------------
// Calls of the driver
// ---------------------------------------------------------------------------

/// How a call of the driver begins: a call that lacks something is refused at once,
/// and any other has the driver written into a file.
pub open spec fn driver_call(op: Op, opts: JsonView, env: EnvView) -> CallView {
    let o = options_of(opts, env);
    match body_of(op, opts) {
        Err(e) => CallView::Reply(Err(e)),
        Ok(body) => CallView::WriteDriver {
            op,
            options: o,
            request: request_of(o.database, body),
            dirs: env.path,
        },
    }
}

/// How a call of the driver goes on once the driver stands in a file: `spark-submit` is
/// looked for, to be started with the options, the driver and the text of the request.
pub open spec fn driver_search(
    op: Op,
    o: SparkOptsView,
    request: Seq<char>,
    dirs: Option<Seq<char>>,
    driver: Seq<char>,
) -> CallView {
    step_of(
        WorkView::Driver(op),
        searching(
            candidates(o.spark_submit, o.spark_home, dirs),
            submit_args(o) + seq![driver, request],
            not_found(o),
        ),
    )
}

/// Begins a call of the driver.
pub fn begin(op: Op, opts: Json, env: &Env) -> (r: CallStep)
    ensures
        r.is_step(driver_call(op, opts@, env@)),
{
    let options = SparkOpts::from_value(&opts, env);
    match request_body(op, &opts) {
        Err(e) => CallStep::Reply(reply(Err(e))),
        Ok(body) => {
            let request = encode_json(build_request(&options, body));
            let dirs = match &env.path {
                Some(p) => Some(p.clone()),
                None => None,
            };
            CallStep::WriteDriver(DriverCall { op, options, request, dirs })
        },
    }
}

impl DriverCall {
    /// Goes on once the driver stands in the given file.
    pub fn written(self, driver: String) -> (r: CallStep)
        ensures
            r.is_step(
                driver_search(self.op, self.options@, self.request@, opt_view(self.dirs), driver@),
            ),
    {
        let mut args = self.options.apply_to();
        let ghost head = views(args@);
        proof {
            lemma_views_push(args@, driver);
            lemma_views_push(args@.push(driver), self.request);
            assert(head.push(driver@).push(self.request@) =~= head + seq![driver@, self.request@]);
        }
        args.push(driver);
        args.push(self.request);
        let step = self.options.locate_spark_submit(opt_str(&self.dirs), args);
        go_on(Work::Driver(self.op), step)
    }

    /// The reply where no file could be made for the driver.
    pub fn not_created(self) -> (r: String)
        ensures
            replies(r@, Err("creating temp driver file"@)),
    {
        refuse("creating temp driver file")
    }

    /// The reply where the driver could not be written into its file.
    pub fn not_written(self) -> (r: String)
        ensures
            replies(r@, Err("writing driver to temp file"@)),
    {
        refuse("writing driver to temp file")
    }
}

// ---------------------------------------------------------------------------
// Scripts
// ---------------------------------------------------------------------------

/// The arguments of a script, or why they are refused. No list means no arguments.
pub open spec fn script_args(opts: JsonView) -> Result<Seq<Seq<char>>, Seq<char>> {
    match opts.array_at("args"@) {
        Some(items) => coerced(items),
        None => Ok(Seq::<Seq<char>>::empty()),
    }
}

/// How the submission of a script begins: it is refused where the script or an argument
/// is missing; otherwise `spark-submit` is looked for, to be started with the options,
/// the script and its arguments.
pub open spec fn submit_call(opts: JsonView, env: EnvView) -> CallView {
    let o = options_of(opts, env);
    match opts.str_at("script"@) {
        None => CallView::Reply(Err(missing("script"@))),
        Some(script) => match script_args(opts) {
            Err(e) => CallView::Reply(Err(e)),
            Ok(args) => step_of(
                WorkView::Script(script),
                searching(
                    candidates(o.spark_submit, o.spark_home, env.path),
                    submit_args(o) + seq![script] + args,
                    not_found(o),
                ),
            ),
        },
    }
}

/// Begins the submission of a script.
pub fn begin_submit(opts: Json, env: &Env) -> (r: CallStep)
    ensures
        r.is_step(submit_call(opts@, env@)),
{
    let options = SparkOpts::from_value(&opts, env);
    let script: String = match opts.str_at("script") {
        None => {
            return CallStep::Reply(reply(Err(Error::about("missing ", "script"))));
        },
        Some(s) => s.to_owned(),
    };
    let mut script_args = match opts.array_at("args") {
        Some(items) => match coerce_submit_args(items) {
            Ok(v) => v,
            Err(e) => {
                return CallStep::Reply(reply(Err(e)));
            },
        },
        None => Vec::new(),
    };
    let ghost tail = views(script_args@);
    proof {
        assert(self::script_args(opts@) is Ok);
        assert(tail =~= self::script_args(opts@)->Ok_0);
    }
    let mut args = options.apply_to();
    let first: String = script.clone();
    let ghost head = views(args@);
    proof {
        lemma_views_push(args@, first);
        assert(head.push(script@) =~= head + seq![script@]);
    }
    args.push(first);
    let ghost before = args@;
    let ghost added = script_args@;
    args.append(&mut script_args);
    proof {
        assert(args@ == before + added);
        assert(views(args@) =~= views(before) + views(added));
    }
    let step = options.locate_spark_submit(opt_str(&env.path), args);
    go_on(Work::Script(script), step)
}

// ---------------------------------------------------------------------------
// The rest of a call
// ---------------------------------------------------------------------------

impl ProbeCall {
    /// Goes on once it is known whether the path is a file.
    pub fn answer(self, is_file: bool) -> (r: CallStep)
        ensures
            r.is_step(
                step_of(
                    self.work@,
                    if is_file {
                        StepView::Spawn {
                            program: self.probe.path@,
                            args: views(self.probe.args@),
                        }
                    } else {
                        searching(
                            views(self.probe.rest@),
                            views(self.probe.args@),
                            self.probe.failure@,
                        )
                    },
                ),
            ),
    {
        let step = self.probe.answer(is_file);
        go_on(self.work, step)
    }
}

/// How a program ended: whether it was a success, the exit code where there is one, and
/// the words in which the system says so.
pub struct Exit {
    pub success: bool,
    pub code: Option<i32>,
    pub words: String,
}

/// What a call comes to when its program has ended. A driver that ended in failure is
/// an error, and otherwise its output is read. A script is answered with its exit code
/// and its output, however it ended.
pub open spec fn finished_with(work: WorkView, exit: Exit, output: Seq<char>) -> Result<
    JsonView,
    Seq<char>,
> {
    match work {
        WorkView::Driver(op) => if exit.success {
            answered(op, output)
        } else {
            Err(
                "spark-submit exited with "@ + exit.words@
                    + " — see stderr for driver output"@,
            )
        },
        WorkView::Script(script) => Ok(
            JsonView::Object(
                map![
                    "script"@ => JsonView::Str(script),
                    "exit_code"@ => match exit.code {
                        Some(c) => JsonView::Int(c as int),
                        None => JsonView::Null,
                    },
                    "output"@ => JsonView::Str(output),
                ],
            ),
        ),
    }
}

impl SpawnCall {
    /// The reply where the program could not be started.
    pub fn not_spawned(self) -> (r: String)
        ensures
            replies(r@, Err("spawning "@ + self.spawn.program@)),
    {
        reply(Err(Error::about("spawning ", self.spawn.program.as_str())))
    }

    /// The reply once the program has ended with the given output.
    pub fn finished(self, exit: &Exit, output: String) -> (r: String)
        ensures
            replies(r@, finished_with(self.work@, *exit, output@)),
    {
        match self.work {
            Work::Driver(op) => {
                if !exit.success {
                    return reply(
                        Err(
                            Error::around(
                                "spark-submit exited with ",
                                exit.words.as_str(),
                                " — see stderr for driver output",
                            ),
                        ),
                    );
                }
                reply(answer_output(op, output.as_str()))
            },
            Work::Script(script) => {
                let code = match exit.code {
                    Some(c) => Json::signed(c as i64),
                    None => Json::Null,
                };
                let mut m = no_members();
                put(&mut m, "script", Json::Str(script));
                put(&mut m, "exit_code", code);
                put(&mut m, "output", Json::Str(output));
                reply(Ok(Json::Object(m)))
            },
        }
    }
}

// ---------------------------------------------------------------------------
// Laws
// ---------------------------------------------------------------------------

/// Where a call stands once every path that it asks about has been looked at.
pub open spec fn after_search(step: CallView, is_file: spec_fn(Seq<char>) -> bool) -> CallView
    decreases
            match step {
                CallView::Probe { work, path, rest, args, failure } => rest.len() + 1,
                _ => 0,
            },
{
    match step {
        CallView::Probe { work, path, rest, args, failure } => if is_file(path) {
            CallView::Spawn { work, program: path, args }
        } else {
            after_search(step_of(work, searching(rest, args, failure)), is_file)
        },
        _ => step,
    }
}

/// A call searches as the search does.
proof fn lemma_after_search(work: WorkView, step: StepView, is_file: spec_fn(Seq<char>) -> bool)
    ensures
        after_search(step_of(work, step), is_file) == step_of(work, search_end(step, is_file)),
    decreases
            match step {
                StepView::Probe { path, rest, args, failure } => rest.len() + 1,
                _ => 0,
            },
{
    if let StepView::Probe { path, rest, args, failure } = step {
        if !is_file(path) {
            lemma_after_search(work, searching(rest, args, failure), is_file);
        }
    }
}

/// A call that lacks something is refused before anything is written, looked at or run,
/// in the same words whatever the environment holds; and no other is refused so early.
pub proof fn law_refused_before_any_work(op: Op, opts: JsonView, env: EnvView)
    ensures
        match body_of(op, opts) {
            Err(e) => driver_call(op, opts, env) == CallView::Reply(
                Err::<JsonView, Seq<char>>(e),
            ),
            Ok(_) => driver_call(op, opts, env) is WriteDriver,
        },
{
}

/// The driver is started by the first `spark-submit` that is a file, with the options,
/// the driver's file and the request; where none is a file, the caller is told so and
/// nothing is started.
pub proof fn law_driver_gets_the_request(
    op: Op,
    o: SparkOptsView,
    request: Seq<char>,
    dirs: Option<Seq<char>>,
    driver: Seq<char>,
    is_file: spec_fn(Seq<char>) -> bool,
)
    ensures
        ({
            let paths = candidates(o.spark_submit, o.spark_home, dirs);
            let end = after_search(driver_search(op, o, request, dirs, driver), is_file);
            &&& forall|i: int|
                0 <= i < paths.len() && is_file(#[trigger] paths[i]) && (forall|j: int|
                    0 <= j < i ==> !is_file(#[trigger] paths[j])) ==> end == (CallView::Spawn {
                    work: WorkView::Driver(op),
                    program: paths[i],
                    args: submit_args(o) + seq![driver, request],
                })
            &&& (forall|i: int| 0 <= i < paths.len() ==> !is_file(#[trigger] paths[i])) ==> end
                == CallView::Reply(Err::<JsonView, Seq<char>>(not_found(o)))
        }),
{
    let paths = candidates(o.spark_submit, o.spark_home, dirs);
    let args = submit_args(o) + seq![driver, request];
    let start = searching(paths, args, not_found(o));
    lemma_after_search(WorkView::Driver(op), start, is_file);
    law_first_file_is_started(paths, args, not_found(o), is_file);
}

/// A script that is not refused is started by the first `spark-submit` that is a file,
/// with the options, the script and its arguments; where none is a file, the caller is
/// told so and nothing is started.
pub proof fn law_script_gets_its_arguments(
    opts: JsonView,
    env: EnvView,
    is_file: spec_fn(Seq<char>) -> bool,
)
    requires
        opts.str_at("script"@) is Some,
        script_args(opts) is Ok,
    ensures
        ({
            let o = options_of(opts, env);
            let script = opts.str_at("script"@)->0;
            let paths = candidates(o.spark_submit, o.spark_home, env.path);
            let end = after_search(submit_call(opts, env), is_file);
            &&& forall|i: int|
                0 <= i < paths.len() && is_file(#[trigger] paths[i]) && (forall|j: int|
                    0 <= j < i ==> !is_file(#[trigger] paths[j])) ==> end == (CallView::Spawn {
                    work: WorkView::Script(script),
                    program: paths[i],
                    args: submit_args(o) + seq![script] + script_args(opts)->Ok_0,
                })
            &&& (forall|i: int| 0 <= i < paths.len() ==> !is_file(#[trigger] paths[i])) ==> end
                == CallView::Reply(Err::<JsonView, Seq<char>>(not_found(o)))
        }),
{
    let o = options_of(opts, env);
    let script = opts.str_at("script"@)->0;
    let paths = candidates(o.spark_submit, o.spark_home, env.path);
    let args = submit_args(o) + seq![script] + script_args(opts)->Ok_0;
    lemma_after_search(WorkView::Script(script), searching(paths, args, not_found(o)), is_file);
    law_first_file_is_started(paths, args, not_found(o), is_file);
}

/// A driver that ends in failure is an error, whatever it wrote.
pub proof fn law_failed_driver_is_an_error(op: Op, exit: Exit, output: Seq<char>, other: Seq<char>)
    requires
        !exit.success,
    ensures
        finished_with(WorkView::Driver(op), exit, output) is Err,
        finished_with(WorkView::Driver(op), exit, output) == finished_with(
            WorkView::Driver(op),
            exit,
            other,
        ),
{
}

/// A script that ran is answered with its output as it stands, however it ended.
pub proof fn law_script_output_is_kept(script: Seq<char>, exit: Exit, output: Seq<char>)
    ensures
        finished_with(WorkView::Script(script), exit, output) is Ok,
        finished_with(WorkView::Script(script), exit, output)->Ok_0.str_at("output"@) == Some(
            output,
        ),
        finished_with(WorkView::Script(script), exit, output)->Ok_0.str_at("script"@) == Some(
            script,
        ),
{
    reveal_strlit("script");
    reveal_strlit("exit_code");
    reveal_strlit("output");
    assert("script"@.len() == 6 && "exit_code"@.len() == 9 && "output"@.len() == 6);
    assert("script"@[0] == 's' && "output"@[0] == 'o');
}

/// A script that ran is answered with its name, its output and its exit code, and nothing
/// else: the code itself, whatever it is, where the program had one, and a null exactly
/// where it had none.
pub proof fn law_script_answer(script: Seq<char>, exit: Exit, output: Seq<char>, key: Seq<char>)
    ensures
        finished_with(WorkView::Script(script), exit, output) is Ok,
        ({
            let a = finished_with(WorkView::Script(script), exit, output)->Ok_0;
            &&& a.get("script"@) == Some(JsonView::Str(script))
            &&& a.get("output"@) == Some(JsonView::Str(output))
            &&& exit.code matches Some(c) ==> a.get("exit_code"@) == Some(JsonView::Int(c as int))
            &&& exit.code is None ==> a.get("exit_code"@) == Some(JsonView::Null)
            &&& a.get(key) is Some ==> key == "script"@ || key == "output"@ || key == "exit_code"@
        }),
{
    law_script_output_is_kept(script, exit, output);
    reveal_strlit("script");
    reveal_strlit("exit_code");
    reveal_strlit("output");
    assert("script"@.len() == 6 && "exit_code"@.len() == 9 && "output"@.len() == 6);
    assert("script"@[0] == 's' && "output"@[0] == 'o');
}

/// A driver that ended well and printed values one to a line is answered with those values
/// as its rows: all of them, in order, however often one of them occurs. One that ended in
/// failure is told in words that hold what the system said.
pub proof fn law_driver_answer(op: Op, exit: Exit, lines: Seq<Seq<char>>, values: Seq<JsonView>)
    requires
        lines.len() == values.len(),
        forall|i: int|
            0 <= i < lines.len() ==> (#[trigger] lines[i]).len() > 0 && !lines[i].contains('\n')
                && !lines[i].contains('\r'),
        forall|i: int|
            0 <= i < lines.len() ==> decoded_text(#[trigger] lines[i]) == Ok::<
                JsonView,
                Seq<char>,
            >(values[i]),
    ensures
        exit.success ==> finished_with(WorkView::Driver(op), exit, printed(lines)) == Ok::<
            JsonView,
            Seq<char>,
        >(answer_of(op, values)),
        !exit.success ==> finished_with(WorkView::Driver(op), exit, printed(lines)) == Err::<
            JsonView,
            Seq<char>,
        >("spark-submit exited with "@ + exit.words@ + " — see stderr for driver output"@),
{
    law_printed_rows(lines, values);
}

/// A driver that ended well is answered from its output alone, whatever its exit code and
/// the words of the system.
pub proof fn law_success_is_answered_from_output(op: Op, exit: Exit, output: Seq<char>)
    requires
        exit.success,
    ensures
        finished_with(WorkView::Driver(op), exit, output) == answered(op, output),
{
}

/// A caller is told the answer as it is, or else the words of the refusal under `error`
/// and nothing else.
pub proof fn law_told(v: JsonView, words: Seq<char>, key: Seq<char>)
    ensures
        told(Ok(v)) == v,
        told(Err(words)).get("error"@) == Some(JsonView::Str(words)),
        told(Err(words)).get(key) is Some ==> key == "error"@,
{
}

/// The options of a call are what its bytes hold, and a null where it has no bytes or they
/// are no JSON.
pub proof fn law_arguments_are_decoded(bytes: Seq<u8>)
    ensures
        decoded_bytes(bytes) matches Some(t) ==> decoded_args(Some(bytes)) == t,
        decoded_bytes(bytes) is None ==> decoded_args(Some(bytes)) is Null,
        decoded_args(None) is Null,
{
}

/// A call of the driver that is not refused carries the connection options, the search
/// path of the environment, and a request that holds the members of the body and the
/// database that the options name.
pub proof fn law_driver_call_carries(op: Op, opts: JsonView, env: EnvView, key: Seq<char>)
    ensures
        body_of(op, opts) matches Ok(body) ==> (driver_call(op, opts, env)
            matches CallView::WriteDriver { op: asked, options, request, dirs } && {
            &&& asked == op
            &&& options == options_of(opts, env)
            &&& dirs == env.path
            &&& request.get(key) == (if key == "database"@ && opts.str_at("database"@) is Some {
                Some(JsonView::Str(opts.str_at("database"@)->0))
            } else {
                body.get(key)
            })
        }),
{
    if let Ok(body) = body_of(op, opts) {
        law_request_members(options_of(opts, env).database, body, key);
    }
}

/// A script is refused at once where it has no name, and where a null is among its
/// arguments; and no other is refused before `spark-submit` was looked for.
pub proof fn law_script_refused_at_once(opts: JsonView, env: EnvView)
    ensures
        opts.str_at("script"@) is None ==> submit_call(opts, env) is Reply,
        opts.array_at("args"@) matches Some(items) ==> ((exists|i: int|
            0 <= i < items.len() && (#[trigger] items[i]) is Null) ==> submit_call(
            opts,
            env,
        ) is Reply),
        opts.array_at("args"@) is None ==> script_args(opts) == Ok::<Seq<Seq<char>>, Seq<char>>(
            Seq::<Seq<char>>::empty(),
        ),
        opts.array_at("args"@) matches Some(items) ==> script_args(opts) == coerced(items),
{
    if let Some(items) = opts.array_at("args"@) {
        law_no_argument_is_dropped(items);
        if exists|i: int| 0 <= i < items.len() && (#[trigger] items[i]) is Null {
            let i = choose|i: int| 0 <= i < items.len() && (#[trigger] items[i]) is Null;
            if let Ok(v) = coerced(items) {
                assert(arg_text(items[i]) == Some(v[i]));
            }
        }
    }
}

/// What the beginning of a driver's call hands out: the reply of a refusal, or a call with
/// the operation, the options, the search path and the text of the request.
pub proof fn law_begin(op: Op, opts: Json, env: &Env, r: CallStep)
    requires
        call_ensures(begin, (op, opts, env), r),
    ensures
        body_of(op, opts@) matches Err(e) ==> (r matches CallStep::Reply(s) && s@ == encoded_text(
            told(Err(e)),
        )),
        body_of(op, opts@) matches Ok(body) ==> (r matches CallStep::WriteDriver(c) && {
            &&& c.op == op
            &&& c.options@ == options_of(opts@, env@)
            &&& opt_view(c.dirs) == opt_view(env.path)
            &&& c.request@ == encoded_text(request_of(options_of(opts@, env@).database, body))
        }),
{
}

/// What is looked for once the driver stands in its file: the first candidate, to be
/// started with the options, the driver's file and the request, in that order.
pub proof fn law_written(call: DriverCall, driver: String, r: CallStep)
    requires
        call_ensures(DriverCall::written, (call, driver), r),
    ensures
        ({
            let o = call.options@;
            let paths = candidates(o.spark_submit, o.spark_home, opt_view(call.dirs));
            &&& paths.len() > 0 ==> (r matches CallStep::Probe(p) && {
                &&& p.work@ == WorkView::Driver(call.op)
                &&& p.probe.path@ == paths[0]
                &&& views(p.probe.rest@) == paths.skip(1)
                &&& views(p.probe.args@) == submit_args(o) + seq![driver@, call.request@]
            })
            &&& paths.len() == 0 ==> r is Reply
        }),
{
}

/// What follows word of a path: a file is started with the arguments, for the same work;
/// otherwise the next path is looked at, and where there is none the call is refused.
pub proof fn law_path_answer(call: ProbeCall, is_file: bool, r: CallStep)
    requires
        call_ensures(ProbeCall::answer, (call, is_file), r),
    ensures
        is_file ==> (r matches CallStep::Spawn(s) && {
            &&& s.work@ == call.work@
            &&& s.spawn.program@ == call.probe.path@
            &&& views(s.spawn.args@) == views(call.probe.args@)
        }),
        !is_file && call.probe.rest@.len() > 0 ==> (r matches CallStep::Probe(p) && {
            &&& p.work@ == call.work@
            &&& p.probe.path@ == views(call.probe.rest@)[0]
            &&& views(p.probe.rest@) == views(call.probe.rest@).skip(1)
            &&& views(p.probe.args@) == views(call.probe.args@)
            &&& p.probe.failure@ == call.probe.failure@
        }),
        !is_file && call.probe.rest@.len() == 0 ==> (r matches CallStep::Reply(s) && s@
            == encoded_text(told(Err(call.probe.failure@)))),
{
}

/// The reply of a call whose program has ended is the text of what it came to.
pub proof fn law_finished(call: SpawnCall, exit: &Exit, output: String, r: String)
    requires
        call_ensures(SpawnCall::finished, (call, exit, output), r),
    ensures
        r@ == encoded_text(told(finished_with(call.work@, *exit, output@))),
{
}

/// The replies where a call could not be carried out tell why, under `error`.
pub proof fn law_refusal_replies(
    waiting: DriverCall,
    running: SpawnCall,
    reason: &str,
    result: Result<Json, Error>,
    r: String,
)
    ensures
        call_ensures(reply, (result,), r) ==> r@ == encoded_text(told(outcome(result))),
        call_ensures(refuse, (reason,), r) ==> r@ == encoded_text(told(Err(reason@))),
        call_ensures(panicked, (), r) ==> r@ == encoded_text(
            told(Err("stryke-spark handler panicked"@)),
        ),
        call_ensures(DriverCall::not_created, (waiting,), r) ==> r@ == encoded_text(
            told(Err("creating temp driver file"@)),
        ),
        call_ensures(DriverCall::not_written, (waiting,), r) ==> r@ == encoded_text(
            told(Err("writing driver to temp file"@)),
        ),
        call_ensures(SpawnCall::not_spawned, (running,), r) ==> r@ == encoded_text(
            told(Err("spawning "@ + running.spawn.program@)),
        ),
{
}

} // verus!
