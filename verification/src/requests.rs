//! What is asked of the driver, and what is made of its rows.

use vstd::prelude::*;
use vstd::string::*;

use crate::error::{outcome, Error};
use crate::json::{json_views, lemma_json_views_push, members_map, no_members, put, Json, JsonView};
use crate::opts::SparkOpts;
use crate::text::{
    dec, dec_text, law_printed_lines, lemma_views_push, lines_of, printed, text_lines, views,
};
use crate::wire::{
    decoded_text, display_json, encoded_text, exact_within, int_text, lemma_exact_insert,
    lemma_exact_object, parse_json, MAX_DEPTH,
};

verus! {

/// What the driver can be asked to do.
#[derive(Clone, Copy)]
pub enum Op {
    Ping,
    Query,
    Execute,
    Dump,
    Tables,
    Databases,
    Views,
    Catalogs,
    CurrentDatabase,
    CreateTempView,
    DropTempView,
    SetDatabase,
    RefreshTable,
    Schema,
    Explain,
    Read,
    Write,
    Columns,
    Functions,
    Cache,
    Uncache,
    Config,
}

// ---------------------------------------------------------------------------
// Request bodies
// ---------------------------------------------------------------------------

/// The body that asks for a command.
pub open spec fn command(cmd: Seq<char>) -> Map<Seq<char>, JsonView> {
    map!["cmd"@ => JsonView::Str(cmd)]
}

/// The body with the string that the options hold under a key, where they hold one.
pub open spec fn with_str(
    body: Map<Seq<char>, JsonView>,
    opts: JsonView,
    key: Seq<char>,
) -> Map<Seq<char>, JsonView> {
    match opts.str_at(key) {
        Some(s) => body.insert(key, JsonView::Str(s)),
        None => body,
    }
}

/// The body with the limit that the options hold, where they hold one.
pub open spec fn with_limit(body: Map<Seq<char>, JsonView>, opts: JsonView) -> Map<
    Seq<char>,
    JsonView,
> {
    match opts.u64_at("limit"@) {
        Some(n) => body.insert("limit"@, JsonView::Int(n)),
        None => body,
    }
}

/// The body with the reader or writer options that the options hold, where they are
/// an object.
pub open spec fn with_options(body: Map<Seq<char>, JsonView>, opts: JsonView) -> Map<
    Seq<char>,
    JsonView,
> {
    match opts.get("options"@) {
        Some(JsonView::Object(m)) => body.insert("options"@, JsonView::Object(m)),
        _ => body,
    }
}

/// What is said where a field is missing or no string.
pub open spec fn missing(field: Seq<char>) -> Seq<char> {
    "missing "@ + field
}

/// The body of a command that has no field.
pub open spec fn bare_body(cmd: Seq<char>) -> Result<JsonView, Seq<char>> {
    Ok(JsonView::Object(command(cmd)))
}

/// The body of a command that has one field.
pub open spec fn field_body(opts: JsonView, cmd: Seq<char>, field: Seq<char>) -> Result<
    JsonView,
    Seq<char>,
> {
    match opts.str_at(field) {
        None => Err(missing(field)),
        Some(s) => Ok(JsonView::Object(command(cmd).insert(field, JsonView::Str(s)))),
    }
}

/// The body of `query`: the SQL, and a limit where one is given.
pub open spec fn query_body(opts: JsonView) -> Result<JsonView, Seq<char>> {
    match opts.str_at("sql"@) {
        None => Err(missing("sql"@)),
        Some(sql) => Ok(
            JsonView::Object(
                with_limit(command("query"@).insert("sql"@, JsonView::Str(sql)), opts),
            ),
        ),
    }
}

/// The body of `dump`: the table, and what else is given.
pub open spec fn dump_body(opts: JsonView) -> Result<JsonView, Seq<char>> {
    match opts.str_at("table"@) {
        None => Err(missing("table"@)),
        Some(table) => {
            let b = command("dump"@).insert("table"@, JsonView::Str(table));
            let b = with_str(b, opts, "columns"@);
            let b = with_str(b, opts, "where"@);
            let b = with_str(b, opts, "order_by"@);
            Ok(JsonView::Object(with_limit(b, opts)))
        },
    }
}

/// The body of `create_temp_view`: the name, and the SQL where it is given.
pub open spec fn temp_view_body(opts: JsonView) -> Result<JsonView, Seq<char>> {
    match opts.str_at("name"@) {
        None => Err(missing("name"@)),
        Some(name) => {
            let b = command("create_temp_view"@).insert("name"@, JsonView::Str(name));
            Ok(JsonView::Object(with_str(b, opts, "sql"@)))
        },
    }
}

/// The body of `explain`: the SQL, and the mode where it is given.
pub open spec fn explain_body(opts: JsonView) -> Result<JsonView, Seq<char>> {
    match opts.str_at("sql"@) {
        None => Err(missing("sql"@)),
        Some(sql) => {
            let b = command("explain"@).insert("sql"@, JsonView::Str(sql));
            Ok(JsonView::Object(with_str(b, opts, "mode"@)))
        },
    }
}

/// The body of `read`: the path, and what else is given.
pub open spec fn read_body(opts: JsonView) -> Result<JsonView, Seq<char>> {
    match opts.str_at("path"@) {
        None => Err(missing("path"@)),
        Some(path) => {
            let b = command("read"@).insert("path"@, JsonView::Str(path));
            let b = with_str(b, opts, "format"@);
            let b = with_str(b, opts, "view"@);
            let b = with_str(b, opts, "sql"@);
            Ok(JsonView::Object(with_limit(with_options(b, opts), opts)))
        },
    }
}

/// The body of `write`: the SQL, a path or a table, and what else is given.
pub open spec fn write_body(opts: JsonView) -> Result<JsonView, Seq<char>> {
    match opts.str_at("sql"@) {
        None => Err("missing sql (query producing the data to write)"@),
        Some(sql) => if opts.str_at("path"@) is None && opts.str_at("table"@) is None {
            Err("write needs a `path` or a `table` target"@)
        } else {
            let b = command("write"@).insert("sql"@, JsonView::Str(sql));
            let b = with_str(b, opts, "path"@);
            let b = with_str(b, opts, "table"@);
            let b = with_str(b, opts, "format"@);
            let b = with_str(b, opts, "mode"@);
            Ok(JsonView::Object(with_options(b, opts)))
        },
    }
}

/// The body of `config`: the key, and the value where one is given that is not null.
/// With a value the driver sets the key, without one it reads it.
pub open spec fn config_body(opts: JsonView) -> Result<JsonView, Seq<char>> {
    match opts.str_at("key"@) {
        None => Err(missing("key"@)),
        Some(key) => {
            let b = command("config"@).insert("key"@, JsonView::Str(key));
            Ok(
                JsonView::Object(
                    match opts.get("value"@) {
                        Some(v) => if v is Null {
                            b
                        } else {
                            b.insert("value"@, v)
                        },
                        None => b,
                    },
                ),
            )
        },
    }
}

/// What is asked of the driver, or why nothing is.
pub open spec fn body_of(op: Op, opts: JsonView) -> Result<JsonView, Seq<char>> {
    match op {
        Op::Ping => bare_body("ping"@),
        Op::Query => query_body(opts),
        Op::Execute => field_body(opts, "execute"@, "sql"@),
        Op::Dump => dump_body(opts),
        Op::Tables => bare_body("tables"@),
        Op::Databases => bare_body("databases"@),
        Op::Views => bare_body("views"@),
        Op::Catalogs => bare_body("catalogs"@),
        Op::CurrentDatabase => bare_body("current_database"@),
        Op::CreateTempView => temp_view_body(opts),
        Op::DropTempView => field_body(opts, "drop_temp_view"@, "name"@),
        Op::SetDatabase => field_body(opts, "set_database"@, "database"@),
        Op::RefreshTable => field_body(opts, "refresh_table"@, "table"@),
        Op::Schema => field_body(opts, "schema"@, "table"@),
        Op::Explain => explain_body(opts),
        Op::Read => read_body(opts),
        Op::Write => write_body(opts),
        Op::Columns => field_body(opts, "columns"@, "table"@),
        Op::Functions => bare_body("functions"@),
        Op::Cache => field_body(opts, "cache"@, "table"@),
        Op::Uncache => field_body(opts, "uncache"@, "table"@),
        Op::Config => config_body(opts),
    }
}

/// The body that asks for a command.
fn new_command(cmd: &str) -> (r: Vec<(String, Json)>)
    ensures
        members_map(r@) == command(cmd@),
{
    let mut m = no_members();
    put(&mut m, "cmd", Json::text(cmd));
    m
}

/// Copies an optional string from the options into the body under the same key.
pub fn copy_str(opts: &Json, body: &mut Vec<(String, Json)>, key: &str)
    ensures
        members_map(final(body)@) == with_str(members_map(old(body)@), opts@, key@),
{
    if let Some(s) = opts.str_at(key) {
        put(body, key, Json::text(s));
    }
}

/// Copies an optional limit from the options into the body.
fn copy_limit(opts: &Json, body: &mut Vec<(String, Json)>)
    ensures
        members_map(final(body)@) == with_limit(members_map(old(body)@), opts@),
{
    if let Some(n) = opts.u64_at("limit") {
        put(body, "limit", Json::uint(n));
    }
}

/// Copies the reader or writer options into the body, where they are an object.
fn copy_options(opts: &Json, body: &mut Vec<(String, Json)>)
    ensures
        members_map(final(body)@) == with_options(members_map(old(body)@), opts@),
{
    if let Some(v) = opts.get("options") {
        if v.is_object() {
            put(body, "options", v.copy());
        }
    }
}

/// The body of a command that has no field.
fn bare(cmd: &str) -> (r: Result<Json, Error>)
    ensures
        outcome(r) == bare_body(cmd@),
{
    Ok(Json::Object(new_command(cmd)))
}

/// The body of a command that has one field.
pub fn one_field(opts: &Json, cmd: &str, field: &str) -> (r: Result<Json, Error>)
    ensures
        outcome(r) == field_body(opts@, cmd@, field@),
{
    match opts.str_at(field) {
        None => Err(Error::about("missing ", field)),
        Some(s) => {
            let mut b = new_command(cmd);
            put(&mut b, field, Json::text(s));
            Ok(Json::Object(b))
        },
    }
}

/// The body of `query`.
pub fn query_request(opts: &Json) -> (r: Result<Json, Error>)
    ensures
        outcome(r) == query_body(opts@),
{
    match opts.str_at("sql") {
        None => Err(Error::about("missing ", "sql")),
        Some(sql) => {
            let mut b = new_command("query");
            put(&mut b, "sql", Json::text(sql));
            copy_limit(opts, &mut b);
            Ok(Json::Object(b))
        },
    }
}

/// The body of `dump`.
pub fn dump_request(opts: &Json) -> (r: Result<Json, Error>)
    ensures
        outcome(r) == dump_body(opts@),
{
    match opts.str_at("table") {
        None => Err(Error::about("missing ", "table")),
        Some(table) => {
            let mut b = new_command("dump");
            put(&mut b, "table", Json::text(table));
            copy_str(opts, &mut b, "columns");
            copy_str(opts, &mut b, "where");
            copy_str(opts, &mut b, "order_by");
            copy_limit(opts, &mut b);
            Ok(Json::Object(b))
        },
    }
}

/// The body of `create_temp_view`.
pub fn temp_view_request(opts: &Json) -> (r: Result<Json, Error>)
    ensures
        outcome(r) == temp_view_body(opts@),
{
    match opts.str_at("name") {
        None => Err(Error::about("missing ", "name")),
        Some(name) => {
            let mut b = new_command("create_temp_view");
            put(&mut b, "name", Json::text(name));
            copy_str(opts, &mut b, "sql");
            Ok(Json::Object(b))
        },
    }
}

/// The body of `explain`.
pub fn explain_request(opts: &Json) -> (r: Result<Json, Error>)
    ensures
        outcome(r) == explain_body(opts@),
{
    match opts.str_at("sql") {
        None => Err(Error::about("missing ", "sql")),
        Some(sql) => {
            let mut b = new_command("explain");
            put(&mut b, "sql", Json::text(sql));
            copy_str(opts, &mut b, "mode");
            Ok(Json::Object(b))
        },
    }
}

/// The body of `read`.
pub fn read_request(opts: &Json) -> (r: Result<Json, Error>)
    ensures
        outcome(r) == read_body(opts@),
{
    match opts.str_at("path") {
        None => Err(Error::about("missing ", "path")),
        Some(path) => {
            let mut b = new_command("read");
            put(&mut b, "path", Json::text(path));
            copy_str(opts, &mut b, "format");
            copy_str(opts, &mut b, "view");
            copy_str(opts, &mut b, "sql");
            copy_options(opts, &mut b);
            copy_limit(opts, &mut b);
            Ok(Json::Object(b))
        },
    }
}

/// The body of `write`.
pub fn write_request(opts: &Json) -> (r: Result<Json, Error>)
    ensures
        outcome(r) == write_body(opts@),
{
    match opts.str_at("sql") {
        None => Err(Error::new("missing sql (query producing the data to write)")),
        Some(sql) => {
            if opts.str_at("path").is_none() && opts.str_at("table").is_none() {
                return Err(Error::new("write needs a `path` or a `table` target"));
            }
            let mut b = new_command("write");
            put(&mut b, "sql", Json::text(sql));
            copy_str(opts, &mut b, "path");
            copy_str(opts, &mut b, "table");
            copy_str(opts, &mut b, "format");
            copy_str(opts, &mut b, "mode");
            copy_options(opts, &mut b);
            Ok(Json::Object(b))
        },
    }
}

/// The body of `config`.
pub fn config_request(opts: &Json) -> (r: Result<Json, Error>)
    ensures
        outcome(r) == config_body(opts@),
{
    match opts.str_at("key") {
        None => Err(Error::about("missing ", "key")),
        Some(key) => {
            let mut b = new_command("config");
            put(&mut b, "key", Json::text(key));
            if let Some(v) = opts.get("value") {
                if !v.is_null() {
                    put(&mut b, "value", v.copy());
                }
            }
            Ok(Json::Object(b))
        },
    }
}

/// What is asked of the driver, or why nothing is.
pub fn request_body(op: Op, opts: &Json) -> (r: Result<Json, Error>)
    ensures
        outcome(r) == body_of(op, opts@),
{
    match op {
        Op::Ping => bare("ping"),
        Op::Query => query_request(opts),
        Op::Execute => one_field(opts, "execute", "sql"),
        Op::Dump => dump_request(opts),
        Op::Tables => bare("tables"),
        Op::Databases => bare("databases"),
        Op::Views => bare("views"),
        Op::Catalogs => bare("catalogs"),
        Op::CurrentDatabase => bare("current_database"),
        Op::CreateTempView => temp_view_request(opts),
        Op::DropTempView => one_field(opts, "drop_temp_view", "name"),
        Op::SetDatabase => one_field(opts, "set_database", "database"),
        Op::RefreshTable => one_field(opts, "refresh_table", "table"),
        Op::Schema => one_field(opts, "schema", "table"),
        Op::Explain => explain_request(opts),
        Op::Read => read_request(opts),
        Op::Write => write_request(opts),
        Op::Columns => one_field(opts, "columns", "table"),
        Op::Functions => bare("functions"),
        Op::Cache => one_field(opts, "cache", "table"),
        Op::Uncache => one_field(opts, "uncache", "table"),
        Op::Config => config_request(opts),
    }
}

// ---------------------------------------------------------------------------
// The request
// ---------------------------------------------------------------------------

/// The request: the members of the body, and the database of the connection options,
/// which takes the place of one in the body. A body that is no object has no members.
pub open spec fn request_of(database: Option<Seq<char>>, body: JsonView) -> JsonView {
    let members = match body {
        JsonView::Object(m) => m,
        _ => Map::<Seq<char>, JsonView>::empty(),
    };
    JsonView::Object(
        match database {
            Some(db) => members.insert("database"@, JsonView::Str(db)),
            None => members,
        },
    )
}

/// Puts a body and the database of the connection options together.
pub fn build_request(opts: &SparkOpts, body: Json) -> (r: Json)
    ensures
        r@ == request_of(opts@.database, body@),
{
    let mut members = match body {
        Json::Object(m) => m,
        _ => no_members(),
    };
    if let Some(db) = &opts.database {
        put(&mut members, "database", Json::text(db.as_str()));
    }
    Json::Object(members)
}

// ---------------------------------------------------------------------------
// Rows
// ---------------------------------------------------------------------------

/// The values of a list of results, or the words of the first that failed.
pub open spec fn collected(results: Seq<Result<JsonView, Seq<char>>>) -> Result<
    Seq<JsonView>,
    Seq<char>,
>
    decreases results.len(),
{
    if results.len() == 0 {
        Ok(Seq::<JsonView>::empty())
    } else {
        match collected(results.drop_last()) {
            Err(e) => Err(e),
            Ok(front) => match results.last() {
                Ok(v) => Ok(front.push(v)),
                Err(e) => Err(e),
            },
        }
    }
}

/// Results as the model has them.
pub open spec fn outcomes(results: Seq<Result<Json, Error>>) -> Seq<Result<JsonView, Seq<char>>> {
    Seq::new(results.len(), |i: int| outcome(results[i]))
}

/// The rows of a driver's output: one JSON value for each line that is not empty.
pub open spec fn rows_of(output: Seq<char>) -> Result<Seq<JsonView>, Seq<char>> {
    let lines = text_lines(output);
    collected(Seq::new(lines.len(), |i: int| decoded_text(lines[i])))
}

/// A failure among the first results is the failure of all.
proof fn lemma_collected_stops(results: Seq<Result<JsonView, Seq<char>>>, n: int)
    requires
        0 <= n <= results.len(),
        collected(results.take(n)) is Err,
    ensures
        collected(results) == collected(results.take(n)),
    decreases results.len(),
{
    if n == results.len() {
        assert(results.take(n) =~= results);
    } else {
        let front = results.drop_last();
        assert(front.take(n) =~= results.take(n));
        lemma_collected_stops(front, n);
    }
}

/// Collects results into a list, or gives the first error among them.
pub fn collect_rows(results: Vec<Result<Json, Error>>) -> (r: Result<Vec<Json>, Error>)
    ensures
        match r {
            Ok(v) => collected(outcomes(results@)) == Ok::<Seq<JsonView>, Seq<char>>(
                json_views(v@),
            ),
            Err(e) => collected(outcomes(results@)) == Err::<Seq<JsonView>, Seq<char>>(e@),
        },
{
    let ghost given = results@;
    let ghost all = outcomes(given);
    let mut out: Vec<Json> = Vec::new();
    proof {
        assert(all.take(0) =~= Seq::<Result<JsonView, Seq<char>>>::empty());
        assert(json_views(out@) =~= Seq::<JsonView>::empty());
    }
    for x in it: results
        invariant
            it.seq() == given,
            given == results@,
            all == outcomes(given),
            collected(all.take(it.index())) == Ok::<Seq<JsonView>, Seq<char>>(json_views(out@)),
    {
        let ghost k = it.index();
        proof {
            assert(x == given[k]);
            assert(all.take(k + 1).drop_last() =~= all.take(k));
            assert(all.take(k + 1).last() == outcome(x));
        }
        match x {
            Ok(v) => {
                proof {
                    lemma_json_views_push(out@, v);
                }
                out.push(v);
            },
            Err(e) => {
                proof {
                    lemma_collected_stops(all, k + 1);
                }
                return Err(e);
            },
        }
    }
    proof {
        assert(all.take(given.len() as int) =~= all);
    }
    Ok(out)
}

/// Reads a driver's output: one JSON value for each line that is not empty.
pub fn ndjson_to_rows(buf: &str) -> (r: Result<Vec<Json>, Error>)
    ensures
        match r {
            Ok(v) => rows_of(buf@) == Ok::<Seq<JsonView>, Seq<char>>(json_views(v@)),
            Err(e) => rows_of(buf@) == Err::<Seq<JsonView>, Seq<char>>(e@),
        },
{
    let lines = lines_of(buf);
    let ghost all = Seq::new(lines@.len(), |i: int| decoded_text(views(lines@)[i]));
    let mut results: Vec<Result<Json, Error>> = Vec::new();
    let mut i: usize = 0;
    while i < lines.len()
        invariant
            i <= lines@.len(),
            all == Seq::new(lines@.len(), |i: int| decoded_text(views(lines@)[i])),
            outcomes(results@) == all.take(i as int),
        decreases lines@.len() - i,
    {
        let x = parse_json(lines[i].as_str());
        proof {
            assert(outcomes(results@.push(x)) =~= outcomes(results@).push(outcome(x)));
            assert(all.take(i + 1) =~= all.take(i as int).push(outcome(x)));
        }
        results.push(x);
        i = i + 1;
    }
    proof {
        assert(all.take(i as int) =~= all);
    }
    collect_rows(results)
}

// ---------------------------------------------------------------------------
// Answers
// ---------------------------------------------------------------------------

/// The first row, or the given value where there is none.
pub open spec fn first_or(rows: Seq<JsonView>, other: JsonView) -> JsonView {
    if rows.len() > 0 {
        rows[0]
    } else {
        other
    }
}

/// `{"ok": true}`.
pub open spec fn just_ok() -> JsonView {
    JsonView::Object(map!["ok"@ => JsonView::Bool(true)])
}

/// What a caller is answered when the driver has given its rows.
pub open spec fn answer_of(op: Op, rows: Seq<JsonView>) -> JsonView {
    match op {
        Op::Ping => JsonView::Object(
            map!["ok"@ => JsonView::Bool(true), "rows"@ => JsonView::Array(rows)],
        ),
        Op::CurrentDatabase => JsonView::Object(
            map![
                "database"@ => match first_or(rows, JsonView::Null).get("database"@) {
                    Some(v) => v,
                    None => JsonView::Null,
                },
            ],
        ),
        Op::CreateTempView
        | Op::DropTempView
        | Op::SetDatabase
        | Op::RefreshTable
        | Op::Write
        | Op::Cache
        | Op::Uncache
        | Op::Config => first_or(rows, just_ok()),
        Op::Explain => first_or(
            rows,
            JsonView::Object(map!["plan"@ => JsonView::Str(""@)]),
        ),
        _ => JsonView::Object(map!["rows"@ => JsonView::Array(rows)]),
    }
}

/// The first row, or the given value where there is none.
fn take_first(rows: Vec<Json>, other: Json) -> (r: Json)
    ensures
        r@ == first_or(json_views(rows@), other@),
{
    let mut rows = rows;
    if rows.len() > 0 {
        proof {
            assert(json_views(rows@)[0] == rows@[0]@);
        }
        rows.remove(0)
    } else {
        other
    }
}

/// What a caller is answered when the driver has given its rows.
pub fn answer(op: Op, rows: Vec<Json>) -> (r: Json)
    ensures
        r@ == answer_of(op, json_views(rows@)),
{
    let mut m = no_members();
    match op {
        Op::Ping => {
            put(&mut m, "ok", Json::Bool(true));
            put(&mut m, "rows", Json::Array(rows));
            Json::Object(m)
        },
        Op::CurrentDatabase => {
            let first = take_first(rows, Json::Null);
            let database = match first.get("database") {
                Some(v) => v.copy(),
                None => Json::Null,
            };
            put(&mut m, "database", database);
            Json::Object(m)
        },
        Op::CreateTempView
        | Op::DropTempView
        | Op::SetDatabase
        | Op::RefreshTable
        | Op::Write
        | Op::Cache
        | Op::Uncache
        | Op::Config => {
            put(&mut m, "ok", Json::Bool(true));
            take_first(rows, Json::Object(m))
        },
        Op::Explain => {
            put(&mut m, "plan", Json::text(""));
            take_first(rows, Json::Object(m))
        },
        _ => {
            put(&mut m, "rows", Json::Array(rows));
            Json::Object(m)
        },
    }
}

/// What a caller is answered when the driver has given its output.
pub open spec fn answered(op: Op, output: Seq<char>) -> Result<JsonView, Seq<char>> {
    match rows_of(output) {
        Ok(rows) => Ok(answer_of(op, rows)),
        Err(e) => Err(e),
    }
}

/// What a caller is answered when the driver has given its output.
pub fn answer_output(op: Op, output: &str) -> (r: Result<Json, Error>)
    ensures
        outcome(r) == answered(op, output@),
{
    match ndjson_to_rows(output) {
        Ok(rows) => Ok(answer(op, rows)),
        Err(e) => Err(e),
    }
}

// ---------------------------------------------------------------------------
// Arguments of a submitted script
// ---------------------------------------------------------------------------

/// The text that a value is passed as: a string as it is, any other value as its
/// JSON text. A null is passed as nothing.
pub open spec fn arg_text(v: JsonView) -> Option<Seq<char>> {
    match v {
        JsonView::Null => None,
        JsonView::Str(s) => Some(s),
        JsonView::Bool(b) => Some(
            if b {
                "true"@
            } else {
                "false"@
            },
        ),
        JsonView::Int(i) => Some(int_text(i)),
        _ => Some(encoded_text(v)),
    }
}

/// Whether an argument reads back as the value that it was made of. A string is passed as
/// it is and not read; of a value with floating-point numbers, or nested too deep, nothing
/// is said.
pub open spec fn reads_as(arg: Seq<char>, v: JsonView) -> bool {
    !(v is Str) && exact_within(v, MAX_DEPTH as nat) ==> decoded_text(arg) == Ok::<
        JsonView,
        Seq<char>,
    >(v)
}

/// What is said of a null among the arguments.
pub open spec fn null_arg(i: int) -> Seq<char> {
    "args["@ + dec(i as nat) + "] is null — spark-submit args must be scalar"@
}

/// The arguments as texts, or what is said of the first null among them.
pub open spec fn coerced(items: Seq<JsonView>) -> Result<Seq<Seq<char>>, Seq<char>>
    decreases items.len(),
{
    if items.len() == 0 {
        Ok(Seq::<Seq<char>>::empty())
    } else {
        match coerced(items.drop_last()) {
            Err(e) => Err(e),
            Ok(front) => match arg_text(items.last()) {
                Some(s) => Ok(front.push(s)),
                None => Err(null_arg(items.len() - 1)),
            },
        }
    }
}

/// A null among the first items refuses all.
proof fn lemma_coerced_stops(items: Seq<JsonView>, n: int)
    requires
        0 <= n <= items.len(),
        coerced(items.take(n)) is Err,
    ensures
        coerced(items) == coerced(items.take(n)),
    decreases items.len(),
{
    if n == items.len() {
        assert(items.take(n) =~= items);
    } else {
        let front = items.drop_last();
        assert(front.take(n) =~= items.take(n));
        lemma_coerced_stops(front, n);
    }
}

/// Makes arguments for `spark-submit` of JSON values. Booleans and numbers are passed
/// as their text, arrays and objects as JSON, so that each reads back as the value it was;
/// a null is refused, since it means nothing on a command line.
pub fn coerce_submit_args(items: &Vec<Json>) -> (r: Result<Vec<String>, Error>)
    ensures
        match r {
            Ok(v) => {
                &&& coerced(json_views(items@)) == Ok::<Seq<Seq<char>>, Seq<char>>(views(v@))
                &&& forall|i: int|
                    0 <= i < v@.len() ==> reads_as((#[trigger] v@[i])@, json_views(items@)[i])
            },
            Err(e) => coerced(json_views(items@)) == Err::<Seq<Seq<char>>, Seq<char>>(e@),
        },
{
    let ghost all = json_views(items@);
    let mut out: Vec<String> = Vec::new();
    let mut i: usize = 0;
    proof {
        assert(all.take(0) =~= Seq::<JsonView>::empty());
        assert(views(out@) =~= Seq::<Seq<char>>::empty());
    }
    while i < items.len()
        invariant
            i <= items@.len(),
            all == json_views(items@),
            out@.len() == i,
            forall|k: int| 0 <= k < i ==> reads_as((#[trigger] out@[k])@, all[k]),
            coerced(all.take(i as int)) == Ok::<Seq<Seq<char>>, Seq<char>>(views(out@)),
        decreases items@.len() - i,
    {
        proof {
            assert(all.take(i + 1).drop_last() =~= all.take(i as int));
            assert(all.take(i + 1).last() == items@[i as int]@);
        }
        let s: String = match &items[i] {
            Json::Str(s) => s.clone(),
            Json::Null => {
                proof {
                    lemma_coerced_stops(all, i + 1);
                }
                return Err(
                    Error::around(
                        "args[",
                        dec_text(i as u64).as_str(),
                        "] is null — spark-submit args must be scalar",
                    ),
                );
            },
            _ => display_json(&items[i]),
        };
        proof {
            lemma_views_push(out@, s);
        }
        out.push(s);
        i = i + 1;
    }
    proof {
        assert(all.take(i as int) =~= all);
    }
    Ok(out)
}

// ---------------------------------------------------------------------------
// Laws
// ---------------------------------------------------------------------------

/// The database of the connection options stands in every request, in place of any
/// that the body holds, and every other member of the body is passed on as it is.
pub proof fn law_database_overrides(
    database: Option<Seq<char>>,
    members: Map<Seq<char>, JsonView>,
    key: Seq<char>,
)
    ensures
        request_of(database, JsonView::Object(members)).get(key) == (if key == "database"@
            && database is Some {
            Some(JsonView::Str(database->0))
        } else {
            JsonView::Object(members).get(key)
        }),
{
}

/// The driver's output gives one row for each line that is not empty, in order, and
/// otherwise the words on the first such line that is no JSON.
pub proof fn law_one_row_per_line(output: Seq<char>)
    ensures
        match rows_of(output) {
            Ok(rows) => {
                &&& rows.len() == text_lines(output).len()
                &&& forall|i: int|
                    0 <= i < rows.len() ==> decoded_text(text_lines(output)[i]) == Ok::<
                        JsonView,
                        Seq<char>,
                    >(#[trigger] rows[i])
            },
            Err(e) => exists|i: int|
                0 <= i < text_lines(output).len() && decoded_text(
                    #[trigger] text_lines(output)[i],
                ) == Err::<JsonView, Seq<char>>(e) && forall|j: int|
                    0 <= j < i ==> decoded_text(#[trigger] text_lines(output)[j]) is Ok,
        },
{
    let lines = text_lines(output);
    let results = Seq::new(lines.len(), |i: int| decoded_text(lines[i]));
    let at = lemma_collected(results);
    match rows_of(output) {
        Ok(rows) => {
            assert forall|i: int| 0 <= i < rows.len() implies decoded_text(lines[i]) == Ok::<
                JsonView,
                Seq<char>,
            >(#[trigger] rows[i]) by {
                assert(results[i] == decoded_text(lines[i]));
            }
        },
        Err(e) => {
            assert(results[at] == decoded_text(lines[at]));
            assert forall|j: int| 0 <= j < at implies decoded_text(#[trigger] lines[j]) is Ok by {
                assert(results[j] is Ok);
            }
        },
    }
}

/// What is collected are all the values, or the words of the first failure.
proof fn lemma_collected(results: Seq<Result<JsonView, Seq<char>>>) -> (at: int)
    ensures
        match collected(results) {
            Ok(v) => {
                &&& v.len() == results.len()
                &&& forall|i: int|
                    0 <= i < v.len() ==> results[i] == Ok::<JsonView, Seq<char>>(#[trigger] v[i])
            },
            Err(e) => {
                &&& 0 <= at < results.len()
                &&& results[at] == Err::<JsonView, Seq<char>>(e)
                &&& forall|j: int| 0 <= j < at ==> (#[trigger] results[j]) is Ok
            },
        },
    decreases results.len(),
{
    if results.len() == 0 {
        0
    } else {
        let front = results.drop_last();
        let at = lemma_collected(front);
        match collected(front) {
            Err(e) => {
                assert forall|j: int| 0 <= j < at implies (#[trigger] results[j]) is Ok by {
                    assert(front[j] is Ok);
                }
                at
            },
            Ok(v) => {
                assert forall|j: int| 0 <= j < front.len() implies (#[trigger] results[j]) is Ok by {
                    assert(front[j] == Ok::<JsonView, Seq<char>>(v[j]));
                }
                results.len() - 1
            },
        }
    }
}

/// No argument of a script is dropped: each value becomes one argument, in order, and
/// the list is refused exactly where it holds a null, with words on the first. An array
/// and an object become their JSON text.
pub proof fn law_no_argument_is_dropped(items: Seq<JsonView>)
    ensures
        match coerced(items) {
            Ok(v) => {
                &&& v.len() == items.len()
                &&& forall|i: int| 0 <= i < v.len() ==> arg_text(items[i]) == Some(#[trigger] v[i])
                &&& forall|i: int|
                    0 <= i < v.len() && (items[i] is Array || items[i] is Object)
                        ==> #[trigger] v[i] == encoded_text(items[i])
            },
            Err(e) => exists|i: int|
                0 <= i < items.len() && (#[trigger] items[i]) is Null && e == null_arg(i)
                    && forall|j: int| 0 <= j < i ==> !((#[trigger] items[j]) is Null),
        },
{
    let at = lemma_coerced(items);
    if coerced(items) is Err {
        assert(items[at] is Null);
    }
}

/// What arguments come to, with the place of the first null.
proof fn lemma_coerced(items: Seq<JsonView>) -> (at: int)
    ensures
        match coerced(items) {
            Ok(v) => {
                &&& v.len() == items.len()
                &&& forall|i: int| 0 <= i < v.len() ==> arg_text(items[i]) == Some(#[trigger] v[i])
            },
            Err(e) => {
                &&& 0 <= at < items.len()
                &&& items[at] is Null
                &&& e == null_arg(at)
                &&& forall|j: int| 0 <= j < at ==> !((#[trigger] items[j]) is Null)
            },
        },
    decreases items.len(),
{
    if items.len() == 0 {
        0
    } else {
        let front = items.drop_last();
        let at = lemma_coerced(front);
        match coerced(front) {
            Err(e) => {
                assert forall|j: int| 0 <= j < at implies !((#[trigger] items[j]) is Null) by {
                    assert(front[j] == items[j]);
                }
                at
            },
            Ok(v) => {
                assert forall|j: int| 0 <= j < front.len() implies !((
                #[trigger] items[j]) is Null) by {
                    assert(arg_text(front[j]) == Some(v[j]));
                }
                items.len() - 1
            },
        }
    }
}

/// What is written goes somewhere: a `write` that is not refused names a path or a
/// table.
pub proof fn law_write_has_a_target(opts: JsonView)
    requires
        body_of(Op::Write, opts) is Ok,
    ensures
        body_of(Op::Write, opts)->Ok_0.get("path"@) is Some || body_of(
            Op::Write,
            opts,
        )->Ok_0.get("table"@) is Some,
{
}

/// A `config` call sets a key exactly where it is given a value that is not null.
pub proof fn law_config_sets_given_value(opts: JsonView)
    requires
        body_of(Op::Config, opts) is Ok,
    ensures
        body_of(Op::Config, opts)->Ok_0.get("value"@) == (match opts.get("value"@) {
            Some(v) => if v is Null {
                None
            } else {
                Some(v)
            },
            None => None,
        }),
{
    reveal_strlit("cmd");
    reveal_strlit("key");
    reveal_strlit("value");
    assert("value"@.len() == 5);
}

/// Every request names a command, whatever the options hold.
pub proof fn law_request_names_a_command(op: Op, opts: JsonView, database: Option<Seq<char>>)
    requires
        body_of(op, opts) is Ok,
    ensures
        request_of(database, body_of(op, opts)->Ok_0).str_at("cmd"@) is Some,
{
    reveal_strlit("database");
    reveal_strlit("cmd");
    assert("database"@.len() == 8 && "cmd"@.len() == 3);
    assert(body_of(op, opts)->Ok_0.str_at("cmd"@) is Some) by {
        reveal_strlit("sql");
        reveal_strlit("table");
        reveal_strlit("columns");
        reveal_strlit("where");
        reveal_strlit("order_by");
        reveal_strlit("limit");
        reveal_strlit("name");
        reveal_strlit("mode");
        reveal_strlit("path");
        reveal_strlit("format");
        reveal_strlit("view");
        reveal_strlit("options");
        reveal_strlit("key");
        reveal_strlit("value");
        assert("sql"@[0] == 's' && "key"@[0] == 'k' && "cmd"@[0] == 'c');
    }
}

/// Whether the JSON values that a command passes on as they are hold no floating-point
/// number and are not nested too deep: the `options` of `read` and `write`, where they are
/// an object, and the `value` of `config`. The other commands pass none on.
pub open spec fn passes_exact(op: Op, opts: JsonView) -> bool {
    match op {
        Op::Read | Op::Write => opts.get("options"@) matches Some(v) ==> (v is Object
            ==> exact_within(v, (MAX_DEPTH - 1) as nat)),
        Op::Config => opts.get("value"@) matches Some(v) ==> exact_within(
            v,
            (MAX_DEPTH - 1) as nat,
        ),
        _ => true,
    }
}

/// The bodies that options may give keep an exact request exact.
proof fn lemma_exact_with(body: Map<Seq<char>, JsonView>, opts: JsonView, key: Seq<char>)
    requires
        exact_within(JsonView::Object(body), MAX_DEPTH as nat),
    ensures
        exact_within(JsonView::Object(with_str(body, opts, key)), MAX_DEPTH as nat),
        exact_within(JsonView::Object(with_limit(body, opts)), MAX_DEPTH as nat),
        (opts.get("options"@) matches Some(v) ==> (v is Object ==> exact_within(
            v,
            (MAX_DEPTH - 1) as nat,
        ))) ==> exact_within(JsonView::Object(with_options(body, opts)), MAX_DEPTH as nat),
{
    let d = MAX_DEPTH as nat;
    if let Some(s) = opts.str_at(key) {
        lemma_exact_insert(body, key, JsonView::Str(s), d);
    }
    if let Some(n) = opts.u64_at("limit"@) {
        lemma_exact_insert(body, "limit"@, JsonView::Int(n), d);
    }
    if let Some(JsonView::Object(m)) = opts.get("options"@) {
        if exact_within(JsonView::Object(m), (d - 1) as nat) {
            lemma_exact_insert(body, "options"@, JsonView::Object(m), d);
        }
    }
}

/// A command with one field is exact.
proof fn lemma_exact_command(cmd: Seq<char>, field: Seq<char>, s: Seq<char>)
    ensures
        exact_within(JsonView::Object(command(cmd)), MAX_DEPTH as nat),
        exact_within(
            JsonView::Object(command(cmd).insert(field, JsonView::Str(s))),
            MAX_DEPTH as nat,
        ),
{
    let d = MAX_DEPTH as nat;
    lemma_exact_object("cmd"@, JsonView::Str(cmd), d);
    lemma_exact_insert(command(cmd), field, JsonView::Str(s), d);
}

/// A body is exact where what it passes on is.
proof fn lemma_exact_body(op: Op, opts: JsonView)
    requires
        body_of(op, opts) is Ok,
        passes_exact(op, opts),
    ensures
        exact_within(body_of(op, opts)->Ok_0, MAX_DEPTH as nat),
{
    let d = MAX_DEPTH as nat;
    match op {
        Op::Ping => lemma_exact_command("ping"@, ""@, ""@),
        Op::Tables => lemma_exact_command("tables"@, ""@, ""@),
        Op::Databases => lemma_exact_command("databases"@, ""@, ""@),
        Op::Views => lemma_exact_command("views"@, ""@, ""@),
        Op::Catalogs => lemma_exact_command("catalogs"@, ""@, ""@),
        Op::CurrentDatabase => lemma_exact_command("current_database"@, ""@, ""@),
        Op::Functions => lemma_exact_command("functions"@, ""@, ""@),
        Op::Execute => lemma_exact_command("execute"@, "sql"@, opts.str_at("sql"@)->0),
        Op::DropTempView => lemma_exact_command(
            "drop_temp_view"@,
            "name"@,
            opts.str_at("name"@)->0,
        ),
        Op::SetDatabase => lemma_exact_command(
            "set_database"@,
            "database"@,
            opts.str_at("database"@)->0,
        ),
        Op::RefreshTable => lemma_exact_command(
            "refresh_table"@,
            "table"@,
            opts.str_at("table"@)->0,
        ),
        Op::Schema => lemma_exact_command("schema"@, "table"@, opts.str_at("table"@)->0),
        Op::Columns => lemma_exact_command("columns"@, "table"@, opts.str_at("table"@)->0),
        Op::Cache => lemma_exact_command("cache"@, "table"@, opts.str_at("table"@)->0),
        Op::Uncache => lemma_exact_command("uncache"@, "table"@, opts.str_at("table"@)->0),
        Op::Query => {
            let sql = opts.str_at("sql"@)->0;
            lemma_exact_command("query"@, "sql"@, sql);
            lemma_exact_with(command("query"@).insert("sql"@, JsonView::Str(sql)), opts, ""@);
        },
        Op::Dump => {
            let table = opts.str_at("table"@)->0;
            lemma_exact_command("dump"@, "table"@, table);
            let b = command("dump"@).insert("table"@, JsonView::Str(table));
            lemma_exact_with(b, opts, "columns"@);
            let b = with_str(b, opts, "columns"@);
            lemma_exact_with(b, opts, "where"@);
            let b = with_str(b, opts, "where"@);
            lemma_exact_with(b, opts, "order_by"@);
            lemma_exact_with(with_str(b, opts, "order_by"@), opts, ""@);
        },
        Op::CreateTempView => {
            let name = opts.str_at("name"@)->0;
            lemma_exact_command("create_temp_view"@, "name"@, name);
            let b = command("create_temp_view"@).insert("name"@, JsonView::Str(name));
            lemma_exact_with(b, opts, "sql"@);
        },
        Op::Explain => {
            let sql = opts.str_at("sql"@)->0;
            lemma_exact_command("explain"@, "sql"@, sql);
            let b = command("explain"@).insert("sql"@, JsonView::Str(sql));
            lemma_exact_with(b, opts, "mode"@);
        },
        Op::Read => {
            let path = opts.str_at("path"@)->0;
            lemma_exact_command("read"@, "path"@, path);
            let b = command("read"@).insert("path"@, JsonView::Str(path));
            lemma_exact_with(b, opts, "format"@);
            let b = with_str(b, opts, "format"@);
            lemma_exact_with(b, opts, "view"@);
            let b = with_str(b, opts, "view"@);
            lemma_exact_with(b, opts, "sql"@);
            let b = with_str(b, opts, "sql"@);
            lemma_exact_with(b, opts, ""@);
            lemma_exact_with(with_options(b, opts), opts, ""@);
        },
        Op::Write => {
            let sql = opts.str_at("sql"@)->0;
            lemma_exact_command("write"@, "sql"@, sql);
            let b = command("write"@).insert("sql"@, JsonView::Str(sql));
            lemma_exact_with(b, opts, "path"@);
            let b = with_str(b, opts, "path"@);
            lemma_exact_with(b, opts, "table"@);
            let b = with_str(b, opts, "table"@);
            lemma_exact_with(b, opts, "format"@);
            let b = with_str(b, opts, "format"@);
            lemma_exact_with(b, opts, "mode"@);
            lemma_exact_with(with_str(b, opts, "mode"@), opts, ""@);
        },
        Op::Config => {
            let key = opts.str_at("key"@)->0;
            lemma_exact_command("config"@, "key"@, key);
            let b = command("config"@).insert("key"@, JsonView::Str(key));
            if let Some(v) = opts.get("value"@) {
                lemma_exact_insert(b, "value"@, v, d);
            }
        },
    }
}

/// The driver reads the request that was meant: a request holds nothing that would not
/// read back from its text, unless a value that the command passes on does.
pub proof fn law_request_reads_back(op: Op, opts: JsonView, database: Option<Seq<char>>)
    requires
        body_of(op, opts) is Ok,
        passes_exact(op, opts),
    ensures
        exact_within(request_of(database, body_of(op, opts)->Ok_0), MAX_DEPTH as nat),
{
    lemma_exact_body(op, opts);
    let body = body_of(op, opts)->Ok_0;
    if let Some(db) = database {
        lemma_exact_insert(body->Object_0, "database"@, JsonView::Str(db), MAX_DEPTH as nat);
    }
}

/// The keys of requests are told apart by their length or their first letter.
proof fn lemma_keys()
    ensures
        "cmd"@.len() == 3 && "cmd"@[0] == 'c',
        "sql"@.len() == 3 && "sql"@[0] == 's',
        "key"@.len() == 3 && "key"@[0] == 'k',
        "path"@.len() == 4 && "path"@[0] == 'p',
        "name"@.len() == 4 && "name"@[0] == 'n',
        "mode"@.len() == 4 && "mode"@[0] == 'm',
        "view"@.len() == 4 && "view"@[0] == 'v',
        "table"@.len() == 5 && "table"@[0] == 't',
        "where"@.len() == 5 && "where"@[0] == 'w',
        "limit"@.len() == 5 && "limit"@[0] == 'l',
        "value"@.len() == 5 && "value"@[0] == 'v',
        "format"@.len() == 6 && "format"@[0] == 'f',
        "columns"@.len() == 7 && "columns"@[0] == 'c',
        "options"@.len() == 7 && "options"@[0] == 'o',
        "order_by"@.len() == 8 && "order_by"@[0] == 'o',
        "database"@.len() == 8 && "database"@[0] == 'd',
{
    reveal_strlit("cmd");
    reveal_strlit("sql");
    reveal_strlit("key");
    reveal_strlit("path");
    reveal_strlit("name");
    reveal_strlit("mode");
    reveal_strlit("view");
    reveal_strlit("table");
    reveal_strlit("where");
    reveal_strlit("limit");
    reveal_strlit("value");
    reveal_strlit("format");
    reveal_strlit("columns");
    reveal_strlit("options");
    reveal_strlit("order_by");
    reveal_strlit("database");
}

/// The string that options hold under a key; nothing where they hold none.
pub open spec fn string_member(opts: JsonView, key: Seq<char>) -> Option<JsonView> {
    match opts.get(key) {
        Some(JsonView::Str(s)) => Some(JsonView::Str(s)),
        _ => None,
    }
}

/// The integer of 64 bits without a sign that options hold under a key; nothing where
/// they hold none.
pub open spec fn count_member(opts: JsonView, key: Seq<char>) -> Option<JsonView> {
    match opts.get(key) {
        Some(JsonView::Int(n)) => if 0 <= n <= u64::MAX {
            Some(JsonView::Int(n))
        } else {
            None
        },
        _ => None,
    }
}

/// The object that options hold under a key; nothing where they hold none.
pub open spec fn object_member(opts: JsonView, key: Seq<char>) -> Option<JsonView> {
    match opts.get(key) {
        Some(JsonView::Object(m)) => Some(JsonView::Object(m)),
        _ => None,
    }
}

/// A query passes on its SQL and its limit, each where the options hold it, and nothing
/// else; without SQL it is refused.
pub proof fn law_query_request(opts: JsonView, key: Seq<char>)
    ensures
        body_of(Op::Query, opts) is Err <==> string_member(opts, "sql"@) is None,
        body_of(Op::Query, opts) matches Ok(body) ==> body.get(key) == (if key == "cmd"@ {
            Some(JsonView::Str("query"@))
        } else if key == "sql"@ {
            string_member(opts, key)
        } else if key == "limit"@ {
            count_member(opts, key)
        } else {
            None
        }),
{
    lemma_keys();
}

/// A dump passes on its table, its columns, its conditions, its order and its limit, each
/// where the options hold it, and nothing else; without a table it is refused.
pub proof fn law_dump_request(opts: JsonView, key: Seq<char>)
    ensures
        body_of(Op::Dump, opts) is Err <==> string_member(opts, "table"@) is None,
        body_of(Op::Dump, opts) matches Ok(body) ==> body.get(key) == (if key == "cmd"@ {
            Some(JsonView::Str("dump"@))
        } else if key == "table"@ || key == "columns"@ || key == "where"@ || key == "order_by"@ {
            string_member(opts, key)
        } else if key == "limit"@ {
            count_member(opts, key)
        } else {
            None
        }),
{
    lemma_keys();
}

/// A temporary view passes on its name and its SQL, each where the options hold it, and
/// nothing else; without a name it is refused.
pub proof fn law_temp_view_request(opts: JsonView, key: Seq<char>)
    ensures
        body_of(Op::CreateTempView, opts) is Err <==> string_member(opts, "name"@) is None,
        body_of(Op::CreateTempView, opts) matches Ok(body) ==> body.get(key) == (if key == "cmd"@ {
            Some(JsonView::Str("create_temp_view"@))
        } else if key == "name"@ || key == "sql"@ {
            string_member(opts, key)
        } else {
            None
        }),
{
    lemma_keys();
}

/// An explanation passes on its SQL and its mode, each where the options hold it, and
/// nothing else; without SQL it is refused.
pub proof fn law_explain_request(opts: JsonView, key: Seq<char>)
    ensures
        body_of(Op::Explain, opts) is Err <==> string_member(opts, "sql"@) is None,
        body_of(Op::Explain, opts) matches Ok(body) ==> body.get(key) == (if key == "cmd"@ {
            Some(JsonView::Str("explain"@))
        } else if key == "sql"@ || key == "mode"@ {
            string_member(opts, key)
        } else {
            None
        }),
{
    lemma_keys();
}

/// A read passes on its path, its format, its view, its SQL, its options and its limit,
/// each where the options hold it, and nothing else; without a path it is refused.
pub proof fn law_read_request(opts: JsonView, key: Seq<char>)
    ensures
        body_of(Op::Read, opts) is Err <==> string_member(opts, "path"@) is None,
        body_of(Op::Read, opts) matches Ok(body) ==> body.get(key) == (if key == "cmd"@ {
            Some(JsonView::Str("read"@))
        } else if key == "path"@ || key == "format"@ || key == "view"@ || key == "sql"@ {
            string_member(opts, key)
        } else if key == "limit"@ {
            count_member(opts, key)
        } else if key == "options"@ {
            object_member(opts, key)
        } else {
            None
        }),
{
    lemma_keys();
}

/// A write passes on its SQL, its path, its table, its format, its mode and its options,
/// each where the options hold it, and nothing else; it is refused without SQL, and without
/// both a path and a table.
pub proof fn law_write_request(opts: JsonView, key: Seq<char>)
    ensures
        body_of(Op::Write, opts) is Err <==> (string_member(opts, "sql"@) is None) || (string_member(opts, "path"@) is None && string_member(opts, "table"@) is None),
        body_of(Op::Write, opts) matches Ok(body) ==> body.get(key) == (if key == "cmd"@ {
            Some(JsonView::Str("write"@))
        } else if key == "sql"@ || key == "path"@ || key == "table"@ || key == "format"@ || key == "mode"@ {
            string_member(opts, key)
        } else if key == "options"@ {
            object_member(opts, key)
        } else {
            None
        }),
{
    lemma_keys();
}

/// A configuration call passes on its key and the value that it is given, unless that is
/// null, and nothing else; without a key it is refused.
pub proof fn law_config_request(opts: JsonView, key: Seq<char>)
    ensures
        body_of(Op::Config, opts) is Err <==> string_member(opts, "key"@) is None,
        body_of(Op::Config, opts) matches Ok(body) ==> body.get(key) == (if key == "cmd"@ {
            Some(JsonView::Str("config"@))
        } else if key == "key"@ {
            string_member(opts, key)
        } else if key == "value"@ && opts.get("value"@) != Some(JsonView::Null) {
            opts.get("value"@)
        } else {
            None
        }),
{
    lemma_keys();
}

/// A command that has one field passes on that field and nothing else, and is refused
/// without it.
pub proof fn law_one_field_request(op: Op, opts: JsonView, key: Seq<char>)
    ensures
        op is Execute ==> (body_of(op, opts) is Err <==> string_member(opts, "sql"@) is None),
        op is Execute && body_of(op, opts) is Ok ==> body_of(op, opts)->Ok_0.get(key) == (if key
            == "cmd"@ {
            Some(JsonView::Str("execute"@))
        } else if key == "sql"@ {
            string_member(opts, key)
        } else {
            None
        }),
        op is DropTempView ==> (body_of(op, opts) is Err <==> string_member(opts, "name"@) is None),
        op is DropTempView && body_of(op, opts) is Ok ==> body_of(op, opts)->Ok_0.get(key) == (if key
            == "cmd"@ {
            Some(JsonView::Str("drop_temp_view"@))
        } else if key == "name"@ {
            string_member(opts, key)
        } else {
            None
        }),
        op is SetDatabase ==> (body_of(op, opts) is Err <==> string_member(opts, "database"@) is None),
        op is SetDatabase && body_of(op, opts) is Ok ==> body_of(op, opts)->Ok_0.get(key) == (if key
            == "cmd"@ {
            Some(JsonView::Str("set_database"@))
        } else if key == "database"@ {
            string_member(opts, key)
        } else {
            None
        }),
        op is RefreshTable ==> (body_of(op, opts) is Err <==> string_member(opts, "table"@) is None),
        op is RefreshTable && body_of(op, opts) is Ok ==> body_of(op, opts)->Ok_0.get(key) == (if key
            == "cmd"@ {
            Some(JsonView::Str("refresh_table"@))
        } else if key == "table"@ {
            string_member(opts, key)
        } else {
            None
        }),
        op is Schema ==> (body_of(op, opts) is Err <==> string_member(opts, "table"@) is None),
        op is Schema && body_of(op, opts) is Ok ==> body_of(op, opts)->Ok_0.get(key) == (if key
            == "cmd"@ {
            Some(JsonView::Str("schema"@))
        } else if key == "table"@ {
            string_member(opts, key)
        } else {
            None
        }),
        op is Columns ==> (body_of(op, opts) is Err <==> string_member(opts, "table"@) is None),
        op is Columns && body_of(op, opts) is Ok ==> body_of(op, opts)->Ok_0.get(key) == (if key
            == "cmd"@ {
            Some(JsonView::Str("columns"@))
        } else if key == "table"@ {
            string_member(opts, key)
        } else {
            None
        }),
        op is Cache ==> (body_of(op, opts) is Err <==> string_member(opts, "table"@) is None),
        op is Cache && body_of(op, opts) is Ok ==> body_of(op, opts)->Ok_0.get(key) == (if key
            == "cmd"@ {
            Some(JsonView::Str("cache"@))
        } else if key == "table"@ {
            string_member(opts, key)
        } else {
            None
        }),
        op is Uncache ==> (body_of(op, opts) is Err <==> string_member(opts, "table"@) is None),
        op is Uncache && body_of(op, opts) is Ok ==> body_of(op, opts)->Ok_0.get(key) == (if key
            == "cmd"@ {
            Some(JsonView::Str("uncache"@))
        } else if key == "table"@ {
            string_member(opts, key)
        } else {
            None
        }),
{
    lemma_keys();
}

/// A command that has no field asks for itself and passes nothing on, and is never
/// refused.
pub proof fn law_bare_request(op: Op, opts: JsonView, key: Seq<char>)
    requires
        op is Ping || op is Tables || op is Databases || op is Views || op is Catalogs
            || op is CurrentDatabase || op is Functions,
    ensures
        body_of(op, opts) is Ok,
        key != "cmd"@ ==> body_of(op, opts)->Ok_0.get(key) is None,
        op is Ping ==> body_of(op, opts)->Ok_0.str_at("cmd"@) == Some("ping"@),
        op is Tables ==> body_of(op, opts)->Ok_0.str_at("cmd"@) == Some("tables"@),
        op is Databases ==> body_of(op, opts)->Ok_0.str_at("cmd"@) == Some("databases"@),
        op is Views ==> body_of(op, opts)->Ok_0.str_at("cmd"@) == Some("views"@),
        op is Catalogs ==> body_of(op, opts)->Ok_0.str_at("cmd"@) == Some("catalogs"@),
        op is CurrentDatabase ==> body_of(op, opts)->Ok_0.str_at("cmd"@) == Some(
            "current_database"@,
        ),
        op is Functions ==> body_of(op, opts)->Ok_0.str_at("cmd"@) == Some("functions"@),
{
}

/// The request is the body with the database of the connection options, and where the
/// body is no object it is the database alone.
pub proof fn law_request_members(database: Option<Seq<char>>, body: JsonView, key: Seq<char>)
    ensures
        request_of(database, body) is Object,
        key == "database"@ ==> (database matches Some(db) ==> request_of(database, body).get(key)
            == Some(JsonView::Str(db))),
        key != "database"@ || database is None ==> request_of(database, body).get(key) == body.get(
            key,
        ),
{
}

/// Values that were printed one to a line are the rows: all of them, in order, however
/// often one of them occurs.
pub proof fn law_printed_rows(lines: Seq<Seq<char>>, values: Seq<JsonView>)
    requires
        lines.len() == values.len(),
        forall|i: int|
            0 <= i < lines.len() ==> (#[trigger] lines[i]).len() > 0 && !lines[i].contains('\n')
                && !lines[i].contains('\r'),
        forall|i: int|
            0 <= i < lines.len() ==> decoded_text(#[trigger] lines[i]) == Ok::<
                JsonView,
                Seq<char>,
            >(values[i]),
    ensures
        rows_of(printed(lines)) == Ok::<Seq<JsonView>, Seq<char>>(values),
{
    law_printed_lines(lines);
    law_one_row_per_line(printed(lines));
    match rows_of(printed(lines)) {
        Ok(rows) => {
            assert forall|i: int| 0 <= i < rows.len() implies rows[i] == values[i] by {
                assert(decoded_text(lines[i]) == Ok::<JsonView, Seq<char>>(rows[i]));
            }
            assert(rows =~= values);
        },
        Err(e) => {
            let i = choose|i: int|
                0 <= i < lines.len() && decoded_text(#[trigger] lines[i]) == Err::<
                    JsonView,
                    Seq<char>,
                >(e);
            assert(decoded_text(lines[i]) == Ok::<JsonView, Seq<char>>(values[i]));
        },
    }
}

/// What a caller is answered: all the rows and nothing else where the command lists
/// something, the same with `ok` for a ping, the first row where it tells of one thing,
/// and what stands in for it where the driver said nothing.
pub proof fn law_answers(op: Op, rows: Seq<JsonView>, key: Seq<char>)
    ensures
        op is Query || op is Execute || op is Dump || op is Tables || op is Databases
            || op is Views || op is Catalogs || op is Schema || op is Read || op is Columns
            || op is Functions ==> {
            &&& answer_of(op, rows) is Object
            &&& answer_of(op, rows).get("rows"@) == Some(JsonView::Array(rows))
            &&& answer_of(op, rows).get(key) is Some ==> key == "rows"@
        },
        op is Ping ==> {
            &&& answer_of(op, rows).get("rows"@) == Some(JsonView::Array(rows))
            &&& answer_of(op, rows).get("ok"@) == Some(JsonView::Bool(true))
            &&& answer_of(op, rows).get(key) is Some ==> key == "rows"@ || key == "ok"@
        },
        op is CurrentDatabase ==> {
            &&& rows.len() > 0 && rows[0].get("database"@) is Some ==> answer_of(op, rows).get(
                "database"@,
            ) == rows[0].get("database"@)
            &&& rows.len() == 0 || rows[0].get("database"@) is None ==> answer_of(op, rows).get(
                "database"@,
            ) == Some(JsonView::Null)
            &&& answer_of(op, rows).get(key) is Some ==> key == "database"@
        },
        op is CreateTempView || op is DropTempView || op is SetDatabase || op is RefreshTable
            || op is Write || op is Cache || op is Uncache || op is Config ==> {
            &&& rows.len() > 0 ==> answer_of(op, rows) == rows[0]
            &&& rows.len() == 0 ==> answer_of(op, rows).get("ok"@) == Some(JsonView::Bool(true))
            &&& rows.len() == 0 && answer_of(op, rows).get(key) is Some ==> key == "ok"@
        },
        op is Explain ==> {
            &&& rows.len() > 0 ==> answer_of(op, rows) == rows[0]
            &&& rows.len() == 0 ==> answer_of(op, rows).get("plan"@) == Some(JsonView::Str(""@))
            &&& rows.len() == 0 && answer_of(op, rows).get(key) is Some ==> key == "plan"@
        },
{
    reveal_strlit("ok");
    reveal_strlit("rows");
    assert("ok"@.len() == 2 && "rows"@.len() == 4);
}

/// The driver's output is answered where every line of it is JSON, and refused otherwise.
pub proof fn law_output_is_answered(op: Op, output: Seq<char>)
    ensures
        (forall|i: int|
            0 <= i < text_lines(output).len() ==> decoded_text(
                #[trigger] text_lines(output)[i],
            ) is Ok) <==> answered(op, output) is Ok,
        rows_of(output) matches Ok(rows) ==> answered(op, output) == Ok::<JsonView, Seq<char>>(
            answer_of(op, rows),
        ),
        rows_of(output) matches Err(e) ==> answered(op, output) == Err::<JsonView, Seq<char>>(e),
{
    law_one_row_per_line(output);
    if let Ok(rows) = rows_of(output) {
        assert forall|i: int| 0 <= i < text_lines(output).len() implies decoded_text(
            #[trigger] text_lines(output)[i],
        ) is Ok by {
            assert(decoded_text(text_lines(output)[i]) == Ok::<JsonView, Seq<char>>(rows[i]));
        }
    }
}

/// What a value is passed to a script as: a string as it is, a boolean as its word, an
/// integer as its decimal digits behind a sign where it is negative, an array, an object
/// and a floating-point number as JSON, and a null as nothing.
pub proof fn law_argument_text(v: JsonView)
    ensures
        v matches JsonView::Str(s) ==> arg_text(v) == Some(s),
        v == JsonView::Bool(true) ==> arg_text(v) == Some("true"@),
        v == JsonView::Bool(false) ==> arg_text(v) == Some("false"@),
        v matches JsonView::Int(i) ==> arg_text(v) == Some(
            if i < 0 {
                seq!['-'] + dec((-i) as nat)
            } else {
                dec(i as nat)
            },
        ),
        v is Array || v is Object || v is Float ==> arg_text(v) == Some(encoded_text(v)),
        arg_text(v) is None <==> v is Null,
{
}

/// The functions on requests and rows give what they come to.
pub proof fn law_operations(
    op: Op,
    opts: Json,
    body: Result<Json, Error>,
    output: &str,
    rows: Result<Vec<Json>, Error>,
    items: Vec<Json>,
    given: Json,
    args: Result<Vec<String>, Error>,
)
    ensures
        call_ensures(request_body, (op, &opts), body) ==> outcome(body) == body_of(op, opts@),
        call_ensures(ndjson_to_rows, (output,), rows) ==> match rows {
            Ok(v) => rows_of(output@) == Ok::<Seq<JsonView>, Seq<char>>(json_views(v@)),
            Err(e) => rows_of(output@) == Err::<Seq<JsonView>, Seq<char>>(e@),
        },
        call_ensures(answer, (op, items), given) ==> given@ == answer_of(op, json_views(items@)),
        call_ensures(coerce_submit_args, (&items,), args) ==> match args {
            Ok(v) => coerced(json_views(items@)) == Ok::<Seq<Seq<char>>, Seq<char>>(views(v@)),
            Err(e) => coerced(json_views(items@)) == Err::<Seq<Seq<char>>, Seq<char>>(e@),
        },
{
}

/// A command that lacks a field is refused in words that name the field.
pub proof fn law_refusals(op: Op, opts: JsonView)
    ensures
        body_of(op, opts) matches Err(e) ==> match op {
            Op::Query | Op::Execute | Op::Explain => e == "missing "@ + "sql"@,
            Op::Dump
            | Op::RefreshTable
            | Op::Schema
            | Op::Columns
            | Op::Cache
            | Op::Uncache => e == "missing "@ + "table"@,
            Op::CreateTempView | Op::DropTempView => e == "missing "@ + "name"@,
            Op::SetDatabase => e == "missing "@ + "database"@,
            Op::Read => e == "missing "@ + "path"@,
            Op::Config => e == "missing "@ + "key"@,
            Op::Write => if string_member(opts, "sql"@) is None {
                e == "missing sql (query producing the data to write)"@
            } else {
                e == "write needs a `path` or a `table` target"@
            },
            _ => false,
        },
{
}

/// A null among the arguments of a script is told with its place in the list.
pub proof fn law_null_argument_words(i: int)
    ensures
        null_arg(i) == "args["@ + dec(i as nat) + "] is null — spark-submit args must be scalar"@,
{
}

} // verus!
