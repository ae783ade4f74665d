//! The calls of the package, each from the bytes of its argument.

use vstd::prelude::*;
use vstd::string::*;

use crate::call::{
    begin, begin_submit, bytes_view, decode_args, decoded_args, driver_call,
    law_driver_call_carries, replies, reply, submit_call, told, CallStep,
};
use crate::ident::{name_parts, written};
use crate::json::{no_members, put, strs, Json, JsonView};
use crate::master::{
    built_master, host_json, master_json, master_of, op_build_master_url, op_parse_master_url,
    parsed_master, threads_json, url_of, MasterView,
};
use crate::memory::{
    built_memory, named_size, op_build_memory, op_parse_memory, size_json, Size,
};
use crate::names::{
    built_table, op_build_table_name, op_parse_table_name, op_quote_ident, op_quote_qualified_ident,
    op_unquote_ident, parsed_table, part_from_end, quoted_ident, quoted_qualified, unquoted_ident,
};
use crate::opts::{options_of, Env};
use crate::requests::{
    body_of, law_bare_request, law_config_request, law_dump_request, law_explain_request,
    law_one_field_request, law_query_request, law_read_request, law_temp_view_request,
    law_write_request, request_of, Op,
};
use crate::text::join;
use crate::wire::{
    decoded_text, encoded_text, exact_within, lemma_exact_insert, lemma_exact_object, MAX_DEPTH,
};

verus! {

/// Names the version of the package, whatever the argument holds.
pub fn spark__pkg_version(args: Option<&[u8]>, version: &str) -> (r: String)
    ensures
        replies(r@, Ok(JsonView::Object(map!["version"@ => JsonView::Str(version@)]))),
        decoded_text(r@) == Ok::<JsonView, Seq<char>>(
            JsonView::Object(map!["version"@ => JsonView::Str(version@)]),
        ),
{
    proof {
        lemma_exact_object("version"@, JsonView::Str(version@), MAX_DEPTH as nat);
    }
    let _ = args;
    let mut m = no_members();
    put(&mut m, "version", Json::text(version));
    reply(Ok(Json::Object(m)))
}

// ---------------------------------------------------------------------------
// Calls that need no Spark
// ---------------------------------------------------------------------------

/// Parses a Spark master URL.
pub fn spark__parse_master_url(args: Option<&[u8]>) -> (r: String)
    ensures
        replies(r@, parsed_master(decoded_args(bytes_view(args)))),
        decoded_text(r@) == Ok::<JsonView, Seq<char>>(
            told(parsed_master(decoded_args(bytes_view(args)))),
        ),
{
    proof {
        law_replies_read_back(decoded_args(bytes_view(args)));
    }
    reply(op_parse_master_url(decode_args(args)))
}

/// Builds a Spark master URL.
pub fn spark__build_master_url(args: Option<&[u8]>) -> (r: String)
    ensures
        replies(r@, built_master(decoded_args(bytes_view(args)))),
        decoded_text(r@) == Ok::<JsonView, Seq<char>>(
            told(built_master(decoded_args(bytes_view(args)))),
        ),
{
    proof {
        law_replies_read_back(decoded_args(bytes_view(args)));
    }
    reply(op_build_master_url(decode_args(args)))
}

/// Parses a table name.
pub fn spark__parse_table_name(args: Option<&[u8]>) -> (r: String)
    ensures
        replies(r@, parsed_table(decoded_args(bytes_view(args)))),
        decoded_text(r@) == Ok::<JsonView, Seq<char>>(
            told(parsed_table(decoded_args(bytes_view(args)))),
        ),
{
    proof {
        law_replies_read_back(decoded_args(bytes_view(args)));
    }
    reply(op_parse_table_name(decode_args(args)))
}

/// Builds a table name.
pub fn spark__build_table_name(args: Option<&[u8]>) -> (r: String)
    ensures
        replies(r@, built_table(decoded_args(bytes_view(args)))),
        decoded_text(r@) == Ok::<JsonView, Seq<char>>(
            told(built_table(decoded_args(bytes_view(args)))),
        ),
{
    proof {
        law_replies_read_back(decoded_args(bytes_view(args)));
    }
    reply(op_build_table_name(decode_args(args)))
}

/// Writes a byte count as a Spark size.
pub fn spark__build_memory(args: Option<&[u8]>) -> (r: String)
    ensures
        replies(r@, built_memory(decoded_args(bytes_view(args)))),
        decoded_text(r@) == Ok::<JsonView, Seq<char>>(
            told(built_memory(decoded_args(bytes_view(args)))),
        ),
{
    proof {
        law_replies_read_back(decoded_args(bytes_view(args)));
    }
    reply(op_build_memory(decode_args(args)))
}

/// Quotes an identifier.
pub fn spark__quote_ident(args: Option<&[u8]>) -> (r: String)
    ensures
        replies(r@, quoted_ident(decoded_args(bytes_view(args)))),
        decoded_text(r@) == Ok::<JsonView, Seq<char>>(
            told(quoted_ident(decoded_args(bytes_view(args)))),
        ),
{
    proof {
        law_replies_read_back(decoded_args(bytes_view(args)));
    }
    reply(op_quote_ident(decode_args(args)))
}

/// Decodes a quoted identifier.
pub fn spark__unquote_ident(args: Option<&[u8]>) -> (r: String)
    ensures
        replies(r@, unquoted_ident(decoded_args(bytes_view(args)))),
        decoded_text(r@) == Ok::<JsonView, Seq<char>>(
            told(unquoted_ident(decoded_args(bytes_view(args)))),
        ),
{
    proof {
        law_replies_read_back(decoded_args(bytes_view(args)));
    }
    reply(op_unquote_ident(decode_args(args)))
}

/// Quotes every part of a table name.
pub fn spark__quote_qualified_ident(args: Option<&[u8]>) -> (r: String)
    ensures
        replies(r@, quoted_qualified(decoded_args(bytes_view(args)))),
        decoded_text(r@) == Ok::<JsonView, Seq<char>>(
            told(quoted_qualified(decoded_args(bytes_view(args)))),
        ),
{
    proof {
        law_replies_read_back(decoded_args(bytes_view(args)));
    }
    reply(op_quote_qualified_ident(decode_args(args)))
}

/// A refusal holds nothing that would not read back.
proof fn lemma_exact_error(e: Seq<char>)
    ensures
        exact_within(told(Err(e)), MAX_DEPTH as nat),
{
    lemma_exact_object("error"@, JsonView::Str(e), MAX_DEPTH as nat);
}

/// The parts of a master URL hold nothing that would not read back.
proof fn lemma_exact_master(m: MasterView)
    ensures
        exact_within(master_json(m), MAX_DEPTH as nat),
{
    let d = MAX_DEPTH as nat;
    match m {
        MasterView::Local(t) => {
            let s = map!["scheme"@ => JsonView::Str("local"@)];
            lemma_exact_object("scheme"@, JsonView::Str("local"@), d);
            lemma_exact_insert(s, "threads"@, threads_json(t), d);
        },
        MasterView::Yarn => {
            lemma_exact_object("scheme"@, JsonView::Str("yarn"@), d);
        },
        MasterView::Spark(hosts) => {
            let list = Seq::new(hosts.len(), |i: int| host_json(hosts[i]));
            assert forall|i: int| 0 <= i < list.len() implies exact_within(
                #[trigger] list[i],
                (d - 2) as nat,
            ) by {
                let h = hosts[i];
                let port = match h.port {
                    Some(p) => JsonView::Int(p as int),
                    None => JsonView::Null,
                };
                lemma_exact_object("host"@, JsonView::Str(h.host), (d - 2) as nat);
                lemma_exact_insert(
                    map!["host"@ => JsonView::Str(h.host)],
                    "port"@,
                    port,
                    (d - 2) as nat,
                );
            }
            assert(exact_within(JsonView::Array(list), (d - 1) as nat));
            let s = map!["scheme"@ => JsonView::Str("spark"@)];
            lemma_exact_object("scheme"@, JsonView::Str("spark"@), d);
            lemma_exact_insert(s, "hosts"@, JsonView::Array(list), d);
        },
        MasterView::Other { scheme, master } => {
            let s = map!["scheme"@ => JsonView::Str(scheme)];
            lemma_exact_object("scheme"@, JsonView::Str(scheme), d);
            lemma_exact_insert(s, "master"@, JsonView::Str(master), d);
        },
    }
}

/// A list of strings holds nothing that would not read back.
proof fn lemma_exact_strs(parts: Seq<Seq<char>>, depth: nat)
    requires
        depth > 0,
    ensures
        exact_within(strs(parts), depth),
{
    let list = Seq::new(parts.len(), |i: int| JsonView::Str(parts[i]));
    assert forall|i: int| 0 <= i < list.len() implies exact_within(
        #[trigger] list[i],
        (depth - 1) as nat,
    ) by {}
}

/// What the names of a table come to holds nothing that would not read back.
proof fn lemma_exact_names(opts: JsonView)
    ensures
        exact_within(told(parsed_table(opts)), MAX_DEPTH as nat),
        exact_within(told(built_table(opts)), MAX_DEPTH as nat),
        exact_within(told(quoted_ident(opts)), MAX_DEPTH as nat),
        exact_within(told(unquoted_ident(opts)), MAX_DEPTH as nat),
        exact_within(told(quoted_qualified(opts)), MAX_DEPTH as nat),
{
    let d = MAX_DEPTH as nat;
    match parsed_table(opts) {
        Err(e) => lemma_exact_error(e),
        Ok(_) => {
            let parts = name_parts(opts.str_at_either("name"@, "table"@)->0, false);
            lemma_exact_strs(parts, (d - 1) as nat);
            let c = part_from_end(parts, 2);
            let b = part_from_end(parts, 1);
            let t = part_from_end(parts, 0);
            lemma_exact_object("catalog"@, c, d);
            lemma_exact_insert(map!["catalog"@ => c], "database"@, b, d);
            lemma_exact_insert(map!["catalog"@ => c, "database"@ => b], "table"@, t, d);
            lemma_exact_insert(
                map!["catalog"@ => c, "database"@ => b, "table"@ => t],
                "parts"@,
                strs(parts),
                d,
            );
        },
    }
    match built_table(opts) {
        Err(e) => lemma_exact_error(e),
        Ok(v) => lemma_exact_object("name"@, v->Object_0["name"@], d),
    }
    match quoted_ident(opts) {
        Err(e) => lemma_exact_error(e),
        Ok(v) => lemma_exact_object("quoted"@, v->Object_0["quoted"@], d),
    }
    match unquoted_ident(opts) {
        Err(e) => lemma_exact_error(e),
        Ok(v) => lemma_exact_object("name"@, v->Object_0["name"@], d),
    }
    match quoted_qualified(opts) {
        Err(e) => lemma_exact_error(e),
        Ok(_) => {
            let parts = name_parts(opts.str_at_either("name"@, "table"@)->0, false);
            let q = JsonView::Str(join(written(parts, true), "."@));
            lemma_exact_strs(parts, (d - 1) as nat);
            lemma_exact_object("quoted"@, q, d);
            lemma_exact_insert(map!["quoted"@ => q], "parts"@, strs(parts), d);
        },
    }
}

/// What a byte count is written as holds nothing that would not read back.
proof fn lemma_exact_memory(opts: JsonView)
    ensures
        exact_within(told(built_memory(opts)), MAX_DEPTH as nat),
{
    let d = MAX_DEPTH as nat;
    match built_memory(opts) {
        Err(e) => lemma_exact_error(e),
        Ok(v) => {
            let m = v->Object_0;
            let a = map!["value"@ => m["value"@]];
            lemma_exact_object("value"@, m["value"@], d);
            lemma_exact_insert(a, "suffix"@, m["suffix"@], d);
            let b = a.insert("suffix"@, m["suffix"@]);
            lemma_exact_insert(b, "string"@, m["string"@], d);
            lemma_exact_insert(b.insert("string"@, m["string"@]), "bytes"@, m["bytes"@], d);
        },
    }
}

/// Every reply of a call that needs no Spark reads back as what the caller is told,
/// whatever the options are.
pub proof fn law_replies_read_back(opts: JsonView)
    ensures
        exact_within(told(parsed_master(opts)), MAX_DEPTH as nat),
        exact_within(told(built_master(opts)), MAX_DEPTH as nat),
        exact_within(told(parsed_table(opts)), MAX_DEPTH as nat),
        exact_within(told(built_table(opts)), MAX_DEPTH as nat),
        exact_within(told(built_memory(opts)), MAX_DEPTH as nat),
        exact_within(told(quoted_ident(opts)), MAX_DEPTH as nat),
        exact_within(told(unquoted_ident(opts)), MAX_DEPTH as nat),
        exact_within(told(quoted_qualified(opts)), MAX_DEPTH as nat),
{
    match parsed_master(opts) {
        Err(e) => lemma_exact_error(e),
        Ok(_) => {
            let url = opts.str_at_either("url"@, "master"@)->0;
            lemma_exact_master(master_of(url)->Ok_0);
        },
    }
    match built_master(opts) {
        Err(e) => lemma_exact_error(e),
        Ok(_) => lemma_exact_object("url"@, JsonView::Str(url_of(opts)->Ok_0), MAX_DEPTH as nat),
    }
    lemma_exact_names(opts);
    lemma_exact_memory(opts);
}

/// A call that has read a size and waits for its mebibytes.
pub struct MemoryCall {
    pub size: Size,
}

/// What to do next for a call that reads a size: hand out the reply, or work out the
/// mebibytes.
pub enum MemoryStep {
    Reply(String),
    Mib(MemoryCall),
}

/// Reads a Spark size. A size that is refused is replied to at once.
pub fn spark__parse_memory(args: Option<&[u8]>) -> (r: MemoryStep)
    ensures
        match (r, named_size(decoded_args(bytes_view(args)))) {
            (MemoryStep::Reply(s), Err(e)) => replies(s@, Err(e)),
            (MemoryStep::Mib(c), Ok(z)) => c.size@ == z,
            _ => false,
        },
{
    match op_parse_memory(decode_args(args)) {
        Err(e) => MemoryStep::Reply(reply(Err(e))),
        Ok(size) => MemoryStep::Mib(MemoryCall { size }),
    }
}

impl MemoryCall {
    /// The reply, with the mebibytes.
    pub fn finished(self, mib: serde_json::Number) -> (r: String)
        ensures
            replies(r@, Ok(size_json(self.size@, mib))),
    {
        reply(Ok(self.size.to_json(mib)))
    }
}

// ---------------------------------------------------------------------------
// Calls that need Spark
// ---------------------------------------------------------------------------

/// Asks whether Spark answers.
pub fn spark__ping(args: Option<&[u8]>, env: &Env) -> (r: CallStep)
    ensures
        r.is_step(driver_call(Op::Ping, decoded_args(bytes_view(args)), env@)),
{
    begin(Op::Ping, decode_args(args), env)
}

/// Runs a SELECT.
pub fn spark__query(args: Option<&[u8]>, env: &Env) -> (r: CallStep)
    ensures
        r.is_step(driver_call(Op::Query, decoded_args(bytes_view(args)), env@)),
{
    begin(Op::Query, decode_args(args), env)
}

/// Runs a statement.
pub fn spark__execute(args: Option<&[u8]>, env: &Env) -> (r: CallStep)
    ensures
        r.is_step(driver_call(Op::Execute, decoded_args(bytes_view(args)), env@)),
{
    begin(Op::Execute, decode_args(args), env)
}

/// Selects from one table.
pub fn spark__dump(args: Option<&[u8]>, env: &Env) -> (r: CallStep)
    ensures
        r.is_step(driver_call(Op::Dump, decoded_args(bytes_view(args)), env@)),
{
    begin(Op::Dump, decode_args(args), env)
}

/// Lists tables.
pub fn spark__tables(args: Option<&[u8]>, env: &Env) -> (r: CallStep)
    ensures
        r.is_step(driver_call(Op::Tables, decoded_args(bytes_view(args)), env@)),
{
    begin(Op::Tables, decode_args(args), env)
}

/// Lists databases.
pub fn spark__databases(args: Option<&[u8]>, env: &Env) -> (r: CallStep)
    ensures
        r.is_step(driver_call(Op::Databases, decoded_args(bytes_view(args)), env@)),
{
    begin(Op::Databases, decode_args(args), env)
}

/// Lists views.
pub fn spark__views(args: Option<&[u8]>, env: &Env) -> (r: CallStep)
    ensures
        r.is_step(driver_call(Op::Views, decoded_args(bytes_view(args)), env@)),
{
    begin(Op::Views, decode_args(args), env)
}

/// Lists catalogs.
pub fn spark__catalogs(args: Option<&[u8]>, env: &Env) -> (r: CallStep)
    ensures
        r.is_step(driver_call(Op::Catalogs, decoded_args(bytes_view(args)), env@)),
{
    begin(Op::Catalogs, decode_args(args), env)
}

/// Names the current database.
pub fn spark__current_database(args: Option<&[u8]>, env: &Env) -> (r: CallStep)
    ensures
        r.is_step(driver_call(Op::CurrentDatabase, decoded_args(bytes_view(args)), env@)),
{
    begin(Op::CurrentDatabase, decode_args(args), env)
}

/// Creates a temporary view.
pub fn spark__create_temp_view(args: Option<&[u8]>, env: &Env) -> (r: CallStep)
    ensures
        r.is_step(driver_call(Op::CreateTempView, decoded_args(bytes_view(args)), env@)),
{
    begin(Op::CreateTempView, decode_args(args), env)
}

/// Drops a temporary view.
pub fn spark__drop_temp_view(args: Option<&[u8]>, env: &Env) -> (r: CallStep)
    ensures
        r.is_step(driver_call(Op::DropTempView, decoded_args(bytes_view(args)), env@)),
{
    begin(Op::DropTempView, decode_args(args), env)
}

/// Sets the current database.
pub fn spark__set_database(args: Option<&[u8]>, env: &Env) -> (r: CallStep)
    ensures
        r.is_step(driver_call(Op::SetDatabase, decoded_args(bytes_view(args)), env@)),
{
    begin(Op::SetDatabase, decode_args(args), env)
}

/// Refreshes what is known of a table.
pub fn spark__refresh_table(args: Option<&[u8]>, env: &Env) -> (r: CallStep)
    ensures
        r.is_step(driver_call(Op::RefreshTable, decoded_args(bytes_view(args)), env@)),
{
    begin(Op::RefreshTable, decode_args(args), env)
}

/// Describes one table.
pub fn spark__schema(args: Option<&[u8]>, env: &Env) -> (r: CallStep)
    ensures
        r.is_step(driver_call(Op::Schema, decoded_args(bytes_view(args)), env@)),
{
    begin(Op::Schema, decode_args(args), env)
}

/// Explains a query.
pub fn spark__explain(args: Option<&[u8]>, env: &Env) -> (r: CallStep)
    ensures
        r.is_step(driver_call(Op::Explain, decoded_args(bytes_view(args)), env@)),
{
    begin(Op::Explain, decode_args(args), env)
}

/// Reads a source outside the catalog.
pub fn spark__read(args: Option<&[u8]>, env: &Env) -> (r: CallStep)
    ensures
        r.is_step(driver_call(Op::Read, decoded_args(bytes_view(args)), env@)),
{
    begin(Op::Read, decode_args(args), env)
}

/// Writes the rows of a query.
pub fn spark__write(args: Option<&[u8]>, env: &Env) -> (r: CallStep)
    ensures
        r.is_step(driver_call(Op::Write, decoded_args(bytes_view(args)), env@)),
{
    begin(Op::Write, decode_args(args), env)
}

/// Lists the columns of a table.
pub fn spark__columns(args: Option<&[u8]>, env: &Env) -> (r: CallStep)
    ensures
        r.is_step(driver_call(Op::Columns, decoded_args(bytes_view(args)), env@)),
{
    begin(Op::Columns, decode_args(args), env)
}

/// Lists functions.
pub fn spark__functions(args: Option<&[u8]>, env: &Env) -> (r: CallStep)
    ensures
        r.is_step(driver_call(Op::Functions, decoded_args(bytes_view(args)), env@)),
{
    begin(Op::Functions, decode_args(args), env)
}

/// Caches a table.
pub fn spark__cache(args: Option<&[u8]>, env: &Env) -> (r: CallStep)
    ensures
        r.is_step(driver_call(Op::Cache, decoded_args(bytes_view(args)), env@)),
{
    begin(Op::Cache, decode_args(args), env)
}

/// Drops a table from the cache.
pub fn spark__uncache(args: Option<&[u8]>, env: &Env) -> (r: CallStep)
    ensures
        r.is_step(driver_call(Op::Uncache, decoded_args(bytes_view(args)), env@)),
{
    begin(Op::Uncache, decode_args(args), env)
}

/// Reads or sets a setting of the session.
pub fn spark__config(args: Option<&[u8]>, env: &Env) -> (r: CallStep)
    ensures
        r.is_step(driver_call(Op::Config, decoded_args(bytes_view(args)), env@)),
{
    begin(Op::Config, decode_args(args), env)
}

/// Hands a script to `spark-submit`.
pub fn spark__submit(args: Option<&[u8]>, env: &Env) -> (r: CallStep)
    ensures
        r.is_step(submit_call(decoded_args(bytes_view(args)), env@)),
{
    begin_submit(decode_args(args), env)
}

/// Whether a step asks the driver for the given command, where it asks for anything.
pub open spec fn asks_for(r: CallStep, cmd: Seq<char>) -> bool {
    match r {
        CallStep::WriteDriver(c) => exists|request: JsonView|
            c.request@ == #[trigger] encoded_text(request) && request.str_at("cmd"@) == Some(cmd),
        CallStep::Reply(_) => true,
        _ => false,
    }
}

/// Every command of the driver goes by its own word.
proof fn lemma_word(op: Op, opts: JsonView, cmd: Seq<char>, env: &Env, r: CallStep)
    requires
        r.is_step(driver_call(op, opts, env@)),
        body_of(op, opts) is Ok ==> body_of(op, opts)->Ok_0.str_at("cmd"@) == Some(cmd),
    ensures
        asks_for(r, cmd),
        body_of(op, opts) is Ok <==> r is WriteDriver,
        r matches CallStep::WriteDriver(c) ==> c.op == op,
{
    reveal_strlit("cmd");
    reveal_strlit("database");
    assert("cmd"@.len() == 3 && "database"@.len() == 8);
    law_driver_call_carries(op, opts, env@, "cmd"@);
    if let CallStep::WriteDriver(c) = r {
        let request = request_of(options_of(opts, env@).database, body_of(op, opts)->Ok_0);
        assert(request.str_at("cmd"@) == Some(cmd));
        assert(c.request@ == encoded_text(request));
    }
}

/// Each call asks the driver for its own command, and for that operation the rows are
/// answered.
pub proof fn law_calls_ask_for_themselves(args: Option<&[u8]>, env: &Env, r: CallStep)
    ensures
        call_ensures(spark__ping, (args, env), r) ==> asks_for(r, "ping"@) && (r
            matches CallStep::WriteDriver(c) ==> c.op is Ping),
        call_ensures(spark__query, (args, env), r) ==> asks_for(r, "query"@) && (r
            matches CallStep::WriteDriver(c) ==> c.op is Query),
        call_ensures(spark__execute, (args, env), r) ==> asks_for(r, "execute"@) && (r
            matches CallStep::WriteDriver(c) ==> c.op is Execute),
        call_ensures(spark__dump, (args, env), r) ==> asks_for(r, "dump"@) && (r
            matches CallStep::WriteDriver(c) ==> c.op is Dump),
        call_ensures(spark__tables, (args, env), r) ==> asks_for(r, "tables"@) && (r
            matches CallStep::WriteDriver(c) ==> c.op is Tables),
        call_ensures(spark__databases, (args, env), r) ==> asks_for(r, "databases"@) && (r
            matches CallStep::WriteDriver(c) ==> c.op is Databases),
        call_ensures(spark__views, (args, env), r) ==> asks_for(r, "views"@) && (r
            matches CallStep::WriteDriver(c) ==> c.op is Views),
        call_ensures(spark__catalogs, (args, env), r) ==> asks_for(r, "catalogs"@) && (r
            matches CallStep::WriteDriver(c) ==> c.op is Catalogs),
        call_ensures(spark__current_database, (args, env), r) ==> asks_for(r, "current_database"@) && (r
            matches CallStep::WriteDriver(c) ==> c.op is CurrentDatabase),
        call_ensures(spark__create_temp_view, (args, env), r) ==> asks_for(r, "create_temp_view"@) && (r
            matches CallStep::WriteDriver(c) ==> c.op is CreateTempView),
        call_ensures(spark__drop_temp_view, (args, env), r) ==> asks_for(r, "drop_temp_view"@) && (r
            matches CallStep::WriteDriver(c) ==> c.op is DropTempView),
        call_ensures(spark__set_database, (args, env), r) ==> asks_for(r, "set_database"@) && (r
            matches CallStep::WriteDriver(c) ==> c.op is SetDatabase),
        call_ensures(spark__refresh_table, (args, env), r) ==> asks_for(r, "refresh_table"@) && (r
            matches CallStep::WriteDriver(c) ==> c.op is RefreshTable),
        call_ensures(spark__schema, (args, env), r) ==> asks_for(r, "schema"@) && (r
            matches CallStep::WriteDriver(c) ==> c.op is Schema),
        call_ensures(spark__explain, (args, env), r) ==> asks_for(r, "explain"@) && (r
            matches CallStep::WriteDriver(c) ==> c.op is Explain),
        call_ensures(spark__read, (args, env), r) ==> asks_for(r, "read"@) && (r
            matches CallStep::WriteDriver(c) ==> c.op is Read),
        call_ensures(spark__write, (args, env), r) ==> asks_for(r, "write"@) && (r
            matches CallStep::WriteDriver(c) ==> c.op is Write),
        call_ensures(spark__columns, (args, env), r) ==> asks_for(r, "columns"@) && (r
            matches CallStep::WriteDriver(c) ==> c.op is Columns),
        call_ensures(spark__functions, (args, env), r) ==> asks_for(r, "functions"@) && (r
            matches CallStep::WriteDriver(c) ==> c.op is Functions),
        call_ensures(spark__cache, (args, env), r) ==> asks_for(r, "cache"@) && (r
            matches CallStep::WriteDriver(c) ==> c.op is Cache),
        call_ensures(spark__uncache, (args, env), r) ==> asks_for(r, "uncache"@) && (r
            matches CallStep::WriteDriver(c) ==> c.op is Uncache),
        call_ensures(spark__config, (args, env), r) ==> asks_for(r, "config"@) && (r
            matches CallStep::WriteDriver(c) ==> c.op is Config),
{
    let opts = decoded_args(bytes_view(args));
    if call_ensures(spark__ping, (args, env), r) {
        law_bare_request(Op::Ping, opts, "cmd"@);
        lemma_word(Op::Ping, opts, "ping"@, env, r);
    }
    if call_ensures(spark__query, (args, env), r) {
        law_query_request(opts, "cmd"@);
        lemma_word(Op::Query, opts, "query"@, env, r);
    }
    if call_ensures(spark__execute, (args, env), r) {
        law_one_field_request(Op::Execute, opts, "cmd"@);
        lemma_word(Op::Execute, opts, "execute"@, env, r);
    }
    if call_ensures(spark__dump, (args, env), r) {
        law_dump_request(opts, "cmd"@);
        lemma_word(Op::Dump, opts, "dump"@, env, r);
    }
    if call_ensures(spark__tables, (args, env), r) {
        law_bare_request(Op::Tables, opts, "cmd"@);
        lemma_word(Op::Tables, opts, "tables"@, env, r);
    }
    if call_ensures(spark__databases, (args, env), r) {
        law_bare_request(Op::Databases, opts, "cmd"@);
        lemma_word(Op::Databases, opts, "databases"@, env, r);
    }
    if call_ensures(spark__views, (args, env), r) {
        law_bare_request(Op::Views, opts, "cmd"@);
        lemma_word(Op::Views, opts, "views"@, env, r);
    }
    if call_ensures(spark__catalogs, (args, env), r) {
        law_bare_request(Op::Catalogs, opts, "cmd"@);
        lemma_word(Op::Catalogs, opts, "catalogs"@, env, r);
    }
    if call_ensures(spark__current_database, (args, env), r) {
        law_bare_request(Op::CurrentDatabase, opts, "cmd"@);
        lemma_word(Op::CurrentDatabase, opts, "current_database"@, env, r);
    }
    if call_ensures(spark__create_temp_view, (args, env), r) {
        law_temp_view_request(opts, "cmd"@);
        lemma_word(Op::CreateTempView, opts, "create_temp_view"@, env, r);
    }
    if call_ensures(spark__drop_temp_view, (args, env), r) {
        law_one_field_request(Op::DropTempView, opts, "cmd"@);
        lemma_word(Op::DropTempView, opts, "drop_temp_view"@, env, r);
    }
    if call_ensures(spark__set_database, (args, env), r) {
        law_one_field_request(Op::SetDatabase, opts, "cmd"@);
        lemma_word(Op::SetDatabase, opts, "set_database"@, env, r);
    }
    if call_ensures(spark__refresh_table, (args, env), r) {
        law_one_field_request(Op::RefreshTable, opts, "cmd"@);
        lemma_word(Op::RefreshTable, opts, "refresh_table"@, env, r);
    }
    if call_ensures(spark__schema, (args, env), r) {
        law_one_field_request(Op::Schema, opts, "cmd"@);
        lemma_word(Op::Schema, opts, "schema"@, env, r);
    }
    if call_ensures(spark__explain, (args, env), r) {
        law_explain_request(opts, "cmd"@);
        lemma_word(Op::Explain, opts, "explain"@, env, r);
    }
    if call_ensures(spark__read, (args, env), r) {
        law_read_request(opts, "cmd"@);
        lemma_word(Op::Read, opts, "read"@, env, r);
    }
    if call_ensures(spark__write, (args, env), r) {
        law_write_request(opts, "cmd"@);
        lemma_word(Op::Write, opts, "write"@, env, r);
    }
    if call_ensures(spark__columns, (args, env), r) {
        law_one_field_request(Op::Columns, opts, "cmd"@);
        lemma_word(Op::Columns, opts, "columns"@, env, r);
    }
    if call_ensures(spark__functions, (args, env), r) {
        law_bare_request(Op::Functions, opts, "cmd"@);
        lemma_word(Op::Functions, opts, "functions"@, env, r);
    }
    if call_ensures(spark__cache, (args, env), r) {
        law_one_field_request(Op::Cache, opts, "cmd"@);
        lemma_word(Op::Cache, opts, "cache"@, env, r);
    }
    if call_ensures(spark__uncache, (args, env), r) {
        law_one_field_request(Op::Uncache, opts, "cmd"@);
        lemma_word(Op::Uncache, opts, "uncache"@, env, r);
    }
    if call_ensures(spark__config, (args, env), r) {
        law_config_request(opts, "cmd"@);
        lemma_word(Op::Config, opts, "config"@, env, r);
    }
}

/// A script is looked for, or refused, as the options that its call holds say.
pub proof fn law_submit_call(args: Option<&[u8]>, env: &Env, r: CallStep)
    requires
        call_ensures(spark__submit, (args, env), r),
    ensures
        r.is_step(submit_call(decoded_args(bytes_view(args)), env@)),
        !(r is WriteDriver),
{
}

/// Each call that needs no Spark replies with the answer of its own operation to the
/// options that it holds.
pub proof fn law_pure_calls(args: Option<&[u8]>, r: String)
    ensures
        call_ensures(spark__parse_master_url, (args,), r) ==> decoded_text(r@) == Ok::<
            JsonView,
            Seq<char>,
        >(told(parsed_master(decoded_args(bytes_view(args))))),
        call_ensures(spark__build_master_url, (args,), r) ==> decoded_text(r@) == Ok::<
            JsonView,
            Seq<char>,
        >(told(built_master(decoded_args(bytes_view(args))))),
        call_ensures(spark__parse_table_name, (args,), r) ==> decoded_text(r@) == Ok::<
            JsonView,
            Seq<char>,
        >(told(parsed_table(decoded_args(bytes_view(args))))),
        call_ensures(spark__build_table_name, (args,), r) ==> decoded_text(r@) == Ok::<
            JsonView,
            Seq<char>,
        >(told(built_table(decoded_args(bytes_view(args))))),
        call_ensures(spark__build_memory, (args,), r) ==> decoded_text(r@) == Ok::<
            JsonView,
            Seq<char>,
        >(told(built_memory(decoded_args(bytes_view(args))))),
        call_ensures(spark__quote_ident, (args,), r) ==> decoded_text(r@) == Ok::<
            JsonView,
            Seq<char>,
        >(told(quoted_ident(decoded_args(bytes_view(args))))),
        call_ensures(spark__unquote_ident, (args,), r) ==> decoded_text(r@) == Ok::<
            JsonView,
            Seq<char>,
        >(told(unquoted_ident(decoded_args(bytes_view(args))))),
        call_ensures(spark__quote_qualified_ident, (args,), r) ==> decoded_text(r@) == Ok::<
            JsonView,
            Seq<char>,
        >(told(quoted_qualified(decoded_args(bytes_view(args))))),
{
}

/// The version is told as it was handed in, under `version` and nothing else.
pub proof fn law_version_call(args: Option<&[u8]>, version: &str, r: String, key: Seq<char>)
    requires
        call_ensures(spark__pkg_version, (args, version), r),
    ensures
        decoded_text(r@) matches Ok(a) && a.get("version"@) == Some(JsonView::Str(version@)) && (
        a.get(key) is Some ==> key == "version"@),
{
}

/// A call that reads a size replies with the refusal, or hands out the size; and the size
/// with its mebibytes is the answer.
pub proof fn law_memory_call(
    args: Option<&[u8]>,
    r: MemoryStep,
    waiting: MemoryCall,
    mib: serde_json::Number,
    s: String,
)
    ensures
        call_ensures(spark__parse_memory, (args,), r) ==> match named_size(
            decoded_args(bytes_view(args)),
        ) {
            Ok(z) => r matches MemoryStep::Mib(c) && c.size@ == z,
            Err(e) => r matches MemoryStep::Reply(t) && t@ == encoded_text(told(Err(e))),
        },
        call_ensures(MemoryCall::finished, (waiting, mib), s) ==> s@ == encoded_text(
            size_json(waiting.size@, mib),
        ),
{
}

} // verus!
