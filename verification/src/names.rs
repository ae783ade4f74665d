//! Operations on table names and quoted identifiers.

use vstd::prelude::*;
use vstd::slice::slice_subrange;
use vstd::string::*;

use crate::error::{outcome, Error};
use crate::ident::{
    between, in_backticks, law_split_inverts_join, lemma_between_quote, lemma_escape_unescape,
    lemma_name_parts_len, lemma_unescape_escape, name_parts, quote, quote_ident_str, segment,
    segment_str, split_qualified, unescape, unescape_chars, written,
};
use crate::json::{no_members, put, strs, Json, JsonView};
use crate::text::{chars_of, join, join_texts, law_join, lemma_views_push, views};

verus! {

// ---------------------------------------------------------------------------
// Table names
// ---------------------------------------------------------------------------

/// The part of a name that stands `k` places before its last, or a null.
pub open spec fn part_from_end(parts: Seq<Seq<char>>, k: int) -> JsonView {
    if k < parts.len() {
        JsonView::Str(parts[parts.len() - 1 - k])
    } else {
        JsonView::Null
    }
}

/// What `op_parse_table_name` answers.
pub open spec fn parsed_table(opts: JsonView) -> Result<JsonView, Seq<char>> {
    match opts.str_at_either("name"@, "table"@) {
        None => Err("missing name"@),
        Some(name) => {
            let parts = name_parts(name, false);
            if parts.len() > 3 {
                Err("too many parts (max catalog.database.table): "@ + name)
            } else {
                Ok(
                    JsonView::Object(
                        map![
                            "catalog"@ => part_from_end(parts, 2),
                            "database"@ => part_from_end(parts, 1),
                            "table"@ => part_from_end(parts, 0),
                            "parts"@ => strs(parts),
                        ],
                    ),
                )
            }
        },
    }
}

/// A part of a name as JSON, counted from the end.
fn from_end(parts: &Vec<String>, k: usize) -> (j: Json)
    ensures
        j@ == part_from_end(views(parts@), k as int),
{
    if k < parts.len() {
        Json::text(parts[parts.len() - 1 - k].as_str())
    } else {
        Json::Null
    }
}

/// Parses a Spark table identifier `[catalog.][database.]table` into
/// `{catalog, database, table, parts}`. Backtick quoting is honored, so a `.`
/// inside backticks stays in one part. opts: `name`, or else `table`.
pub fn op_parse_table_name(opts: Json) -> (r: Result<Json, Error>)
    ensures
        outcome(r) == parsed_table(opts@),
{
    let name = match opts.str_at_either("name", "table") {
        Some(n) => n,
        None => {
            return Err(Error::new("missing name"));
        },
    };
    let parts = split_qualified(name);
    if parts.len() > 3 {
        return Err(Error::about("too many parts (max catalog.database.table): ", name));
    }
    let mut m = no_members();
    put(&mut m, "catalog", from_end(&parts, 2));
    put(&mut m, "database", from_end(&parts, 1));
    put(&mut m, "table", from_end(&parts, 0));
    put(&mut m, "parts", Json::texts(&parts));
    Ok(Json::Object(m))
}

/// A string under a key, where it is not empty.
pub open spec fn filled_at(opts: JsonView, key: Seq<char>) -> Option<Seq<char>> {
    match opts.str_at(key) {
        Some(s) => if s.len() == 0 {
            None
        } else {
            Some(s)
        },
        None => None,
    }
}

/// The parts of a table name, from the outermost in.
pub open spec fn table_parts(
    catalog: Option<Seq<char>>,
    database: Option<Seq<char>>,
    table: Seq<char>,
) -> Seq<Seq<char>> {
    let c = match catalog {
        Some(s) => seq![s],
        None => Seq::<Seq<char>>::empty(),
    };
    let d = match database {
        Some(s) => seq![s],
        None => Seq::<Seq<char>>::empty(),
    };
    c + d + seq![table]
}

/// A string that may be absent, as JSON.
pub open spec fn or_null(s: Option<Seq<char>>) -> JsonView {
    match s {
        Some(t) => JsonView::Str(t),
        None => JsonView::Null,
    }
}

/// What `op_build_table_name` answers.
pub open spec fn built_table(opts: JsonView) -> Result<JsonView, Seq<char>> {
    match filled_at(opts, "table"@) {
        None => Err("missing table"@),
        Some(table) => {
            let database = filled_at(opts, "database"@);
            let catalog = filled_at(opts, "catalog"@);
            if catalog is Some && database is None {
                Err("catalog requires a database"@)
            } else {
                let parts = table_parts(catalog, database, table);
                Ok(
                    JsonView::Object(
                        map!["name"@ => JsonView::Str(join(written(parts, false), "."@))],
                    ),
                )
            }
        },
    }
}

/// A string under a key, where it is not empty.
fn filled<'a>(opts: &'a Json, key: &str) -> (r: Option<&'a str>)
    ensures
        match r {
            Some(s) => filled_at(opts@, key@) == Some(s@),
            None => filled_at(opts@, key@) is None,
        },
{
    match opts.str_at(key) {
        Some(s) => if s.is_empty() {
            None
        } else {
            Some(s)
        },
        None => None,
    }
}

/// Builds a qualified table name from parts, the inverse of
/// `op_parse_table_name`. opts: `table`, and optionally `database` and `catalog`
/// (a catalog requires a database). A part is backtick-quoted only where it holds a
/// `.` or a backtick, so plain names stay clean and the result still splits back
/// into its parts. Answers `{name}`.
pub fn op_build_table_name(opts: Json) -> (r: Result<Json, Error>)
    ensures
        outcome(r) == built_table(opts@),
{
    let table = match filled(&opts, "table") {
        Some(t) => t,
        None => {
            return Err(Error::new("missing table"));
        },
    };
    let database = filled(&opts, "database");
    let catalog = filled(&opts, "catalog");
    if catalog.is_some() && database.is_none() {
        return Err(Error::new("catalog requires a database"));
    }
    let mut segments: Vec<String> = Vec::new();
    let ghost mut parts = Seq::<Seq<char>>::empty();
    if let Some(c) = catalog {
        let s = segment_str(c);
        proof {
            lemma_views_push(segments@, s);
            parts = parts.push(c@);
            assert(written(parts, false) =~= views(segments@).push(s@));
        }
        segments.push(s);
    }
    proof {
        assert(views(segments@) =~= written(parts, false));
    }
    if let Some(d) = database {
        let s = segment_str(d);
        proof {
            lemma_views_push(segments@, s);
            assert(written(parts.push(d@), false) =~= written(parts, false).push(s@));
            parts = parts.push(d@);
        }
        segments.push(s);
    }
    let s = segment_str(table);
    proof {
        lemma_views_push(segments@, s);
        assert(written(parts.push(table@), false) =~= written(parts, false).push(s@));
        parts = parts.push(table@);
    }
    segments.push(s);
    proof {
        assert(parts =~= table_parts(
            filled_at(opts@, "catalog"@),
            filled_at(opts@, "database"@),
            table@,
        ));
    }
    let mut m = no_members();
    put(&mut m, "name", Json::Str(join_texts(&segments, ".")));
    Ok(Json::Object(m))
}

// ---------------------------------------------------------------------------
// Quoting
// ---------------------------------------------------------------------------

/// What `op_quote_ident` answers.
pub open spec fn quoted_ident(opts: JsonView) -> Result<JsonView, Seq<char>> {
    match opts.str_at("name"@) {
        None => Err("missing name"@),
        Some(name) => Ok(JsonView::Object(map!["quoted"@ => JsonView::Str(quote(name))])),
    }
}

/// Quotes a Spark SQL identifier with backticks, doubling any embedded backtick.
/// opts: `name`. Answers `{quoted}`.
pub fn op_quote_ident(opts: Json) -> (r: Result<Json, Error>)
    ensures
        outcome(r) == quoted_ident(opts@),
{
    match opts.str_at("name") {
        None => Err(Error::new("missing name")),
        Some(name) => {
            let mut m = no_members();
            put(&mut m, "quoted", Json::Str(quote_ident_str(name)));
            Ok(Json::Object(m))
        },
    }
}

/// What `op_unquote_ident` answers.
pub open spec fn unquoted_ident(opts: JsonView) -> Result<JsonView, Seq<char>> {
    match opts.str_at_either("quoted"@, "ident"@) {
        None => Err("missing quoted"@),
        Some(input) => if !in_backticks(input) {
            Err("not a backtick-quoted identifier: "@ + input)
        } else {
            match unescape(between(input)) {
                None => Err("malformed identifier: unpaired backtick in "@ + input),
                Some(name) => Ok(JsonView::Object(map!["name"@ => JsonView::Str(name)])),
            }
        },
    }
}

/// Decodes a backtick-quoted Spark SQL identifier back to its raw name, the inverse
/// of `op_quote_ident`. The input must be wrapped in backticks with every embedded
/// backtick doubled; an unpaired backtick is rejected. opts: `quoted`, or else
/// `ident`. Answers `{name}`.
pub fn op_unquote_ident(opts: Json) -> (r: Result<Json, Error>)
    ensures
        outcome(r) == unquoted_ident(opts@),
{
    let input = match opts.str_at_either("quoted", "ident") {
        Some(s) => s,
        None => {
            return Err(Error::new("missing quoted"));
        },
    };
    let cs = chars_of(input);
    let n: usize = cs.len();
    if n < 2 || cs[0] != '`' || cs[n - 1] != '`' {
        return Err(Error::about("not a backtick-quoted identifier: ", input));
    }
    let inner = slice_subrange(cs.as_slice(), 1, n - 1);
    proof {
        assert(inner@ =~= between(input@));
    }
    match unescape_chars(inner) {
        None => Err(Error::about("malformed identifier: unpaired backtick in ", input)),
        Some(name) => {
            let mut m = no_members();
            put(&mut m, "name", Json::Str(name));
            Ok(Json::Object(m))
        },
    }
}

/// Whether a part of a name is empty.
pub open spec fn has_empty_part(parts: Seq<Seq<char>>) -> bool {
    exists|i: int| 0 <= i < parts.len() && (#[trigger] parts[i]).len() == 0
}

/// What `op_quote_qualified_ident` answers.
pub open spec fn quoted_qualified(opts: JsonView) -> Result<JsonView, Seq<char>> {
    match opts.str_at_either("name"@, "table"@) {
        None => Err("missing name"@),
        Some(name) => {
            let parts = name_parts(name, false);
            if has_empty_part(parts) {
                Err("qualified identifier has an empty part: "@ + name)
            } else if parts.len() > 3 {
                Err("too many parts (max catalog.database.table): "@ + name)
            } else {
                Ok(
                    JsonView::Object(
                        map![
                            "quoted"@ => JsonView::Str(join(written(parts, true), "."@)),
                            "parts"@ => strs(parts),
                        ],
                    ),
                )
            }
        },
    }
}

/// Quotes a qualified Spark table identifier `[catalog.][database.]table`,
/// backtick-quoting each part and joining them with `.`. Splitting honors backtick
/// quoting. At most three parts, none of them empty. opts: `name`, or else `table`.
/// Answers `{quoted, parts}`.
pub fn op_quote_qualified_ident(opts: Json) -> (r: Result<Json, Error>)
    ensures
        outcome(r) == quoted_qualified(opts@),
{
    let name = match opts.str_at_either("name", "table") {
        Some(n) => n,
        None => {
            return Err(Error::new("missing name"));
        },
    };
    let parts = split_qualified(name);
    let ghost all = views(parts@);
    let mut quoted: Vec<String> = Vec::new();
    let mut i: usize = 0;
    while i < parts.len()
        invariant
            i <= parts@.len(),
            all == views(parts@),
            all == name_parts(name@, false),
            opts@.str_at_either("name"@, "table"@) == Some(name@),
            forall|k: int| 0 <= k < i ==> (#[trigger] all[k]).len() > 0,
            views(quoted@) == written(all, true).take(i as int),
        decreases parts@.len() - i,
    {
        if parts[i].as_str().is_empty() {
            proof {
                assert(all[i as int].len() == 0);
            }
            return Err(Error::about("qualified identifier has an empty part: ", name));
        }
        let q = quote_ident_str(parts[i].as_str());
        proof {
            lemma_views_push(quoted@, q);
            assert(written(all, true).take(i + 1) =~= written(all, true).take(i as int).push(q@));
        }
        quoted.push(q);
        i = i + 1;
    }
    proof {
        assert(written(all, true).take(i as int) =~= written(all, true));
    }
    if parts.len() > 3 {
        return Err(Error::about("too many parts (max catalog.database.table): ", name));
    }
    let mut m = no_members();
    put(&mut m, "quoted", Json::Str(join_texts(&quoted, ".")));
    put(&mut m, "parts", Json::texts(&parts));
    Ok(Json::Object(m))
}

// ---------------------------------------------------------------------------
// Laws
// ---------------------------------------------------------------------------

/// A quoted identifier decodes to the name that was quoted, whatever the name holds:
/// the answer of `op_quote_ident`, handed to `op_unquote_ident`, gives the name back.
pub proof fn law_unquote_inverts_quote(opts: JsonView)
    requires
        opts.str_at("name"@) is Some,
    ensures
        quoted_ident(opts) is Ok,
        unquoted_ident(quoted_ident(opts)->Ok_0) == Ok::<JsonView, Seq<char>>(
            JsonView::Object(map!["name"@ => JsonView::Str(opts.str_at("name"@)->0)]),
        ),
{
    let name = opts.str_at("name"@)->0;
    lemma_between_quote(name);
    lemma_unescape_escape(name);
    let q = quoted_ident(opts)->Ok_0;
    assert(q.get("quoted"@) == Some(JsonView::Str(quote(name))));
}

/// What decodes is exactly what quoting gives: the answer of `op_unquote_ident`,
/// handed to `op_quote_ident`, gives back the text that was decoded.
pub proof fn law_quote_inverts_unquote(opts: JsonView)
    requires
        unquoted_ident(opts) is Ok,
    ensures
        quoted_ident(unquoted_ident(opts)->Ok_0) == Ok::<JsonView, Seq<char>>(
            JsonView::Object(
                map!["quoted"@ => JsonView::Str(opts.str_at_either("quoted"@, "ident"@)->0)],
            ),
        ),
{
    let input = opts.str_at_either("quoted"@, "ident"@)->0;
    let name = unescape(between(input))->0;
    lemma_escape_unescape(between(input));
    assert(quote(name) =~= input);
    let u = unquoted_ident(opts)->Ok_0;
    assert(u.get("name"@) == Some(JsonView::Str(name)));
}

/// A built table name parses into the parts that it was built from: the answer of
/// `op_build_table_name`, handed to `op_parse_table_name`, gives back the catalog, the
/// database and the table, whatever they hold.
pub proof fn law_parse_inverts_build(opts: JsonView)
    requires
        built_table(opts) is Ok,
    ensures
        ({
            let catalog = filled_at(opts, "catalog"@);
            let database = filled_at(opts, "database"@);
            let table = filled_at(opts, "table"@)->0;
            parsed_table(built_table(opts)->Ok_0) == Ok::<JsonView, Seq<char>>(
                JsonView::Object(
                    map![
                        "catalog"@ => or_null(catalog),
                        "database"@ => or_null(database),
                        "table"@ => JsonView::Str(table),
                        "parts"@ => strs(table_parts(catalog, database, table)),
                    ],
                ),
            )
        }),
{
    let catalog = filled_at(opts, "catalog"@);
    let database = filled_at(opts, "database"@);
    let table = filled_at(opts, "table"@)->0;
    let parts = table_parts(catalog, database, table);
    let b = built_table(opts)->Ok_0;
    let name = join(written(parts, false), "."@);
    assert(b.get("name"@) == Some(JsonView::Str(name)));
    assert("."@ =~= seq!['.']) by {
        reveal_strlit(".");
    }
    law_split_inverts_join(parts, false);
    assert(parts.len() <= 3);
    assert(part_from_end(parts, 2) == or_null(catalog));
    assert(part_from_end(parts, 1) == or_null(database));
    assert(part_from_end(parts, 0) == JsonView::Str(table));
}

/// Building from a parsed name keeps its parts: the answer of `op_parse_table_name`,
/// handed to `op_build_table_name`, gives a name that parses into the same answer,
/// unless a part is empty.
pub proof fn law_build_keeps_parse(opts: JsonView)
    requires
        parsed_table(opts) is Ok,
        !has_empty_part(name_parts(opts.str_at_either("name"@, "table"@)->0, false)),
    ensures
        built_table(parsed_table(opts)->Ok_0) is Ok,
        parsed_table(built_table(parsed_table(opts)->Ok_0)->Ok_0) == parsed_table(opts),
{
    let name = opts.str_at_either("name"@, "table"@)->0;
    let parts = name_parts(name, false);
    lemma_name_parts_len(name, false);
    let p = parsed_table(opts)->Ok_0;
    reveal_strlit("catalog");
    reveal_strlit("database");
    reveal_strlit("table");
    reveal_strlit("parts");
    assert("catalog"@.len() == 7 && "database"@.len() == 8);
    assert("table"@.len() == 5 && "parts"@.len() == 5);
    assert("table"@[0] == 't' && "parts"@[0] == 'p');
    assert(p.get("catalog"@) == Some(part_from_end(parts, 2)));
    assert(p.get("database"@) == Some(part_from_end(parts, 1)));
    assert(p.get("table"@) == Some(part_from_end(parts, 0)));
    assert(parts[parts.len() - 1].len() > 0);
    let table = filled_at(p, "table"@);
    assert(table == Some(parts[parts.len() - 1]));
    let database = filled_at(p, "database"@);
    if parts.len() >= 2 {
        assert(parts[parts.len() - 2].len() > 0);
    }
    let catalog = filled_at(p, "catalog"@);
    if parts.len() >= 3 {
        assert(parts[parts.len() - 3].len() > 0);
    }
    assert(table_parts(catalog, database, table->0) =~= parts);
    law_parse_inverts_build(p);
}

/// Quoting every part of a name keeps its parts: the `quoted` text that
/// `op_quote_qualified_ident` answers parses as the name itself does.
pub proof fn law_quoting_keeps_parse(opts: JsonView, quoted: Seq<char>)
    requires
        quoted_qualified(opts) is Ok,
        quoted_qualified(opts)->Ok_0.str_at("quoted"@) == Some(quoted),
    ensures
        parsed_table(JsonView::Object(map!["name"@ => JsonView::Str(quoted)])) == parsed_table(opts),
        parsed_table(opts) is Ok,
{
    let name = opts.str_at_either("name"@, "table"@)->0;
    let parts = name_parts(name, false);
    lemma_name_parts_len(name, false);
    assert("quoted"@ != "parts"@) by {
        reveal_strlit("quoted");
        reveal_strlit("parts");
    }
    assert("."@ =~= seq!['.']) by {
        reveal_strlit(".");
    }
    assert(quoted == join(written(parts, true), "."@));
    law_split_inverts_join(parts, true);
    let again = JsonView::Object(map!["name"@ => JsonView::Str(quoted)]);
    assert(again.get("name"@) == Some(JsonView::Str(quoted)));
}

/// The text that options hold under the first of two keys that they have.
pub open spec fn text_under(opts: JsonView, key: Seq<char>, other: Seq<char>) -> Option<Seq<char>> {
    match opts.get(key) {
        Some(JsonView::Str(s)) => Some(s),
        Some(_) => None,
        None => match opts.get(other) {
            Some(JsonView::Str(s)) => Some(s),
            _ => None,
        },
    }
}

/// What a table name is parsed into: its last part is the table, the one before it the
/// database and the one before that the catalog, with a null for each that there is none
/// of; and the list of its parts. More than three parts are refused.
pub proof fn law_parsed_table_name(opts: JsonView, key: Seq<char>)
    ensures
        text_under(opts, "name"@, "table"@) is None ==> parsed_table(opts) is Err,
        text_under(opts, "name"@, "table"@) matches Some(name) ==> {
            let parts = name_parts(name, false);
            let n = parts.len() as int;
            &&& n >= 1
            &&& parsed_table(opts) is Ok <==> n <= 3
            &&& n <= 3 ==> {
                let a = parsed_table(opts)->Ok_0;
                &&& a.get("table"@) == Some(JsonView::Str(parts[n - 1]))
                &&& n >= 2 ==> a.get("database"@) == Some(JsonView::Str(parts[n - 2]))
                &&& n < 2 ==> a.get("database"@) == Some(JsonView::Null)
                &&& n == 3 ==> a.get("catalog"@) == Some(JsonView::Str(parts[0]))
                &&& n < 3 ==> a.get("catalog"@) == Some(JsonView::Null)
                &&& a.array_at("parts"@) is Some
                &&& a.array_at("parts"@)->0.len() == n
                &&& forall|i: int|
                    0 <= i < n ==> #[trigger] a.array_at("parts"@)->0[i] == JsonView::Str(parts[i])
                &&& a.get(key) is Some ==> key == "table"@ || key == "database"@ || key
                    == "catalog"@ || key == "parts"@
            }
        },
{
    lemma_table_keys();
    if let Some(name) = text_under(opts, "name"@, "table"@) {
        lemma_name_parts_len(name, false);
        let parts = name_parts(name, false);
        if parts.len() <= 3 {
            let a = parsed_table(opts)->Ok_0;
            let items = Seq::new(parts.len(), |i: int| JsonView::Str(parts[i]));
            assert(a.get("parts"@) == Some(JsonView::Array(items)));
        }
    }
}

/// The keys of a parsed table name are told apart.
proof fn lemma_table_keys()
    ensures
        "catalog"@.len() == 7 && "database"@.len() == 8 && "table"@.len() == 5 && "parts"@.len()
            == 5,
        "table"@[0] == 't' && "parts"@[0] == 'p',
        "quoted"@.len() == 6 && "."@ == seq!['.'],
{
    reveal_strlit("catalog");
    reveal_strlit("database");
    reveal_strlit("table");
    reveal_strlit("parts");
    reveal_strlit("quoted");
    reveal_strlit(".");
}

/// What a table name is built as: the catalog, the database and the table that are given
/// and not empty, with a dot between each two, each as it stands or in backticks. It is
/// refused without a table, and with a catalog but no database.
pub proof fn law_built_table_name(opts: JsonView, key: Seq<char>)
    ensures
        ({
            let catalog = opts.str_at("catalog"@);
            let database = opts.str_at("database"@);
            let table = opts.str_at("table"@);
            let has_catalog = catalog is Some && catalog->0.len() > 0;
            let has_database = database is Some && database->0.len() > 0;
            let has_table = table is Some && table->0.len() > 0;
            let dot = seq!['.'];
            &&& built_table(opts) is Ok <==> has_table && (has_catalog ==> has_database)
            &&& built_table(opts) matches Ok(built) ==> {
                &&& !has_database ==> built.str_at("name"@) == Some(segment(table->0))
                &&& has_database && !has_catalog ==> built.str_at("name"@) == Some(
                    segment(database->0) + dot + segment(table->0),
                )
                &&& has_catalog ==> built.str_at("name"@) == Some(
                    segment(catalog->0) + dot + segment(database->0) + dot + segment(table->0),
                )
                &&& built.get(key) is Some ==> key == "name"@
            }
        }),
{
    lemma_table_keys();
    if built_table(opts) is Ok {
        let c = filled_at(opts, "catalog"@);
        let d = filled_at(opts, "database"@);
        let t = filled_at(opts, "table"@)->0;
        let parts = table_parts(c, d, t);
        let w = written(parts, false);
        let dot = "."@;
        assert(built_table(opts)->Ok_0.get("name"@) == Some(JsonView::Str(join(w, dot))));
        if d is None {
            assert(parts =~= seq![t]);
            assert(w =~= seq![segment(t)]);
            assert(join(w, dot) == segment(t));
        } else if c is None {
            assert(parts =~= seq![d->0, t]);
            assert(w =~= seq![segment(d->0)] + seq![segment(t)]);
            law_join(seq![segment(d->0)], seq![segment(t)], segment(d->0), dot);
            assert(join(seq![segment(t)], dot) == segment(t));
        } else {
            assert(parts =~= seq![c->0, d->0, t]);
            let x = seq![segment(c->0)];
            let y = seq![segment(d->0)];
            let z = seq![segment(t)];
            assert(w =~= x + y + z);
            law_join(x + y, z, segment(c->0), dot);
            law_join(x, y, segment(c->0), dot);
            assert(join(y, dot) == segment(d->0));
            assert(join(z, dot) == segment(t));
        }
    }
}

/// What a qualified name is quoted as: each of its parts in backticks, with a dot between
/// each two, and the list of its parts. It is refused where a part is empty and where
/// there are more than three.
pub proof fn law_quoted_qualified(opts: JsonView, key: Seq<char>)
    ensures
        text_under(opts, "name"@, "table"@) is None ==> quoted_qualified(opts) is Err,
        text_under(opts, "name"@, "table"@) matches Some(name) ==> {
            let parts = name_parts(name, false);
            let n = parts.len() as int;
            let dot = seq!['.'];
            &&& quoted_qualified(opts) is Ok <==> n <= 3 && forall|i: int|
                0 <= i < n ==> (#[trigger] parts[i]).len() > 0
            &&& quoted_qualified(opts) matches Ok(a) ==> {
                &&& n == 1 ==> a.str_at("quoted"@) == Some(quote(parts[0]))
                &&& n == 2 ==> a.str_at("quoted"@) == Some(quote(parts[0]) + dot + quote(parts[1]))
                &&& n == 3 ==> a.str_at("quoted"@) == Some(
                    quote(parts[0]) + dot + quote(parts[1]) + dot + quote(parts[2]),
                )
                &&& a.array_at("parts"@) is Some
                &&& a.array_at("parts"@)->0.len() == n
                &&& forall|i: int|
                    0 <= i < n ==> #[trigger] a.array_at("parts"@)->0[i] == JsonView::Str(parts[i])
                &&& a.get(key) is Some ==> key == "quoted"@ || key == "parts"@
            }
        },
{
    lemma_table_keys();
    if let Some(name) = text_under(opts, "name"@, "table"@) {
        lemma_name_parts_len(name, false);
        let parts = name_parts(name, false);
        let w = written(parts, true);
        let dot = "."@;
        if quoted_qualified(opts) is Ok {
            let a = quoted_qualified(opts)->Ok_0;
            let items = Seq::new(parts.len(), |i: int| JsonView::Str(parts[i]));
            assert(a.get("parts"@) == Some(JsonView::Array(items)));
            assert(a.get("quoted"@) == Some(JsonView::Str(join(w, dot))));
            let x = seq![quote(parts[0])];
            assert(join(x, dot) == quote(parts[0]));
            if parts.len() == 1 {
                assert(w =~= x);
            } else {
                let y = seq![quote(parts[1])];
                assert(join(y, dot) == quote(parts[1]));
                law_join(x, y, quote(parts[0]), dot);
                if parts.len() == 2 {
                    assert(w =~= x + y);
                } else {
                    let z = seq![quote(parts[2])];
                    assert(join(z, dot) == quote(parts[2]));
                    law_join(x + y, z, quote(parts[0]), dot);
                    assert(w =~= x + y + z);
                }
            }
        }
    }
}

/// An identifier is quoted where a name is given, and decoded exactly where it is the
/// quoted form of a name; the answer holds that and nothing else.
pub proof fn law_quoted_identifiers(opts: JsonView, key: Seq<char>)
    ensures
        quoted_ident(opts) is Ok <==> opts.str_at("name"@) is Some,
        quoted_ident(opts) matches Ok(a) ==> {
            &&& a.str_at("quoted"@) == Some(quote(opts.str_at("name"@)->0))
            &&& a.get(key) is Some ==> key == "quoted"@
        },
        unquoted_ident(opts) is Ok <==> (text_under(opts, "quoted"@, "ident"@) is Some && exists|
            name: Seq<char>,
        | text_under(opts, "quoted"@, "ident"@)->0 == #[trigger] quote(name)),
        unquoted_ident(opts) matches Ok(a) ==> {
            &&& a.str_at("name"@) is Some
            &&& text_under(opts, "quoted"@, "ident"@) == Some(quote(a.str_at("name"@)->0))
            &&& a.get(key) is Some ==> key == "name"@
        },
{
    if let Some(input) = text_under(opts, "quoted"@, "ident"@) {
        if exists|name: Seq<char>| input == #[trigger] quote(name) {
            let name = choose|name: Seq<char>| input == #[trigger] quote(name);
            lemma_between_quote(name);
            lemma_unescape_escape(name);
        }
        if unquoted_ident(opts) is Ok {
            let name = unescape(between(input))->0;
            lemma_escape_unescape(between(input));
            assert(quote(name) =~= input);
        }
    }
}

/// The operations on names answer what they come to.
pub proof fn law_operations(opts: Json, r: Result<Json, Error>)
    ensures
        call_ensures(op_parse_table_name, (opts,), r) ==> outcome(r) == parsed_table(opts@),
        call_ensures(op_build_table_name, (opts,), r) ==> outcome(r) == built_table(opts@),
        call_ensures(op_quote_ident, (opts,), r) ==> outcome(r) == quoted_ident(opts@),
        call_ensures(op_unquote_ident, (opts,), r) ==> outcome(r) == unquoted_ident(opts@),
        call_ensures(op_quote_qualified_ident, (opts,), r) ==> outcome(r) == quoted_qualified(
            opts@,
        ),
{
}

/// Names are refused in words that show them.
pub proof fn law_refusals(opts: JsonView)
    ensures
        parsed_table(opts) matches Err(e) ==> match text_under(opts, "name"@, "table"@) {
            Some(name) => e == "too many parts (max catalog.database.table): "@ + name,
            None => e == "missing name"@,
        },
        built_table(opts) matches Err(e) ==> if opts.str_at("table"@) is None || opts.str_at(
            "table"@,
        )->0.len() == 0 {
            e == "missing table"@
        } else {
            e == "catalog requires a database"@
        },
        quoted_ident(opts) matches Err(e) ==> e == "missing name"@,
        unquoted_ident(opts) matches Err(e) ==> match text_under(opts, "quoted"@, "ident"@) {
            Some(s) => if s.len() >= 2 && s[0] == '`' && s.last() == '`' {
                e == "malformed identifier: unpaired backtick in "@ + s
            } else {
                e == "not a backtick-quoted identifier: "@ + s
            },
            None => e == "missing quoted"@,
        },
        quoted_qualified(opts) matches Err(e) ==> match text_under(opts, "name"@, "table"@) {
            Some(name) => if exists|i: int|
                0 <= i < name_parts(name, false).len() && (#[trigger] name_parts(
                    name,
                    false,
                )[i]).len() == 0 {
                e == "qualified identifier has an empty part: "@ + name
            } else {
                e == "too many parts (max catalog.database.table): "@ + name
            },
            None => e == "missing name"@,
        },
{
}

} // verus!
