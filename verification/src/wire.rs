//! JSON text: reading and writing values with `serde_json`.

use vstd::prelude::*;
use vstd::string::*;

use crate::error::{outcome, Error};
use crate::json::{
    entries_map, json_views, lemma_entries_last, lemma_json_views_push, lemma_member_views_push,
    lemma_members_push, member_views, members_map, number_view, Json, JsonView,
};
use crate::text::dec;

verus! {

// ---------------------------------------------------------------------------
// Values of serde_json
// ---------------------------------------------------------------------------

/// A JSON value of `serde_json`. It is opened and closed one level at a time.
#[verifier::external_type_specification]
#[verifier::external_body]
pub struct ExValue(serde_json::Value);

/// The members of an object of `serde_json`.
#[verifier::external_type_specification]
#[verifier::external_body]
#[verifier::reject_recursive_types(K)]
#[verifier::reject_recursive_types(V)]
pub struct ExObject<K, V>(serde_json::Map<K, V>);

/// The tree that a value of `serde_json` holds.
pub uninterp spec fn value_tree(v: serde_json::Value) -> JsonView;

/// The members that an object of `serde_json` holds, each as a tree.
pub uninterp spec fn object_tree(m: serde_json::Map<String, serde_json::Value>) -> Map<
    Seq<char>,
    JsonView,
>;

/// One level of a value of `serde_json`: the variant and what it holds.
pub enum Node {
    Null,
    Bool(bool),
    Number(serde_json::Number),
    Str(String),
    Array(Vec<serde_json::Value>),
    Object(serde_json::Map<String, serde_json::Value>),
}

/// The trees of a list of values of `serde_json`.
pub open spec fn value_trees(v: Seq<serde_json::Value>) -> Seq<JsonView> {
    Seq::new(v.len(), |i: int| value_tree(v[i]))
}

/// The keys and trees of a list of members of `serde_json`.
pub open spec fn entry_trees(v: Seq<(String, serde_json::Value)>) -> Seq<(Seq<char>, JsonView)> {
    Seq::new(v.len(), |i: int| (v[i].0@, value_tree(v[i].1)))
}

/// The tree that a level stands for.
pub open spec fn node_tree(n: Node) -> JsonView {
    match n {
        Node::Null => JsonView::Null,
        Node::Bool(b) => JsonView::Bool(b),
        Node::Number(x) => number_view(x),
        Node::Str(s) => JsonView::Str(s@),
        Node::Array(v) => JsonView::Array(value_trees(v@)),
        Node::Object(m) => JsonView::Object(object_tree(m)),
    }
}

/// Tells the variants of `serde_json::Value` apart and hands out what the variant
/// holds.
#[verifier::external_body]
pub(crate) fn open_value(v: serde_json::Value) -> (n: Node)
    ensures
        node_tree(n) == value_tree(v),
{
    match v {
        serde_json::Value::Null => Node::Null,
        serde_json::Value::Bool(b) => Node::Bool(b),
        serde_json::Value::Number(x) => Node::Number(x),
        serde_json::Value::String(s) => Node::Str(s),
        serde_json::Value::Array(a) => Node::Array(a),
        serde_json::Value::Object(m) => Node::Object(m),
    }
}

/// Puts what a variant of `serde_json::Value` holds into that variant.
#[verifier::external_body]
pub(crate) fn close_value(n: Node) -> (v: serde_json::Value)
    ensures
        value_tree(v) == node_tree(n),
{
    match n {
        Node::Null => serde_json::Value::Null,
        Node::Bool(b) => serde_json::Value::Bool(b),
        Node::Number(x) => serde_json::Value::Number(x),
        Node::Str(s) => serde_json::Value::String(s),
        Node::Array(a) => serde_json::Value::Array(a),
        Node::Object(m) => serde_json::Value::Object(m),
    }
}

/// `serde_json::Map::new`: an object without members.
#[verifier::external_body]
pub(crate) fn new_object() -> (m: serde_json::Map<String, serde_json::Value>)
    ensures
        object_tree(m).dom() == Set::<Seq<char>>::empty(),
{
    serde_json::Map::new()
}

/// `serde_json::Map::insert`: puts a value under a key, in place of the value that
/// was there, which is handed back.
#[verifier::external_body]
pub(crate) fn insert_member(
    m: &mut serde_json::Map<String, serde_json::Value>,
    key: String,
    value: serde_json::Value,
) -> (r: Option<serde_json::Value>)
    ensures
        object_tree(*final(m)) == object_tree(*old(m)).insert(key@, value_tree(value)),
        match r {
            Some(v) => object_tree(*old(m)).dom().contains(key@) && object_tree(*old(m))[key@]
                == value_tree(v),
            None => !object_tree(*old(m)).dom().contains(key@),
        },
{
    m.insert(key, value)
}

/// `serde_json::Map::into_iter`: hands out the members, each key once.
#[verifier::external_body]
pub(crate) fn object_members(m: serde_json::Map<String, serde_json::Value>) -> (r: Vec<
    (String, serde_json::Value),
>)
    ensures
        entries_map(entry_trees(r@)) == object_tree(m),
        forall|i: int, j: int| 0 <= i < j < r@.len() ==> (#[trigger] r@[i]).0@ != (#[trigger] r@[j]).0@,
{
    m.into_iter().collect()
}

/// A map made of a list of members has finitely many keys.
proof fn lemma_entries_finite(s: Seq<(Seq<char>, JsonView)>)
    ensures
        entries_map(s).dom().finite(),
    decreases s.len(),
{
    if s.len() > 0 {
        lemma_entries_finite(s.drop_last());
    }
}

/// The value that a value of `serde_json` holds.
pub(crate) fn json_of_value(v: serde_json::Value) -> (j: Json)
    ensures
        j@ == value_tree(v),
    decreases value_tree(v),
{
    match open_value(v) {
        Node::Null => Json::Null,
        Node::Bool(b) => Json::Bool(b),
        Node::Number(x) => Json::Number(x),
        Node::Str(s) => Json::Str(s),
        Node::Array(items) => {
            let ghost all = items@;
            let mut out: Vec<Json> = Vec::new();
            for x in it: items
                invariant
                    it.seq() == all,
                    value_tree(v) == JsonView::Array(value_trees(all)),
                    json_views(out@) == value_trees(all).take(it.index()),
            {
                proof {
                    let t = value_tree(v);
                    assert(x == all[it.index()]);
                    assert(decreases_to!(t => t->Array_0));
                    assert(decreases_to!(t->Array_0 => t->Array_0[it.index()]));
                }
                let y = json_of_value(x);
                proof {
                    lemma_json_views_push(out@, y);
                    assert(value_trees(all).take(it.index() + 1) =~= value_trees(all).take(
                        it.index(),
                    ).push(y@));
                }
                out.push(y);
            }
            proof {
                assert(value_trees(all).take(all.len() as int) =~= value_trees(all));
            }
            Json::Array(out)
        },
        Node::Object(m) => {
            let members = object_members(m);
            let ghost all = members@;
            let ghost s = entry_trees(all);
            proof {
                lemma_entries_finite(s);
            }
            let mut out: Vec<(String, Json)> = Vec::new();
            for x in it: members
                invariant
                    it.seq() == all,
                    s == entry_trees(all),
                    entries_map(s).dom().finite(),
                    forall|i: int, j: int|
                        0 <= i < j < all.len() ==> (#[trigger] all[i]).0@ != (#[trigger] all[j]).0@,
                    value_tree(v) == JsonView::Object(entries_map(s)),
                    member_views(out@) == s.take(it.index()),
            {
                let ghost k = it.index();
                proof {
                    let t = value_tree(v);
                    assert(x == all[k]);
                    assert forall|j: int| k < j < s.len() implies (#[trigger] s[j]).0 != s[k].0 by {
                        assert(all[k].0@ != all[j].0@);
                    }
                    lemma_entries_last(s, k);
                    assert(decreases_to!(t => t->Object_0));
                    assert(decreases_to!(t->Object_0 => t->Object_0[s[k].0]));
                }
                let (key, value) = x;
                let y = json_of_value(value);
                proof {
                    lemma_member_views_push(out@, key, y);
                    assert(s.take(k + 1) =~= s.take(k).push((key@, y@)));
                }
                out.push((key, y));
            }
            proof {
                assert(s.take(all.len() as int) =~= s);
            }
            Json::Object(out)
        },
    }
}

/// The value of `serde_json` that holds a value.
pub(crate) fn value_of_json(j: Json) -> (v: serde_json::Value)
    ensures
        value_tree(v) == j@,
    decreases j,
{
    match j {
        Json::Null => close_value(Node::Null),
        Json::Bool(b) => close_value(Node::Bool(b)),
        Json::Number(x) => close_value(Node::Number(x)),
        Json::Str(s) => close_value(Node::Str(s)),
        Json::Array(items) => {
            let ghost all = items@;
            let ghost whole = Json::Array(items);
            let mut out: Vec<serde_json::Value> = Vec::new();
            for x in it: items
                invariant
                    it.seq() == all,
                    whole == j,
                    whole is Array,
                    whole->Array_0@ == all,
                    value_trees(out@) == json_views(all).take(it.index()),
            {
                proof {
                    assert(x == all[it.index()]);
                    assert(decreases_to!(whole => whole->Array_0));
                    assert(decreases_to!(whole->Array_0 => whole->Array_0@));
                    assert(decreases_to!(all => all[it.index()]));
                }
                let y = value_of_json(x);
                proof {
                    assert(value_trees(out@.push(y)) =~= value_trees(out@).push(value_tree(y)));
                    assert(json_views(all).take(it.index() + 1) =~= json_views(all).take(
                        it.index(),
                    ).push(x@));
                }
                out.push(y);
            }
            proof {
                assert(json_views(all).take(all.len() as int) =~= json_views(all));
            }
            close_value(Node::Array(out))
        },
        Json::Object(members) => {
            let ghost all = members@;
            let ghost whole = Json::Object(members);
            let mut out = new_object();
            proof {
                assert(all.take(0) =~= Seq::<(String, Json)>::empty());
                assert(member_views(all.take(0)) =~= Seq::<(Seq<char>, JsonView)>::empty());
                assert(object_tree(out) =~= members_map(all.take(0)));
            }
            for x in it: members
                invariant
                    it.seq() == all,
                    whole == j,
                    whole is Object,
                    whole->Object_0@ == all,
                    object_tree(out) == members_map(all.take(it.index())),
            {
                let ghost k = it.index();
                proof {
                    assert(x == all[k]);
                    assert(decreases_to!(whole => whole->Object_0));
                    assert(decreases_to!(whole->Object_0 => whole->Object_0@));
                    assert(decreases_to!(all => all[k]));
                    assert(decreases_to!(all[k] => all[k].1));
                    lemma_members_push(all.take(k), x.0, x.1);
                    assert(all.take(k + 1) =~= all.take(k).push(x));
                }
                let (key, value) = x;
                let y = value_of_json(value);
                let _ = insert_member(&mut out, key, y);
            }
            proof {
                assert(all.take(all.len() as int) =~= all);
            }
            close_value(Node::Object(out))
        },
    }
}

// ---------------------------------------------------------------------------
// Text
// ---------------------------------------------------------------------------

/// What `serde_json` reads from a text: the tree, or the words in which it says
/// why the text is no JSON value.
pub uninterp spec fn decoded_text(text: Seq<char>) -> Result<JsonView, Seq<char>>;

/// What `serde_json` reads from bytes: the tree, or `None` where the bytes are no
/// JSON value.
pub uninterp spec fn decoded_bytes(bytes: Seq<u8>) -> Option<JsonView>;

/// The compact text that `serde_json` writes for a tree, and displays it as.
pub uninterp spec fn encoded_text(t: JsonView) -> Seq<char>;

/// The decimal text of an integer.
pub open spec fn int_text(i: int) -> Seq<char> {
    if i < 0 {
        seq!['-'] + dec((-i) as nat)
    } else {
        dec(i as nat)
    }
}

/// Whether a tree holds no floating-point number and nests arrays and objects at
/// most `depth` deep.
pub open spec fn exact_within(t: JsonView, depth: nat) -> bool
    decreases depth,
{
    match t {
        JsonView::Float(_) => false,
        JsonView::Array(a) => depth > 0 && forall|i: int|
            0 <= i < a.len() ==> exact_within(#[trigger] a[i], (depth - 1) as nat),
        JsonView::Object(m) => depth > 0 && forall|k: Seq<char>| #[trigger]
            m.dom().contains(k) ==> exact_within(m[k], (depth - 1) as nat),
        _ => true,
    }
}

/// A member that is exact keeps an object exact.
pub proof fn lemma_exact_insert(
    m: Map<Seq<char>, JsonView>,
    key: Seq<char>,
    v: JsonView,
    depth: nat,
)
    requires
        depth > 0,
        exact_within(JsonView::Object(m), depth),
        exact_within(v, (depth - 1) as nat),
    ensures
        exact_within(JsonView::Object(m.insert(key, v)), depth),
{
    let t = JsonView::Object(m);
    let n = m.insert(key, v);
    assert forall|k: Seq<char>| #[trigger] n.dom().contains(k) implies exact_within(
        n[k],
        (depth - 1) as nat,
    ) by {
        if k != key {
            assert(t->Object_0.dom().contains(k));
            assert(n[k] == t->Object_0[k]);
            assert(exact_within(t->Object_0[k], (depth - 1) as nat));
        } else {
            assert(n[k] == v);
        }
    }
}

/// An object with one exact member is exact.
pub proof fn lemma_exact_object(key: Seq<char>, v: JsonView, depth: nat)
    requires
        depth > 0,
        exact_within(v, (depth - 1) as nat),
    ensures
        exact_within(JsonView::Object(map![key => v]), depth),
{
    let e = Map::<Seq<char>, JsonView>::empty();
    assert(exact_within(JsonView::Object(e), depth));
    lemma_exact_insert(e, key, v, depth);
}

/// How deep arrays and objects may be nested in a text that is read.
pub const MAX_DEPTH: usize = 127;

/// `serde_json::from_str` for a value: what is read is a function of the text. An
/// error is handed on as the text that it displays.
#[verifier::external_body]
pub(crate) fn read_text(text: &str) -> (r: Result<serde_json::Value, String>)
    ensures
        match r {
            Ok(v) => decoded_text(text@) == Ok::<JsonView, Seq<char>>(value_tree(v)),
            Err(e) => decoded_text(text@) == Err::<JsonView, Seq<char>>(e@),
        },
{
    serde_json::from_str::<serde_json::Value>(text).map_err(|e| e.to_string())
}

/// `serde_json::from_slice` for a value: what is read is a function of the bytes.
#[verifier::external_body]
pub(crate) fn read_bytes(bytes: &[u8]) -> (r: Option<serde_json::Value>)
    ensures
        match r {
            Some(v) => decoded_bytes(bytes@) == Some(value_tree(v)),
            None => decoded_bytes(bytes@) is None,
        },
{
    serde_json::from_slice::<serde_json::Value>(bytes).ok()
}

/// `serde_json::to_string` for a value. It fails on no value, since the keys of an
/// object are strings. The text is a function of the tree and holds no null
/// character, since control characters are written as escapes; and a tree of
/// integers that is not nested deeper than the reader goes is read back from it
/// as it was. Of a tree with floating-point numbers nothing is said on reading
/// back: the reader rounds them.
#[verifier::external_body]
pub(crate) fn write_value(v: &serde_json::Value) -> (r: Option<String>)
    ensures
        match r {
            Some(s) => {
                &&& s@ == encoded_text(value_tree(*v))
                &&& !s@.contains('\0')
                &&& exact_within(value_tree(*v), MAX_DEPTH as nat) ==> decoded_text(s@) == Ok::<
                    JsonView,
                    Seq<char>,
                >(value_tree(*v))
            },
            None => false,
        },
{
    serde_json::to_string(v).ok()
}

/// `to_string` of `serde_json::Value`, which displays the value: the same compact text
/// that `serde_json::to_string` writes, with the same said of reading it back. Null and
/// the two booleans are their words and an integer is its decimal text.
#[verifier::external_body]
pub(crate) fn show_value(v: &serde_json::Value) -> (r: String)
    ensures
        r@ == encoded_text(value_tree(*v)),
        ({
            exact_within(value_tree(*v), MAX_DEPTH as nat) ==> decoded_text(r@) == Ok::<
                JsonView,
                Seq<char>,
            >(value_tree(*v))
        }),
        value_tree(*v) is Null ==> r@ == "null"@,
        value_tree(*v) == JsonView::Bool(true) ==> r@ == "true"@,
        value_tree(*v) == JsonView::Bool(false) ==> r@ == "false"@,
        value_tree(*v) matches JsonView::Int(i) ==> r@ == int_text(i),
{
    v.to_string()
}

/// Reads a JSON value from a text.
pub fn parse_json(text: &str) -> (r: Result<Json, Error>)
    ensures
        outcome(r) == decoded_text(text@),
{
    match read_text(text) {
        Ok(v) => Ok(json_of_value(v)),
        Err(message) => Err(Error { message }),
    }
}

/// Reads a JSON value from bytes; anything else reads as null.
pub fn parse_bytes(bytes: &[u8]) -> (r: Json)
    ensures
        r@ == match decoded_bytes(bytes@) {
            Some(t) => t,
            None => JsonView::Null,
        },
{
    match read_bytes(bytes) {
        Some(v) => json_of_value(v),
        None => Json::Null,
    }
}

/// The compact JSON text of a value. The text holds no null character, and a value
/// without floating-point numbers that is not nested too deep is read back from
/// it.
pub fn encode_json(j: Json) -> (r: String)
    ensures
        r@ == encoded_text(j@),
        !r@.contains('\0'),
        exact_within(j@, MAX_DEPTH as nat) ==> decoded_text(r@) == Ok::<JsonView, Seq<char>>(j@),
{
    match write_value(&value_of_json(j)) {
        Some(s) => s,
        None => String::new(),
    }
}

/// The text that a value is displayed as, which is its compact JSON text.
pub fn display_json(j: &Json) -> (r: String)
    ensures
        r@ == encoded_text(j@),
        exact_within(j@, MAX_DEPTH as nat) ==> decoded_text(r@) == Ok::<JsonView, Seq<char>>(j@),
        j@ is Null ==> r@ == "null"@,
        j@ == JsonView::Bool(true) ==> r@ == "true"@,
        j@ == JsonView::Bool(false) ==> r@ == "false"@,
        j@ matches JsonView::Int(i) ==> r@ == int_text(i),
{
    show_value(&value_of_json(j.copy()))
}

/// Reading and writing go by what `serde_json` reads and writes, and nothing else.
pub proof fn law_operations(
    text: &str,
    read: Result<Json, Error>,
    bytes: &[u8],
    value: Json,
    written: String,
)
    ensures
        call_ensures(parse_json, (text,), read) ==> outcome(read) == decoded_text(text@),
        call_ensures(parse_bytes, (bytes,), value) ==> match decoded_bytes(bytes@) {
            Some(t) => value@ == t,
            None => value@ is Null,
        },
        call_ensures(encode_json, (value,), written) ==> written@ == encoded_text(value@),
        call_ensures(display_json, (&value,), written) ==> written@ == encoded_text(value@),
{
}

} // verus!
