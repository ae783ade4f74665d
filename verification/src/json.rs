//! JSON values as plain data: the model that contracts speak of, and reading,
//! copying and filling a value.

use vstd::prelude::*;
use vstd::string::*;

use crate::text::{same_text, views};

verus! {

// ---------------------------------------------------------------------------
// Numbers
// ---------------------------------------------------------------------------

/// A JSON number of `serde_json`. It is carried as it is; what is read of it is
/// its value where it is an integer.
#[verifier::external_type_specification]
#[verifier::external_body]
pub struct ExNumber(serde_json::Number);

/// What a number of `serde_json` holds: its value where it is an integer, `None`
/// where it is a floating-point number.
pub uninterp spec fn number_int(n: serde_json::Number) -> Option<int>;

/// `serde_json::Number::as_u64`: the value of a number that is an integer and not
/// negative, and `None` for every other number. An integer that is not negative
/// is held in 64 bits.
pub assume_specification[ serde_json::Number::as_u64 ](n: &serde_json::Number) -> (r: Option<u64>)
    ensures
        match r {
            Some(u) => number_int(*n) == Some(u as int),
            None => match number_int(*n) {
                Some(i) => i < 0,
                None => true,
            },
        },
;

/// `serde_json::Number::clone`: the same number.
pub assume_specification[ <serde_json::Number as Clone>::clone ](n: &serde_json::Number) -> (r:
    serde_json::Number)
    ensures
        r == *n,
;

/// `serde_json::Number::from` for an unsigned integer: the number that holds it.
#[verifier::external_body]
pub(crate) fn number_of(u: u64) -> (r: serde_json::Number)
    ensures
        number_int(r) == Some(u as int),
{
    serde_json::Number::from(u)
}

/// `serde_json::Number::from` for a signed integer: the number that holds it.
#[verifier::external_body]
pub(crate) fn signed_number_of(i: i64) -> (r: serde_json::Number)
    ensures
        number_int(r) == Some(i as int),
{
    serde_json::Number::from(i)
}

// ---------------------------------------------------------------------------
// The model
// ---------------------------------------------------------------------------

/// A JSON value as a mathematical tree. An object is a map: the order of its
/// members carries no meaning.
pub enum JsonView {
    Null,
    Bool(bool),
    Int(int),
    Float(serde_json::Number),
    Str(Seq<char>),
    Array(Seq<JsonView>),
    Object(Map<Seq<char>, JsonView>),
}

/// A list of string values as a tree.
pub open spec fn strs(parts: Seq<Seq<char>>) -> JsonView {
    JsonView::Array(Seq::new(parts.len(), |i: int| JsonView::Str(parts[i])))
}

/// A number as a tree.
pub open spec fn number_view(n: serde_json::Number) -> JsonView {
    match number_int(n) {
        Some(i) => JsonView::Int(i),
        None => JsonView::Float(n),
    }
}

/// The map that a list of members stands for: of two members with one key the
/// later one counts.
pub open spec fn entries_map(s: Seq<(Seq<char>, JsonView)>) -> Map<Seq<char>, JsonView>
    decreases s.len(),
{
    if s.len() == 0 {
        Map::empty()
    } else {
        entries_map(s.drop_last()).insert(s.last().0, s.last().1)
    }
}

impl JsonView {
    /// The member of an object under a key.
    pub open spec fn get(self, key: Seq<char>) -> Option<JsonView> {
        match self {
            JsonView::Object(m) => if m.dom().contains(key) {
                Some(m[key])
            } else {
                None
            },
            _ => None,
        }
    }

    /// The text of a string.
    pub open spec fn as_str(self) -> Option<Seq<char>> {
        match self {
            JsonView::Str(s) => Some(s),
            _ => None,
        }
    }

    /// The value of an integer that 64 bits without a sign can hold.
    pub open spec fn as_u64(self) -> Option<int> {
        match self {
            JsonView::Int(i) => if 0 <= i <= u64::MAX {
                Some(i)
            } else {
                None
            },
            _ => None,
        }
    }

    /// The items of an array.
    pub open spec fn as_array(self) -> Option<Seq<JsonView>> {
        match self {
            JsonView::Array(a) => Some(a),
            _ => None,
        }
    }

    /// The text of the member under a key, where that member is a string.
    pub open spec fn str_at(self, key: Seq<char>) -> Option<Seq<char>> {
        match self.get(key) {
            Some(v) => v.as_str(),
            None => None,
        }
    }

    /// The text of the member under the first of two keys that the object has,
    /// where that member is a string.
    pub open spec fn str_at_either(self, key: Seq<char>, other: Seq<char>) -> Option<Seq<char>> {
        match self.get(key) {
            Some(v) => v.as_str(),
            None => self.str_at(other),
        }
    }

    /// The value of the member under a key, where that member is an integer that
    /// is not negative.
    pub open spec fn u64_at(self, key: Seq<char>) -> Option<int> {
        match self.get(key) {
            Some(v) => v.as_u64(),
            None => None,
        }
    }

    /// The items of the member under a key, where that member is an array.
    pub open spec fn array_at(self, key: Seq<char>) -> Option<Seq<JsonView>> {
        match self.get(key) {
            Some(v) => v.as_array(),
            None => None,
        }
    }
}

// ---------------------------------------------------------------------------
// Values
// ---------------------------------------------------------------------------

/// A JSON value. The members of an object stand in a list, since `serde_json::Map` has its
/// methods only for values of `serde_json`; where a key stands twice, the last one counts.
#[derive(Debug, PartialEq)]
pub enum Json {
    Null,
    Bool(bool),
    Number(serde_json::Number),
    Str(String),
    Array(Vec<Json>),
    Object(Vec<(String, Json)>),
}

impl Json {
    /// The tree that a value stands for.
    pub open spec fn view(&self) -> JsonView
        decreases self,
    {
        match self {
            Json::Null => JsonView::Null,
            Json::Bool(b) => JsonView::Bool(*b),
            Json::Number(n) => number_view(*n),
            Json::Str(s) => JsonView::Str(s@),
            Json::Array(v) => JsonView::Array(json_views(v@)),
            Json::Object(v) => JsonView::Object(entries_map(member_views(v@))),
        }
    }
}

/// The trees of a list of values.
pub open spec fn json_views(v: Seq<Json>) -> Seq<JsonView>
    decreases v,
{
    Seq::new(
        v.len(),
        |i: int|
            if 0 <= i < v.len() {
                v[i].view()
            } else {
                JsonView::Null
            },
    )
}

/// The keys and trees of a list of members.
pub open spec fn member_views(v: Seq<(String, Json)>) -> Seq<(Seq<char>, JsonView)>
    decreases v,
{
    Seq::new(
        v.len(),
        |i: int|
            if 0 <= i < v.len() {
                (v[i].0@, v[i].1.view())
            } else {
                (Seq::<char>::empty(), JsonView::Null)
            },
    )
}

/// The map that a list of members stands for.
pub open spec fn members_map(v: Seq<(String, Json)>) -> Map<Seq<char>, JsonView> {
    entries_map(member_views(v))
}

/// The trees of a list with one more value behind it.
pub proof fn lemma_json_views_push(v: Seq<Json>, x: Json)
    ensures
        json_views(v.push(x)) == json_views(v).push(x@),
{
    assert(json_views(v.push(x)) =~= json_views(v).push(x@));
}

/// The keys and trees of a list with one more member behind it.
pub proof fn lemma_member_views_push(v: Seq<(String, Json)>, key: String, x: Json)
    ensures
        member_views(v.push((key, x))) == member_views(v).push((key@, x@)),
{
    assert(member_views(v.push((key, x))) =~= member_views(v).push((key@, x@)));
}

/// The map of a list with one more member behind it.
pub proof fn lemma_members_push(v: Seq<(String, Json)>, key: String, x: Json)
    ensures
        members_map(v.push((key, x))) == members_map(v).insert(key@, x@),
{
    let s = member_views(v.push((key, x)));
    assert(s.drop_last() =~= member_views(v));
}

/// A key is in the map of a list exactly where a member has it.
pub proof fn lemma_entries_absent(s: Seq<(Seq<char>, JsonView)>, key: Seq<char>)
    requires
        forall|i: int| 0 <= i < s.len() ==> (#[trigger] s[i]).0 != key,
    ensures
        !entries_map(s).dom().contains(key),
    decreases s.len(),
{
    if s.len() > 0 {
        assert(s[s.len() - 1].0 != key);
        assert forall|i: int| 0 <= i < s.drop_last().len() implies (#[trigger] s.drop_last()[i]).0
            != key by {
            assert(s[i].0 != key);
        }
        lemma_entries_absent(s.drop_last(), key);
    }
}

/// The last member with a key is the one that the map holds.
pub proof fn lemma_entries_last(s: Seq<(Seq<char>, JsonView)>, i: int)
    requires
        0 <= i < s.len(),
        forall|k: int| i < k < s.len() ==> (#[trigger] s[k]).0 != s[i].0,
    ensures
        entries_map(s).dom().contains(s[i].0),
        entries_map(s)[s[i].0] == s[i].1,
    decreases s.len(),
{
    if i < s.len() - 1 {
        assert(s[s.len() - 1].0 != s[i].0);
        let t = s.drop_last();
        assert forall|k: int| i < k < t.len() implies (#[trigger] t[k]).0 != t[i].0 by {
            assert(s[k].0 != s[i].0);
        }
        lemma_entries_last(t, i);
    }
}

/// Changing the last member with a key changes the map at that key.
proof fn lemma_entries_update(s: Seq<(Seq<char>, JsonView)>, i: int, x: JsonView)
    requires
        0 <= i < s.len(),
        forall|k: int| i < k < s.len() ==> (#[trigger] s[k]).0 != s[i].0,
    ensures
        entries_map(s.update(i, (s[i].0, x))) == entries_map(s).insert(s[i].0, x),
    decreases s.len(),
{
    let key = s[i].0;
    let u = s.update(i, (key, x));
    let t = s.drop_last();
    if i == s.len() - 1 {
        assert(u.drop_last() =~= t);
        assert(entries_map(u) =~= entries_map(s).insert(key, x));
    } else {
        assert(s[s.len() - 1].0 != key);
        assert forall|k: int| i < k < t.len() implies (#[trigger] t[k]).0 != t[i].0 by {
            assert(s[k].0 != s[i].0);
        }
        lemma_entries_update(t, i, x);
        assert(u.drop_last() =~= t.update(i, (key, x)));
        assert(entries_map(u) =~= entries_map(s).insert(key, x));
    }
}

/// The position of the last member with a key.
fn find_member(v: &Vec<(String, Json)>, key: &str) -> (r: Option<usize>)
    ensures
        match r {
            Some(i) => i < v@.len() && v@[i as int].0@ == key@ && forall|k: int|
                i < k < v@.len() ==> (#[trigger] v@[k]).0@ != key@,
            None => forall|k: int| 0 <= k < v@.len() ==> (#[trigger] v@[k]).0@ != key@,
        },
{
    let mut i: usize = v.len();
    while i > 0
        invariant
            i <= v@.len(),
            forall|k: int| i <= k < v@.len() ==> (#[trigger] v@[k]).0@ != key@,
        decreases i,
    {
        i = i - 1;
        if same_text(v[i].0.as_str(), key) {
            return Some(i);
        }
    }
    None
}

/// A list without members.
pub fn no_members() -> (r: Vec<(String, Json)>)
    ensures
        r@.len() == 0,
        members_map(r@) == Map::<Seq<char>, JsonView>::empty(),
{
    Vec::new()
}

/// Puts a value under a key, in place of the value that was there.
pub fn put(members: &mut Vec<(String, Json)>, key: &str, value: Json)
    ensures
        members_map(final(members)@) == members_map(old(members)@).insert(key@, value@),
{
    match find_member(members, key) {
        Some(i) => {
            let ghost s = member_views(members@);
            proof {
                assert forall|k: int| i < k < s.len() implies (#[trigger] s[k]).0 != s[i as int].0 by {
                    assert(members@[k].0@ != key@);
                }
                lemma_entries_update(s, i as int, value@);
            }
            let k: String = key.to_owned();
            members.set(i, (k, value));
            proof {
                assert(member_views(members@) =~= s.update(i as int, (key@, value@)));
            }
        },
        None => {
            let k: String = key.to_owned();
            proof {
                lemma_members_push(members@, k, value);
            }
            members.push((k, value));
        },
    }
}

impl Json {
    /// The member of an object under a key; `None` where there is none or the
    /// value is no object.
    pub fn get(&self, key: &str) -> (r: Option<&Json>)
        ensures
            match r {
                Some(v) => self@.get(key@) == Some(v@),
                None => self@.get(key@) is None,
            },
    {
        match self {
            Json::Object(v) => {
                let ghost s = member_views(v@);
                match find_member(v, key) {
                    Some(i) => {
                        proof {
                            assert forall|k: int| i < k < s.len() implies (#[trigger] s[k]).0
                                != s[i as int].0 by {
                                assert(v@[k].0@ != key@);
                            }
                            lemma_entries_last(s, i as int);
                            assert(self@ == JsonView::Object(members_map(v@)));
                        }
                        Some(&v[i].1)
                    },
                    None => {
                        proof {
                            assert forall|k: int| 0 <= k < s.len() implies (#[trigger] s[k]).0
                                != key@ by {
                                assert(v@[k].0@ != key@);
                            }
                            lemma_entries_absent(s, key@);
                            assert(self@ == JsonView::Object(members_map(v@)));
                        }
                        None
                    },
                }
            },
            _ => None,
        }
    }

    /// The text of a string.
    pub fn as_str(&self) -> (r: Option<&str>)
        ensures
            match r {
                Some(s) => self@.as_str() == Some(s@),
                None => self@.as_str() is None,
            },
    {
        match self {
            Json::Str(s) => Some(s.as_str()),
            _ => None,
        }
    }

    /// The value of an integer that is not negative.
    pub fn as_u64(&self) -> (r: Option<u64>)
        ensures
            match r {
                Some(n) => self@.as_u64() == Some(n as int),
                None => self@.as_u64() is None,
            },
    {
        match self {
            Json::Number(n) => n.as_u64(),
            _ => None,
        }
    }

    /// The items of an array.
    pub fn as_array(&self) -> (r: Option<&Vec<Json>>)
        ensures
            match r {
                Some(v) => self@.as_array() == Some(json_views(v@)),
                None => self@.as_array() is None,
            },
    {
        match self {
            Json::Array(v) => {
                proof {
                    assert(self@ == JsonView::Array(json_views(v@)));
                }
                Some(v)
            },
            _ => None,
        }
    }

    /// Whether the value is an object.
    pub fn is_object(&self) -> (r: bool)
        ensures
            r == (self@ is Object),
    {
        match self {
            Json::Object(_) => true,
            _ => false,
        }
    }

    /// Whether the value is null.
    pub fn is_null(&self) -> (r: bool)
        ensures
            r == (self@ is Null),
    {
        match self {
            Json::Null => true,
            _ => false,
        }
    }

    /// The text of the member under a key, where that member is a string.
    pub fn str_at(&self, key: &str) -> (r: Option<&str>)
        ensures
            match r {
                Some(s) => self@.str_at(key@) == Some(s@),
                None => self@.str_at(key@) is None,
            },
    {
        match self.get(key) {
            Some(v) => v.as_str(),
            None => None,
        }
    }

    /// The text of the member under the first of two keys that the object has,
    /// where that member is a string.
    pub fn str_at_either(&self, key: &str, other: &str) -> (r: Option<&str>)
        ensures
            match r {
                Some(s) => self@.str_at_either(key@, other@) == Some(s@),
                None => self@.str_at_either(key@, other@) is None,
            },
    {
        match self.get(key) {
            Some(v) => v.as_str(),
            None => self.str_at(other),
        }
    }

    /// The value of the member under a key, where that member is an integer that
    /// is not negative.
    pub fn u64_at(&self, key: &str) -> (r: Option<u64>)
        ensures
            match r {
                Some(n) => self@.u64_at(key@) == Some(n as int),
                None => self@.u64_at(key@) is None,
            },
    {
        match self.get(key) {
            Some(v) => v.as_u64(),
            None => None,
        }
    }

    /// The items of the member under a key, where that member is an array.
    pub fn array_at(&self, key: &str) -> (r: Option<&Vec<Json>>)
        ensures
            match r {
                Some(v) => self@.array_at(key@) == Some(json_views(v@)),
                None => self@.array_at(key@) is None,
            },
    {
        match self.get(key) {
            Some(v) => v.as_array(),
            None => None,
        }
    }

    /// A string value.
    pub fn text(s: &str) -> (r: Json)
        ensures
            r@ == JsonView::Str(s@),
    {
        Json::Str(s.to_owned())
    }

    /// A list of string values.
    pub fn texts(parts: &Vec<String>) -> (r: Json)
        ensures
            r@ == strs(views(parts@)),
    {
        let mut out: Vec<Json> = Vec::new();
        let ghost all = Seq::new(parts@.len(), |i: int| JsonView::Str(views(parts@)[i]));
        let mut i: usize = 0;
        while i < parts.len()
            invariant
                i <= parts@.len(),
                all == Seq::new(parts@.len(), |i: int| JsonView::Str(views(parts@)[i])),
                json_views(out@) == all.take(i as int),
            decreases parts@.len() - i,
        {
            let x = Json::Str(parts[i].clone());
            proof {
                lemma_json_views_push(out@, x);
                assert(all.take(i + 1) =~= all.take(i as int).push(x@));
            }
            out.push(x);
            i = i + 1;
        }
        proof {
            assert(all.take(i as int) =~= all);
        }
        Json::Array(out)
    }

    /// An integer value.
    pub fn uint(n: u64) -> (r: Json)
        ensures
            r@ == JsonView::Int(n as int),
    {
        Json::Number(number_of(n))
    }

    /// An integer value that may be negative.
    pub fn signed(n: i64) -> (r: Json)
        ensures
            r@ == JsonView::Int(n as int),
    {
        Json::Number(signed_number_of(n))
    }

    /// A copy of the value.
    pub fn copy(&self) -> (r: Json)
        ensures
            r@ == self@,
        decreases self,
    {
        match self {
            Json::Null => Json::Null,
            Json::Bool(b) => Json::Bool(*b),
            Json::Number(n) => Json::Number(n.clone()),
            Json::Str(s) => Json::Str(s.clone()),
            Json::Array(v) => {
                let mut out: Vec<Json> = Vec::new();
                let mut i: usize = 0;
                while i < v.len()
                    invariant
                        i <= v@.len(),
                        self == Json::Array(*v),
                        json_views(out@) == json_views(v@).take(i as int),
                    decreases v@.len() - i,
                {
                    proof {
                        assert(decreases_to!(*self => self->Array_0));
                        assert(decreases_to!(self->Array_0 => self->Array_0@));
                        assert(decreases_to!(v@ => v@[i as int]));
                    }
                    let x = v[i].copy();
                    proof {
                        lemma_json_views_push(out@, x);
                        assert(json_views(v@).take(i + 1) =~= json_views(v@).take(i as int).push(
                            v@[i as int]@,
                        ));
                    }
                    out.push(x);
                    i = i + 1;
                }
                proof {
                    assert(json_views(v@).take(i as int) =~= json_views(v@));
                    assert(self@ == JsonView::Array(json_views(v@)));
                }
                Json::Array(out)
            },
            Json::Object(v) => {
                let mut out: Vec<(String, Json)> = Vec::new();
                let mut i: usize = 0;
                while i < v.len()
                    invariant
                        i <= v@.len(),
                        self == Json::Object(*v),
                        member_views(out@) == member_views(v@).take(i as int),
                    decreases v@.len() - i,
                {
                    let k: String = v[i].0.clone();
                    proof {
                        assert(decreases_to!(*self => self->Object_0));
                        assert(decreases_to!(self->Object_0 => self->Object_0@));
                        assert(decreases_to!(v@ => v@[i as int]));
                        assert(decreases_to!(v@[i as int] => v@[i as int].1));
                    }
                    let x = v[i].1.copy();
                    proof {
                        lemma_member_views_push(out@, k, x);
                        assert(member_views(v@).take(i + 1) =~= member_views(v@).take(i as int).push(
                            (v@[i as int].0@, v@[i as int].1@),
                        ));
                    }
                    out.push((k, x));
                    i = i + 1;
                }
                proof {
                    assert(member_views(v@).take(i as int) =~= member_views(v@));
                    assert(self@ == JsonView::Object(members_map(v@)));
                }
                Json::Object(out)
            },
        }
    }
}

// ---------------------------------------------------------------------------
// Laws
// ---------------------------------------------------------------------------

/// What is read of an object under a key is what stands there, whatever it is: the value
/// itself, and its text, its number or its items where it is of that sort.
pub proof fn law_members_are_read(m: Map<Seq<char>, JsonView>, key: Seq<char>, other: Seq<char>)
    ensures
        !m.dom().contains(key) ==> JsonView::Object(m).get(key) is None,
        m.dom().contains(key) ==> JsonView::Object(m).get(key) == Some(m[key]),
        m.dom().contains(key) ==> (m[key] matches JsonView::Str(s) ==> JsonView::Object(m).str_at(
            key,
        ) == Some(s)),
        m.dom().contains(key) ==> (m[key] matches JsonView::Int(n) ==> JsonView::Object(m).u64_at(
            key,
        ) == (if 0 <= n <= u64::MAX {
            Some(n)
        } else {
            None
        })),
        m.dom().contains(key) ==> (m[key] matches JsonView::Array(a) ==> JsonView::Object(
            m,
        ).array_at(key) == Some(a)),
        !m.dom().contains(key) || !(m[key] is Str) ==> JsonView::Object(m).str_at(key) is None,
        !m.dom().contains(key) || !(m[key] is Int) ==> JsonView::Object(m).u64_at(key) is None,
        !m.dom().contains(key) || !(m[key] is Array) ==> JsonView::Object(m).array_at(key) is None,
        m.dom().contains(key) ==> JsonView::Object(m).str_at_either(key, other)
            == JsonView::Object(m).str_at(key),
        !m.dom().contains(key) ==> JsonView::Object(m).str_at_either(key, other)
            == JsonView::Object(m).str_at(other),
{
}

/// A value that is no object has no members.
pub proof fn law_only_objects_have_members(v: JsonView, key: Seq<char>)
    requires
        !(v is Object),
    ensures
        v.get(key) is None,
        v.str_at(key) is None,
        v.u64_at(key) is None,
        v.array_at(key) is None,
{
}

/// The members of a list that holds each key once are the list's members and no others.
pub proof fn law_listed_members(s: Seq<(Seq<char>, JsonView)>, key: Seq<char>)
    requires
        forall|i: int, j: int| 0 <= i < j < s.len() ==> (#[trigger] s[i]).0 != (#[trigger] s[j]).0,
    ensures
        forall|i: int|
            0 <= i < s.len() && (#[trigger] s[i]).0 == key ==> JsonView::Object(
                entries_map(s),
            ).get(key) == Some(s[i].1),
        (forall|i: int| 0 <= i < s.len() ==> (#[trigger] s[i]).0 != key) ==> JsonView::Object(
            entries_map(s),
        ).get(key) is None,
{
    assert forall|i: int| 0 <= i < s.len() && (#[trigger] s[i]).0 == key implies JsonView::Object(
        entries_map(s),
    ).get(key) == Some(s[i].1) by {
        lemma_entries_last(s, i);
    }
    if forall|i: int| 0 <= i < s.len() ==> (#[trigger] s[i]).0 != key {
        lemma_entries_absent(s, key);
    }
}

} // verus!
