//! JSON values as the library holds them.
use vstd::prelude::*;

use crate::text::same_text;

verus! {

/// A JSON number. A number that is no integer of 64 bits is kept by the bits of its
/// double-precision representation.
#[derive(Debug, Clone, Copy, PartialEq, Eq, Structural)]
pub enum Number {
    PosInt(u64),
    NegInt(i64),
    Float(u64),
}

/// A JSON value.
#[derive(Debug, PartialEq, Eq)]
pub enum Json {
    Null,
    Bool(bool),
    Number(Number),
    String(String),
    Array(Vec<Json>),
    Object(Vec<Member>),
}

/// One member of a JSON object.
#[derive(Debug, PartialEq, Eq)]
pub struct Member {
    pub name: String,
    pub value: Json,
}

/// The mathematical content of a JSON value.
pub enum JsonView {
    Null,
    Bool(bool),
    Number(Number),
    String(Seq<char>),
    Array(Seq<JsonView>),
    Object(Seq<(Seq<char>, JsonView)>),
}

impl View for Json {
    type V = JsonView;

    open spec fn view(&self) -> JsonView
        decreases self,
    {
        match self {
            Json::Null => JsonView::Null,
            Json::Bool(b) => JsonView::Bool(*b),
            Json::Number(n) => JsonView::Number(*n),
            Json::String(s) => JsonView::String(s@),
            Json::Array(items) => JsonView::Array(
                Seq::new(
                    items@.len(),
                    |i: int|
                        if 0 <= i < items@.len() {
                            items@[i].view()
                        } else {
                            JsonView::Null
                        },
                ),
            ),
            Json::Object(members) => JsonView::Object(
                Seq::new(
                    members@.len(),
                    |i: int|
                        if 0 <= i < members@.len() {
                            (members@[i].name@, members@[i].value.view())
                        } else {
                            (Seq::empty(), JsonView::Null)
                        },
                ),
            ),
        }
    }
}

/// The views of a vector of members.
pub open spec fn members_view(members: Seq<Member>) -> Seq<(Seq<char>, JsonView)> {
    Seq::new(members.len(), |i: int| (members[i].name@, members[i].value@))
}

/// The views of a vector of values.
pub open spec fn items_view(items: Seq<Json>) -> Seq<JsonView> {
    Seq::new(items.len(), |i: int| items[i]@)
}

/// The view of an array or an object, element by element.
pub proof fn lemma_view(value: &Json)
    ensures
        value matches Json::Array(items) ==> value@ == JsonView::Array(items_view(items@)),
        value matches Json::Object(members) ==> value@ == JsonView::Object(members_view(members@)),
{
    reveal_with_fuel(<Json as View>::view, 2);
    match value {
        Json::Array(items) => {
            assert(value@->Array_0 =~= items_view(items@));
        },
        Json::Object(members) => {
            assert(value@->Object_0 =~= members_view(members@));
        },
        _ => {},
    }
}

/// The value of the first member called `name`.
pub open spec fn first_named(
    members: Seq<(Seq<char>, JsonView)>,
    name: Seq<char>,
) -> Option<JsonView>
    decreases members.len(),
{
    if members.len() == 0 {
        None
    } else if members[0].0 == name {
        Some(members[0].1)
    } else {
        first_named(members.drop_first(), name)
    }
}

impl JsonView {
    /// The member called `name`, if this is an object that has one.
    pub open spec fn member(self, name: Seq<char>) -> Option<JsonView> {
        match self {
            JsonView::Object(members) => first_named(members, name),
            _ => None,
        }
    }

    /// The JSON Schema name of this value's type.
    pub open spec fn kind_name(self) -> Seq<char> {
        match self {
            JsonView::Null => "null"@,
            JsonView::Bool(_) => "boolean"@,
            JsonView::Number(Number::Float(_)) => "number"@,
            JsonView::Number(_) => "integer"@,
            JsonView::String(_) => "string"@,
            JsonView::Array(_) => "array"@,
            JsonView::Object(_) => "object"@,
        }
    }
}

/// What `first_named` gives is a member of that name, and it gives one wherever there is one.
pub proof fn lemma_first_named(members: Seq<(Seq<char>, JsonView)>, name: Seq<char>)
    ensures
        first_named(members, name) is Some <==> exists|i: int|
            0 <= i < members.len() && (#[trigger] members[i]).0 == name,
        first_named(members, name) matches Some(v) ==> exists|i: int|
            0 <= i < members.len() && #[trigger] members[i] == (name, v) && forall|j: int|
                0 <= j < i ==> (#[trigger] members[j]).0 != name,
    decreases members.len(),
{
    if members.len() > 0 && members[0].0 != name {
        let rest = members.drop_first();
        lemma_first_named(rest, name);
        if first_named(rest, name) is Some {
            let v = first_named(rest, name)->0;
            let k = choose|i: int|
                0 <= i < rest.len() && #[trigger] rest[i] == (name, v) && forall|j: int|
                    0 <= j < i ==> (#[trigger] rest[j]).0 != name;
            assert(members[k + 1] == (name, v));
            assert forall|j: int| 0 <= j < k + 1 implies (#[trigger] members[j]).0 != name by {
                if j > 0 {
                    assert(rest[j - 1] == members[j]);
                }
            }
        }
        if exists|i: int| 0 <= i < members.len() && (#[trigger] members[i]).0 == name {
            let i = choose|i: int| 0 <= i < members.len() && (#[trigger] members[i]).0 == name;
            assert(rest[i - 1] == members[i]);
        }
    } else if members.len() > 0 {
        assert(members[0] == (name, members[0].1));
    }
}

/// The first member called `name` stands at `i` where none before it has that name.
pub proof fn lemma_first_named_at(members: Seq<(Seq<char>, JsonView)>, name: Seq<char>, i: int)
    requires
        0 <= i < members.len(),
        members[i].0 == name,
        forall|j: int| 0 <= j < i ==> (#[trigger] members[j]).0 != name,
    ensures
        first_named(members, name) == Some(members[i].1),
    decreases i,
{
    if i > 0 {
        let rest = members.drop_first();
        assert(members[0].0 != name);
        assert(rest[i - 1] == members[i]);
        assert forall|j: int| 0 <= j < i - 1 implies (#[trigger] rest[j]).0 != name by {
            assert(rest[j] == members[j + 1]);
        }
        lemma_first_named_at(rest, name, i - 1);
    }
}

/// The place of the first member called `name`.
pub fn find_member(members: &Vec<Member>, name: &str) -> (r: Option<usize>)
    ensures
        match r {
            Some(i) => {
                &&& i < members.len()
                &&& members@[i as int].name@ == name@
                &&& first_named(members_view(members@), name@) == Some(members@[i as int].value@)
            },
            None => first_named(members_view(members@), name@) is None,
        },
{
    let ghost all = members_view(members@);
    let n: usize = members.len();
    let mut i: usize = 0;
    while i < n
        invariant
            n == members.len(),
            i <= n,
            all == members_view(members@),
            forall|j: int| 0 <= j < i ==> (#[trigger] all[j]).0 != name@,
        decreases n - i,
    {
        assert(all[i as int].0 == members@[i as int].name@);
        if same_text(members[i].name.as_str(), name) {
            proof {
                lemma_first_named_at(all, name@, i as int);
            }
            return Some(i);
        }
        i = i + 1;
    }
    proof {
        lemma_first_named(all, name@);
    }
    None
}

/// A deep copy of a vector of values.
fn clone_items(items: &Vec<Json>) -> (r: Vec<Json>)
    ensures
        items_view(r@) == items_view(items@),
    decreases items@,
{
    let mut out: Vec<Json> = Vec::new();
    let n: usize = items.len();
    let mut i: usize = 0;
    while i < n
        invariant
            n == items.len(),
            i <= n,
            out.len() == i,
            forall|j: int| 0 <= j < i ==> (#[trigger] out@[j])@ == items@[j]@,
        decreases n - i,
    {
        let copy: Json = clone_json(&items[i]);
        out.push(copy);
        i = i + 1;
    }
    assert(items_view(out@) =~= items_view(items@));
    out
}

/// A deep copy of a vector of members.
fn clone_members(members: &Vec<Member>) -> (r: Vec<Member>)
    ensures
        members_view(r@) == members_view(members@),
    decreases members@,
{
    let mut out: Vec<Member> = Vec::new();
    let n: usize = members.len();
    let mut i: usize = 0;
    while i < n
        invariant
            n == members.len(),
            i <= n,
            out.len() == i,
            forall|j: int|
                0 <= j < i ==> (#[trigger] out@[j]).name@ == members@[j].name@ && out@[j].value@
                    == members@[j].value@,
        decreases n - i,
    {
        let copy: Json = clone_json(&members[i].value);
        out.push(Member { name: members[i].name.clone(), value: copy });
        i = i + 1;
    }
    assert(members_view(out@) =~= members_view(members@));
    out
}

/// A deep copy of a value.
fn clone_json(value: &Json) -> (r: Json)
    ensures
        r@ == value@,
    decreases value,
{
    match value {
        Json::Null => Json::Null,
        Json::Bool(b) => Json::Bool(*b),
        Json::Number(n) => Json::Number(*n),
        Json::String(s) => Json::String(s.clone()),
        Json::Array(items) => {
            let copy: Vec<Json> = clone_items(items);
            let r: Json = Json::Array(copy);
            proof {
                lemma_view(&r);
                lemma_view(value);
            }
            r
        },
        Json::Object(members) => {
            let copy: Vec<Member> = clone_members(members);
            let r: Json = Json::Object(copy);
            proof {
                lemma_view(&r);
                lemma_view(value);
            }
            r
        },
    }
}

impl Clone for Json {
    fn clone(&self) -> (r: Json)
        ensures
            r@ == self@,
    {
        clone_json(self)
    }
}

impl Json {
    /// The empty object.
    pub fn empty_object() -> (r: Json)
        ensures
            r@ == JsonView::Object(Seq::empty()),
    {
        let r: Json = Json::Object(Vec::new());
        assert(r@->Object_0 =~= Seq::<(Seq<char>, JsonView)>::empty());
        r
    }

    /// The object with the given members.
    pub fn object(members: Vec<Member>) -> (r: Json)
        ensures
            r@ == JsonView::Object(members_view(members@)),
    {
        let r: Json = Json::Object(members);
        proof {
            lemma_view(&r);
        }
        r
    }

    /// The array with the given elements.
    pub fn array(items: Vec<Json>) -> (r: Json)
        ensures
            r@ == JsonView::Array(items_view(items@)),
    {
        let r: Json = Json::Array(items);
        proof {
            lemma_view(&r);
        }
        r
    }

    /// The object whose one member has the given name and value.
    pub fn singleton(name: &str, value: Json) -> (r: Json)
        ensures
            r@ == JsonView::Object(seq![(name@, value@)]),
    {
        let mut members: Vec<Member> = Vec::new();
        members.push(Member { name: name.to_owned(), value });
        assert(members_view(members@) =~= seq![(name@, value@)]);
        Json::object(members)
    }

    /// The members, if this is an object.
    pub fn as_object(&self) -> (r: Option<&Vec<Member>>)
        ensures
            r is Some <==> self@ is Object,
            r matches Some(members) ==> self@ == JsonView::Object(members_view(members@)),
    {
        match self {
            Json::Object(members) => {
                proof {
                    lemma_view(self);
                }
                Some(members)
            },
            _ => None,
        }
    }

    /// The elements, if this is an array.
    pub fn as_array(&self) -> (r: Option<&Vec<Json>>)
        ensures
            r is Some <==> self@ is Array,
            r matches Some(items) ==> self@ == JsonView::Array(items_view(items@)),
    {
        match self {
            Json::Array(items) => {
                proof {
                    lemma_view(self);
                }
                Some(items)
            },
            _ => None,
        }
    }

    /// The text, if this is a string.
    pub fn as_str(&self) -> (r: Option<&str>)
        ensures
            r is Some <==> self@ is String,
            r matches Some(text) ==> self@ == JsonView::String(text@),
    {
        match self {
            Json::String(s) => Some(s.as_str()),
            _ => None,
        }
    }

    /// The member called `name`, if this is an object that has one.
    pub fn get(&self, name: &str) -> (r: Option<&Json>)
        ensures
            r is Some <==> self@.member(name@) is Some,
            r matches Some(value) ==> self@.member(name@) == Some(value@),
    {
        match self.as_object() {
            Some(members) => match find_member(members, name) {
                Some(i) => Some(&members[i].value),
                None => None,
            },
            None => None,
        }
    }
}

/// The JSON Schema name of a value's type.
pub fn json_type_name(value: &Json) -> (r: &'static str)
    ensures
        r@ == value@.kind_name(),
{
    match value {
        Json::Null => "null",
        Json::Bool(_) => "boolean",
        Json::Number(n) => match n {
            Number::Float(_) => "number",
            Number::PosInt(_) => "integer",
            Number::NegInt(_) => "integer",
        },
        Json::String(_) => "string",
        Json::Array(_) => "array",
        Json::Object(_) => "object",
    }
}

} // verus!
