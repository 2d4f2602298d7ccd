//! The schema registry: versioned contracts for entity states, checked when they are registered
//! and when a state is published.
use vstd::prelude::*;
use vstd::string::*;

use crate::dict::Dict;
use crate::error::{Result, StrunkError};
use crate::json::{
    find_member, first_named, items_view, json_type_name, members_view, Json, JsonView, Member,
};
use crate::number::{compare_versions, version_order, VersionOrder};
use crate::store::{SchemaRow, Store};
use crate::text::same_text;
use crate::time::Timestamp;

verus! {

/// One field of a schema.
#[derive(Debug)]
pub struct FieldDef {
    pub field_type: String,
    pub required: bool,
}

/// The mathematical content of a field.
pub struct FieldView {
    pub field_type: Seq<char>,
    pub required: bool,
}

impl View for FieldDef {
    type V = FieldView;

    open spec fn view(&self) -> FieldView {
        FieldView { field_type: self.field_type@, required: self.required }
    }
}

/// The fields that a schema version asks for, by name.
pub type SchemaView = Map<Seq<char>, FieldView>;

/// One version of an entity's schema.
#[derive(Debug)]
pub struct SchemaVersion {
    fields: Dict<String, FieldDef>,
}

impl View for SchemaVersion {
    type V = SchemaView;

    closed spec fn view(&self) -> SchemaView {
        self.fields@.map_values(|f: FieldDef| f@)
    }
}

/// Whether `name` stands in the `required` list of a schema document.
pub open spec fn lists_required(schema: JsonView, name: Seq<char>) -> bool {
    schema.member("required"@) matches Some(JsonView::Array(items)) && items.contains(
        JsonView::String(name),
    )
}

/// The type that a property declares; `any` where it declares none.
pub open spec fn declared_type(def: JsonView) -> Seq<char> {
    match def.member("type"@) {
        Some(JsonView::String(t)) => t,
        _ => "any"@,
    }
}

/// The schema that a schema document writes down, if it has a `properties` object.
pub open spec fn schema_of(schema: JsonView) -> Option<SchemaView> {
    match schema.member("properties"@) {
        Some(JsonView::Object(properties)) => Some(
            Map::new(
                |name: Seq<char>| first_named(properties, name) is Some,
                |name: Seq<char>|
                    FieldView {
                        field_type: declared_type(first_named(properties, name)->0),
                        required: lists_required(schema, name),
                    },
            ),
        ),
        _ => None,
    }
}

/// A way in which a new version of a schema breaks with the one before it.
pub enum Break {
    /// A required field is gone.
    Removed { name: Seq<char> },
    /// A field has another type.
    Retyped { name: Seq<char>, old_type: Seq<char>, new_type: Seq<char> },
    /// A field that did not exist is required.
    NewRequired { name: Seq<char> },
}

impl Break {
    /// Whether `new` breaks with `old` in this way.
    pub open spec fn occurs(self, old_schema: SchemaView, new_schema: SchemaView) -> bool {
        match self {
            Break::Removed { name } => {
                &&& old_schema.contains_key(name)
                &&& old_schema[name].required
                &&& !new_schema.contains_key(name)
            },
            Break::Retyped { name, old_type, new_type } => {
                &&& old_schema.contains_key(name)
                &&& new_schema.contains_key(name)
                &&& old_type == old_schema[name].field_type
                &&& new_type == new_schema[name].field_type
                &&& old_type != new_type
            },
            Break::NewRequired { name } => {
                &&& new_schema.contains_key(name)
                &&& new_schema[name].required
                &&& !old_schema.contains_key(name)
            },
        }
    }

    /// How the break is reported.
    pub open spec fn text(self) -> Seq<char> {
        match self {
            Break::Removed { name } => "required field '"@ + name
                + "' was removed, breaking backward compatibility"@,
            Break::Retyped { name, old_type, new_type } => "field '"@ + name
                + "' changed type from '"@ + old_type + "' to '"@ + new_type
                + "', breaking backward compatibility"@,
            Break::NewRequired { name } => "new field '"@ + name
                + "' is required but did not exist in the previous version, breaking backward compatibility"@,
        }
    }
}

/// Whether `new` breaks with `old` in no way.
pub open spec fn compatible(old_schema: SchemaView, new_schema: SchemaView) -> bool {
    forall|b: Break| !(#[trigger] b.occurs(old_schema, new_schema))
}

/// A way in which a payload fails a schema.
pub enum Fault {
    /// The payload is no object.
    NotObject,
    /// A required field is missing.
    Missing { name: Seq<char> },
    /// A field holds a value of another type.
    Mistyped { name: Seq<char>, expected: Seq<char>, actual: Seq<char> },
}

impl Fault {
    /// Whether the payload fails the schema in this way.
    pub open spec fn occurs(self, schema: SchemaView, payload: JsonView) -> bool {
        match self {
            Fault::NotObject => !(payload is Object),
            Fault::Missing { name } => {
                &&& payload is Object
                &&& schema.contains_key(name)
                &&& schema[name].required
                &&& payload.member(name) is None
            },
            Fault::Mistyped { name, expected, actual } => {
                &&& payload is Object
                &&& schema.contains_key(name)
                &&& expected == schema[name].field_type
                &&& payload.member(name) is Some
                &&& actual == payload.member(name)->0.kind_name()
                &&& actual != "null"@
                &&& actual != expected
                &&& expected != "any"@
            },
        }
    }

    /// How the fault is reported.
    pub open spec fn text(self) -> Seq<char> {
        match self {
            Fault::NotObject => "payload must be a JSON object"@,
            Fault::Missing { name } => "required field '"@ + name + "' missing from payload"@,
            Fault::Mistyped { name, expected, actual } => "field '"@ + name + "' expected type '"@
                + expected + "' but got '"@ + actual + "'"@,
        }
    }
}

/// Whether a payload meets a schema.
pub open spec fn valid(schema: SchemaView, payload: JsonView) -> bool {
    forall|f: Fault| !(#[trigger] f.occurs(schema, payload))
}

/// Whether a payload was checked against a schema. What is wrong is said of one of its faults.
pub open spec fn payload_checked(
    schema: SchemaView,
    payload: JsonView,
    r: std::result::Result<(), String>,
) -> bool {
    &&& r is Ok <==> valid(schema, payload)
    &&& (r matches Err(message) ==> exists|f: Fault| #[trigger]
        f.occurs(schema, payload) && message@ == f.text())
}

impl SchemaVersion {
    pub closed spec fn wf(self) -> bool {
        self.fields.wf()
    }

    /// Reads a schema document.
    pub fn from_json(schema: &Json) -> (r: Option<SchemaVersion>)
        ensures
            r is Some <==> schema_of(schema@) is Some,
            r matches Some(s) ==> s.wf() && schema_of(schema@) == Some(s@),
    {
        let properties: &Vec<Member> = match schema.get("properties") {
            Some(p) => match p.as_object() {
                Some(members) => members,
                None => {
                    return None;
                },
            },
            None => {
                return None;
            },
        };
        let ghost props = members_view(properties@);
        let mut fields: Dict<String, FieldDef> = Dict::new();
        let n: usize = properties.len();
        let mut i: usize = 0;
        while i < n
            invariant
                n == properties.len(),
                i <= n,
                props == members_view(properties@),
                schema@.member("properties"@) == Some(JsonView::Object(props)),
                fields.wf(),
                forall|name: Seq<char>| #[trigger]
                    fields@.contains_key(name) <==> exists|j: int|
                        0 <= j < i && (#[trigger] props[j]).0 == name,
                forall|name: Seq<char>| #[trigger]
                    fields@.contains_key(name) ==> first_named(props, name) is Some
                        && fields@[name]@ == (FieldView {
                        field_type: declared_type(first_named(props, name)->0),
                        required: lists_required(schema@, name),
                    }),
            decreases n - i,
        {
            let member: &Member = &properties[i];
            assert(props[i as int] == (member.name@, member.value@));
            if !fields.contains_key(&member.name) {
                let field_type: String = declared(&member.value);
                let required: bool = is_listed(schema, member.name.as_str());
                proof {
                    assert forall|j: int| 0 <= j < i implies (#[trigger] props[j]).0
                        != member.name@ by {}
                    crate::json::lemma_first_named_at(props, member.name@, i as int);
                }
                let ghost before = fields@;
                fields.insert(member.name.clone(), FieldDef { field_type, required });
                proof {
                    assert forall|name: Seq<char>| #[trigger]
                        fields@.contains_key(name) <==> exists|j: int|
                            0 <= j < i + 1 && (#[trigger] props[j]).0 == name by {
                        if before.contains_key(name) {
                            let j = choose|j: int| 0 <= j < i && (#[trigger] props[j]).0 == name;
                            assert(0 <= j < i + 1 && props[j].0 == name);
                        }
                        if name == member.name@ {
                            assert(props[i as int].0 == name);
                        }
                        if exists|j: int| 0 <= j < i + 1 && (#[trigger] props[j]).0 == name {
                            let j = choose|j: int|
                                0 <= j < i + 1 && (#[trigger] props[j]).0 == name;
                            if j < i {
                                assert(before.contains_key(name));
                            }
                        }
                    }
                }
            }
            i = i + 1;
        }
        let r: SchemaVersion = SchemaVersion { fields };
        proof {
            let expected = schema_of(schema@)->0;
            assert forall|name: Seq<char>| r@.contains_key(name) <==> expected.contains_key(
                name,
            ) by {
                crate::json::lemma_first_named(props, name);
                assert(fields@.contains_key(name) <==> exists|j: int|
                    0 <= j < n && (#[trigger] props[j]).0 == name);
            }
            assert(r@ =~= expected);
        }
        Some(r)
    }

    /// Checks that `new` can take the place of this version.
    pub fn check_backward_compatible(&self, new: &SchemaVersion) -> (r: std::result::Result<
        (),
        String,
    >)
        requires
            self.wf(),
            new.wf(),
        ensures
            r is Ok <==> compatible(self@, new@),
            r matches Err(message) ==> exists|b: Break|
                #[trigger] b.occurs(self@, new@) && message@ == b.text() && (b is NewRequired
                    ==> forall|other: Break| #[trigger]
                    other.occurs(self@, new@) ==> other is NewRequired),
    {
        let n: usize = self.fields.len();
        let mut i: usize = 0;
        while i < n
            invariant
                self.wf(),
                new.wf(),
                n == self.fields.size(),
                i <= n,
                forall|j: int, b: Break|
                    0 <= j < i && #[trigger] b.occurs(self@, new@) && (b is Removed
                        || b is Retyped) ==> break_name(b) != #[trigger] self.fields.key(j),
            decreases n - i,
        {
            let name: &String = self.fields.key_at(i);
            let old_field: &FieldDef = self.fields.value_at(i);
            assert(self@.contains_key(name@));
            assert(self@[name@] == old_field@);
            match new.fields.get(name) {
                None => {
                    assert(!new@.contains_key(name@));
                    if old_field.required {
                        let ghost b = Break::Removed { name: name@ };
                        assert(b.occurs(self@, new@));
                        let message: String = "required field '".to_owned().concat(
                            name.as_str(),
                        ).concat("' was removed, breaking backward compatibility");
                        assert(message@ == b.text());
                        return Err(message);
                    }
                },
                Some(new_field) => {
                    assert(new@.contains_key(name@));
                    assert(new@[name@] == new_field@);
                    if !same_text(old_field.field_type.as_str(), new_field.field_type.as_str()) {
                        let ghost b = Break::Retyped {
                            name: name@,
                            old_type: old_field.field_type@,
                            new_type: new_field.field_type@,
                        };
                        assert(b.occurs(self@, new@));
                        let message: String = "field '".to_owned().concat(name.as_str()).concat(
                            "' changed type from '",
                        ).concat(old_field.field_type.as_str()).concat("' to '").concat(
                            new_field.field_type.as_str(),
                        ).concat("', breaking backward compatibility");
                        assert(message@ == b.text());
                        return Err(message);
                    }
                },
            }
            i = i + 1;
        }
        assert forall|b: Break| #[trigger] b.occurs(self@, new@) implies b is NewRequired by {
            if b is Removed || b is Retyped {
                let k = self.fields.lemma_key(break_name(b));
                assert(break_name(b) != self.fields.key(k));
            }
        }
        let m: usize = new.fields.len();
        let mut k: usize = 0;
        while k < m
            invariant
                self.wf(),
                new.wf(),
                m == new.fields.size(),
                k <= m,
                forall|b: Break| #[trigger] b.occurs(self@, new@) ==> b is NewRequired,
                forall|j: int, b: Break|
                    0 <= j < k && #[trigger] b.occurs(self@, new@) ==> break_name(b)
                        != #[trigger] new.fields.key(j),
            decreases m - k,
        {
            let name: &String = new.fields.key_at(k);
            let new_field: &FieldDef = new.fields.value_at(k);
            assert(new@.contains_key(name@));
            assert(new@[name@] == new_field@);
            if new_field.required && !self.fields.contains_key(name) {
                let ghost b = Break::NewRequired { name: name@ };
                assert(b.occurs(self@, new@));
                let message: String = "new field '".to_owned().concat(name.as_str()).concat(
                    "' is required but did not exist in the previous version, breaking backward compatibility",
                );
                assert(message@ == b.text());
                return Err(message);
            }
            k = k + 1;
        }
        assert forall|b: Break| !(#[trigger] b.occurs(self@, new@)) by {
            if b.occurs(self@, new@) {
                let j = new.fields.lemma_key(break_name(b));
                assert(break_name(b) != new.fields.key(j));
            }
        }
        Ok(())
    }

    /// Checks a payload against this version.
    pub fn check_payload(&self, payload: &Json) -> (r: std::result::Result<(), String>)
        requires
            self.wf(),
        ensures
            payload_checked(self@, payload@, r),
    {
        let members: &Vec<Member> = match payload.as_object() {
            Some(members) => members,
            None => {
                let ghost f = Fault::NotObject;
                assert(f.occurs(self@, payload@));
                return Err("payload must be a JSON object".to_owned());
            },
        };
        let n: usize = self.fields.len();
        let mut i: usize = 0;
        while i < n
            invariant
                self.wf(),
                n == self.fields.size(),
                i <= n,
                payload@ == JsonView::Object(members_view(members@)),
                forall|j: int, f: Fault|
                    0 <= j < i && #[trigger] f.occurs(self@, payload@) ==> fault_name(f)
                        != #[trigger] self.fields.key(j),
            decreases n - i,
        {
            let name: &String = self.fields.key_at(i);
            let field: &FieldDef = self.fields.value_at(i);
            assert(self@.contains_key(name@));
            assert(self@[name@] == field@);
            match find_member(members, name.as_str()) {
                None => {
                    if field.required {
                        let ghost f = Fault::Missing { name: name@ };
                        assert(f.occurs(self@, payload@));
                        let message: String = "required field '".to_owned().concat(
                            name.as_str(),
                        ).concat("' missing from payload");
                        assert(message@ == f.text());
                        return Err(message);
                    }
                },
                Some(at) => {
                    let actual: &str = json_type_name(&members[at].value);
                    if !same_text(actual, "null") && !same_text(actual, field.field_type.as_str())
                        && !same_text(field.field_type.as_str(), "any") {
                        let ghost f = Fault::Mistyped {
                            name: name@,
                            expected: field.field_type@,
                            actual: actual@,
                        };
                        assert(f.occurs(self@, payload@));
                        let message: String = "field '".to_owned().concat(name.as_str()).concat(
                            "' expected type '",
                        ).concat(field.field_type.as_str()).concat("' but got '").concat(
                            actual,
                        ).concat("'");
                        assert(message@ == f.text());
                        return Err(message);
                    }
                },
            }
            i = i + 1;
        }
        assert forall|f: Fault| !(#[trigger] f.occurs(self@, payload@)) by {
            if f.occurs(self@, payload@) {
                let j = self.fields.lemma_key(fault_name(f));
                assert(fault_name(f) != self.fields.key(j));
            }
        }
        Ok(())
    }
}

/// Whether `document` writes down `schema`: an object type, each field with its type under
/// `properties`, and exactly the required names under `required`.
pub open spec fn documents(document: JsonView, schema: SchemaView) -> bool {
    &&& document is Object
    &&& document->Object_0.len() == 3
    &&& document.member("type"@) == Some(JsonView::String("object"@))
    &&& document.member("properties"@) matches Some(JsonView::Object(properties))
    &&& document.member("required"@) matches Some(JsonView::Array(required))
    &&& forall|name: Seq<char>| #[trigger]
        first_named(properties, name) == if schema.contains_key(name) {
            Some(
                JsonView::Object(seq![("type"@, JsonView::String(schema[name].field_type))]),
            )
        } else {
            None
        }
    &&& required.no_duplicates()
    &&& forall|v: JsonView| #[trigger]
        required.contains(v) <==> exists|name: Seq<char>| #[trigger]
            schema.contains_key(name) && schema[name].required && v == JsonView::String(name)
}

/// Writes a schema down as a document.
pub fn schema_to_json(schema: &SchemaVersion) -> (r: Json)
    requires
        schema.wf(),
    ensures
        documents(r@, schema@),
{
    let mut properties: Vec<Member> = Vec::new();
    let mut required: Vec<Json> = Vec::new();
    let n: usize = schema.fields.len();
    let mut i: usize = 0;
    while i < n
        invariant
            schema.wf(),
            n == schema.fields.size(),
            i <= n,
            properties.len() == i,
            forall|j: int|
                0 <= j < i ==> (#[trigger] members_view(properties@)[j]) == (
                    schema.fields.key(j),
                    JsonView::Object(
                        seq![
                            (
                                "type"@,
                                JsonView::String(schema@[schema.fields.key(j)].field_type),
                            ),
                        ],
                    ),
                ),
            items_view(required@).no_duplicates(),
            forall|v: JsonView| #[trigger]
                items_view(required@).contains(v) <==> exists|j: int|
                    0 <= j < i && v == JsonView::String(#[trigger] schema.fields.key(j))
                        && schema@[schema.fields.key(j)].required,
        decreases n - i,
    {
        let name: &String = schema.fields.key_at(i);
        let field: &FieldDef = schema.fields.value_at(i);
        assert(schema@[name@] == field@);
        let def: Json = Json::singleton("type", Json::String(field.field_type.clone()));
        let ghost before = members_view(properties@);
        properties.push(Member { name: name.clone(), value: def });
        assert(members_view(properties@) =~= before.push((name@, def@)));
        let ghost listed = items_view(required@);
        if field.required {
            required.push(Json::String(name.clone()));
            let ghost v0 = JsonView::String(name@);
            proof {
                assert(items_view(required@) =~= listed.push(v0));
                if listed.contains(v0) {
                    let j = choose|j: int|
                        0 <= j < i && v0 == JsonView::String(#[trigger] schema.fields.key(j))
                            && schema@[schema.fields.key(j)].required;
                    schema.fields.lemma_distinct(j, i as int);
                }
                assert forall|a: int, b: int|
                    0 <= a < listed.push(v0).len() && 0 <= b < listed.push(v0).len() && a
                        != b implies listed.push(v0)[a] != listed.push(v0)[b] by {
                    if a == listed.len() {
                        assert(listed.contains(listed[b]));
                    } else if b == listed.len() {
                        assert(listed.contains(listed[a]));
                    }
                }
            }
        }
        proof {
            let now = items_view(required@);
            assert forall|v: JsonView| #[trigger] now.contains(v) <==> exists|j: int|
                0 <= j < i + 1 && v == JsonView::String(#[trigger] schema.fields.key(j))
                    && schema@[schema.fields.key(j)].required by {
                if listed.contains(v) {
                    let j = choose|j: int|
                        0 <= j < i && v == JsonView::String(#[trigger] schema.fields.key(j))
                            && schema@[schema.fields.key(j)].required;
                    assert(0 <= j < i + 1 && v == JsonView::String(schema.fields.key(j)));
                    let at = choose|at: int| 0 <= at < listed.len() && listed[at] == v;
                    assert(now[at] == v);
                }
                if exists|j: int|
                    0 <= j < i + 1 && v == JsonView::String(#[trigger] schema.fields.key(j))
                        && schema@[schema.fields.key(j)].required {
                    let j = choose|j: int|
                        0 <= j < i + 1 && v == JsonView::String(#[trigger] schema.fields.key(j))
                            && schema@[schema.fields.key(j)].required;
                    if j == i {
                        assert(now[now.len() - 1] == v);
                    } else {
                        assert(listed.contains(v));
                    }
                }
                if now.contains(v) && !listed.contains(v) {
                    let at = choose|at: int| 0 <= at < now.len() && now[at] == v;
                    if at < listed.len() {
                        assert(listed[at] == v);
                    }
                    assert(v == JsonView::String(schema.fields.key(i as int)));
                }
            }
        }
        i = i + 1;
    }
    let ghost props = members_view(properties@);
    let ghost names = items_view(required@);
    let mut members: Vec<Member> = Vec::new();
    members.push(Member { name: "type".to_owned(), value: Json::String("object".to_owned()) });
    members.push(Member { name: "properties".to_owned(), value: Json::object(properties) });
    members.push(Member { name: "required".to_owned(), value: Json::array(required) });
    let r: Json = Json::object(members);
    proof {
        reveal_strlit("type");
        reveal_strlit("properties");
        reveal_strlit("required");
        let all = r@->Object_0;
        assert(all[0].0.len() == 4 && all[1].0.len() == 10 && all[2].0.len() == 8);
        crate::json::lemma_first_named_at(all, "type"@, 0);
        crate::json::lemma_first_named_at(all, "properties"@, 1);
        crate::json::lemma_first_named_at(all, "required"@, 2);
        assert forall|name: Seq<char>| #[trigger] first_named(props, name)
            == if schema@.contains_key(name) {
            Some(JsonView::Object(seq![("type"@, JsonView::String(schema@[name].field_type))]))
        } else {
            None
        } by {
            crate::json::lemma_first_named(props, name);
            if schema@.contains_key(name) {
                let k = schema.fields.lemma_key(name);
                assert(props[k].0 == name);
                let v = first_named(props, name)->0;
                let j = choose|j: int| 0 <= j < props.len() && #[trigger] props[j] == (name, v);
                assert(schema.fields.key(j) == name);
            } else if first_named(props, name) is Some {
                let j = choose|j: int| 0 <= j < props.len() && (#[trigger] props[j]).0 == name;
                schema.fields.lemma_position(j);
            }
        }
        assert forall|v: JsonView| #[trigger] names.contains(v) <==> exists|name: Seq<char>|
            #[trigger] schema@.contains_key(name) && schema@[name].required && v
                == JsonView::String(name) by {
            if names.contains(v) {
                let j = choose|j: int|
                    0 <= j < n && v == JsonView::String(#[trigger] schema.fields.key(j))
                        && schema@[schema.fields.key(j)].required;
                schema.fields.lemma_position(j);
                assert(schema@.contains_key(schema.fields.key(j)));
            }
            if exists|name: Seq<char>| #[trigger]
                schema@.contains_key(name) && schema@[name].required && v == JsonView::String(
                    name,
                ) {
                let name = choose|name: Seq<char>| #[trigger]
                    schema@.contains_key(name) && schema@[name].required && v
                        == JsonView::String(name);
                let k = schema.fields.lemma_key(name);
                assert(v == JsonView::String(schema.fields.key(k)));
            }
        }
    }
    r
}

/// Reading back a document that writes a schema down gives that schema.
pub proof fn document_reads_back(document: JsonView, schema: SchemaView)
    requires
        documents(document, schema),
    ensures
        schema_of(document) == Some(schema),
{
    let properties = document.member("properties"@)->0->Object_0;
    let required = document.member("required"@)->0->Array_0;
    let read = schema_of(document)->0;
    assert forall|name: Seq<char>| read.contains_key(name) <==> schema.contains_key(name) by {
        let _ = first_named(properties, name);
    }
    assert forall|name: Seq<char>| schema.contains_key(name) implies #[trigger] read[name]
        == schema[name] by {
        let def = first_named(properties, name)->0;
        crate::json::lemma_first_named_at(def->Object_0, "type"@, 0);
        if schema[name].required {
            assert(required.contains(JsonView::String(name)));
        } else if required.contains(JsonView::String(name)) {
            let other = choose|other: Seq<char>| #[trigger]
                schema.contains_key(other) && schema[other].required && JsonView::String(name)
                    == JsonView::String(other);
        }
    }
    assert(read =~= schema);
}

/// Every schema can take its own place.
pub proof fn compatible_with_itself(schema: SchemaView)
    ensures
        compatible(schema, schema),
{
}

/// Adding an optional field is compatible.
pub proof fn optional_field_is_compatible(
    schema: SchemaView,
    name: Seq<char>,
    field_type: Seq<char>,
)
    requires
        !schema.contains_key(name),
    ensures
        compatible(schema, schema.insert(name, FieldView { field_type, required: false })),
{
}

/// Adding a required field, removing one, or changing a field's type is not compatible.
pub proof fn breaking_changes_are_incompatible(
    schema: SchemaView,
    name: Seq<char>,
    field: FieldView,
)
    ensures
        !schema.contains_key(name) && field.required ==> !compatible(
            schema,
            schema.insert(name, field),
        ),
        schema.contains_key(name) && schema[name].required ==> !compatible(
            schema,
            schema.remove(name),
        ),
        schema.contains_key(name) && schema[name].field_type != field.field_type ==> !compatible(
            schema,
            schema.insert(name, field),
        ),
{
    if !schema.contains_key(name) && field.required {
        assert(Break::NewRequired { name }.occurs(schema, schema.insert(name, field)));
    }
    if schema.contains_key(name) && schema[name].required {
        assert(Break::Removed { name }.occurs(schema, schema.remove(name)));
    }
    if schema.contains_key(name) && schema[name].field_type != field.field_type {
        assert(Break::Retyped {
            name,
            old_type: schema[name].field_type,
            new_type: field.field_type,
        }.occurs(schema, schema.insert(name, field)));
    }
}

/// A payload that met a schema and lacks a field still meets it with that field added as optional.
pub proof fn payload_survives_optional_field(
    schema: SchemaView,
    payload: JsonView,
    name: Seq<char>,
    field_type: Seq<char>,
)
    requires
        valid(schema, payload),
        payload.member(name) is None,
    ensures
        valid(schema.insert(name, FieldView { field_type, required: false }), payload),
{
    let wider = schema.insert(name, FieldView { field_type, required: false });
    assert forall|f: Fault| !(#[trigger] f.occurs(wider, payload)) by {
        if f.occurs(wider, payload) {
            assert(f.occurs(schema, payload));
        }
    }
}

/// What a registry holds: the versions of each entity type's schema.
pub type RegistryView = Map<Seq<char>, Map<Seq<char>, SchemaView>>;

/// The schemas of all entity types.
pub struct SchemaRegistry {
    schemas: Dict<String, Dict<String, SchemaVersion>>,
}

impl View for SchemaRegistry {
    type V = RegistryView;

    closed spec fn view(&self) -> RegistryView {
        self.schemas@.map_values(
            |versions: Dict<String, SchemaVersion>| versions@.map_values(|s: SchemaVersion| s@),
        )
    }
}

/// Whether no registered version is newer than `version`.
pub open spec fn is_latest(versions: Map<Seq<char>, SchemaView>, version: Seq<char>) -> bool {
    &&& versions.contains_key(version)
    &&& forall|other: Seq<char>| #[trigger]
        versions.contains_key(other) ==> !(version_order(other, version) is Newer)
}

/// The versions that are registered for an entity type.
pub open spec fn versions_of(registry: RegistryView, entity_type: Seq<char>) -> Map<
    Seq<char>,
    SchemaView,
> {
    if registry.contains_key(entity_type) {
        registry[entity_type]
    } else {
        Map::empty()
    }
}

/// The registry with one more version.
pub open spec fn with_version(
    registry: RegistryView,
    entity_type: Seq<char>,
    version: Seq<char>,
    schema: SchemaView,
) -> RegistryView {
    registry.insert(entity_type, versions_of(registry, entity_type).insert(version, schema))
}

/// Whether a version was registered, or what was wrong. It must not break with the latest version
/// that is there. Where several versions count as latest, any of them may be the one compared. A new
/// required field is what is wrong only if no field was removed or retyped.
pub open spec fn registration(
    before: RegistryView,
    after: RegistryView,
    r: Result<()>,
    entity_type: Seq<char>,
    version: Seq<char>,
    schema: JsonView,
) -> bool {
    let versions = versions_of(before, entity_type);
    match schema_of(schema) {
        None => {
            &&& r is Err
            &&& r->Err_0 is Config
            &&& r->Err_0.text() == "schema must have 'properties' object with typed fields"@
            &&& after == before
        },
        Some(parsed) => match r {
            Ok(()) => {
                &&& after == with_version(before, entity_type, version, parsed)
                &&& versions.is_empty() || exists|latest: Seq<char>| #[trigger]
                    is_latest(versions, latest) && compatible(versions[latest], parsed)
            },
            Err(e) => {
                &&& e is Config
                &&& after == before
                &&& exists|latest: Seq<char>, b: Break|
                    #![trigger is_latest(versions, latest), b.text()]
                    is_latest(versions, latest) && b.occurs(versions[latest], parsed) && e.text()
                        == b.text() && (b is NewRequired ==> forall|other: Break| #[trigger]
                        other.occurs(versions[latest], parsed) ==> other is NewRequired)
            },
        },
    }
}

/// Whether a payload meets a registered version.
pub open spec fn accepts(
    registry: RegistryView,
    entity_type: Seq<char>,
    version: Seq<char>,
    payload: JsonView,
) -> bool {
    &&& registry.contains_key(entity_type)
    &&& registry[entity_type].contains_key(version)
    &&& valid(registry[entity_type][version], payload)
}

/// Whether an error says why a payload is not accepted.
pub open spec fn refusal(
    registry: RegistryView,
    entity_type: Seq<char>,
    version: Seq<char>,
    payload: JsonView,
    e: StrunkError,
) -> bool {
    e is Config && if !registry.contains_key(entity_type) {
        e.text() == "no schemas registered for entity type '"@ + entity_type + "'"@
    } else if !registry[entity_type].contains_key(version) {
        e.text() == "no schema version '"@ + version + "' registered for entity type '"@
            + entity_type + "'"@
    } else {
        exists|f: Fault| #[trigger]
            f.occurs(registry[entity_type][version], payload) && e.text() == f.text()
    }
}

/// Whether a payload was checked against a registered version.
pub open spec fn validated(
    registry: RegistryView,
    entity_type: Seq<char>,
    version: Seq<char>,
    payload: JsonView,
    r: Result<()>,
) -> bool {
    match r {
        Ok(()) => accepts(registry, entity_type, version, payload),
        Err(e) => !accepts(registry, entity_type, version, payload) && refusal(
            registry,
            entity_type,
            version,
            payload,
            e,
        ),
    }
}

impl SchemaRegistry {
    pub closed spec fn wf(self) -> bool {
        &&& self.schemas.wf()
        &&& forall|e: Seq<char>| #[trigger] self.schemas@.contains_key(e) ==> versions_wf(self.schemas@[e])
    }

    /// A registry without schemas.
    pub fn new() -> (r: SchemaRegistry)
        ensures
            r.wf(),
            r@ == Map::<Seq<char>, Map<Seq<char>, SchemaView>>::empty(),
    {
        let r: SchemaRegistry = SchemaRegistry { schemas: Dict::new() };
        assert(r@ =~= Map::<Seq<char>, Map<Seq<char>, SchemaView>>::empty());
        r
    }

    /// Registers a version of an entity type's schema.
    pub fn register(&mut self, entity_type: &str, version: &str, schema: &Json) -> (r: Result<()>)
        requires
            old(self).wf(),
        ensures
            final(self).wf(),
            registration(old(self)@, final(self)@, r, entity_type@, version@, schema@),
    {
        let parsed: SchemaVersion = match SchemaVersion::from_json(schema) {
            Some(parsed) => parsed,
            None => {
                return Err(
                    StrunkError::Config(
                        "schema must have 'properties' object with typed fields".to_owned(),
                    ),
                );
            },
        };
        let ghost before = self@;
        let ghost versions = versions_of(self@, entity_type@);
        if let Some(registered) = self.schemas.get(&entity_type.to_owned()) {
            assert(versions =~= registered@.map_values(|s: SchemaVersion| s@));
            if let Some(at) = latest_position(registered) {
                let latest: &String = registered.key_at(at);
                let previous: &SchemaVersion = registered.value_at(at);
                assert(is_latest(versions, latest@));
                assert(versions[latest@] == previous@);
                if let Err(message) = previous.check_backward_compatible(&parsed) {
                    let e: StrunkError = StrunkError::Config(message);
                    proof {
                        let b = choose|b: Break|
                            #[trigger] b.occurs(previous@, parsed@) && message@ == b.text() && (
                            b is NewRequired ==> forall|other: Break| #[trigger]
                                other.occurs(previous@, parsed@) ==> other is NewRequired);
                        assert(is_latest(versions, latest@) && b.occurs(versions[latest@], parsed@)
                            && e.text() == b.text());
                    }
                    return Err(e);
                }
            } else {
                assert(versions.is_empty()) by {
                    assert forall|v: Seq<char>| !versions.contains_key(v) by {
                        if registered@.contains_key(v) {
                            let k = registered.lemma_key(v);
                        }
                    }
                    assert(versions.dom() =~= Set::empty());
                }
            }
        } else {
            assert(versions.dom() =~= Set::empty());
        }
        let mut registered: Dict<String, SchemaVersion> = match self.schemas.remove(&entity_type.to_owned()) {
            Some(registered) => registered,
            None => Dict::new(),
        };
        let ghost earlier = registered@;
        assert(earlier.map_values(|s: SchemaVersion| s@) =~= versions);
        registered.insert(version.to_owned(), parsed);
        assert(registered@.map_values(|s: SchemaVersion| s@) =~= versions.insert(
            version@,
            parsed@,
        ));
        self.schemas.insert(entity_type.to_owned(), registered);
        assert(self@ =~= with_version(before, entity_type@, version@, parsed@));
        Ok(())
    }

    /// Checks a payload against a registered version.
    pub fn validate(&self, entity_type: &str, version: &str, payload: &Json) -> (r: Result<()>)
        requires
            self.wf(),
        ensures
            validated(self@, entity_type@, version@, payload@, r),
    {
        let versions: &Dict<String, SchemaVersion> = match self.schemas.get(&entity_type.to_owned()) {
            Some(versions) => versions,
            None => {
                let message: String = "no schemas registered for entity type '".to_owned().concat(
                    entity_type,
                ).concat("'");
                return Err(StrunkError::Config(message));
            },
        };
        assert(self@[entity_type@] == versions@.map_values(|s: SchemaVersion| s@));
        let schema: &SchemaVersion = match versions.get(&version.to_owned()) {
            Some(schema) => schema,
            None => {
                let message: String = "no schema version '".to_owned().concat(version).concat(
                    "' registered for entity type '",
                ).concat(entity_type).concat("'");
                return Err(StrunkError::Config(message));
            },
        };
        assert(self@[entity_type@][version@] == schema@);
        match schema.check_payload(payload) {
            Ok(()) => Ok(()),
            Err(message) => {
                let e: StrunkError = StrunkError::Config(message);
                proof {
                    let f = choose|f: Fault| #[trigger]
                        f.occurs(schema@, payload@) && message@ == f.text();
                    assert(f.occurs(self@[entity_type@][version@], payload@) && e.text()
                        == f.text());
                }
                Err(e)
            },
        }
    }
}

/// What stands in the table of schemas after an entity type's schemas have been stored. Those that
/// are there stay as they are.
pub open spec fn schemas_stored(
    registry: RegistryView,
    before: Map<(Seq<char>, Seq<char>), SchemaRow>,
    after: Map<(Seq<char>, Seq<char>), SchemaRow>,
    entity_type: Seq<char>,
    now: Timestamp,
) -> bool {
    let versions = versions_of(registry, entity_type);
    forall|k: (Seq<char>, Seq<char>)|
        {
            &&& #[trigger] after.contains_key(k) <==> before.contains_key(k) || (k.0 == entity_type
                && versions.contains_key(k.1))
            &&& before.contains_key(k) ==> after[k] == before[k]
            &&& after.contains_key(k) && !before.contains_key(k) ==> documents(
                after[k].schema@,
                versions[k.1],
            ) && after[k].created_at == now
        }
}

/// Whether a version stands among the first `n` documents.
pub open spec fn listed_before(found: Seq<(String, Json)>, version: Seq<char>, n: int) -> bool {
    exists|j: int| 0 <= j < n && (#[trigger] found[j]).0@ == version
}

/// Whether `found` are the versions of a schema, each once, with the documents that write them down.
pub open spec fn documents_listed(
    versions: Map<Seq<char>, SchemaView>,
    found: Seq<(String, Json)>,
) -> bool {
    &&& forall|k: int|
        0 <= k < found.len() ==> versions.contains_key((#[trigger] found[k]).0@) && documents(
            found[k].1@,
            versions[found[k].0@],
        )
    &&& forall|j: int, k: int|
        0 <= j < k < found.len() ==> (#[trigger] found[j]).0@ != (#[trigger] found[k]).0@
    &&& forall|v: Seq<char>| #[trigger]
        versions.contains_key(v) ==> listed_before(found, v, found.len() as int)
}

impl SchemaRegistry {
    /// The versions of an entity type's schema with the documents that write them down.
    pub fn documents_of(&self, entity_type: &str) -> (r: Vec<(String, Json)>)
        requires
            self.wf(),
        ensures
            documents_listed(versions_of(self@, entity_type@), r@),
    {
        let mut found: Vec<(String, Json)> = Vec::new();
        let versions: &Dict<String, SchemaVersion> = match self.schemas.get(
            &entity_type.to_owned(),
        ) {
            Some(versions) => versions,
            None => return found,
        };
        let ghost all = versions_of(self@, entity_type@);
        assert(all =~= versions@.map_values(|s: SchemaVersion| s@));
        let n: usize = versions.len();
        let mut i: usize = 0;
        while i < n
            invariant
                versions_wf(*versions),
                n == versions.size(),
                i <= n,
                found.len() == i,
                all == versions@.map_values(|s: SchemaVersion| s@),
                forall|k: int|
                    0 <= k < i ==> {
                        &&& (#[trigger] found@[k]).0@ == versions.key(k)
                        &&& all.contains_key(versions.key(k))
                        &&& documents(found@[k].1@, all[versions.key(k)])
                    },
            decreases n - i,
        {
            let version: String = versions.key_at(i).clone();
            let document: Json = schema_to_json(versions.value_at(i));
            found.push((version, document));
            i = i + 1;
        }
        proof {
            assert forall|j: int, k: int| 0 <= j < k < found@.len() implies (
            #[trigger] found@[j]).0@ != (#[trigger] found@[k]).0@ by {
                versions.lemma_distinct(j, k);
            }
            assert forall|v: Seq<char>| #[trigger] all.contains_key(v) implies listed_before(
                found@,
                v,
                found@.len() as int,
            ) by {
                let j = versions.lemma_key(v);
                assert(found@[j].0@ == v);
            }
        }
        found
    }

    /// Stores the schemas of an entity type.
    pub fn persist(&self, store: &mut Store, entity_type: &str) -> (r: Result<()>)
        requires
            self.wf(),
            old(store).wf(),
        ensures
            final(store).wf(),
            r is Ok,
            *final(store) == (Store { schemas: final(store).schemas, ..*old(store) }),
            schemas_stored(
                self@,
                old(store).schemas@,
                final(store).schemas@,
                entity_type@,
                old(store).now,
            ),
    {
        let now: Timestamp = store.now;
        let found: Vec<(String, Json)> = self.documents_of(entity_type);
        let ghost all = versions_of(self@, entity_type@);
        let ghost listed = found@;
        for entry in it: found
            invariant
                it.seq() == listed,
                now == old(store).now,
                documents_listed(all, listed),
                store.wf(),
                *store == (Store { schemas: store.schemas, ..*old(store) }),
                forall|k: (Seq<char>, Seq<char>)|
                    {
                        &&& #[trigger] store.schemas@.contains_key(k) <==> old(
                            store,
                        ).schemas@.contains_key(k) || (k.0 == entity_type@ && listed_before(
                            listed,
                            k.1,
                            it.index(),
                        ))
                        &&& old(store).schemas@.contains_key(k) ==> store.schemas@[k] == old(
                            store,
                        ).schemas@[k]
                        &&& store.schemas@.contains_key(k) && !old(store).schemas@.contains_key(k)
                            ==> documents(store.schemas@[k].schema@, all[k.1])
                            && store.schemas@[k].created_at == now
                    },
        {
            let ghost i = it.index();
            let (version, document): (String, Json) = entry;
            let key: (String, String) = (entity_type.to_owned(), version);
            proof {
                assert(listed[i].0@ == key@.1);
                assert forall|v: Seq<char>| #[trigger]
                    listed_before(listed, v, i + 1) <==> listed_before(listed, v, i) || v
                        == key@.1 by {
                    if listed_before(listed, v, i) {
                        let j = choose|j: int| 0 <= j < i && (#[trigger] listed[j]).0@ == v;
                        assert(listed[j].0@ == v);
                    }
                }
            }
            if !store.schemas.contains_key(&key) {
                store.schemas.insert(key, SchemaRow { schema: document, created_at: now });
            }
        }
        proof {
            let n = listed.len() as int;
            let after = store.schemas@;
            let before = old(store).schemas@;
            assert forall|k: (Seq<char>, Seq<char>)|
                {
                    &&& #[trigger] after.contains_key(k) <==> before.contains_key(k) || (k.0
                        == entity_type@ && all.contains_key(k.1))
                    &&& before.contains_key(k) ==> after[k] == before[k]
                    &&& after.contains_key(k) && !before.contains_key(k) ==> documents(
                        after[k].schema@,
                        all[k.1],
                    ) && after[k].created_at == now
                } by {
                if listed_before(listed, k.1, n) {
                    let j = choose|j: int| 0 <= j < n && (#[trigger] listed[j]).0@ == k.1;
                    assert(all.contains_key(listed[j].0@));
                }
            }
            assert(schemas_stored(self@, before, after, entity_type@, now));
        }
        Ok(())
    }
}

/// Every version of an entity type is well formed.
spec fn versions_wf(versions: Dict<String, SchemaVersion>) -> bool {
    &&& versions.wf()
    &&& forall|v: Seq<char>| #[trigger] versions@.contains_key(v) ==> versions@[v].wf()
}

/// The place of a latest version.
fn latest_position(versions: &Dict<String, SchemaVersion>) -> (r: Option<usize>)
    requires
        versions.wf(),
    ensures
        r is None <==> versions.size() == 0,
        r matches Some(i) ==> i < versions.size() && forall|v: Seq<char>| #[trigger]
            versions@.contains_key(v) ==> !(version_order(v, versions.key(i as int)) is Newer),
{
    let n: usize = versions.len();
    if n == 0 {
        return None;
    }
    let mut best: usize = 0;
    proof {
        crate::number::version_order_reflexive(versions.key(0));
    }
    let mut i: usize = 1;
    while i < n
        invariant
            versions.wf(),
            n == versions.size(),
            1 <= i <= n,
            best < i,
            forall|j: int|
                0 <= j < i ==> !(version_order(#[trigger] versions.key(j), versions.key(best as int)) is Newer),
        decreases n - i,
    {
        let order: VersionOrder = compare_versions(
            versions.key_at(i).as_str(),
            versions.key_at(best).as_str(),
        );
        let ghost held = versions.key(best as int);
        let ghost here = versions.key(i as int);
        if order != VersionOrder::Older {
            proof {
                crate::number::version_order_antisymmetric(held, here);
                crate::number::version_order_reflexive(here);
                assert forall|j: int| 0 <= j < i + 1 implies !(version_order(
                    #[trigger] versions.key(j),
                    here,
                ) is Newer) by {
                    if j < i {
                        crate::number::version_order_transitive(versions.key(j), held, here);
                    }
                }
            }
            best = i;
        }
        i = i + 1;
    }
    assert forall|v: Seq<char>| #[trigger] versions@.contains_key(v) implies !(version_order(
        v,
        versions.key(best as int),
    ) is Newer) by {
        let k = versions.lemma_key(v);
    }
    Some(best)
}

/// The field that a break is about.
spec fn break_name(b: Break) -> Seq<char> {
    match b {
        Break::Removed { name } => name,
        Break::Retyped { name, .. } => name,
        Break::NewRequired { name } => name,
    }
}

/// The field that a fault is about.
spec fn fault_name(f: Fault) -> Seq<char> {
    match f {
        Fault::NotObject => Seq::empty(),
        Fault::Missing { name } => name,
        Fault::Mistyped { name, .. } => name,
    }
}

/// The type that a property declares.
fn declared(def: &Json) -> (r: String)
    ensures
        r@ == declared_type(def@),
{
    match def.get("type") {
        Some(t) => match t.as_str() {
            Some(text) => text.to_owned(),
            None => "any".to_owned(),
        },
        None => "any".to_owned(),
    }
}

/// Whether a name stands in the `required` list.
fn is_listed(schema: &Json, name: &str) -> (r: bool)
    ensures
        r == lists_required(schema@, name@),
{
    let items: &Vec<Json> = match schema.get("required") {
        Some(list) => match list.as_array() {
            Some(items) => items,
            None => {
                return false;
            },
        },
        None => {
            return false;
        },
    };
    let ghost all = items_view(items@);
    let n: usize = items.len();
    let mut i: usize = 0;
    while i < n
        invariant
            n == items.len(),
            i <= n,
            all == items_view(items@),
            schema@.member("required"@) == Some(JsonView::Array(all)),
            forall|j: int| 0 <= j < i ==> #[trigger] all[j] != JsonView::String(name@),
        decreases n - i,
    {
        assert(all[i as int] == items@[i as int]@);
        if let Some(text) = items[i].as_str() {
            if same_text(text, name) {
                assert(all[i as int] == JsonView::String(name@));
                return true;
            }
        }
        i = i + 1;
    }
    assert(!all.contains(JsonView::String(name@)));
    false
}

} // verus!
