//! What schemas accept and refuse, field by field.
use vstd::prelude::*;

use crate::change_feed::ChangePublish;
use crate::error::{Result, StrunkError};
use crate::json::{first_named, Json, JsonView, Number};
use crate::number::version_order;
use crate::schema::{
    accepts, compatible, documents, documents_listed, payload_checked, refusal, registration,
    schema_of, schemas_stored, valid, validated, versions_of, Break, Fault, RegistryView,
    SchemaView,
};
use crate::store::SchemaRow;
use crate::time::Timestamp;

verus! {

/// A payload meets a schema exactly when it is an object that has every required field, and in which
/// every field that the schema declares with a type other than `any`, required or not, is missing,
/// null or of that type. Fields that the schema does not declare do not matter.
pub proof fn payload_is_checked_field_by_field(schema: SchemaView, payload: JsonView)
    ensures
        valid(schema, payload) <==> payload is Object && forall|name: Seq<char>| #[trigger]
            schema.contains_key(name) ==> match first_named(payload->Object_0, name) {
                None => !schema[name].required,
                Some(value) => schema[name].field_type == "any"@ || value.kind_name() == "null"@
                    || value.kind_name() == schema[name].field_type,
            },
{
    if valid(schema, payload) {
        assert(!Fault::NotObject.occurs(schema, payload));
        assert forall|name: Seq<char>| #[trigger] schema.contains_key(name) implies match first_named(
            payload->Object_0,
            name,
        ) {
            None => !schema[name].required,
            Some(value) => schema[name].field_type == "any"@ || value.kind_name() == "null"@
                || value.kind_name() == schema[name].field_type,
        } by {
            assert(!(Fault::Missing { name }).occurs(schema, payload));
            match first_named(payload->Object_0, name) {
                None => {},
                Some(value) => {
                    assert(!(Fault::Mistyped {
                        name,
                        expected: schema[name].field_type,
                        actual: value.kind_name(),
                    }).occurs(schema, payload));
                },
            }
        }
    }
}

/// A payload with a field of the wrong type is not valid, whether the field is required or not: a
/// declared type other than `any`, and a member of that name that is neither null nor of that type.
pub proof fn mistyped_field_is_refused(schema: SchemaView, payload: JsonView, name: Seq<char>)
    requires
        schema.contains_key(name),
        schema[name].field_type != "any"@,
        payload matches JsonView::Object(members) && (first_named(members, name) matches Some(value)
            && !(value is Null) && value.kind_name() != schema[name].field_type),
    ensures
        !valid(schema, payload),
{
    payload_is_checked_field_by_field(schema, payload);
    let value = first_named(payload->Object_0, name)->0;
    every_value_has_a_type(value);
    assert(schema.contains_key(name));
}

/// A payload that lacks a required field is not valid, and neither is one that is no object.
pub proof fn missing_field_is_refused(schema: SchemaView, payload: JsonView, name: Seq<char>)
    requires
        !(payload is Object) || (schema.contains_key(name) && schema[name].required && first_named(
            payload->Object_0,
            name,
        ) is None),
    ensures
        !valid(schema, payload),
{
    payload_is_checked_field_by_field(schema, payload);
    if payload is Object {
        assert(schema.contains_key(name));
    }
}

/// What a schema does not declare does not matter: adding a member of another name at the end of a
/// valid payload leaves it valid, and taking one away does too.
pub proof fn undeclared_fields_do_not_matter(
    schema: SchemaView,
    members: Seq<(Seq<char>, JsonView)>,
    name: Seq<char>,
    value: JsonView,
)
    requires
        !schema.contains_key(name),
    ensures
        valid(schema, JsonView::Object(members)) <==> valid(
            schema,
            JsonView::Object(members.push((name, value))),
        ),
{
    let wider = members.push((name, value));
    payload_is_checked_field_by_field(schema, JsonView::Object(members));
    payload_is_checked_field_by_field(schema, JsonView::Object(wider));
    assert forall|other: Seq<char>| other != name implies first_named(members, other)
        == #[trigger] first_named(wider, other) by {
        lemma_other_name(members, name, value, other);
    }
    assert forall|other: Seq<char>| #[trigger] schema.contains_key(other) implies first_named(
        members,
        other,
    ) == first_named(wider, other) by {}
}

proof fn lemma_other_name(
    members: Seq<(Seq<char>, JsonView)>,
    name: Seq<char>,
    value: JsonView,
    other: Seq<char>,
)
    requires
        other != name,
    ensures
        first_named(members.push((name, value)), other) == first_named(members, other),
    decreases members.len(),
{
    let wider = members.push((name, value));
    if members.len() == 0 {
        assert(wider.drop_first() =~= Seq::<(Seq<char>, JsonView)>::empty());
    } else {
        assert(wider.drop_first() =~= members.drop_first().push((name, value)));
        lemma_other_name(members.drop_first(), name, value, other);
    }
}

/// Every value has one type: null, boolean, integer, number, string, array or object. A whole number
/// of 64 bits is an integer, any other number is not.
pub proof fn every_value_has_a_type(value: JsonView)
    ensures
        value is Null <==> value.kind_name() == "null"@,
        value is Bool <==> value.kind_name() == "boolean"@,
        value is String <==> value.kind_name() == "string"@,
        value is Array <==> value.kind_name() == "array"@,
        value is Object <==> value.kind_name() == "object"@,
        (value matches JsonView::Number(Number::Float(_))) <==> value.kind_name() == "number"@,
        (value matches JsonView::Number(n) && !(n is Float)) <==> value.kind_name() == "integer"@,
{
    reveal_strlit("null");
    reveal_strlit("boolean");
    reveal_strlit("integer");
    reveal_strlit("number");
    reveal_strlit("string");
    reveal_strlit("array");
    reveal_strlit("object");
    assert("null"@[0] == 'n' && "boolean"@[0] == 'b' && "integer"@[0] == 'i');
    assert("number"@[0] == 'n' && "string"@[0] == 's' && "array"@[0] == 'a');
    assert("object"@[0] == 'o');
    assert("null"@.len() == 4 && "number"@.len() == 6);
}

/// A new version can take the place of an old one exactly when every required field of the old one is
/// still there, every field that both have has kept its type, and every required field of the new one
/// was there before.
pub proof fn versions_are_compared_field_by_field(old_schema: SchemaView, new_schema: SchemaView)
    ensures
        compatible(old_schema, new_schema) <==> {
            &&& forall|name: Seq<char>| #[trigger]
                old_schema.contains_key(name) && old_schema[name].required
                    ==> new_schema.contains_key(name)
            &&& forall|name: Seq<char>| #[trigger]
                old_schema.contains_key(name) && new_schema.contains_key(name)
                    ==> old_schema[name].field_type == new_schema[name].field_type
            &&& forall|name: Seq<char>| #[trigger]
                new_schema.contains_key(name) && new_schema[name].required
                    ==> old_schema.contains_key(name)
        },
{
    if compatible(old_schema, new_schema) {
        assert forall|name: Seq<char>| #[trigger]
            old_schema.contains_key(name) && old_schema[name].required implies new_schema.contains_key(
            name,
        ) by {
            assert(!(Break::Removed { name }).occurs(old_schema, new_schema));
        }
        assert forall|name: Seq<char>| #[trigger]
            old_schema.contains_key(name) && new_schema.contains_key(
                name,
            ) implies old_schema[name].field_type == new_schema[name].field_type by {
            assert(!(Break::Retyped {
                name,
                old_type: old_schema[name].field_type,
                new_type: new_schema[name].field_type,
            }).occurs(old_schema, new_schema));
        }
        assert forall|name: Seq<char>| #[trigger]
            new_schema.contains_key(name) && new_schema[name].required implies old_schema.contains_key(
            name,
        ) by {
            assert(!(Break::NewRequired { name }).occurs(old_schema, new_schema));
        }
    }
}

/// A schema document is read property by property: a property is a field, with the type that it
/// declares as a text or else `any`, and it is required exactly when its name is listed under
/// `required`. A document without an object under `properties` is no schema.
pub proof fn document_is_read_property_by_property(
    members: Seq<(Seq<char>, JsonView)>,
    name: Seq<char>,
)
    ensures
        ({
            let properties = first_named(members, "properties"@);
            let read = schema_of(JsonView::Object(members));
            &&& read is Some <==> (properties matches Some(JsonView::Object(_)))
            &&& (properties matches Some(JsonView::Object(fields)) ==> {
                &&& read->0.contains_key(name) <==> first_named(fields, name) is Some
                &&& (first_named(fields, name) matches Some(def) ==> {
                    let declared = match def {
                        JsonView::Object(inner) => first_named(inner, "type"@),
                        _ => None,
                    };
                    let field = read->0[name];
                    &&& (declared matches Some(JsonView::String(t)) ==> field.field_type == t)
                    &&& !(declared matches Some(JsonView::String(_))) ==> field.field_type == "any"@
                    &&& field.required <==> (first_named(members, "required"@) matches Some(
                        JsonView::Array(names),
                    ) && exists|i: int|
                        0 <= i < names.len() && #[trigger] names[i] == JsonView::String(name))
                })
            })
        }),
        forall|document: JsonView| !(document is Object) ==> #[trigger] schema_of(document) is None,
{
    let properties = first_named(members, "properties"@);
    if let Some(JsonView::Object(fields)) = properties {
        if let Some(JsonView::Array(names)) = first_named(members, "required"@) {
            assert(names.contains(JsonView::String(name)) <==> exists|i: int|
                0 <= i < names.len() && #[trigger] names[i] == JsonView::String(name));
        }
    }
}

/// A version is registered exactly when its document is a schema and no version is there yet, or it
/// can take the place of a version that is there and that no other exceeds. A version that is
/// registered is there from then on, and all others stay as they are; a refusal changes nothing.
pub proof fn registration_keeps_the_rest(
    before: RegistryView,
    after: RegistryView,
    r: Result<()>,
    entity_type: Seq<char>,
    version: Seq<char>,
    schema: JsonView,
    other_type: Seq<char>,
    other: Seq<char>,
)
    requires
        registration(before, after, r, entity_type, version, schema),
    ensures
        r is Err ==> after == before && r->Err_0 is Config,
        schema_of(schema) is None ==> r is Err && r->Err_0.text()
            == "schema must have 'properties' object with typed fields"@,
        schema_of(schema) is Some && !before.contains_key(entity_type) ==> r is Ok,
        r is Ok ==> {
            &&& schema_of(schema) is Some
            &&& after.contains_key(entity_type)
            &&& after[entity_type].contains_key(version)
            &&& after[entity_type][version] == schema_of(schema)->0
            &&& other_type != entity_type ==> after.contains_key(other_type) == before.contains_key(
                other_type,
            ) && (before.contains_key(other_type) ==> after[other_type] == before[other_type])
            &&& other != version && before.contains_key(entity_type)
                ==> after[entity_type].contains_key(other) == before[entity_type].contains_key(
                other,
            ) && (before[entity_type].contains_key(other) ==> after[entity_type][other]
                == before[entity_type][other])
        },
        schema_of(schema) is Some && before.contains_key(entity_type)
            && before[entity_type].contains_key(other) ==> (r is Ok ==> exists|latest: Seq<char>|
            {
                &&& #[trigger] before[entity_type].contains_key(latest)
                &&& forall|v: Seq<char>| #[trigger]
                    before[entity_type].contains_key(v) ==> !(version_order(v, latest) is Newer)
                &&& compatible(before[entity_type][latest], schema_of(schema)->0)
            }) && (r is Err ==> exists|latest: Seq<char>|
            {
                &&& #[trigger] before[entity_type].contains_key(latest)
                &&& forall|v: Seq<char>| #[trigger]
                    before[entity_type].contains_key(v) ==> !(version_order(v, latest) is Newer)
                &&& !compatible(before[entity_type][latest], schema_of(schema)->0)
            }),
{
    let versions = versions_of(before, entity_type);
    if let Some(parsed) = schema_of(schema) {
        match r {
            Ok(()) => {
                if before.contains_key(entity_type) && before[entity_type].contains_key(other) {
                    assert(!versions.is_empty()) by {
                        assert(versions.dom().contains(other));
                    }
                    let latest = choose|latest: Seq<char>| #[trigger]
                        crate::schema::is_latest(versions, latest) && compatible(
                            versions[latest],
                            parsed,
                        );
                    assert(before[entity_type].contains_key(latest));
                }
            },
            Err(e) => {
                let (latest, b) = choose|latest: Seq<char>, b: Break|
                    #![trigger crate::schema::is_latest(versions, latest), b.text()]
                    crate::schema::is_latest(versions, latest) && b.occurs(versions[latest], parsed)
                        && e.text() == b.text() && (b is NewRequired ==> forall|other: Break|
                        #[trigger] other.occurs(versions[latest], parsed) ==> other is NewRequired);
                assert(!compatible(versions[latest], parsed));
                assert(versions.contains_key(latest));
            },
        }
    }
}

/// A payload is accepted exactly when its entity type has that version and the payload meets it.
/// Otherwise the refusal says which of the two is missing, or names a field that is missing or of the
/// wrong type.
pub proof fn refusal_names_the_cause(
    registry: RegistryView,
    entity_type: Seq<char>,
    version: Seq<char>,
    payload: JsonView,
    e: StrunkError,
)
    requires
        refusal(registry, entity_type, version, payload, e),
    ensures
        !accepts(registry, entity_type, version, payload),
        !registry.contains_key(entity_type) ==> e.text()
            == "no schemas registered for entity type '"@ + entity_type + "'"@,
        registry.contains_key(entity_type) && !registry[entity_type].contains_key(version)
            ==> e.text() == "no schema version '"@ + version + "' registered for entity type '"@
            + entity_type + "'"@,
        registry.contains_key(entity_type) && registry[entity_type].contains_key(version) ==> {
            let schema = registry[entity_type][version];
            ||| !(payload is Object) && e.text() == "payload must be a JSON object"@
            ||| exists|name: Seq<char>|
                {
                    &&& #[trigger] schema.contains_key(name)
                    &&& schema[name].required
                    &&& payload is Object && first_named(payload->Object_0, name) is None
                    &&& e.text() == "required field '"@ + name + "' missing from payload"@
                }
            ||| exists|name: Seq<char>|
                {
                    &&& #[trigger] schema.contains_key(name)
                    &&& payload is Object && first_named(payload->Object_0, name) is Some
                    &&& e.text() == "field '"@ + name + "' expected type '"@
                        + schema[name].field_type + "' but got '"@ + first_named(
                        payload->Object_0,
                        name,
                    )->0.kind_name() + "'"@
                    &&& schema[name].field_type != first_named(
                        payload->Object_0,
                        name,
                    )->0.kind_name()
                }
        },
{
    if registry.contains_key(entity_type) && registry[entity_type].contains_key(version) {
        let schema = registry[entity_type][version];
        let f = choose|f: Fault| #[trigger] f.occurs(schema, payload) && e.text() == f.text();
        match f {
            Fault::NotObject => {},
            Fault::Missing { name } => {
                assert(schema.contains_key(name));
            },
            Fault::Mistyped { name, expected, actual } => {
                assert(schema.contains_key(name));
            },
        }
    }
}

/// A version that was registered accepts the payloads that meet its schema, and no others.
pub proof fn registered_version_is_what_counts(
    before: RegistryView,
    after: RegistryView,
    entity_type: Seq<char>,
    version: Seq<char>,
    schema: JsonView,
    payload: JsonView,
)
    requires
        registration(before, after, Ok(()), entity_type, version, schema),
    ensures
        accepts(after, entity_type, version, payload) <==> valid(schema_of(schema)->0, payload),
{
}

/// An event without a registry may be published whatever its state; one with a registry exactly when
/// the registry has the entity type's version and the state meets it.
pub proof fn publishing_asks_the_registry(event: ChangePublish)
    ensures
        event.registry is None ==> event.accepted(),
        event.registry matches Some(registry) ==> (event.accepted() <==> {
            &&& registry@.contains_key(event.entity_type@)
            &&& registry@[event.entity_type@].contains_key(event.schema_version@)
            &&& valid(registry@[event.entity_type@][event.schema_version@], event.state@)
        }),
{
}

/// Once an entity type's schemas are stored, each of its versions has a document that reads back as
/// that version, unless a document was there before, which stays. Other entity types are left alone.
pub proof fn stored_schemas_read_back(
    registry: RegistryView,
    before: Map<(Seq<char>, Seq<char>), SchemaRow>,
    after: Map<(Seq<char>, Seq<char>), SchemaRow>,
    entity_type: Seq<char>,
    now: Timestamp,
    key: (Seq<char>, Seq<char>),
)
    requires
        schemas_stored(registry, before, after, entity_type, now),
    ensures
        before.contains_key(key) ==> after.contains_key(key) && after[key] == before[key],
        !before.contains_key(key) ==> (after.contains_key(key) <==> key.0 == entity_type
            && registry.contains_key(entity_type) && registry[entity_type].contains_key(key.1)),
        !before.contains_key(key) && after.contains_key(key) ==> schema_of(after[key].schema@)
            == Some(registry[entity_type][key.1]) && after[key].created_at == now,
{
    let _ = after.contains_key(key);
    if !before.contains_key(key) && after.contains_key(key) {
        assert(documents(after[key].schema@, registry[entity_type][key.1]));
        crate::schema::document_reads_back(after[key].schema@, registry[entity_type][key.1]);
    }
}

/// Checking a payload against a schema succeeds exactly when the payload is an object that has every
/// required field, and in which every declared field is missing, null or of its type.
pub proof fn check_answers_field_by_field(
    schema: SchemaView,
    payload: JsonView,
    r: std::result::Result<(), String>,
)
    requires
        payload_checked(schema, payload, r),
    ensures
        r is Ok <==> payload is Object && forall|name: Seq<char>| #[trigger]
            schema.contains_key(name) ==> match first_named(payload->Object_0, name) {
                None => !schema[name].required,
                Some(value) => schema[name].field_type == "any"@ || value is Null
                    || value.kind_name() == schema[name].field_type,
            },
{
    payload_is_checked_field_by_field(schema, payload);
    assert forall|value: JsonView| value is Null <==> #[trigger] value.kind_name() == "null"@ by {
        every_value_has_a_type(value);
    }
}

/// Validating a payload succeeds exactly when its entity type has the version, and the payload is an
/// object that has every field which that version requires, and in which every field that it declares
/// is missing, null or of its type.
pub proof fn validation_answers_field_by_field(
    registry: RegistryView,
    entity_type: Seq<char>,
    version: Seq<char>,
    payload: JsonView,
    r: Result<()>,
)
    requires
        validated(registry, entity_type, version, payload, r),
    ensures
        r is Ok <==> {
            let schema = registry[entity_type][version];
            &&& registry.contains_key(entity_type)
            &&& registry[entity_type].contains_key(version)
            &&& payload is Object
            &&& forall|name: Seq<char>| #[trigger]
                schema.contains_key(name) ==> match first_named(payload->Object_0, name) {
                    None => !schema[name].required,
                    Some(value) => schema[name].field_type == "any"@ || value is Null
                        || value.kind_name() == schema[name].field_type,
                }
        },
        r matches Err(e) ==> refusal(registry, entity_type, version, payload, e),
{
    payload_is_checked_field_by_field(registry[entity_type][version], payload);
    assert forall|value: JsonView| value is Null <==> #[trigger] value.kind_name() == "null"@ by {
        every_value_has_a_type(value);
    }
}

/// The documents of an entity type are those of its versions, each once, and each reads back as the
/// version that it writes down.
pub proof fn listed_documents_read_back(
    versions: Map<Seq<char>, SchemaView>,
    found: Seq<(String, Json)>,
    version: Seq<char>,
    j: int,
    k: int,
)
    requires
        documents_listed(versions, found),
    ensures
        0 <= k < found.len() ==> versions.contains_key(found[k].0@) && schema_of(found[k].1@)
            == Some(versions[found[k].0@]),
        0 <= j < k < found.len() ==> found[j].0@ != found[k].0@,
        versions.contains_key(version) ==> exists|i: int|
            0 <= i < found.len() && (#[trigger] found[i]).0@ == version,
{
    if 0 <= k < found.len() {
        crate::schema::document_reads_back(found[k].1@, versions[found[k].0@]);
    }
    if versions.contains_key(version) {
        assert(crate::schema::listed_before(found, version, found.len() as int));
    }
}

/// A version that is refused for what it breaks with is refused with the name of a field of a version
/// that no other exceeds: a required one that is gone, one with another type, or, where there is
/// neither, one that is required and was not there.
pub proof fn broken_field_is_named(
    before: RegistryView,
    after: RegistryView,
    e: StrunkError,
    entity_type: Seq<char>,
    version: Seq<char>,
    schema: JsonView,
)
    requires
        registration(before, after, Err(e), entity_type, version, schema),
        schema_of(schema) is Some,
    ensures
        exists|latest: Seq<char>, name: Seq<char>|
            #![trigger before[entity_type].contains_key(latest), schema_of(schema)->0.contains_key(
                name,
            )]
            {
                let held = before[entity_type][latest];
                let new = schema_of(schema)->0;
                &&& before.contains_key(entity_type)
                &&& before[entity_type].contains_key(latest)
                &&& forall|v: Seq<char>| #[trigger]
                    before[entity_type].contains_key(v) ==> !(version_order(v, latest) is Newer)
                &&& {
                    ||| {
                        &&& held.contains_key(name)
                        &&& held[name].required
                        &&& !new.contains_key(name)
                        &&& e.text() == "required field '"@ + name
                            + "' was removed, breaking backward compatibility"@
                    }
                    ||| {
                        &&& held.contains_key(name)
                        &&& new.contains_key(name)
                        &&& held[name].field_type != new[name].field_type
                        &&& e.text() == "field '"@ + name + "' changed type from '"@
                            + held[name].field_type + "' to '"@ + new[name].field_type
                            + "', breaking backward compatibility"@
                    }
                    ||| {
                        &&& new.contains_key(name)
                        &&& new[name].required
                        &&& !held.contains_key(name)
                        &&& e.text() == "new field '"@ + name
                            + "' is required but did not exist in the previous version, breaking backward compatibility"@
                        &&& forall|other: Seq<char>| #[trigger]
                            held.contains_key(other) ==> (held[other].required
                                ==> new.contains_key(other)) && (new.contains_key(other)
                                ==> held[other].field_type == new[other].field_type)
                    }
                }
            },
{
    let versions = versions_of(before, entity_type);
    let parsed = schema_of(schema)->0;
    let (latest, b) = choose|latest: Seq<char>, b: Break|
        #![trigger crate::schema::is_latest(versions, latest), b.text()]
        crate::schema::is_latest(versions, latest) && b.occurs(versions[latest], parsed) && e.text()
            == b.text() && (b is NewRequired ==> forall|other: Break| #[trigger]
            other.occurs(versions[latest], parsed) ==> other is NewRequired);
    assert(versions.contains_key(latest));
    assert(before[entity_type].contains_key(latest));
    match b {
        Break::Removed { name } => {
            assert(!parsed.contains_key(name));
        },
        Break::Retyped { name, old_type, new_type } => {
            assert(parsed.contains_key(name));
        },
        Break::NewRequired { name } => {
            assert(parsed.contains_key(name));
            let held = versions[latest];
            assert forall|other: Seq<char>| #[trigger] held.contains_key(other) implies (
            held[other].required ==> parsed.contains_key(other)) && (parsed.contains_key(other)
                ==> held[other].field_type == parsed[other].field_type) by {
                assert(!(Break::Removed { name: other }).occurs(held, parsed));
                assert(!(Break::Retyped {
                    name: other,
                    old_type: held[other].field_type,
                    new_type: parsed[other].field_type,
                }).occurs(held, parsed));
            }
        },
    }
}

} // verus!
