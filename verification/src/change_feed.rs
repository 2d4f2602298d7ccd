//! State events: publishing them, and the subscribers that follow them.
use vstd::prelude::*;
use vstd::string::*;

use crate::error::Result;
use crate::json::{Json, JsonView, Member};
use crate::schema::{accepts, refusal, SchemaRegistry};
use crate::store::{inserted, NewRow, NewSnapshot, Store, Transaction};
use crate::time::Span;
use crate::types::{entity_key, make_key, MessageKind};

pub use crate::subscriber::Subscriber;

verus! {

/// A state event that is to be published.
pub struct ChangePublish<'a> {
    pub entity_type: String,
    pub entity_id: String,
    pub state: Json,
    pub diff: Option<Json>,
    pub schema_version: String,
    pub registry: Option<&'a SchemaRegistry>,
}

/// What stands beside the state in an event's row.
pub open spec fn event_metadata(diff: Option<Json>, version: Seq<char>) -> JsonView {
    let version_member = ("schema_version"@, JsonView::String(version));
    match diff {
        Some(diff) => JsonView::Object(seq![("diff"@, diff@), version_member]),
        None => JsonView::Object(seq![version_member]),
    }
}

impl<'a> ChangePublish<'a> {
    /// Whether the registry, if there is one, accepts the state.
    pub open spec fn accepted(self) -> bool {
        match self.registry {
            Some(registry) => accepts(
                registry@,
                self.entity_type@,
                self.schema_version@,
                self.state@,
            ),
            None => true,
        }
    }

    /// Whether `new` is the row that the event becomes.
    pub open spec fn becomes(self, new: NewRow) -> bool {
        &&& new.kind is Event
        &&& new.key@ == entity_key(self.entity_type@, self.entity_id@)
        &&& new.dedup_key is None
        &&& new.payload == self.state
        &&& new.metadata@ == event_metadata(self.diff, self.schema_version@)
        &&& new.priority == 0
        &&& new.max_retries == 3
        &&& new.delay.micros == 0
    }

    /// Whether `snapshot` is the entity's latest state once the event is published.
    pub open spec fn shows(self, snapshot: NewSnapshot) -> bool {
        &&& snapshot.entity_type@ == self.entity_type@
        &&& snapshot.entity_id@ == self.entity_id@
        &&& snapshot.state@ == self.state@
        &&& snapshot.version@ == self.schema_version@
    }

    pub fn new(entity_type: &str, entity_id: &str) -> (r: ChangePublish<'a>)
        ensures
            r.entity_type@ == entity_type@,
            r.entity_id@ == entity_id@,
            r.state@ is Null,
            r.diff is None,
            r.schema_version@ == "1.0"@,
            r.registry is None,
    {
        ChangePublish {
            entity_type: entity_type.to_owned(),
            entity_id: entity_id.to_owned(),
            state: Json::Null,
            diff: None,
            schema_version: "1.0".to_owned(),
            registry: None,
        }
    }

    pub fn state(self, state: Json) -> (r: ChangePublish<'a>)
        ensures
            r == (ChangePublish { state, ..self }),
    {
        ChangePublish { state, ..self }
    }

    pub fn diff(self, diff: Json) -> (r: ChangePublish<'a>)
        ensures
            r == (ChangePublish { diff: Some(diff), ..self }),
    {
        ChangePublish { diff: Some(diff), ..self }
    }

    pub fn schema_version(self, version: &str) -> (r: ChangePublish<'a>)
        ensures
            r.schema_version@ == version@,
            r == (ChangePublish { schema_version: r.schema_version, ..self }),
    {
        ChangePublish { schema_version: version.to_owned(), ..self }
    }

    pub fn with_registry(self, registry: &'a SchemaRegistry) -> (r: ChangePublish<'a>)
        ensures
            r == (ChangePublish { registry: Some(registry), ..self }),
    {
        ChangePublish { registry: Some(registry), ..self }
    }

    /// Writes the event and the entity's new state to a transaction, if the registry accepts the
    /// state.
    pub fn publish(self, tx: &mut Transaction, store: &mut Store) -> (r: Result<i64>)
        requires
            old(store).wf(),
            old(tx).fits(*old(store)),
            self.registry matches Some(registry) ==> registry.wf(),
        ensures
            final(store).wf(),
            final(tx).fits(*final(store)),
            publishing_answered(*old(tx), *old(store), *final(tx), *final(store), r, self),
    {
        if let Some(registry) = self.registry {
            if let Err(e) = registry.validate(
                self.entity_type.as_str(),
                self.schema_version.as_str(),
                &self.state,
            ) {
                return Err(e);
            }
        }
        let ghost whole = self;
        let key: String = make_key(self.entity_type.as_str(), self.entity_id.as_str());
        let copy: Json = self.state.clone();
        let metadata: Json = make_metadata(self.diff, self.schema_version.as_str());
        let new: NewRow = NewRow {
            kind: MessageKind::Event,
            key,
            dedup_key: None,
            payload: self.state,
            metadata,
            priority: 0,
            max_retries: 3,
            delay: Span { micros: 0 },
        };
        let ghost row = new;
        assert(whole.becomes(row));
        match tx.insert(store, new) {
            Ok(id) => {
                let snapshot: NewSnapshot = NewSnapshot {
                    entity_type: self.entity_type,
                    entity_id: self.entity_id,
                    state: copy,
                    version: self.schema_version,
                };
                let ghost shown = snapshot;
                let ghost middle = *tx;
                match tx.put_snapshot(snapshot) {
                    Ok(()) => {
                        assert(whole.shows(shown));
                        assert(tx.snapshots@ == old(tx).snapshots@.push(shown));
                        assert(middle == without_snapshot(*old(tx), *tx));
                        Ok(id)
                    },
                    Err(e) => Err(e),
                }
            },
            Err(e) => {
                assert(*tx == without_snapshot(*old(tx), *tx));
                Err(e)
            },
        }
    }
}

/// Whether an event was published if the registry accepts its state, and refused without a trace if
/// it does not.
pub open spec fn publishing_answered(
    tx: Transaction,
    store: Store,
    tx_after: Transaction,
    store_after: Store,
    r: Result<i64>,
    event: ChangePublish,
) -> bool {
    if event.accepted() {
        published(tx, store, tx_after, store_after, r, event)
    } else {
        &&& store_after == store
        &&& tx_after == tx
        &&& r is Err
        &&& refusal(
            event.registry->0@,
            event.entity_type@,
            event.schema_version@,
            event.state@,
            r->Err_0,
        )
    }
}

/// A transaction as it is before the snapshot is written.
pub open spec fn without_snapshot(tx: Transaction, after: Transaction) -> Transaction {
    Transaction { snapshots: tx.snapshots, ..after }
}

/// Whether an accepted event was written to a transaction, and the entity's new state with it.
pub open spec fn published(
    tx: Transaction,
    store: Store,
    tx_after: Transaction,
    store_after: Store,
    r: Result<i64>,
    event: ChangePublish,
) -> bool {
    &&& exists|new: NewRow| #[trigger]
        event.becomes(new) && inserted(
            tx,
            store,
            without_snapshot(tx, tx_after),
            store_after,
            r,
            new,
        )
    &&& if r is Ok {
        exists|snapshot: NewSnapshot| #[trigger]
            event.shows(snapshot) && tx_after.snapshots@ == tx.snapshots@.push(snapshot)
    } else {
        tx_after.snapshots@ == tx.snapshots@
    }
}

/// What stands beside the state in an event's row.
pub fn make_metadata(diff: Option<Json>, version: &str) -> (r: Json)
    ensures
        r@ == event_metadata(diff, version@),
{
    let mut members: Vec<Member> = Vec::new();
    let version_member: Member = Member {
        name: "schema_version".to_owned(),
        value: Json::String(version.to_owned()),
    };
    let ghost held = diff;
    match diff {
        Some(diff) => {
            members.push(Member { name: "diff".to_owned(), value: diff });
            members.push(version_member);
        },
        None => members.push(version_member),
    }
    let r: Json = Json::object(members);
    assert(r@->Object_0 =~= event_metadata(held, version@)->Object_0);
    r
}

/// The latest state of an entity.
pub fn snapshot(store: &Store, entity_type: &str, entity_id: &str) -> (r: Result<Option<Json>>)
    requires
        store.wf(),
    ensures
        match r {
            Ok(Some(state)) => store.snapshots@.contains_key((entity_type@, entity_id@)) && state@
                == store.snapshots@[(entity_type@, entity_id@)].state@,
            Ok(None) => !store.snapshots@.contains_key((entity_type@, entity_id@)),
            Err(e) => false,
        },
{
    match store.snapshots.get(&(entity_type.to_owned(), entity_id.to_owned())) {
        Some(row) => Ok(Some(row.state.clone())),
        None => Ok(None),
    }
}

} // verus!
