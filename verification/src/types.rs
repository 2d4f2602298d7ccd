//! The rows of the outbox and what handlers see of them.
use vstd::prelude::*;
use vstd::string::*;

use crate::json::Json;
use crate::text::chars_of;
use crate::time::Timestamp;

verus! {

/// What a row of the outbox is.
#[derive(Debug, Clone, Copy, PartialEq, Eq, Structural)]
pub enum MessageKind {
    Task,
    Event,
}

/// Where a row of the outbox stands.
#[derive(Debug, Clone, Copy, PartialEq, Eq, Structural)]
pub enum MessageStatus {
    Pending,
    Claimed,
    Delivered,
    Failed,
    Dead,
}

impl MessageStatus {
    /// The status as it is named in the table.
    pub open spec fn name(self) -> Seq<char> {
        match self {
            MessageStatus::Pending => "pending"@,
            MessageStatus::Claimed => "claimed"@,
            MessageStatus::Delivered => "delivered"@,
            MessageStatus::Failed => "failed"@,
            MessageStatus::Dead => "dead"@,
        }
    }

    /// The status as it is named in the table.
    pub fn text(self) -> (r: &'static str)
        ensures
            r@ == self.name(),
    {
        match self {
            MessageStatus::Pending => "pending",
            MessageStatus::Claimed => "claimed",
            MessageStatus::Delivered => "delivered",
            MessageStatus::Failed => "failed",
            MessageStatus::Dead => "dead",
        }
    }
}

/// One row of the outbox.
#[derive(Debug)]
pub struct OutboxRow {
    pub id: i64,
    pub kind: MessageKind,
    pub key: String,
    pub dedup_key: Option<String>,
    pub payload: Json,
    pub metadata: Json,
    pub status: MessageStatus,
    pub attempts: i32,
    pub max_retries: i32,
    pub priority: i32,
    pub progress: i16,
    pub visible_at: Timestamp,
    pub created_at: Timestamp,
    pub delivered_at: Option<Timestamp>,
}

/// Whether two optional texts are the same.
pub open spec fn same_option(a: Option<String>, b: Option<String>) -> bool {
    match (a, b) {
        (Some(x), Some(y)) => x@ == y@,
        (None, None) => true,
        _ => false,
    }
}

impl OutboxRow {
    /// Whether two rows hold the same.
    pub open spec fn same(self, other: OutboxRow) -> bool {
        &&& self.id == other.id
        &&& self.kind == other.kind
        &&& self.key@ == other.key@
        &&& same_option(self.dedup_key, other.dedup_key)
        &&& self.payload@ == other.payload@
        &&& self.metadata@ == other.metadata@
        &&& self.status == other.status
        &&& self.attempts == other.attempts
        &&& self.max_retries == other.max_retries
        &&& self.priority == other.priority
        &&& self.progress == other.progress
        &&& self.visible_at == other.visible_at
        &&& self.created_at == other.created_at
        &&& self.delivered_at == other.delivered_at
    }
}

/// A copy of an optional text.
pub fn clone_option(text: &Option<String>) -> (r: Option<String>)
    ensures
        same_option(r, *text),
{
    match text {
        Some(s) => Some(s.clone()),
        None => None,
    }
}

impl Clone for OutboxRow {
    fn clone(&self) -> (r: OutboxRow)
        ensures
            r.same(*self),
    {
        OutboxRow {
            id: self.id,
            kind: self.kind,
            key: self.key.clone(),
            dedup_key: clone_option(&self.dedup_key),
            payload: self.payload.clone(),
            metadata: self.metadata.clone(),
            status: self.status,
            attempts: self.attempts,
            max_retries: self.max_retries,
            priority: self.priority,
            progress: self.progress,
            visible_at: self.visible_at,
            created_at: self.created_at,
            delivered_at: self.delivered_at,
        }
    }
}

/// A task as its handler sees it.
#[derive(Debug)]
pub struct Task {
    pub id: i64,
    pub queue: String,
    pub payload: Json,
    pub metadata: Json,
    pub attempts: i32,
    pub max_retries: i32,
    pub created_at: Timestamp,
}

impl Task {
    /// Whether the task shows the row.
    pub open spec fn shows(self, row: OutboxRow) -> bool {
        &&& self.id == row.id
        &&& self.queue@ == row.key@
        &&& self.payload@ == row.payload@
        &&& self.metadata@ == row.metadata@
        &&& self.attempts == row.attempts
        &&& self.max_retries == row.max_retries
        &&& self.created_at == row.created_at
    }
}

impl From<OutboxRow> for Task {
    fn from(row: OutboxRow) -> (r: Task)
        ensures
            r.shows(row),
    {
        Task {
            id: row.id,
            queue: row.key,
            payload: row.payload,
            metadata: row.metadata,
            attempts: row.attempts,
            max_retries: row.max_retries,
            created_at: row.created_at,
        }
    }
}

impl vstd::std_specs::convert::FromSpecImpl<OutboxRow> for Task {
    open spec fn obeys_from_spec() -> bool {
        true
    }

    open spec fn from_spec(row: OutboxRow) -> Task {
        Task {
            id: row.id,
            queue: row.key,
            payload: row.payload,
            metadata: row.metadata,
            attempts: row.attempts,
            max_retries: row.max_retries,
            created_at: row.created_at,
        }
    }
}

/// The stored result of a task.
#[derive(Debug)]
pub struct TaskResult {
    pub task_id: i64,
    pub queue: String,
    pub result: Json,
    pub completed_at: Timestamp,
}

impl TaskResult {
    /// Whether two results hold the same.
    pub open spec fn same(self, other: TaskResult) -> bool {
        &&& self.task_id == other.task_id
        &&& self.queue@ == other.queue@
        &&& self.result@ == other.result@
        &&& self.completed_at == other.completed_at
    }
}

impl Clone for TaskResult {
    fn clone(&self) -> (r: TaskResult)
        ensures
            r.same(*self),
    {
        TaskResult {
            task_id: self.task_id,
            queue: self.queue.clone(),
            result: self.result.clone(),
            completed_at: self.completed_at,
        }
    }
}

/// A state event as its subscriber sees it.
#[derive(Debug)]
pub struct StateEvent {
    pub id: i64,
    pub entity_type: String,
    pub entity_id: String,
    pub state: Json,
    pub diff: Option<Json>,
    pub created_at: Timestamp,
}

/// The key under which an entity's events stand.
pub open spec fn entity_key(entity_type: Seq<char>, entity_id: Seq<char>) -> Seq<char> {
    entity_type + ":"@ + entity_id
}

/// The entity type and the entity's identifier in a key: what stands before and behind the first
/// colon. A key without a colon is all type.
pub open spec fn split_key(key: Seq<char>) -> (Seq<char>, Seq<char>) {
    match key.index_of_first(':') {
        Some(i) => (key.take(i), key.skip(i + 1)),
        None => (key, Seq::empty()),
    }
}

/// A key gives back what it was made of, where the type has no colon.
pub proof fn split_key_reads_back(entity_type: Seq<char>, entity_id: Seq<char>)
    requires
        !entity_type.contains(':'),
    ensures
        split_key(entity_key(entity_type, entity_id)) == (entity_type, entity_id),
{
    reveal_strlit(":");
    let key = entity_key(entity_type, entity_id);
    let n = entity_type.len() as int;
    assert(key[n] == ':');
    key.index_of_first_ensures(':');
    let i = key.index_of_first(':')->0;
    if i < n {
        assert(entity_type[i] == key[i]);
        assert(entity_type.contains(':'));
    }
    assert(i == n);
    assert(key.take(n) =~= entity_type);
    assert(key.skip(n + 1) =~= entity_id);
}

/// The key of an entity.
pub fn make_key(entity_type: &str, entity_id: &str) -> (r: String)
    ensures
        r@ == entity_key(entity_type@, entity_id@),
{
    entity_type.to_owned().concat(":").concat(entity_id)
}

impl StateEvent {
    /// Whether the event shows the row.
    pub open spec fn shows(self, row: OutboxRow) -> bool {
        &&& self.id == row.id
        &&& (self.entity_type@, self.entity_id@) == split_key(row.key@)
        &&& self.state@ == row.payload@
        &&& self.diff is Some <==> row.metadata@.member("diff"@) is Some
        &&& self.diff matches Some(diff) ==> row.metadata@.member("diff"@) == Some(diff@)
        &&& self.created_at == row.created_at
    }
}

impl From<OutboxRow> for StateEvent {
    fn from(row: OutboxRow) -> (r: StateEvent)
        ensures
            r.shows(row),
    {
        let chars: Vec<char> = chars_of(row.key.as_str());
        let n: usize = chars.len();
        let mut i: usize = 0;
        while i < n && chars[i] != ':'
            invariant
                n == chars.len(),
                i <= n,
                forall|j: int| 0 <= j < i ==> chars@[j] != ':',
            decreases n - i,
        {
            i = i + 1;
        }
        proof {
            row.key@.index_of_first_ensures(':');
            if i < n {
                assert(chars@[i as int] == ':');
                assert(row.key@.contains(':'));
                assert(row.key@.subrange(0, i as int) =~= row.key@.take(i as int));
                assert(row.key@.subrange(i + 1, n as int) =~= row.key@.skip(i + 1));
            } else {
                assert(!row.key@.contains(':'));
                assert(row.key@.subrange(0, n as int) =~= row.key@);
            }
        }
        let entity_type: String = row.key.as_str().substring_char(0, i).to_owned();
        let entity_id: String = if i < n {
            row.key.as_str().substring_char(i + 1, n).to_owned()
        } else {
            String::new()
        };
        let diff: Option<Json> = match row.metadata.get("diff") {
            Some(diff) => Some(diff.clone()),
            None => None,
        };
        StateEvent {
            id: row.id,
            entity_type,
            entity_id,
            state: row.payload,
            diff,
            created_at: row.created_at,
        }
    }
}

impl vstd::std_specs::convert::FromSpecImpl<OutboxRow> for StateEvent {
    open spec fn obeys_from_spec() -> bool {
        false
    }

    open spec fn from_spec(row: OutboxRow) -> StateEvent {
        arbitrary()
    }
}

/// A task whose payload has been decoded.
#[derive(Debug)]
pub struct TypedTask<T> {
    pub id: i64,
    pub queue: String,
    pub data: T,
    pub metadata: Json,
    pub attempts: i32,
    pub max_retries: i32,
    pub created_at: Timestamp,
}

impl<T> TypedTask<T> {
    /// Puts the decoded payload in the place of the payload. A payload that could not be decoded
    /// makes no typed task.
    pub fn try_from_task<E>(task: Task, decoded: std::result::Result<T, E>) -> (r:
        std::result::Result<TypedTask<T>, E>)
        ensures
            match decoded {
                Ok(data) => r == std::result::Result::<TypedTask<T>, E>::Ok(
                    TypedTask {
                        id: task.id,
                        queue: task.queue,
                        data,
                        metadata: task.metadata,
                        attempts: task.attempts,
                        max_retries: task.max_retries,
                        created_at: task.created_at,
                    },
                ),
                Err(e) => r == std::result::Result::<TypedTask<T>, E>::Err(e),
            },
    {
        match decoded {
            Ok(data) => Ok(
                TypedTask {
                    id: task.id,
                    queue: task.queue,
                    data,
                    metadata: task.metadata,
                    attempts: task.attempts,
                    max_retries: task.max_retries,
                    created_at: task.created_at,
                },
            ),
            Err(e) => Err(e),
        }
    }
}

/// A state event whose state has been decoded.
#[derive(Debug)]
pub struct TypedStateEvent<T> {
    pub id: i64,
    pub entity_type: String,
    pub entity_id: String,
    pub data: T,
    pub diff: Option<Json>,
    pub created_at: Timestamp,
}

impl<T> TypedStateEvent<T> {
    /// Puts the decoded state in the place of the state. A state that could not be decoded makes no
    /// typed event.
    pub fn try_from_event<E>(event: StateEvent, decoded: std::result::Result<T, E>) -> (r:
        std::result::Result<TypedStateEvent<T>, E>)
        ensures
            match decoded {
                Ok(data) => r == std::result::Result::<TypedStateEvent<T>, E>::Ok(
                    TypedStateEvent {
                        id: event.id,
                        entity_type: event.entity_type,
                        entity_id: event.entity_id,
                        data,
                        diff: event.diff,
                        created_at: event.created_at,
                    },
                ),
                Err(e) => r == std::result::Result::<TypedStateEvent<T>, E>::Err(e),
            },
    {
        match decoded {
            Ok(data) => Ok(
                TypedStateEvent {
                    id: event.id,
                    entity_type: event.entity_type,
                    entity_id: event.entity_id,
                    data,
                    diff: event.diff,
                    created_at: event.created_at,
                },
            ),
            Err(e) => Err(e),
        }
    }
}

} // verus!
