//! The store handle: typed operations, session lifecycle, checkpointing and
//! recovery over the record table.
//!
//! A handle owns one store instance and, optionally, a backing directory
//! path; without the directory checkpoint and recovery are invalid by
//! construction. Operations encode their arguments through the codec layer,
//! update the table, and record the caller's monotonic serial number against
//! the active session; checkpoints snapshot the table and every session's
//! serial progress under a fresh token, and recovery restores exactly the
//! snapshot a token names.

use crate::codec::FasterKey;
use crate::codec::FasterValue;
use crate::completion::PendingResult;
use crate::errors::FasterError;
use crate::rmw::FasterRmw;
use crate::session::spec_token;
use crate::session::lemma_token_injective;
use crate::session::make_token;
use crate::session::SessionRecord;
use crate::status;
use crate::table::entry_at;
use crate::table::kv_distinct;
use crate::table::kv_map;
use crate::table::lemma_kv_map_contains;
use crate::table::lemma_kv_map_index;
use crate::table::lemma_kv_map_len;
use crate::table::lemma_kv_map_update;
use crate::table::table_copy;
use crate::table::table_get;
use crate::table::table_remove;
use crate::table::table_upsert;
use crate::table::views_of;
use crate::table::Entry;
use vstd::prelude::*;

verus! {

/// The larger of two serial numbers.
pub open spec fn max64(a: u64, b: u64) -> u64 {
    if a >= b {
        a
    } else {
        b
    }
}

/// The result of a successful checkpoint: whether the engine actually took
/// it, and the token naming the persisted snapshot.
pub struct CheckPoint {
    pub checked: bool,
    pub token: String,
}

/// The result of a successful recovery: a status code, the recovered
/// version, and the identifiers of the sessions live at checkpoint time,
/// each resumable via `continue_session`.
pub struct Recover {
    pub status: u8,
    pub version: u32,
    pub session_ids: Vec<String>,
}

/// One persisted snapshot: the records and the session registry as they
/// stood when the checkpoint was taken, named by its token.
struct Snapshot {
    id: u64,
    token: String,
    version: u32,
    entries: Vec<Entry>,
    sessions: Vec<SessionRecord>,
}

/// The key/serial pairs of a session registry.
pub(crate) open spec fn session_pairs(s: Seq<SessionRecord>) -> Seq<(Seq<char>, u64)> {
    s.map_values(|r: SessionRecord| (r.token@, r.last_serial))
}

/// The identifying tokens of the live sessions of a registry, in
/// registration order.
pub(crate) open spec fn live_tokens(s: Seq<SessionRecord>) -> Seq<Seq<char>>
    decreases s.len(),
{
    if s.len() == 0 {
        Seq::empty()
    } else {
        live_tokens(s.drop_last()) + if s.last().active {
            seq![s.last().token@]
        } else {
            Seq::empty()
        }
    }
}

/// A registry is well formed against a counter bound: every record carries
/// the token of its identifier, identifiers are below the bound and pairwise
/// distinct.
pub(crate) open spec fn sessions_wf(s: Seq<SessionRecord>, bound: u64) -> bool {
    &&& forall|i: int|
        0 <= i < s.len() ==> (#[trigger] s[i]).id < bound && s[i].token@ == spec_token(s[i].id)
    &&& forall|i: int, j: int| 0 <= i < j < s.len() ==> s[i].id != s[j].id
}

/// Distinct identifiers give distinct tokens, so the registry's serial map
/// has one entry per record.
pub(crate) proof fn lemma_sessions_distinct(s: Seq<SessionRecord>, bound: u64)
    requires
        sessions_wf(s, bound),
    ensures
        kv_distinct(session_pairs(s)),
{
    assert forall|i: int, j: int| 0 <= i < j < s.len() implies session_pairs(s)[i].0
        != session_pairs(s)[j].0 by {
        if s[i].token@ == s[j].token@ {
            lemma_token_injective(s[i].id, s[j].id);
        }
    }
}

impl Snapshot {
    spec fn wf(&self, session_bound: u64) -> bool {
        &&& kv_distinct(views_of(self.entries@))
        &&& sessions_wf(self.sessions@, session_bound)
    }
}

/// A handle to one store instance.
pub struct FasterKv {
    table: Vec<Entry>,
    storage_dir: Option<String>,
    table_size: u64,
    log_size: u64,
    sessions: Vec<SessionRecord>,
    current_session: Option<usize>,
    session_counter: u64,
    snapshots: Vec<Snapshot>,
    checkpoint_counter: u64,
    ops_since_refresh: u64,
}

impl View for FasterKv {
    type V = Map<Seq<u8>, Seq<u8>>;

    /// The store's contents: the finite map from encoded keys to encoded
    /// values.
    closed spec fn view(&self) -> Map<Seq<u8>, Seq<u8>> {
        kv_map(views_of(self.table@))
    }
}

impl FasterKv {
    /// The handle's internal invariant: record keys are distinct, the
    /// session registry and every snapshot's registry are well formed, and
    /// snapshot tokens are pairwise distinct.
    pub closed spec fn wf(&self) -> bool {
        &&& kv_distinct(views_of(self.table@))
        &&& sessions_wf(self.sessions@, self.session_counter)
        &&& match self.current_session {
            Some(i) => i < self.sessions@.len() && self.sessions@[i as int].active,
            None => true,
        }
        &&& forall|i: int|
            0 <= i < self.snapshots@.len() ==> (#[trigger] self.snapshots@[i]).id
                < self.checkpoint_counter && self.snapshots@[i].token@ == spec_token(
                self.snapshots@[i].id,
            ) && self.snapshots@[i].wf(self.session_counter)
        &&& forall|i: int, j: int|
            0 <= i < j < self.snapshots@.len() ==> self.snapshots@[i].id != self.snapshots@[j].id
    }

    /// Whether the handle has a backing storage directory.
    pub closed spec fn has_storage(&self) -> bool {
        self.storage_dir is Some
    }

    /// The backing storage directory path, if any.
    pub closed spec fn storage_path(&self) -> Option<Seq<char>> {
        match self.storage_dir {
            Some(d) => Some(d@),
            None => None,
        }
    }

    /// The last serial number recorded for each registered session, by
    /// session token.
    pub closed spec fn session_serials(&self) -> Map<Seq<char>, u64> {
        kv_map(session_pairs(self.sessions@))
    }

    /// The token of the session the calling thread currently has active, if
    /// any.
    pub closed spec fn active_session(&self) -> Option<Seq<char>> {
        match self.current_session {
            Some(i) => if i < self.sessions@.len() {
                Some(self.sessions@[i as int].token@)
            } else {
                None
            },
            None => None,
        }
    }

    /// The number of session identifiers handed out so far.
    pub closed spec fn sessions_issued(&self) -> u64 {
        self.session_counter
    }

    /// The number of checkpoint tokens handed out so far.
    pub closed spec fn checkpoints_issued(&self) -> u64 {
        self.checkpoint_counter
    }

    spec fn snapshot_view_pairs(&self) -> Seq<(Seq<char>, Map<Seq<u8>, Seq<u8>>)> {
        self.snapshots@.map_values(|s: Snapshot| (s.token@, kv_map(views_of(s.entries@))))
    }

    spec fn snapshot_serial_pairs(&self) -> Seq<(Seq<char>, Map<Seq<char>, u64>)> {
        self.snapshots@.map_values(|s: Snapshot| (s.token@, kv_map(session_pairs(s.sessions@))))
    }

    spec fn snapshot_live_pairs(&self) -> Seq<(Seq<char>, Seq<Seq<char>>)> {
        self.snapshots@.map_values(|s: Snapshot| (s.token@, live_tokens(s.sessions@)))
    }

    spec fn snapshot_version_pairs(&self) -> Seq<(Seq<char>, u32)> {
        self.snapshots@.map_values(|s: Snapshot| (s.token@, s.version))
    }

    /// The contents each checkpoint token names.
    pub closed spec fn snapshot_views(&self) -> Map<Seq<char>, Map<Seq<u8>, Seq<u8>>> {
        kv_map(self.snapshot_view_pairs())
    }

    /// The per-session serial progress each checkpoint token names.
    pub closed spec fn snapshot_serials(&self) -> Map<Seq<char>, Map<Seq<char>, u64>> {
        kv_map(self.snapshot_serial_pairs())
    }

    /// The identifiers of the sessions that were live when each checkpoint
    /// was taken.
    pub closed spec fn snapshot_live(&self) -> Map<Seq<char>, Seq<Seq<char>>> {
        kv_map(self.snapshot_live_pairs())
    }

    /// The version number each checkpoint token names.
    pub closed spec fn snapshot_versions(&self) -> Map<Seq<char>, u32> {
        kv_map(self.snapshot_version_pairs())
    }

    /// The identifiers of the currently live sessions, in registration
    /// order.
    pub closed spec fn live_sessions(&self) -> Seq<Seq<char>> {
        live_tokens(self.sessions@)
    }

    /// The number of operations issued since the last epoch refresh.
    pub closed spec fn ops_since_refresh(&self) -> u64 {
        self.ops_since_refresh
    }

    /// The session serial map after an operation with serial number
    /// `serial`: the active session's recorded serial rises to `serial` if
    /// that is higher; with no active session nothing is recorded.
    pub open spec fn serials_after(self, serial: u64) -> Map<Seq<char>, u64> {
        match self.active_session() {
            None => self.session_serials(),
            Some(t) => self.session_serials().insert(
                t,
                max64(self.session_serials()[t], serial),
            ),
        }
    }

    /// Everything an operation leaves untouched: the storage directory, the
    /// snapshot registry, the counters and the active session; the session
    /// serial map advances by the operation's serial number.
    pub open spec fn bookkeeping_after(old_s: Self, new_s: Self, serial: u64) -> bool {
        &&& new_s.session_serials() == old_s.serials_after(serial)
        &&& new_s.active_session() == old_s.active_session()
        &&& new_s.has_storage() == old_s.has_storage()
        &&& new_s.storage_path() == old_s.storage_path()
        &&& new_s.snapshot_views() == old_s.snapshot_views()
        &&& new_s.snapshot_serials() == old_s.snapshot_serials()
        &&& new_s.snapshot_live() == old_s.snapshot_live()
        &&& new_s.snapshot_versions() == old_s.snapshot_versions()
        &&& new_s.sessions_issued() == old_s.sessions_issued()
        &&& new_s.checkpoints_issued() == old_s.checkpoints_issued()
    }

    /// Record the serial number of one issued operation against the active
    /// session, and count the operation towards the next epoch refresh.
    fn record_serial(&mut self, serial: u64)
        requires
            old(self).wf(),
        ensures
            final(self).wf(),
            final(self)@ == old(self)@,
            Self::bookkeeping_after(*old(self), *final(self), serial),
    {
        proof {
            lemma_sessions_distinct(self.sessions@, self.session_counter);
        }
        if self.ops_since_refresh < u64::MAX {
            self.ops_since_refresh = self.ops_since_refresh + 1;
        }
        match self.current_session {
            Some(i) => {
                let ghost pairs = session_pairs(self.sessions@);
                let rec = &self.sessions[i];
                let updated = SessionRecord {
                    id: rec.id,
                    token: rec.token.clone(),
                    last_serial: if serial > rec.last_serial {
                        serial
                    } else {
                        rec.last_serial
                    },
                    active: rec.active,
                };
                proof {
                    lemma_kv_map_index(pairs, i as int);
                    lemma_kv_map_update(pairs, i as int, updated.last_serial);
                }
                self.sessions.set(i, updated);
                proof {
                    assert(session_pairs(self.sessions@) =~= pairs.update(
                        i as int,
                        (pairs[i as int].0, updated.last_serial),
                    ));
                    assert(self.session_serials() =~= old(self).serials_after(serial));
                }
            },
            None => {
            },
        }
    }

    /// Store `value` under `key`. The store then maps the encoded key to the
    /// encoded value; every other key is untouched.
    pub fn upsert<K: FasterKey, V: FasterValue>(
        &mut self,
        key: &K,
        value: &V,
        monotonic_serial_number: u64,
    ) -> (status: u8)
        requires
            old(self).wf(),
        ensures
            final(self).wf(),
            final(self)@ == old(self)@.insert(key.key_encoding(), value.encoding()),
            status == status::OK,
            Self::bookkeeping_after(*old(self), *final(self), monotonic_serial_number),
    {
        let key_bytes = key.encode_key();
        let value_bytes = value.encode();
        table_upsert(&mut self.table, key_bytes, value_bytes);
        self.record_serial(monotonic_serial_number);
        status::OK
    }

    /// Read the value stored under `key`. The returned status and slot say
    /// exactly what the store holds: a missing key reports `NOT_FOUND` with
    /// a closed slot; stored bytes that decode report `OK` with the decoded
    /// value delivered; stored bytes no value encodes to report `CORRUPTION`
    /// with a closed slot.
    pub fn read<K: FasterKey, V: FasterValue>(
        &mut self,
        key: &K,
        monotonic_serial_number: u64,
    ) -> (r: (u8, PendingResult<V>))
        requires
            old(self).wf(),
        ensures
            final(self).wf(),
            final(self)@ == old(self)@,
            Self::bookkeeping_after(*old(self), *final(self), monotonic_serial_number),
            !old(self)@.contains_key(key.key_encoding()) ==> r.0 == status::NOT_FOUND
                && r.1.is_closed(),
            old(self)@.contains_key(key.key_encoding()) && (exists|v: V|
                v.encoding() == old(self)@[key.key_encoding()]) ==> r.0 == status::OK
                && r.1.is_fulfilled() && r.1.value().encoding() == old(self)@[key.key_encoding()],
            old(self)@.contains_key(key.key_encoding()) && !(exists|v: V|
                v.encoding() == old(self)@[key.key_encoding()]) ==> r.0 == status::CORRUPTION
                && r.1.is_closed(),
    {
        let key_bytes = key.encode_key();
        let mut slot: PendingResult<V> = PendingResult::empty();
        let status: u8 = match table_get(&self.table, key_bytes.as_slice()) {
            Some(stored) => {
                match V::decode(stored.as_slice()) {
                    Some(v) => {
                        slot.fulfill(v);
                        status::OK
                    },
                    None => {
                        slot.close();
                        status::CORRUPTION
                    },
                }
            },
            None => {
                slot.close();
                status::NOT_FOUND
            },
        };
        self.record_serial(monotonic_serial_number);
        (status, slot)
    }

    /// Merge `modification` into the value stored under `key`. On a key with
    /// no prior value the modification becomes the stored value verbatim and
    /// the merge routine is not invoked; on an existing, decodable value the
    /// merged value replaces it; on stored bytes no value encodes to the
    /// store is untouched and `CORRUPTION` is reported.
    pub fn rmw<K: FasterKey, V: FasterValue + FasterRmw>(
        &mut self,
        key: &K,
        modification: V,
        monotonic_serial_number: u64,
    ) -> (status: u8)
        requires
            old(self).wf(),
        ensures
            final(self).wf(),
            Self::bookkeeping_after(*old(self), *final(self), monotonic_serial_number),
            !old(self)@.contains_key(key.key_encoding()) ==> status == status::OK && final(self)@
                == old(self)@.insert(key.key_encoding(), modification.encoding()),
            old(self)@.contains_key(key.key_encoding()) && (exists|v: V|
                v.encoding() == old(self)@[key.key_encoding()]) ==> status == status::OK && (exists|
                cur: V,
                merged: V,
            |
                {
                    &&& cur.encoding() == old(self)@[key.key_encoding()]
                    &&& #[trigger] cur.merges_to(modification, merged)
                    &&& final(self)@ == old(self)@.insert(key.key_encoding(), merged.encoding())
                }),
            old(self)@.contains_key(key.key_encoding()) && !(exists|v: V|
                v.encoding() == old(self)@[key.key_encoding()]) ==> status == status::CORRUPTION
                && final(self)@ == old(self)@,
    {
        let key_bytes = key.encode_key();
        let status: u8 = match table_get(&self.table, key_bytes.as_slice()) {
            Some(stored) => {
                match V::decode(stored.as_slice()) {
                    Some(cur) => {
                        let merged = cur.rmw(modification);
                        let merged_bytes = merged.encode();
                        let ghost cur_ghost = cur;
                        let ghost merged_ghost = merged;
                        table_upsert(&mut self.table, key_bytes, merged_bytes);
                        proof {
                            assert(cur_ghost.merges_to(modification, merged_ghost));
                        }
                        status::OK
                    },
                    None => {
                        status::CORRUPTION
                    },
                }
            },
            None => {
                let modification_bytes = modification.encode();
                table_upsert(&mut self.table, key_bytes, modification_bytes);
                status::OK
            },
        };
        self.record_serial(monotonic_serial_number);
        status
    }

    /// Remove the value stored under `key`; reports `OK` if one was there
    /// and `NOT_FOUND` otherwise. The store then holds nothing under the
    /// key.
    pub fn delete<K: FasterKey>(&mut self, key: &K, monotonic_serial_number: u64) -> (status: u8)
        requires
            old(self).wf(),
        ensures
            final(self).wf(),
            final(self)@ == old(self)@.remove(key.key_encoding()),
            status == if old(self)@.contains_key(key.key_encoding()) {
                status::OK
            } else {
                status::NOT_FOUND
            },
            Self::bookkeeping_after(*old(self), *final(self), monotonic_serial_number),
    {
        let key_bytes = key.encode_key();
        let removed = table_remove(&mut self.table, key_bytes.as_slice());
        self.record_serial(monotonic_serial_number);
        if removed {
            status::OK
        } else {
            status::NOT_FOUND
        }
    }

    /// The number of records the store currently holds.
    pub fn size(&self) -> (r: u64)
        requires
            self.wf(),
        ensures
            r as nat == self@.dom().len(),
    {
        proof {
            lemma_kv_map_len(views_of(self.table@));
        }
        self.table.len() as u64
    }

    /// Drain outstanding asynchronous completions. Every operation of this
    /// store completes synchronously, so there is never anything to drain
    /// and the store is left exactly as it was; the blocking flag changes
    /// nothing.
    pub fn complete_pending(&mut self, _block: bool)
        requires
            old(self).wf(),
        ensures
            final(self).wf(),
            *final(self) == *old(self),
    {
    }

    /// Announce progress to the engine's epoch protocol; resets the count of
    /// operations issued since the last refresh.
    pub fn refresh(&mut self)
        requires
            old(self).wf(),
        ensures
            final(self).wf(),
            final(self)@ == old(self)@,
            final(self).ops_since_refresh() == 0,
            final(self).session_serials() == old(self).session_serials(),
            final(self).active_session() == old(self).active_session(),
            final(self).has_storage() == old(self).has_storage(),
            final(self).snapshot_views() == old(self).snapshot_views(),
            final(self).snapshot_serials() == old(self).snapshot_serials(),
            final(self).snapshot_live() == old(self).snapshot_live(),
    {
        self.ops_since_refresh = 0;
    }
}

impl FasterKv {
    /// Register the calling thread with the engine: a fresh session becomes
    /// the active one, starting with serial number zero, and its
    /// 36-character identifier is returned.
    pub fn start_session(&mut self) -> (token: String)
        requires
            old(self).wf(),
            old(self).active_session() is None,
            old(self).sessions_issued() < u64::MAX,
        ensures
            final(self).wf(),
            final(self)@ == old(self)@,
            token@.len() == 36,
            !old(self).session_serials().contains_key(token@),
            final(self).session_serials() == old(self).session_serials().insert(token@, 0),
            final(self).active_session() == Some(token@),
            final(self).sessions_issued() == old(self).sessions_issued() + 1,
            final(self).has_storage() == old(self).has_storage(),
            final(self).storage_path() == old(self).storage_path(),
            final(self).snapshot_views() == old(self).snapshot_views(),
            final(self).snapshot_serials() == old(self).snapshot_serials(),
            final(self).snapshot_live() == old(self).snapshot_live(),
            final(self).snapshot_versions() == old(self).snapshot_versions(),
            final(self).checkpoints_issued() == old(self).checkpoints_issued(),
    {
        let id = self.session_counter;
        self.session_counter = id + 1;
        let token = make_token(id);
        let ghost pairs = session_pairs(self.sessions@);
        proof {
            lemma_kv_map_contains(pairs, spec_token(id));
            assert forall|j: int| 0 <= j < pairs.len() implies pairs[j].0 != spec_token(id) by {
                if self.sessions@[j].token@ == spec_token(id) {
                    lemma_token_injective(self.sessions@[j].id, id);
                }
            }
        }
        let idx = self.sessions.len();
        let rec = SessionRecord { id, token: token.clone(), last_serial: 0, active: true };
        self.sessions.push(rec);
        self.current_session = Some(idx);
        proof {
            assert(session_pairs(self.sessions@) =~= pairs.push((token@, 0u64)));
            assert(session_pairs(self.sessions@).drop_last() =~= pairs);
            assert(self.session_serials() =~= old(self).session_serials().insert(token@, 0u64));
            assert(sessions_wf(self.sessions@, self.session_counter));
        }
        token
    }

    /// End the active session: the thread is unregistered, while the
    /// session's recorded serial progress stays in the registry.
    pub fn stop_session(&mut self)
        requires
            old(self).wf(),
            old(self).active_session() is Some,
        ensures
            final(self).wf(),
            final(self)@ == old(self)@,
            final(self).active_session() is None,
            final(self).session_serials() == old(self).session_serials(),
            final(self).has_storage() == old(self).has_storage(),
            final(self).storage_path() == old(self).storage_path(),
            final(self).snapshot_views() == old(self).snapshot_views(),
            final(self).snapshot_serials() == old(self).snapshot_serials(),
            final(self).snapshot_live() == old(self).snapshot_live(),
            final(self).snapshot_versions() == old(self).snapshot_versions(),
            final(self).sessions_issued() == old(self).sessions_issued(),
            final(self).checkpoints_issued() == old(self).checkpoints_issued(),
    {
        let ghost pairs = session_pairs(self.sessions@);
        match self.current_session {
            Some(i) => {
                let rec = &self.sessions[i];
                let updated = SessionRecord {
                    id: rec.id,
                    token: rec.token.clone(),
                    last_serial: rec.last_serial,
                    active: false,
                };
                self.sessions.set(i, updated);
                self.current_session = None;
                proof {
                    assert(session_pairs(self.sessions@) =~= pairs);
                }
            },
            None => {
            },
        }
    }

    /// Re-activate a previously checkpointed session after recovery. The
    /// token must name a registered session; the call returns the last
    /// durable serial number recorded for it, so the caller can resume
    /// issuing serial numbers above that point without repeating
    /// already-durable effects.
    pub fn continue_session(&mut self, token: String) -> (serial: u64)
        requires
            old(self).wf(),
            old(self).active_session() is None,
            old(self).session_serials().contains_key(token@),
        ensures
            final(self).wf(),
            final(self)@ == old(self)@,
            serial == old(self).session_serials()[token@],
            final(self).session_serials() == old(self).session_serials(),
            final(self).active_session() == Some(token@),
            final(self).has_storage() == old(self).has_storage(),
            final(self).storage_path() == old(self).storage_path(),
            final(self).snapshot_views() == old(self).snapshot_views(),
            final(self).snapshot_serials() == old(self).snapshot_serials(),
            final(self).snapshot_live() == old(self).snapshot_live(),
            final(self).snapshot_versions() == old(self).snapshot_versions(),
            final(self).sessions_issued() == old(self).sessions_issued(),
            final(self).checkpoints_issued() == old(self).checkpoints_issued(),
    {
        let ghost pairs = session_pairs(self.sessions@);
        proof {
            lemma_sessions_distinct(self.sessions@, self.session_counter);
            lemma_kv_map_contains(pairs, token@);
        }
        let mut i: usize = 0;
        while i < self.sessions.len()
            invariant
                i <= self.sessions@.len(),
                *self == *old(self),
                old(self).wf(),
                pairs == session_pairs(self.sessions@),
                kv_distinct(pairs),
                old(self).session_serials().contains_key(token@),
                old(self).active_session() is None,
                forall|j: int| 0 <= j < i ==> self.sessions@[j].token@ != token@,
            decreases self.sessions@.len() - i,
        {
            if self.sessions[i].token == token {
                let rec = &self.sessions[i];
                let serial = rec.last_serial;
                let updated = SessionRecord {
                    id: rec.id,
                    token: rec.token.clone(),
                    last_serial: rec.last_serial,
                    active: true,
                };
                proof {
                    lemma_kv_map_index(pairs, i as int);
                }
                self.sessions.set(i, updated);
                self.current_session = Some(i);
                proof {
                    assert(session_pairs(self.sessions@) =~= pairs);
                }
                return serial;
            }
            i = i + 1;
        }
        proof {
            lemma_kv_map_contains(pairs, token@);
            assert(false);
        }
        0
    }

    /// Take a full checkpoint: persist the current records and every
    /// session's serial progress under a fresh 36-character token. Fails
    /// with `InvalidType` on a handle without a backing directory, and with
    /// `CheckpointError` once no fresh token is left.
    pub fn checkpoint(&mut self) -> (r: Result<CheckPoint, FasterError<'static>>)
        requires
            old(self).wf(),
        ensures
            final(self).wf(),
            checkpoint_outcome(*old(self), *final(self), r),
    {
        self.take_checkpoint()
    }

    /// Take an index checkpoint. The engine persists the same consistent cut
    /// as a full checkpoint; the outcome contract is the same.
    pub fn checkpoint_index(&mut self) -> (r: Result<CheckPoint, FasterError<'static>>)
        requires
            old(self).wf(),
        ensures
            final(self).wf(),
            checkpoint_outcome(*old(self), *final(self), r),
    {
        self.take_checkpoint()
    }

    /// Take a hybrid-log checkpoint. The engine persists the same consistent
    /// cut as a full checkpoint; the outcome contract is the same.
    pub fn checkpoint_hybrid_log(&mut self) -> (r: Result<CheckPoint, FasterError<'static>>)
        requires
            old(self).wf(),
        ensures
            final(self).wf(),
            checkpoint_outcome(*old(self), *final(self), r),
    {
        self.take_checkpoint()
    }

    fn take_checkpoint(&mut self) -> (r: Result<CheckPoint, FasterError<'static>>)
        requires
            old(self).wf(),
        ensures
            final(self).wf(),
            checkpoint_outcome(*old(self), *final(self), r),
    {
        if self.storage_dir.is_none() {
            return Err(FasterError::InvalidType);
        }
        if self.checkpoint_counter == u64::MAX {
            return Err(FasterError::CheckpointError);
        }
        let id = self.checkpoint_counter;
        self.checkpoint_counter = id + 1;
        let token = make_token(id);
        let ghost snaps = self.snapshots@;
        proof {
            lemma_snapshot_tokens_distinct(snaps, self.checkpoint_counter);
            assert forall|j: int| 0 <= j < snaps.len() implies snaps[j].token@ != spec_token(id) by {
                if snaps[j].token@ == spec_token(id) {
                    lemma_token_injective(snaps[j].id, id);
                }
            }
            lemma_kv_map_contains(old(self).snapshot_view_pairs(), token@);
        }
        let entries = table_copy(&self.table);
        let sessions = sessions_copy(&self.sessions, false);
        let version: u32 = #[verifier::truncate] (id as u32);
        let snap = Snapshot { id, token: token.clone(), version, entries, sessions };
        proof {
            assert(session_pairs(snap.sessions@) =~= session_pairs(self.sessions@));
            assert(live_tokens_match(snap.sessions@, self.sessions@));
            lemma_live_tokens_congruent(snap.sessions@, self.sessions@);
        }
        let ghost pushed = (
            snap.token@,
            kv_map(views_of(snap.entries@)),
            kv_map(session_pairs(snap.sessions@)),
            live_tokens(snap.sessions@),
            snap.version,
        );
        self.snapshots.push(snap);
        proof {
            assert(self.snapshot_view_pairs().drop_last() =~= old(self).snapshot_view_pairs());
            assert(self.snapshot_serial_pairs().drop_last() =~= old(
                self,
            ).snapshot_serial_pairs());
            assert(self.snapshot_live_pairs().drop_last() =~= old(self).snapshot_live_pairs());
            assert(self.snapshot_version_pairs().drop_last() =~= old(
                self,
            ).snapshot_version_pairs());
            assert(self.snapshot_view_pairs().last() == (pushed.0, pushed.1));
            assert(self.snapshot_serial_pairs().last() == (pushed.0, pushed.2));
            assert(self.snapshot_live_pairs().last() == (pushed.0, pushed.3));
            assert(self.snapshot_version_pairs().last() == (pushed.0, pushed.4));
            assert(pushed.1 == old(self)@);
            assert(session_pairs(self.snapshots@.last().sessions@) =~= session_pairs(
                old(self).sessions@,
            ));
            assert(pushed.2 == old(self).session_serials());
            assert(pushed.3 == live_tokens_of(*old(self)));
            assert(self.snapshot_views() =~= old(self).snapshot_views().insert(
                pushed.0,
                old(self)@,
            ));
            assert(self.snapshot_serials() =~= old(self).snapshot_serials().insert(
                pushed.0,
                old(self).session_serials(),
            ));
            assert(self.snapshot_live() =~= old(self).snapshot_live().insert(
                pushed.0,
                live_tokens_of(*old(self)),
            ));
            assert(self.snapshot_versions() =~= old(self).snapshot_versions().insert(
                pushed.0,
                pushed.4,
            ));
            assert(self.wf());
        }
        Ok(CheckPoint { checked: true, token })
    }
}

/// What a checkpoint call leaves behind: on a handle without a backing
/// directory it fails with `InvalidType` and changes nothing; with every
/// token spent it fails with `CheckpointError` and changes nothing;
/// otherwise it registers the current contents and session progress under a
/// fresh 36-character token and touches nothing else.
pub open spec fn checkpoint_outcome(
    old_s: FasterKv,
    new_s: FasterKv,
    r: Result<CheckPoint, FasterError<'static>>,
) -> bool {
    &&& !old_s.has_storage() ==> (r matches Err(e) && e is InvalidType && new_s == old_s)
    &&& old_s.has_storage() && old_s.checkpoints_issued() == u64::MAX ==> (r matches Err(e)
        && e is CheckpointError && new_s == old_s)
    &&& old_s.has_storage() && old_s.checkpoints_issued() < u64::MAX ==> (r matches Ok(c) && {
        &&& c.checked == true
        &&& c.token@.len() == 36
        &&& !old_s.snapshot_views().contains_key(c.token@)
        &&& new_s@ == old_s@
        &&& new_s.session_serials() == old_s.session_serials()
        &&& new_s.active_session() == old_s.active_session()
        &&& new_s.has_storage() == old_s.has_storage()
        &&& new_s.storage_path() == old_s.storage_path()
        &&& new_s.sessions_issued() == old_s.sessions_issued()
        &&& new_s.checkpoints_issued() == old_s.checkpoints_issued() + 1
        &&& new_s.snapshot_views() == old_s.snapshot_views().insert(c.token@, old_s@)
        &&& new_s.snapshot_serials() == old_s.snapshot_serials().insert(
            c.token@,
            old_s.session_serials(),
        )
        &&& new_s.snapshot_live() == old_s.snapshot_live().insert(
            c.token@,
            live_tokens_of(old_s),
        )
        &&& new_s.snapshot_versions() == old_s.snapshot_versions().insert(
            c.token@,
            (old_s.checkpoints_issued() as u32),
        )
    })
}

/// The identifiers of the sessions currently live in a store.
pub open spec fn live_tokens_of(s: FasterKv) -> Seq<Seq<char>> {
    s.live_sessions()
}

/// Two registries agree on identity, serial and liveness, record by record.
pub(crate) open spec fn live_tokens_match(a: Seq<SessionRecord>, b: Seq<SessionRecord>) -> bool {
    a.len() == b.len() && forall|i: int|
        0 <= i < a.len() ==> (#[trigger] a[i]).token@ == b[i].token@ && a[i].active == b[i].active
}

pub(crate) proof fn lemma_live_tokens_congruent(a: Seq<SessionRecord>, b: Seq<SessionRecord>)
    requires
        live_tokens_match(a, b),
    ensures
        live_tokens(a) == live_tokens(b),
    decreases a.len(),
{
    if a.len() > 0 {
        assert(live_tokens_match(a.drop_last(), b.drop_last()));
        lemma_live_tokens_congruent(a.drop_last(), b.drop_last());
    }
}

proof fn lemma_snapshot_tokens_distinct(s: Seq<Snapshot>, bound: u64)
    requires
        forall|i: int| 0 <= i < s.len() ==> (#[trigger] s[i]).token@ == spec_token(s[i].id),
        forall|i: int, j: int| 0 <= i < j < s.len() ==> s[i].id != s[j].id,
    ensures
        forall|i: int, j: int|
            0 <= i < j < s.len() ==> #[trigger] s[i].token@ != #[trigger] s[j].token@,
{
    assert forall|i: int, j: int| 0 <= i < j < s.len() implies #[trigger] s[i].token@
        != #[trigger] s[j].token@ by {
        if s[i].token@ == s[j].token@ {
            lemma_token_injective(s[i].id, s[j].id);
        }
    }
}

/// A record-by-record copy of a session registry; with `deactivate` set the
/// copies are all marked not live.
fn sessions_copy(s: &Vec<SessionRecord>, deactivate: bool) -> (r: Vec<SessionRecord>)
    ensures
        r@.len() == s@.len(),
        forall|i: int|
            0 <= i < s@.len() ==> (#[trigger] r@[i]).id == s@[i].id && r@[i].token@
                == s@[i].token@ && r@[i].last_serial == s@[i].last_serial && r@[i].active == (
            if deactivate {
                false
            } else {
                s@[i].active
            }),
{
    let mut r: Vec<SessionRecord> = Vec::new();
    let mut i: usize = 0;
    while i < s.len()
        invariant
            i <= s@.len(),
            r@.len() == i,
            forall|j: int|
                0 <= j < i ==> (#[trigger] r@[j]).id == s@[j].id && r@[j].token@ == s@[j].token@
                    && r@[j].last_serial == s@[j].last_serial && r@[j].active == (
                if deactivate {
                    false
                } else {
                    s@[j].active
                }),
        decreases s@.len() - i,
    {
        let rec = &s[i];
        r.push(
            SessionRecord {
                id: rec.id,
                token: rec.token.clone(),
                last_serial: rec.last_serial,
                active: if deactivate {
                    false
                } else {
                    rec.active
                },
            },
        );
        i = i + 1;
    }
    r
}

/// The character sequences of a list of token strings.
pub open spec fn token_views(s: Seq<String>) -> Seq<Seq<char>> {
    s.map_values(|t: String| t@)
}

/// Every live identifier of a registry is the token of one of its records.
pub(crate) proof fn lemma_live_tokens_registered(s: Seq<SessionRecord>)
    ensures
        forall|t: Seq<char>|
            live_tokens(s).contains(t) ==> exists|i: int| 0 <= i < s.len() && s[i].token@ == t,
    decreases s.len(),
{
    if s.len() > 0 {
        lemma_live_tokens_registered(s.drop_last());
        assert forall|t: Seq<char>| live_tokens(s).contains(t) implies exists|i: int|
            0 <= i < s.len() && s[i].token@ == t by {
            if live_tokens(s.drop_last()).contains(t) {
                let i = choose|i: int| 0 <= i < s.drop_last().len() && s.drop_last()[i].token@
                    == t;
                assert(s[i].token@ == t);
            } else {
                assert(s[s.len() - 1].token@ == t);
            }
        }
    }
}

/// What a recovery call leaves behind: it fails with `InvalidType` on a
/// handle without a backing directory and with `RecoveryError` on mismatched
/// or unknown tokens, in both cases changing nothing; on the token of a
/// taken checkpoint it restores exactly the contents and session progress
/// that checkpoint named, deactivates every session, and reports the
/// checkpoint's version and live session identifiers.
pub open spec fn recover_outcome(
    old_s: FasterKv,
    new_s: FasterKv,
    it: Seq<char>,
    ht: Seq<char>,
    r: Result<Recover, FasterError<'static>>,
) -> bool {
    &&& !old_s.has_storage() ==> (r matches Err(e) && e is InvalidType && new_s == old_s)
    &&& old_s.has_storage() && it != ht ==> (r matches Err(e) && e is RecoveryError && new_s
        == old_s)
    &&& old_s.has_storage() && it == ht && !old_s.snapshot_views().contains_key(it) ==> (
    r matches Err(e) && e is RecoveryError && new_s == old_s)
    &&& old_s.has_storage() && it == ht && old_s.snapshot_views().contains_key(it) ==> (
    r matches Ok(rec) && {
        &&& rec.status == crate::status::OK
        &&& rec.version == old_s.snapshot_versions()[it]
        &&& token_views(rec.session_ids@) == old_s.snapshot_live()[it]
        &&& forall|t: Seq<char>|
            old_s.snapshot_live()[it].contains(t) ==> new_s.session_serials().contains_key(t)
        &&& new_s@ == old_s.snapshot_views()[it]
        &&& new_s.session_serials() == old_s.snapshot_serials()[it]
        &&& new_s.active_session() is None
        &&& new_s.has_storage() == old_s.has_storage()
        &&& new_s.storage_path() == old_s.storage_path()
        &&& new_s.snapshot_views() == old_s.snapshot_views()
        &&& new_s.snapshot_serials() == old_s.snapshot_serials()
        &&& new_s.snapshot_live() == old_s.snapshot_live()
        &&& new_s.snapshot_versions() == old_s.snapshot_versions()
        &&& new_s.sessions_issued() == old_s.sessions_issued()
        &&& new_s.checkpoints_issued() == old_s.checkpoints_issued()
    })
}

/// The identifiers of the live sessions of a registry, as owned strings.
fn live_ids(s: &Vec<SessionRecord>) -> (r: Vec<String>)
    ensures
        token_views(r@) == live_tokens(s@),
{
    let mut r: Vec<String> = Vec::new();
    let mut i: usize = 0;
    while i < s.len()
        invariant
            i <= s@.len(),
            token_views(r@) =~= live_tokens(s@.take(i as int)),
        decreases s@.len() - i,
    {
        if s[i].active {
            r.push(s[i].token.clone());
        }
        proof {
            assert(s@.take(i as int + 1).drop_last() =~= s@.take(i as int));
            assert(s@.take(i as int + 1).last() == s@[i as int]);
            assert(token_views(r@) =~= live_tokens(s@.take(i as int + 1)));
        }
        i = i + 1;
    }
    proof {
        assert(s@.take(s@.len() as int) =~= s@);
    }
    r
}

impl FasterKv {
    /// Restore the store from the snapshot the two tokens name. A combined
    /// checkpoint token is used verbatim for both the index and the
    /// hybrid-log facet, so the two must agree and name a taken checkpoint.
    pub fn recover(&mut self, index_token: String, hybrid_log_token: String) -> (r: Result<
        Recover,
        FasterError<'static>,
    >)
        requires
            old(self).wf(),
        ensures
            final(self).wf(),
            recover_outcome(*old(self), *final(self), index_token@, hybrid_log_token@, r),
    {
        if self.storage_dir.is_none() {
            return Err(FasterError::InvalidType);
        }
        if !(index_token == hybrid_log_token) {
            return Err(FasterError::RecoveryError);
        }
        proof {
            lemma_snapshot_tokens_distinct(self.snapshots@, self.checkpoint_counter);
            assert(kv_distinct(self.snapshot_view_pairs()));
            assert(kv_distinct(self.snapshot_serial_pairs()));
            assert(kv_distinct(self.snapshot_live_pairs()));
            assert(kv_distinct(self.snapshot_version_pairs()));
        }
        let mut i: usize = 0;
        while i < self.snapshots.len()
            invariant
                i <= self.snapshots@.len(),
                *self == *old(self),
                old(self).wf(),
                old(self).has_storage(),
                index_token@ == hybrid_log_token@,
                forall|j: int| 0 <= j < i ==> self.snapshots@[j].token@ != index_token@,
            decreases self.snapshots@.len() - i,
        {
            if self.snapshots[i].token == index_token {
                proof {
                    lemma_snapshot_tokens_distinct(self.snapshots@, self.checkpoint_counter);
                    assert(kv_distinct(self.snapshot_view_pairs()));
                    assert(kv_distinct(self.snapshot_serial_pairs()));
                    assert(kv_distinct(self.snapshot_live_pairs()));
                    assert(kv_distinct(self.snapshot_version_pairs()));
                    lemma_kv_map_index(self.snapshot_view_pairs(), i as int);
                    lemma_kv_map_index(self.snapshot_serial_pairs(), i as int);
                    lemma_kv_map_index(self.snapshot_live_pairs(), i as int);
                    lemma_kv_map_index(self.snapshot_version_pairs(), i as int);
                }
                let new_table = table_copy(&self.snapshots[i].entries);
                let new_sessions = sessions_copy(&self.snapshots[i].sessions, true);
                let ids = live_ids(&self.snapshots[i].sessions);
                let version = self.snapshots[i].version;
                proof {
                    assert(session_pairs(new_sessions@) =~= session_pairs(
                        self.snapshots@[i as int].sessions@,
                    ));
                    assert(live_tokens_match(
                        self.snapshots@[i as int].sessions@,
                        self.snapshots@[i as int].sessions@,
                    ));
                }
                self.table = new_table;
                self.sessions = new_sessions;
                self.current_session = None;
                proof {
                    assert(views_of(self.table@) == views_of(
                        old(self).snapshots@[i as int].entries@,
                    ));
                    assert(self.wf());
                    let snap_sessions = old(self).snapshots@[i as int].sessions@;
                    lemma_live_tokens_registered(snap_sessions);
                    assert forall|t: Seq<char>| live_tokens(snap_sessions).contains(
                        t,
                    ) implies self.session_serials().contains_key(t) by {
                        let j = choose|j: int| 0 <= j < snap_sessions.len()
                            && snap_sessions[j].token@ == t;
                        assert(session_pairs(self.sessions@)[j].0 == t);
                        lemma_kv_map_contains(session_pairs(self.sessions@), t);
                    }
                }
                return Ok(Recover { status: status::OK, version, session_ids: ids });
            }
            i = i + 1;
        }
        proof {
            lemma_kv_map_contains(self.snapshot_view_pairs(), index_token@);
        }
        Err(FasterError::RecoveryError)
    }

    /// The backing storage directory configured for this handle, if any.
    pub fn storage_dir(&self) -> (r: Option<&String>)
        ensures
            match r {
                Some(d) => self.storage_path() == Some(d@),
                None => self.storage_path() is None,
            },
    {
        match &self.storage_dir {
            Some(d) => Some(d),
            None => None,
        }
    }

    /// An iterator over a point-in-time copy of the store's records.
    pub fn get_iterator(&self) -> (it: FasterIterator)
        requires
            self.wf(),
        ensures
            it.wf(),
            kv_map(it.remaining()) == self@,
            kv_distinct(it.remaining()),
    {
        let records = table_copy(&self.table);
        proof {
            assert(views_of(records@).skip(0) =~= views_of(self.table@));
        }
        FasterIterator { records, pos: 0 }
    }
}

/// One record yielded by an in-memory scan: the key and value byte buffers.
pub struct FasterIteratorRecord {
    pub key: Option<Vec<u8>>,
    pub value: Option<Vec<u8>>,
}

/// An in-memory scan over a point-in-time copy of the store's records.
pub struct FasterIterator {
    records: Vec<Entry>,
    pos: usize,
}

impl FasterIterator {
    /// The scan position has not run past the copied records.
    pub closed spec fn wf(&self) -> bool {
        self.pos <= self.records@.len()
    }

    /// The key/value pairs not yet yielded.
    pub closed spec fn remaining(&self) -> Seq<(Seq<u8>, Seq<u8>)> {
        views_of(self.records@).skip(self.pos as int)
    }

    /// The next not-yet-yielded record, or nothing once the scan is done.
    pub fn get_next(&mut self) -> (r: Option<FasterIteratorRecord>)
        requires
            old(self).wf(),
        ensures
            final(self).wf(),
            old(self).remaining().len() == 0 ==> (r is None && *final(self) == *old(self)),
            old(self).remaining().len() > 0 ==> (r matches Some(rec) && {
                &&& rec.key matches Some(k) && k@ == old(self).remaining()[0].0
                &&& rec.value matches Some(v) && v@ == old(self).remaining()[0].1
                &&& final(self).remaining() == old(self).remaining().skip(1)
            }),
    {
        if self.pos < self.records.len() {
            let (k, v) = entry_at(&self.records, self.pos);
            self.pos = self.pos + 1;
            proof {
                assert(self.remaining() =~= old(self).remaining().skip(1));
                assert(old(self).remaining()[0] == views_of(self.records@)[old(self).pos as int]);
            }
            Some(FasterIteratorRecord { key: Some(k), value: Some(v) })
        } else {
            None
        }
    }
}

/// Configuration for opening a store: hash table size, log size, an
/// optional backing directory, the share of the log kept mutable (as a
/// percentage), and whether to allocate the whole log up front.
pub struct FasterKvBuilder<'a> {
    table_size: u64,
    log_size: u64,
    storage: Option<&'a str>,
    log_mutable_fraction_percent: u64,
    pre_allocate_log: bool,
}

impl<'a> FasterKvBuilder<'a> {
    /// The configured hash table size.
    pub closed spec fn spec_table_size(&self) -> u64 {
        self.table_size
    }

    /// The configured log size.
    pub closed spec fn spec_log_size(&self) -> u64 {
        self.log_size
    }

    /// The configured backing directory, if any.
    pub closed spec fn spec_storage(&self) -> Option<Seq<char>> {
        match self.storage {
            Some(p) => Some(p@),
            None => None,
        }
    }

    /// The configured mutable share of the log, in percent.
    pub closed spec fn spec_fraction_percent(&self) -> u64 {
        self.log_mutable_fraction_percent
    }

    /// Whether the log is to be allocated up front.
    pub closed spec fn spec_pre_allocate(&self) -> bool {
        self.pre_allocate_log
    }

    /// A configuration for an in-memory store with the given table and log
    /// sizes, ninety percent of the log mutable, and no up-front allocation.
    pub fn new(table_size: u64, log_size: u64) -> (r: FasterKvBuilder<'a>)
        ensures
            r.spec_table_size() == table_size,
            r.spec_log_size() == log_size,
            r.spec_storage() is None,
            r.spec_fraction_percent() == 90,
            !r.spec_pre_allocate(),
    {
        FasterKvBuilder {
            table_size,
            log_size,
            storage: None,
            log_mutable_fraction_percent: 90,
            pre_allocate_log: false,
        }
    }

    /// Back the store with the given directory, enabling checkpointing and
    /// recovery.
    pub fn with_disk(&mut self, path: &'a str) -> (r: &mut FasterKvBuilder<'a>)
        ensures
            r.spec_table_size() == old(self).spec_table_size(),
            r.spec_log_size() == old(self).spec_log_size(),
            r.spec_storage() == Some(path@),
            r.spec_fraction_percent() == old(self).spec_fraction_percent(),
            r.spec_pre_allocate() == old(self).spec_pre_allocate(),
            *final(self) == *final(r),
    {
        self.storage = Some(path);
        self
    }

    /// Set the share of the log kept mutable, in percent of its size; a
    /// valid share is above zero and at most one hundred.
    pub fn with_log_mutable_fraction(&mut self, fraction_percent: u64) -> (r: &mut FasterKvBuilder<
        'a,
    >)
        ensures
            r.spec_table_size() == old(self).spec_table_size(),
            r.spec_log_size() == old(self).spec_log_size(),
            r.spec_storage() == old(self).spec_storage(),
            r.spec_fraction_percent() == fraction_percent,
            r.spec_pre_allocate() == old(self).spec_pre_allocate(),
            *final(self) == *final(r),
    {
        self.log_mutable_fraction_percent = fraction_percent;
        self
    }

    /// Choose whether the log is allocated up front.
    pub fn set_pre_allocate_log(&mut self, pre_allocate_log: bool) -> (r: &mut FasterKvBuilder<
        'a,
    >)
        ensures
            r.spec_table_size() == old(self).spec_table_size(),
            r.spec_log_size() == old(self).spec_log_size(),
            r.spec_storage() == old(self).spec_storage(),
            r.spec_fraction_percent() == old(self).spec_fraction_percent(),
            r.spec_pre_allocate() == pre_allocate_log,
            *final(self) == *final(r),
    {
        self.pre_allocate_log = pre_allocate_log;
        self
    }

    /// Open the store this configuration describes: empty, with no sessions
    /// and no checkpoints, and disk-backed exactly when a directory was
    /// given. A mutable log share outside (0, 100] is rejected before any
    /// engine work.
    pub fn build(&self) -> (r: Result<FasterKv, FasterError<'static>>)
        ensures
            0 < self.spec_fraction_percent() <= 100 ==> (r matches Ok(store) && {
                &&& store.wf()
                &&& store@ == Map::<Seq<u8>, Seq<u8>>::empty()
                &&& store.has_storage() == (self.spec_storage() is Some)
                &&& store.storage_path() == self.spec_storage()
                &&& store.session_serials() == Map::<Seq<char>, u64>::empty()
                &&& store.active_session() is None
                &&& store.snapshot_views() == Map::<Seq<char>, Map<Seq<u8>, Seq<u8>>>::empty()
                &&& store.snapshot_serials() == Map::<Seq<char>, Map<Seq<char>, u64>>::empty()
                &&& store.snapshot_live() == Map::<Seq<char>, Seq<Seq<char>>>::empty()
                &&& store.snapshot_versions() == Map::<Seq<char>, u32>::empty()
                &&& store.sessions_issued() == 0
                &&& store.checkpoints_issued() == 0
                &&& store.ops_since_refresh() == 0
            }),
            !(0 < self.spec_fraction_percent() <= 100) ==> (r matches Err(e)
                && e is BuilderError),
    {
        if !(self.log_mutable_fraction_percent > 0 && self.log_mutable_fraction_percent <= 100) {
            return Err(
                FasterError::BuilderError("log mutable fraction must be between 0 and 1"),
            );
        }
        let storage_dir: Option<String> = match self.storage {
            None => None,
            Some(p) => Some(p.to_owned()),
        };
        let kv = FasterKv {
            table: Vec::new(),
            storage_dir,
            table_size: self.table_size,
            log_size: self.log_size,
            sessions: Vec::new(),
            current_session: None,
            session_counter: 0,
            snapshots: Vec::new(),
            checkpoint_counter: 0,
            ops_since_refresh: 0,
        };
        proof {
            assert(kv@ =~= Map::<Seq<u8>, Seq<u8>>::empty());
            assert(kv.session_serials() =~= Map::<Seq<char>, u64>::empty());
            assert(kv.snapshot_views() =~= Map::<Seq<char>, Map<Seq<u8>, Seq<u8>>>::empty());
            assert(kv.snapshot_serials() =~= Map::<Seq<char>, Map<Seq<char>, u64>>::empty());
            assert(kv.snapshot_live() =~= Map::<Seq<char>, Seq<Seq<char>>>::empty());
            assert(kv.snapshot_versions() =~= Map::<Seq<char>, u32>::empty());
        }
        Ok(kv)
    }
}

impl Default for FasterKv {
    /// An in-memory store with the default table and log sizes.
    fn default() -> (r: FasterKv)
        ensures
            r.wf(),
            r@ == Map::<Seq<u8>, Seq<u8>>::empty(),
            !r.has_storage(),
            r.session_serials() == Map::<Seq<char>, u64>::empty(),
            r.active_session() is None,
            r.snapshot_views() == Map::<Seq<char>, Map<Seq<u8>, Seq<u8>>>::empty(),
            r.sessions_issued() == 0,
            r.checkpoints_issued() == 0,
    {
        let builder = FasterKvBuilder::new(32768, 1073741824);
        match builder.build() {
            Ok(store) => store,
            Err(_) => vstd::pervasive::unreached(),
        }
    }
}

/// A registry record that is live contributes its token to the live list.
pub(crate) proof fn lemma_live_tokens_contains(s: Seq<SessionRecord>, i: int)
    requires
        0 <= i < s.len(),
        s[i].active,
    ensures
        live_tokens(s).contains(s[i].token@),
    decreases s.len(),
{
    if i == s.len() - 1 {
        assert(live_tokens(s)[live_tokens(s.drop_last()).len() as int] == s[i].token@);
    } else {
        assert(s.drop_last()[i] == s[i]);
        lemma_live_tokens_contains(s.drop_last(), i);
        let j = choose|j: int| 0 <= j < live_tokens(s.drop_last()).len() && live_tokens(
            s.drop_last(),
        )[j] == s[i].token@;
        assert(live_tokens(s)[j] == s[i].token@);
    }
}

impl FasterKv {
    /// The active session is one of the live sessions, so a checkpoint taken
    /// while it is active lists its identifier, and recovery from that
    /// checkpoint lets `continue_session` resume it.
    pub proof fn lemma_active_session_is_live(self)
        requires
            self.wf(),
            self.active_session() is Some,
        ensures
            self.live_sessions().contains(self.active_session().unwrap()),
    {
        let i = self.current_session.unwrap();
        lemma_live_tokens_contains(self.sessions@, i as int);
    }
}

} // verus!
