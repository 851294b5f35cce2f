//! The drop store: which drops are live, which ids are burned, and how
//! downloads, removal and the reaper move a drop from one to the other.

use crate::platform::{now_millis, take_unshared};
use crate::primitives::wipe_bytes;
use crate::store_map::{
    listed, live_get, live_ids, live_insert, live_is_empty, live_new, live_records, live_remove,
    tombstones, tombstones_contain, tombstones_insert, tombstones_new, tombstones_retain,
};
use dashmap::DashMap;
use std::collections::hash_map::RandomState;
use std::sync::Arc;
use vstd::prelude::*;

verus! {

/// How long a tombstone is kept, in milliseconds: one hour.
pub const TOMBSTONE_TTL_MILLIS: i64 = 3_600_000;

/// Where the ciphertext of a drop lies: in memory or in a file of its own.
#[derive(Clone, Debug)]
pub enum Backing {
    Memory(Arc<Vec<u8>>),
    Disk(String),
}

/// The mathematical value of a `Backing`.
pub enum BackingView {
    Memory(Seq<u8>),
    Disk(Seq<char>),
}

impl View for Backing {
    type V = BackingView;

    open spec fn view(&self) -> BackingView {
        match self {
            Backing::Memory(bytes) => BackingView::Memory(bytes@),
            Backing::Disk(path) => BackingView::Disk(path@),
        }
    }
}

/// One encrypted payload with its metadata, its counter and its pin. Times
/// are milliseconds since the Unix epoch.
#[derive(Clone, Debug)]
pub struct Drop {
    pub id: String,
    pub backing: Backing,
    pub encrypted_size: u64,
    pub filename: String,
    pub mime_type: String,
    pub file_size: u64,
    pub created_at: i64,
    pub expires_at: i64,
    /// Downloads allowed; 0 for no limit.
    pub max_downloads: u32,
    pub download_count: u32,
    pub has_password: bool,
    /// The client address the drop is locked to, once one has fetched it.
    pub pinned_ip: Option<String>,
}

/// The mathematical value of a `Drop`.
pub struct DropView {
    pub id: Seq<char>,
    pub backing: BackingView,
    pub encrypted_size: u64,
    pub filename: Seq<char>,
    pub mime_type: Seq<char>,
    pub file_size: u64,
    pub created_at: i64,
    pub expires_at: i64,
    pub max_downloads: u32,
    pub download_count: u32,
    pub has_password: bool,
    pub pinned_ip: Option<Seq<char>>,
}

impl View for Drop {
    type V = DropView;

    open spec fn view(&self) -> DropView {
        DropView {
            id: self.id@,
            backing: self.backing@,
            encrypted_size: self.encrypted_size,
            filename: self.filename@,
            mime_type: self.mime_type@,
            file_size: self.file_size,
            created_at: self.created_at,
            expires_at: self.expires_at,
            max_downloads: self.max_downloads,
            download_count: self.download_count,
            has_password: self.has_password,
            pinned_ip: match self.pinned_ip {
                Some(ip) => Some(ip@),
                None => None,
            },
        }
    }
}

impl DropView {
    /// The counter has not passed the limit, where there is one.
    pub open spec fn within_limit(self) -> bool {
        self.max_downloads > 0 ==> self.download_count <= self.max_downloads
    }

    /// A buffer in memory has the length that the drop gives as the size of
    /// its ciphertext.
    pub open spec fn size_matches(self) -> bool {
        self.backing matches BackingView::Memory(bytes) ==> bytes.len() == self.encrypted_size
    }

    /// Every allowed download has been handed out.
    pub open spec fn exhausted(self) -> bool {
        self.max_downloads > 0 && self.download_count >= self.max_downloads
    }

    /// The drop is past its time at `now`.
    pub open spec fn expired_at(self, now: i64) -> bool {
        self.expires_at <= now
    }

    /// The counter after one more download. It never wraps.
    pub open spec fn next_count(self) -> u32 {
        if self.download_count == u32::MAX {
            u32::MAX
        } else {
            (self.download_count + 1) as u32
        }
    }

    /// The drop with one more download counted.
    pub open spec fn counted(self) -> DropView {
        DropView { download_count: self.next_count(), ..self }
    }

    /// The drop locked to a client address.
    pub open spec fn pinned_to(self, ip: Seq<char>) -> DropView {
        DropView { pinned_ip: Some(ip), ..self }
    }
}

/// A tombstone burned at `burned_at` is still kept at `now`: less than an
/// hour has passed.
pub open spec fn tombstone_kept_at(burned_at: i64, now: i64) -> bool {
    now - burned_at < TOMBSTONE_TTL_MILLIS
}

/// The state of a store: the live drops by id, and the burned ids with the
/// time each was burned at.
pub struct StoreModel {
    pub live: Map<Seq<char>, DropView>,
    pub burned: Map<Seq<char>, i64>,
}

impl StoreModel {
    /// What holds of every store: a drop is filed under its own id, no id is
    /// live and burned at once, no counter has passed its limit, and a
    /// buffer in memory is as long as its drop says.
    pub open spec fn wf(self) -> bool {
        &&& forall|id: Seq<char>| #[trigger]
            self.live.contains_key(id) ==> self.live[id].id == id
        &&& forall|id: Seq<char>| #[trigger]
            self.live.contains_key(id) ==> !self.burned.contains_key(id)
        &&& forall|id: Seq<char>| #[trigger]
            self.live.contains_key(id) ==> self.live[id].within_limit()
        &&& forall|id: Seq<char>| #[trigger]
            self.live.contains_key(id) ==> self.live[id].size_matches()
    }

    /// The id is neither live nor burned.
    pub open spec fn unknown(self, id: Seq<char>) -> bool {
        !self.live.contains_key(id) && !self.burned.contains_key(id)
    }

    /// The store takes this drop: its id is unknown, its counter is within
    /// its limit, and its buffer, if it has one, is as long as it says.
    pub open spec fn admits(self, drop: DropView) -> bool {
        self.unknown(drop.id) && drop.within_limit() && drop.size_matches()
    }

    /// The store with a drop filed under its id.
    pub open spec fn with_drop(self, drop: DropView) -> StoreModel {
        StoreModel { live: self.live.insert(drop.id, drop), ..self }
    }

    /// The store after `remove(id)` at time `now`: a live drop leaves the live
    /// set and its id is burned; any other id changes nothing.
    pub open spec fn removed(self, id: Seq<char>, now: i64) -> StoreModel {
        if self.live.contains_key(id) {
            StoreModel { live: self.live.remove(id), burned: self.burned.insert(id, now) }
        } else {
            self
        }
    }

    /// What `record_download(id)` returns: the new count and whether the
    /// drop is now to be deleted; nothing for an id that is not live, and
    /// nothing for a drop whose downloads are all handed out.
    pub open spec fn recorded_result(self, id: Seq<char>) -> Option<(u32, bool)> {
        if !self.live.contains_key(id) || self.live[id].exhausted() {
            None
        } else {
            let drop = self.live[id].counted();
            Some((drop.download_count, drop.exhausted()))
        }
    }

    /// The store after `record_download(id)`.
    pub open spec fn recorded(self, id: Seq<char>) -> StoreModel {
        if self.recorded_result(id) is Some {
            StoreModel { live: self.live.insert(id, self.live[id].counted()), ..self }
        } else {
            self
        }
    }

    /// The store after a live drop without a pin is locked to an address.
    pub open spec fn pinned(self, id: Seq<char>, ip: Seq<char>) -> StoreModel {
        if self.live.contains_key(id) && self.live[id].pinned_ip is None {
            StoreModel { live: self.live.insert(id, self.live[id].pinned_to(ip)), ..self }
        } else {
            self
        }
    }

    /// The store after every drop that is past its time at `now` has been
    /// removed at `now`.
    pub open spec fn evicted(self, now: i64) -> StoreModel {
        StoreModel {
            live: Map::new(
                |id: Seq<char>| self.live.contains_key(id) && !self.live[id].expired_at(now),
                |id: Seq<char>| self.live[id],
            ),
            burned: Map::new(
                |id: Seq<char>|
                    self.burned.contains_key(id) || (self.live.contains_key(id)
                        && self.live[id].expired_at(now)),
                |id: Seq<char>|
                    if self.live.contains_key(id) && self.live[id].expired_at(now) {
                        now
                    } else {
                        self.burned[id]
                    },
            ),
        }
    }

    /// The store without the tombstones that are an hour old or older.
    pub open spec fn pruned(self, now: i64) -> StoreModel {
        StoreModel {
            burned: Map::new(
                |id: Seq<char>|
                    self.burned.contains_key(id) && tombstone_kept_at(self.burned[id], now),
                |id: Seq<char>| self.burned[id],
            ),
            ..self
        }
    }

    /// The store after one pass of the reaper at `now`: expired drops are
    /// evicted, then old tombstones are pruned.
    pub open spec fn reaped(self, now: i64) -> StoreModel {
        self.evicted(now).pruned(now)
    }

    /// Some live drop is past its time at `now`.
    pub open spec fn has_expired(self, now: i64) -> bool {
        exists|id: Seq<char>| #[trigger]
            self.live.contains_key(id) && self.live[id].expired_at(now)
    }
}

/// Where a drop stands on its way from live to destroyed.
#[derive(Debug, Clone, Copy, PartialEq, Eq, Structural)]
pub enum Phase {
    /// The id is neither live nor burned.
    Unknown,
    /// The drop is live and has downloads left, or no limit.
    Live,
    /// The last download has been handed out; the drop waits to be removed.
    Draining,
    /// The drop is gone and its id is burned.
    Destroyed,
}

impl StoreModel {
    /// The phase of an id.
    pub open spec fn phase(self, id: Seq<char>) -> Phase {
        if self.live.contains_key(id) {
            if self.live[id].exhausted() {
                Phase::Draining
            } else {
                Phase::Live
            }
        } else if self.burned.contains_key(id) {
            Phase::Destroyed
        } else {
            Phase::Unknown
        }
    }
}

/// The self-destruct of a drop runs one way. Counting a download keeps a
/// drop live or starts its draining, and starts it exactly when the caller is
/// told to delete; a draining drop takes no download. Removal destroys a
/// live or draining drop, and so does the reaper once its time is up.
pub proof fn lemma_phases_run_one_way(store: StoreModel, id: Seq<char>, now: i64)
    requires
        store.wf(),
    ensures
        store.phase(id) is Live ==> (store.recorded(id).phase(id) is Draining <==> (
        store.recorded_result(id) matches Some(counted) && counted.1)),
        store.phase(id) is Live ==> store.recorded(id).phase(id) is Live || store.recorded(
            id,
        ).phase(id) is Draining,
        store.phase(id) is Draining ==> store.recorded_result(id) is None && store.recorded(id)
            == store,
        store.phase(id) is Live || store.phase(id) is Draining ==> store.removed(id, now).phase(
            id,
        ) is Destroyed,
        (store.phase(id) is Live || store.phase(id) is Draining) && store.live[id].expired_at(now)
            ==> store.reaped(now).phase(id) is Destroyed,
        store.phase(id) is Destroyed ==> store.recorded(id).phase(id) is Destroyed
            && store.removed(id, now).phase(id) is Destroyed,
{
    if (store.phase(id) is Live || store.phase(id) is Draining) && store.live[id].expired_at(now) {
        lemma_reaper_removes_expired(store, now);
    }
}

/// Filing an admitted drop keeps the store well formed: the id was not
/// burned, so no burned id enters the live set.
pub proof fn lemma_insert_keeps_wf(store: StoreModel, drop: DropView)
    requires
        store.wf(),
        store.admits(drop),
    ensures
        store.with_drop(drop).wf(),
        store.with_drop(drop).live.contains_key(drop.id),
{
}

/// After `remove(id)` of a live drop the id is burned and no longer live,
/// and the store is still well formed.
pub proof fn lemma_remove_burns(store: StoreModel, id: Seq<char>, now: i64)
    requires
        store.wf(),
    ensures
        store.removed(id, now).wf(),
        !store.removed(id, now).live.contains_key(id),
        store.live.contains_key(id) || store.burned.contains_key(id) ==> store.removed(
            id,
            now,
        ).burned.contains_key(id),
        store.unknown(id) ==> store.removed(id, now) == store,
{
}

/// Counting a download keeps the store well formed; the counter never goes
/// down and, where there is a limit, never passes it.
pub proof fn lemma_record_keeps_wf(store: StoreModel, id: Seq<char>)
    requires
        store.wf(),
    ensures
        store.recorded(id).wf(),
        store.recorded(id).burned == store.burned,
        store.recorded(id).live.dom() == store.live.dom(),
        store.live.contains_key(id) ==> {
            &&& store.recorded(id).live[id].download_count >= store.live[id].download_count
            &&& store.recorded(id).live[id].within_limit()
        },
        store.recorded_result(id) matches Some((count, delete)) ==> {
            &&& count == store.recorded(id).live[id].download_count
            &&& delete == (store.live[id].max_downloads > 0 && count
                >= store.live[id].max_downloads)
        },
{
    assert(store.recorded(id).live.dom() =~= store.live.dom());
}

/// Once `record_download` has handed out the last allowed download, the id
/// is live and not burned; after `remove` it is burned and not live. At no
/// point is it both, and the drop takes no further download.
pub proof fn lemma_consumed_then_burned(store: StoreModel, id: Seq<char>, now: i64)
    requires
        store.wf(),
        store.recorded_result(id) matches Some((count, delete)) && delete,
    ensures
        store.recorded(id).live.contains_key(id),
        !store.recorded(id).burned.contains_key(id),
        store.recorded(id).recorded_result(id) is None,
        !store.recorded(id).removed(id, now).live.contains_key(id),
        store.recorded(id).removed(id, now).burned.contains_key(id),
{
}

/// In a well-formed store no id is live and burned at once.
pub proof fn lemma_never_live_and_burned(store: StoreModel, id: Seq<char>)
    requires
        store.wf(),
    ensures
        !(store.live.contains_key(id) && store.burned.contains_key(id)),
{
}

/// Locking a drop to an address keeps the store well formed and touches
/// nothing but that pin.
pub proof fn lemma_pin_keeps_wf(store: StoreModel, id: Seq<char>, ip: Seq<char>)
    requires
        store.wf(),
    ensures
        store.pinned(id, ip).wf(),
        store.pinned(id, ip).burned == store.burned,
        store.pinned(id, ip).live.dom() == store.live.dom(),
{
    assert(store.pinned(id, ip).live.dom() =~= store.live.dom());
}

/// A pass of the reaper leaves no drop that is past its time: each one is
/// out of the live set and its id is burned. Drops with time left stay as
/// they are, and the store is still well formed.
pub proof fn lemma_reaper_removes_expired(store: StoreModel, now: i64)
    requires
        store.wf(),
    ensures
        store.reaped(now).wf(),
        !store.reaped(now).has_expired(now),
        forall|id: Seq<char>| #[trigger]
            store.live.contains_key(id) && store.live[id].expired_at(now) ==> {
                &&& !store.reaped(now).live.contains_key(id)
                &&& store.reaped(now).burned.contains_key(id)
            },
        forall|id: Seq<char>| #[trigger]
            store.live.contains_key(id) && !store.live[id].expired_at(now) ==> {
                &&& store.reaped(now).live.contains_key(id)
                &&& store.reaped(now).live[id] == store.live[id]
            },
{
    let after = store.reaped(now);
    assert forall|id: Seq<char>| #[trigger]
        store.live.contains_key(id) && store.live[id].expired_at(now) implies after.burned.contains_key(
        id,
    ) by {
        assert(store.evicted(now).burned[id] == now);
        assert(tombstone_kept_at(now, now));
    }
}

/// A second pass of the reaper at the same time changes nothing, and
/// removing a drop that the reaper has evicted changes nothing either.
pub proof fn lemma_eviction_idempotent(store: StoreModel, id: Seq<char>, now: i64)
    requires
        store.wf(),
    ensures
        store.reaped(now).reaped(now) == store.reaped(now),
        store.live.contains_key(id) && store.live[id].expired_at(now) ==> store.reaped(
            now,
        ).removed(id, now) == store.reaped(now),
{
    let once = store.reaped(now);
    let twice = once.reaped(now);
    assert(twice.live =~= once.live);
    assert(twice.burned =~= once.burned);
}

/// Whether a tombstone burned at `burned_at` is still kept at `now`.
pub fn tombstone_kept(burned_at: i64, now: i64) -> (kept: bool)
    ensures
        kept == tombstone_kept_at(burned_at, now),
{
    if burned_at >= 0 || now < 0 {
        if now < burned_at {
            true
        } else {
            now - burned_at < TOMBSTONE_TTL_MILLIS
        }
    } else {
        now < burned_at + TOMBSTONE_TTL_MILLIS
    }
}

/// Why the store did not take a drop.
#[derive(Debug, Clone, Copy, PartialEq, Eq, Structural)]
pub enum StoreError {
    /// The id is live or burned already.
    Collision,
    /// The drop's counter is past its own limit.
    CountPastLimit,
    /// The drop's buffer is not as long as the drop gives its ciphertext.
    SizeMismatch,
}

/// Bytes of zeros written at a time over a file that is destroyed.
pub const WIPE_BLOCK: u64 = 65536;

/// Length of the next block of zeros to write over a file of which
/// `remaining` bytes are still to be overwritten.
pub fn wipe_block_len(remaining: u64) -> (len: u64)
    ensures
        len == if remaining < WIPE_BLOCK {
            remaining
        } else {
            WIPE_BLOCK
        },
{
    if remaining < WIPE_BLOCK {
        remaining
    } else {
        WIPE_BLOCK
    }
}

/// What is left to do once a backing has been destroyed in memory.
#[derive(Debug)]
pub enum Remains {
    /// Nothing: the buffer was overwritten with zeros and released.
    Nothing,
    /// The buffer is still held by a stream and is released with it.
    SharedBuffer,
    /// The file at this path: overwrite it with zeros, then unlink it.
    File(String),
}

impl Backing {
    /// A backing in memory.
    pub fn memory(bytes: Vec<u8>) -> (backing: Backing)
        ensures
            backing@ == BackingView::Memory(bytes@),
    {
        Backing::Memory(Arc::new(bytes))
    }

    /// A backing in the file at `path`.
    pub fn disk(path: String) -> (backing: Backing)
        ensures
            backing@ == BackingView::Disk(path@),
    {
        Backing::Disk(path)
    }

    /// Destroys the backing as far as memory goes: a buffer that nobody else
    /// holds is overwritten with zeros before it is released. A file is left
    /// to the caller, who is told its path.
    pub fn destroy(self) -> (remains: Remains)
        ensures
            match remains {
                Remains::File(path) => self@ == BackingView::Disk(path@),
                _ => self@ is Memory,
            },
    {
        match self {
            Backing::Memory(bytes) => match take_unshared(bytes) {
                Some(owned) => {
                    let mut owned = owned;
                    wipe_bytes(&mut owned);
                    Remains::Nothing
                },
                None => Remains::SharedBuffer,
            },
            Backing::Disk(path) => Remains::File(path),
        }
    }
}

/// The time a drop created at `created_at` expires at, `ttl_millis` later;
/// the last or first moment of the clock where the sum would pass it.
pub open spec fn expiry_of(created_at: i64, ttl_millis: i64) -> i64 {
    if created_at + ttl_millis > i64::MAX {
        i64::MAX
    } else if created_at + ttl_millis < i64::MIN {
        i64::MIN
    } else {
        (created_at + ttl_millis) as i64
    }
}

impl Drop {
    /// A new drop: no download counted, no pin, expiring `ttl_millis` after
    /// it was created.
    pub fn new(
        id: String,
        backing: Backing,
        encrypted_size: u64,
        filename: String,
        mime_type: String,
        file_size: u64,
        created_at: i64,
        ttl_millis: i64,
        max_downloads: u32,
        has_password: bool,
    ) -> (drop: Drop)
        ensures
            drop@ == (DropView {
                id: id@,
                backing: backing@,
                encrypted_size,
                filename: filename@,
                mime_type: mime_type@,
                file_size,
                created_at,
                expires_at: expiry_of(created_at, ttl_millis),
                max_downloads,
                download_count: 0,
                has_password,
                pinned_ip: None,
            }),
            drop@.within_limit(),
            drop@.size_matches() <==> (backing@ matches BackingView::Memory(bytes) ==> bytes.len()
                == encrypted_size),
    {
        let expires_at = if ttl_millis >= 0 {
            if created_at > i64::MAX - ttl_millis {
                i64::MAX
            } else {
                created_at + ttl_millis
            }
        } else {
            if created_at < i64::MIN - ttl_millis {
                i64::MIN
            } else {
                created_at + ttl_millis
            }
        };
        Drop {
            id,
            backing,
            encrypted_size,
            filename,
            mime_type,
            file_size,
            created_at,
            expires_at,
            max_downloads,
            download_count: 0,
            has_password,
            pinned_ip: None,
        }
    }

    /// The drop still has time left at `now`.
    pub fn outlives(&self, now: i64) -> (alive: bool)
        ensures
            alive == !self@.expired_at(now),
    {
        self.expires_at > now
    }

    /// Downloads still to be had: `None` where there is no limit.
    pub fn downloads_remaining(&self) -> (left: Option<u32>)
        ensures
            match left {
                None => self.max_downloads == 0,
                Some(n) => self.max_downloads > 0 && n == if self.download_count
                    >= self.max_downloads {
                    0
                } else {
                    self.max_downloads - self.download_count
                },
            },
    {
        if self.max_downloads == 0 {
            None
        } else if self.download_count >= self.max_downloads {
            Some(0)
        } else {
            Some(self.max_downloads - self.download_count)
        }
    }
}

/// Some entry of `ids` before position `upto` spells `id`.
pub open spec fn listed_before(ids: Seq<String>, upto: int, id: Seq<char>) -> bool {
    exists|i: int| 0 <= i < upto && i < ids.len() && #[trigger] ids[i]@ == id
}

proof fn lemma_listed_before_step(ids: Seq<String>, upto: int, id: Seq<char>)
    requires
        0 <= upto < ids.len(),
    ensures
        listed_before(ids, upto + 1, id) <==> listed_before(ids, upto, id) || ids[upto]@ == id,
{
    if listed_before(ids, upto + 1, id) {
        let i = choose|i: int| 0 <= i < upto + 1 && i < ids.len() && #[trigger] ids[i]@ == id;
        if i < upto {
            assert(listed_before(ids, upto, id));
        }
    }
    if listed_before(ids, upto, id) {
        let i = choose|i: int| 0 <= i < upto && i < ids.len() && #[trigger] ids[i]@ == id;
        assert(0 <= i < upto + 1 && ids[i]@ == id);
    }
    if ids[upto]@ == id {
        assert(0 <= upto < upto + 1 && ids[upto]@ == id);
    }
}

proof fn lemma_listed_before_all(ids: Seq<String>, id: Seq<char>)
    ensures
        listed_before(ids, ids.len() as int, id) <==> listed(ids, id),
        !listed_before(ids, 0, id),
{
    if listed(ids, id) {
        let i = choose|i: int| 0 <= i < ids.len() && #[trigger] ids[i]@ == id;
        assert(0 <= i < ids.len() && i < ids.len() && ids[i]@ == id);
    }
}

/// The store of live drops and burned ids.
pub struct BlobStore {
    drops: DashMap<String, Drop, RandomState>,
    burned: DashMap<String, i64, RandomState>,
}

impl BlobStore {
    /// The state of the store.
    pub closed spec fn model(&self) -> StoreModel {
        StoreModel { live: live_records(self.drops), burned: tombstones(self.burned) }
    }

    /// An empty store.
    pub fn new() -> (store: BlobStore)
        ensures
            store.model().live == Map::<Seq<char>, DropView>::empty(),
            store.model().burned == Map::<Seq<char>, i64>::empty(),
            store.model().wf(),
    {
        let store = BlobStore { drops: live_new(), burned: tombstones_new() };
        assert(store.model().live =~= Map::<Seq<char>, DropView>::empty());
        assert(store.model().burned =~= Map::<Seq<char>, i64>::empty());
        store
    }

    /// Files a drop under its id. An id that is live or burned is refused as
    /// a collision; a drop whose counter is past its limit, or whose buffer
    /// is not as long as it says, is refused as well.
    pub fn insert(&mut self, drop: Drop) -> (res: Result<String, StoreError>)
        requires
            old(self).model().wf(),
        ensures
            final(self).model().wf(),
            match res {
                Ok(id) => {
                    &&& id@ == drop@.id
                    &&& old(self).model().admits(drop@)
                    &&& final(self).model() == old(self).model().with_drop(drop@)
                },
                Err(e) => {
                    &&& !old(self).model().admits(drop@)
                    &&& final(self).model() == old(self).model()
                    &&& e == if !old(self).model().unknown(drop@.id) {
                        StoreError::Collision
                    } else if !drop@.within_limit() {
                        StoreError::CountPastLimit
                    } else {
                        StoreError::SizeMismatch
                    }
                },
            },
    {
        if live_get(&self.drops, drop.id.as_str()).is_some() || tombstones_contain(
            &self.burned,
            drop.id.as_str(),
        ) {
            return Err(StoreError::Collision);
        }
        if drop.max_downloads > 0 && drop.download_count > drop.max_downloads {
            return Err(StoreError::CountPastLimit);
        }
        let fits = match &drop.backing {
            Backing::Memory(bytes) => bytes.len() as u64 == drop.encrypted_size,
            Backing::Disk(_) => true,
        };
        if !fits {
            return Err(StoreError::SizeMismatch);
        }
        let id = drop.id.clone();
        proof {
            lemma_insert_keeps_wf(self.model(), drop@);
        }
        live_insert(&mut self.drops, drop);
        Ok(id)
    }

    /// The live drop of this id, if there is one. Changes nothing.
    pub fn get(&self, id: &str) -> (found: Option<Drop>)
        requires
            self.model().wf(),
        ensures
            match found {
                Some(drop) => self.model().live.contains_key(id@) && drop@ == self.model().live[id@]
                    && drop@.id == id@,
                None => !self.model().live.contains_key(id@),
            },
    {
        live_get(&self.drops, id)
    }

    /// Takes the drop of this id out of the live set and burns the id at
    /// time `now`. Hands the drop over, so that its backing can be destroyed.
    pub fn remove_at(&mut self, id: &str, now: i64) -> (removed: Option<Drop>)
        requires
            old(self).model().wf(),
        ensures
            final(self).model().wf(),
            final(self).model() == old(self).model().removed(id@, now),
            match removed {
                Some(drop) => old(self).model().live.contains_key(id@) && drop@ == old(
                    self,
                ).model().live[id@],
                None => !old(self).model().live.contains_key(id@),
            },
    {
        proof {
            lemma_remove_burns(self.model(), id@, now);
        }
        let ghost before = self.model();
        match live_remove(&mut self.drops, id) {
            Some(drop) => {
                tombstones_insert(&mut self.burned, drop.id.clone(), now);
                Some(drop)
            },
            None => {
                assert(self.model().live =~= before.live);
                None
            },
        }
    }

    /// Takes the drop of this id out of the live set and burns the id at the
    /// present time. Hands the drop over, so that its backing can be
    /// destroyed. Afterwards the id is not live, and burned if it was live.
    pub fn remove(&mut self, id: &str) -> (removed: Option<Drop>)
        requires
            old(self).model().wf(),
        ensures
            final(self).model().wf(),
            !final(self).model().live.contains_key(id@),
            removed is Some ==> final(self).model().burned.contains_key(id@),
            exists|now: i64| final(self).model() == old(self).model().removed(id@, now),
            match removed {
                Some(drop) => old(self).model().live.contains_key(id@) && drop@ == old(
                    self,
                ).model().live[id@],
                None => !old(self).model().live.contains_key(id@),
            },
    {
        let now = now_millis();
        let removed = self.remove_at(id, now);
        assert(self.model() == old(self).model().removed(id@, now));
        removed
    }

    /// Whether the id is that of a drop that was destroyed.
    pub fn is_burned(&self, id: &str) -> (burned: bool)
        ensures
            burned == self.model().burned.contains_key(id@),
    {
        tombstones_contain(&self.burned, id)
    }

    /// Whether no drop is live.
    pub fn is_empty(&self) -> (empty: bool)
        ensures
            empty == (self.model().live == Map::<Seq<char>, DropView>::empty()),
    {
        let empty = live_is_empty(&self.drops);
        proof {
            if empty {
                assert(self.model().live =~= Map::<Seq<char>, DropView>::empty());
            }
        }
        empty
    }

    /// Counts one download of the drop. Returns the new count and whether the
    /// drop is now to be deleted: it is when there is a limit and the count
    /// has reached it. Returns nothing, and counts nothing, for an id that is
    /// not live and for a drop whose downloads are all handed out.
    pub fn record_download(&mut self, id: &str) -> (res: Option<(u32, bool)>)
        requires
            old(self).model().wf(),
        ensures
            final(self).model().wf(),
            res == old(self).model().recorded_result(id@),
            final(self).model() == old(self).model().recorded(id@),
    {
        proof {
            lemma_record_keeps_wf(self.model(), id@);
        }
        let ghost before = self.model();
        let drop = match live_get(&self.drops, id) {
            Some(drop) => drop,
            None => {
                return None;
            },
        };
        if drop.max_downloads > 0 && drop.download_count >= drop.max_downloads {
            return None;
        }
        let count = if drop.download_count == u32::MAX {
            u32::MAX
        } else {
            drop.download_count + 1
        };
        let should_delete = drop.max_downloads > 0 && count >= drop.max_downloads;
        let counted = Drop { download_count: count, ..drop };
        assert(counted@ == before.live[id@].counted());
        live_insert(&mut self.drops, counted);
        Some((count, should_delete))
    }

    /// Locks a live drop that has no pin yet to a client address.
    pub fn pin(&mut self, id: &str, client_ip: &str)
        requires
            old(self).model().wf(),
        ensures
            final(self).model().wf(),
            final(self).model() == old(self).model().pinned(id@, client_ip@),
    {
        proof {
            lemma_pin_keeps_wf(self.model(), id@, client_ip@);
        }
        let ghost before = self.model();
        match live_get(&self.drops, id) {
            Some(drop) => {
                if drop.pinned_ip.is_none() {
                    let pinned = Drop { pinned_ip: Some(client_ip.to_owned()), ..drop };
                    assert(pinned@ == before.live[id@].pinned_to(client_ip@));
                    live_insert(&mut self.drops, pinned);
                }
            },
            None => {},
        }
    }

    /// One pass of the reaper at time `now`: every drop that is past its time
    /// is removed and its id burned, then tombstones an hour old are dropped.
    /// Hands the evicted drops over, so that their backings can be destroyed
    /// and the owner be told; none is handed over twice.
    pub fn reap_at(&mut self, now: i64) -> (evicted: Vec<Drop>)
        requires
            old(self).model().wf(),
        ensures
            final(self).model().wf(),
            final(self).model() == old(self).model().reaped(now),
            evicted@.len() > 0 <==> old(self).model().has_expired(now),
            forall|i: int|
                #![trigger evicted@[i]]
                0 <= i < evicted@.len() ==> {
                    &&& old(self).model().live.contains_key(evicted@[i]@.id)
                    &&& old(self).model().live[evicted@[i]@.id] == evicted@[i]@
                    &&& evicted@[i]@.expired_at(now)
                },
            forall|id: Seq<char>| #[trigger]
                old(self).model().live.contains_key(id) && old(self).model().live[id].expired_at(
                    now,
                ) ==> exists|i: int|
                    0 <= i < evicted@.len() && (#[trigger] evicted@[i])@.id == id,
            forall|i: int, j: int|
                0 <= i < j < evicted@.len() ==> (#[trigger] evicted@[i])@.id != (
                #[trigger] evicted@[j])@.id,
    {
        let ids = live_ids(&self.drops);
        let ghost start = self.model();
        let mut evicted: Vec<Drop> = Vec::new();
        let mut i: usize = 0;
        proof {
            assert forall|id: Seq<char>| !listed_before(ids@, 0, id) by {
                lemma_listed_before_all(ids@, id);
            }
        }
        while i < ids.len()
            invariant
                i <= ids@.len(),
                start.wf(),
                self.model().wf(),
                forall|id: Seq<char>| start.live.contains_key(id) <==> listed(ids@, id),
                forall|id: Seq<char>| #[trigger]
                    self.model().live.contains_key(id) <==> start.live.contains_key(id) && !(
                    start.live[id].expired_at(now) && listed_before(ids@, i as int, id)),
                forall|id: Seq<char>| #[trigger]
                    self.model().live.contains_key(id) ==> self.model().live[id] == start.live[id],
                forall|id: Seq<char>| #[trigger]
                    self.model().burned.contains_key(id) <==> start.burned.contains_key(id) || (
                    start.live.contains_key(id) && start.live[id].expired_at(now) && listed_before(
                        ids@,
                        i as int,
                        id,
                    )),
                forall|id: Seq<char>| #[trigger]
                    self.model().burned.contains_key(id) ==> self.model().burned[id] == if start.live.contains_key(
                        id,
                    ) {
                        now
                    } else {
                        start.burned[id]
                    },
                forall|k: int|
                    #![trigger evicted@[k]]
                    0 <= k < evicted@.len() ==> {
                        &&& start.live.contains_key(evicted@[k]@.id)
                        &&& start.live[evicted@[k]@.id] == evicted@[k]@
                        &&& evicted@[k]@.expired_at(now)
                        &&& listed_before(ids@, i as int, evicted@[k]@.id)
                    },
                forall|id: Seq<char>| #[trigger]
                    start.live.contains_key(id) && start.live[id].expired_at(now) && listed_before(
                        ids@,
                        i as int,
                        id,
                    ) ==> exists|k: int|
                        0 <= k < evicted@.len() && (#[trigger] evicted@[k])@.id == id,
                forall|a: int, b: int|
                    0 <= a < b < evicted@.len() ==> (#[trigger] evicted@[a])@.id != (
                    #[trigger] evicted@[b])@.id,
            decreases ids@.len() - i,
        {
            let ghost before = self.model();
            let ghost taken = evicted@;
            let id = ids[i].as_str();
            proof {
                assert forall|k: Seq<char>|
                    listed_before(ids@, i + 1, k) <==> listed_before(ids@, i as int, k) || ids@[i as int]@
                        == k by {
                    lemma_listed_before_step(ids@, i as int, k);
                }
            }
            let expired = match live_get(&self.drops, id) {
                Some(drop) => !drop.outlives(now),
                None => false,
            };
            if expired {
                match self.remove_at(id, now) {
                    Some(drop) => {
                        evicted.push(drop);
                        proof {
                            let n = taken.len() as int;
                            assert(evicted@[n]@.id == id@);
                            assert forall|k: int| 0 <= k < n implies evicted@[k] == taken[k] by {}
                            assert forall|k: Seq<char>| #[trigger]
                                start.live.contains_key(k) && start.live[k].expired_at(now)
                                    && listed_before(ids@, i + 1, k) implies exists|m: int|
                                0 <= m < evicted@.len() && (#[trigger] evicted@[m])@.id == k by {
                                if k == id@ {
                                    assert(evicted@[n]@.id == k);
                                } else {
                                    let m = choose|m: int|
                                        0 <= m < taken.len() && (#[trigger] taken[m])@.id == k;
                                    assert(evicted@[m]@.id == k);
                                }
                            }
                        }
                    },
                    None => {},
                }
            } else {
                assert(self.model() == before);
            }
            i += 1;
        }
        proof {
            let target = start.evicted(now);
            assert forall|k: Seq<char>|
                self.model().live.contains_key(k) == target.live.contains_key(k) by {
                lemma_listed_before_all(ids@, k);
            }
            assert forall|k: Seq<char>| #[trigger]
                self.model().live.contains_key(k) implies self.model().live[k]
                == target.live[k] by {
                lemma_listed_before_all(ids@, k);
                assert(target.live.contains_key(k));
            }
            assert(self.model().live =~= target.live);
            assert forall|k: Seq<char>|
                self.model().burned.contains_key(k) == target.burned.contains_key(k) by {
                lemma_listed_before_all(ids@, k);
            }
            assert forall|k: Seq<char>| #[trigger]
                self.model().burned.contains_key(k) implies self.model().burned[k]
                == target.burned[k] by {
                lemma_listed_before_all(ids@, k);
                assert(target.burned.contains_key(k));
            }
            assert(self.model().burned =~= target.burned);
            assert forall|k: Seq<char>| #[trigger]
                start.live.contains_key(k) && start.live[k].expired_at(now) implies exists|
                m: int,
            |
                0 <= m < evicted@.len() && (#[trigger] evicted@[m])@.id == k by {
                lemma_listed_before_all(ids@, k);
            }
            if evicted@.len() > 0 {
                assert(start.live.contains_key(evicted@[0]@.id) && start.live[evicted@[0]@.id].expired_at(
                    now,
                ));
            }
            if start.has_expired(now) {
                let k = choose|k: Seq<char>| #[trigger]
                    start.live.contains_key(k) && start.live[k].expired_at(now);
                lemma_listed_before_all(ids@, k);
            }
            lemma_reaper_removes_expired(start, now);
        }
        let ghost middle = self.model();
        tombstones_retain(&mut self.burned, now);
        proof {
            assert(self.model().burned =~= middle.pruned(now).burned);
        }
        evicted
    }

    /// One pass of the reaper at the present time.
    pub fn reap(&mut self) -> (evicted: Vec<Drop>)
        requires
            old(self).model().wf(),
        ensures
            final(self).model().wf(),
            exists|now: i64|
                final(self).model() == old(self).model().reaped(now) && (evicted@.len() > 0
                    <==> old(self).model().has_expired(now)),
    {
        let now = now_millis();
        let evicted = self.reap_at(now);
        assert(self.model() == old(self).model().reaped(now) && (evicted@.len() > 0 <==> old(
            self,
        ).model().has_expired(now)));
        evicted
    }

    /// The phase of an id.
    pub fn phase(&self, id: &str) -> (phase: Phase)
        requires
            self.model().wf(),
        ensures
            phase == self.model().phase(id@),
    {
        match live_get(&self.drops, id) {
            Some(drop) => {
                if drop.max_downloads > 0 && drop.download_count >= drop.max_downloads {
                    Phase::Draining
                } else {
                    Phase::Live
                }
            },
            None => {
                if tombstones_contain(&self.burned, id) {
                    Phase::Destroyed
                } else {
                    Phase::Unknown
                }
            },
        }
    }
}

} // verus!
