//! Versioned object store: transactions with read/write conflict detection
//! over multi-version bookkeeping, on top of a pluggable storage engine.
use vstd::prelude::*;
use crate::security::auth::unix_time_secs;
use crate::common::new_uuid_text;
use crate::text::text_eq;

verus! {

/// A key-value storage engine, for users of the store to implement.
///
/// Its contents are modelled as a map from keys to values. The clauses on
/// the methods are what the store relies on and what each implementation
/// promises: a read reports the map, a successful write or removal changes
/// exactly the one key, and a failed one changes nothing (a failed write
/// leaves the engine as it was and gives one of its own write errors, see
/// `write_error`). Writes take the
/// engine mutably, so that the change is visible to the model.
pub trait StorageEngine: Sized {
    /// What the engine holds. An implementation describes its own contents
    /// here; the default, an empty map, is never unfolded for an engine that
    /// the store is generic over, and an implementation whose writes succeed
    /// cannot meet the clauses below without overriding it.
    closed spec fn contents(&self) -> Map<Seq<u8>, Seq<u8>> {
        Map::empty()
    }

    /// Whether `e` is an error that this engine, as it is, may give for a
    /// write of `value` under `key`. An implementation describes its own
    /// failures here; the default (any error) is never unfolded for an engine
    /// that the store is generic over.
    closed spec fn write_error(&self, key: Seq<u8>, value: Seq<u8>, e: Seq<char>) -> bool {
        true
    }

    /// The value stored under `key`, if any.
    fn get(&self, key: &[u8]) -> (r: Result<Option<Vec<u8>>, String>)
        ensures
            r matches Ok(o) ==> lookup_agrees(self.contents(), key@, o),
    ;

    /// Stores `value` under `key`.
    fn put(&mut self, key: &[u8], value: Vec<u8>) -> (r: Result<(), String>)
        ensures
            r is Ok ==> final(self).contents() == old(self).contents().insert(key@, value@),
            r is Err ==> final(self).contents() == old(self).contents(),
            r is Err ==> *final(self) == *old(self),
            r matches Err(e) ==> old(self).write_error(key@, value@, e@),
    ;

    /// Removes `key`.
    fn delete(&mut self, key: &[u8]) -> (r: Result<(), String>)
        ensures
            r is Ok ==> final(self).contents() == old(self).contents().remove(key@),
            r is Err ==> final(self).contents() == old(self).contents(),
    ;

    /// The entries whose keys lie in `[start, end)`, in key order.
    fn scan(&self, start: &[u8], end: &[u8]) -> Result<Vec<(Vec<u8>, Vec<u8>)>, String>;
}

/// Whether `o`, the answer of a lookup of `key`, agrees with the map `m`.
pub open spec fn lookup_agrees(m: Map<Seq<u8>, Seq<u8>>, key: Seq<u8>, o: Option<Vec<u8>>) -> bool {
    match o {
        Some(v) => m.contains_key(key) && m[key] == v@,
        None => !m.contains_key(key),
    }
}

/// Whether `key` has a live version committed at or before `version`.
pub open spec fn has_visible(vs: Seq<(Seq<u8>, Seq<VersionInfo>)>, key: Seq<u8>, version: u64) -> bool {
    exists|k: int|
        0 <= k < key_versions(vs, key).len() && (#[trigger] key_versions(vs, key)[k]).version
            <= version && !key_versions(vs, key)[k].is_deleted
}

/// `m` after the writes `ws`, applied in order.
pub open spec fn apply_writes(m: Map<Seq<u8>, Seq<u8>>, ws: Seq<(Seq<u8>, Seq<u8>)>) -> Map<
    Seq<u8>,
    Seq<u8>,
>
    decreases ws.len(),
{
    if ws.len() == 0 {
        m
    } else {
        apply_writes(m, ws.drop_last()).insert(ws.last().0, ws.last().1)
    }
}

/// One committed version of a key.
#[derive(Debug, Clone, Copy, PartialEq, Eq, Structural)]
pub struct VersionInfo {
    /// Commit timestamp of the version.
    pub version: u64,
    /// Wall-clock time of the commit, in seconds since the Unix epoch.
    pub timestamp: u64,
    /// Whether the version is a deletion.
    pub is_deleted: bool,
}

/// The versions recorded for one key, oldest first.
pub struct VersionEntry {
    /// The key.
    pub key: Vec<u8>,
    /// Its versions.
    pub versions: Vec<VersionInfo>,
}

/// The contents of a [`Transaction`].
pub struct TransactionView {
    pub id: Seq<char>,
    pub start_ts: u64,
    pub writes: Seq<(Seq<u8>, Seq<u8>)>,
    pub reads: Seq<(Seq<u8>, u64)>,
}

/// A transaction: the values it writes and the version of each key it read.
#[derive(Debug)]
pub struct Transaction {
    id: String,
    start_ts: u64,
    writes: Vec<(Vec<u8>, Vec<u8>)>,
    reads: Vec<(Vec<u8>, u64)>,
}

impl View for Transaction {
    type V = TransactionView;

    closed spec fn view(&self) -> TransactionView {
        TransactionView {
            id: self.id@,
            start_ts: self.start_ts,
            writes: self.writes@.map_values(|w: (Vec<u8>, Vec<u8>)| (w.0@, w.1@)),
            reads: self.reads@.map_values(|r: (Vec<u8>, u64)| (r.0@, r.1)),
        }
    }
}

impl Transaction {
    /// The transaction id.
    pub fn id(&self) -> (s: &str)
        ensures
            s@ == self@.id,
    {
        self.id.as_str()
    }

    /// A fresh transaction with a random id, started now, with nothing read
    /// or written.
    fn new() -> (t: Self)
        ensures
            t@.id.len() == 36,
            t@.writes.len() == 0,
            t@.reads.len() == 0,
    {
        let t = Transaction {
            id: new_uuid_text(),
            start_ts: unix_time_secs(),
            writes: Vec::new(),
            reads: Vec::new(),
        };
        assert(t@.writes =~= Seq::<(Seq<u8>, Seq<u8>)>::empty());
        assert(t@.reads =~= Seq::<(Seq<u8>, u64)>::empty());
        t
    }
}

/// A replicated-log command.
pub enum RaftCommand {
    /// Write `value` under `key` at `version`.
    Put { key: Vec<u8>, value: Vec<u8>, version: u64 },
    /// Delete `key` at `version`.
    Delete { key: Vec<u8>, version: u64 },
}

/// A replication node.
pub struct RaftNode {}

impl RaftNode {
    /// Proposes a command to the replicated log; every proposal is accepted.
    pub fn propose(&self, cmd: RaftCommand) -> (r: Result<(), String>)
        ensures
            r is Ok,
    {
        Ok(())
    }
}

/// Whether two byte strings are equal.
pub fn bytes_eq(a: &[u8], b: &[u8]) -> (r: bool)
    ensures
        r == (a@ == b@),
{
    if a.len() != b.len() {
        return false;
    }
    let mut i: usize = 0;
    while i < a.len()
        invariant
            a@.len() == b@.len(),
            i <= a@.len(),
            forall|j: int| 0 <= j < i ==> a@[j] == b@[j],
        decreases a.len() - i,
    {
        if a[i] != b[i] {
            return false;
        }
        i = i + 1;
    }
    assert(a@ =~= b@);
    true
}

fn copy_bytes(a: &[u8]) -> (r: Vec<u8>)
    ensures
        r@ == a@,
{
    let mut r: Vec<u8> = Vec::new();
    let mut i: usize = 0;
    while i < a.len()
        invariant
            i <= a@.len(),
            r@ == a@.subrange(0, i as int),
        decreases a.len() - i,
    {
        r.push(a[i]);
        i = i + 1;
        assert(r@ =~= a@.subrange(0, i as int));
    }
    assert(a@.subrange(0, a@.len() as int) =~= a@);
    r
}

/// Some entry of `vs` is for `key`.
pub open spec fn has_key(vs: Seq<(Seq<u8>, Seq<VersionInfo>)>, key: Seq<u8>) -> bool {
    exists|i: int| 0 <= i < vs.len() && (#[trigger] vs[i]).0 == key
}

/// The versions recorded for `key`: none when it has no entry.
pub open spec fn key_versions(vs: Seq<(Seq<u8>, Seq<VersionInfo>)>, key: Seq<u8>) -> Seq<
    VersionInfo,
> {
    if has_key(vs, key) {
        vs[choose|i: int| 0 <= i < vs.len() && (#[trigger] vs[i]).0 == key].1
    } else {
        Seq::empty()
    }
}

/// Entry keys are unique.
pub open spec fn keys_unique(vs: Seq<(Seq<u8>, Seq<VersionInfo>)>) -> bool {
    forall|i: int, j: int|
        0 <= i < vs.len() && 0 <= j < vs.len() && i != j ==> (#[trigger] vs[i]).0 != (
        #[trigger] vs[j]).0
}

/// Some read of the transaction saw an older version of a key than one now
/// recorded.
pub open spec fn has_conflict(
    vs: Seq<(Seq<u8>, Seq<VersionInfo>)>,
    reads: Seq<(Seq<u8>, u64)>,
) -> bool {
    exists|j: int, k: int|
        0 <= j < reads.len() && 0 <= k < key_versions(vs, reads[j].0).len() && (
        #[trigger] key_versions(vs, (#[trigger] reads[j]).0)[k]).version > reads[j].1
}

/// `key` is written by the transaction.
pub open spec fn writes_key(writes: Seq<(Seq<u8>, Seq<u8>)>, key: Seq<u8>) -> bool {
    exists|j: int| 0 <= j < writes.len() && (#[trigger] writes[j]).0 == key
}

/// `after` is `before` with one live version at `ts` appended.
pub open spec fn extended_at(before: Seq<VersionInfo>, after: Seq<VersionInfo>, ts: u64) -> bool {
    &&& after.len() == before.len() + 1
    &&& after.drop_last() == before
    &&& after.last().version == ts
    &&& !after.last().is_deleted
}

/// Some transaction has the id `id`.
pub open spec fn has_txn(ts: Seq<TransactionView>, id: Seq<char>) -> bool {
    exists|i: int| 0 <= i < ts.len() && (#[trigger] ts[i]).id == id
}

/// The transaction with id `id`.
pub open spec fn txn_with_id(ts: Seq<TransactionView>, id: Seq<char>) -> TransactionView {
    ts[choose|i: int| 0 <= i < ts.len() && (#[trigger] ts[i]).id == id]
}

/// The transactions without the one with id `id`.
pub open spec fn without_txn(ts: Seq<TransactionView>, id: Seq<char>) -> Seq<TransactionView> {
    if has_txn(ts, id) {
        ts.remove(choose|i: int| 0 <= i < ts.len() && (#[trigger] ts[i]).id == id)
    } else {
        ts
    }
}

/// The transactions with `t` stored under its id.
pub open spec fn with_txn(ts: Seq<TransactionView>, t: TransactionView) -> Seq<TransactionView> {
    if has_txn(ts, t.id) {
        ts.update(choose|i: int| 0 <= i < ts.len() && (#[trigger] ts[i]).id == t.id, t)
    } else {
        ts.push(t)
    }
}

/// Transaction ids are unique, and no transaction writes a key twice.
pub open spec fn txns_wf(ts: Seq<TransactionView>) -> bool {
    &&& forall|i: int, j: int|
        0 <= i < ts.len() && 0 <= j < ts.len() && i != j ==> (#[trigger] ts[i]).id != (
        #[trigger] ts[j]).id
    &&& forall|i: int, a: int, b: int|
        0 <= i < ts.len() && 0 <= a < ts[i].writes.len() && 0 <= b < ts[i].writes.len() && a != b
            ==> (#[trigger] ts[i].writes[a]).0 != (#[trigger] ts[i].writes[b]).0
}


/// The number of versions recorded over all keys.
pub open spec fn total_versions(vs: Seq<(Seq<u8>, Seq<VersionInfo>)>) -> nat
    decreases vs.len(),
{
    if vs.len() == 0 {
        0
    } else {
        total_versions(vs.drop_last()) + vs.last().1.len()
    }
}

/// The version was committed at or after `cutoff`.
pub open spec fn kept_after(cutoff: u64) -> spec_fn(VersionInfo) -> bool {
    |v: VersionInfo| v.timestamp >= cutoff
}

/// The versions of `vs` committed at or after `cutoff`, key by key.
pub open spec fn pruned(vs: Seq<(Seq<u8>, Seq<VersionInfo>)>, cutoff: u64) -> Seq<(Seq<u8>, Seq<VersionInfo>)> {
    vs.map_values(|e: (Seq<u8>, Seq<VersionInfo>)| (e.0, e.1.filter(kept_after(cutoff))))
}

/// The versioned object store.
pub struct ObjectStore<E: StorageEngine> {
    engine: E,
    versions: Vec<VersionEntry>,
    transactions: Vec<Transaction>,
    timestamp: u64,
    raft_node: Option<RaftNode>,
}

impl<E: StorageEngine> ObjectStore<E> {
    /// The recorded versions, one entry per key.
    pub closed spec fn versions(&self) -> Seq<(Seq<u8>, Seq<VersionInfo>)> {
        self.versions@.map_values(|e: VersionEntry| (e.key@, e.versions@))
    }

    /// The open transactions.
    pub closed spec fn transactions(&self) -> Seq<TransactionView> {
        self.transactions@.map_values(|t: Transaction| t@)
    }

    /// What the storage engine holds.
    pub closed spec fn stored(&self) -> Map<Seq<u8>, Seq<u8>> {
        self.engine.contents()
    }

    /// Whether `e` is an error the storage engine, as it now is, may give for
    /// a write of `value` under `key`.
    pub closed spec fn write_refused(&self, key: Seq<u8>, value: Seq<u8>, e: Seq<char>) -> bool {
        self.engine.write_error(key, value, e)
    }

    /// The logical clock.
    pub closed spec fn timestamp(&self) -> u64 {
        self.timestamp
    }

    /// Well-formedness: one version entry per key; unique transaction ids.
    pub closed spec fn wf(&self) -> bool {
        keys_unique(self.versions()) && txns_wf(self.transactions())
    }

    /// An empty store over `engine`, without replication.
    pub fn new(engine: E) -> (s: Self)
        ensures
            s.wf(),
            s.versions().len() == 0,
            s.transactions().len() == 0,
            s.timestamp() == 0,
            s.stored() == engine.contents(),
    {
        let s = ObjectStore {
            engine,
            versions: Vec::new(),
            transactions: Vec::new(),
            timestamp: 0,
            raft_node: None,
        };
        assert(s.versions() =~= Seq::<(Seq<u8>, Seq<VersionInfo>)>::empty());
        assert(s.transactions() =~= Seq::<TransactionView>::empty());
        s
    }

    proof fn lemma_key_at(&self, i: int)
        requires
            self.wf(),
            0 <= i < self.versions().len(),
        ensures
            has_key(self.versions(), self.versions()[i].0),
            key_versions(self.versions(), self.versions()[i].0) == self.versions()[i].1,
    {
        let vs = self.versions();
        let k = choose|k: int| 0 <= k < vs.len() && (#[trigger] vs[k]).0 == vs[i].0;
        if k != i {
            assert(vs[k].0 != vs[i].0);
        }
    }

    fn find_key(&self, key: &[u8]) -> (r: Option<usize>)
        requires
            self.wf(),
        ensures
            match r {
                Some(i) => i < self.versions().len() && self.versions()[i as int].0 == key@
                    && key_versions(self.versions(), key@) == self.versions()[i as int].1,
                None => !has_key(self.versions(), key@) && key_versions(self.versions(), key@)
                    == Seq::<VersionInfo>::empty(),
            },
    {
        let mut i: usize = 0;
        while i < self.versions.len()
            invariant
                self.wf(),
                i <= self.versions@.len(),
                forall|j: int| 0 <= j < i ==> (#[trigger] self.versions@[j]).key@ != key@,
            decreases self.versions.len() - i,
        {
            if bytes_eq(self.versions[i].key.as_slice(), key) {
                proof {
                    self.lemma_key_at(i as int);
                }
                return Some(i);
            }
            i = i + 1;
        }
        assert forall|j: int| 0 <= j < self.versions().len() implies (#[trigger] self.versions()[
            j]).0 != key@ by {
            assert(self.versions@[j].key@ != key@);
        }
        None
    }

    fn find_txn(&self, id: &str) -> (r: Option<usize>)
        requires
            self.wf(),
        ensures
            match r {
                Some(i) => i < self.transactions().len() && self.transactions()[i as int].id
                    == id@ && txn_with_id(self.transactions(), id@) == self.transactions()[i as int]
                    && without_txn(self.transactions(), id@) == self.transactions().remove(i as int)
                    && with_txn(self.transactions(), self.transactions()[i as int])
                    == self.transactions(),
                None => !has_txn(self.transactions(), id@),
            },
    {
        let mut i: usize = 0;
        while i < self.transactions.len()
            invariant
                self.wf(),
                i <= self.transactions@.len(),
                forall|j: int| 0 <= j < i ==> (#[trigger] self.transactions@[j]).id@ != id@,
            decreases self.transactions.len() - i,
        {
            if text_eq(self.transactions[i].id.as_str(), id) {
                proof {
                    let ts = self.transactions();
                    assert(ts[i as int].id == id@);
                    let k = choose|k: int| 0 <= k < ts.len() && (#[trigger] ts[k]).id == id@;
                    if k != i {
                        assert(ts[k].id != ts[i as int].id);
                    }
                    assert(ts.update(i as int, ts[i as int]) =~= ts);
                }
                return Some(i);
            }
            i = i + 1;
        }
        assert forall|j: int| 0 <= j < self.transactions().len() implies (
        #[trigger] self.transactions()[j]).id != id@ by {
            assert(self.transactions@[j].id@ != id@);
        }
        None
    }

    /// Appends `info` to the versions of `key`, creating its entry if needed.
    fn append_version(&mut self, key: &[u8], info: VersionInfo)
        requires
            old(self).wf(),
        ensures
            final(self).stored() == old(self).stored(),
            final(self).wf(),
            final(self).transactions() == old(self).transactions(),
            final(self).timestamp() == old(self).timestamp(),
            forall|k: Seq<u8>|
                #[trigger] key_versions(final(self).versions(), k) == if k == key@ {
                    key_versions(old(self).versions(), k).push(info)
                } else {
                    key_versions(old(self).versions(), k)
                },
    {
        let ghost old_vs = self.versions();
        match self.find_key(key) {
            Some(i) => {
                let mut entry_versions: Vec<VersionInfo> = Vec::new();
                std::mem::swap(&mut entry_versions, &mut self.versions[i].versions);
                entry_versions.push(info);
                std::mem::swap(&mut entry_versions, &mut self.versions[i].versions);
                proof {
                    let vs = self.versions();
                    assert(vs =~= old_vs.update(i as int, (key@, old_vs[i as int].1.push(info))));
                    assert(keys_unique(vs)) by {
                        assert forall|a: int, b: int|
                            0 <= a < vs.len() && 0 <= b < vs.len() && a != b implies (
                            #[trigger] vs[a]).0 != (#[trigger] vs[b]).0 by {
                            assert(vs[a].0 == old_vs[a].0);
                            assert(vs[b].0 == old_vs[b].0);
                        }
                    }
                    assert forall|k: Seq<u8>|
                        #[trigger] key_versions(vs, k) == if k == key@ {
                            key_versions(old_vs, k).push(info)
                        } else {
                            key_versions(old_vs, k)
                        } by {
                        if k == key@ {
                            self.lemma_key_at(i as int);
                        } else if has_key(old_vs, k) {
                            let j = choose|j: int| 0 <= j < old_vs.len() && (#[trigger] old_vs[j]).0 == k;
                            assert(vs[j].0 == k);
                            self.lemma_key_at(j);
                            let j0 = choose|j0: int| 0 <= j0 < old_vs.len() && (#[trigger] old_vs[j0]).0 == k;
                            if j0 != j {
                                assert(old_vs[j0].0 != old_vs[j].0);
                            }
                        } else {
                            assert forall|j: int| 0 <= j < vs.len() implies (#[trigger] vs[j]).0 != k by {
                                assert(vs[j].0 == old_vs[j].0);
                            }
                        }
                    }
                }
            },
            None => {
                let mut v: Vec<VersionInfo> = Vec::new();
                v.push(info);
                self.versions.push(VersionEntry { key: copy_bytes(key), versions: v });
                proof {
                    let vs = self.versions();
                    assert(vs =~= old_vs.push((key@, seq![info])));
                    assert(keys_unique(vs)) by {
                        assert forall|a: int, b: int|
                            0 <= a < vs.len() && 0 <= b < vs.len() && a != b implies (
                            #[trigger] vs[a]).0 != (#[trigger] vs[b]).0 by {
                            if a < old_vs.len() {
                                assert(vs[a].0 == old_vs[a].0);
                            }
                            if b < old_vs.len() {
                                assert(vs[b].0 == old_vs[b].0);
                            }
                        }
                    }
                    assert forall|k: Seq<u8>|
                        #[trigger] key_versions(vs, k) == if k == key@ {
                            key_versions(old_vs, k).push(info)
                        } else {
                            key_versions(old_vs, k)
                        } by {
                        if k == key@ {
                            self.lemma_key_at(old_vs.len() as int);
                            assert(seq![info] =~= Seq::<VersionInfo>::empty().push(info));
                        } else if has_key(old_vs, k) {
                            let j = choose|j: int| 0 <= j < old_vs.len() && (#[trigger] old_vs[j]).0 == k;
                            assert(vs[j].0 == k);
                            self.lemma_key_at(j);
                            let j0 = choose|j0: int| 0 <= j0 < old_vs.len() && (#[trigger] old_vs[j0]).0 == k;
                            if j0 != j {
                                assert(old_vs[j0].0 != old_vs[j].0);
                            }
                        } else {
                            assert forall|j: int| 0 <= j < vs.len() implies (#[trigger] vs[j]).0 != k by {
                                if j < old_vs.len() {
                                    assert(vs[j].0 == old_vs[j].0);
                                }
                            }
                        }
                    }
                }
            },
        }
    }

    /// Stores `t` under its id.
    fn put_txn(&mut self, t: Transaction)
        requires
            old(self).wf(),
            t@.writes.len() == 0,
        ensures
            final(self).stored() == old(self).stored(),
            final(self).wf(),
            final(self).transactions() == with_txn(old(self).transactions(), t@),
            final(self).versions() == old(self).versions(),
            final(self).timestamp() == old(self).timestamp(),
    {
        let ghost old_ts = self.transactions();
        let ghost tv = t@;
        match self.find_txn(t.id.as_str()) {
            Some(i) => {
                self.transactions.set(i, t);
                proof {
                    let ts = self.transactions();
                    let k = choose|k: int| 0 <= k < old_ts.len() && (#[trigger] old_ts[k]).id == tv.id;
                    if k != i {
                        assert(old_ts[k].id != old_ts[i as int].id);
                    }
                    assert(ts =~= old_ts.update(i as int, tv));
                    assert forall|a: int, b: int|
                        0 <= a < ts.len() && 0 <= b < ts.len() && a != b implies (#[trigger] ts[a]).id
                            != (#[trigger] ts[b]).id by {
                        if a != i {
                            assert(ts[a] == old_ts[a]);
                        }
                        if b != i {
                            assert(ts[b] == old_ts[b]);
                        }
                    }
                    assert forall|x: int, a: int, b: int|
                        0 <= x < ts.len() && 0 <= a < ts[x].writes.len() && 0 <= b < ts[x].writes.len()
                            && a != b implies (#[trigger] ts[x].writes[a]).0 != (
                        #[trigger] ts[x].writes[b]).0 by {
                        assert(ts[x] == old_ts[x]);
                    }
                }
            },
            None => {
                self.transactions.push(t);
                proof {
                    let ts = self.transactions();
                    assert(ts =~= old_ts.push(tv));
                    assert forall|a: int, b: int|
                        0 <= a < ts.len() && 0 <= b < ts.len() && a != b implies (#[trigger] ts[a]).id
                            != (#[trigger] ts[b]).id by {
                        if a < old_ts.len() {
                            assert(ts[a] == old_ts[a]);
                        }
                        if b < old_ts.len() {
                            assert(ts[b] == old_ts[b]);
                        }
                    }
                    assert forall|x: int, a: int, b: int|
                        0 <= x < ts.len() && 0 <= a < ts[x].writes.len() && 0 <= b < ts[x].writes.len()
                            && a != b implies (#[trigger] ts[x].writes[a]).0 != (
                        #[trigger] ts[x].writes[b]).0 by {
                        assert(x < old_ts.len());
                        assert(ts[x] == old_ts[x]);
                    }
                }
            },
        }
    }

    /// Opens a transaction: advances the logical clock and registers a fresh
    /// transaction, which comes back.
    pub fn begin_transaction(&mut self) -> (r: Result<Transaction, String>)
        requires
            old(self).wf(),
            old(self).timestamp() < u64::MAX,
        ensures
            final(self).stored() == old(self).stored(),
            final(self).wf(),
            r is Ok,
            r matches Ok(t) ==> {
                &&& t@.id.len() == 36
                &&& t@.writes.len() == 0
                &&& t@.reads.len() == 0
                &&& final(self).transactions() == with_txn(old(self).transactions(), t@)
            },
            final(self).versions() == old(self).versions(),
            final(self).timestamp() == old(self).timestamp() + 1,
    {
        self.timestamp = self.timestamp + 1;
        let txn = Transaction::new();
        let stored = Transaction {
            id: txn.id.clone(),
            start_ts: txn.start_ts,
            writes: Vec::new(),
            reads: Vec::new(),
        };
        assert(stored@.writes =~= txn@.writes);
        assert(stored@.reads =~= txn@.reads);
        self.put_txn(stored);
        Ok(txn)
    }

    /// Rolls a transaction back: it is dropped; "Transaction not found" when
    /// no open transaction has that id.
    pub fn rollback_transaction(&mut self, txn_id: &str) -> (r: Result<(), String>)
        requires
            old(self).wf(),
        ensures
            final(self).stored() == old(self).stored(),
            final(self).wf(),
            final(self).versions() == old(self).versions(),
            final(self).timestamp() == old(self).timestamp(),
            final(self).transactions() == without_txn(old(self).transactions(), txn_id@),
            has_txn(old(self).transactions(), txn_id@) <==> r is Ok,
            r matches Err(e) ==> e@ == "Transaction not found"@,
    {
        match self.find_txn(txn_id) {
            None => Err(String::from_str("Transaction not found")),
            Some(i) => {
                let ghost old_ts = self.transactions();
                let _t = self.transactions.remove(i);
                proof {
                    let ts = self.transactions();
                    assert(ts =~= old_ts.remove(i as int));
                    self.lemma_remove_keeps_wf(old_ts, i as int);
                }
                Ok(())
            },
        }
    }

    proof fn lemma_remove_keeps_wf(&self, old_ts: Seq<TransactionView>, i: int)
        requires
            txns_wf(old_ts),
            0 <= i < old_ts.len(),
            self.transactions() == old_ts.remove(i),
        ensures
            txns_wf(self.transactions()),
    {
        let ts = self.transactions();
        assert forall|a: int, b: int|
            0 <= a < ts.len() && 0 <= b < ts.len() && a != b implies (#[trigger] ts[a]).id != (
            #[trigger] ts[b]).id by {
            let a0 = if a < i { a } else { a + 1 };
            let b0 = if b < i { b } else { b + 1 };
            assert(ts[a] == old_ts[a0]);
            assert(ts[b] == old_ts[b0]);
        }
        assert forall|x: int, a: int, b: int|
            0 <= x < ts.len() && 0 <= a < ts[x].writes.len() && 0 <= b < ts[x].writes.len() && a
                != b implies (#[trigger] ts[x].writes[a]).0 != (#[trigger] ts[x].writes[b]).0 by {
            let x0 = if x < i { x } else { x + 1 };
            assert(ts[x] == old_ts[x0]);
        }
    }

    /// Commits a transaction. An unknown id gives "Transaction not found".
    /// The transaction is then closed whatever follows. If any key it read
    /// has a version newer than the one it read, the commit fails with
    /// "Read-write conflict detected" and nothing else changes. Otherwise the
    /// logical clock advances to the commit timestamp and each written value
    /// is proposed to the replicated log, stored in the engine and recorded
    /// as a live version of its key at the commit timestamp. Raft proposals
    /// are always accepted, so the only error past the conflict check is an
    /// engine write that fails: it stops the commit and its error comes back
    /// unchanged (one the engine may give for that write), with the writes
    /// before it stored and recorded. A transaction that writes
    /// nothing and has no conflict always commits.
    pub fn commit_transaction(&mut self, txn_id: &str) -> (r: Result<(), String>)
        requires
            old(self).wf(),
            old(self).timestamp() < u64::MAX,
        ensures
            final(self).wf(),
            final(self).transactions() == without_txn(old(self).transactions(), txn_id@),
            !has_txn(old(self).transactions(), txn_id@) ==> (r matches Err(e) && e@
                == "Transaction not found"@ && final(self).versions() == old(self).versions()
                && final(self).timestamp() == old(self).timestamp()
                && final(self).stored() == old(self).stored()),
            has_txn(old(self).transactions(), txn_id@) ==> {
                let t = txn_with_id(old(self).transactions(), txn_id@);
                &&& has_conflict(old(self).versions(), t.reads) ==> (r matches Err(e) && e@
                    == "Read-write conflict detected"@ && final(self).versions()
                    == old(self).versions() && final(self).timestamp() == old(self).timestamp()
                    && final(self).stored() == old(self).stored())
                &&& !has_conflict(old(self).versions(), t.reads) ==> {
                    &&& final(self).timestamp() == old(self).timestamp() + 1
                    &&& t.writes.len() == 0 ==> r is Ok
                    &&& r is Ok ==> final(self).stored() == apply_writes(old(self).stored(), t.writes)
                    &&& r matches Err(e) ==> exists|w: int|
                        0 <= w < t.writes.len() && final(self).stored() == apply_writes(
                            old(self).stored(),
                            #[trigger] t.writes.take(w),
                        ) && final(self).write_refused(t.writes[w].0, t.writes[w].1, e@)
                    &&& r is Ok ==> forall|k: Seq<u8>|
                        if writes_key(t.writes, k) {
                            extended_at(
                                key_versions(old(self).versions(), k),
                                #[trigger] key_versions(final(self).versions(), k),
                                final(self).timestamp(),
                            )
                        } else {
                            key_versions(final(self).versions(), k) == key_versions(
                                old(self).versions(),
                                k,
                            )
                        }
                    &&& r is Err ==> forall|k: Seq<u8>|
                        #[trigger] key_versions(final(self).versions(), k) == key_versions(
                            old(self).versions(),
                            k,
                        ) || (writes_key(t.writes, k) && extended_at(
                            key_versions(old(self).versions(), k),
                            key_versions(final(self).versions(), k),
                            final(self).timestamp(),
                        ))
                }
            },
    {
        let i = match self.find_txn(txn_id) {
            None => return Err(String::from_str("Transaction not found")),
            Some(i) => i,
        };
        let ghost old_ts = self.transactions();
        let ghost old_vs = self.versions();
        let ghost tv = old_ts[i as int];
        let txn = self.transactions.remove(i);
        proof {
            assert(self.transactions() =~= old_ts.remove(i as int));
            self.lemma_remove_keeps_wf(old_ts, i as int);
            assert(txn@ == tv);
        }
        // Read/write conflict check.
        let mut j: usize = 0;
        while j < txn.reads.len()
            invariant
                self.wf(),
                self.versions() == old_vs,
                self.timestamp() == old(self).timestamp(),
                self.stored() == old(self).stored(),
                self.transactions() == without_txn(old_ts, txn_id@),
                has_txn(old_ts, txn_id@),
                old_ts == old(self).transactions(),
                old_vs == old(self).versions(),
                tv == txn_with_id(old_ts, txn_id@),
                txn@ == tv,
                j <= txn.reads@.len(),
                forall|a: int, k: int|
                    0 <= a < j && 0 <= k < key_versions(old_vs, tv.reads[a].0).len() ==> (
                    #[trigger] key_versions(old_vs, (#[trigger] tv.reads[a]).0)[k]).version
                        <= tv.reads[a].1,
            decreases txn.reads.len() - j,
        {
            let read_ts = txn.reads[j].1;
            assert(tv.reads[j as int] == (txn.reads@[j as int].0@, read_ts));
            match self.find_key(txn.reads[j].0.as_slice()) {
                Some(vi) => {
                    let mut m: usize = 0;
                    while m < self.versions[vi].versions.len()
                        invariant
                            self.wf(),
                            self.versions() == old_vs,
                            self.timestamp() == old(self).timestamp(),
                            self.stored() == old(self).stored(),
                            self.transactions() == without_txn(old_ts, txn_id@),
                            has_txn(old_ts, txn_id@),
                            old_ts == old(self).transactions(),
                            old_vs == old(self).versions(),
                            tv == txn_with_id(old_ts, txn_id@),
                            j < tv.reads.len(),
                            vi < old_vs.len(),
                            old_vs[vi as int].1 == key_versions(old_vs, tv.reads[j as int].0),
                            read_ts == tv.reads[j as int].1,
                            m <= old_vs[vi as int].1.len(),
                            forall|k: int| 0 <= k < m ==> (#[trigger] old_vs[vi as int].1[k]).version <= read_ts,
                        decreases self.versions@[vi as int].versions@.len() - m,
                    {
                        assert(self.versions@[vi as int].versions@ == old_vs[vi as int].1);
                        if self.versions[vi].versions[m].version > read_ts {
                            proof {
                                let rj = tv.reads[j as int];
                                assert(key_versions(old_vs, rj.0)[m as int].version > rj.1);
                                assert(has_conflict(old_vs, tv.reads));
                            }
                            return Err(String::from_str("Read-write conflict detected"));
                        }
                        m = m + 1;
                    }
                    assert(self.versions@[vi as int].versions@ == old_vs[vi as int].1);
                },
                None => {},
            }
            j = j + 1;
        }
        assert(!has_conflict(old_vs, tv.reads));
        self.timestamp = self.timestamp + 1;
        let commit_ts = self.timestamp;
        let ghost after_ts = self.transactions();
        let mut w: usize = 0;
        while w < txn.writes.len()
            invariant
                self.wf(),
                self.transactions() == after_ts,
                after_ts == without_txn(old_ts, txn_id@),
                has_txn(old_ts, txn_id@),
                old_ts == old(self).transactions(),
                old_vs == old(self).versions(),
                tv == txn_with_id(old_ts, txn_id@),
                self.timestamp() == commit_ts,
                self.stored() == apply_writes(old(self).stored(), tv.writes.take(w as int)),
                commit_ts == old(self).timestamp() + 1,
                !has_conflict(old_vs, tv.reads),
                txn@ == tv,
                w <= txn.writes@.len(),
                forall|a: int, b: int|
                    0 <= a < tv.writes.len() && 0 <= b < tv.writes.len() && a != b ==> (
                    #[trigger] tv.writes[a]).0 != (#[trigger] tv.writes[b]).0,
                forall|k: Seq<u8>|
                    if writes_key(tv.writes.take(w as int), k) {
                        extended_at(
                            key_versions(old_vs, k),
                            #[trigger] key_versions(self.versions(), k),
                            commit_ts,
                        )
                    } else {
                        key_versions(self.versions(), k) == key_versions(old_vs, k)
                    },
            decreases txn.writes.len() - w,
        {
            let ghost before_vs = self.versions();
            let ghost wk = tv.writes[w as int].0;
            assert(tv.writes[w as int] == (txn.writes@[w as int].0@, txn.writes@[w as int].1@));
            match &self.raft_node {
                Some(raft) => {
                    let cmd = RaftCommand::Put {
                        key: copy_bytes(txn.writes[w].0.as_slice()),
                        value: copy_bytes(txn.writes[w].1.as_slice()),
                        version: commit_ts,
                    };
                    match raft.propose(cmd) {
                        Err(e) => return Err(e),
                        Ok(()) => {},
                    }
                },
                None => {},
            }
            let ghost engine_before = self.engine;
            match self.engine.put(txn.writes[w].0.as_slice(), copy_bytes(txn.writes[w].1.as_slice())) {
                Err(e) => {
                    proof {
                        assert(self.engine == engine_before);
                        assert(self.write_refused(tv.writes[w as int].0, tv.writes[w as int].1, e@));
                        assert(self.stored() == apply_writes(old(self).stored(), tv.writes.take(w as int)));
                        assert forall|k: Seq<u8>|
                            #[trigger] key_versions(self.versions(), k) == key_versions(old_vs, k) || (
                            writes_key(tv.writes, k) && extended_at(
                                key_versions(old_vs, k),
                                key_versions(self.versions(), k),
                                commit_ts,
                            )) by {
                            if writes_key(tv.writes.take(w as int), k) {
                                let a = choose|a: int| 0 <= a < w && (#[trigger] tv.writes.take(w as int)[a]).0 == k;
                                assert(tv.writes[a] == tv.writes.take(w as int)[a]);
                            }
                        }
                    }
                    return Err(e);
                },
                Ok(()) => {},
            }
            proof {
                let ws = tv.writes.take(w + 1);
                assert(ws.drop_last() =~= tv.writes.take(w as int));
                assert(ws.last() == tv.writes[w as int]);
            }
            let info = VersionInfo { version: commit_ts, timestamp: unix_time_secs(), is_deleted: false };
            self.append_version(txn.writes[w].0.as_slice(), info);
            proof {
                assert forall|k: Seq<u8>|
                    if writes_key(tv.writes.take(w + 1), k) {
                        extended_at(
                            key_versions(old_vs, k),
                            #[trigger] key_versions(self.versions(), k),
                            commit_ts,
                        )
                    } else {
                        key_versions(self.versions(), k) == key_versions(old_vs, k)
                    } by {
                    if k == wk {
                        assert(tv.writes.take(w + 1)[w as int] == tv.writes[w as int]);
                        if writes_key(tv.writes.take(w as int), k) {
                            let a = choose|a: int| 0 <= a < w && (#[trigger] tv.writes.take(w as int)[a]).0 == k;
                            assert(tv.writes[a] == tv.writes.take(w as int)[a]);
                            assert(false);
                        }
                        assert(key_versions(self.versions(), k) == key_versions(old_vs, k).push(info));
                        assert(key_versions(self.versions(), k).drop_last() =~= key_versions(old_vs, k));
                    } else {
                        if writes_key(tv.writes.take(w + 1), k) {
                            let a = choose|a: int| 0 <= a < w + 1 && (#[trigger] tv.writes.take(w + 1)[a]).0 == k;
                            assert(tv.writes.take(w + 1)[a] == tv.writes.take(w as int)[a]);
                            assert(writes_key(tv.writes.take(w as int), k));
                        } else {
                            if writes_key(tv.writes.take(w as int), k) {
                                let a = choose|a: int| 0 <= a < w && (#[trigger] tv.writes.take(w as int)[a]).0 == k;
                                assert(tv.writes.take(w + 1)[a] == tv.writes.take(w as int)[a]);
                            }
                        }
                    }
                }
            }
            w = w + 1;
        }
        assert(tv.writes.take(tv.writes.len() as int) =~= tv.writes);
        Ok(())
    }

    /// The value of `key` as of `version`: when no live version of the key is
    /// at most `version`, `Ok(None)`; otherwise what the engine holds under
    /// the key.
    pub fn get_version(&self, key: &[u8], version: u64) -> (r: Result<Option<Vec<u8>>, String>)
        requires
            self.wf(),
        ensures
            !has_visible(self.versions(), key@, version) ==> r == Ok::<Option<Vec<u8>>, String>(None),
            has_visible(self.versions(), key@, version) ==> (r matches Ok(o) ==> lookup_agrees(
                self.stored(),
                key@,
                o,
            )),
            r is Err ==> has_visible(self.versions(), key@, version),
    {
        match self.find_key(key) {
            None => Ok(None),
            Some(i) => {
                let n = self.versions[i].versions.len();
                let mut m: usize = n;
                while m > 0
                    invariant
                        self.wf(),
                        i < self.versions@.len(),
                        n == self.versions@[i as int].versions@.len(),
                        self.versions()[i as int].1 == key_versions(self.versions(), key@),
                        m <= n,
                        forall|k: int| m <= k < n ==> !((#[trigger] self.versions()[i as int].1[k]).version
                            <= version && !self.versions()[i as int].1[k].is_deleted),
                    decreases m,
                {
                    m = m - 1;
                    let v = self.versions[i].versions[m];
                    assert(v == self.versions()[i as int].1[m as int]);
                    if v.version <= version && !v.is_deleted {
                        assert(key_versions(self.versions(), key@)[m as int] == v);
                        return self.engine.get(key);
                    }
                }
                Ok(None)
            },
        }
    }

    fn prune_list(v: &Vec<VersionInfo>, cutoff: u64) -> (r: Vec<VersionInfo>)
        ensures
            r@ == v@.filter(kept_after(cutoff)),
    {
        let mut r: Vec<VersionInfo> = Vec::new();
        let mut i: usize = 0;
        while i < v.len()
            invariant
                i <= v@.len(),
                r@ == v@.take(i as int).filter(kept_after(cutoff)),
            decreases v.len() - i,
        {
            proof {
                reveal_with_fuel(Seq::<VersionInfo>::filter, 1);
                assert(v@.take(i + 1).drop_last() =~= v@.take(i as int));
            }
            if v[i].timestamp >= cutoff {
                r.push(v[i]);
            }
            i = i + 1;
        }
        assert(v@.take(v@.len() as int) =~= v@);
        r
    }

    /// Drops every version committed before `cutoff` and returns how many
    /// were dropped.
    pub fn cleanup_versions_before(&mut self, cutoff: u64) -> (n: usize)
        requires
            old(self).wf(),
            total_versions(old(self).versions()) <= usize::MAX,
        ensures
            final(self).stored() == old(self).stored(),
            final(self).wf(),
            final(self).versions() == pruned(old(self).versions(), cutoff),
            n == total_versions(old(self).versions()) - total_versions(final(self).versions()),
            final(self).transactions() == old(self).transactions(),
            final(self).timestamp() == old(self).timestamp(),
    {
        let ghost old_vs = self.versions();
        let mut cleaned: usize = 0;
        let mut i: usize = 0;
        while i < self.versions.len()
            invariant
                self.versions@.len() == old_vs.len(),
                self.transactions() == old(self).transactions(),
                self.timestamp() == old(self).timestamp(),
                self.stored() == old(self).stored(),
                old_vs == old(self).versions(),
                i <= old_vs.len(),
                forall|k: int| 0 <= k < i ==> (#[trigger] self.versions()[k]) == (old_vs[k].0, old_vs[k].1.filter(kept_after(cutoff))),
                forall|k: int| i <= k < old_vs.len() ==> (#[trigger] self.versions()[k]) == old_vs[k],
                cleaned == total_versions(old_vs.take(i as int)) - total_versions(self.versions().take(i as int)),
                total_versions(self.versions().take(i as int)) <= total_versions(old_vs.take(i as int)),
                total_versions(old_vs.take(i as int)) <= total_versions(old_vs),
                total_versions(old_vs) <= usize::MAX,
            decreases self.versions.len() - i,
        {
            let ghost before = self.versions();
            let kept = Self::prune_list(&self.versions[i].versions, cutoff);
            let removed = self.versions[i].versions.len() - kept.len();
            proof {
                old_vs[i as int].1.lemma_filter_len(kept_after(cutoff));
                assert(before[i as int] == (self.versions@[i as int].key@, self.versions@[i as int].versions@));
                assert(self.versions@[i as int].versions@ == old_vs[i as int].1);
                assert(old_vs.take(i + 1).drop_last() =~= old_vs.take(i as int));
                lemma_total_prefix(old_vs, i as int + 1);
            }
            let mut kept_mut = kept;
            std::mem::swap(&mut kept_mut, &mut self.versions[i].versions);
            proof {
                let vs = self.versions();
                assert(vs[i as int] == (self.versions@[i as int].key@, self.versions@[i as int].versions@));
                assert forall|k: int| 0 <= k < vs.len() && k != i implies vs[k] == before[k] by {
                    assert(vs[k] == (self.versions@[k].key@, self.versions@[k].versions@));
                }
                assert(vs =~= before.update(i as int, (old_vs[i as int].0, old_vs[i as int].1.filter(kept_after(cutoff)))));
                assert(vs.take(i + 1).drop_last() =~= before.take(i as int));
                assert(before.take(i as int) =~= vs.take(i as int));
            }
            cleaned = cleaned + removed;
            i = i + 1;
        }
        proof {
            let vs = self.versions();
            assert(vs =~= pruned(old_vs, cutoff));
            assert(vs.take(i as int) =~= vs);
            assert(old_vs.take(i as int) =~= old_vs);
            assert(keys_unique(vs)) by {
                assert forall|a: int, b: int|
                    0 <= a < vs.len() && 0 <= b < vs.len() && a != b implies (#[trigger] vs[a]).0
                        != (#[trigger] vs[b]).0 by {
                    assert(vs[a].0 == old_vs[a].0);
                    assert(vs[b].0 == old_vs[b].0);
                }
            }
        }
        cleaned
    }

    /// Drops every version committed more than `retention` seconds before
    /// now, and returns how many were dropped; a retention reaching back
    /// before the Unix epoch is refused.
    pub fn cleanup_versions(&mut self, retention: u64) -> (r: Result<usize, String>)
        requires
            old(self).wf(),
            total_versions(old(self).versions()) <= usize::MAX,
        ensures
            final(self).stored() == old(self).stored(),
            final(self).wf(),
            final(self).transactions() == old(self).transactions(),
            final(self).timestamp() == old(self).timestamp(),
            retention == 0 ==> r is Ok,
            r matches Err(e) ==> retention > 0 && e@ == "Retention reaches back before the epoch"@
                && final(self).versions() == old(self).versions(),
            r matches Ok(n) ==> exists|cutoff: u64|
                #[trigger] pruned(old(self).versions(), cutoff) == final(self).versions() && cutoff + retention
                    <= u64::MAX && n == total_versions(old(self).versions()) - total_versions(
                    final(self).versions(),
                ),
    {
        let now = unix_time_secs();
        if retention > now {
            return Err(String::from_str("Retention reaches back before the epoch"));
        }
        let n = self.cleanup_versions_before(now - retention);
        Ok(n)
    }
}

/// The versions counted over a prefix are at most those of the whole.
pub proof fn lemma_total_prefix(vs: Seq<(Seq<u8>, Seq<VersionInfo>)>, i: int)
    requires
        0 <= i <= vs.len(),
    ensures
        total_versions(vs.take(i)) <= total_versions(vs),
    decreases vs.len() - i,
{
    if i < vs.len() {
        lemma_total_prefix(vs, i + 1);
        assert(vs.take(i + 1).drop_last() =~= vs.take(i));
    } else {
        assert(vs.take(i) =~= vs);
    }
}

/// Rolling back a transaction just begun restores the open transactions as
/// they were before it began.
pub proof fn law_rollback_undoes_begin(ts: Seq<TransactionView>, t: TransactionView)
    requires
        !has_txn(ts, t.id),
    ensures
        without_txn(with_txn(ts, t), t.id) == ts,
{
    let pushed = ts.push(t);
    assert(pushed[ts.len() as int].id == t.id);
    assert(has_txn(pushed, t.id));
    let i = choose|i: int| 0 <= i < pushed.len() && (#[trigger] pushed[i]).id == t.id;
    if i < ts.len() {
        assert(pushed[i] == ts[i]);
        assert(has_txn(ts, t.id));
    }
    assert(pushed.remove(i) =~= ts);
}

/// Writes to distinct keys leave each key with the value written to it.
proof fn lemma_apply_writes_at(m: Map<Seq<u8>, Seq<u8>>, ws: Seq<(Seq<u8>, Seq<u8>)>, i: int)
    requires
        forall|a: int, b: int|
            0 <= a < ws.len() && 0 <= b < ws.len() && a != b ==> (#[trigger] ws[a]).0 != (
            #[trigger] ws[b]).0,
        0 <= i < ws.len(),
    ensures
        apply_writes(m, ws).contains_key(ws[i].0),
        apply_writes(m, ws)[ws[i].0] == ws[i].1,
    decreases ws.len(),
{
    let last = ws.len() - 1;
    if i < last {
        let rest = ws.drop_last();
        assert forall|a: int, b: int|
            0 <= a < rest.len() && 0 <= b < rest.len() && a != b implies (#[trigger] rest[a]).0 != (
            #[trigger] rest[b]).0 by {
            assert(rest[a] == ws[a] && rest[b] == ws[b]);
        }
        lemma_apply_writes_at(m, rest, i);
        assert(rest[i] == ws[i]);
        assert(ws[i].0 != ws[last].0);
    }
}

/// A commit reads back: for every key a committed transaction wrote, a live
/// version of the key is visible as of the commit timestamp, so a read of the
/// key at that version consults the engine, and the engine holds the value
/// written.
pub proof fn law_commit_reads_back(
    vs0: Seq<(Seq<u8>, Seq<VersionInfo>)>,
    vs1: Seq<(Seq<u8>, Seq<VersionInfo>)>,
    m0: Map<Seq<u8>, Seq<u8>>,
    ws: Seq<(Seq<u8>, Seq<u8>)>,
    ts: u64,
    i: int,
)
    requires
        forall|a: int, b: int|
            0 <= a < ws.len() && 0 <= b < ws.len() && a != b ==> (#[trigger] ws[a]).0 != (
            #[trigger] ws[b]).0,
        forall|k: Seq<u8>|
            writes_key(ws, k) ==> extended_at(key_versions(vs0, k), #[trigger] key_versions(vs1, k), ts),
        0 <= i < ws.len(),
    ensures
        has_visible(vs1, ws[i].0, ts),
        apply_writes(m0, ws).contains_key(ws[i].0),
        apply_writes(m0, ws)[ws[i].0] == ws[i].1,
{
    let k = ws[i].0;
    assert(writes_key(ws, k));
    let after = key_versions(vs1, k);
    assert(extended_at(key_versions(vs0, k), after, ts));
    assert(after[after.len() - 1] == after.last());
    lemma_apply_writes_at(m0, ws, i);
}

} // verus!
