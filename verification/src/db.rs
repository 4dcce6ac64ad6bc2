//! The database: version store, transaction registry, visibility oracle and
//! conflict detector.

use crate::tx::{Connection, Transaction, TransactionState};
use vstd::prelude::*;
use vstd::string::StringExecFns;

verus! {

/// The isolation level under which a transaction reads and commits.
#[derive(PartialEq, Eq, Structural, Clone, Copy, Debug)]
pub enum IsolationLevel {
    ReadUncommitted,
    ReadCommitted,
    RepeatableRead,
    Snapshot,
    Serializable,
}

/// One version of one key: the stored value, the identifier of the
/// transaction that created the version, and the identifier of the
/// transaction that superseded or deleted it (`0` while the version is live).
#[derive(Debug)]
pub struct Value {
    pub data: String,
    pub tx_start_id: u64,
    pub tx_end_id: u64,
}

/// The append-only version history of a single key, oldest version first.
#[derive(Debug)]
pub struct KeyVersions {
    pub key: String,
    pub versions: Vec<Value>,
}

/// The transaction registry: the next identifier to allocate and every
/// transaction ever started. The transaction with identifier `i` is stored at
/// index `i - 1`, so allocation order is the order of the vector.
pub struct TxInfo {
    pub next_tx_id: u64,
    pub txs: Vec<Transaction>,
}

impl TxInfo {
    /// The registry state of an identifier, or `None` for an identifier that
    /// was never allocated (including the reserved identifier `0`).
    pub open spec fn spec_state_of(self, tx_id: u64) -> Option<TransactionState> {
        if 1 <= tx_id && tx_id <= self.txs@.len() {
            Some(self.txs@[tx_id - 1].state)
        } else {
            None
        }
    }

    /// Identifiers are allocated consecutively from 1; every record is
    /// well formed; and each record's `inprogress` snapshot is complete: an
    /// identifier below the record's own that the snapshot misses was already
    /// completed when the record began, so it is not `Active` now.
    pub open spec fn wf(self) -> bool {
        &&& self.next_tx_id as int == self.txs@.len() + 1
        &&& forall|i: int|
            0 <= i < self.txs@.len() ==> (#[trigger] self.txs@[i]).id as int == i + 1
        &&& forall|i: int| 0 <= i < self.txs@.len() ==> (#[trigger] self.txs@[i]).wf()
        &&& forall|i: int, id: u64|
            0 <= i < self.txs@.len() && 1 <= id && id < (#[trigger] self.txs@[i]).id
                && !self.txs@[i].inprogress@.contains(id) ==> (#[trigger] self.txs@[
                id - 1
            ]).state != TransactionState::Active
    }

    /// Pure lookup of an identifier's state.
    pub fn state_of(&self, tx_id: u64) -> (r: Option<TransactionState>)
        ensures
            r == self.spec_state_of(tx_id),
    {
        if 1 <= tx_id && tx_id <= self.txs.len() as u64 {
            Some(self.txs[(tx_id - 1) as usize].state)
        } else {
            None
        }
    }
}

/// Whether the version `v` is visible to a transaction with identifier
/// `tx_id`, isolation level `level` and begin-time snapshot `inprogress`,
/// given the registry `txs`.
///
/// Under `ReadUncommitted` every version is visible. Under `ReadCommitted` a
/// version is visible when its creator is the reader itself or has committed,
/// and neither the reader nor a committed transaction has superseded it. The
/// three snapshot-based levels share one rule over the begin-time snapshot.
pub open spec fn spec_visible_at(
    txs: TxInfo,
    tx_id: u64,
    level: IsolationLevel,
    inprogress: Seq<u64>,
    v: Value,
) -> bool {
    match level {
        IsolationLevel::ReadUncommitted => true,
        IsolationLevel::ReadCommitted => {
            &&& !(v.tx_start_id != tx_id && txs.spec_state_of(v.tx_start_id) != Some(
                TransactionState::Committed,
            ))
            &&& v.tx_end_id != tx_id
            &&& !(v.tx_end_id != 0 && txs.spec_state_of(v.tx_end_id) == Some(
                TransactionState::Committed,
            ))
        },
        _ => {
            &&& !(v.tx_start_id > tx_id)
            &&& !inprogress.contains(v.tx_start_id)
            &&& !(v.tx_start_id != tx_id && txs.spec_state_of(v.tx_start_id) != Some(
                TransactionState::Committed,
            ))
            &&& v.tx_end_id != tx_id
            &&& !(v.tx_end_id != 0 && v.tx_end_id < tx_id && txs.spec_state_of(v.tx_end_id)
                == Some(TransactionState::Committed) && !inprogress.contains(v.tx_end_id))
        },
    }
}

/// The value a reader obtains from a history: the data of the newest version
/// visible to it, or `None` when no version is visible.
pub open spec fn spec_read_versions(
    txs: TxInfo,
    tx_id: u64,
    level: IsolationLevel,
    inprogress: Seq<u64>,
    h: Seq<Value>,
) -> Option<Seq<char>>
    decreases h.len(),
{
    if h.len() == 0 {
        None
    } else if spec_visible_at(txs, tx_id, level, inprogress, h.last()) {
        Some(h.last().data@)
    } else {
        spec_read_versions(txs, tx_id, level, inprogress, h.drop_last())
    }
}

/// Two key sets share at least one key.
pub open spec fn seqs_share(s1: Seq<String>, s2: Seq<String>) -> bool {
    exists|i: int, j: int| 0 <= i < s1.len() && 0 <= j < s2.len() && s1[i]@ == s2[j]@
}

/// Identifier `id` is a conflicting committed peer of the committing
/// transaction `t`: it either was active when `t` began or began no earlier
/// than `t`, it has committed, and its write set shares a key with `own`
/// (the read or write set of `t` that the isolation level compares).
pub open spec fn spec_conflicting_peer(
    db: Database,
    t: Transaction,
    own: Seq<String>,
    id: u64,
) -> bool {
    &&& t.inprogress@.contains(id) || (t.id <= id && id < db.txs_info.next_tx_id)
    &&& db.txs_info.spec_state_of(id) == Some(TransactionState::Committed)
    &&& seqs_share(own, db.txs_info.txs@[id - 1].write_set@)
}

/// Some committed peer of `t` conflicts with it on the key set `own`.
pub open spec fn spec_peer_conflict(db: Database, t: Transaction, own: Seq<String>) -> bool {
    exists|id: u64| spec_conflicting_peer(db, t, own, id)
}

/// The database: the per-key version store, the transaction registry, and the
/// isolation level given to new transactions.
pub struct Database {
    pub kvs_info: Vec<KeyVersions>,
    pub txs_info: TxInfo,
    pub default_isolation_level: IsolationLevel,
}

impl Database {
    /// Keys in the version store are unique, and every version stamp
    /// references a transaction present in the registry (`tx_end_id` may also
    /// be the reserved `0`, meaning the version is live).
    pub open spec fn kvs_wf(self) -> bool {
        &&& forall|i: int, j: int|
            0 <= i < j < self.kvs_info@.len() ==> (#[trigger] self.kvs_info@[i]).key@ != (
            #[trigger] self.kvs_info@[j]).key@
        &&& forall|i: int, k: int|
            0 <= i < self.kvs_info@.len() && 0 <= k < (#[trigger] self.kvs_info@[i]).versions@.len()
                ==> {
                let v = #[trigger] self.kvs_info@[i].versions@[k];
                &&& 1 <= v.tx_start_id
                &&& v.tx_start_id <= self.txs_info.txs@.len()
                &&& (v.tx_end_id == 0 || (1 <= v.tx_end_id && v.tx_end_id
                    <= self.txs_info.txs@.len()))
            }
    }

    /// The database-wide well-formedness invariant.
    pub open spec fn wf(self) -> bool {
        &&& self.txs_info.wf()
        &&& self.kvs_wf()
    }

    /// The registry state of an identifier.
    pub open spec fn spec_state_of(self, tx_id: u64) -> Option<TransactionState> {
        self.txs_info.spec_state_of(tx_id)
    }

    /// The version store holds a history for `k`.
    pub open spec fn spec_has_key(self, k: Seq<char>) -> bool {
        exists|i: int| 0 <= i < self.kvs_info@.len() && (#[trigger] self.kvs_info@[i]).key@ == k
    }

    /// The index of `k`'s history in the version store (meaningful only when
    /// `spec_has_key(k)` holds; unique by `kvs_wf`).
    pub open spec fn spec_key_index(self, k: Seq<char>) -> int {
        choose|i: int| 0 <= i < self.kvs_info@.len() && (#[trigger] self.kvs_info@[i]).key@ == k
    }

    /// The version history of `k`, oldest first; empty when `k` is unknown.
    pub open spec fn spec_history(self, k: Seq<char>) -> Seq<Value> {
        if self.spec_has_key(k) {
            self.kvs_info@[self.spec_key_index(k)].versions@
        } else {
            Seq::empty()
        }
    }

    /// Whether version `v` is visible to transaction `t`.
    pub open spec fn spec_visible(self, t: Transaction, v: Value) -> bool {
        spec_visible_at(self.txs_info, t.id, t.isolation_level, t.inprogress@, v)
    }

    /// The result of `t` reading key `k`: the data of the newest visible
    /// version, or `None`.
    pub open spec fn spec_read(self, t: Transaction, k: Seq<char>) -> Option<Seq<char>> {
        spec_read_versions(
            self.txs_info,
            t.id,
            t.isolation_level,
            t.inprogress@,
            self.spec_history(k),
        )
    }

    /// A fresh database: no keys, no transactions, identifiers start at 1,
    /// and new transactions default to `ReadUncommitted`.
    pub fn new() -> (db: Database)
        ensures
            db.wf(),
            db.txs_info.next_tx_id == 1,
            db.txs_info.txs@.len() == 0,
            db.kvs_info@.len() == 0,
            db.default_isolation_level == IsolationLevel::ReadUncommitted,
    {
        Database {
            kvs_info: Vec::new(),
            txs_info: TxInfo { next_tx_id: 1, txs: Vec::new() },
            default_isolation_level: IsolationLevel::ReadUncommitted,
        }
    }

    /// A new connection on this database, bound to no transaction.
    pub fn new_connection(&self) -> (c: Connection)
        ensures
            c.tx is None,
    {
        Connection { tx: None }
    }

    /// Pure lookup of an identifier's state in the registry.
    fn get_transaction_state(&self, tx_id: u64) -> (r: Option<TransactionState>)
        ensures
            r == self.spec_state_of(tx_id),
    {
        self.txs_info.state_of(tx_id)
    }

    /// Guards operations that require an `Active` transaction; the caller
    /// must have established activeness, so the guard cannot fail.
    pub fn assert_transaction(&self, tx_id: u64)
        requires
            tx_id > 0,
            self.spec_state_of(tx_id) == Some(TransactionState::Active),
    {
    }
}

/// Whether the identifier `x` occurs in `v`.
pub(crate) fn contains_id(v: &Vec<u64>, x: u64) -> (r: bool)
    ensures
        r == v@.contains(x),
{
    let mut i: usize = 0;
    while i < v.len()
        invariant
            0 <= i <= v@.len(),
            forall|j: int| 0 <= j < i ==> v@[j] != x,
        decreases v@.len() - i,
    {
        if v[i] == x {
            return true;
        }
        i += 1;
    }
    false
}

/// Whether some key in `v` equals `s`.
pub(crate) fn vec_contains_string(v: &Vec<String>, s: &String) -> (r: bool)
    ensures
        r == exists|j: int| 0 <= j < v@.len() && (#[trigger] v@[j])@ == s@,
{
    let mut i: usize = 0;
    while i < v.len()
        invariant
            0 <= i <= v@.len(),
            forall|j: int| 0 <= j < i ==> (#[trigger] v@[j])@ != s@,
        decreases v@.len() - i,
    {
        if v[i] == *s {
            return true;
        }
        i += 1;
    }
    false
}

/// The index of `key`'s history in `kvs`, if any.
pub(crate) fn find_key(kvs: &Vec<KeyVersions>, key: &String) -> (r: Option<usize>)
    ensures
        match r {
            Some(i) => 0 <= i < kvs@.len() && kvs@[i as int].key@ == key@,
            None => forall|i: int| 0 <= i < kvs@.len() ==> (#[trigger] kvs@[i]).key@ != key@,
        },
{
    let mut i: usize = 0;
    while i < kvs.len()
        invariant
            0 <= i <= kvs@.len(),
            forall|j: int| 0 <= j < i ==> (#[trigger] kvs@[j]).key@ != key@,
        decreases kvs@.len() - i,
    {
        if kvs[i].key == *key {
            return Some(i);
        }
        i += 1;
    }
    None
}

/// Whether the version `val` is visible to the transaction `t`, given the
/// registry `txs`. Executable form of [`spec_visible_at`].
pub(crate) fn is_visible_tx(txs: &TxInfo, t: &Transaction, val: &Value) -> (r: bool)
    ensures
        r == spec_visible_at(*txs, t.id, t.isolation_level, t.inprogress@, *val),
{
    match t.isolation_level {
        IsolationLevel::ReadUncommitted => true,
        IsolationLevel::ReadCommitted => {
            if val.tx_start_id != t.id && txs.state_of(val.tx_start_id) != Some(
                TransactionState::Committed,
            ) {
                return false;
            }
            if val.tx_end_id == t.id {
                return false;
            }
            if val.tx_end_id != 0 && txs.state_of(val.tx_end_id) == Some(
                TransactionState::Committed,
            ) {
                return false;
            }
            true
        },
        _ => {
            if val.tx_start_id > t.id {
                return false;
            }
            if contains_id(&t.inprogress, val.tx_start_id) {
                return false;
            }
            if val.tx_start_id != t.id && txs.state_of(val.tx_start_id) != Some(
                TransactionState::Committed,
            ) {
                return false;
            }
            if val.tx_end_id == t.id {
                return false;
            }
            if val.tx_end_id != 0 && val.tx_end_id < t.id && txs.state_of(val.tx_end_id) == Some(
                TransactionState::Committed,
            ) && !contains_id(&t.inprogress, val.tx_end_id) {
                return false;
            }
            true
        },
    }
}

/// How one `begin` changes the database: the version store and the default
/// level are untouched, the next identifier advances by one, and a single new
/// record is appended — `Active`, at the default level, with empty read and
/// write sets, and with an `inprogress` snapshot holding exactly the
/// identifiers that were `Active` at that moment.
pub open spec fn spec_begin_effect(db0: Database, db1: Database) -> bool {
    &&& db1.kvs_info == db0.kvs_info
    &&& db1.default_isolation_level == db0.default_isolation_level
    &&& db1.txs_info.next_tx_id == db0.txs_info.next_tx_id + 1
    &&& db1.txs_info.txs@.len() == db0.txs_info.txs@.len() + 1
    &&& forall|i: int|
        0 <= i < db0.txs_info.txs@.len() ==> db1.txs_info.txs@[i] == db0.txs_info.txs@[i]
    &&& ({
        let t = db1.txs_info.txs@.last();
        &&& t.id == db0.txs_info.next_tx_id
        &&& t.state == TransactionState::Active
        &&& t.isolation_level == db0.default_isolation_level
        &&& t.write_set@.len() == 0
        &&& t.read_set@.len() == 0
        &&& forall|id: u64|
            t.inprogress@.contains(id) <==> db0.txs_info.spec_state_of(id) == Some(
                TransactionState::Active,
            )
    })
}

/// The version `v1` is `v0` after one end-stamping pass by the transaction
/// with identifier `tx_id`, level `level` and snapshot `inprogress`, against
/// the registry `txs`: data and creator are unchanged, and the end stamp
/// became `tx_id` exactly when `v0` was visible to that transaction.
pub open spec fn stamped_version_at(
    txs: TxInfo,
    tx_id: u64,
    level: IsolationLevel,
    inprogress: Seq<u64>,
    v0: Value,
    v1: Value,
) -> bool {
    &&& v1.data == v0.data
    &&& v1.tx_start_id == v0.tx_start_id
    &&& v1.tx_end_id == if spec_visible_at(txs, tx_id, level, inprogress, v0) {
        tx_id
    } else {
        v0.tx_end_id
    }
}

/// The record `t1` is `t0` with its state set to `s` and nothing else changed.
pub open spec fn spec_tx_with_state(t0: Transaction, s: TransactionState, t1: Transaction) -> bool {
    &&& t1.id == t0.id
    &&& t1.state == s
    &&& t1.isolation_level == t0.isolation_level
    &&& t1.inprogress == t0.inprogress
    &&& t1.write_set == t0.write_set
    &&& t1.read_set == t0.read_set
}

impl Database {
    /// The identifiers of all currently `Active` transactions.
    fn get_active_tx(&self) -> (r: Vec<u64>)
        requires
            self.txs_info.wf(),
        ensures
            forall|id: u64|
                r@.contains(id) <==> self.txs_info.spec_state_of(id) == Some(
                    TransactionState::Active,
                ),
            forall|j: int|
                0 <= j < r@.len() ==> 1 <= #[trigger] r@[j] && r@[j]
                    <= self.txs_info.txs@.len(),
    {
        let mut r: Vec<u64> = Vec::new();
        let n = self.txs_info.txs.len();
        let mut i: usize = 0;
        while i < n
            invariant
                0 <= i <= n,
                n == self.txs_info.txs@.len(),
                self.txs_info.wf(),
                forall|id: u64|
                    r@.contains(id) <==> (1 <= id && id <= i && self.txs_info.txs@[id
                        - 1].state == TransactionState::Active),
                forall|j: int| 0 <= j < r@.len() ==> 1 <= #[trigger] r@[j] && r@[j] <= i,
            decreases n - i,
        {
            if self.txs_info.txs[i].state == TransactionState::Active {
                let ghost old_r = r@;
                r.push(self.txs_info.txs[i].id);
                proof {
                    assert(self.txs_info.txs@[i as int].id as int == i + 1);
                    assert forall|id: u64|
                        r@.contains(id) <==> (1 <= id && id <= i + 1 && self.txs_info.txs@[id
                            - 1].state == TransactionState::Active) by {
                        if r@.contains(id) {
                            let j = choose|j: int| 0 <= j < r@.len() && r@[j] == id;
                            if j < old_r.len() {
                                assert(old_r[j] == id);
                                assert(old_r.contains(id));
                            } else {
                                assert(id == self.txs_info.txs@[i as int].id);
                            }
                        }
                        if 1 <= id && id <= i + 1 && self.txs_info.txs@[id - 1].state
                            == TransactionState::Active {
                            if id <= i {
                                assert(old_r.contains(id));
                                let j = choose|j: int| 0 <= j < old_r.len() && old_r[j] == id;
                                assert(r@[j] == id);
                            } else {
                                assert(r@[old_r.len() as int] == id);
                            }
                        }
                    }
                }
            } else {
                proof {
                    assert forall|id: u64|
                        r@.contains(id) <==> (1 <= id && id <= i + 1 && self.txs_info.txs@[id
                            - 1].state == TransactionState::Active) by {
                        assert(self.txs_info.txs@[i as int].id as int == i + 1);
                    }
                }
            }
            i += 1;
        }
        r
    }

    /// Begins a transaction: allocates the next identifier, snapshots the
    /// currently active identifiers, inserts an `Active` record at the
    /// default isolation level with empty read and write sets, and returns
    /// the new identifier.
    pub fn new_transaction(&mut self) -> (tx_id: u64)
        requires
            old(self).wf(),
            old(self).txs_info.next_tx_id < u64::MAX,
        ensures
            final(self).wf(),
            tx_id == old(self).txs_info.next_tx_id,
            final(self).spec_state_of(tx_id) == Some(TransactionState::Active),
            spec_begin_effect(*old(self), *final(self)),
    {
        let tx_id = self.txs_info.next_tx_id;
        let inprogress = self.get_active_tx();
        let t = Transaction {
            id: tx_id,
            state: TransactionState::Active,
            isolation_level: self.default_isolation_level,
            inprogress,
            write_set: Vec::new(),
            read_set: Vec::new(),
        };
        self.txs_info.txs.push(t);
        self.txs_info.next_tx_id = tx_id + 1;
        proof {
            let txs0 = old(self).txs_info;
            let txs1 = self.txs_info;
            assert forall|i: int, id: u64|
                0 <= i < txs1.txs@.len() && 1 <= id && id < (#[trigger] txs1.txs@[i]).id
                    && !txs1.txs@[i].inprogress@.contains(id) implies (#[trigger] txs1.txs@[id
                - 1]).state != TransactionState::Active by {
                if i < txs0.txs@.len() {
                    assert(txs1.txs@[i] == txs0.txs@[i]);
                    assert(txs1.txs@[id - 1] == txs0.txs@[id - 1]);
                } else {
                    assert(txs0.spec_state_of(id) != Some(TransactionState::Active));
                    assert(txs1.txs@[id - 1] == txs0.txs@[id - 1]);
                }
            }
            assert(txs1.wf());
        }
        tx_id
    }

    /// Whether the two key sets share at least one key.
    fn set_share_item(set1: &Vec<String>, set2: &Vec<String>) -> (r: bool)
        ensures
            r == seqs_share(set1@, set2@),
    {
        let mut i: usize = 0;
        while i < set1.len()
            invariant
                0 <= i <= set1@.len(),
                forall|ii: int, jj: int|
                    0 <= ii < i && 0 <= jj < set2@.len() ==> (#[trigger] set1@[ii])@ != (
                    #[trigger] set2@[jj])@,
            decreases set1@.len() - i,
        {
            if vec_contains_string(set2, &set1[i]) {
                return true;
            }
            i += 1;
        }
        false
    }

    /// Whether some committed peer of `t` shares a key of `own` with its
    /// write set. Scans `t`'s begin-time snapshot and every identifier
    /// allocated from `t.id` on.
    fn conflict_check(&self, t: &Transaction, own: &Vec<String>) -> (r: bool)
        requires
            self.wf(),
            t.wf(),
            t.id <= self.txs_info.txs@.len() + 1,
        ensures
            r == spec_peer_conflict(*self, *t, own@),
    {
        let mut j: usize = 0;
        while j < t.inprogress.len()
            invariant
                0 <= j <= t.inprogress@.len(),
                self.wf(),
                t.wf(),
                forall|jj: int|
                    0 <= jj < j ==> !spec_conflicting_peer(
                        *self,
                        *t,
                        own@,
                        #[trigger] t.inprogress@[jj],
                    ),
            decreases t.inprogress@.len() - j,
        {
            let id = t.inprogress[j];
            proof {
                assert(0 <= j < t.inprogress@.len() && t.inprogress@[j as int] == id);
                assert(t.inprogress@.contains(id));
            }
            match self.get_transaction_state(id) {
                Some(TransactionState::Committed) => {
                    let n = self.txs_info.txs.len();
                    proof {
                        assert(self.txs_info.spec_state_of(id) == Some(
                            TransactionState::Committed,
                        ));
                        assert(1 <= id && id <= n);
                    }
                    let idx: usize = (id - 1) as usize;
                    proof {
                        assert(idx as int == id - 1);
                    }
                    if Database::set_share_item(own, &self.txs_info.txs[idx].write_set) {
                        proof {
                            assert(spec_conflicting_peer(*self, *t, own@, id));
                        }
                        return true;
                    }
                },
                _ => {},
            }
            j += 1;
        }
        let hi = self.txs_info.next_tx_id;
        let mut id: u64 = t.id;
        while id < hi
            invariant
                t.id <= id && id <= hi,
                hi == self.txs_info.next_tx_id,
                self.wf(),
                t.wf(),
                forall|jj: int|
                    0 <= jj < t.inprogress@.len() ==> !spec_conflicting_peer(
                        *self,
                        *t,
                        own@,
                        #[trigger] t.inprogress@[jj],
                    ),
                forall|x: u64| t.id <= x < id ==> !spec_conflicting_peer(*self, *t, own@, x),
            decreases hi - id,
        {
            match self.get_transaction_state(id) {
                Some(TransactionState::Committed) => {
                    let n = self.txs_info.txs.len();
                    proof {
                        assert(self.txs_info.spec_state_of(id) == Some(
                            TransactionState::Committed,
                        ));
                        assert(1 <= id && id <= n);
                    }
                    let idx: usize = (id - 1) as usize;
                    proof {
                        assert(idx as int == id - 1);
                    }
                    if Database::set_share_item(own, &self.txs_info.txs[idx].write_set) {
                        proof {
                            assert(spec_conflicting_peer(*self, *t, own@, id));
                        }
                        return true;
                    }
                },
                _ => {},
            }
            id += 1;
        }
        proof {
            assert forall|x: u64| !spec_conflicting_peer(*self, *t, own@, x) by {
                if spec_conflicting_peer(*self, *t, own@, x) {
                    if t.inprogress@.contains(x) {
                        let jj = choose|jj: int|
                            0 <= jj < t.inprogress@.len() && t.inprogress@[jj] == x;
                        assert(!spec_conflicting_peer(*self, *t, own@, t.inprogress@[jj]));
                    }
                }
            }
        }
        false
    }

    /// Completes the transaction `tx_id` with `state`, which must be
    /// `Committed` or `Aborted`. Committing a `Snapshot` or `Serializable`
    /// transaction whose write set meets a committed peer's write set, or a
    /// `Serializable` transaction whose read set meets a committed peer's
    /// write set, aborts it instead and reports the conflict. An unknown
    /// identifier or an `Active` target state is reported as an error without
    /// any change.
    ///
    /// Completing a transaction that already reached a terminal state is a
    /// contract violation of the caller, so a registered `tx_id` must still
    /// be `Active`: a committed or aborted transaction never changes state.
    pub fn complete_transaction(&mut self, tx_id: u64, state: TransactionState) -> (r: Result<
        (),
        String,
    >)
        requires
            old(self).wf(),
            old(self).spec_state_of(tx_id) is Some ==> old(self).spec_state_of(tx_id) == Some(
                TransactionState::Active,
            ),
        ensures
            final(self).wf(),
            final(self).kvs_info == old(self).kvs_info,
            final(self).default_isolation_level == old(self).default_isolation_level,
            final(self).txs_info.next_tx_id == old(self).txs_info.next_tx_id,
            final(self).txs_info.txs@.len() == old(self).txs_info.txs@.len(),
            forall|j: int|
                0 <= j < old(self).txs_info.txs@.len() && j != tx_id - 1
                    ==> final(self).txs_info.txs@[j] == old(self).txs_info.txs@[j],
            ({
                let found = old(self).spec_state_of(tx_id) is Some;
                let t0 = old(self).txs_info.txs@[tx_id - 1];
                if !found {
                    &&& *final(self) == *old(self)
                    &&& (r matches Err(m) && m@ == "Transaction not found"@)
                } else {
                    match state {
                        TransactionState::Active => {
                            &&& *final(self) == *old(self)
                            &&& (r matches Err(m) && m@ == "Invalid transaction state"@)
                        },
                        TransactionState::Aborted => {
                            &&& spec_tx_with_state(
                                t0,
                                TransactionState::Aborted,
                                final(self).txs_info.txs@[tx_id - 1],
                            )
                            &&& r is Ok
                        },
                        TransactionState::Committed => {
                            if (t0.isolation_level == IsolationLevel::Snapshot
                                || t0.isolation_level == IsolationLevel::Serializable)
                                && spec_peer_conflict(*old(self), t0, t0.write_set@) {
                                &&& spec_tx_with_state(
                                    t0,
                                    TransactionState::Aborted,
                                    final(self).txs_info.txs@[tx_id - 1],
                                )
                                &&& (r matches Err(m) && m@ == "Write-Write Conflict"@)
                            } else if t0.isolation_level == IsolationLevel::Serializable
                                && spec_peer_conflict(*old(self), t0, t0.read_set@) {
                                &&& spec_tx_with_state(
                                    t0,
                                    TransactionState::Aborted,
                                    final(self).txs_info.txs@[tx_id - 1],
                                )
                                &&& (r matches Err(m) && m@ == "Read-Write Conflict"@)
                            } else {
                                &&& spec_tx_with_state(
                                    t0,
                                    TransactionState::Committed,
                                    final(self).txs_info.txs@[tx_id - 1],
                                )
                                &&& r is Ok
                            }
                        },
                    }
                }
            }),
    {
        if 1 <= tx_id && tx_id <= self.txs_info.txs.len() as u64 {
            let tidx = (tx_id - 1) as usize;
            match state {
                TransactionState::Committed => {
                    if (self.txs_info.txs[tidx].isolation_level == IsolationLevel::Snapshot
                        || self.txs_info.txs[tidx].isolation_level
                        == IsolationLevel::Serializable) && self.conflict_check(
                        &self.txs_info.txs[tidx],
                        &self.txs_info.txs[tidx].write_set,
                    ) {
                        self.txs_info.txs[tidx].state = TransactionState::Aborted;
                        return Err(String::from_str("Write-Write Conflict"));
                    }
                    if self.txs_info.txs[tidx].isolation_level == IsolationLevel::Serializable
                        && self.conflict_check(
                        &self.txs_info.txs[tidx],
                        &self.txs_info.txs[tidx].read_set,
                    ) {
                        self.txs_info.txs[tidx].state = TransactionState::Aborted;
                        return Err(String::from_str("Read-Write Conflict"));
                    }
                    self.txs_info.txs[tidx].state = TransactionState::Committed;
                    Ok(())
                },
                TransactionState::Aborted => {
                    self.txs_info.txs[tidx].state = TransactionState::Aborted;
                    Ok(())
                },
                TransactionState::Active => Err(String::from_str("Invalid transaction state")),
            }
        } else {
            Err(String::from_str("Transaction not found"))
        }
    }

    /// Whether the version `val` is visible to the transaction `tx` under
    /// `tx`'s isolation level.
    pub fn is_visible(&self, tx: &Transaction, val: &Value) -> (r: bool)
        ensures
            r == self.spec_visible(*tx, *val),
    {
        is_visible_tx(&self.txs_info, tx, val)
    }
}

/// The index of the newest version of `versions` visible to `t`, if any; the
/// read result over the history is exactly that version's data.
pub(crate) fn find_visible(txs: &TxInfo, t: &Transaction, versions: &Vec<Value>) -> (r: Option<
    usize,
>)
    ensures
        match r {
            Some(i) => {
                &&& 0 <= i < versions@.len()
                &&& spec_visible_at(
                    *txs,
                    t.id,
                    t.isolation_level,
                    t.inprogress@,
                    versions@[i as int],
                )
                &&& spec_read_versions(*txs, t.id, t.isolation_level, t.inprogress@, versions@)
                    == Some(versions@[i as int].data@)
            },
            None => spec_read_versions(
                *txs,
                t.id,
                t.isolation_level,
                t.inprogress@,
                versions@,
            ) is None,
        },
{
    let ghost h = versions@;
    let mut i: usize = versions.len();
    proof {
        assert(h.take(h.len() as int) =~= h);
    }
    while i > 0
        invariant
            0 <= i <= h.len(),
            h == versions@,
            spec_read_versions(*txs, t.id, t.isolation_level, t.inprogress@, h)
                == spec_read_versions(
                *txs,
                t.id,
                t.isolation_level,
                t.inprogress@,
                h.take(i as int),
            ),
        decreases i,
    {
        let vis = is_visible_tx(txs, t, &versions[i - 1]);
        proof {
            assert(h.take(i as int).last() == h[i - 1]);
        }
        if vis {
            return Some(i - 1);
        }
        proof {
            assert(h.take(i as int).drop_last() =~= h.take(i as int - 1));
        }
        i -= 1;
    }
    proof {
        assert(h.take(0).len() == 0);
    }
    None
}

/// End-stamps with `t.id` every version of entry `ki` that is visible to `t`,
/// leaving every other version, the entry's key, and every other entry
/// untouched.
pub(crate) fn stamp_visible(txs: &TxInfo, t: &Transaction, kvs: &mut Vec<KeyVersions>, ki: usize)
    requires
        ki < old(kvs)@.len(),
    ensures
        final(kvs)@.len() == old(kvs)@.len(),
        forall|j: int|
            0 <= j < old(kvs)@.len() && j != ki ==> final(kvs)@[j] == old(kvs)@[j],
        final(kvs)@[ki as int].key == old(kvs)@[ki as int].key,
        final(kvs)@[ki as int].versions@.len() == old(kvs)@[ki as int].versions@.len(),
        forall|i: int|
            0 <= i < old(kvs)@[ki as int].versions@.len() ==> stamped_version_at(
                *txs,
                t.id,
                t.isolation_level,
                t.inprogress@,
                old(kvs)@[ki as int].versions@[i],
                final(kvs)@[ki as int].versions@[i],
            ),
{
    let n = kvs[ki].versions.len();
    let mut i: usize = 0;
    while i < n
        invariant
            0 <= i <= n,
            ki < kvs@.len(),
            kvs@.len() == old(kvs)@.len(),
            n == old(kvs)@[ki as int].versions@.len(),
            forall|j: int|
                0 <= j < old(kvs)@.len() && j != ki ==> kvs@[j] == old(kvs)@[j],
            kvs@[ki as int].key == old(kvs)@[ki as int].key,
            kvs@[ki as int].versions@.len() == old(kvs)@[ki as int].versions@.len(),
            forall|jj: int|
                0 <= jj < i ==> stamped_version_at(
                    *txs,
                    t.id,
                    t.isolation_level,
                    t.inprogress@,
                    old(kvs)@[ki as int].versions@[jj],
                    kvs@[ki as int].versions@[jj],
                ),
            forall|jj: int|
                i <= jj < n ==> kvs@[ki as int].versions@[jj] == old(kvs)@[ki
                    as int].versions@[jj],
        decreases n - i,
    {
        let vis = is_visible_tx(txs, t, &kvs[ki].versions[i]);
        if vis {
            kvs[ki].versions[i].tx_end_id = t.id;
        }
        i += 1;
    }
}

/// A registry stays well formed when one record changes only its read and
/// write sets, and no identifier changes state.
pub proof fn lemma_txinfo_wf_after_sets_change(txs0: TxInfo, txs1: TxInfo, tx_id: u64)
    requires
        txs0.wf(),
        1 <= tx_id <= txs0.txs@.len(),
        txs1.next_tx_id == txs0.next_tx_id,
        txs1.txs@.len() == txs0.txs@.len(),
        forall|j: int|
            0 <= j < txs0.txs@.len() && j != tx_id - 1 ==> txs1.txs@[j] == txs0.txs@[j],
        ({
            let a = txs0.txs@[tx_id - 1];
            let b = txs1.txs@[tx_id - 1];
            &&& b.id == a.id
            &&& b.state == a.state
            &&& b.isolation_level == a.isolation_level
            &&& b.inprogress == a.inprogress
        }),
    ensures
        txs1.wf(),
        forall|id: u64| txs1.spec_state_of(id) == txs0.spec_state_of(id),
{
    assert forall|i: int| 0 <= i < txs1.txs@.len() implies (#[trigger] txs1.txs@[i]).id as int == i
        + 1 && txs1.txs@[i].wf() by {
        assert(txs0.txs@[i].wf());
    }
    assert forall|i: int, id: u64|
        0 <= i < txs1.txs@.len() && 1 <= id && id < (#[trigger] txs1.txs@[i]).id
            && !txs1.txs@[i].inprogress@.contains(id) implies (#[trigger] txs1.txs@[id - 1]).state
        != TransactionState::Active by {
        assert(txs1.txs@[i].id == txs0.txs@[i].id);
        assert(txs1.txs@[i].inprogress == txs0.txs@[i].inprogress);
        assert(txs1.txs@[id - 1].state == txs0.txs@[id - 1].state);
    }
    assert forall|id: u64| txs1.spec_state_of(id) == txs0.spec_state_of(id) by {
        if 1 <= id && id <= txs0.txs@.len() {
            assert(txs1.txs@[id - 1].state == txs0.txs@[id - 1].state);
        }
    }
}

/// The version store stays well formed when one entry is end-stamped with a
/// registered identifier and at most one fresh live version by that
/// transaction is appended, while all other entries are untouched.
pub proof fn lemma_kvs_wf_after_stamp(db0: Database, db1: Database, tx_id: u64, ki: int)
    requires
        db0.wf(),
        1 <= tx_id <= db0.txs_info.txs@.len(),
        db1.txs_info.txs@.len() == db0.txs_info.txs@.len(),
        db1.kvs_info@.len() == db0.kvs_info@.len(),
        0 <= ki < db0.kvs_info@.len(),
        forall|j: int|
            0 <= j < db0.kvs_info@.len() && j != ki ==> db1.kvs_info@[j] == db0.kvs_info@[j],
        db1.kvs_info@[ki].key == db0.kvs_info@[ki].key,
        db1.kvs_info@[ki].versions@.len() >= db0.kvs_info@[ki].versions@.len(),
        db1.kvs_info@[ki].versions@.len() <= db0.kvs_info@[ki].versions@.len() + 1,
        forall|i: int|
            0 <= i < db0.kvs_info@[ki].versions@.len() ==> {
                let a = db0.kvs_info@[ki].versions@[i];
                let b = #[trigger] db1.kvs_info@[ki].versions@[i];
                &&& b.tx_start_id == a.tx_start_id
                &&& (b.tx_end_id == a.tx_end_id || b.tx_end_id == tx_id)
            },
        db1.kvs_info@[ki].versions@.len() > db0.kvs_info@[ki].versions@.len() ==> ({
            let v = db1.kvs_info@[ki].versions@.last();
            &&& v.tx_start_id == tx_id
            &&& v.tx_end_id == 0
        }),
    ensures
        db1.kvs_wf(),
{
    assert forall|i: int, j: int|
        0 <= i < j < db1.kvs_info@.len() implies (#[trigger] db1.kvs_info@[i]).key@ != (
    #[trigger] db1.kvs_info@[j]).key@ by {
        assert(db1.kvs_info@[i].key == db0.kvs_info@[i].key || i == ki);
        assert(db1.kvs_info@[ki].key == db0.kvs_info@[ki].key);
    }
    assert forall|i: int, k: int|
        0 <= i < db1.kvs_info@.len() && 0 <= k < (#[trigger] db1.kvs_info@[i]).versions@.len()
            implies {
        let v = #[trigger] db1.kvs_info@[i].versions@[k];
        &&& 1 <= v.tx_start_id
        &&& v.tx_start_id <= db1.txs_info.txs@.len()
        &&& (v.tx_end_id == 0 || (1 <= v.tx_end_id && v.tx_end_id <= db1.txs_info.txs@.len()))
    } by {
        if i != ki {
            assert(db1.kvs_info@[i] == db0.kvs_info@[i]);
            assert(db0.kvs_info@[i].versions@[k] == db1.kvs_info@[i].versions@[k]);
        } else {
            if k < db0.kvs_info@[ki].versions@.len() {
                let a = db0.kvs_info@[ki].versions@[k];
                assert(1 <= a.tx_start_id && a.tx_start_id <= db0.txs_info.txs@.len());
            } else {
                assert(k == db1.kvs_info@[ki].versions@.len() - 1);
            }
        }
    }
}

/// When the entries of `db0` and `db1` agree everywhere but at index `ki`,
/// whose key is `k` in both, the two stores have the same histories for every
/// other key, and `k`'s history is the entry at `ki` in each.
pub proof fn lemma_history_frame(db0: Database, db1: Database, ki: int, k: Seq<char>)
    requires
        forall|i: int, j: int|
            0 <= i < j < db0.kvs_info@.len() ==> (#[trigger] db0.kvs_info@[i]).key@ != (
            #[trigger] db0.kvs_info@[j]).key@,
        db1.kvs_info@.len() == db0.kvs_info@.len(),
        forall|j: int|
            0 <= j < db0.kvs_info@.len() && j != ki ==> db1.kvs_info@[j] == db0.kvs_info@[j],
        0 <= ki < db0.kvs_info@.len(),
        db0.kvs_info@[ki].key@ == k,
        db1.kvs_info@[ki].key@ == k,
    ensures
        db0.spec_has_key(k),
        db1.spec_has_key(k),
        db0.spec_key_index(k) == ki,
        db1.spec_key_index(k) == ki,
        db0.spec_history(k) == db0.kvs_info@[ki].versions@,
        db1.spec_history(k) == db1.kvs_info@[ki].versions@,
        forall|k2: Seq<char>| k2 != k ==> #[trigger] db1.spec_history(k2) == db0.spec_history(k2),
        forall|k2: Seq<char>| k2 != k ==> #[trigger] db1.spec_has_key(k2) == db0.spec_has_key(k2),
{
    assert(db0.spec_has_key(k));
    assert(db1.spec_has_key(k));
    let i0 = db0.spec_key_index(k);
    assert(0 <= i0 < db0.kvs_info@.len() && db0.kvs_info@[i0].key@ == k);
    assert(i0 == ki);
    let i1 = db1.spec_key_index(k);
    assert(0 <= i1 < db1.kvs_info@.len() && db1.kvs_info@[i1].key@ == k);
    if i1 != ki {
        assert(db1.kvs_info@[i1] == db0.kvs_info@[i1]);
        assert(false);
    }
    assert forall|k2: Seq<char>| k2 != k implies #[trigger] db1.spec_has_key(k2)
        == db0.spec_has_key(k2) && db1.spec_history(k2) == db0.spec_history(k2) by {
        if db0.spec_has_key(k2) {
            let j0 = db0.spec_key_index(k2);
            assert(0 <= j0 < db0.kvs_info@.len() && db0.kvs_info@[j0].key@ == k2);
            assert(j0 != ki);
            assert(db1.kvs_info@[j0] == db0.kvs_info@[j0]);
            assert(db1.spec_has_key(k2));
            let j1 = db1.spec_key_index(k2);
            assert(0 <= j1 < db1.kvs_info@.len() && db1.kvs_info@[j1].key@ == k2);
            if j1 != j0 {
                assert(j1 != ki);
                assert(db1.kvs_info@[j1] == db0.kvs_info@[j1]);
                assert(db0.kvs_info@[j1].key@ == k2);
                assert(false);
            }
        } else {
            if db1.spec_has_key(k2) {
                let j1 = db1.spec_key_index(k2);
                assert(0 <= j1 < db1.kvs_info@.len() && db1.kvs_info@[j1].key@ == k2);
                assert(j1 != ki);
                assert(db1.kvs_info@[j1] == db0.kvs_info@[j1]);
                assert(db0.spec_has_key(k2));
                assert(false);
            }
        }
    }
}

/// When `db1` is `db0` with one new entry for the hitherto unknown key `k`
/// appended, the histories of all other keys are unchanged and `k`'s history
/// is the new entry's.
pub proof fn lemma_history_append(db0: Database, db1: Database, k: Seq<char>)
    requires
        forall|i: int, j: int|
            0 <= i < j < db0.kvs_info@.len() ==> (#[trigger] db0.kvs_info@[i]).key@ != (
            #[trigger] db0.kvs_info@[j]).key@,
        !db0.spec_has_key(k),
        db1.kvs_info@.len() == db0.kvs_info@.len() + 1,
        forall|j: int| 0 <= j < db0.kvs_info@.len() ==> db1.kvs_info@[j] == db0.kvs_info@[j],
        db1.kvs_info@.last().key@ == k,
    ensures
        db1.spec_has_key(k),
        db1.spec_key_index(k) == db0.kvs_info@.len(),
        db1.spec_history(k) == db1.kvs_info@.last().versions@,
        forall|k2: Seq<char>| k2 != k ==> #[trigger] db1.spec_history(k2) == db0.spec_history(k2),
        forall|k2: Seq<char>| k2 != k ==> #[trigger] db1.spec_has_key(k2) == db0.spec_has_key(k2),
{
    let last = db0.kvs_info@.len() as int;
    assert(db1.kvs_info@[last].key@ == k);
    assert(db1.spec_has_key(k));
    let i1 = db1.spec_key_index(k);
    assert(0 <= i1 < db1.kvs_info@.len() && db1.kvs_info@[i1].key@ == k);
    if i1 != last {
        assert(db1.kvs_info@[i1] == db0.kvs_info@[i1]);
        assert(db0.spec_has_key(k));
        assert(false);
    }
    assert forall|k2: Seq<char>| k2 != k implies #[trigger] db1.spec_has_key(k2)
        == db0.spec_has_key(k2) && db1.spec_history(k2) == db0.spec_history(k2) by {
        if db0.spec_has_key(k2) {
            let j0 = db0.spec_key_index(k2);
            assert(0 <= j0 < db0.kvs_info@.len() && db0.kvs_info@[j0].key@ == k2);
            assert(db1.kvs_info@[j0] == db0.kvs_info@[j0]);
            assert(db1.spec_has_key(k2));
            let j1 = db1.spec_key_index(k2);
            assert(0 <= j1 < db1.kvs_info@.len() && db1.kvs_info@[j1].key@ == k2);
            if j1 == last {
                assert(false);
            }
            assert(db1.kvs_info@[j1] == db0.kvs_info@[j1]);
            if j1 != j0 {
                assert(db0.kvs_info@[j1].key@ == k2);
                assert(db0.kvs_info@[j0].key@ == db0.kvs_info@[j1].key@);
                assert(false);
            }
        } else {
            if db1.spec_has_key(k2) {
                let j1 = db1.spec_key_index(k2);
                assert(0 <= j1 < db1.kvs_info@.len() && db1.kvs_info@[j1].key@ == k2);
                if j1 == last {
                    assert(false);
                }
                assert(db1.kvs_info@[j1] == db0.kvs_info@[j1]);
                assert(db0.spec_has_key(k2));
                assert(false);
            }
        }
    }
}

} // verus!
