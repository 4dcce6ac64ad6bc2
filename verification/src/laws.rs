//! Laws of the store, proved from the specifications of its components.

use crate::db::{
    seqs_share, spec_conflicting_peer, spec_peer_conflict, spec_read_versions, spec_visible_at,
    stamped_version_at, Database, IsolationLevel, TxInfo, Value,
};
use crate::tx::{spec_store_delete, spec_store_put, Transaction, TransactionState};
use vstd::prelude::*;

verus! {

/// The level reads from a begin-time snapshot: `RepeatableRead`, `Snapshot`
/// or `Serializable`.
pub open spec fn spec_snapshot_level(level: IsolationLevel) -> bool {
    ||| level == IsolationLevel::RepeatableRead
    ||| level == IsolationLevel::Snapshot
    ||| level == IsolationLevel::Serializable
}

/// Every version of the history is created no later than its successors.
pub open spec fn history_sorted(h: Seq<Value>) -> bool {
    forall|i: int, j: int|
        0 <= i <= j < h.len() ==> (#[trigger] h[i]).tx_start_id <= (#[trigger] h[j]).tx_start_id
}

/// Every version of the history is live or was superseded by a transaction
/// that began no earlier than its creator.
pub open spec fn history_end_bounds(h: Seq<Value>) -> bool {
    forall|i: int|
        0 <= i < h.len() ==> (#[trigger] h[i]).tx_end_id == 0 || h[i].tx_end_id
            >= h[i].tx_start_id
}

/// Transaction identifiers are strictly monotonic in allocation order: the
/// registry lists every transaction ever begun, in allocation order, and a
/// later one always carries a larger identifier.
pub proof fn lemma_ids_strictly_monotonic(db: Database)
    requires
        db.wf(),
    ensures
        forall|i: int, j: int|
            0 <= i < j < db.txs_info.txs@.len() ==> (#[trigger] db.txs_info.txs@[i]).id < (
            #[trigger] db.txs_info.txs@[j]).id,
{
}

/// A transaction's own identifier is never a member of its begin-time
/// `inprogress` snapshot.
pub proof fn lemma_own_id_not_inprogress(db: Database, tx_id: u64)
    requires
        db.wf(),
        1 <= tx_id <= db.txs_info.txs@.len(),
    ensures
        !db.txs_info.txs@[tx_id - 1].inprogress@.contains(tx_id),
{
    let t = db.txs_info.txs@[tx_id - 1];
    if t.inprogress@.contains(tx_id) {
        let j = choose|j: int| 0 <= j < t.inprogress@.len() && t.inprogress@[j] == tx_id;
        assert(t.inprogress@[j] < t.id);
    }
}

/// A version visible to a snapshot-class transaction was created by a
/// transaction that began no later than the reader.
pub proof fn lemma_visible_snapshot_start_le(db: Database, t: Transaction, v: Value)
    requires
        spec_snapshot_level(t.isolation_level),
        db.spec_visible(t, v),
    ensures
        v.tx_start_id <= t.id,
{
}

/// A write keeps a key's history sorted by creator identifier, provided the
/// writer began no earlier than every creator already in the history. (With
/// concurrent writers under the levels without commit-time write checks, an
/// earlier-begun transaction may write after a later one and break the
/// order; such inputs are excluded here.)
pub proof fn lemma_put_preserves_sorted(
    db0: Database,
    db1: Database,
    t: Transaction,
    k: Seq<char>,
    v: Seq<char>,
)
    requires
        spec_store_put(db0, db1, t, k, v),
        history_sorted(db0.spec_history(k)),
        forall|i: int|
            0 <= i < db0.spec_history(k).len() ==> (#[trigger] db0.spec_history(
                k,
            )[i]).tx_start_id <= t.id,
    ensures
        history_sorted(db1.spec_history(k)),
{
    let h0 = db0.spec_history(k);
    let h1 = db1.spec_history(k);
    assert forall|i: int, j: int| 0 <= i <= j < h1.len() implies (#[trigger] h1[i]).tx_start_id
        <= (#[trigger] h1[j]).tx_start_id by {
        if j < h0.len() {
            assert(h1[i].tx_start_id == h0[i].tx_start_id);
            assert(h1[j].tx_start_id == h0[j].tx_start_id);
        } else {
            assert(h1[j].tx_start_id == t.id);
            if i < h0.len() {
                assert(h1[i].tx_start_id == h0[i].tx_start_id);
            }
        }
    }
}

/// End-stamping by a snapshot-class transaction keeps every end stamp at or
/// above its creator stamp: such a reader only ever sees, hence only ever
/// stamps, versions created by transactions that began no later than it.
/// (A `ReadUncommitted` or `ReadCommitted` writer can stamp a version created
/// by a later-begun transaction; such inputs are excluded here.)
pub proof fn lemma_stamp_preserves_end_bounds(
    db0: Database,
    t: Transaction,
    h0: Seq<Value>,
    h1: Seq<Value>,
)
    requires
        spec_snapshot_level(t.isolation_level),
        history_end_bounds(h0),
        h0.len() <= h1.len(),
        forall|i: int|
            0 <= i < h0.len() ==> stamped_version_at(
                db0.txs_info,
                t.id,
                t.isolation_level,
                t.inprogress@,
                h0[i],
                #[trigger] h1[i],
            ),
        forall|i: int|
            h0.len() <= i < h1.len() ==> (#[trigger] h1[i]).tx_end_id == 0 || h1[i].tx_end_id
                >= h1[i].tx_start_id,
    ensures
        history_end_bounds(h1),
{
    assert forall|i: int| 0 <= i < h1.len() implies (#[trigger] h1[i]).tx_end_id == 0
        || h1[i].tx_end_id >= h1[i].tx_start_id by {
        if i < h0.len() {
            if spec_visible_at(db0.txs_info, t.id, t.isolation_level, t.inprogress@, h0[i]) {
                assert(h0[i].tx_start_id <= t.id);
            }
        }
    }
}

/// Under `ReadUncommitted`, a write is observed immediately by every reader:
/// right after transaction `t1` wrote `v` under `k`, any `ReadUncommitted`
/// transaction reads `v` from `k`, whether or not `t1` has committed.
pub proof fn lemma_read_uncommitted_write_through(
    db0: Database,
    db1: Database,
    t1: Transaction,
    t2: Transaction,
    k: Seq<char>,
    v: Seq<char>,
)
    requires
        spec_store_put(db0, db1, t1, k, v),
        t2.isolation_level == IsolationLevel::ReadUncommitted,
    ensures
        db1.spec_read(t2, k) == Some(v),
{
    let h1 = db1.spec_history(k);
    assert(h1.len() > 0);
    assert(spec_visible_at(db1.txs_info, t2.id, t2.isolation_level, t2.inprogress@, h1.last()));
}

/// Under `ReadCommitted`, an uncommitted write of another transaction is not
/// observed: a version whose creator is neither the reader nor committed is
/// invisible to the reader.
pub proof fn lemma_read_committed_no_dirty_read(db: Database, t: Transaction, v: Value)
    requires
        t.isolation_level == IsolationLevel::ReadCommitted,
        v.tx_start_id != t.id,
        db.spec_state_of(v.tx_start_id) != Some(TransactionState::Committed),
    ensures
        !db.spec_visible(t, v),
{
}

/// Under `ReadCommitted`, a version superseded by a committed transaction
/// other than the reader is never returned.
pub proof fn lemma_read_committed_hides_superseded(db: Database, t: Transaction, v: Value)
    requires
        t.isolation_level == IsolationLevel::ReadCommitted,
        v.tx_end_id != 0,
        v.tx_end_id != t.id,
        db.spec_state_of(v.tx_end_id) == Some(TransactionState::Committed),
    ensures
        !db.spec_visible(t, v),
{
}

/// Under `ReadCommitted`, a reader observes the newest version of a key as
/// soon as that version's writer commits, as long as the version is live.
pub proof fn lemma_read_committed_sees_live_latest(db: Database, t: Transaction, k: Seq<char>)
    requires
        t.isolation_level == IsolationLevel::ReadCommitted,
        t.id >= 1,
        db.spec_history(k).len() > 0,
        db.spec_history(k).last().tx_end_id == 0,
        db.spec_history(k).last().tx_start_id == t.id || db.spec_state_of(
            db.spec_history(k).last().tx_start_id,
        ) == Some(TransactionState::Committed),
    ensures
        db.spec_read(t, k) == Some(db.spec_history(k).last().data@),
{
}

/// A committed peer that shares a written key with a committing transaction's
/// write set makes the write-write conflict predicate hold, so a `Snapshot`
/// or `Serializable` transaction committing second over a shared key is
/// aborted with "Write-Write Conflict" by `complete_transaction`.
pub proof fn lemma_snapshot_write_write_exclusion(
    db: Database,
    t: Transaction,
    peer: u64,
    i: int,
    j: int,
)
    requires
        db.spec_state_of(peer) == Some(TransactionState::Committed),
        t.inprogress@.contains(peer) || (t.id <= peer && peer < db.txs_info.next_tx_id),
        0 <= i < t.write_set@.len(),
        0 <= j < db.txs_info.txs@[peer - 1].write_set@.len(),
        t.write_set@[i]@ == db.txs_info.txs@[peer - 1].write_set@[j]@,
    ensures
        spec_peer_conflict(db, t, t.write_set@),
{
    assert(seqs_share(t.write_set@, db.txs_info.txs@[peer - 1].write_set@));
    assert(spec_conflicting_peer(db, t, t.write_set@, peer));
}

/// A committed peer that wrote a key the committing transaction read makes
/// the read-write conflict predicate hold, so a `Serializable` transaction
/// whose read overlaps a concurrent committed write is aborted with
/// "Read-Write Conflict" by `complete_transaction`.
pub proof fn lemma_serializable_read_write_exclusion(
    db: Database,
    t: Transaction,
    peer: u64,
    i: int,
    j: int,
)
    requires
        db.spec_state_of(peer) == Some(TransactionState::Committed),
        t.inprogress@.contains(peer) || (t.id <= peer && peer < db.txs_info.next_tx_id),
        0 <= i < t.read_set@.len(),
        0 <= j < db.txs_info.txs@[peer - 1].write_set@.len(),
        t.read_set@[i]@ == db.txs_info.txs@[peer - 1].write_set@[j]@,
    ensures
        spec_peer_conflict(db, t, t.read_set@),
{
    assert(seqs_share(t.read_set@, db.txs_info.txs@[peer - 1].write_set@));
    assert(spec_conflicting_peer(db, t, t.read_set@, peer));
}

/// A transaction with no conflicting committed peer — for instance one whose
/// write set is disjoint from every committed peer's — passes the conflict
/// predicate, so its commit succeeds.
pub proof fn lemma_disjoint_sets_no_conflict(db: Database, t: Transaction, own: Seq<String>)
    requires
        forall|id: u64|
            db.spec_state_of(id) == Some(TransactionState::Committed) ==> !seqs_share(
                own,
                db.txs_info.txs@[id - 1].write_set@,
            ),
    ensures
        !spec_peer_conflict(db, t, own),
{
    assert forall|id: u64| !spec_conflicting_peer(db, t, own, id) by {
        if db.spec_state_of(id) == Some(TransactionState::Committed) {
            assert(!seqs_share(own, db.txs_info.txs@[id - 1].write_set@));
        }
    }
}

/// Visibility depends on the registry only through the states it assigns, so
/// two registries that agree on every state decide it alike.
pub proof fn lemma_visible_same_states(
    txs0: TxInfo,
    txs1: TxInfo,
    tx_id: u64,
    level: IsolationLevel,
    inprog: Seq<u64>,
    v: Value,
)
    requires
        forall|id: u64| txs1.spec_state_of(id) == txs0.spec_state_of(id),
    ensures
        spec_visible_at(txs1, tx_id, level, inprog, v) == spec_visible_at(
            txs0,
            tx_id,
            level,
            inprog,
            v,
        ),
{
    assert(txs1.spec_state_of(v.tx_start_id) == txs0.spec_state_of(v.tx_start_id));
    assert(txs1.spec_state_of(v.tx_end_id) == txs0.spec_state_of(v.tx_end_id));
}

/// A read skips versions that are invisible to the reader: dropping an
/// invisible suffix of the history leaves the read result unchanged.
pub proof fn lemma_read_prefix(
    txs: TxInfo,
    tx_id: u64,
    level: IsolationLevel,
    inprog: Seq<u64>,
    h: Seq<Value>,
    n: int,
)
    requires
        0 <= n <= h.len(),
        forall|i: int|
            n <= i < h.len() ==> !spec_visible_at(txs, tx_id, level, inprog, #[trigger] h[i]),
    ensures
        spec_read_versions(txs, tx_id, level, inprog, h) == spec_read_versions(
            txs,
            tx_id,
            level,
            inprog,
            h.take(n),
        ),
    decreases h.len(),
{
    if h.len() == n {
        assert(h.take(n) =~= h);
    } else {
        assert(!spec_visible_at(txs, tx_id, level, inprog, h.last()));
        assert(h.drop_last() =~= h.take(h.len() - 1));
        lemma_read_prefix(txs, tx_id, level, inprog, h.take(h.len() - 1), n);
        assert(h.take(h.len() - 1).take(n) =~= h.take(n));
    }
}

/// Two histories of equal length whose versions carry the same data and are
/// visible alike yield the same read result.
pub proof fn lemma_read_equal_pointwise(
    txs0: TxInfo,
    txs1: TxInfo,
    tx_id: u64,
    level: IsolationLevel,
    inprog: Seq<u64>,
    h0: Seq<Value>,
    h1: Seq<Value>,
)
    requires
        h0.len() == h1.len(),
        forall|i: int| 0 <= i < h0.len() ==> (#[trigger] h1[i]).data@ == h0[i].data@,
        forall|i: int|
            0 <= i < h0.len() ==> spec_visible_at(txs1, tx_id, level, inprog, #[trigger] h1[i])
                == spec_visible_at(txs0, tx_id, level, inprog, h0[i]),
    ensures
        spec_read_versions(txs1, tx_id, level, inprog, h1) == spec_read_versions(
            txs0,
            tx_id,
            level,
            inprog,
            h0,
        ),
    decreases h0.len(),
{
    if h0.len() > 0 {
        if spec_visible_at(txs0, tx_id, level, inprog, h0.last()) {
            assert(h1.last().data@ == h0.last().data@);
        } else {
            assert(h0.drop_last() =~= h0.take(h0.len() - 1));
            assert(h1.drop_last() =~= h1.take(h1.len() - 1));
            lemma_read_equal_pointwise(
                txs0,
                txs1,
                tx_id,
                level,
                inprog,
                h0.drop_last(),
                h1.drop_last(),
            );
        }
    }
}

/// How a database may evolve, as seen by an onlooking transaction `t`, while
/// other transactions work and complete around it: the registry only grows
/// and no completed transaction changes state; versions of key `k` keep their
/// data and creator, a live version may be end-stamped only by a transaction
/// other than `t` that was active when `t` began or began after `t`; and any
/// versions appended to `k`'s history were created by such transactions.
pub open spec fn peer_step_frame(db0: Database, db1: Database, t: Transaction, k: Seq<char>) -> bool {
    let h0 = db0.spec_history(k);
    let h1 = db1.spec_history(k);
    &&& forall|id: u64|
        db0.txs_info.spec_state_of(id) is Some && db0.txs_info.spec_state_of(id) != Some(
            TransactionState::Active,
        ) ==> db1.txs_info.spec_state_of(id) == db0.txs_info.spec_state_of(id)
    &&& db0.txs_info.txs@.len() <= db1.txs_info.txs@.len()
    &&& h0.len() <= h1.len()
    &&& forall|i: int|
        0 <= i < h0.len() ==> {
            let a = h0[i];
            let b = #[trigger] h1[i];
            &&& b.data@ == a.data@
            &&& b.tx_start_id == a.tx_start_id
            &&& (b.tx_end_id == a.tx_end_id || (a.tx_end_id == 0 && b.tx_end_id != t.id && (
            t.inprogress@.contains(b.tx_end_id) || b.tx_end_id > t.id)))
        }
    &&& forall|i: int|
        h0.len() <= i < h1.len() ==> {
            let b = #[trigger] h1[i];
            &&& b.tx_start_id != t.id
            &&& (t.inprogress@.contains(b.tx_start_id) || b.tx_start_id > t.id)
        }
}

/// Snapshot stability: a snapshot-class transaction's read of a key returns
/// the same result across any evolution of the database by other
/// transactions that end-stamps only live versions, as [`peer_step_frame`]
/// says — whatever those transactions write, delete or commit meanwhile.
/// (A concurrent writer that re-stamps an already superseded version — which
/// it can do after a committed delete left no newer version behind — may
/// resurrect that version for the reader; the frame excludes such stamps.)
pub proof fn lemma_snapshot_read_stable(db0: Database, db1: Database, t: Transaction, k: Seq<char>)
    requires
        db0.wf(),
        spec_snapshot_level(t.isolation_level),
        1 <= t.id <= db0.txs_info.txs@.len(),
        db0.txs_info.txs@[t.id - 1].inprogress == t.inprogress,
        peer_step_frame(db0, db1, t, k),
    ensures
        db1.spec_read(t, k) == db0.spec_read(t, k),
{
    let h0 = db0.spec_history(k);
    let h1 = db1.spec_history(k);
    let txs0 = db0.txs_info;
    let txs1 = db1.txs_info;
    let tr = db0.txs_info.txs@[t.id - 1];
    assert(tr.id == t.id);
    // Identifiers below the reader's that its snapshot misses were completed
    // before it began, so their states are frozen across the evolution.
    assert forall|id: u64|
        1 <= id < t.id && !t.inprogress@.contains(id) implies txs0.spec_state_of(id) is Some
        && txs0.spec_state_of(id) != Some(TransactionState::Active) && txs1.spec_state_of(id)
        == txs0.spec_state_of(id) by {
        assert(txs0.txs@[id - 1].state != TransactionState::Active);
    }
    // Bounds on the stamps of the old history, from the store invariant.
    if db0.spec_has_key(k) {
        let ki = db0.spec_key_index(k);
        assert(0 <= ki < db0.kvs_info@.len() && db0.kvs_info@[ki].key@ == k);
        assert(h0 == db0.kvs_info@[ki].versions@);
        assert forall|i: int| 0 <= i < h0.len() implies 1 <= (#[trigger] h0[i]).tx_start_id
            <= txs0.txs@.len() && (h0[i].tx_end_id == 0 || (1 <= h0[i].tx_end_id
            <= txs0.txs@.len())) by {
            assert(db0.kvs_info@[ki].versions@[i] == h0[i]);
        }
    }
    // Every surviving version is visible to the reader in the new state
    // exactly when it was in the old.
    assert forall|i: int| 0 <= i < h0.len() implies spec_visible_at(
        txs1,
        t.id,
        t.isolation_level,
        t.inprogress@,
        #[trigger] h1[i],
    ) == spec_visible_at(txs0, t.id, t.isolation_level, t.inprogress@, h0[i]) by {
        let a = h0[i];
        let b = h1[i];
        if 1 <= a.tx_start_id < t.id && !t.inprogress@.contains(a.tx_start_id) {
            assert(txs1.spec_state_of(a.tx_start_id) == txs0.spec_state_of(a.tx_start_id));
        }
        if b.tx_end_id == a.tx_end_id && 1 <= a.tx_end_id < t.id && !t.inprogress@.contains(
            a.tx_end_id,
        ) {
            assert(txs1.spec_state_of(a.tx_end_id) == txs0.spec_state_of(a.tx_end_id));
        }
    }
    // Appended versions were created by concurrent or later transactions, so
    // the reader never sees them.
    assert forall|i: int| h0.len() <= i < h1.len() implies !spec_visible_at(
        txs1,
        t.id,
        t.isolation_level,
        t.inprogress@,
        #[trigger] h1[i],
    ) by {
        if !t.inprogress@.contains(h1[i].tx_start_id) {
            assert(h1[i].tx_start_id > t.id);
        }
    }
    lemma_read_prefix(txs1, t.id, t.isolation_level, t.inprogress@, h1, h0.len() as int);
    assert forall|i: int| 0 <= i < h0.len() implies (#[trigger] h1.take(
        h0.len() as int,
    )[i]).data@ == h0[i].data@ && spec_visible_at(
        txs1,
        t.id,
        t.isolation_level,
        t.inprogress@,
        h1.take(h0.len() as int)[i],
    ) == spec_visible_at(txs0, t.id, t.isolation_level, t.inprogress@, h0[i]) by {
        assert(h1.take(h0.len() as int)[i] == h1[i]);
    }
    lemma_read_equal_pointwise(
        txs0,
        txs1,
        t.id,
        t.isolation_level,
        t.inprogress@,
        h0,
        h1.take(h0.len() as int),
    );
}

/// One write by another, currently active transaction `w` is a
/// [`peer_step_frame`] step for a snapshot-class reader `t`, provided every
/// version of the key that `w` end-stamped was live: the reader's view of the
/// key is unchanged, whether or not `w` ever commits.
pub proof fn lemma_put_step_keeps_snapshot_read(
    db0: Database,
    db1: Database,
    w: Transaction,
    t: Transaction,
    k: Seq<char>,
    v: Seq<char>,
)
    requires
        db0.wf(),
        spec_store_put(db0, db1, w, k, v),
        forall|id: u64| db1.txs_info.spec_state_of(id) == db0.txs_info.spec_state_of(id),
        db1.txs_info.txs@.len() == db0.txs_info.txs@.len(),
        w.id != t.id,
        db0.txs_info.spec_state_of(w.id) == Some(TransactionState::Active),
        forall|i: int|
            0 <= i < db0.spec_history(k).len() && spec_visible_at(
                db0.txs_info,
                w.id,
                w.isolation_level,
                w.inprogress@,
                #[trigger] db0.spec_history(k)[i],
            ) ==> db0.spec_history(k)[i].tx_end_id == 0,
        spec_snapshot_level(t.isolation_level),
        1 <= t.id <= db0.txs_info.txs@.len(),
        db0.txs_info.txs@[t.id - 1].inprogress == t.inprogress,
    ensures
        db1.spec_read(t, k) == db0.spec_read(t, k),
{
    let h0 = db0.spec_history(k);
    let h1 = db1.spec_history(k);
    let tr = db0.txs_info.txs@[t.id - 1];
    assert(tr.id == t.id);
    // An identifier still active now that the reader's snapshot misses cannot
    // be below the reader's: it would have been completed before the reader
    // began.
    assert(t.inprogress@.contains(w.id) || w.id > t.id) by {
        if w.id < t.id && !t.inprogress@.contains(w.id) {
            assert(db0.txs_info.txs@[w.id - 1].state != TransactionState::Active);
        }
    }
    assert forall|i: int| 0 <= i < h0.len() implies {
        let a = h0[i];
        let b = #[trigger] h1[i];
        &&& b.data@ == a.data@
        &&& b.tx_start_id == a.tx_start_id
        &&& (b.tx_end_id == a.tx_end_id || (a.tx_end_id == 0 && b.tx_end_id != t.id && (
        t.inprogress@.contains(b.tx_end_id) || b.tx_end_id > t.id)))
    } by {
        if spec_visible_at(db0.txs_info, w.id, w.isolation_level, w.inprogress@, h0[i]) {
            assert(h0[i].tx_end_id == 0);
            assert(h1[i].tx_end_id == w.id);
        }
    }
    assert forall|i: int| h0.len() <= i < h1.len() implies {
        let b = #[trigger] h1[i];
        &&& b.tx_start_id != t.id
        &&& (t.inprogress@.contains(b.tx_start_id) || b.tx_start_id > t.id)
    } by {
        assert(i == h1.len() - 1);
        assert(h1[i] == h1.last());
        assert(h1.last().tx_start_id == w.id);
    }
    lemma_snapshot_read_stable(db0, db1, t, k);
}

/// One delete by another, currently active transaction `w` is likewise a
/// [`peer_step_frame`] step for a snapshot-class reader `t`, provided every
/// version of the key that `w` end-stamped was live: the reader's view of the
/// key is unchanged.
pub proof fn lemma_delete_step_keeps_snapshot_read(
    db0: Database,
    db1: Database,
    w: Transaction,
    t: Transaction,
    k: Seq<char>,
)
    requires
        db0.wf(),
        spec_store_delete(db0, db1, w, k),
        forall|id: u64| db1.txs_info.spec_state_of(id) == db0.txs_info.spec_state_of(id),
        db1.txs_info.txs@.len() == db0.txs_info.txs@.len(),
        w.id != t.id,
        db0.txs_info.spec_state_of(w.id) == Some(TransactionState::Active),
        forall|i: int|
            0 <= i < db0.spec_history(k).len() && spec_visible_at(
                db0.txs_info,
                w.id,
                w.isolation_level,
                w.inprogress@,
                #[trigger] db0.spec_history(k)[i],
            ) ==> db0.spec_history(k)[i].tx_end_id == 0,
        spec_snapshot_level(t.isolation_level),
        1 <= t.id <= db0.txs_info.txs@.len(),
        db0.txs_info.txs@[t.id - 1].inprogress == t.inprogress,
    ensures
        db1.spec_read(t, k) == db0.spec_read(t, k),
{
    let h0 = db0.spec_history(k);
    let h1 = db1.spec_history(k);
    let tr = db0.txs_info.txs@[t.id - 1];
    assert(tr.id == t.id);
    assert(t.inprogress@.contains(w.id) || w.id > t.id) by {
        if w.id < t.id && !t.inprogress@.contains(w.id) {
            assert(db0.txs_info.txs@[w.id - 1].state != TransactionState::Active);
        }
    }
    assert forall|i: int| 0 <= i < h0.len() implies {
        let a = h0[i];
        let b = #[trigger] h1[i];
        &&& b.data@ == a.data@
        &&& b.tx_start_id == a.tx_start_id
        &&& (b.tx_end_id == a.tx_end_id || (a.tx_end_id == 0 && b.tx_end_id != t.id && (
        t.inprogress@.contains(b.tx_end_id) || b.tx_end_id > t.id)))
    } by {
        if spec_visible_at(db0.txs_info, w.id, w.isolation_level, w.inprogress@, h0[i]) {
            assert(h0[i].tx_end_id == 0);
            assert(h1[i].tx_end_id == w.id);
        }
    }
    lemma_snapshot_read_stable(db0, db1, t, k);
}

/// Deleting a key hides it from the deleting transaction itself: right after
/// transaction `t` (of any level that consults end stamps, that is any level
/// but `ReadUncommitted`) deleted `k`, `t`'s own read of `k` finds nothing.
/// (A `ReadUncommitted` reader sees every version, deleted or not; that input
/// is excluded here.)
pub proof fn lemma_delete_hides_key(db0: Database, db1: Database, t: Transaction, k: Seq<char>)
    requires
        t.isolation_level != IsolationLevel::ReadUncommitted,
        t.id >= 1,
        spec_store_delete(db0, db1, t, k),
        forall|id: u64| db1.txs_info.spec_state_of(id) == db0.txs_info.spec_state_of(id),
    ensures
        db1.spec_read(t, k) is None,
{
    let h0 = db0.spec_history(k);
    let h1 = db1.spec_history(k);
    assert forall|i: int| 0 <= i < h1.len() implies !spec_visible_at(
        db1.txs_info,
        t.id,
        t.isolation_level,
        t.inprogress@,
        #[trigger] h1[i],
    ) by {
        if spec_visible_at(db0.txs_info, t.id, t.isolation_level, t.inprogress@, h0[i]) {
            assert(h1[i].tx_end_id == t.id);
        } else {
            assert(h1[i] == h0[i]);
            lemma_visible_same_states(
                db0.txs_info,
                db1.txs_info,
                t.id,
                t.isolation_level,
                t.inprogress@,
                h0[i],
            );
        }
    }
    lemma_read_prefix(db1.txs_info, t.id, t.isolation_level, t.inprogress@, h1, 0);
    assert(h1.take(0).len() == 0);
}

} // verus!
