//! Transactions, connections and the command surface of the store.

use crate::db::{
    find_key, find_visible, lemma_history_append, lemma_history_frame, lemma_kvs_wf_after_stamp,
    lemma_txinfo_wf_after_sets_change, spec_begin_effect, spec_peer_conflict, spec_tx_with_state,
    stamp_visible, stamped_version_at, Database, IsolationLevel, KeyVersions, Value,
};
use vstd::prelude::*;
use vstd::string::StringExecFns;

verus! {

/// A command submitted to the store through a [`Connection`].
#[derive(Debug)]
pub enum Command {
    Begin,
    Abort,
    Commit,
    Get(String),
    Put(String, String),
    Delete(String),
}

/// The lifecycle state of a transaction. `Active` is the only initial state;
/// `Committed` and `Aborted` are terminal.
#[derive(PartialEq, Eq, Structural, Clone, Copy, Debug)]
pub enum TransactionState {
    Active,
    Committed,
    Aborted,
}

/// One transaction record: its identifier, state, isolation level, the
/// snapshot of transaction identifiers that were active when it began, and the
/// keys it has written and read.
#[derive(Debug)]
pub struct Transaction {
    pub id: u64,
    pub state: TransactionState,
    pub isolation_level: crate::db::IsolationLevel,
    pub inprogress: Vec<u64>,
    pub write_set: Vec<String>,
    pub read_set: Vec<String>,
}

impl Transaction {
    /// A transaction identifier is strictly positive, and the `inprogress`
    /// snapshot holds only identifiers allocated strictly before its own:
    /// in particular its own identifier is never a member.
    pub open spec fn wf(self) -> bool {
        &&& self.id >= 1
        &&& forall|j: int|
            0 <= j < self.inprogress@.len() ==> 1 <= #[trigger] self.inprogress@[j]
                && self.inprogress@[j] < self.id
    }
}

/// A connection binds at most one current transaction (by identifier) to a
/// database. Commands other than `Begin` act on that transaction.
pub struct Connection {
    pub tx: Option<u64>,
}

impl Connection {
    /// The transaction this connection is bound to, if any, is `Active` in
    /// `db`. Commands other than `Begin` demand this of their caller, as the
    /// original activeness guard does.
    pub open spec fn bound_active(self, db: Database) -> bool {
        match self.tx {
            Some(id) => db.spec_state_of(id) == Some(TransactionState::Active),
            None => true,
        }
    }
}

/// `prefix`, then the key.
fn msg_key2(prefix: &str, key: &String) -> (r: String)
    ensures
        r@ == prefix@ + key@,
{
    let s = String::from_str(prefix);
    s.concat(key.as_str())
}

/// `prefix`, the key, then `suffix`.
fn msg_key(prefix: &str, key: &String, suffix: &str) -> (r: String)
    ensures
        r@ == prefix@ + key@ + suffix@,
{
    let s = String::from_str(prefix);
    let s = s.concat(key.as_str());
    s.concat(suffix)
}

/// `prefix`, the key, `mid`, then the value.
fn msg_kv(prefix: &str, key: &String, mid: &str, val: &String) -> (r: String)
    ensures
        r@ == prefix@ + key@ + mid@ + val@,
{
    let s = String::from_str(prefix);
    let s = s.concat(key.as_str());
    let s = s.concat(mid);
    s.concat(val.as_str())
}

/// Between `db0` and `db1`, the default level, the identifier allocator and
/// every transaction record other than `tx_id`'s are unchanged.
pub open spec fn spec_db_frame_txs_except(db0: Database, db1: Database, tx_id: u64) -> bool {
    &&& db1.default_isolation_level == db0.default_isolation_level
    &&& db1.txs_info.next_tx_id == db0.txs_info.next_tx_id
    &&& db1.txs_info.txs@.len() == db0.txs_info.txs@.len()
    &&& forall|j: int|
        0 <= j < db0.txs_info.txs@.len() && j != tx_id - 1 ==> db1.txs_info.txs@[j]
            == db0.txs_info.txs@[j]
}

/// The record `t1` is `t0` with `k` appended to its read set and nothing else
/// changed.
pub open spec fn spec_tx_read_key(t0: Transaction, k: String, t1: Transaction) -> bool {
    &&& t1.id == t0.id
    &&& t1.state == t0.state
    &&& t1.isolation_level == t0.isolation_level
    &&& t1.inprogress == t0.inprogress
    &&& t1.write_set == t0.write_set
    &&& t1.read_set@ == t0.read_set@.push(k)
}

/// The record `t1` is `t0` with `k` appended to its write set and nothing
/// else changed.
pub open spec fn spec_tx_wrote_key(t0: Transaction, k: String, t1: Transaction) -> bool {
    &&& t1.id == t0.id
    &&& t1.state == t0.state
    &&& t1.isolation_level == t0.isolation_level
    &&& t1.inprogress == t0.inprogress
    &&& t1.write_set@ == t0.write_set@.push(k)
    &&& t1.read_set == t0.read_set
}

/// The version store of `db1` is that of `db0` after transaction `t` wrote
/// `v` under key `k`: every version of `k` visible to `t` is end-stamped with
/// `t.id`, a fresh live version carrying `v` is appended to `k`'s history,
/// and every other key's history is untouched.
pub open spec fn spec_store_put(
    db0: Database,
    db1: Database,
    t: Transaction,
    k: Seq<char>,
    v: Seq<char>,
) -> bool {
    let h0 = db0.spec_history(k);
    let h1 = db1.spec_history(k);
    &&& h1.len() == h0.len() + 1
    &&& forall|i: int|
        0 <= i < h0.len() ==> stamped_version_at(
            db0.txs_info,
            t.id,
            t.isolation_level,
            t.inprogress@,
            h0[i],
            h1[i],
        )
    &&& h1.last().data@ == v
    &&& h1.last().tx_start_id == t.id
    &&& h1.last().tx_end_id == 0
    &&& db1.spec_has_key(k)
    &&& forall|k2: Seq<char>| k2 != k ==> #[trigger] db1.spec_history(k2) == db0.spec_history(k2)
    &&& forall|k2: Seq<char>| k2 != k ==> #[trigger] db1.spec_has_key(k2) == db0.spec_has_key(k2)
}

/// The version store of `db1` is that of `db0` after transaction `t` deleted
/// key `k`: every version of `k` visible to `t` is end-stamped with `t.id`,
/// nothing is appended, and every other key's history is untouched.
pub open spec fn spec_store_delete(db0: Database, db1: Database, t: Transaction, k: Seq<char>) -> bool {
    let h0 = db0.spec_history(k);
    let h1 = db1.spec_history(k);
    &&& h1.len() == h0.len()
    &&& forall|i: int|
        0 <= i < h0.len() ==> stamped_version_at(
            db0.txs_info,
            t.id,
            t.isolation_level,
            t.inprogress@,
            h0[i],
            h1[i],
        )
    &&& forall|k2: Seq<char>| k2 != k ==> #[trigger] db1.spec_history(k2) == db0.spec_history(k2)
    &&& forall|k2: Seq<char>| db1.spec_has_key(k2) == db0.spec_has_key(k2)
}

impl Connection {
    /// Dispatches one command on this connection.
    ///
    /// `Begin` binds a fresh transaction. The other commands act on the bound
    /// transaction, which must still be active; with no bound transaction
    /// they fail with their "no active transaction" message and change
    /// nothing. States of completed transactions never change, whatever the
    /// command.
    pub fn exec_command(&mut self, db: &mut Database, command: Command) -> (r: Result<
        String,
        String,
    >)
        requires
            old(db).wf(),
            (command matches Command::Begin) ==> old(db).txs_info.next_tx_id < u64::MAX,
            !(command matches Command::Begin) ==> old(self).bound_active(*old(db)),
        ensures
            final(db).wf(),
            forall|id: u64|
                old(db).spec_state_of(id) is Some && old(db).spec_state_of(id) != Some(
                    TransactionState::Active,
                ) ==> final(db).spec_state_of(id) == old(db).spec_state_of(id),
            !(command matches Command::Begin) ==> final(self).tx == old(self).tx,
            match command {
                Command::Begin => {
                    &&& spec_begin_effect(*old(db), *final(db))
                    &&& final(self).tx == Some(old(db).txs_info.next_tx_id)
                    &&& (r matches Ok(m) && m@ == "[BEGIN] finish"@)
                },
                Command::Abort => match old(self).tx {
                    Some(id) => {
                        &&& final(db).kvs_info == old(db).kvs_info
                        &&& spec_db_frame_txs_except(*old(db), *final(db), id)
                        &&& spec_tx_with_state(
                            old(db).txs_info.txs@[id - 1],
                            TransactionState::Aborted,
                            final(db).txs_info.txs@[id - 1],
                        )
                        &&& (r matches Ok(m) && m@ == "[ABORT] finish"@)
                    },
                    None => {
                        &&& *final(db) == *old(db)
                        &&& (r matches Err(m) && m@ == "[ABORT] no active transaction"@)
                    },
                },
                Command::Commit => match old(self).tx {
                    Some(id) => {
                        let t0 = old(db).txs_info.txs@[id - 1];
                        &&& final(db).kvs_info == old(db).kvs_info
                        &&& spec_db_frame_txs_except(*old(db), *final(db), id)
                        &&& (if (t0.isolation_level == IsolationLevel::Snapshot
                            || t0.isolation_level == IsolationLevel::Serializable)
                            && spec_peer_conflict(*old(db), t0, t0.write_set@) {
                            &&& spec_tx_with_state(
                                t0,
                                TransactionState::Aborted,
                                final(db).txs_info.txs@[id - 1],
                            )
                            &&& (r matches Err(m) && m@ == "Write-Write Conflict"@)
                        } else if t0.isolation_level == IsolationLevel::Serializable
                            && spec_peer_conflict(*old(db), t0, t0.read_set@) {
                            &&& spec_tx_with_state(
                                t0,
                                TransactionState::Aborted,
                                final(db).txs_info.txs@[id - 1],
                            )
                            &&& (r matches Err(m) && m@ == "Read-Write Conflict"@)
                        } else {
                            &&& spec_tx_with_state(
                                t0,
                                TransactionState::Committed,
                                final(db).txs_info.txs@[id - 1],
                            )
                            &&& (r matches Ok(m) && m@ == "[COMMIT] finish"@)
                        })
                    },
                    None => {
                        &&& *final(db) == *old(db)
                        &&& (r matches Err(m) && m@ == "[COMMIT] no active transaction"@)
                    },
                },
                Command::Get(k) => match old(self).tx {
                    Some(id) => spec_get_post(*old(db), *final(db), id, k, r),
                    None => {
                        &&& *final(db) == *old(db)
                        &&& (r matches Err(m) && m@ == "[GET] no active transaction"@)
                    },
                },
                Command::Put(k, v) => match old(self).tx {
                    Some(id) => spec_put_post(*old(db), *final(db), id, k, v, r),
                    None => {
                        &&& *final(db) == *old(db)
                        &&& (r matches Err(m) && m@ == "[SET] no active transaction"@)
                    },
                },
                Command::Delete(k) => match old(self).tx {
                    Some(id) => spec_delete_post(*old(db), *final(db), id, k, r),
                    None => {
                        &&& *final(db) == *old(db)
                        &&& (r matches Err(m) && m@ == "[DELETE] no active transaction"@)
                    },
                },
            },
    {
        match command {
            Command::Begin => {
                let tx_id = db.new_transaction();
                self.tx = Some(tx_id);
                db.assert_transaction(tx_id);
                Ok(String::from_str("[BEGIN] finish"))
            },
            Command::Abort => match self.tx {
                Some(tx_id) => {
                    db.assert_transaction(tx_id);
                    match db.complete_transaction(tx_id, TransactionState::Aborted) {
                        Ok(_) => Ok(String::from_str("[ABORT] finish")),
                        Err(e) => Err(e),
                    }
                },
                None => Err(String::from_str("[ABORT] no active transaction")),
            },
            Command::Commit => match self.tx {
                Some(tx_id) => {
                    db.assert_transaction(tx_id);
                    match db.complete_transaction(tx_id, TransactionState::Committed) {
                        Ok(_) => Ok(String::from_str("[COMMIT] finish")),
                        Err(e) => Err(e),
                    }
                },
                None => Err(String::from_str("[COMMIT] no active transaction")),
            },
            Command::Get(key) => match self.tx {
                Some(tx_id) => do_get(db, tx_id, key),
                None => Err(String::from_str("[GET] no active transaction")),
            },
            Command::Put(key, val) => match self.tx {
                Some(tx_id) => do_put(db, tx_id, key, val),
                None => Err(String::from_str("[SET] no active transaction")),
            },
            Command::Delete(key) => match self.tx {
                Some(tx_id) => do_delete(db, tx_id, key),
                None => Err(String::from_str("[DELETE] no active transaction")),
            },
        }
    }
}

/// Reads `key` for the active transaction `tx_id`: records the key in the
/// read set whether or not it is found, and returns the newest visible
/// version's data.
fn do_get(db: &mut Database, tx_id: u64, key: String) -> (r: Result<String, String>)
    requires
        old(db).wf(),
        old(db).spec_state_of(tx_id) == Some(TransactionState::Active),
    ensures
        final(db).wf(),
        forall|id: u64| final(db).spec_state_of(id) == old(db).spec_state_of(id),
        spec_get_post(*old(db), *final(db), tx_id, key, r),
{
    let n = db.txs_info.txs.len();
    proof {
        assert(1 <= tx_id && tx_id <= n);
    }
    let tidx: usize = (tx_id - 1) as usize;
    let result: Result<String, String> = match find_key(&db.kvs_info, &key) {
        Some(ki) => {
            proof {
                lemma_history_frame(*db, *db, ki as int, key@);
            }
            match find_visible(&db.txs_info, &db.txs_info.txs[tidx], &db.kvs_info[ki].versions) {
                Some(vi) => Ok(
                    msg_kv("[GET] key:", &key, ", val:", &db.kvs_info[ki].versions[vi].data),
                ),
                None => Err(msg_key("[GET] key ", &key, " not found")),
            }
        },
        None => {
            proof {
                assert(!db.spec_has_key(key@));
                assert(db.spec_history(key@) =~= Seq::<Value>::empty());
            }
            Err(msg_key("[GET] key ", &key, " not found"))
        },
    };
    db.txs_info.txs[tidx].read_set.push(key);
    proof {
        lemma_txinfo_wf_after_sets_change(old(db).txs_info, db.txs_info, tx_id);
    }
    result
}

/// Writes `val` under `key` for the active transaction `tx_id`: end-stamps
/// the versions of `key` visible to it, appends a fresh live version, and
/// records the key in the write set.
fn do_put(db: &mut Database, tx_id: u64, key: String, val: String) -> (r: Result<String, String>)
    requires
        old(db).wf(),
        old(db).spec_state_of(tx_id) == Some(TransactionState::Active),
    ensures
        final(db).wf(),
        forall|id: u64| final(db).spec_state_of(id) == old(db).spec_state_of(id),
        spec_put_post(*old(db), *final(db), tx_id, key, val, r),
{
    let n = db.txs_info.txs.len();
    proof {
        assert(1 <= tx_id && tx_id <= n);
    }
    let tidx: usize = (tx_id - 1) as usize;
    let msg = msg_kv("[SET] key:", &key, ", val:", &val);
    match find_key(&db.kvs_info, &key) {
        Some(ki) => {
            stamp_visible(&db.txs_info, &db.txs_info.txs[tidx], &mut db.kvs_info, ki);
            db.kvs_info[ki].versions.push(
                Value { data: val, tx_start_id: tx_id, tx_end_id: 0 },
            );
            db.txs_info.txs[tidx].write_set.push(key);
            proof {
                lemma_txinfo_wf_after_sets_change(old(db).txs_info, db.txs_info, tx_id);
                lemma_history_frame(*old(db), *db, ki as int, key@);
                lemma_kvs_wf_after_stamp(*old(db), *db, tx_id, ki as int);
            }
        },
        None => {
            proof {
                assert(!old(db).spec_has_key(key@));
                assert(old(db).spec_history(key@) =~= Seq::<Value>::empty());
            }
            let mut versions: Vec<Value> = Vec::new();
            versions.push(Value { data: val, tx_start_id: tx_id, tx_end_id: 0 });
            db.kvs_info.push(KeyVersions { key: key.clone(), versions });
            db.txs_info.txs[tidx].write_set.push(key);
            proof {
                lemma_txinfo_wf_after_sets_change(old(db).txs_info, db.txs_info, tx_id);
                lemma_history_append(*old(db), *db, key@);
                lemma_kvs_wf_after_stamp_append(*old(db), *db, tx_id);
            }
        },
    }
    Ok(msg)
}

/// The version store stays well formed when a single fresh entry for a new
/// key, holding one live version by a registered transaction, is appended.
proof fn lemma_kvs_wf_after_stamp_append(db0: Database, db1: Database, tx_id: u64)
    requires
        db0.wf(),
        1 <= tx_id <= db0.txs_info.txs@.len(),
        db1.txs_info.txs@.len() == db0.txs_info.txs@.len(),
        db1.kvs_info@.len() == db0.kvs_info@.len() + 1,
        forall|j: int| 0 <= j < db0.kvs_info@.len() ==> db1.kvs_info@[j] == db0.kvs_info@[j],
        !db0.spec_has_key(db1.kvs_info@.last().key@),
        db1.kvs_info@.last().versions@.len() == 1,
        db1.kvs_info@.last().versions@[0].tx_start_id == tx_id,
        db1.kvs_info@.last().versions@[0].tx_end_id == 0,
    ensures
        db1.kvs_wf(),
{
    let last = db0.kvs_info@.len() as int;
    assert forall|i: int, j: int|
        0 <= i < j < db1.kvs_info@.len() implies (#[trigger] db1.kvs_info@[i]).key@ != (
    #[trigger] db1.kvs_info@[j]).key@ by {
        if j == last {
            assert(db1.kvs_info@[i] == db0.kvs_info@[i]);
            if db1.kvs_info@[i].key@ == db1.kvs_info@[last].key@ {
                assert(db0.spec_has_key(db1.kvs_info@[last].key@));
            }
        } else {
            assert(db1.kvs_info@[i] == db0.kvs_info@[i]);
            assert(db1.kvs_info@[j] == db0.kvs_info@[j]);
        }
    }
    assert forall|i: int, k: int|
        0 <= i < db1.kvs_info@.len() && 0 <= k < (#[trigger] db1.kvs_info@[i]).versions@.len()
            implies {
        let v = #[trigger] db1.kvs_info@[i].versions@[k];
        &&& 1 <= v.tx_start_id
        &&& v.tx_start_id <= db1.txs_info.txs@.len()
        &&& (v.tx_end_id == 0 || (1 <= v.tx_end_id && v.tx_end_id <= db1.txs_info.txs@.len()))
    } by {
        if i < last {
            assert(db1.kvs_info@[i] == db0.kvs_info@[i]);
            assert(db0.kvs_info@[i].versions@[k] == db1.kvs_info@[i].versions@[k]);
        }
    }
}

/// Deletes `key` for the active transaction `tx_id`: end-stamps the versions
/// of `key` visible to it and records the key in the write set; when no
/// version is visible, reports the key as not found and changes nothing.
fn do_delete(db: &mut Database, tx_id: u64, key: String) -> (r: Result<String, String>)
    requires
        old(db).wf(),
        old(db).spec_state_of(tx_id) == Some(TransactionState::Active),
    ensures
        final(db).wf(),
        forall|id: u64| final(db).spec_state_of(id) == old(db).spec_state_of(id),
        spec_delete_post(*old(db), *final(db), tx_id, key, r),
{
    let n = db.txs_info.txs.len();
    proof {
        assert(1 <= tx_id && tx_id <= n);
    }
    let tidx: usize = (tx_id - 1) as usize;
    match find_key(&db.kvs_info, &key) {
        Some(ki) => {
            proof {
                lemma_history_frame(*db, *db, ki as int, key@);
            }
            let vis = find_visible(
                &db.txs_info,
                &db.txs_info.txs[tidx],
                &db.kvs_info[ki].versions,
            );
            match vis {
                Some(_) => {
                    let msg = msg_key2("[DELETE] key:", &key);
                    stamp_visible(&db.txs_info, &db.txs_info.txs[tidx], &mut db.kvs_info, ki);
                    proof {
                        lemma_history_frame(*old(db), *db, ki as int, key@);
                        lemma_kvs_wf_after_stamp(*old(db), *db, tx_id, ki as int);
                    }
                    let ghost db_mid = *db;
                    db.txs_info.txs[tidx].write_set.push(key);
                    proof {
                        lemma_txinfo_wf_after_sets_change(old(db).txs_info, db.txs_info, tx_id);
                        assert(db.kvs_wf()) by {
                            assert(db_mid.kvs_wf());
                        }
                    }
                    Ok(msg)
                },
                None => Err(msg_key("[DELETE] key ", &key, " not found")),
            }
        },
        None => {
            proof {
                assert(!db.spec_has_key(key@));
                assert(db.spec_history(key@) =~= Seq::<Value>::empty());
            }
            Err(msg_key("[DELETE] key ", &key, " not found"))
        },
    }
}

/// What a `Get` command does: the key is recorded in the reader's read set
/// whether or not it is found; the store is untouched; and the result carries
/// the newest visible version's data, or reports the key as not found.
pub open spec fn spec_get_post(
    db0: Database,
    db1: Database,
    tx_id: u64,
    k: String,
    r: Result<String, String>,
) -> bool {
    let t0 = db0.txs_info.txs@[tx_id - 1];
    let t1 = db1.txs_info.txs@[tx_id - 1];
    &&& spec_db_frame_txs_except(db0, db1, tx_id)
    &&& db1.kvs_info == db0.kvs_info
    &&& spec_tx_read_key(t0, k, t1)
    &&& match db0.spec_read(t0, k@) {
        Some(data) => r matches Ok(m) && m@ == "[GET] key:"@ + k@ + ", val:"@ + data,
        None => r matches Err(m) && m@ == "[GET] key "@ + k@ + " not found"@,
    }
}

/// What a `Put` command does: the key is recorded in the writer's write set,
/// the store is updated as [`spec_store_put`] says, and success is reported.
pub open spec fn spec_put_post(
    db0: Database,
    db1: Database,
    tx_id: u64,
    k: String,
    v: String,
    r: Result<String, String>,
) -> bool {
    let t0 = db0.txs_info.txs@[tx_id - 1];
    let t1 = db1.txs_info.txs@[tx_id - 1];
    &&& spec_db_frame_txs_except(db0, db1, tx_id)
    &&& spec_tx_wrote_key(t0, k, t1)
    &&& spec_store_put(db0, db1, t0, k@, v@)
    &&& (r matches Ok(m) && m@ == "[SET] key:"@ + k@ + ", val:"@ + v@)
}

/// What a `Delete` command does: when some version of the key is visible to
/// the transaction, every visible version is end-stamped, the key joins the
/// write set and success is reported; otherwise nothing changes and the key
/// is reported as not found.
pub open spec fn spec_delete_post(
    db0: Database,
    db1: Database,
    tx_id: u64,
    k: String,
    r: Result<String, String>,
) -> bool {
    let t0 = db0.txs_info.txs@[tx_id - 1];
    let t1 = db1.txs_info.txs@[tx_id - 1];
    if db0.spec_read(t0, k@) is Some {
        &&& spec_db_frame_txs_except(db0, db1, tx_id)
        &&& spec_tx_wrote_key(t0, k, t1)
        &&& spec_store_delete(db0, db1, t0, k@)
        &&& (r matches Ok(m) && m@ == "[DELETE] key:"@ + k@)
    } else {
        &&& db1 == db0
        &&& (r matches Err(m) && m@ == "[DELETE] key "@ + k@ + " not found"@)
    }
}

} // verus!

