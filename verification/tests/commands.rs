use rrmvcc::db::{Database, IsolationLevel, Value};
use rrmvcc::tx::{Command, Transaction, TransactionState};

#[test]
fn commands_without_transaction_fail() {
    let mut db = Database::new();
    let mut c = db.new_connection();
    assert_eq!(
        c.exec_command(&mut db, Command::Abort).unwrap_err(),
        "[ABORT] no active transaction"
    );
    assert_eq!(
        c.exec_command(&mut db, Command::Commit).unwrap_err(),
        "[COMMIT] no active transaction"
    );
    assert_eq!(
        c.exec_command(&mut db, Command::Get("x".to_string())).unwrap_err(),
        "[GET] no active transaction"
    );
    assert_eq!(
        c.exec_command(&mut db, Command::Put("x".to_string(), "v".to_string())).unwrap_err(),
        "[SET] no active transaction"
    );
    assert_eq!(
        c.exec_command(&mut db, Command::Delete("x".to_string())).unwrap_err(),
        "[DELETE] no active transaction"
    );
}

#[test]
fn begin_reports_finish_and_allocates_increasing_ids() {
    let mut db = Database::new();
    let mut c1 = db.new_connection();
    let mut c2 = db.new_connection();
    assert_eq!(c1.exec_command(&mut db, Command::Begin).unwrap(), "[BEGIN] finish");
    assert_eq!(c2.exec_command(&mut db, Command::Begin).unwrap(), "[BEGIN] finish");
    let id1 = c1.tx.unwrap();
    let id2 = c2.tx.unwrap();
    assert_eq!(id1, 1);
    assert_eq!(id2, 2);
    assert!(id1 < id2);
}

#[test]
fn delete_unknown_key_not_found() {
    let mut db = Database::new();
    db.default_isolation_level = IsolationLevel::ReadCommitted;
    let mut c = db.new_connection();
    c.exec_command(&mut db, Command::Begin).unwrap();
    assert_eq!(
        c.exec_command(&mut db, Command::Delete("nope".to_string())).unwrap_err(),
        "[DELETE] key nope not found"
    );
}

#[test]
fn delete_invisible_key_not_found() {
    let mut db = Database::new();
    db.default_isolation_level = IsolationLevel::RepeatableRead;
    let mut c1 = db.new_connection();
    let mut c2 = db.new_connection();
    c1.exec_command(&mut db, Command::Begin).unwrap();
    c2.exec_command(&mut db, Command::Begin).unwrap();
    c1.exec_command(&mut db, Command::Put("x".to_string(), "v".to_string())).unwrap();
    // The key exists but no version of it is visible to c2's snapshot.
    assert_eq!(
        c2.exec_command(&mut db, Command::Delete("x".to_string())).unwrap_err(),
        "[DELETE] key x not found"
    );
}

#[test]
fn complete_transaction_rejects_unknown_and_active() {
    let mut db = Database::new();
    assert_eq!(
        db.complete_transaction(42, TransactionState::Committed).unwrap_err(),
        "Transaction not found"
    );
    let mut c = db.new_connection();
    c.exec_command(&mut db, Command::Begin).unwrap();
    let id = c.tx.unwrap();
    assert_eq!(
        db.complete_transaction(id, TransactionState::Active).unwrap_err(),
        "Invalid transaction state"
    );
    assert!(db.complete_transaction(id, TransactionState::Committed).is_ok());
}

#[test]
fn new_transaction_snapshots_active_peers() {
    let mut db = Database::new();
    let id1 = db.new_transaction();
    let id2 = db.new_transaction();
    assert_eq!(id1, 1);
    assert_eq!(id2, 2);
    db.complete_transaction(id1, TransactionState::Aborted).unwrap();
    let id3 = db.new_transaction();
    assert_eq!(id3, 3);
}

#[test]
fn assert_transaction_accepts_active() {
    let mut db = Database::new();
    let mut c = db.new_connection();
    c.exec_command(&mut db, Command::Begin).unwrap();
    db.assert_transaction(c.tx.unwrap());
}

#[test]
fn histories_and_snapshots_keep_their_invariants() {
    let mut db = Database::new();
    db.default_isolation_level = IsolationLevel::Snapshot;
    let mut c1 = db.new_connection();
    let mut c2 = db.new_connection();
    c1.exec_command(&mut db, Command::Begin).unwrap();
    c1.exec_command(&mut db, Command::Put("x".to_string(), "a".to_string())).unwrap();
    c1.exec_command(&mut db, Command::Commit).unwrap();
    c2.exec_command(&mut db, Command::Begin).unwrap();
    c2.exec_command(&mut db, Command::Put("x".to_string(), "b".to_string())).unwrap();

    // One key, two versions: the first end-stamped by the second writer, the
    // second live; creator identifiers are non-decreasing along the history
    // and every end stamp is at or above its creator stamp.
    assert_eq!(db.kvs_info.len(), 1);
    let versions = &db.kvs_info[0].versions;
    assert_eq!(versions.len(), 2);
    assert_eq!(versions[0].tx_start_id, 1);
    assert_eq!(versions[0].tx_end_id, 2);
    assert_eq!(versions[1].tx_start_id, 2);
    assert_eq!(versions[1].tx_end_id, 0);
    for w in versions.windows(2) {
        assert!(w[0].tx_start_id <= w[1].tx_start_id);
    }
    for v in versions.iter() {
        assert!(v.tx_end_id == 0 || v.tx_end_id >= v.tx_start_id);
    }

    // The second transaction began after the first committed, so its
    // snapshot is empty; no snapshot ever holds its owner's identifier.
    for t in db.txs_info.txs.iter() {
        assert!(!t.inprogress.contains(&t.id));
    }
    assert!(db.txs_info.txs[1].inprogress.is_empty());

    // A committed transaction's state never changes, whatever else runs.
    assert_eq!(db.txs_info.txs[0].state, TransactionState::Committed);
    c2.exec_command(&mut db, Command::Commit).unwrap();
    assert_eq!(db.txs_info.txs[0].state, TransactionState::Committed);
    assert_eq!(db.txs_info.txs[1].state, TransactionState::Committed);
}

#[test]
fn is_visible_per_level() {
    let mut db = Database::new();
    let id = db.new_transaction();
    let own_live = Value { data: "a".to_string(), tx_start_id: id, tx_end_id: 0 };
    let reader = |level: IsolationLevel| Transaction {
        id,
        state: TransactionState::Active,
        isolation_level: level,
        inprogress: Vec::new(),
        write_set: Vec::new(),
        read_set: Vec::new(),
    };
    assert!(db.is_visible(&reader(IsolationLevel::ReadUncommitted), &own_live));
    assert!(db.is_visible(&reader(IsolationLevel::ReadCommitted), &own_live));
    assert!(db.is_visible(&reader(IsolationLevel::RepeatableRead), &own_live));
    // A version the reader itself retired is no longer visible outside
    // ReadUncommitted.
    let own_retired = Value { data: "a".to_string(), tx_start_id: id, tx_end_id: id };
    assert!(db.is_visible(&reader(IsolationLevel::ReadUncommitted), &own_retired));
    assert!(!db.is_visible(&reader(IsolationLevel::ReadCommitted), &own_retired));
    assert!(!db.is_visible(&reader(IsolationLevel::Serializable), &own_retired));
}
