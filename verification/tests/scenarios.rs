use rrmvcc::db::{Database, IsolationLevel};
use rrmvcc::tx::Command;

fn fresh(level: IsolationLevel) -> Database {
    let mut db = Database::new();
    db.default_isolation_level = level;
    db
}

#[test]
fn scenario_read_committed_visibility_flip() {
    let mut db = fresh(IsolationLevel::ReadCommitted);
    let mut c1 = db.new_connection();
    let mut c2 = db.new_connection();
    c1.exec_command(&mut db, Command::Begin).unwrap();
    c2.exec_command(&mut db, Command::Begin).unwrap();

    let ret = c1
        .exec_command(&mut db, Command::Put("x".to_string(), "hey".to_string()))
        .unwrap();
    assert_eq!(ret, "[SET] key:x, val:hey");

    let ret = c1.exec_command(&mut db, Command::Get("x".to_string())).unwrap();
    assert_eq!(ret, "[GET] key:x, val:hey");

    let ret = c2.exec_command(&mut db, Command::Get("x".to_string())).unwrap_err();
    assert_eq!(ret, "[GET] key x not found");

    let ret = c1.exec_command(&mut db, Command::Commit).unwrap();
    assert_eq!(ret, "[COMMIT] finish");

    let ret = c2.exec_command(&mut db, Command::Get("x".to_string())).unwrap();
    assert_eq!(ret, "[GET] key:x, val:hey");
}

#[test]
fn scenario_read_committed_rollback_hides_write() {
    let mut db = fresh(IsolationLevel::ReadCommitted);
    let mut c1 = db.new_connection();
    let mut c2 = db.new_connection();
    c1.exec_command(&mut db, Command::Begin).unwrap();
    c2.exec_command(&mut db, Command::Begin).unwrap();
    c1.exec_command(&mut db, Command::Put("x".to_string(), "hey".to_string())).unwrap();
    c1.exec_command(&mut db, Command::Commit).unwrap();

    let mut c3 = db.new_connection();
    c3.exec_command(&mut db, Command::Begin).unwrap();
    c3.exec_command(&mut db, Command::Put("x".to_string(), "yall".to_string())).unwrap();

    let ret = c3.exec_command(&mut db, Command::Get("x".to_string())).unwrap();
    assert_eq!(ret, "[GET] key:x, val:yall");

    let ret = c2.exec_command(&mut db, Command::Get("x".to_string())).unwrap();
    assert_eq!(ret, "[GET] key:x, val:hey");

    let ret = c3.exec_command(&mut db, Command::Abort).unwrap();
    assert_eq!(ret, "[ABORT] finish");

    let ret = c2.exec_command(&mut db, Command::Get("x".to_string())).unwrap();
    assert_eq!(ret, "[GET] key:x, val:hey");

    let ret = c2.exec_command(&mut db, Command::Delete("x".to_string())).unwrap();
    assert_eq!(ret, "[DELETE] key:x");

    let ret = c2.exec_command(&mut db, Command::Get("x".to_string())).unwrap_err();
    assert_eq!(ret, "[GET] key x not found");

    c2.exec_command(&mut db, Command::Commit).unwrap();

    let mut c4 = db.new_connection();
    c4.exec_command(&mut db, Command::Begin).unwrap();
    let ret = c4.exec_command(&mut db, Command::Get("x".to_string())).unwrap_err();
    assert_eq!(ret, "[GET] key x not found");
}

#[test]
fn scenario_repeatable_read_snapshot_stability() {
    let mut db = fresh(IsolationLevel::RepeatableRead);
    let mut c1 = db.new_connection();
    let mut c2 = db.new_connection();
    c1.exec_command(&mut db, Command::Begin).unwrap();
    c2.exec_command(&mut db, Command::Begin).unwrap();

    c1.exec_command(&mut db, Command::Put("x".to_string(), "hey".to_string())).unwrap();

    let ret = c2.exec_command(&mut db, Command::Get("x".to_string())).unwrap_err();
    assert_eq!(ret, "[GET] key x not found");

    c1.exec_command(&mut db, Command::Commit).unwrap();

    // Stable despite c1 committing after c2 began.
    let ret = c2.exec_command(&mut db, Command::Get("x".to_string())).unwrap_err();
    assert_eq!(ret, "[GET] key x not found");

    let mut c3 = db.new_connection();
    c3.exec_command(&mut db, Command::Begin).unwrap();
    let ret = c3.exec_command(&mut db, Command::Get("x".to_string())).unwrap();
    assert_eq!(ret, "[GET] key:x, val:hey");
}

#[test]
fn scenario_snapshot_write_write_conflict() {
    let mut db = fresh(IsolationLevel::Snapshot);
    let mut c1 = db.new_connection();
    let mut c2 = db.new_connection();
    let mut c3 = db.new_connection();
    c1.exec_command(&mut db, Command::Begin).unwrap();
    c2.exec_command(&mut db, Command::Begin).unwrap();
    c3.exec_command(&mut db, Command::Begin).unwrap();

    c1.exec_command(&mut db, Command::Put("x".to_string(), "hey".to_string())).unwrap();
    let ret = c1.exec_command(&mut db, Command::Commit).unwrap();
    assert_eq!(ret, "[COMMIT] finish");

    c2.exec_command(&mut db, Command::Put("x".to_string(), "hey".to_string())).unwrap();
    let ret = c2.exec_command(&mut db, Command::Commit).unwrap_err();
    assert_eq!(ret, "Write-Write Conflict");

    c3.exec_command(&mut db, Command::Put("y".to_string(), "no conflict".to_string())).unwrap();
    let ret = c3.exec_command(&mut db, Command::Commit).unwrap();
    assert_eq!(ret, "[COMMIT] finish");
}

#[test]
fn scenario_serializable_read_write_conflict() {
    let mut db = fresh(IsolationLevel::Serializable);
    let mut c1 = db.new_connection();
    let mut c2 = db.new_connection();
    let mut c3 = db.new_connection();
    c1.exec_command(&mut db, Command::Begin).unwrap();
    c2.exec_command(&mut db, Command::Begin).unwrap();
    c3.exec_command(&mut db, Command::Begin).unwrap();

    c1.exec_command(&mut db, Command::Put("x".to_string(), "hey".to_string())).unwrap();
    c1.exec_command(&mut db, Command::Commit).unwrap();

    // c2's snapshot predates c1's write.
    let ret = c2.exec_command(&mut db, Command::Get("x".to_string())).unwrap_err();
    assert_eq!(ret, "[GET] key x not found");

    let ret = c2.exec_command(&mut db, Command::Commit).unwrap_err();
    assert_eq!(ret, "Read-Write Conflict");

    c3.exec_command(&mut db, Command::Put("y".to_string(), "no conflict".to_string())).unwrap();
    let ret = c3.exec_command(&mut db, Command::Commit).unwrap();
    assert_eq!(ret, "[COMMIT] finish");
}

#[test]
fn serializable_blind_write_write_conflict() {
    // Two concurrent Serializable transactions write the same key without
    // reading it; the second committer must abort rather than lose an update.
    let mut db = fresh(IsolationLevel::Serializable);
    let mut c1 = db.new_connection();
    let mut c2 = db.new_connection();
    c1.exec_command(&mut db, Command::Begin).unwrap();
    c2.exec_command(&mut db, Command::Begin).unwrap();

    c1.exec_command(&mut db, Command::Put("x".to_string(), "one".to_string())).unwrap();
    c2.exec_command(&mut db, Command::Put("x".to_string(), "two".to_string())).unwrap();

    let ret = c1.exec_command(&mut db, Command::Commit).unwrap();
    assert_eq!(ret, "[COMMIT] finish");

    let ret = c2.exec_command(&mut db, Command::Commit).unwrap_err();
    assert_eq!(ret, "Write-Write Conflict");
}

#[test]
fn scenario_read_uncommitted_dirty_read() {
    let mut db = fresh(IsolationLevel::ReadUncommitted);
    let mut c1 = db.new_connection();
    let mut c2 = db.new_connection();
    c1.exec_command(&mut db, Command::Begin).unwrap();
    c2.exec_command(&mut db, Command::Begin).unwrap();

    let ret = c1
        .exec_command(&mut db, Command::Put("hello".to_string(), "world".to_string()))
        .unwrap();
    assert_eq!(ret, "[SET] key:hello, val:world");

    let ret = c1.exec_command(&mut db, Command::Get("hello".to_string())).unwrap();
    assert_eq!(ret, "[GET] key:hello, val:world");

    // No commit required.
    let ret = c2.exec_command(&mut db, Command::Get("hello".to_string())).unwrap();
    assert_eq!(ret, "[GET] key:hello, val:world");
}

#[test]
fn delete_then_get_within_transaction_not_found() {
    let mut db = fresh(IsolationLevel::RepeatableRead);
    let mut c1 = db.new_connection();
    c1.exec_command(&mut db, Command::Begin).unwrap();
    c1.exec_command(&mut db, Command::Put("k".to_string(), "v".to_string())).unwrap();
    let ret = c1.exec_command(&mut db, Command::Get("k".to_string())).unwrap();
    assert_eq!(ret, "[GET] key:k, val:v");
    let ret = c1.exec_command(&mut db, Command::Delete("k".to_string())).unwrap();
    assert_eq!(ret, "[DELETE] key:k");
    let ret = c1.exec_command(&mut db, Command::Get("k".to_string())).unwrap_err();
    assert_eq!(ret, "[GET] key k not found");
}

#[test]
fn read_committed_overwrite_by_same_transaction() {
    let mut db = fresh(IsolationLevel::ReadCommitted);
    let mut c1 = db.new_connection();
    c1.exec_command(&mut db, Command::Begin).unwrap();
    c1.exec_command(&mut db, Command::Put("k".to_string(), "one".to_string())).unwrap();
    c1.exec_command(&mut db, Command::Put("k".to_string(), "two".to_string())).unwrap();
    let ret = c1.exec_command(&mut db, Command::Get("k".to_string())).unwrap();
    assert_eq!(ret, "[GET] key:k, val:two");
}
