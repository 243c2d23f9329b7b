use axis::errors::Error;
use axis::master::agents::{accept, decide, delete, list, reject};
use axis::orm::models::{Agent, Registry};

fn serials(db: &Registry) -> Vec<String> {
    db.list().into_iter().map(|row| row.sn).collect()
}

fn row(id: i32, sn: &str, key: &str, enable: bool, at: i64) -> Agent {
    Agent {
        id,
        sn: sn.to_string(),
        key: key.to_string(),
        enable,
        updated_at: at,
        created_at: at,
    }
}

#[test]
fn new_registry_is_empty() {
    let db = Registry::new();
    assert_eq!(db.len(), 0);
    assert_eq!(db.list(), vec![]);
    assert_eq!(db.by_sn("node-1"), Err(Error::NotFound));
}

#[test]
fn added_agent_is_not_trusted() {
    let mut db = Registry::new();
    assert_eq!(db.add_at("node-1", "F1", 100), Ok(()));
    assert_eq!(db.by_sn("node-1"), Ok(row(1, "node-1", "F1", false, 100)));
    assert_eq!(db.len(), 1);
}

#[test]
fn ids_count_up() {
    let mut db = Registry::new();
    db.add_at("b", "kb", 1).unwrap();
    db.add_at("a", "ka", 2).unwrap();
    db.add_at("c", "kc", 3).unwrap();
    assert_eq!(db.by_sn("b").unwrap().id, 1);
    assert_eq!(db.by_sn("a").unwrap().id, 2);
    assert_eq!(db.by_sn("c").unwrap().id, 3);
}

#[test]
fn ids_are_not_given_twice() {
    let mut db = Registry::new();
    db.add_at("a", "ka", 1).unwrap();
    db.add_at("b", "kb", 1).unwrap();
    db.delete(2);
    db.add_at("c", "kc", 1).unwrap();
    assert_eq!(db.by_sn("c").unwrap().id, 3);
}

#[test]
fn serial_is_unique() {
    let mut db = Registry::new();
    db.add_at("node-1", "F1", 100).unwrap();
    assert_eq!(db.add_at("node-1", "F2", 200), Err(Error::Duplicate));
    assert_eq!(db.len(), 1);
    assert_eq!(db.by_sn("node-1"), Ok(row(1, "node-1", "F1", false, 100)));
}

#[test]
fn list_is_in_the_order_of_the_serials() {
    let mut db = Registry::new();
    for sn in ["node-2", "node-10", "node-1", "Node", "zeta", "alpha", "ä"] {
        db.add_at(sn, "k", 0).unwrap();
    }
    assert_eq!(
        serials(&db),
        vec!["Node", "alpha", "node-1", "node-10", "node-2", "zeta", "ä"]
    );
}

#[test]
fn add_stamps_the_row_with_the_time() {
    let mut db = Registry::new();
    assert_eq!(db.add("node-1", "F1"), Ok(()));
    let row = db.by_sn("node-1").unwrap();
    assert_eq!(row.updated_at, row.created_at);
    assert!(row.created_at > 1_500_000_000);
    assert!(!row.enable);
    assert_eq!(row.key, "F1");
    assert_eq!(db.add("node-1", "F1"), Err(Error::Duplicate));
}

#[test]
fn enable_sets_the_flag_and_the_time() {
    let mut db = Registry::new();
    db.add_at("a", "ka", 1).unwrap();
    db.add_at("b", "kb", 2).unwrap();
    db.enable_at(2, true, 50);
    assert_eq!(db.by_sn("b"), Ok(row_with(2, "b", "kb", true, 50, 2)));
    assert_eq!(db.by_sn("a"), Ok(row(1, "a", "ka", false, 1)));
    db.enable_at(2, false, 60);
    assert_eq!(db.by_sn("b"), Ok(row_with(2, "b", "kb", false, 60, 2)));
}

fn row_with(id: i32, sn: &str, key: &str, enable: bool, updated: i64, created: i64) -> Agent {
    Agent {
        id,
        sn: sn.to_string(),
        key: key.to_string(),
        enable,
        updated_at: updated,
        created_at: created,
    }
}

#[test]
fn enable_of_an_unknown_id_changes_nothing() {
    let mut db = Registry::new();
    db.add_at("a", "ka", 1).unwrap();
    db.enable_at(7, true, 50);
    assert_eq!(db.list(), vec![row(1, "a", "ka", false, 1)]);
}

#[test]
fn enable_stamps_the_row_with_the_time() {
    let mut db = Registry::new();
    db.add_at("a", "ka", 1).unwrap();
    db.enable(1, true);
    let row = db.by_sn("a").unwrap();
    assert!(row.enable);
    assert!(row.updated_at > 1_500_000_000);
    assert_eq!(row.created_at, 1);
}

#[test]
fn delete_removes_the_row() {
    let mut db = Registry::new();
    db.add_at("a", "ka", 1).unwrap();
    db.add_at("b", "kb", 2).unwrap();
    db.add_at("c", "kc", 3).unwrap();
    db.delete(2);
    assert_eq!(serials(&db), vec!["a", "c"]);
    assert_eq!(db.by_sn("b"), Err(Error::NotFound));
    db.delete(2);
    db.delete(99);
    assert_eq!(serials(&db), vec!["a", "c"]);
}

#[test]
fn deleted_agent_can_register_with_another_key() {
    let mut db = Registry::new();
    db.add_at("node-1", "F1", 1).unwrap();
    delete(&mut db, "node-1").unwrap();
    db.add_at("node-1", "F2", 2).unwrap();
    assert_eq!(db.by_sn("node-1"), Ok(row(2, "node-1", "F2", false, 2)));
}

#[test]
fn load_puts_stored_rows_in_order() {
    let db = Registry::load(vec![
        row(5, "b", "kb", true, 10),
        row(2, "a", "ka", false, 20),
        row(9, "c", "kc", true, 30),
    ])
    .unwrap();
    assert_eq!(
        db.list(),
        vec![
            row(2, "a", "ka", false, 20),
            row(5, "b", "kb", true, 10),
            row(9, "c", "kc", true, 30),
        ]
    );
    let mut db = db;
    db.add_at("d", "kd", 40).unwrap();
    assert_eq!(db.by_sn("d").unwrap().id, 10);
}

#[test]
fn load_of_nothing_is_a_new_registry() {
    let mut db = Registry::load(vec![]).unwrap();
    assert_eq!(db.len(), 0);
    db.add_at("a", "ka", 1).unwrap();
    assert_eq!(db.by_sn("a").unwrap().id, 1);
}

#[test]
fn load_refuses_a_serial_or_an_id_twice() {
    assert!(matches!(
        Registry::load(vec![row(1, "a", "k", true, 0), row(2, "a", "k", true, 0)]),
        Err(Error::Duplicate)
    ));
    assert!(matches!(
        Registry::load(vec![row(1, "a", "k", true, 0), row(1, "b", "k", true, 0)]),
        Err(Error::Duplicate)
    ));
}

#[test]
fn load_refuses_the_last_id() {
    assert!(matches!(
        Registry::load(vec![row(i32::MAX, "a", "k", true, 0)]),
        Err(Error::Exhausted)
    ));
}

#[test]
fn registry_runs_out_of_ids() {
    let mut db = Registry::load(vec![row(i32::MAX - 1, "a", "k", true, 0)]).unwrap();
    assert_eq!(db.add_at("b", "k", 0), Err(Error::Exhausted));
    assert_eq!(db.len(), 1);
}

#[test]
fn put_keeps_the_id() {
    let mut db = Registry::new();
    assert_eq!(db.put(row(40, "x", "kx", true, 3)), Ok(()));
    assert_eq!(db.by_sn("x"), Ok(row(40, "x", "kx", true, 3)));
    assert_eq!(db.put(row(41, "x", "ky", true, 3)), Err(Error::Duplicate));
    assert_eq!(db.put(row(40, "y", "ky", true, 3)), Err(Error::Duplicate));
}

#[test]
fn copy_of_a_row() {
    let it = row(3, "a", "k", true, 9);
    assert_eq!(it.copy(), it);
}

#[test]
fn operator_accepts_and_rejects() {
    let mut db = Registry::new();
    db.add_at("node-1", "F1", 1).unwrap();
    db.add_at("node-2", "F2", 1).unwrap();
    assert_eq!(accept(&mut db, "node-1"), Ok(()));
    assert!(db.by_sn("node-1").unwrap().enable);
    assert!(!db.by_sn("node-2").unwrap().enable);
    assert_eq!(reject(&mut db, "node-1"), Ok(()));
    assert!(!db.by_sn("node-1").unwrap().enable);
    assert_eq!(db.by_sn("node-1").unwrap().key, "F1");
}

#[test]
fn operator_decides_at_a_time() {
    let mut db = Registry::new();
    db.add_at("node-1", "F1", 1).unwrap();
    assert_eq!(decide(&mut db, "node-1", true, 77), Ok(()));
    assert_eq!(
        db.by_sn("node-1"),
        Ok(row_with(1, "node-1", "F1", true, 77, 1))
    );
}

#[test]
fn operator_cannot_decide_on_an_unknown_agent() {
    let mut db = Registry::new();
    db.add_at("node-1", "F1", 1).unwrap();
    assert_eq!(accept(&mut db, "node-9"), Err(Error::NotFound));
    assert_eq!(reject(&mut db, "node-9"), Err(Error::NotFound));
    assert_eq!(delete(&mut db, "node-9"), Err(Error::NotFound));
    assert_eq!(db.list(), vec![row(1, "node-1", "F1", false, 1)]);
}

#[test]
fn operator_deletes() {
    let mut db = Registry::new();
    db.add_at("node-1", "F1", 1).unwrap();
    db.add_at("node-2", "F2", 1).unwrap();
    assert_eq!(delete(&mut db, "node-1"), Ok(()));
    assert_eq!(serials(&db), vec!["node-2"]);
}

#[test]
fn operator_lists() {
    let mut db = Registry::new();
    assert_eq!(list(&db), vec!["ENABLE\tNAME"]);
    db.add_at("node-2", "F2", 1).unwrap();
    db.add_at("node-1", "F1", 1).unwrap();
    accept(&mut db, "node-2").unwrap();
    assert_eq!(
        list(&db),
        vec!["ENABLE\tNAME", "NO\tnode-1", "YES\tnode-2"]
    );
}
