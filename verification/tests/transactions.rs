use synthetic_storage::guest::Component;
use synthetic_storage::state::KvState;
use synthetic_storage::types::{Columndef, Duckerror, Duckvalue, Logicaltype, ScanRequest};

fn text(s: &str) -> Duckvalue {
    Duckvalue::Text(s.to_string())
}

fn row(k: &str, v: &str) -> Vec<Duckvalue> {
    vec![text(k), text(v)]
}

fn table() -> String {
    "kv_store".to_string()
}

/// A state in which the table exists and transaction 1 is open.
fn open_state() -> KvState {
    let mut st = KvState::default();
    assert_eq!(Component::storage_attach(&mut st, 1, ":memory:".to_string(), vec![]), Ok(1));
    assert_eq!(Component::begin_transaction(&mut st, 1, 1), Ok(1));
    assert_eq!(Component::create_table(&mut st, 1, 1, table(), vec![]), Ok(()));
    st
}

/// All that a scan without filters returns now.
fn all_rows(st: &mut KvState) -> Vec<Vec<Duckvalue>> {
    let request =
        ScanRequest { table: table(), projection: vec![], filters: vec![], limit: None };
    let scan = Component::storage_scan_open(st, 1, 1, request).unwrap();
    let rows = Component::storage_scan_next(st, 1, scan, 1000).unwrap();
    assert_eq!(Component::storage_scan_close(st, 1, scan), Ok(true));
    rows
}

fn ids(st: &KvState) -> Vec<i64> {
    synthetic_storage::state::visible_view(st).ordered().iter().map(|r| r.0).collect()
}

#[test]
fn insert_is_read_back_in_the_transaction() {
    let mut st = open_state();
    let n = Component::insert_rows(&mut st, 1, 1, table(), vec![row("a", "1"), row("b", "2")]);
    assert_eq!(n, Ok(2));
    assert_eq!(all_rows(&mut st), vec![row("a", "1"), row("b", "2")]);
    assert_eq!(ids(&st), vec![1, 2]);
    assert!(st.committed.rows.is_empty());
}

#[test]
fn commit_publishes() {
    let mut st = open_state();
    Component::insert_rows(&mut st, 1, 1, table(), vec![row("a", "1")]).unwrap();
    assert_eq!(Component::commit_transaction(&mut st, 1, 1), Ok(()));
    assert!(st.shadow.is_none());
    assert_eq!(st.active_txn, None);
    assert_eq!(all_rows(&mut st), vec![row("a", "1")]);
    assert_eq!(Component::begin_transaction(&mut st, 1, 1), Ok(2));
    assert_eq!(all_rows(&mut st), vec![row("a", "1")]);
}

#[test]
fn rollback_restores_rows_but_keeps_the_table() {
    let mut st = open_state();
    Component::insert_rows(&mut st, 1, 1, table(), vec![row("a", "1"), row("b", "2")]).unwrap();
    Component::commit_transaction(&mut st, 1, 1).unwrap();
    Component::begin_transaction(&mut st, 1, 1).unwrap();
    Component::insert_rows(&mut st, 1, 2, table(), vec![row("c", "3")]).unwrap();
    Component::delete_rows(&mut st, 1, 2, table(), vec![1]).unwrap();
    Component::update_rows(&mut st, 1, 2, table(), vec![2], vec![row("z", "9")]).unwrap();
    assert_eq!(all_rows(&mut st), vec![row("z", "9"), row("c", "3")]);
    assert_eq!(Component::rollback_transaction(&mut st, 1, 2), Ok(()));
    assert_eq!(all_rows(&mut st), vec![row("a", "1"), row("b", "2")]);
    assert_eq!(st.committed.next_rowid, 2);

    let mut fresh = open_state();
    Component::rollback_transaction(&mut fresh, 1, 1).unwrap();
    assert_eq!(Component::storage_list_tables(&fresh, 1, 1), Ok(vec![table()]));
}

#[test]
fn nested_begin_is_refused() {
    let mut st = open_state();
    assert_eq!(
        Component::begin_transaction(&mut st, 1, 1),
        Err(Duckerror::Invalidstate(
            "synthetic-storage: nested transaction on same catalog".to_string()
        ))
    );
    assert_eq!(st.active_txn, Some(1));
}

#[test]
fn foreign_and_ended_transactions_are_refused() {
    let mut st = open_state();
    let other = Err(Duckerror::Invalidstate(
        "synthetic-storage: txn 27 not active (current active txn is 1)".to_string(),
    ));
    assert_eq!(Component::commit_transaction(&mut st, 1, 27), other);
    assert_eq!(Component::rollback_transaction(&mut st, 1, 27), other);
    Component::commit_transaction(&mut st, 1, 1).unwrap();
    assert_eq!(
        Component::insert_rows(&mut st, 1, 1, table(), vec![row("a", "1")]),
        Err(Duckerror::Invalidstate(
            "synthetic-storage: txn 1 not active (no live transaction)".to_string()
        ))
    );
}

#[test]
fn refused_calls_end_and_begin_nothing() {
    let mut st = open_state();
    Component::insert_rows(&mut st, 1, 1, table(), vec![row("a", "1")]).unwrap();
    assert!(Component::commit_transaction(&mut st, 1, 2).is_err());
    assert!(Component::commit_transaction(&mut st, 2, 1).is_err());
    assert!(Component::rollback_transaction(&mut st, 1, 0).is_err());
    assert!(Component::rollback_transaction(&mut st, 2, 1).is_err());
    assert_eq!(st.active_txn, Some(1));
    assert!(st.committed.rows.is_empty());
    assert_eq!(all_rows(&mut st), vec![row("a", "1")]);
    Component::rollback_transaction(&mut st, 1, 1).unwrap();
    assert_eq!(all_rows(&mut st), Vec::<Vec<Duckvalue>>::new());

    assert!(Component::begin_transaction(&mut st, 2, 1).is_err());
    assert!(Component::begin_transaction(&mut st, 1, 2).is_err());
    assert_eq!(
        Component::commit_transaction(&mut st, 1, 1),
        Err(Duckerror::Invalidstate(
            "synthetic-storage: txn 1 not active (no live transaction)".to_string()
        ))
    );
    assert_eq!(Component::begin_transaction(&mut st, 1, 1), Ok(2));
}

#[test]
fn transaction_handles_grow() {
    let mut st = open_state();
    Component::rollback_transaction(&mut st, 1, 1).unwrap();
    assert_eq!(all_rows(&mut st), Vec::<Vec<Duckvalue>>::new());
    assert_eq!(Component::begin_transaction(&mut st, 1, 1), Ok(2));
    assert!(Component::begin_transaction(&mut st, 1, 1).is_err());
    Component::commit_transaction(&mut st, 1, 2).unwrap();
    Component::storage_detach(&mut st, 1, 1).unwrap();
    assert_eq!(Component::begin_transaction(&mut st, 1, 1), Ok(3));
    assert_eq!(
        Component::rollback_transaction(&mut st, 1, 1),
        Err(Duckerror::Invalidstate(
            "synthetic-storage: txn 1 not active (current active txn is 3)".to_string()
        ))
    );
}

#[test]
fn transaction_handles_skip_zero() {
    let mut st = KvState::default();
    st.next_txn = u32::MAX - 1;
    assert_eq!(Component::begin_transaction(&mut st, 1, 1), Ok(u32::MAX));
    Component::rollback_transaction(&mut st, 1, u32::MAX).unwrap();
    assert_eq!(Component::begin_transaction(&mut st, 1, 1), Ok(1));
}

#[test]
fn null_is_stored_as_empty_text() {
    let mut st = open_state();
    let given = vec![vec![Duckvalue::Null, text("v")], vec![text("k"), Duckvalue::Null]];
    assert_eq!(Component::insert_rows(&mut st, 1, 1, table(), given), Ok(2));
    assert_eq!(all_rows(&mut st), vec![row("", "v"), row("k", "")]);
}

#[test]
fn insert_stops_at_the_first_bad_row() {
    let mut st = open_state();
    let given = vec![row("a", "1"), vec![text("b")], row("c", "3")];
    assert_eq!(
        Component::insert_rows(&mut st, 1, 1, table(), given),
        Err(Duckerror::Invalidargument(
            "synthetic-storage: kv_store INSERT expects 2 columns, got 1".to_string()
        ))
    );
    assert_eq!(all_rows(&mut st), vec![row("a", "1")]);
}

#[test]
fn cells_that_are_not_text_are_refused() {
    let mut st = open_state();
    let other = Duckvalue::Other("Duckvalue::Int64(7)".to_string());
    let refusal = Err(Duckerror::Invalidargument(
        "synthetic-storage: expected TEXT for kv column, got Duckvalue::Int64(7)".to_string(),
    ));
    let first = vec![vec![other.clone(), Duckvalue::Other("later".to_string())]];
    assert_eq!(Component::insert_rows(&mut st, 1, 1, table(), first), refusal);
    let second = vec![vec![text("k"), other]];
    assert_eq!(Component::update_rows(&mut st, 1, 1, table(), vec![1], second), refusal);
    assert_eq!(all_rows(&mut st), Vec::<Vec<Duckvalue>>::new());
}

#[test]
fn delete_counts_the_rows_that_were_there() {
    let mut st = open_state();
    let given = vec![row("a", "1"), row("b", "2"), row("c", "3")];
    Component::insert_rows(&mut st, 1, 1, table(), given).unwrap();
    let n = Component::delete_rows(&mut st, 1, 1, table(), vec![2, 2, 9, -1, 3]);
    assert_eq!(n, Ok(2));
    assert_eq!(all_rows(&mut st), vec![row("a", "1")]);
    assert_eq!(Component::delete_rows(&mut st, 1, 1, table(), vec![]), Ok(0));
}

#[test]
fn delete_undoes_insert() {
    let mut st = open_state();
    Component::insert_rows(&mut st, 1, 1, table(), vec![row("a", "1")]).unwrap();
    Component::insert_rows(&mut st, 1, 1, table(), vec![row("b", "2"), row("c", "3")]).unwrap();
    assert_eq!(Component::delete_rows(&mut st, 1, 1, table(), vec![2, 3]), Ok(2));
    assert_eq!(all_rows(&mut st), vec![row("a", "1")]);
    Component::insert_rows(&mut st, 1, 1, table(), vec![row("d", "4")]).unwrap();
    assert_eq!(ids(&st), vec![1, 4]);
}

#[test]
fn update_counts_replaced_rows_and_adds_the_others() {
    let mut st = open_state();
    Component::insert_rows(&mut st, 1, 1, table(), vec![row("a", "1"), row("b", "2")]).unwrap();
    let given = vec![row("x", "8"), row("n", "0"), row("y", "9"), row("m", "5")];
    let n = Component::update_rows(&mut st, 1, 1, table(), vec![2, -4, 2, -4], given);
    assert_eq!(n, Ok(3));
    assert_eq!(ids(&st), vec![-4, 1, 2]);
    assert_eq!(all_rows(&mut st), vec![row("m", "5"), row("a", "1"), row("y", "9")]);
}

#[test]
fn insert_may_take_the_place_of_a_row_put_above_the_counter() {
    let mut st = open_state();
    assert_eq!(
        Component::update_rows(&mut st, 1, 1, table(), vec![2], vec![row("up", "0")]),
        Ok(0)
    );
    Component::insert_rows(&mut st, 1, 1, table(), vec![row("a", "1"), row("b", "2")]).unwrap();
    assert_eq!(all_rows(&mut st), vec![row("a", "1"), row("b", "2")]);
}

#[test]
fn rowids_start_again_after_the_greatest() {
    let mut st = open_state();
    st.shadow.as_mut().unwrap().next_rowid = i64::MAX - 1;
    Component::insert_rows(&mut st, 1, 1, table(), vec![row("a", "1"), row("b", "2")]).unwrap();
    assert_eq!(ids(&st), vec![1, i64::MAX]);
    assert_eq!(all_rows(&mut st), vec![row("b", "2"), row("a", "1")]);
}

#[test]
fn update_stops_at_the_first_bad_row() {
    let mut st = open_state();
    Component::insert_rows(&mut st, 1, 1, table(), vec![row("a", "1"), row("b", "2")]).unwrap();
    let given = vec![row("x", "8"), vec![text("1"), text("2"), text("3")]];
    assert_eq!(
        Component::update_rows(&mut st, 1, 1, table(), vec![1, 2], given),
        Err(Duckerror::Invalidargument(
            "synthetic-storage: kv_store UPDATE expects 2 columns, got 3".to_string()
        ))
    );
    assert_eq!(all_rows(&mut st), vec![row("x", "8"), row("b", "2")]);
}

#[test]
fn update_lengths_are_looked_at_before_the_transaction() {
    let mut st = KvState::default();
    let r = Component::update_rows(&mut st, 1, 5, table(), vec![1, 2, 3], vec![row("a", "1")]);
    assert_eq!(
        r,
        Err(Duckerror::Invalidargument(
            "synthetic-storage: UPDATE rowids (3) / rows (1) length mismatch".to_string()
        ))
    );
    let r = Component::update_rows(&mut st, 2, 5, table(), vec![1], vec![]);
    assert_eq!(
        r,
        Err(Duckerror::Invalidargument(
            "synthetic-storage: unknown callback handle 2 (only 1 is served)".to_string()
        ))
    );
}

#[test]
fn writes_need_the_table() {
    let mut st = KvState::default();
    Component::begin_transaction(&mut st, 1, 1).unwrap();
    let missing = Err(Duckerror::Invalidstate(
        "synthetic-storage: table 'kv_store' has not been created".to_string(),
    ));
    assert_eq!(Component::insert_rows(&mut st, 1, 1, table(), vec![]), missing);
    assert_eq!(Component::delete_rows(&mut st, 1, 1, table(), vec![]), missing);
    let unknown = Duckerror::Invalidargument(
        "synthetic-storage: unknown table 'other' (only 'kv_store' is served)".to_string(),
    );
    let columns = vec![Columndef { name: "n".to_string(), logical: Logicaltype::Other }];
    assert_eq!(
        Component::create_table(&mut st, 1, 1, "other".to_string(), columns),
        Err(unknown)
    );
    let columns = vec![Columndef { name: "n".to_string(), logical: Logicaltype::Other }];
    assert_eq!(Component::create_table(&mut st, 1, 1, table(), columns), Ok(()));
    assert_eq!(
        Component::insert_rows(&mut st, 1, 1, "other".to_string(), vec![]),
        Err(Duckerror::Invalidargument(
            "synthetic-storage: unknown table 'other' (only 'kv_store' is served)".to_string()
        ))
    );
    assert_eq!(Component::insert_rows(&mut st, 1, 1, table(), vec![]), Ok(0));
}
