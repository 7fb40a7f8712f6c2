use synthetic_storage::guest::Component;
use synthetic_storage::reading::kv_schema;
use synthetic_storage::state::KvState;
use synthetic_storage::types::{
    Columndef, CompareOp, Duckerror, Duckvalue, Logicaltype, ScanFilter, ScanRequest,
};

fn text(s: &str) -> Duckvalue {
    Duckvalue::Text(s.to_string())
}

fn row(k: &str, v: &str) -> Vec<Duckvalue> {
    vec![text(k), text(v)]
}

fn table() -> String {
    "kv_store".to_string()
}

fn request(projection: Vec<u32>, filters: Vec<ScanFilter>, limit: Option<u64>) -> ScanRequest {
    ScanRequest { table: table(), projection, filters, limit }
}

/// Five committed rows, and no transaction open.
fn filled() -> KvState {
    let mut st = KvState::default();
    Component::begin_transaction(&mut st, 1, 1).unwrap();
    Component::create_table(&mut st, 1, 1, table(), vec![]).unwrap();
    let rows = vec![
        row("d", "1"),
        row("b", "2"),
        row("a", "3"),
        row("c", "4"),
        row("b", "5"),
    ];
    Component::insert_rows(&mut st, 1, 1, table(), rows).unwrap();
    Component::commit_transaction(&mut st, 1, 1).unwrap();
    st
}

fn scan(st: &mut KvState, r: ScanRequest) -> Vec<Vec<Duckvalue>> {
    let id = Component::storage_scan_open(st, 1, 1, r).unwrap();
    Component::storage_scan_next(st, 1, id, u32::MAX).unwrap()
}

fn filter(column: u32, op: CompareOp, value: Duckvalue) -> ScanFilter {
    ScanFilter { column, op, value }
}

#[test]
fn batches_come_in_order_until_none_is_left() {
    let mut st = filled();
    let id = Component::storage_scan_open(&mut st, 1, 1, request(vec![], vec![], None)).unwrap();
    assert_eq!(id, 1);
    assert_eq!(
        Component::storage_scan_next(&mut st, 1, id, 2),
        Ok(vec![row("d", "1"), row("b", "2")])
    );
    assert_eq!(Component::storage_scan_next(&mut st, 1, id, 0), Ok(vec![]));
    assert_eq!(
        Component::storage_scan_next(&mut st, 1, id, 2),
        Ok(vec![row("a", "3"), row("c", "4")])
    );
    assert_eq!(Component::storage_scan_next(&mut st, 1, id, 2), Ok(vec![row("b", "5")]));
    assert_eq!(Component::storage_scan_next(&mut st, 1, id, u32::MAX), Ok(vec![]));
}

#[test]
fn closed_scans_are_unknown() {
    let mut st = filled();
    let id = Component::storage_scan_open(&mut st, 1, 1, request(vec![], vec![], None)).unwrap();
    assert_eq!(Component::storage_scan_close(&mut st, 1, id), Ok(true));
    assert_eq!(Component::storage_scan_close(&mut st, 1, id), Ok(false));
    assert_eq!(
        Component::storage_scan_next(&mut st, 1, id, 1),
        Err(Duckerror::Invalidstate("synthetic-storage: unknown scan handle 1".to_string()))
    );
}

#[test]
fn an_open_scan_does_not_see_later_changes() {
    let mut st = filled();
    let id = Component::storage_scan_open(&mut st, 1, 1, request(vec![0], vec![], None)).unwrap();
    let txn = Component::begin_transaction(&mut st, 1, 1).unwrap();
    Component::delete_rows(&mut st, 1, txn, table(), vec![1, 2, 3, 4, 5]).unwrap();
    Component::insert_rows(&mut st, 1, txn, table(), vec![row("new", "6")]).unwrap();
    let other = Component::storage_scan_open(&mut st, 1, 1, request(vec![0], vec![], None)).unwrap();
    assert_eq!(other, 2);
    Component::commit_transaction(&mut st, 1, txn).unwrap();
    assert_eq!(
        Component::storage_scan_next(&mut st, 1, id, 10),
        Ok(vec![
            vec![text("d")],
            vec![text("b")],
            vec![text("a")],
            vec![text("c")],
            vec![text("b")]
        ])
    );
    assert_eq!(Component::storage_scan_next(&mut st, 1, other, 10), Ok(vec![vec![text("new")]]));
}

#[test]
fn a_scan_goes_on_through_changes_and_refused_calls() {
    let mut st = filled();
    let id = Component::storage_scan_open(&mut st, 1, 1, request(vec![0], vec![], None)).unwrap();
    assert_eq!(
        Component::storage_scan_next(&mut st, 1, id, 2),
        Ok(vec![vec![text("d")], vec![text("b")]])
    );
    let txn = Component::begin_transaction(&mut st, 1, 1).unwrap();
    Component::delete_rows(&mut st, 1, txn, table(), vec![3, 4]).unwrap();
    Component::commit_transaction(&mut st, 1, txn).unwrap();
    assert!(Component::storage_scan_next(&mut st, 2, id, 2).is_err());
    assert!(Component::storage_scan_close(&mut st, 2, id).is_err());
    assert!(Component::storage_scan_open(&mut st, 1, 1, request(vec![2], vec![], None)).is_err());
    assert_eq!(st.next_scan, id);
    assert_eq!(
        Component::storage_scan_next(&mut st, 1, id, 9),
        Ok(vec![vec![text("a")], vec![text("c")], vec![text("b")]])
    );
}

#[test]
fn a_limited_scan_reads_back_an_insert() {
    let mut st = filled();
    let txn = Component::begin_transaction(&mut st, 1, 1).unwrap();
    Component::insert_rows(&mut st, 1, txn, table(), vec![row("b", "6"), row("b", "7")]).unwrap();
    let b = vec![filter(0, CompareOp::Eq, text("b"))];
    assert_eq!(
        scan(&mut st, request(vec![1], b, Some(3))),
        vec![vec![text("2")], vec![text("5")], vec![text("6")]]
    );
}

#[test]
fn projections() {
    let mut st = filled();
    let rows = scan(&mut st, request(vec![1, 0, 1], vec![], Some(1)));
    assert_eq!(rows, vec![vec![text("1"), text("d"), text("1")]]);
    let r = Component::storage_scan_open(&mut st, 1, 1, request(vec![0, 3, 2], vec![], None));
    assert_eq!(
        r,
        Err(Duckerror::Invalidargument(
            "synthetic-storage: projection index 3 out of range (schema has 2 cols)".to_string()
        ))
    );
    assert_eq!(st.next_scan, 1);
}

#[test]
fn limits() {
    let mut st = filled();
    assert_eq!(scan(&mut st, request(vec![], vec![], Some(2))), vec![row("d", "1"), row("b", "2")]);
    assert_eq!(scan(&mut st, request(vec![], vec![], Some(5))).len(), 5);
    assert_eq!(scan(&mut st, request(vec![], vec![], Some(6))).len(), 5);
    assert_eq!(scan(&mut st, request(vec![], vec![], Some(0))), vec![row("d", "1")]);
    let none = vec![filter(0, CompareOp::Eq, text("nobody"))];
    assert_eq!(scan(&mut st, request(vec![], none, Some(0))), Vec::<Vec<Duckvalue>>::new());
}

#[test]
fn filters_all_have_to_pass() {
    let mut st = filled();
    let both = vec![filter(0, CompareOp::Eq, text("b")), filter(1, CompareOp::Gt, text("2"))];
    assert_eq!(scan(&mut st, request(vec![], both, None)), vec![row("b", "5")]);
    let one = vec![filter(0, CompareOp::Ge, text("c"))];
    assert_eq!(scan(&mut st, request(vec![], one, Some(9))), vec![row("d", "1"), row("c", "4")]);
    let unknown =
        vec![filter(0, CompareOp::Eq, Duckvalue::Null), filter(1, CompareOp::Lt, text("3"))];
    assert_eq!(
        scan(&mut st, request(vec![], unknown, None)),
        vec![row("d", "1"), row("b", "2")]
    );
}

#[test]
fn scan_refusals_come_in_turn() {
    let mut st = KvState::default();
    let mut other = request(vec![7], vec![], None);
    other.table = "other".to_string();
    assert_eq!(
        Component::storage_scan_open(&mut st, 1, 4, other),
        Err(Duckerror::Invalidargument(
            "synthetic-storage: unknown catalog handle 4 (only 1 is served)".to_string()
        ))
    );
    let mut other = request(vec![7], vec![], None);
    other.table = "other".to_string();
    assert_eq!(
        Component::storage_scan_open(&mut st, 1, 1, other),
        Err(Duckerror::Invalidstate(
            "synthetic-storage: table 'other' has not been created".to_string()
        ))
    );
    let mut st = filled();
    let mut other = request(vec![7], vec![], None);
    other.table = "other".to_string();
    assert_eq!(
        Component::storage_scan_open(&mut st, 1, 1, other),
        Err(Duckerror::Invalidargument(
            "synthetic-storage: unknown table 'other' (only 'kv_store' is served)".to_string()
        ))
    );
}

#[test]
fn scan_handles_skip_zero_and_take_over() {
    let mut st = filled();
    let first = Component::storage_scan_open(&mut st, 1, 1, request(vec![0], vec![], None));
    assert_eq!(first, Ok(1));
    st.next_scan = u32::MAX;
    let again = Component::storage_scan_open(&mut st, 1, 1, request(vec![1], vec![], Some(1)));
    assert_eq!(again, Ok(1));
    assert_eq!(Component::storage_scan_next(&mut st, 1, 1, 10), Ok(vec![vec![text("1")]]));
    assert_eq!(st.scans.len(), 1);
}

#[test]
fn detach_keeps_the_rows() {
    let mut st = filled();
    assert_eq!(Component::storage_detach(&mut st, 1, 1), Ok(false));
    assert_eq!(Component::storage_attach(&mut st, 1, "dsn".to_string(), vec![]), Ok(1));
    assert_eq!(Component::storage_attach(&mut st, 1, "other".to_string(), vec![]), Ok(1));
    assert_eq!(Component::storage_detach(&mut st, 1, 1), Ok(true));
    assert!(!st.attached);
    assert_eq!(Component::storage_attach(&mut st, 1, "dsn".to_string(), vec![]), Ok(1));
    assert_eq!(scan(&mut st, request(vec![], vec![], None)).len(), 5);
}

#[test]
fn attached_from_attach_to_detach() {
    let mut st = filled();
    assert!(!st.attached);
    assert!(Component::storage_attach(&mut st, 2, "dsn".to_string(), vec![]).is_err());
    assert!(!st.attached);
    Component::storage_attach(&mut st, 1, "dsn".to_string(), vec![]).unwrap();
    Component::begin_transaction(&mut st, 1, 1).unwrap();
    Component::rollback_transaction(&mut st, 1, 2).unwrap();
    assert_eq!(scan(&mut st, request(vec![], vec![], None)).len(), 5);
    assert!(Component::storage_detach(&mut st, 1, 2).is_err());
    assert!(st.attached);
    assert_eq!(Component::storage_detach(&mut st, 1, 1), Ok(true));
    assert_eq!(Component::storage_detach(&mut st, 1, 1), Ok(false));
    assert!(!st.attached);
}

#[test]
fn the_table_is_served_from_its_creation_on() {
    let mut st = KvState::default();
    Component::storage_attach(&mut st, 1, "dsn".to_string(), vec![]).unwrap();
    Component::begin_transaction(&mut st, 1, 1).unwrap();
    assert!(Component::create_table(&mut st, 1, 1, "other".to_string(), vec![]).is_err());
    assert!(Component::create_table(&mut st, 1, 9, table(), vec![]).is_err());
    assert!(!st.created);
    assert!(Component::storage_scan_open(&mut st, 1, 1, request(vec![], vec![], None)).is_err());
    Component::create_table(&mut st, 1, 1, table(), vec![]).unwrap();
    Component::rollback_transaction(&mut st, 1, 1).unwrap();
    Component::storage_detach(&mut st, 1, 1).unwrap();
    assert!(st.created);
    assert_eq!(Component::storage_list_tables(&st, 1, 1), Ok(vec![table()]));
    assert_eq!(Component::storage_table_columns(&st, 1, 1, table()), Ok(kv_schema()));
    assert_eq!(
        Component::storage_scan_open(&mut st, 1, 1, request(vec![], vec![], None)),
        Ok(1)
    );
    let mut other = request(vec![], vec![], None);
    other.table = "other".to_string();
    assert!(Component::storage_scan_open(&mut st, 1, 1, other).is_err());
}

#[test]
fn tables_and_columns_appear_with_the_table() {
    let mut st = KvState::default();
    assert_eq!(Component::storage_list_tables(&st, 1, 1), Ok(vec![]));
    assert_eq!(Component::storage_table_columns(&st, 1, 1, table()), Ok(vec![]));
    Component::begin_transaction(&mut st, 1, 1).unwrap();
    Component::create_table(&mut st, 1, 1, table(), vec![]).unwrap();
    assert_eq!(Component::storage_list_tables(&st, 1, 1), Ok(vec![table()]));
    let schema = vec![
        Columndef { name: "key".to_string(), logical: Logicaltype::Text },
        Columndef { name: "value".to_string(), logical: Logicaltype::Text },
    ];
    assert_eq!(Component::storage_table_columns(&st, 1, 1, table()), Ok(schema));
    assert_eq!(kv_schema().len(), 2);
    assert_eq!(Component::storage_table_columns(&st, 1, 1, "other".to_string()), Ok(vec![]));
    assert!(Component::storage_list_tables(&st, 1, 2).is_err());
    assert!(Component::storage_table_columns(&st, 3, 1, table()).is_err());
}
