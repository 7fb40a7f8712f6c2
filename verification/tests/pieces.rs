use synthetic_storage::checks::{
    dv_to_text, poison, require_catalog, require_handle, require_table, require_txn,
    CATALOG_HANDLE, HANDLE, STORAGE_TYPE, TABLE_NAME,
};
use synthetic_storage::filter::{eval_filter, kv_cell};
use synthetic_storage::guest::Component;
use synthetic_storage::state::{current_view_mut, visible_view, KvState};
use synthetic_storage::text::{text_eq, text_order, TextOrder};
use synthetic_storage::types::{
    Capabilitykind, CompareOp, Duckerror, Duckvalue, Loadresult, ScanFilter,
};
use synthetic_storage::writing::require_equal_lengths;

fn passes(k: &str, v: &str, column: u32, op: CompareOp, value: Duckvalue) -> bool {
    eval_filter(k, v, &ScanFilter { column, op, value })
}

fn text(s: &str) -> Duckvalue {
    Duckvalue::Text(s.to_string())
}

#[test]
fn text_is_ordered_by_bytes() {
    let sorted = ["", "A", "Z", "a", "aa", "ab", "b", "z", "\u{e9}", "\u{ffff}", "\u{10000}"];
    for (i, a) in sorted.iter().enumerate() {
        for (j, b) in sorted.iter().enumerate() {
            let expected = if i < j {
                TextOrder::Less
            } else if i == j {
                TextOrder::Equal
            } else {
                TextOrder::Greater
            };
            assert_eq!(text_order(a, b), expected);
            assert_eq!(text_order(a, b) == TextOrder::Less, a < b);
            assert_eq!(text_eq(a, b), a == b);
        }
    }
}

#[test]
fn filters_compare_text() {
    let ops = [
        CompareOp::Eq,
        CompareOp::Ne,
        CompareOp::Lt,
        CompareOp::Le,
        CompareOp::Gt,
        CompareOp::Ge,
    ];
    let results = |t: &str| -> Vec<bool> {
        ops.iter().map(|op| passes("m", "x", 0, *op, text(t))).collect()
    };
    assert_eq!(results("m"), vec![true, false, false, true, false, true]);
    assert_eq!(results("n"), vec![false, true, true, true, false, false]);
    assert_eq!(results("a"), vec![false, true, false, false, true, true]);
    assert!(passes("m", "x", 1, CompareOp::Eq, text("x")));
}

#[test]
fn filters_with_null() {
    let ops = [
        CompareOp::Eq,
        CompareOp::Ne,
        CompareOp::Lt,
        CompareOp::Le,
        CompareOp::Gt,
        CompareOp::Ge,
    ];
    for op in ops {
        assert!(passes("m", "x", 0, op, Duckvalue::Null));
        assert!(passes("", "", 1, op, Duckvalue::Null));
    }
    assert!(passes("a", "b", 0, CompareOp::Eq, Duckvalue::Null));
    assert!(!passes("", "", 0, CompareOp::IsNull, Duckvalue::Null));
    assert!(passes("", "", 1, CompareOp::IsNotNull, Duckvalue::Null));
}

#[test]
fn filters_that_cannot_be_evaluated_pass() {
    let other = || Duckvalue::Other("Duckvalue::Int64(7)".to_string());
    assert!(passes("m", "x", 0, CompareOp::Eq, other()));
    assert!(passes("m", "x", 1, CompareOp::Lt, other()));
    assert!(!passes("m", "x", 1, CompareOp::IsNull, other()));
    assert!(passes("m", "x", 2, CompareOp::IsNull, Duckvalue::Null));
    assert!(passes("m", "x", 9, CompareOp::Eq, text("nothing")));
}

#[test]
fn cells_by_column() {
    assert_eq!(kv_cell("k", "v", 0), Some("k"));
    assert_eq!(kv_cell("k", "v", 1), Some("v"));
    assert_eq!(kv_cell("k", "v", 2), None);
}

#[test]
fn refusals() {
    assert_eq!(require_handle(HANDLE), Ok(()));
    assert_eq!(
        require_handle(u32::MAX),
        Err(Duckerror::Invalidargument(
            "synthetic-storage: unknown callback handle 4294967295 (only 1 is served)".to_string()
        ))
    );
    assert_eq!(require_catalog(CATALOG_HANDLE), Ok(()));
    assert_eq!(
        require_catalog(0),
        Err(Duckerror::Invalidargument(
            "synthetic-storage: unknown catalog handle 0 (only 1 is served)".to_string()
        ))
    );
    let mut st = KvState::default();
    assert_eq!(
        require_txn(&st, 100),
        Err(Duckerror::Invalidstate(
            "synthetic-storage: txn 100 not active (no live transaction)".to_string()
        ))
    );
    st.created = true;
    assert_eq!(require_table(&st, TABLE_NAME), Ok(()));
    assert!(require_table(&st, "KV_STORE").is_err());
    assert_eq!(
        poison(),
        Duckerror::Internal("synthetic-storage: state mutex poisoned".to_string())
    );
    assert_eq!(require_equal_lengths(10, 10), Ok(()));
    assert_eq!(
        require_equal_lengths(0, 12),
        Err(Duckerror::Invalidargument(
            "synthetic-storage: UPDATE rowids (0) / rows (12) length mismatch".to_string()
        ))
    );
}

#[test]
fn cells_as_text() {
    assert_eq!(dv_to_text(&text("t")), Ok("t".to_string()));
    assert_eq!(dv_to_text(&Duckvalue::Null), Ok(String::new()));
    assert_eq!(
        dv_to_text(&Duckvalue::Other("Duckvalue::Boolean(true)".to_string())),
        Err(Duckerror::Invalidargument(
            "synthetic-storage: expected TEXT for kv column, got Duckvalue::Boolean(true)"
                .to_string()
        ))
    );
}

#[test]
fn views_follow_the_transaction() {
    let mut st = KvState::default();
    current_view_mut(&mut st).next_rowid = 3;
    assert_eq!(st.committed.next_rowid, 3);
    Component::begin_transaction(&mut st, 1, 1).unwrap();
    assert_eq!(visible_view(&st).next_rowid, 3);
    current_view_mut(&mut st).next_rowid = 8;
    assert_eq!(st.committed.next_rowid, 3);
    assert_eq!(visible_view(&st).next_rowid, 8);
}

#[test]
fn rows_are_listed_by_rowid() {
    let mut st = KvState::default();
    let view = current_view_mut(&mut st);
    for id in [7, -2, 0, i64::MAX, i64::MIN] {
        view.rows.insert(id, (format!("k{}", id), "v".to_string()));
    }
    let ids: Vec<i64> = view.ordered().iter().map(|r| r.0).collect();
    assert_eq!(ids, vec![i64::MIN, -2, 0, 7, i64::MAX]);
    assert_eq!(view.ordered()[1], (-2, "k-2".to_string(), "v".to_string()));
}

#[test]
fn load_describes_the_backend() {
    assert_eq!(STORAGE_TYPE, "synthetic_mutating");
    assert_eq!(
        Component::load::<Duckerror>(Ok(()), "0.2.0".to_string()),
        Ok(Loadresult {
            name: "synthetic_mutating".to_string(),
            version: Some("0.2.0".to_string()),
            required: vec![Capabilitykind::Catalog],
        })
    );
    let refusal = || Duckerror::Unsupported("no storage here".to_string());
    assert_eq!(Component::load(Err(refusal()), "0.2.0".to_string()), Err(refusal()));
    assert_eq!(Component::reconfigure(vec!["k".to_string()]), Ok(false));
    assert_eq!(Component::shutdown(), Ok(false));
}

#[test]
fn callbacks_are_unsupported() {
    let no = |what: &str| Duckerror::Unsupported(format!("synthetic-storage: no {}", what));
    assert_eq!(
        Component::call_scalar_batch_col(1, vec![1u8], "ctx"),
        Err(no("scalar functions"))
    );
    assert_eq!(Component::call_aggregate_col(1, vec![1u8]), Err(no("aggregates")));
    assert_eq!(Component::call_cast_col(1, 1u8), Err(no("casts")));
    assert_eq!(Component::call_scalar(1, vec![], "ctx"), Err(no("scalar functions")));
    assert_eq!(Component::call_table(1, vec![]), Err(no("table functions")));
    assert_eq!(Component::call_pragma(1, vec![]), Err(no("pragmas")));
    assert_eq!(Component::call_cast(1, Duckvalue::Null), Err(no("casts")));
}

#[test]
fn staged_blobs_are_ignored() {
    assert_eq!(Component::attach_blob(1, "dsn".to_string(), vec![1, 2, 3]), Ok(()));
    assert!(Component::attach_blob(0, "dsn".to_string(), vec![]).is_err());
}
