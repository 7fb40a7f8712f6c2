//! What each call does to the state, in plain terms: field by field, row by
//! row, and by how calls relate that are made in turn.
use vstd::prelude::*;

use crate::answers;
use crate::checks;
use crate::filter;
use crate::laws;
use crate::reading;
use crate::rows;
use crate::rows::{Pair, Row, RowsView};
use crate::state::{CursorView, StateView};
use crate::types::{DuckvalueView, ScanRequestView};
use crate::writing;

verus! {

/// An attach or a detach sets whether the catalog is attached, and nothing
/// else; under a handle that is not served it does nothing.
pub proof fn law_attach_and_detach_set_one_flag(st: StateView, handle: u32, catalog: u32)
    ensures
        reading::after_attach(st, handle) == (if handle == 1 {
            StateView { attached: true, ..st }
        } else {
            st
        }),
        reading::after_detach(st, handle, catalog) == (if handle == 1 && catalog == 1 {
            StateView { attached: false, ..st }
        } else {
            st
        }),
{
}

/// A begin gives out the next handle and copies the committed rows; while a
/// transaction is open, or under other handles, it does nothing.
pub proof fn law_begin_copies_the_committed_rows(st: StateView, handle: u32, catalog: u32)
    ensures
        ({
            let begun = writing::after_begin(st, handle, catalog);
            if handle == 1 && catalog == 1 && st.active_txn is None {
                &&& begun.active_txn == Some(begun.next_txn)
                &&& st.next_txn < u32::MAX ==> begun.next_txn == st.next_txn + 1
                &&& st.next_txn == u32::MAX ==> begun.next_txn == 1
                &&& begun.shadow == Some(st.committed)
                &&& begun == (StateView {
                    active_txn: begun.active_txn,
                    next_txn: begun.next_txn,
                    shadow: begun.shadow,
                    ..st
                })
            } else {
                begun == st
            }
        }),
{
}

/// A commit puts the rows of the transaction in place of the committed ones,
/// a rollback drops them; each closes the transaction and leaves all else, and
/// does nothing if the transaction is not the open one.
pub proof fn law_commit_keeps_and_rollback_drops(st: StateView, handle: u32, txn: u32)
    ensures
        ({
            let kept = writing::after_commit(st, handle, txn);
            let dropped = writing::after_rollback(st, handle, txn);
            if handle == 1 && st.active_txn == Some(txn) {
                &&& st.shadow matches Some(own) ==> kept.committed == own
                &&& st.shadow is None ==> kept.committed == st.committed
                &&& kept == (StateView {
                    committed: kept.committed,
                    shadow: None,
                    active_txn: None,
                    ..st
                })
                &&& dropped == (StateView { shadow: None, active_txn: None, ..st })
            } else {
                kept == st && dropped == st
            }
        }),
{
}

/// In the open transaction, whichever number it has, creating the served table
/// records it and changes nothing else; any other create does nothing.
pub proof fn law_create_records_the_table(
    st: StateView,
    handle: u32,
    txn: u32,
    table: Seq<char>,
)
    ensures
        writing::after_create(st, handle, txn, table) == (if handle == 1 && st.active_txn == Some(
            txn,
        ) && table == "kv_store"@ {
            StateView { created: true, ..st }
        } else {
            st
        }),
{
}

/// Closing a scan forgets it and no other.
pub proof fn law_close_forgets_the_scan(st: StateView, handle: u32, scan: u32)
    ensures
        reading::after_scan_close(st, handle, scan) == (if handle == 1 {
            StateView { scans: st.scans.remove(scan), ..st }
        } else {
            st
        }),
{
}

/// A fetch hands out the rows that follow, in their order, as many as asked
/// for or as are left, and moves the scan on by as many; nothing else changes.
pub proof fn law_fetch_hands_out_the_rows_that_follow(
    st: StateView,
    handle: u32,
    scan: u32,
    max_rows: u32,
)
    requires
        st.scans.contains_key(scan),
        st.scans[scan].pos <= st.scans[scan].rows.len(),
    ensures
        ({
            let c = st.scans[scan];
            let handed = reading::batch(c, max_rows);
            let left = c.rows.len() - c.pos;
            &&& handed.len() == (if max_rows <= left {
                max_rows as int
            } else {
                left
            })
            &&& forall|i: int| 0 <= i < handed.len() ==> #[trigger] handed[i] == c.rows[c.pos + i]
            &&& reading::after_scan_next(st, handle, scan, max_rows) == (if handle == 1 {
                StateView {
                    scans: st.scans.insert(
                        scan,
                        CursorView { rows: c.rows, pos: c.pos + handed.len() },
                    ),
                    ..st
                }
            } else {
                st
            })
        }),
{
}

/// A fetch from a scan that is not open does nothing.
pub proof fn law_fetch_from_no_scan_does_nothing(
    st: StateView,
    handle: u32,
    scan: u32,
    max_rows: u32,
)
    requires
        !st.scans.contains_key(scan),
    ensures
        reading::after_scan_next(st, handle, scan, max_rows) == st,
{
}

/// Filtering keeps rows in the order of their rowids.
proof fn lemma_filter_keeps_order(s: Seq<Row>, p: spec_fn(Row) -> bool)
    requires
        forall|i: int, j: int| 0 <= i < j < s.len() ==> s[i].0 < s[j].0,
    ensures
        forall|i: int, j: int|
            0 <= i < j < s.filter(p).len() ==> #[trigger] s.filter(p)[i].0 < #[trigger] s.filter(
                p,
            )[j].0,
        forall|i: int| 0 <= i < s.filter(p).len() ==> s.contains(#[trigger] s.filter(p)[i]),
    decreases s.len(),
{
    reveal(Seq::filter);
    if s.len() > 0 {
        let first = s.drop_last();
        lemma_filter_keeps_order(first, p);
        let f = first.filter(p);
        assert forall|i: int| 0 <= i < f.len() implies f[i].0 < s.last().0 && s.contains(
            #[trigger] f[i],
        ) by {
            assert(first.contains(f[i]));
            let j = choose|j: int| 0 <= j < first.len() && first[j] == f[i];
            assert(s[j] == f[i]);
        }
        assert(s[s.len() - 1] == s.last());
    }
}

/// What a scan finds, by position. The rows come by increasing rowid, under
/// the rowids `ids`; each passes every filter, and every row that does is
/// among them, unless the limit has been reached with rows before it. A row
/// has a cell for each column asked for, in the order asked for, with the key
/// for 0 and the value for 1; without any asked for it has the key and then
/// the value. A limit of 0 counts as 1.
pub proof fn law_scan_finds_every_row_that_passes(
    st: StateView,
    handle: u32,
    catalog: u32,
    request: ScanRequestView,
) -> (ids: Seq<i64>)
    requires
        handle == 1,
        catalog == 1,
        st.created,
        request.table == "kv_store"@,
        forall|i: int| 0 <= i < request.projection.len() ==> #[trigger] request.projection[i] < 2,
        st.shadow matches Some(own) ==> own.rows.dom().finite(),
        st.committed.rows.dom().finite(),
    ensures
        ({
            let m = match st.shadow {
                Some(own) => own.rows,
                None => st.committed.rows,
            };
            let scan = if st.next_scan < u32::MAX {
                (st.next_scan + 1) as u32
            } else {
                1
            };
            let opened = reading::after_scan_open(st, handle, catalog, request);
            let found = opened.scans[scan].rows;
            let columns = if request.projection.len() == 0 {
                seq![0u32, 1u32]
            } else {
                request.projection
            };
            &&& opened == (StateView {
                scans: st.scans.insert(scan, CursorView { rows: found, pos: 0 }),
                next_scan: scan,
                ..st
            })
            &&& ids.len() == found.len()
            &&& forall|i: int, j: int| 0 <= i < j < ids.len() ==> ids[i] < ids[j]
            &&& forall|i: int| 0 <= i < ids.len() ==> m.contains_key(#[trigger] ids[i])
            &&& forall|i: int, f: int|
                0 <= i < ids.len() && 0 <= f < request.filters.len() ==> filter::passes(
                    m[#[trigger] ids[i]].0,
                    m[ids[i]].1,
                    #[trigger] request.filters[f],
                )
            &&& forall|id: i64| #[trigger]
                m.contains_key(id) && (forall|f: int|
                    0 <= f < request.filters.len() ==> filter::passes(
                        m[id].0,
                        m[id].1,
                        #[trigger] request.filters[f],
                    )) ==> ids.contains(id) || (request.limit is Some && found.len() == (if
                    request.limit->0 as usize == 0 {
                    1
                } else {
                    request.limit->0 as usize as nat
                }) && forall|i: int| 0 <= i < ids.len() ==> ids[i] < id)
            &&& request.limit matches Some(n) ==> found.len() <= (if n as usize == 0 {
                1
            } else {
                n as usize as nat
            })
            &&& forall|i: int|
                0 <= i < found.len() ==> (#[trigger] found[i]).len() == columns.len()
            &&& forall|i: int, j: int|
                0 <= i < found.len() && 0 <= j < columns.len() ==> #[trigger] found[i][j]
                    == DuckvalueView::Text(
                    if columns[j] == 0 {
                        m[ids[i]].0
                    } else {
                        m[ids[i]].1
                    },
                )
        }),
{
    answers::law_scans_of_the_created_table_are_accepted(st, handle, catalog, request);
    let m = st.visible().rows;
    let list = rows::listing(m);
    rows::lemma_listing(m);
    let keep = |r: Row| filter::passes_all(r.1, r.2, request.filters);
    let kept = list.filter(keep);
    lemma_filter_keeps_order(list, keep);
    let shown = reading::limited(kept, request.limit);
    let found = reading::scanned(m, request);
    let ids = Seq::new(shown.len(), |i: int| shown[i].0);
    assert forall|i: int| 0 <= i < shown.len() implies {
        &&& shown[i] == kept[i]
        &&& keep(#[trigger] shown[i])
        &&& m.contains_key(shown[i].0)
        &&& m[shown[i].0] == (shown[i].1, shown[i].2)
    } by {
        list.lemma_filter_pred(keep, i);
        let j = choose|j: int| 0 <= j < list.len() && list[j] == kept[i];
        assert(m.contains_pair(list[j].0, (list[j].1, list[j].2)));
    }
    assert forall|i: int| 0 <= i < ids.len() implies m.contains_key(#[trigger] ids[i]) && m[ids[i]]
        == (shown[i].1, shown[i].2) && keep(shown[i]) by {
        assert(ids[i] == shown[i].0);
    }
    assert forall|i: int, j: int| 0 <= i < j < ids.len() implies ids[i] < ids[j] by {
        assert(kept[i].0 < kept[j].0);
    }
    assert forall|id: i64| #[trigger]
        m.contains_key(id) && (forall|f: int|
            0 <= f < request.filters.len() ==> filter::passes(
                m[id].0,
                m[id].1,
                #[trigger] request.filters[f],
            )) implies ids.contains(id) || (shown.len() < kept.len() && forall|i: int|
        0 <= i < ids.len() ==> ids[i] < id) by {
        let j = choose|j: int| 0 <= j < list.len() && #[trigger] list[j].0 == id;
        assert(m.contains_pair(list[j].0, (list[j].1, list[j].2)));
        assert(keep(list[j]));
        list.lemma_filter_contains(keep, j);
        let i = choose|i: int| 0 <= i < kept.len() && kept[i] == list[j];
        if i < shown.len() {
            assert(ids[i] == id);
        } else {
            assert forall|k: int| 0 <= k < ids.len() implies ids[k] < id by {
                assert(kept[k].0 < kept[i].0);
            }
        }
    }
    let columns = reading::projected_columns(request.projection);
    assert forall|i: int, j: int|
        0 <= i < found.len() && 0 <= j < columns.len() implies #[trigger] found[i][j]
        == DuckvalueView::Text(
        if columns[j] == 0 {
            m[ids[i]].0
        } else {
            m[ids[i]].1
        },
    ) by {
        assert(m[ids[i]] == (shown[i].1, shown[i].2));
    }
    ids
}

/// A scan that is refused opens nothing.
pub proof fn law_refused_scan_opens_nothing(
    st: StateView,
    handle: u32,
    catalog: u32,
    request: ScanRequestView,
)
    requires
        handle != 1 || catalog != 1 || !st.created || request.table != "kv_store"@ || exists|i: int|
            0 <= i < request.projection.len() && #[trigger] request.projection[i] >= 2,
    ensures
        reading::after_scan_open(st, handle, catalog, request) == st,
{
    answers::law_scans_of_the_created_table_are_accepted(st, handle, catalog, request);
}

/// The rows are listed by increasing rowid, each once, with its key and value.
pub proof fn law_rows_are_listed_by_rowid(m: Map<i64, Pair>)
    requires
        m.dom().finite(),
    ensures
        forall|i: int, j: int|
            0 <= i < j < rows::listing(m).len() ==> #[trigger] rows::listing(m)[i].0
                < #[trigger] rows::listing(m)[j].0,
        forall|i: int|
            0 <= i < rows::listing(m).len() ==> {
                let r = #[trigger] rows::listing(m)[i];
                m.contains_key(r.0) && m[r.0] == (r.1, r.2)
            },
        forall|id: i64| #[trigger]
            m.contains_key(id) ==> exists|i: int|
                0 <= i < rows::listing(m).len() && #[trigger] rows::listing(m)[i].0 == id,
{
    rows::lemma_listing(m);
    let s = rows::listing(m);
    assert forall|i: int| 0 <= i < s.len() implies {
        let r = #[trigger] s[i];
        m.contains_key(r.0) && m[r.0] == (r.1, r.2)
    } by {
        assert(m.contains_pair(s[i].0, (s[i].1, s[i].2)));
    }
}

/// Rows are stored up to the first that has not two cells, each text or NULL.
pub proof fn law_rows_are_stored_up_to_the_first_bad_one(given: Seq<Seq<DuckvalueView>>)
    ensures
        writing::storable(given) <= given.len(),
        forall|i: int|
            0 <= i < writing::storable(given) ==> (#[trigger] given[i]).len() == 2 && !(given[i][0]
                is Other) && !(given[i][1] is Other),
        writing::storable(given) < given.len() ==> {
            let bad = given[writing::storable(given) as int];
            bad.len() != 2 || bad[0] is Other || bad[1] is Other
        },
    decreases given.len(),
{
    if given.len() > 0 {
        let first = given.drop_last();
        law_rows_are_stored_up_to_the_first_bad_one(first);
        assert(forall|i: int| 0 <= i < first.len() ==> first[i] == given[i]);
        assert(given[given.len() - 1] == given.last());
    }
}

/// Rows that can be stored in front of others: what all of them are stored as
/// is what the first are stored as, and then the others.
proof fn lemma_stored_in_turn(a: Seq<Seq<DuckvalueView>>, b: Seq<Seq<DuckvalueView>>)
    requires
        forall|i: int|
            0 <= i < a.len() ==> (#[trigger] a[i]).len() == 2 && !(a[i][0] is Other) && !(a[i][1]
                is Other),
    ensures
        writing::storable(a) == a.len(),
        writing::storable(a + b) == a.len() + writing::storable(b),
        writing::stored_pairs(a + b) == writing::stored_pairs(a) + writing::stored_pairs(b),
    decreases a.len() + b.len(),
{
    law_rows_are_stored_up_to_the_first_bad_one(a);
    if writing::storable(a) < a.len() {
        assert(a[writing::storable(a) as int].len() == 2);
    }
    writing::lemma_storable_bound(b);
    if b.len() == 0 {
        assert(a + b =~= a);
        assert(writing::stored_pairs(b) =~= Seq::empty());
        assert(writing::stored_pairs(a) + writing::stored_pairs(b) =~= writing::stored_pairs(a));
    } else {
        assert((a + b).drop_last() =~= a + b.drop_last());
        assert((a + b).last() == b.last());
        lemma_stored_in_turn(a, b.drop_last());
        let n = writing::storable(b) as int;
        assert((a + b).take(a.len() + n) =~= a + b.take(n));
        assert(a.take(a.len() as int) =~= a);
        assert(writing::stored_pairs(a + b) =~= writing::stored_pairs(a) + writing::stored_pairs(
            b,
        ));
    }
}

/// Adding two lists of pairs in turn adds them as one.
proof fn lemma_inserted_in_turn(v: RowsView, p: Seq<Pair>, q: Seq<Pair>)
    ensures
        writing::inserted(v, p + q) == writing::inserted(writing::inserted(v, p), q),
    decreases q.len(),
{
    if q.len() == 0 {
        assert(p + q =~= p);
    } else {
        lemma_inserted_in_turn(v, p, q.drop_last());
        assert((p + q).drop_last() =~= p + q.drop_last());
        assert((p + q).last() == q.last());
    }
}

/// Putting two lists of pairs in turn puts them as one.
proof fn lemma_assigned_in_turn(
    m: Map<i64, Pair>,
    ids: Seq<i64>,
    more: Seq<i64>,
    p: Seq<Pair>,
    q: Seq<Pair>,
)
    requires
        ids.len() == p.len(),
        q.len() <= more.len(),
    ensures
        writing::assigned(m, ids + more, p + q) == writing::assigned(
            writing::assigned(m, ids, p),
            more,
            q,
        ),
    decreases p.len() + q.len(),
{
    if q.len() > 0 {
        lemma_assigned_in_turn(m, ids, more, p, q.drop_last());
        assert((p + q).drop_last() =~= p + q.drop_last());
        assert((p + q).last() == q.last());
    } else {
        assert(p + q =~= p);
        lemma_assigned_prefix(m, ids, more, p);
    }
}

/// Rowids beyond the pairs that are put do not matter.
proof fn lemma_assigned_prefix(m: Map<i64, Pair>, ids: Seq<i64>, more: Seq<i64>, p: Seq<Pair>)
    requires
        p.len() <= ids.len(),
    ensures
        writing::assigned(m, ids + more, p) == writing::assigned(m, ids, p),
    decreases p.len(),
{
    if p.len() > 0 {
        lemma_assigned_prefix(m, ids, more, p.drop_last());
    }
}

/// Inserting one row of two cells, each text or NULL, stores exactly its texts,
/// and empty text for NULL, under the rowid after the last one given out, or 1
/// after the greatest; nothing else changes.
pub proof fn law_insert_stores_the_texts_given(st: StateView, txn: u32, row: Seq<DuckvalueView>)
    requires
        st.active_txn == Some(txn),
        st.created,
        row.len() == 2,
        !(row[0] is Other),
        !(row[1] is Other),
    ensures
        ({
            let before = match st.shadow {
                Some(own) => own,
                None => st.committed,
            };
            let id = if 0 <= before.next_rowid < i64::MAX {
                (before.next_rowid + 1) as i64
            } else {
                1
            };
            let key = match row[0] {
                DuckvalueView::Text(t) => t,
                _ => Seq::empty(),
            };
            let value = match row[1] {
                DuckvalueView::Text(t) => t,
                _ => Seq::empty(),
            };
            let after = RowsView { rows: before.rows.insert(id, (key, value)), next_rowid: id };
            writing::after_insert(st, 1, txn, "kv_store"@, seq![row]) == (if st.shadow is Some {
                StateView { shadow: Some(after), ..st }
            } else {
                StateView { committed: after, ..st }
            })
        }),
{
    let given = seq![row];
    lemma_stored_in_turn(given, Seq::empty());
    let pairs = writing::stored_pairs(given);
    assert(given.take(1) =~= given);
    assert(pairs.len() == 1);
    assert(pairs.drop_last() =~= Seq::empty());
    assert(pairs.last() == pairs[0]);
    assert(writing::inserted(st.visible(), pairs.drop_last()) == st.visible());
}

/// Inserting rows at once is inserting them in turn.
pub proof fn law_insert_takes_rows_in_turn(
    st: StateView,
    handle: u32,
    txn: u32,
    table: Seq<char>,
    a: Seq<Seq<DuckvalueView>>,
    b: Seq<Seq<DuckvalueView>>,
)
    requires
        forall|i: int|
            0 <= i < a.len() ==> (#[trigger] a[i]).len() == 2 && !(a[i][0] is Other) && !(a[i][1]
                is Other),
    ensures
        writing::after_insert(st, handle, txn, table, a + b) == writing::after_insert(
            writing::after_insert(st, handle, txn, table, a),
            handle,
            txn,
            table,
            b,
        ),
{
    lemma_stored_in_turn(a, b);
    lemma_inserted_in_turn(
        st.visible(),
        writing::stored_pairs(a),
        writing::stored_pairs(b),
    );
}

/// An insert does nothing from the first row on that has not two cells, each
/// text or NULL, nothing if there is no row, and nothing if it is refused.
pub proof fn law_insert_stops_at_a_bad_row(
    st: StateView,
    handle: u32,
    txn: u32,
    table: Seq<char>,
    given: Seq<Seq<DuckvalueView>>,
)
    requires
        ({
            ||| given.len() == 0
            ||| given[0].len() != 2
            ||| given[0][0] is Other
            ||| given[0][1] is Other
            ||| handle != 1
            ||| st.active_txn != Some(txn)
            ||| !st.created
            ||| table != "kv_store"@
        }),
    ensures
        writing::after_insert(st, handle, txn, table, given) == st,
{
    if checks::write_refusal(st, handle, txn, table) is None {
        law_rows_are_stored_up_to_the_first_bad_one(given);
        assert(writing::storable(given) == 0) by {
            if writing::storable(given) > 0 {
                assert(given[0].len() == 2);
            }
        }
        assert(writing::stored_pairs(given) =~= Seq::empty());
    }
}

/// A delete leaves exactly the rows whose rowids it does not name, as they
/// were, and changes nothing else; if it is refused it does nothing.
pub proof fn law_delete_leaves_the_other_rows(
    st: StateView,
    handle: u32,
    txn: u32,
    table: Seq<char>,
    ids: Seq<i64>,
)
    ensures
        ({
            let end = writing::after_delete(st, handle, txn, table, ids);
            let before = match st.shadow {
                Some(own) => own,
                None => st.committed,
            };
            let after = match end.shadow {
                Some(own) => own,
                None => end.committed,
            };
            if handle == 1 && st.active_txn == Some(txn) && st.created && table == "kv_store"@ {
                &&& forall|id: i64| #[trigger]
                    after.rows.contains_key(id) <==> before.rows.contains_key(id) && !ids.contains(
                        id,
                    )
                &&& forall|id: i64| #[trigger]
                    after.rows.contains_key(id) ==> after.rows[id] == before.rows[id]
                &&& after.next_rowid == before.next_rowid
                &&& end == (if st.shadow is Some {
                    StateView { shadow: Some(after), ..st }
                } else {
                    StateView { committed: after, ..st }
                })
            } else {
                end == st
            }
        }),
{
}

/// Updating one rowid with a row of two cells, each text or NULL, stores
/// exactly its texts, and empty text for NULL, under that rowid; nothing else
/// changes.
pub proof fn law_update_stores_the_texts_given(
    st: StateView,
    txn: u32,
    id: i64,
    row: Seq<DuckvalueView>,
)
    requires
        st.active_txn == Some(txn),
        st.created,
        row.len() == 2,
        !(row[0] is Other),
        !(row[1] is Other),
    ensures
        ({
            let before = match st.shadow {
                Some(own) => own,
                None => st.committed,
            };
            let key = match row[0] {
                DuckvalueView::Text(t) => t,
                _ => Seq::empty(),
            };
            let value = match row[1] {
                DuckvalueView::Text(t) => t,
                _ => Seq::empty(),
            };
            let after = RowsView {
                rows: before.rows.insert(id, (key, value)),
                next_rowid: before.next_rowid,
            };
            writing::after_update(st, 1, txn, "kv_store"@, seq![id], seq![row]) == (
            if st.shadow is Some {
                StateView { shadow: Some(after), ..st }
            } else {
                StateView { committed: after, ..st }
            })
        }),
{
    let given = seq![row];
    lemma_stored_in_turn(given, Seq::empty());
    let pairs = writing::stored_pairs(given);
    assert(given.take(1) =~= given);
    assert(pairs.len() == 1);
    assert(pairs.drop_last() =~= Seq::empty());
    assert(pairs.last() == pairs[0]);
    let m = st.visible().rows;
    assert(writing::assigned(m, seq![id], pairs.drop_last()) == m);
}

/// Updating rows at once is updating them in turn.
pub proof fn law_update_takes_rows_in_turn(
    st: StateView,
    handle: u32,
    txn: u32,
    table: Seq<char>,
    ids: Seq<i64>,
    more: Seq<i64>,
    a: Seq<Seq<DuckvalueView>>,
    b: Seq<Seq<DuckvalueView>>,
)
    requires
        ids.len() == a.len(),
        more.len() == b.len(),
        forall|i: int|
            0 <= i < a.len() ==> (#[trigger] a[i]).len() == 2 && !(a[i][0] is Other) && !(a[i][1]
                is Other),
    ensures
        writing::after_update(st, handle, txn, table, ids + more, a + b) == writing::after_update(
            writing::after_update(st, handle, txn, table, ids, a),
            handle,
            txn,
            table,
            more,
            b,
        ),
{
    lemma_stored_in_turn(a, b);
    writing::lemma_storable_bound(b);
    assert(a.take(a.len() as int) =~= a);
    lemma_assigned_in_turn(
        st.visible().rows,
        ids,
        more,
        writing::stored_pairs(a),
        writing::stored_pairs(b),
    );
}

/// An update does nothing from the first row on that has not two cells, each
/// text or NULL, nothing if there is no row, and nothing if it is refused.
pub proof fn law_update_stops_at_a_bad_row(
    st: StateView,
    handle: u32,
    txn: u32,
    table: Seq<char>,
    ids: Seq<i64>,
    given: Seq<Seq<DuckvalueView>>,
)
    requires
        ({
            ||| given.len() == 0
            ||| given[0].len() != 2
            ||| given[0][0] is Other
            ||| given[0][1] is Other
            ||| ids.len() != given.len()
            ||| handle != 1
            ||| st.active_txn != Some(txn)
            ||| !st.created
            ||| table != "kv_store"@
        }),
    ensures
        writing::after_update(st, handle, txn, table, ids, given) == st,
{
    if writing::update_refusal(st, handle, txn, table, ids.len(), given.len()) is None {
        law_rows_are_stored_up_to_the_first_bad_one(given);
        assert(writing::storable(given) == 0) by {
            if writing::storable(given) > 0 {
                assert(given[0].len() == 2);
            }
        }
        assert(writing::stored_pairs(given) =~= Seq::empty());
    }
}

/// What an update counts: with the rows counted, there are as many as there
/// were and as were given, for those not counted are new.
pub proof fn law_update_counts_what_is_not_new(m: Map<i64, Pair>, ids: Seq<i64>)
    requires
        m.dom().finite(),
    ensures
        m.dom().union(ids.to_set()).finite(),
        m.dom().union(ids.to_set()).len() + writing::already_there(m, ids) == m.dom().len()
            + ids.len(),
    decreases ids.len(),
{
    if ids.len() == 0 {
        assert(ids.to_set() =~= Set::empty());
        assert(m.dom().union(ids.to_set()) =~= m.dom());
    } else {
        let first = ids.drop_last();
        let last = ids.last();
        law_update_counts_what_is_not_new(m, first);
        let before = m.dom().union(first.to_set());
        let after = m.dom().union(ids.to_set());
        assert forall|id: i64| after.contains(id) <==> before.insert(last).contains(id) by {
            if ids.contains(id) {
                let i = choose|i: int| 0 <= i < ids.len() && ids[i] == id;
                if i < first.len() {
                    assert(first[i] == id);
                }
            }
            if first.contains(id) {
                let i = choose|i: int| 0 <= i < first.len() && first[i] == id;
                assert(ids[i] == id);
            }
            assert(ids[ids.len() - 1] == last);
        }
        assert(after =~= before.insert(last));
        assert(before.contains(last) <==> m.contains_key(last) || first.contains(last));
        if before.contains(last) {
            assert(before.insert(last) =~= before);
        }
    }
}

/// What is read back of an insert: a scan of all columns, without filters and
/// without a limit, returns after it what it returned before, and then the
/// very cells that were given.
pub proof fn law_insert_is_read_back_as_given(
    st: StateView,
    txn: u32,
    given: Seq<Seq<DuckvalueView>>,
    request: ScanRequestView,
)
    requires
        st.wf(),
        st.active_txn == Some(txn),
        st.created,
        laws::numbered(st.visible()),
        st.visible().next_rowid + given.len() <= i64::MAX,
        forall|i: int|
            0 <= i < given.len() ==> (#[trigger] given[i]).len() == 2 && given[i][0] is Text
                && given[i][1] is Text,
        request.table == "kv_store"@,
        request.projection.len() == 0,
        request.filters.len() == 0,
        request.limit is None,
    ensures
        ({
            let scan = if st.next_scan < u32::MAX {
                (st.next_scan + 1) as u32
            } else {
                1
            };
            let written = writing::after_insert(st, 1, txn, "kv_store"@, given);
            let before = reading::after_scan_open(st, 1, 1, request).scans[scan].rows;
            let after = reading::after_scan_open(written, 1, 1, request).scans[scan].rows;
            after == before + given
        }),
{
    answers::law_scans_of_the_created_table_are_accepted(st, 1, 1, request);
    lemma_stored_in_turn(given, Seq::empty());
    let pairs = writing::stored_pairs(given);
    assert(given.take(given.len() as int) =~= given);
    laws::law_scan_reads_back_insert(st, 1, 1, txn, given, request);
    let new_rows = laws::new_rows(st.visible().next_rowid, pairs);
    let keep = |r: Row| filter::passes_all(r.1, r.2, request.filters);
    lemma_all_kept(new_rows, keep);
    let old_rows = reading::kept_rows(st.visible().rows, request);
    let show = |r: Row|
        reading::project(r.1, r.2, reading::projected_columns(request.projection));
    assert forall|i: int| 0 <= i < given.len() implies show(new_rows[i]) == #[trigger] given[i] by {
        assert(show(new_rows[i]) =~= given[i]);
    }
    assert((old_rows + new_rows).map_values(show) =~= old_rows.map_values(show) + given);
}

/// A filter that every item passes leaves a list as it is.
proof fn lemma_all_kept<A>(s: Seq<A>, p: spec_fn(A) -> bool)
    requires
        forall|i: int| 0 <= i < s.len() ==> p(#[trigger] s[i]),
    ensures
        s.filter(p) == s,
    decreases s.len(),
{
    reveal(Seq::filter);
    if s.len() > 0 {
        let first = s.drop_last();
        assert forall|i: int| 0 <= i < first.len() implies p(#[trigger] first[i]) by {
            assert(first[i] == s[i]);
        }
        lemma_all_kept(first, p);
        assert(p(s[s.len() - 1]));
        assert(first.push(s.last()) =~= s);
    } else {
        assert(s.filter(p) =~= s);
    }
}

} // verus!
