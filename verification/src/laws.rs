//! What the backend promises of rows, filters and scans, over several calls.
use vstd::prelude::*;

use crate::checks;
use crate::checks::{HANDLE, TABLE_NAME};
use crate::filter;
use crate::history;
use crate::history::Call;
use crate::reading;
use crate::rows;
use crate::rows::{Pair, Row, RowsView};
use crate::state::{CursorView, StateView};
use crate::text;
use crate::types::{CompareOp, DuckvalueView, ScanFilterView, ScanRequestView};
use crate::writing;

verus! {

/// No row has a rowid above the last one given out.
pub open spec fn numbered(v: RowsView) -> bool {
    forall|id: i64| #[trigger] v.rows.contains_key(id) ==> id <= v.next_rowid
}

/// `pairs` as rows numbered from the rowid after `last` on.
pub open spec fn new_rows(last: i64, pairs: Seq<Pair>) -> Seq<Row> {
    Seq::new(pairs.len(), |i: int| ((last + 1 + i) as i64, pairs[i].0, pairs[i].1))
}

/// Inserted rows are listed after all others, in the order in which they were
/// given, under the rowids that follow the last one given out; no other row
/// changes.
pub proof fn law_insert_appends(v: RowsView, pairs: Seq<Pair>)
    requires
        v.wf(),
        numbered(v),
        v.next_rowid + pairs.len() <= i64::MAX,
    ensures
        rows::listing(writing::inserted(v, pairs).rows) == rows::listing(v.rows) + new_rows(
            v.next_rowid,
            pairs,
        ),
        writing::inserted(v, pairs).next_rowid == v.next_rowid + pairs.len(),
        writing::inserted(v, pairs).rows.dom().len() == v.rows.dom().len() + pairs.len(),
        numbered(writing::inserted(v, pairs)),
    decreases pairs.len(),
{
    let after = writing::inserted(v, pairs);
    if pairs.len() == 0 {
        assert(rows::listing(v.rows) + new_rows(v.next_rowid, pairs) =~= rows::listing(v.rows));
    } else {
        let first = pairs.drop_last();
        let before = writing::inserted(v, first);
        law_insert_appends(v, first);
        writing::lemma_inserted_wf(v, first);
        writing::lemma_inserted_wf(v, pairs);
        let id = writing::next_rowid(before.next_rowid);
        let s = rows::listing(before.rows);
        rows::lemma_listing(before.rows);
        rows::lemma_listing(after.rows);
        rows::lemma_listing_push(before.rows, s, id, pairs.last());
        rows::lemma_listing_unique(
            after.rows,
            rows::listing(after.rows),
            s.push((id, pairs.last().0, pairs.last().1)),
        );
        assert(rows::listing(after.rows) =~= rows::listing(v.rows) + new_rows(
            v.next_rowid,
            pairs,
        ));
    }
}

/// The rowids stay at or below the last one given out, as long as no update
/// puts a row above it and the counter has not started again from 1.
pub proof fn law_rowids_stay_numbered(st: StateView, call: Call)
    requires
        st.wf(),
        numbered(st.committed),
        numbered(st.visible()),
        call matches Call::Insert { handle, txn, table, rows } ==> (checks::write_refusal(
            st,
            handle,
            txn,
            table,
        ) is None ==> st.visible().next_rowid + writing::stored_pairs(rows).len() <= i64::MAX),
        call matches Call::Update { handle, txn, table, ids, rows } ==> (writing::update_refusal(
            st,
            handle,
            txn,
            table,
            ids.len(),
            rows.len(),
        ) is None ==> forall|i: int|
            0 <= i < writing::stored_pairs(rows).len() ==> #[trigger] ids[i]
                <= st.visible().next_rowid),
    ensures
        numbered(history::after(st, call).committed),
        numbered(history::after(st, call).visible()),
{
    let v = st.visible();
    match call {
        Call::Insert { handle, txn, table, rows } => {
            let pairs = writing::stored_pairs(rows);
            if checks::write_refusal(st, handle, txn, table) is None {
                law_insert_appends(v, pairs);
                assert(history::after(st, call).visible() == writing::inserted(v, pairs));
            }
        },
        Call::Update { handle, txn, table, ids, rows } => {
            let pairs = writing::stored_pairs(rows);
            if writing::update_refusal(st, handle, txn, table, ids.len(), rows.len()) is None {
                writing::lemma_storable_bound(rows);
                writing::lemma_assigned_dom(v.rows, ids, pairs);
                let named = ids.take(pairs.len() as int);
                let end = writing::assigned(v.rows, ids, pairs);
                assert forall|id: i64| #[trigger] end.contains_key(id) implies id
                    <= v.next_rowid by {
                    if !v.rows.contains_key(id) {
                        assert(named.contains(id));
                        let j = choose|j: int| 0 <= j < named.len() && named[j] == id;
                        assert(ids[j] == id);
                    }
                }
            }
        },
        _ => {},
    }
}

/// Deleting the rows that an insert has added leaves the rows as they were
/// before it.
pub proof fn law_delete_undoes_insert(v: RowsView, pairs: Seq<Pair>, ids: Set<i64>)
    requires
        v.wf(),
        numbered(v),
        v.next_rowid + pairs.len() <= i64::MAX,
        forall|id: i64| ids.contains(id) <==> v.next_rowid < id <= v.next_rowid + pairs.len(),
    ensures
        writing::inserted(v, pairs).rows.remove_keys(ids) == v.rows,
{
    lemma_inserted_rows(v, pairs);
    assert(writing::inserted(v, pairs).rows.remove_keys(ids) =~= v.rows);
}

/// Which rows there are after an insert.
proof fn lemma_inserted_rows(v: RowsView, pairs: Seq<Pair>)
    requires
        v.wf(),
        numbered(v),
        v.next_rowid + pairs.len() <= i64::MAX,
    ensures
        writing::inserted(v, pairs).next_rowid == v.next_rowid + pairs.len(),
        forall|id: i64|
            #![trigger writing::inserted(v, pairs).rows.contains_key(id)]
            writing::inserted(v, pairs).rows.contains_key(id) <==> v.rows.contains_key(id) || (
            v.next_rowid < id <= v.next_rowid + pairs.len()),
        forall|id: i64|
            v.rows.contains_key(id) ==> #[trigger] writing::inserted(v, pairs).rows[id]
                == v.rows[id],
    decreases pairs.len(),
{
    if pairs.len() > 0 {
        lemma_inserted_rows(v, pairs.drop_last());
    }
}

/// After a delete the rows are listed as before, without those deleted.
pub proof fn law_delete_removes(m: Map<i64, Pair>, ids: Set<i64>)
    requires
        m.dom().finite(),
    ensures
        rows::listing(m.remove_keys(ids)) == rows::listing(m).filter(
            |r: Row| !ids.contains(r.0),
        ),
{
    let p = |r: Row| !ids.contains(r.0);
    let rest = m.remove_keys(ids);
    assert(rest.dom() =~= m.dom().difference(ids));
    rows::lemma_listing(m);
    rows::lemma_listing(rest);
    lemma_filtered_listing(m, rows::listing(m), ids);
    rows::lemma_listing_unique(rest, rows::listing(rest), rows::listing(m).filter(p));
}

/// Leaving rows out of a listing lists the rows that are left.
proof fn lemma_filtered_listing(m: Map<i64, Pair>, s: Seq<Row>, ids: Set<i64>)
    requires
        rows::is_listing(m, s),
    ensures
        rows::is_listing(m.remove_keys(ids), s.filter(|r: Row| !ids.contains(r.0))),
    decreases s.len(),
{
    reveal(Seq::filter);
    let p = |r: Row| !ids.contains(r.0);
    if s.len() == 0 {
        assert forall|id: i64| !m.contains_key(id) by {}
        assert(rows::is_listing(m.remove_keys(ids), s));
    } else {
        let last = s.last();
        let id = last.0;
        let first = s.drop_last();
        let m1 = m.remove(id);
        assert(m.contains_pair(s[s.len() - 1].0, (last.1, last.2)));
        assert forall|i: int| 0 <= i < first.len() implies m1.contains_pair(
            #[trigger] first[i].0,
            (first[i].1, first[i].2),
        ) by {
            assert(m.contains_pair(s[i].0, (s[i].1, s[i].2)));
            assert(s[i].0 < s[s.len() - 1].0);
        }
        assert forall|x: i64| #[trigger] m1.contains_key(x) implies exists|i: int|
            0 <= i < first.len() && #[trigger] first[i].0 == x by {
            assert(m.contains_key(x));
            let i = choose|i: int| 0 <= i < s.len() && #[trigger] s[i].0 == x;
            assert(first[i].0 == x);
        }
        assert(rows::is_listing(m1, first));
        lemma_filtered_listing(m1, first, ids);
        if p(last) {
            assert forall|other: i64| #[trigger]
                m1.remove_keys(ids).contains_key(other) implies other < id by {
                assert(m1.contains_key(other));
                let i = choose|i: int| 0 <= i < first.len() && #[trigger] first[i].0 == other;
                assert(s[i].0 < s[s.len() - 1].0);
            }
            rows::lemma_listing_push(m1.remove_keys(ids), first.filter(p), id, (last.1, last.2));
            assert(m1.remove_keys(ids).insert(id, (last.1, last.2)) =~= m.remove_keys(ids));
        } else {
            assert(m1.remove_keys(ids) =~= m.remove_keys(ids));
        }
    }
}

/// A delete leaves as many rows fewer as it says.
pub proof fn law_delete_counts(m: Map<i64, Pair>, ids: Set<i64>)
    requires
        m.dom().finite(),
    ensures
        m.dom().len() == m.remove_keys(ids).dom().len() + m.dom().intersect(ids).len(),
{
    let gone = m.dom().intersect(ids);
    let left = m.remove_keys(ids).dom();
    assert(left =~= m.dom().difference(ids));
    assert(gone + left =~= m.dom());
    vstd::set_lib::lemma_set_disjoint_lens(gone, left);
}

/// Of the rows that an update puts, those that it does not say to have
/// replaced a row are new.
pub proof fn law_update_counts(m: Map<i64, Pair>, ids: Seq<i64>, pairs: Seq<Pair>)
    requires
        m.dom().finite(),
        pairs.len() <= ids.len(),
    ensures
        writing::assigned(m, ids, pairs).dom().len() + writing::already_there(
            m,
            ids.take(pairs.len() as int),
        ) == m.dom().len() + pairs.len(),
    decreases pairs.len(),
{
    let n = pairs.len() as int;
    if n == 0 {
        assert(ids.take(0) =~= Seq::empty());
    } else {
        let before = writing::assigned(m, ids, pairs.drop_last());
        let earlier = ids.take(n - 1);
        law_update_counts(m, ids, pairs.drop_last());
        writing::lemma_assigned_finite(m, ids, pairs.drop_last());
        writing::lemma_assigned_dom(m, ids, pairs.drop_last());
        assert(ids.take(n).drop_last() =~= earlier);
        assert(ids.take(n).last() == ids[n - 1]);
        assert(before.contains_key(ids[n - 1]) <==> m.contains_key(ids[n - 1]) || earlier.contains(
            ids[n - 1],
        ));
        if before.contains_key(ids[n - 1]) {
            assert(before.dom().insert(ids[n - 1]) =~= before.dom());
        }
    }
}

/// An update of rows that are all there counts them all and adds none.
pub proof fn law_update_of_present_rows(m: Map<i64, Pair>, ids: Seq<i64>, pairs: Seq<Pair>)
    requires
        pairs.len() == ids.len(),
        forall|i: int| 0 <= i < ids.len() ==> m.contains_key(#[trigger] ids[i]),
    ensures
        writing::already_there(m, ids) == ids.len(),
        writing::assigned(m, ids, pairs).dom() == m.dom(),
    decreases ids.len(),
{
    if ids.len() > 0 {
        let n = ids.len() - 1;
        let fewer = ids.drop_last();
        assert forall|i: int| 0 <= i < fewer.len() implies m.contains_key(#[trigger] fewer[i]) by {
            assert(fewer[i] == ids[i]);
        }
        law_update_of_present_rows(m, fewer, pairs.drop_last());
        assert(m.contains_key(ids[n]));
        writing::lemma_assigned_dom(m, ids, pairs);
        assert(ids.take(pairs.len() as int) =~= ids);
        assert(writing::assigned(m, ids, pairs).dom() =~= m.dom());
    }
}

/// After an update every rowid that it names holds the last row given for it,
/// and every other row is as it was.
pub proof fn law_update_assigns(m: Map<i64, Pair>, ids: Seq<i64>, pairs: Seq<Pair>)
    requires
        pairs.len() <= ids.len(),
    ensures
        forall|i: int|
            #![trigger ids[i]]
            0 <= i < pairs.len() && (forall|j: int| i < j < pairs.len() ==> ids[j] != ids[i])
                ==> writing::assigned(m, ids, pairs).contains_pair(ids[i], pairs[i]),
        forall|id: i64|
            (forall|j: int| 0 <= j < pairs.len() ==> ids[j] != id) ==> {
                &&& #[trigger] writing::assigned(m, ids, pairs).contains_key(id)
                    <==> m.contains_key(id)
                &&& writing::assigned(m, ids, pairs)[id] == m[id]
            },
    decreases pairs.len(),
{
    let after = writing::assigned(m, ids, pairs);
    if pairs.len() > 0 {
        let n = pairs.len() - 1;
        let first = pairs.drop_last();
        let before = writing::assigned(m, ids, first);
        law_update_assigns(m, ids, first);
        assert forall|i: int|
            #![trigger ids[i]]
            0 <= i < pairs.len() && (forall|j: int|
                i < j < pairs.len() ==> ids[j] != ids[i]) implies after.contains_pair(
            ids[i],
            pairs[i],
        ) by {
            if i < n {
                assert(ids[n] != ids[i]);
                assert(before.contains_pair(ids[i], first[i]));
            }
        }
        assert forall|id: i64|
            (forall|j: int| 0 <= j < pairs.len() ==> ids[j] != id) implies {
            &&& #[trigger] after.contains_key(id) <==> m.contains_key(id)
            &&& after[id] == m[id]
        } by {
            assert(ids[n] != id);
            assert(before.contains_key(id) <==> m.contains_key(id));
        }
    }
}

/// Within a transaction a read sees the pending writes, and the committed rows
/// do not.
pub proof fn law_reads_see_pending_writes(
    st: StateView,
    handle: u32,
    txn: u32,
    table: Seq<char>,
    ids: Seq<i64>,
    given: Seq<Seq<DuckvalueView>>,
)
    requires
        st.wf(),
        checks::write_refusal(st, handle, txn, table) is None,
    ensures
        ({
            let end = writing::after_insert(st, handle, txn, table, given);
            &&& end.visible() == writing::inserted(st.visible(), writing::stored_pairs(given))
            &&& end.committed == st.committed
        }),
        ({
            let end = writing::after_delete(st, handle, txn, table, ids);
            &&& end.visible().rows == st.visible().rows.remove_keys(ids.to_set())
            &&& end.committed == st.committed
        }),
        ids.len() == given.len() ==> ({
            let end = writing::after_update(st, handle, txn, table, ids, given);
            &&& end.visible().rows == writing::assigned(
                st.visible().rows,
                ids,
                writing::stored_pairs(given),
            )
            &&& end.committed == st.committed
        }),
{
}

/// What a scan reads back of an insert: opened after it, and up to its limit,
/// it returns the rows that passed its filters before, and then those of the
/// new rows that pass them, in the order in which they were given.
pub proof fn law_scan_reads_back_insert(
    st: StateView,
    handle: u32,
    catalog: u32,
    txn: u32,
    given: Seq<Seq<DuckvalueView>>,
    request: ScanRequestView,
)
    requires
        st.wf(),
        checks::write_refusal(st, handle, txn, request.table) is None,
        reading::scan_refusal(st, handle, catalog, request) is None,
        numbered(st.visible()),
        st.visible().next_rowid + writing::stored_pairs(given).len() <= i64::MAX,
    ensures
        ({
            let pairs = writing::stored_pairs(given);
            let written = writing::after_insert(st, handle, txn, request.table, given);
            let opened = reading::after_scan_open(written, handle, catalog, request);
            let cursor = opened.scans[reading::next_handle(st.next_scan)];
            &&& opened.scans.contains_key(reading::next_handle(st.next_scan))
            &&& cursor.pos == 0
            &&& cursor.rows == reading::limited(
                reading::kept_rows(st.visible().rows, request) + new_rows(
                    st.visible().next_rowid,
                    pairs,
                ).filter(|r: Row| filter::passes_all(r.1, r.2, request.filters)),
                request.limit,
            ).map_values(
                |r: Row|
                    reading::project(r.1, r.2, reading::projected_columns(request.projection)),
            )
        }),
{
    let v = st.visible();
    let pairs = writing::stored_pairs(given);
    let keep = |r: Row| filter::passes_all(r.1, r.2, request.filters);
    law_insert_appends(v, pairs);
    Seq::filter_distributes_over_add(rows::listing(v.rows), new_rows(v.next_rowid, pairs), keep);
}

/// A scan of all columns, without a limit, returns a key and value exactly if
/// some visible row holds them and passes all filters.
pub proof fn law_scan_returns_what_passes(
    m: Map<i64, Pair>,
    request: ScanRequestView,
    k: Seq<char>,
    v: Seq<char>,
)
    requires
        m.dom().finite(),
        request.limit is None,
        request.projection.len() == 0,
    ensures
        reading::scanned(m, request).contains(
            seq![DuckvalueView::Text(k), DuckvalueView::Text(v)],
        ) <==> (exists|id: i64| #[trigger]
            m.contains_key(id) && m[id] == (k, v)) && filter::passes_all(k, v, request.filters),
{
    rows::lemma_listing(m);
    let list = rows::listing(m);
    let keep = |r: Row| filter::passes_all(r.1, r.2, request.filters);
    let kept = list.filter(keep);
    let found = reading::scanned(m, request);
    let want = seq![DuckvalueView::Text(k), DuckvalueView::Text(v)];
    let cols = reading::projected_columns(request.projection);
    assert forall|r: Row|
        reading::project(r.1, r.2, cols) == seq![
            DuckvalueView::Text(r.1),
            DuckvalueView::Text(r.2),
        ] by {
        assert(reading::project(r.1, r.2, cols) =~= seq![
            DuckvalueView::Text(r.1),
            DuckvalueView::Text(r.2),
        ]);
    }
    if found.contains(want) {
        let i = choose|i: int| 0 <= i < found.len() && found[i] == want;
        let r = kept[i];
        assert(found[i] == reading::project(r.1, r.2, cols));
        assert(want[0] == DuckvalueView::Text(r.1) && want[1] == DuckvalueView::Text(r.2));
        assert(kept.contains(r));
        list.lemma_filter_contains_rev(keep, r);
        list.lemma_filter_pred(keep, i);
        let j = choose|j: int| 0 <= j < list.len() && list[j] == r;
        assert(m.contains_pair(list[j].0, (list[j].1, list[j].2)));
        assert(m.contains_key(r.0) && m[r.0] == (k, v));
    }
    if (exists|id: i64| #[trigger] m.contains_key(id) && m[id] == (k, v)) && filter::passes_all(
        k,
        v,
        request.filters,
    ) {
        let id = choose|id: i64| #[trigger] m.contains_key(id) && m[id] == (k, v);
        let j = choose|j: int| 0 <= j < list.len() && #[trigger] list[j].0 == id;
        assert(m.contains_pair(list[j].0, (list[j].1, list[j].2)));
        assert(keep(list[j]));
        list.lemma_filter_contains(keep, j);
        let i = choose|i: int| 0 <= i < kept.len() && kept[i] == list[j];
        assert(found[i] == want);
    }
}

/// A limit cuts a scan short and changes nothing else: what comes is what
/// would come first without it, as many rows as the limit says, or one if it
/// says none.
pub proof fn law_limit_keeps_the_first(m: Map<i64, Pair>, request: ScanRequestView, n: u64)
    requires
        request.limit is None,
    ensures
        ({
            let all = reading::scanned(m, request);
            let some = reading::scanned(m, ScanRequestView { limit: Some(n), ..request });
            let budget = reading::row_budget(n as usize);
            &&& some.len() == (if all.len() <= budget {
                all.len()
            } else {
                budget
            })
            &&& some == all.take(some.len() as int)
        }),
{
    let all = reading::scanned(m, request);
    let some = reading::scanned(m, ScanRequestView { limit: Some(n), ..request });
    assert(some =~= all.take(some.len() as int));
}

/// A scan returns text in every cell, one cell for each column asked for.
pub proof fn law_scan_returns_text(m: Map<i64, Pair>, request: ScanRequestView, i: int, j: int)
    requires
        0 <= i < reading::scanned(m, request).len(),
    ensures
        reading::scanned(m, request)[i].len() == reading::projected_columns(
            request.projection,
        ).len(),
        0 <= j < reading::scanned(m, request)[i].len() ==> reading::scanned(m, request)[i][j]
            is Text,
{
}

/// The state after fetching from a scan in turn, each time at most so many
/// rows.
pub open spec fn after_fetches(st: StateView, scan: u32, sizes: Seq<u32>) -> StateView
    decreases sizes.len(),
{
    if sizes.len() == 0 {
        st
    } else {
        reading::after_scan_next(
            after_fetches(st, scan, sizes.drop_last()),
            HANDLE,
            scan,
            sizes.last(),
        )
    }
}

/// All rows that fetching from a scan in turn hands out.
pub open spec fn fetched(st: StateView, scan: u32, sizes: Seq<u32>) -> Seq<Seq<DuckvalueView>>
    decreases sizes.len(),
{
    if sizes.len() == 0 {
        Seq::empty()
    } else {
        fetched(st, scan, sizes.drop_last()) + reading::batch(
            after_fetches(st, scan, sizes.drop_last()).scans[scan],
            sizes.last(),
        )
    }
}

/// How many rows are asked for in all.
pub open spec fn total(sizes: Seq<u32>) -> nat
    decreases sizes.len(),
{
    if sizes.len() == 0 {
        0
    } else {
        total(sizes.drop_last()) + sizes.last() as nat
    }
}

/// Fetching from a scan hands out its rows in order, each once, until as many
/// have come as were asked for or none is left.
pub proof fn law_fetches_hand_out_in_order(st: StateView, scan: u32, sizes: Seq<u32>)
    requires
        st.scans.contains_key(scan),
        st.scans[scan].wf(),
    ensures
        ({
            let c = st.scans[scan];
            let end = if c.pos + total(sizes) <= c.rows.len() {
                c.pos + total(sizes)
            } else {
                c.rows.len()
            };
            &&& fetched(st, scan, sizes) == c.rows.subrange(c.pos as int, end as int)
            &&& after_fetches(st, scan, sizes) == (StateView {
                scans: st.scans.insert(scan, CursorView { pos: end, ..c }),
                ..st
            })
        }),
    decreases sizes.len(),
{
    let c = st.scans[scan];
    if sizes.len() == 0 {
        assert(st.scans.insert(scan, c) =~= st.scans);
        assert(fetched(st, scan, sizes) =~= c.rows.subrange(c.pos as int, c.pos as int));
    } else {
        let first = sizes.drop_last();
        law_fetches_hand_out_in_order(st, scan, first);
        let before = after_fetches(st, scan, first);
        let after = after_fetches(st, scan, sizes);
        let mid = before.scans[scan].pos;
        let end = after.scans[scan].pos;
        assert(after.scans =~= st.scans.insert(scan, CursorView { pos: end, ..c }));
        assert(c.rows.subrange(c.pos as int, mid as int) + c.rows.subrange(mid as int, end as int)
            =~= c.rows.subrange(c.pos as int, end as int));
    }
}

/// Fetching from a new scan, if enough is asked for, hands out exactly the
/// rows that were found when it was opened.
pub proof fn law_fetches_hand_out_all(
    st: StateView,
    handle: u32,
    catalog: u32,
    request: ScanRequestView,
    sizes: Seq<u32>,
)
    requires
        reading::scan_refusal(st, handle, catalog, request) is None,
        total(sizes) >= reading::scanned(st.visible().rows, request).len(),
    ensures
        fetched(
            reading::after_scan_open(st, handle, catalog, request),
            reading::next_handle(st.next_scan),
            sizes,
        ) == reading::scanned(st.visible().rows, request),
{
    let opened = reading::after_scan_open(st, handle, catalog, request);
    let all = reading::scanned(st.visible().rows, request);
    law_fetches_hand_out_in_order(opened, reading::next_handle(st.next_scan), sizes);
    assert(all.subrange(0, all.len() as int) =~= all);
}

/// The filter `op value` on `column`.
pub open spec fn filter_on(column: u32, op: CompareOp, value: DuckvalueView) -> ScanFilterView {
    ScanFilterView { column, op, value }
}

/// On a column of the table, compared with text, a row passes a filter exactly
/// if it does not pass the opposite one.
pub proof fn law_opposite_filters(k: Seq<char>, v: Seq<char>, column: u32, t: Seq<char>)
    requires
        column < 2,
    ensures
        ({
            let holds = |op: CompareOp|
                filter::passes(k, v, filter_on(column, op, DuckvalueView::Text(t)));
            &&& holds(CompareOp::Eq) <==> !holds(CompareOp::Ne)
            &&& holds(CompareOp::Lt) <==> !holds(CompareOp::Ge)
            &&& holds(CompareOp::Gt) <==> !holds(CompareOp::Le)
            &&& holds(CompareOp::IsNull) <==> !holds(CompareOp::IsNotNull)
            &&& holds(CompareOp::Le) <==> holds(CompareOp::Lt) || holds(CompareOp::Eq)
            &&& holds(CompareOp::Ge) <==> holds(CompareOp::Gt) || holds(CompareOp::Eq)
        }),
{
    text::law_text_order_is_total(filter::cell(k, v, column)->0, t);
}

/// A filter that cannot be evaluated lets every row pass: one on an unknown
/// column, and a comparison with a value that is not text.
pub proof fn law_unknown_filters_pass(k: Seq<char>, v: Seq<char>, f: ScanFilterView)
    requires
        f.column >= 2 || (!(f.value is Text) && !(f.op is IsNull)),
    ensures
        filter::passes(k, v, f),
{
}

/// No cell is NULL: `IS NULL` passes no row and `IS NOT NULL` every one,
/// whatever stands on the right.
pub proof fn law_no_cell_is_null(
    k: Seq<char>,
    v: Seq<char>,
    column: u32,
    value: DuckvalueView,
)
    requires
        column < 2,
    ensures
        !filter::passes(k, v, filter_on(column, CompareOp::IsNull, value)),
        filter::passes(k, v, filter_on(column, CompareOp::IsNotNull, value)),
{
}

/// NULL is stored as empty text: a row with NULL in a cell leaves the same
/// state as the row with empty text there.
pub proof fn law_null_is_stored_as_empty(v: DuckvalueView)
    ensures
        ({
            let empty = DuckvalueView::Text(Seq::empty());
            &&& writing::stored_pair(seq![DuckvalueView::Null, v]) == writing::stored_pair(
                seq![empty, v],
            )
            &&& writing::stored_pair(seq![v, DuckvalueView::Null]) == writing::stored_pair(
                seq![v, empty],
            )
        }),
{
}

/// From its creation on, whatever else is called, the table is listed and
/// described, and a scan of it is refused for its handles or its projection
/// alone.
pub proof fn law_created_table_is_served(
    st: StateView,
    create: Call,
    calls: Seq<Call>,
    handle: u32,
    catalog: u32,
    request: ScanRequestView,
)
    requires
        history::creates_table(st, create),
        request.table == TABLE_NAME@,
    ensures
        ({
            let end = history::run(history::after(st, create), calls);
            &&& reading::listed_tables(end) == seq![TABLE_NAME@]
            &&& reading::described_columns(end, TABLE_NAME@) == reading::schema()
            &&& reading::scan_refusal(end, handle, catalog, request) == (
            match checks::catalog_refusal(handle, catalog) {
                Some(why) => Some(why),
                None => reading::projection_refusal(request.projection),
            })
        }),
{
    history::law_table_stays(history::after(st, create), calls);
}

/// Before its creation the table is not listed, has no columns and cannot be
/// scanned, and of any other name that holds in every state.
pub proof fn law_nothing_else_is_served(
    st: StateView,
    handle: u32,
    catalog: u32,
    request: ScanRequestView,
)
    requires
        !st.created || request.table != TABLE_NAME@,
    ensures
        !reading::listed_tables(st).contains(request.table),
        reading::described_columns(st, request.table).len() == 0,
        reading::scan_refusal(st, handle, catalog, request) is Some,
{
}

} // verus!
