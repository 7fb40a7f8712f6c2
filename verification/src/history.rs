//! Histories: the calls that change the state, one after another.
use vstd::prelude::*;

use crate::checks;
use crate::reading;
use crate::state::StateView;
use crate::types::{DuckvalueView, ScanRequestView};
use crate::writing;

verus! {

/// A call that may change the state, with its arguments.
pub enum Call {
    /// `storage_attach`
    Attach { handle: u32 },
    /// `storage_detach`
    Detach { handle: u32, catalog: u32 },
    /// `storage_scan_open`
    ScanOpen { handle: u32, catalog: u32, request: ScanRequestView },
    /// `storage_scan_next`
    ScanNext { handle: u32, scan: u32, max_rows: u32 },
    /// `storage_scan_close`
    ScanClose { handle: u32, scan: u32 },
    /// `begin_transaction`
    Begin { handle: u32, catalog: u32 },
    /// `commit_transaction`
    Commit { handle: u32, txn: u32 },
    /// `rollback_transaction`
    Rollback { handle: u32, txn: u32 },
    /// `create_table`
    CreateTable { handle: u32, txn: u32, table: Seq<char> },
    /// `insert_rows`
    Insert { handle: u32, txn: u32, table: Seq<char>, rows: Seq<Seq<DuckvalueView>> },
    /// `delete_rows`
    Delete { handle: u32, txn: u32, table: Seq<char>, ids: Seq<i64> },
    /// `update_rows`
    Update {
        handle: u32,
        txn: u32,
        table: Seq<char>,
        ids: Seq<i64>,
        rows: Seq<Seq<DuckvalueView>>,
    },
}

/// The state after one call.
pub open spec fn after(st: StateView, call: Call) -> StateView {
    match call {
        Call::Attach { handle } => reading::after_attach(st, handle),
        Call::Detach { handle, catalog } => reading::after_detach(st, handle, catalog),
        Call::ScanOpen { handle, catalog, request } => reading::after_scan_open(
            st,
            handle,
            catalog,
            request,
        ),
        Call::ScanNext { handle, scan, max_rows } => reading::after_scan_next(
            st,
            handle,
            scan,
            max_rows,
        ),
        Call::ScanClose { handle, scan } => reading::after_scan_close(st, handle, scan),
        Call::Begin { handle, catalog } => writing::after_begin(st, handle, catalog),
        Call::Commit { handle, txn } => writing::after_commit(st, handle, txn),
        Call::Rollback { handle, txn } => writing::after_rollback(st, handle, txn),
        Call::CreateTable { handle, txn, table } => writing::after_create(st, handle, txn, table),
        Call::Insert { handle, txn, table, rows } => writing::after_insert(
            st,
            handle,
            txn,
            table,
            rows,
        ),
        Call::Delete { handle, txn, table, ids } => writing::after_delete(
            st,
            handle,
            txn,
            table,
            ids,
        ),
        Call::Update { handle, txn, table, ids, rows } => writing::after_update(
            st,
            handle,
            txn,
            table,
            ids,
            rows,
        ),
    }
}

/// The state after a history of calls, the first one first.
pub open spec fn run(st: StateView, calls: Seq<Call>) -> StateView
    decreases calls.len(),
{
    if calls.len() == 0 {
        st
    } else {
        after(run(st, calls.drop_last()), calls.last())
    }
}

/// The call, made in the state `st`, ends the open transaction.
pub open spec fn ends_transaction(st: StateView, call: Call) -> bool {
    match call {
        Call::Commit { handle, txn } => checks::transaction_refusal(st, handle, txn) is None,
        Call::Rollback { handle, txn } => checks::transaction_refusal(st, handle, txn) is None,
        _ => false,
    }
}

/// None of the calls, made from the state `st` on, ends a transaction.
pub open spec fn none_ends_transaction(st: StateView, calls: Seq<Call>) -> bool {
    forall|i: int|
        0 <= i < calls.len() ==> !ends_transaction(run(st, calls.take(i)), #[trigger] calls[i])
}

/// The call, made in the state `st`, begins a transaction.
pub open spec fn begins_transaction(st: StateView, call: Call) -> bool {
    match call {
        Call::Begin { handle, catalog } => writing::begin_refusal(st, handle, catalog) is None,
        _ => false,
    }
}

/// None of the calls, made from the state `st` on, begins a transaction.
pub open spec fn none_begins_transaction(st: StateView, calls: Seq<Call>) -> bool {
    forall|i: int|
        0 <= i < calls.len() ==> !begins_transaction(run(st, calls.take(i)), #[trigger] calls[i])
}

/// The state after the transaction `txn` is ended, by a commit or a rollback.
pub open spec fn after_end(st: StateView, handle: u32, txn: u32, commits: bool) -> StateView {
    if commits {
        writing::after_commit(st, handle, txn)
    } else {
        writing::after_rollback(st, handle, txn)
    }
}

/// The call is one of the read side.
pub open spec fn reads(call: Call) -> bool {
    call is Attach || call is Detach || call is ScanOpen || call is ScanNext || call is ScanClose
}

/// The call, made in the state `st`, closes the scan `id` or opens another in
/// its place.
pub open spec fn drops_scan(st: StateView, call: Call, id: u32) -> bool {
    match call {
        Call::ScanOpen { handle, catalog, request } => reading::scan_refusal(
            st,
            handle,
            catalog,
            request,
        ) is None && reading::next_handle(st.next_scan) == id,
        Call::ScanClose { handle, scan } => checks::handle_refusal(handle) is None && scan == id,
        _ => false,
    }
}

/// The call, made in the state `st`, changes the scan `id`: it fetches from it
/// or closes it, or opens another in its place.
pub open spec fn touches_scan(st: StateView, call: Call, id: u32) -> bool {
    match call {
        Call::ScanNext { handle, scan, .. } => checks::handle_refusal(handle) is None && scan
            == id,
        _ => drops_scan(st, call, id),
    }
}

/// The call, made in the state `st`, opens a scan after the one with the
/// greatest handle, so that the scan handles start again from 1.
pub open spec fn restarts_scan_handles(st: StateView, call: Call) -> bool {
    match call {
        Call::ScanOpen { handle, catalog, request } => reading::scan_refusal(
            st,
            handle,
            catalog,
            request,
        ) is None && st.next_scan == u32::MAX,
        _ => false,
    }
}

/// No open scan has a handle above the last one given out.
pub open spec fn scans_numbered(st: StateView) -> bool {
    forall|id: u32| #[trigger] st.scans.contains_key(id) ==> id <= st.next_scan
}

/// The call attaches the catalog.
pub open spec fn attaches(call: Call) -> bool {
    match call {
        Call::Attach { handle } => checks::handle_refusal(handle) is None,
        _ => false,
    }
}

/// The call detaches the catalog.
pub open spec fn detaches(call: Call) -> bool {
    match call {
        Call::Detach { handle, catalog } => checks::catalog_refusal(handle, catalog) is None,
        _ => false,
    }
}

/// None of the calls from the index `start` on detaches the catalog.
pub open spec fn none_detaches(calls: Seq<Call>, start: int) -> bool {
    forall|i: int| start <= i < calls.len() ==> !detaches(#[trigger] calls[i])
}

/// The call, made in the state `st`, creates the table.
pub open spec fn creates_table(st: StateView, call: Call) -> bool {
    match call {
        Call::CreateTable { handle, txn, table } => writing::create_refusal(
            st,
            handle,
            txn,
            table,
        ) is None,
        _ => false,
    }
}

/// The call, made in the state `st`, begins a transaction after the one with
/// the greatest handle, so that the handles start again from 1.
pub open spec fn restarts_handles(st: StateView, call: Call) -> bool {
    begins_transaction(st, call) && st.next_txn == u32::MAX
}

/// None of the calls, made from the state `st` on, starts the transaction
/// handles again.
pub open spec fn none_restarts_handles(st: StateView, calls: Seq<Call>) -> bool {
    forall|i: int|
        0 <= i < calls.len() ==> !restarts_handles(run(st, calls.take(i)), #[trigger] calls[i])
}

/// Every state that calls lead to from a well-formed one is well-formed.
pub proof fn law_calls_keep_wf(st: StateView, calls: Seq<Call>)
    requires
        st.wf(),
    ensures
        run(st, calls).wf(),
    decreases calls.len(),
{
    if calls.len() > 0 {
        law_calls_keep_wf(st, calls.drop_last());
        lemma_call_keeps_wf(run(st, calls.drop_last()), calls.last());
    }
}

/// One call keeps a state well-formed.
proof fn lemma_call_keeps_wf(st: StateView, call: Call)
    requires
        st.wf(),
    ensures
        after(st, call).wf(),
{
    let v = st.visible();
    match call {
        Call::Insert { rows, .. } => {
            writing::lemma_inserted_wf(v, writing::stored_pairs(rows));
        },
        Call::Update { ids, rows, .. } => {
            writing::lemma_assigned_finite(v.rows, ids, writing::stored_pairs(rows));
        },
        Call::Delete { ids, .. } => {
            assert(v.rows.remove_keys(ids.to_set()).dom() =~= v.rows.dom().difference(
                ids.to_set(),
            ));
        },
        _ => {},
    }
}

/// The committed rows change by a commit alone, and by none that is refused.
pub proof fn law_only_commit_changes_committed(st: StateView, call: Call)
    requires
        st.wf(),
        !(call is Commit && ends_transaction(st, call)),
    ensures
        after(st, call).committed == st.committed,
{
}

/// Reads change no row, neither a committed one nor one of the open
/// transaction.
pub proof fn law_reads_change_no_rows(st: StateView, call: Call)
    requires
        reads(call),
    ensures
        after(st, call).committed == st.committed,
        after(st, call).shadow == st.shadow,
        after(st, call).active_txn == st.active_txn,
        after(st, call).created == st.created,
{
}

/// Until it ends, a transaction stays open under its handle, and the committed
/// rows stay as they were. A commit or rollback that is refused ends nothing.
pub proof fn law_transaction_stays_open(st: StateView, calls: Seq<Call>)
    requires
        st.wf(),
        st.active_txn is Some,
        none_ends_transaction(st, calls),
    ensures
        run(st, calls).active_txn == st.active_txn,
        run(st, calls).committed == st.committed,
    decreases calls.len(),
{
    if calls.len() > 0 {
        let n = calls.len() - 1;
        let first = calls.drop_last();
        assert forall|i: int| 0 <= i < first.len() implies !ends_transaction(
            run(st, first.take(i)),
            #[trigger] first[i],
        ) by {
            assert(first[i] == calls[i]);
            assert(first.take(i) =~= calls.take(i));
        }
        law_transaction_stays_open(st, first);
        law_calls_keep_wf(st, first);
        assert(calls.take(n) =~= first);
        assert(!ends_transaction(run(st, calls.take(n)), calls[n]));
    }
}

/// A rollback undoes all that was done to the rows since the transaction
/// began, whatever it was: what a read sees is what was committed before.
pub proof fn law_rollback_restores(st: StateView, handle: u32, catalog: u32, calls: Seq<Call>)
    requires
        st.wf(),
        writing::begin_refusal(st, handle, catalog) is None,
        none_ends_transaction(writing::after_begin(st, handle, catalog), calls),
    ensures
        ({
            let txn = reading::next_handle(st.next_txn);
            let worked = run(writing::after_begin(st, handle, catalog), calls);
            let end = writing::after_rollback(worked, handle, txn);
            &&& checks::transaction_refusal(worked, handle, txn) is None
            &&& end.committed == st.committed
            &&& end.visible() == st.visible()
            &&& end.active_txn is None
        }),
{
    let begun = writing::after_begin(st, handle, catalog);
    lemma_call_keeps_wf(st, Call::Begin { handle, catalog });
    law_transaction_stays_open(begun, calls);
}

/// A commit makes permanent what the transaction saw: a read sees the same
/// rows before and after it, and they are then the committed ones.
pub proof fn law_commit_publishes(st: StateView, handle: u32, txn: u32)
    requires
        checks::transaction_refusal(st, handle, txn) is None,
    ensures
        ({
            let end = writing::after_commit(st, handle, txn);
            &&& end.committed == st.visible()
            &&& end.visible() == st.visible()
            &&& end.active_txn is None
        }),
{
}

/// A transaction begins with the committed rows in sight.
pub proof fn law_begin_sees_committed(st: StateView, handle: u32, catalog: u32)
    requires
        st.wf(),
        writing::begin_refusal(st, handle, catalog) is None,
    ensures
        writing::after_begin(st, handle, catalog).visible() == st.committed,
        writing::after_begin(st, handle, catalog).visible() == st.visible(),
{
}

/// While a transaction is open, no other can be opened.
pub proof fn law_one_transaction_at_a_time(st: StateView, handle: u32, catalog: u32)
    requires
        writing::begin_refusal(st, handle, catalog) is None,
    ensures
        writing::begin_refusal(writing::after_begin(st, handle, catalog), handle, catalog) == Some(
            writing::nested_txn(),
        ),
{
}

/// After a transaction has ended, its handle is refused until another begins.
pub proof fn law_ended_transaction_is_refused(
    st: StateView,
    handle: u32,
    txn: u32,
    commits: bool,
    calls: Seq<Call>,
)
    requires
        checks::transaction_refusal(st, handle, txn) is None,
        none_begins_transaction(after_end(st, handle, txn, commits), calls),
    ensures
        checks::transaction_refusal(
            run(after_end(st, handle, txn, commits), calls),
            handle,
            txn,
        ) == Some(checks::no_txn(txn)),
{
    lemma_no_transaction_without_begin(after_end(st, handle, txn, commits), calls);
}

/// The transaction that begins next after one has ended, by a commit or by a
/// rollback, has the handle that follows, also after the greatest; it is not 0,
/// and the handle of the one that ended is refused in it.
pub proof fn law_next_transaction_has_another_handle(
    st: StateView,
    handle: u32,
    catalog: u32,
    txn: u32,
    commits: bool,
    calls: Seq<Call>,
)
    requires
        st.wf(),
        checks::transaction_refusal(st, handle, txn) is None,
        checks::catalog_refusal(handle, catalog) is None,
        none_begins_transaction(after_end(st, handle, txn, commits), calls),
    ensures
        ({
            let next = reading::next_handle(txn);
            let ended = run(after_end(st, handle, txn, commits), calls);
            let begun = writing::after_begin(ended, handle, catalog);
            &&& begun.active_txn == Some(next)
            &&& next != 0
            &&& txn < u32::MAX ==> next == txn + 1
            &&& checks::transaction_refusal(begun, handle, txn) == Some(
                checks::other_txn(txn, next),
            )
        }),
{
    lemma_no_transaction_without_begin(after_end(st, handle, txn, commits), calls);
}

/// No transaction is opened but by a begin, and no handle given out.
proof fn lemma_no_transaction_without_begin(st: StateView, calls: Seq<Call>)
    requires
        st.active_txn is None,
        none_begins_transaction(st, calls),
    ensures
        run(st, calls).active_txn is None,
        run(st, calls).next_txn == st.next_txn,
    decreases calls.len(),
{
    if calls.len() > 0 {
        let n = calls.len() - 1;
        let first = calls.drop_last();
        assert forall|i: int| 0 <= i < first.len() implies !begins_transaction(
            run(st, first.take(i)),
            #[trigger] first[i],
        ) by {
            assert(first[i] == calls[i]);
            assert(first.take(i) =~= calls.take(i));
        }
        lemma_no_transaction_without_begin(st, first);
        assert(calls.take(n) =~= first);
        assert(!begins_transaction(run(st, calls.take(n)), calls[n]));
    }
}

/// The transaction counter is monotonic: whatever is called, it does not go
/// back, as long as the handles do not start again after the greatest.
pub proof fn law_transaction_counter_is_monotonic(st: StateView, calls: Seq<Call>)
    requires
        none_restarts_handles(st, calls),
    ensures
        run(st, calls).next_txn >= st.next_txn,
    decreases calls.len(),
{
    if calls.len() > 0 {
        let n = calls.len() - 1;
        let first = calls.drop_last();
        assert forall|i: int| 0 <= i < first.len() implies !restarts_handles(
            run(st, first.take(i)),
            #[trigger] first[i],
        ) by {
            assert(first[i] == calls[i]);
            assert(first.take(i) =~= calls.take(i));
        }
        law_transaction_counter_is_monotonic(st, first);
        assert(calls.take(n) =~= first);
        assert(!restarts_handles(run(st, calls.take(n)), calls[n]));
    }
}

/// Transaction handles only grow: one that begins after another has the
/// greater handle, whatever was called in between and however the earlier one
/// ended, as long as the handles do not start again after the greatest. No
/// handle is 0, and the earlier handle is refused in the later transaction.
pub proof fn law_later_transaction_has_greater_handle(
    st: StateView,
    handle: u32,
    catalog: u32,
    calls: Seq<Call>,
)
    requires
        writing::begin_refusal(st, handle, catalog) is None,
        none_restarts_handles(writing::after_begin(st, handle, catalog), calls),
        ({
            let before = run(writing::after_begin(st, handle, catalog), calls);
            &&& writing::begin_refusal(before, handle, catalog) is None
            &&& before.next_txn < u32::MAX
        }),
    ensures
        ({
            let earlier = reading::next_handle(st.next_txn);
            let before = run(writing::after_begin(st, handle, catalog), calls);
            let later = reading::next_handle(before.next_txn);
            let begun = writing::after_begin(before, handle, catalog);
            &&& begun.active_txn == Some(later)
            &&& later == before.next_txn + 1
            &&& later > earlier >= 1
            &&& checks::transaction_refusal(begun, handle, earlier) == Some(
                checks::other_txn(earlier, later),
            )
        }),
{
    law_transaction_counter_is_monotonic(writing::after_begin(st, handle, catalog), calls);
}

/// The table, once created, stays: through rollbacks, detaches and all else.
pub proof fn law_table_stays(st: StateView, calls: Seq<Call>)
    requires
        st.created,
    ensures
        run(st, calls).created,
    decreases calls.len(),
{
    if calls.len() > 0 {
        law_table_stays(st, calls.drop_last());
    }
}

/// The table exists exactly if it existed before or one of the calls created
/// it.
pub proof fn law_table_exists_if_created(st: StateView, calls: Seq<Call>)
    ensures
        run(st, calls).created <==> st.created || exists|i: int|
            0 <= i < calls.len() && creates_table(run(st, calls.take(i)), #[trigger] calls[i]),
    decreases calls.len(),
{
    if calls.len() > 0 {
        let n = calls.len() - 1;
        let first = calls.drop_last();
        law_table_exists_if_created(st, first);
        assert(calls.take(n) =~= first);
        assert forall|i: int| 0 <= i < n implies first[i] == calls[i] && first.take(i)
            == calls.take(i) by {
            assert(first.take(i) =~= calls.take(i));
        }
        if run(st, first).created && !st.created {
            let i = choose|i: int|
                0 <= i < first.len() && creates_table(run(st, first.take(i)), #[trigger] first[i]);
            assert(creates_table(run(st, calls.take(i)), calls[i]));
        }
        if creates_table(run(st, first), calls[n]) {
            assert(creates_table(run(st, calls.take(n)), calls[n]));
        }
    }
}

/// An attach leaves the catalog attached and a detach leaves it detached,
/// unless they are refused; no other call changes which it is.
pub proof fn law_attach_and_detach_alone_change_attached(st: StateView, call: Call)
    ensures
        attaches(call) ==> after(st, call).attached,
        detaches(call) ==> !after(st, call).attached,
        !attaches(call) && !detaches(call) ==> after(st, call).attached == st.attached,
{
}

/// The catalog is attached exactly if an attach, or the state before the
/// calls, has left it so and no detach has followed.
pub proof fn law_attached_until_detached(st: StateView, calls: Seq<Call>)
    ensures
        run(st, calls).attached <==> (st.attached && none_detaches(calls, 0)) || exists|i: int|
            0 <= i < calls.len() && attaches(#[trigger] calls[i]) && none_detaches(calls, i + 1),
        (forall|i: int|
            0 <= i < calls.len() ==> !attaches(#[trigger] calls[i]) && !detaches(calls[i]))
            ==> run(st, calls).attached == st.attached,
    decreases calls.len(),
{
    if calls.len() > 0 {
        let n = calls.len() - 1;
        let first = calls.drop_last();
        law_attached_until_detached(st, first);
        law_attach_and_detach_alone_change_attached(run(st, first), calls[n]);
        assert forall|i: int| 0 <= i < n implies first[i] == calls[i] by {}
        assert forall|start: int| 0 <= start <= n implies (none_detaches(calls, start)
            <==> none_detaches(first, start) && !detaches(calls[n])) by {
            if none_detaches(calls, start) {
                assert forall|i: int| start <= i < n implies !detaches(#[trigger] first[i]) by {
                    assert(!detaches(calls[i]));
                }
            } else {
                let i = choose|i: int| start <= i < calls.len() && detaches(#[trigger] calls[i]);
                if i < n {
                    assert(detaches(first[i]));
                }
            }
        }
        if attaches(calls[n]) {
            assert(none_detaches(calls, n + 1));
        } else if run(st, calls).attached {
            if !(st.attached && none_detaches(first, 0)) {
                let i = choose|i: int|
                    0 <= i < first.len() && attaches(#[trigger] first[i]) && none_detaches(
                        first,
                        i + 1,
                    );
                assert(attaches(calls[i]) && none_detaches(calls, i + 1));
            }
        } else if exists|i: int|
            0 <= i < calls.len() && attaches(#[trigger] calls[i]) && none_detaches(calls, i + 1) {
            let i = choose|i: int|
                0 <= i < calls.len() && attaches(#[trigger] calls[i]) && none_detaches(
                    calls,
                    i + 1,
                );
            assert(attaches(first[i]) && none_detaches(first, i + 1));
        }
    }
}

/// Detaching and attaching again finds everything as it was.
pub proof fn law_reattach_finds_all(st: StateView, handle: u32, catalog: u32)
    requires
        checks::catalog_refusal(handle, catalog) is None,
    ensures
        reading::after_attach(reading::after_detach(st, handle, catalog), handle) == (StateView {
            attached: true,
            ..st
        }),
{
}

/// An open scan returns what was visible when it was opened: no call but its
/// own, and none that is refused, changes it, whatever happens to the rows.
pub proof fn law_scan_is_a_snapshot(st: StateView, calls: Seq<Call>, id: u32)
    requires
        st.scans.contains_key(id),
        forall|i: int|
            0 <= i < calls.len() ==> !touches_scan(
                run(st, calls.take(i)),
                #[trigger] calls[i],
                id,
            ),
    ensures
        run(st, calls).scans.contains_key(id),
        run(st, calls).scans[id] == st.scans[id],
    decreases calls.len(),
{
    if calls.len() > 0 {
        let n = calls.len() - 1;
        let first = calls.drop_last();
        assert forall|i: int| 0 <= i < first.len() implies !touches_scan(
            run(st, first.take(i)),
            #[trigger] first[i],
            id,
        ) by {
            assert(first[i] == calls[i]);
            assert(first.take(i) =~= calls.take(i));
        }
        law_scan_is_a_snapshot(st, first, id);
        assert(calls.take(n) =~= first);
        assert(!touches_scan(run(st, calls.take(n)), calls[n], id));
    }
}

/// Between fetches, too, what an open scan returns stays fixed: until it is
/// closed, or another takes its place, its rows are those that it was opened
/// with, and its position does not go back.
pub proof fn law_scan_rows_stay(st: StateView, calls: Seq<Call>, id: u32)
    requires
        st.scans.contains_key(id),
        st.scans[id].wf(),
        forall|i: int|
            0 <= i < calls.len() ==> !drops_scan(run(st, calls.take(i)), #[trigger] calls[i], id),
    ensures
        run(st, calls).scans.contains_key(id),
        run(st, calls).scans[id].wf(),
        run(st, calls).scans[id].rows == st.scans[id].rows,
        run(st, calls).scans[id].pos >= st.scans[id].pos,
    decreases calls.len(),
{
    if calls.len() > 0 {
        let n = calls.len() - 1;
        let first = calls.drop_last();
        assert forall|i: int| 0 <= i < first.len() implies !drops_scan(
            run(st, first.take(i)),
            #[trigger] first[i],
            id,
        ) by {
            assert(first[i] == calls[i]);
            assert(first.take(i) =~= calls.take(i));
        }
        law_scan_rows_stay(st, first, id);
        assert(calls.take(n) =~= first);
        assert(!drops_scan(run(st, calls.take(n)), calls[n], id));
    }
}

/// As long as the scan handles do not start again after the greatest, whatever
/// is called, they only grow, and no open scan has one above the last given
/// out.
pub proof fn law_scans_stay_numbered(st: StateView, calls: Seq<Call>)
    requires
        scans_numbered(st),
        forall|i: int|
            0 <= i < calls.len() ==> !restarts_scan_handles(
                run(st, calls.take(i)),
                #[trigger] calls[i],
            ),
    ensures
        scans_numbered(run(st, calls)),
        run(st, calls).next_scan >= st.next_scan,
    decreases calls.len(),
{
    if calls.len() > 0 {
        let n = calls.len() - 1;
        let first = calls.drop_last();
        assert forall|i: int| 0 <= i < first.len() implies !restarts_scan_handles(
            run(st, first.take(i)),
            #[trigger] first[i],
        ) by {
            assert(first[i] == calls[i]);
            assert(first.take(i) =~= calls.take(i));
        }
        law_scans_stay_numbered(st, first);
        assert(calls.take(n) =~= first);
        assert(!restarts_scan_handles(run(st, calls.take(n)), calls[n]));
    }
}

/// A scan handle is never 0, and as long as the handles have not started
/// again from 1, a new scan takes no other's place.
pub proof fn law_scan_handle_is_new(
    st: StateView,
    handle: u32,
    catalog: u32,
    request: ScanRequestView,
)
    requires
        reading::scan_refusal(st, handle, catalog, request) is None,
        st.next_scan < u32::MAX,
        scans_numbered(st),
    ensures
        ({
            let id = reading::next_handle(st.next_scan);
            let end = reading::after_scan_open(st, handle, catalog, request);
            &&& id != 0
            &&& !st.scans.contains_key(id)
            &&& scans_numbered(end)
            &&& forall|other: u32| #[trigger]
                st.scans.contains_key(other) ==> end.scans.contains_key(other)
                    && end.scans[other] == st.scans[other]
        }),
{
}

} // verus!
