//! What the backend serves, and how it refuses what it does not.
use vstd::prelude::*;
use vstd::string::StringExecFns;

use crate::state::{KvState, StateView};
use crate::text;
use crate::types::{Duckerror, DuckerrorView, Duckvalue, DuckvalueView};

verus! {

/// The ATTACH type that the backend serves.
pub const STORAGE_TYPE: &'static str = "synthetic_mutating";

/// The callback handle under which the backend is registered.
pub const HANDLE: u32 = 1;

/// The one catalog that the backend serves.
pub const CATALOG_HANDLE: u32 = 1;

/// The one table that the backend serves.
pub const TABLE_NAME: &'static str = "kv_store";

/// `r` refuses, with the error `why`.
pub open spec fn refuses<T>(r: Result<T, Duckerror>, why: DuckerrorView) -> bool {
    r matches Err(e) && e@ == why
}

/// The error for a callback handle that is not served.
pub open spec fn unknown_handle(handle: u32) -> DuckerrorView {
    DuckerrorView::Invalidargument(
        "synthetic-storage: unknown callback handle "@ + text::decimal(handle as nat) + " (only "@
            + text::decimal(HANDLE as nat) + " is served)"@,
    )
}

/// Why a call under `handle` is refused, if it is.
pub open spec fn handle_refusal(handle: u32) -> Option<DuckerrorView> {
    if handle == HANDLE {
        None
    } else {
        Some(unknown_handle(handle))
    }
}

/// The error for a catalog that is not served.
pub open spec fn unknown_catalog(catalog: u32) -> DuckerrorView {
    DuckerrorView::Invalidargument(
        "synthetic-storage: unknown catalog handle "@ + text::decimal(catalog as nat) + " (only "@
            + text::decimal(CATALOG_HANDLE as nat) + " is served)"@,
    )
}

/// Why a call under `handle` on `catalog` is refused, if it is.
pub open spec fn catalog_refusal(handle: u32, catalog: u32) -> Option<DuckerrorView> {
    if handle != HANDLE {
        Some(unknown_handle(handle))
    } else if catalog != CATALOG_HANDLE {
        Some(unknown_catalog(catalog))
    } else {
        None
    }
}

/// The error for a transaction other than the open one.
pub open spec fn other_txn(txn: u32, active: u32) -> DuckerrorView {
    DuckerrorView::Invalidstate(
        "synthetic-storage: txn "@ + text::decimal(txn as nat)
            + " not active (current active txn is "@ + text::decimal(active as nat) + ")"@,
    )
}

/// The error for a transaction while none is open.
pub open spec fn no_txn(txn: u32) -> DuckerrorView {
    DuckerrorView::Invalidstate(
        "synthetic-storage: txn "@ + text::decimal(txn as nat)
            + " not active (no live transaction)"@,
    )
}

/// Why a call in the transaction `txn` is refused, if it is.
pub open spec fn txn_refusal(st: StateView, txn: u32) -> Option<DuckerrorView> {
    match st.active_txn {
        Some(active) => if active == txn {
            None
        } else {
            Some(other_txn(txn, active))
        },
        None => Some(no_txn(txn)),
    }
}

/// The error for a table that has not been created.
pub open spec fn not_created(table: Seq<char>) -> DuckerrorView {
    DuckerrorView::Invalidstate(
        "synthetic-storage: table '"@ + table + "' has not been created"@,
    )
}

/// The error for a table that is not served.
pub open spec fn unknown_table(table: Seq<char>) -> DuckerrorView {
    DuckerrorView::Invalidargument(
        "synthetic-storage: unknown table '"@ + table + "' (only '"@ + TABLE_NAME@
            + "' is served)"@,
    )
}

/// Why a call on `table` is refused, if it is.
pub open spec fn table_refusal(st: StateView, table: Seq<char>) -> Option<DuckerrorView> {
    if !st.created {
        Some(not_created(table))
    } else if table != TABLE_NAME@ {
        Some(unknown_table(table))
    } else {
        None
    }
}

/// Why a call in the transaction `txn` under `handle` is refused, if it is.
pub open spec fn transaction_refusal(st: StateView, handle: u32, txn: u32) -> Option<
    DuckerrorView,
> {
    if handle != HANDLE {
        Some(unknown_handle(handle))
    } else {
        txn_refusal(st, txn)
    }
}

/// Why a write to `table` is refused before any row is looked at, if it is.
pub open spec fn write_refusal(
    st: StateView,
    handle: u32,
    txn: u32,
    table: Seq<char>,
) -> Option<DuckerrorView> {
    match transaction_refusal(st, handle, txn) {
        Some(why) => Some(why),
        None => table_refusal(st, table),
    }
}

/// The text that a cell is stored as, if it can be stored: text as it is, and
/// NULL as empty text.
pub open spec fn stored_text(v: DuckvalueView) -> Option<Seq<char>> {
    match v {
        DuckvalueView::Text(t) => Some(t),
        DuckvalueView::Null => Some(Seq::empty()),
        DuckvalueView::Other(_) => None,
    }
}

/// The error for a cell that is neither text nor NULL.
pub open spec fn not_text(rendering: Seq<char>) -> DuckerrorView {
    DuckerrorView::Invalidargument(
        "synthetic-storage: expected TEXT for kv column, got "@ + rendering,
    )
}

/// The error for a state that a panic has left locked.
pub fn poison() -> (r: Duckerror)
    ensures
        r@ == DuckerrorView::Internal("synthetic-storage: state mutex poisoned"@),
{
    Duckerror::Internal("synthetic-storage: state mutex poisoned".to_string())
}

/// Accepts the registered callback handle and no other.
pub fn require_handle(handle: u32) -> (r: Result<(), Duckerror>)
    ensures
        match handle_refusal(handle) {
            Some(why) => refuses(r, why),
            None => r is Ok,
        },
{
    if handle == HANDLE {
        Ok(())
    } else {
        let mut m = "synthetic-storage: unknown callback handle ".to_string();
        text::append_decimal(&mut m, handle as u64);
        m.append(" (only ");
        text::append_decimal(&mut m, HANDLE as u64);
        m.append(" is served)");
        Err(Duckerror::Invalidargument(m))
    }
}

/// Accepts the served catalog and no other.
pub fn require_catalog(catalog: u32) -> (r: Result<(), Duckerror>)
    ensures
        if catalog == CATALOG_HANDLE {
            r is Ok
        } else {
            refuses(r, unknown_catalog(catalog))
        },
{
    if catalog == CATALOG_HANDLE {
        Ok(())
    } else {
        let mut m = "synthetic-storage: unknown catalog handle ".to_string();
        text::append_decimal(&mut m, catalog as u64);
        m.append(" (only ");
        text::append_decimal(&mut m, CATALOG_HANDLE as u64);
        m.append(" is served)");
        Err(Duckerror::Invalidargument(m))
    }
}

/// Accepts the open transaction and no other.
pub fn require_txn(st: &KvState, txn: u32) -> (r: Result<(), Duckerror>)
    ensures
        match txn_refusal(st@, txn) {
            Some(why) => refuses(r, why),
            None => r is Ok,
        },
{
    match st.active_txn {
        Some(active) => {
            if active == txn {
                Ok(())
            } else {
                let mut m = "synthetic-storage: txn ".to_string();
                text::append_decimal(&mut m, txn as u64);
                m.append(" not active (current active txn is ");
                text::append_decimal(&mut m, active as u64);
                m.append(")");
                Err(Duckerror::Invalidstate(m))
            }
        },
        None => {
            let mut m = "synthetic-storage: txn ".to_string();
            text::append_decimal(&mut m, txn as u64);
            m.append(" not active (no live transaction)");
            Err(Duckerror::Invalidstate(m))
        },
    }
}

/// The refusal of a table that is not served.
pub(crate) fn refuse_table(table: &str) -> (r: Duckerror)
    ensures
        r@ == unknown_table(table@),
{
    let mut m = "synthetic-storage: unknown table '".to_string();
    m.append(table);
    m.append("' (only '");
    m.append(TABLE_NAME);
    m.append("' is served)");
    Duckerror::Invalidargument(m)
}

/// Accepts the served table once it has been created, and no other.
pub fn require_table(st: &KvState, table: &str) -> (r: Result<(), Duckerror>)
    ensures
        match table_refusal(st@, table@) {
            Some(why) => refuses(r, why),
            None => r is Ok,
        },
{
    if !st.created {
        let mut m = "synthetic-storage: table '".to_string();
        m.append(table);
        m.append("' has not been created");
        return Err(Duckerror::Invalidstate(m));
    }
    if !text::text_eq(table, TABLE_NAME) {
        return Err(refuse_table(table));
    }
    Ok(())
}

/// The text that a cell is stored as.
pub fn dv_to_text(v: &Duckvalue) -> (r: Result<String, Duckerror>)
    ensures
        match v@ {
            DuckvalueView::Text(t) => r matches Ok(s) && s@ == t,
            DuckvalueView::Null => r matches Ok(s) && s@.len() == 0,
            DuckvalueView::Other(rendering) => refuses(r, not_text(rendering)),
        },
{
    match v {
        Duckvalue::Text(t) => Ok(t.clone()),
        Duckvalue::Null => Ok(String::new()),
        Duckvalue::Other(rendering) => {
            let mut m = "synthetic-storage: expected TEXT for kv column, got ".to_string();
            m.append(rendering);
            Err(Duckerror::Invalidargument(m))
        },
    }
}

} // verus!
