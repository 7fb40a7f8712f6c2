//! Loading, and the callbacks that a pure storage backend does not offer.
use vstd::prelude::*;

use crate::checks::STORAGE_TYPE;
use crate::types::{Capabilitykind, Duckerror, DuckerrorView, Duckvalue, Loadresult};

verus! {

/// The backend: every function that the host calls.
pub struct Component;

/// Every result that refuses as unsupported, with the message `why`.
pub open spec fn unsupported<T>(r: Result<T, Duckerror>, why: Seq<char>) -> bool {
    crate::checks::refuses(r, DuckerrorView::Unsupported(why))
}

impl Component {
    /// What the backend says of itself at load time. `registered` is the
    /// host's answer to the registration of [`STORAGE_TYPE`] under
    /// [`crate::checks::HANDLE`], without options; a refusal is handed on.
    pub fn load<E>(registered: Result<(), E>, version: String) -> (r: Result<Loadresult, E>)
        ensures
            match registered {
                Ok(()) => r matches Ok(l) && {
                    &&& l.name@ == STORAGE_TYPE@
                    &&& l.version == Some(version)
                    &&& l.required@ == seq![Capabilitykind::Catalog]
                },
                Err(e) => r == Err::<Loadresult, E>(e),
            },
    {
        match registered {
            Ok(()) => {
                let mut required: Vec<Capabilitykind> = Vec::new();
                required.push(Capabilitykind::Catalog);
                Ok(Loadresult { name: STORAGE_TYPE.to_string(), version: Some(version), required })
            },
            Err(e) => Err(e),
        }
    }

    /// There is nothing to configure.
    pub fn reconfigure(_keys: Vec<String>) -> (r: Result<bool, Duckerror>)
        ensures
            r == Ok::<bool, Duckerror>(false),
    {
        Ok(false)
    }

    /// There is nothing to shut down.
    pub fn shutdown() -> (r: Result<bool, Duckerror>)
        ensures
            r == Ok::<bool, Duckerror>(false),
    {
        Ok(false)
    }

    /// There are no scalar functions.
    pub fn call_scalar_batch_col<Colvec, Invokeinfo>(
        _handle: u32,
        _args: Vec<Colvec>,
        _ctx: Invokeinfo,
    ) -> (r: Result<Colvec, Duckerror>)
        ensures
            unsupported(r, "synthetic-storage: no scalar functions"@),
    {
        Err(Duckerror::Unsupported("synthetic-storage: no scalar functions".to_string()))
    }

    /// There are no aggregates.
    pub fn call_aggregate_col<Colvec>(_handle: u32, _args: Vec<Colvec>) -> (r: Result<
        Duckvalue,
        Duckerror,
    >)
        ensures
            unsupported(r, "synthetic-storage: no aggregates"@),
    {
        Err(Duckerror::Unsupported("synthetic-storage: no aggregates".to_string()))
    }

    /// There are no casts.
    pub fn call_cast_col<Colvec>(_handle: u32, _arg: Colvec) -> (r: Result<Colvec, Duckerror>)
        ensures
            unsupported(r, "synthetic-storage: no casts"@),
    {
        Err(Duckerror::Unsupported("synthetic-storage: no casts".to_string()))
    }

    /// There are no scalar functions.
    pub fn call_scalar<Invokeinfo>(_handle: u32, _args: Vec<Duckvalue>, _ctx: Invokeinfo) -> (r:
        Result<Duckvalue, Duckerror>)
        ensures
            unsupported(r, "synthetic-storage: no scalar functions"@),
    {
        Err(Duckerror::Unsupported("synthetic-storage: no scalar functions".to_string()))
    }

    /// There are no table functions.
    pub fn call_table(_handle: u32, _args: Vec<Duckvalue>) -> (r: Result<
        Vec<Vec<Duckvalue>>,
        Duckerror,
    >)
        ensures
            unsupported(r, "synthetic-storage: no table functions"@),
    {
        Err(Duckerror::Unsupported("synthetic-storage: no table functions".to_string()))
    }

    /// There are no pragmas.
    pub fn call_pragma(_handle: u32, _args: Vec<Duckvalue>) -> (r: Result<
        Option<Duckvalue>,
        Duckerror,
    >)
        ensures
            unsupported(r, "synthetic-storage: no pragmas"@),
    {
        Err(Duckerror::Unsupported("synthetic-storage: no pragmas".to_string()))
    }

    /// There are no casts.
    pub fn call_cast(_handle: u32, _value: Duckvalue) -> (r: Result<Duckvalue, Duckerror>)
        ensures
            unsupported(r, "synthetic-storage: no casts"@),
    {
        Err(Duckerror::Unsupported("synthetic-storage: no casts".to_string()))
    }
}

} // verus!
