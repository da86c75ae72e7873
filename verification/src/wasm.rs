//! The decisions of the page's second entry point, which opens databases
//! into its own table of connections and starts scans over them.

use vstd::prelude::*;

use crate::connections::{same_text, Connections};
use crate::dag;
use crate::kv::StoreError;

verus! {

/// Why a database could not be opened.
#[derive(Debug)]
pub enum OpenError {
    DbNameMustBeNonEmpty,
    IdbStoreNewError(StoreError),
    NoIdbStoreReturned,
}

/// Which store serves a database that is to be opened.
#[derive(Clone, Copy, Debug, PartialEq, Eq, Structural)]
pub enum StoreChoice {
    /// The database is open already; nothing is to be done.
    AlreadyOpen,
    /// The in-memory store.
    Memory,
    /// The browser's IndexedDB.
    IndexedDb,
}

/// Whether the in-memory store is the one asked for: its name is `mem`, and
/// it exists only off the web.
pub open spec fn wants_memory_store(db_name: Seq<char>, memory_store_available: bool) -> bool {
    memory_store_available && db_name == "mem"@
}

/// Only the name `mem`, and only where the in-memory store exists, asks for
/// the in-memory store; every other name is opened in IndexedDB.
pub proof fn law_memory_store_only_for_mem(db_name: Seq<char>, memory_store_available: bool)
    ensures
        wants_memory_store(db_name, memory_store_available) <==> (memory_store_available
            && db_name == seq!['m', 'e', 'm']),
        db_name != seq!['m', 'e', 'm'] ==> !wants_memory_store(db_name, memory_store_available),
{
    reveal_strlit("mem");
    assert("mem"@ =~= seq!['m', 'e', 'm']);
}

/// First step of opening `db_name`: an empty name is refused, an open
/// database needs nothing more; otherwise the store to open.
pub fn open_plan<S>(conns: &Connections<S>, db_name: &String, memory_store_available: bool) -> (r:
    Result<StoreChoice, OpenError>)
    ensures
        match r {
            Err(e) => e is DbNameMustBeNonEmpty && db_name@.len() == 0,
            Ok(StoreChoice::AlreadyOpen) => db_name@.len() > 0 && conns@.contains_key(db_name@),
            Ok(StoreChoice::Memory) => {
                &&& db_name@.len() > 0
                &&& !conns@.contains_key(db_name@)
                &&& wants_memory_store(db_name@, memory_store_available)
                &&& memory_store_available
                &&& db_name@ == "mem"@
            },
            Ok(StoreChoice::IndexedDb) => {
                &&& db_name@.len() > 0
                &&& !conns@.contains_key(db_name@)
                &&& !wants_memory_store(db_name@, memory_store_available)
                &&& !(memory_store_available && db_name@ == "mem"@)
            },
        },
{
    if db_name.as_str().is_empty() {
        return Err(OpenError::DbNameMustBeNonEmpty);
    }
    if conns.contains(db_name) {
        return Ok(StoreChoice::AlreadyOpen);
    }
    if memory_store_available && same_text(db_name, "mem") {
        Ok(StoreChoice::Memory)
    } else {
        Ok(StoreChoice::IndexedDb)
    }
}

/// Last step of opening `db_name`, once its store has been asked for: a
/// store that came is kept; a failure, or no store, is an error.
pub fn open_finish<S>(
    conns: &mut Connections<S>,
    db_name: String,
    outcome: Result<Option<S>, StoreError>,
) -> (r: Result<(), OpenError>)
    ensures
        match outcome {
            Ok(Some(s)) => final(conns)@ == old(conns)@.insert(db_name@, s) && r is Ok,
            Ok(None) => {
                &&& final(conns)@ == old(conns)@
                &&& r matches Err(e) && e is NoIdbStoreReturned
            },
            Err(e) => {
                &&& final(conns)@ == old(conns)@
                &&& r matches Err(OpenError::IdbStoreNewError(e2)) && e2 == e
            },
        },
{
    match outcome {
        Ok(Some(store)) => {
            conns.insert(db_name, store);
            Ok(())
        },
        Ok(None) => Err(OpenError::NoIdbStoreReturned),
        Err(e) => Err(OpenError::IdbStoreNewError(e)),
    }
}

/// Why a scan could not be started.
#[derive(Debug)]
pub enum ScanError {
    DbNameMustBeNonEmpty,
    DbNotOpen(String),
    OpenReadTransactionError(dag::Error),
    InvalidJson(nanoserde::DeJsonErr),
}

/// The start of a scan of `db_name`, given how its arguments parsed: the
/// name is checked first, then the arguments, then that the database is
/// open; the store and the parsed arguments when all hold.
pub fn scan_start<'a, S, T>(
    conns: &'a Connections<S>,
    db_name: String,
    request: Result<T, nanoserde::DeJsonErr>,
) -> (r: Result<(&'a S, T), ScanError>)
    ensures
        db_name@.len() == 0 ==> (r matches Err(e) && e is DbNameMustBeNonEmpty),
        db_name@.len() > 0 ==> match request {
            Err(j) => r matches Err(ScanError::InvalidJson(j2)) && j2 == j,
            Ok(req) => if conns@.contains_key(db_name@) {
                r matches Ok((s, q)) && *s == conns@[db_name@] && q == req
            } else {
                r matches Err(ScanError::DbNotOpen(n)) && n == db_name
            },
        },
{
    if db_name.as_str().is_empty() {
        return Err(ScanError::DbNameMustBeNonEmpty);
    }
    let req = match request {
        Ok(req) => req,
        Err(j) => return Err(ScanError::InvalidJson(j)),
    };
    match conns.get(&db_name) {
        Some(s) => Ok((s, req)),
        None => Err(ScanError::DbNotOpen(db_name)),
    }
}

/// A scan needs the name of a database.
pub fn scan_check_name(db_name: &String) -> (r: Result<(), ScanError>)
    ensures
        r is Ok <==> db_name@.len() > 0,
        r matches Err(e) ==> e is DbNameMustBeNonEmpty,
{
    if db_name.as_str().is_empty() {
        Err(ScanError::DbNameMustBeNonEmpty)
    } else {
        Ok(())
    }
}

/// The store that a scan of `db_name` reads; the database must be open.
pub fn scan_store<'a, S>(conns: &'a Connections<S>, db_name: String) -> (r: Result<
    &'a S,
    ScanError,
>)
    ensures
        match r {
            Ok(s) => conns@.contains_key(db_name@) && *s == conns@[db_name@],
            Err(ScanError::DbNotOpen(n)) => !conns@.contains_key(db_name@) && n == db_name,
            Err(_) => false,
        },
{
    match conns.get(&db_name) {
        Some(s) => Ok(s),
        None => Err(ScanError::DbNotOpen(db_name)),
    }
}

} // verus!
