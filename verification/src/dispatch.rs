//! The dispatcher behind the page's `dispatch` entry point: which handler a
//! request goes to, the table of open databases, and the replies that the
//! handlers give.
//!
//! Waiting for requests, opening stores, reading them and encoding replies as
//! JSON are done by the caller; what is decided on the way is decided here.

use vstd::prelude::*;
use vstd::utf8::{decode_utf8, valid_utf8};

use crate::connections::{same_text, Connections};
use crate::dag;
use crate::db::{CommitError, NewError};
use crate::kv::StoreError;
use crate::utf8::{decode_text, utf8_error_text};

verus! {

/// The reply to a request: its text, or the text of the error.
pub type Response = Result<String, String>;

/// Where a request goes.
#[derive(Clone, Copy, Debug, PartialEq, Eq, Structural)]
pub enum Route {
    Open,
    Close,
    Debug,
    Has,
    Get,
    Put,
    /// The request names a database that is not open.
    NotOpen,
    /// The database is open but the request names no handler.
    Unsupported,
}

/// Where a request `rpc` on a database goes, given whether that database is
/// open: opening, closing and debugging are served for any database; the
/// others only for an open one.
pub open spec fn route_for(open: bool, rpc: Seq<char>) -> Route {
    if rpc == "open"@ {
        Route::Open
    } else if rpc == "close"@ {
        Route::Close
    } else if rpc == "debug"@ {
        Route::Debug
    } else if !open {
        Route::NotOpen
    } else if rpc == "has"@ {
        Route::Has
    } else if rpc == "get"@ {
        Route::Get
    } else if rpc == "put"@ {
        Route::Put
    } else {
        Route::Unsupported
    }
}

/// The error text for a request on a database that is not open.
pub open spec fn not_open_text(db_name: Seq<char>) -> Seq<char> {
    "\""@ + db_name + "\" not open"@
}

/// The error text for a store that failed to open.
pub open spec fn open_failure_text(db_name: Seq<char>, message: Seq<char>) -> Seq<char> {
    "Failed to open \""@ + db_name + "\": "@ + message
}

/// What the first step of opening a database decided.
pub enum OpenStep {
    /// Nothing to open: the reply.
    Reply(Response),
    /// The store has to be opened; its outcome goes to `open_finish`.
    Connect,
}

/// The answer to a `has` or a `get` request.
pub struct GetResponse {
    pub value: Option<String>,
    pub has: bool,
}

/// The text that an optional string holds.
pub open spec fn opt_string_view(s: Option<String>) -> Option<Seq<char>> {
    match s {
        Some(t) => Some(t@),
        None => None,
    }
}

/// The dispatcher: the databases that are open, with their stores.
pub struct Dispatcher<S> {
    connections: Connections<S>,
}

impl<S> View for Dispatcher<S> {
    type V = Map<Seq<char>, S>;

    closed spec fn view(&self) -> Map<Seq<char>, S> {
        self.connections@
    }
}

impl<S> Dispatcher<S> {
    /// A dispatcher with no database open.
    pub fn new() -> (d: Dispatcher<S>)
        ensures
            d@ == Map::<Seq<char>, S>::empty(),
    {
        Dispatcher { connections: Connections::new() }
    }

    /// Where the request `rpc` on the database `db_name` goes.
    pub fn route(&self, db_name: &String, rpc: &String) -> (r: Route)
        ensures
            r == route_for(self@.contains_key(db_name@), rpc@),
    {
        if same_text(rpc, "open") {
            Route::Open
        } else if same_text(rpc, "close") {
            Route::Close
        } else if same_text(rpc, "debug") {
            Route::Debug
        } else if !self.connections.contains(db_name) {
            Route::NotOpen
        } else if same_text(rpc, "has") {
            Route::Has
        } else if same_text(rpc, "get") {
            Route::Get
        } else if same_text(rpc, "put") {
            Route::Put
        } else {
            Route::Unsupported
        }
    }

    /// The store of the open database `db_name`.
    pub fn store(&self, db_name: &String) -> (r: Option<&S>)
        ensures
            match r {
                Some(s) => self@.contains_key(db_name@) && *s == self@[db_name@],
                None => !self@.contains_key(db_name@),
            },
    {
        self.connections.get(db_name)
    }

    /// First step of opening `db_name`: an empty name is refused, an open
    /// database needs nothing more, any other has its store opened.
    pub fn open_start(&self, db_name: &String) -> (r: OpenStep)
        ensures
            match r {
                OpenStep::Reply(Err(m)) => db_name@.len() == 0 && m@
                    == "db_name must be non-empty"@,
                OpenStep::Reply(Ok(m)) => {
                    &&& db_name@.len() > 0
                    &&& self@.contains_key(db_name@)
                    &&& m@.len() == 0
                },
                OpenStep::Connect => db_name@.len() > 0 && !self@.contains_key(db_name@),
            },
    {
        if db_name.as_str().is_empty() {
            return OpenStep::Reply(Err("db_name must be non-empty".to_owned()));
        }
        if self.connections.contains(db_name) {
            return OpenStep::Reply(Ok(String::new()));
        }
        OpenStep::Connect
    }

    /// Last step of opening `db_name`, once its store has been asked for: a
    /// store that came is kept, a failure is reported.
    pub fn open_finish(&mut self, db_name: String, outcome: Result<Option<S>, StoreError>) -> (r:
        Response)
        ensures
            match outcome {
                Ok(Some(s)) => {
                    &&& final(self)@ == old(self)@.insert(db_name@, s)
                    &&& r matches Ok(m) && m@.len() == 0
                },
                Ok(None) => {
                    &&& final(self)@ == old(self)@
                    &&& r matches Ok(m) && m@.len() == 0
                },
                Err(e) => {
                    &&& final(self)@ == old(self)@
                    &&& r matches Err(m) && m@ == open_failure_text(db_name@, e.message@)
                },
            },
    {
        match outcome {
            Ok(Some(store)) => {
                self.connections.insert(db_name, store);
                Ok(String::new())
            },
            Ok(None) => Ok(String::new()),
            Err(e) => {
                let mut m = "Failed to open \"".to_owned();
                m.append(db_name.as_str());
                m.append("\": ");
                m.append(e.message.as_str());
                Err(m)
            },
        }
    }

    /// Closes `db_name`, whether or not it was open.
    pub fn close(&mut self, db_name: &String) -> (r: Response)
        ensures
            final(self)@ == old(self)@.remove(db_name@),
            r matches Ok(m) && m@.len() == 0,
    {
        let _ = self.connections.remove(db_name);
        Ok(String::new())
    }

    /// The debug request `data`: `open_dbs` lists the open databases, each
    /// once; any other is refused.
    pub fn debug(&self, data: &String) -> (r: Result<Vec<String>, String>)
        ensures
            data@ == "open_dbs"@ <==> r is Ok,
            match r {
                Ok(names) => {
                    &&& names@.len() == self@.dom().len()
                    &&& forall|i: int|
                        0 <= i < names@.len() ==> self@.contains_key((#[trigger] names@[i])@)
                    &&& forall|n: Seq<char>|
                        self@.contains_key(n) ==> exists|i: int|
                            0 <= i < names@.len() && (#[trigger] names@[i])@ == n
                    &&& forall|i: int, j: int|
                        0 <= i < j < names@.len() ==> (#[trigger] names@[i])@ != (
                        #[trigger] names@[j])@
                },
                Err(m) => m@ == "Debug command not defined"@,
            },
    {
        if same_text(data, "open_dbs") {
            Ok(self.connections.names())
        } else {
            Err("Debug command not defined".to_owned())
        }
    }
}

/// Opening, closing and debugging are served whether or not the database
/// is open.
pub proof fn law_lifecycle_requests_always_served(open: bool)
    ensures
        route_for(open, "open"@) == Route::Open,
        route_for(open, "close"@) == Route::Close,
        route_for(open, "debug"@) == Route::Debug,
{
    lemma_request_names_distinct();
}

/// Every other request on a database that is not open is answered that it
/// is not open.
pub proof fn law_closed_database_not_served(rpc: Seq<char>)
    requires
        rpc != "open"@,
        rpc != "close"@,
        rpc != "debug"@,
    ensures
        route_for(false, rpc) == Route::NotOpen,
{
}

/// On an open database, a request whose name is none of `open`, `close`,
/// `debug`, `has`, `get` and `put` reaches no handler.
pub proof fn law_other_requests_unsupported(rpc: Seq<char>)
    requires
        rpc != "open"@,
        rpc != "close"@,
        rpc != "debug"@,
        rpc != "has"@,
        rpc != "get"@,
        rpc != "put"@,
    ensures
        route_for(true, rpc) == Route::Unsupported,
{
}

/// The handler names, spelled out.
pub proof fn law_request_names()
    ensures
        "open"@ == seq!['o', 'p', 'e', 'n'],
        "close"@ == seq!['c', 'l', 'o', 's', 'e'],
        "debug"@ == seq!['d', 'e', 'b', 'u', 'g'],
        "has"@ == seq!['h', 'a', 's'],
        "get"@ == seq!['g', 'e', 't'],
        "put"@ == seq!['p', 'u', 't'],
{
    reveal_strlit("open");
    reveal_strlit("close");
    reveal_strlit("debug");
    reveal_strlit("has");
    reveal_strlit("get");
    reveal_strlit("put");
    assert("open"@ =~= seq!['o', 'p', 'e', 'n']);
    assert("close"@ =~= seq!['c', 'l', 'o', 's', 'e']);
    assert("debug"@ =~= seq!['d', 'e', 'b', 'u', 'g']);
    assert("has"@ =~= seq!['h', 'a', 's']);
    assert("get"@ =~= seq!['g', 'e', 't']);
    assert("put"@ =~= seq!['p', 'u', 't']);
}

/// The request names differ from one another.
proof fn lemma_request_names_distinct()
    ensures
        "open"@ != "close"@,
        "open"@ != "debug"@,
        "close"@ != "debug"@,
        "has"@ != "open"@,
        "has"@ != "close"@,
        "has"@ != "debug"@,
        "get"@ != "open"@,
        "get"@ != "close"@,
        "get"@ != "debug"@,
        "get"@ != "has"@,
        "put"@ != "open"@,
        "put"@ != "close"@,
        "put"@ != "debug"@,
        "put"@ != "has"@,
        "put"@ != "get"@,
{
    reveal_strlit("has");
    reveal_strlit("get");
    reveal_strlit("put");
    reveal_strlit("open");
    reveal_strlit("close");
    reveal_strlit("debug");
    assert("open"@.len() == 4 && "close"@.len() == 5 && "debug"@.len() == 5);
    assert("has"@.len() == 3 && "get"@.len() == 3 && "put"@.len() == 3);
    assert("close"@[0] == 'c' && "debug"@[0] == 'd');
    assert("has"@[0] == 'h' && "get"@[0] == 'g' && "put"@[0] == 'p');
}

/// Once its store has been opened, a database's `has`, `get` and `put`
/// requests go to their handlers.
pub proof fn law_served_after_open<S>(m: Map<Seq<char>, S>, db_name: Seq<char>, store: S)
    ensures
        route_for(m.insert(db_name, store).contains_key(db_name), "has"@) == Route::Has,
        route_for(m.insert(db_name, store).contains_key(db_name), "get"@) == Route::Get,
        route_for(m.insert(db_name, store).contains_key(db_name), "put"@) == Route::Put,
{
    lemma_request_names_distinct();
}

/// Once a database is closed, every request on it but opening, closing and
/// debugging is answered that it is not open.
pub proof fn law_not_served_after_close<S>(m: Map<Seq<char>, S>, db_name: Seq<char>, rpc: Seq<char>)
    requires
        rpc != "open"@,
        rpc != "close"@,
        rpc != "debug"@,
    ensures
        route_for(m.remove(db_name).contains_key(db_name), rpc) == Route::NotOpen,
{
}

/// Opening a database that was not open and closing it again leaves the
/// open databases as they were.
pub proof fn law_open_then_close_restores<S>(m: Map<Seq<char>, S>, db_name: Seq<char>, store: S)
    requires
        !m.contains_key(db_name),
    ensures
        m.insert(db_name, store).remove(db_name) == m,
{
    assert(m.insert(db_name, store).remove(db_name) =~= m);
}

/// How one handled request may change the open databases without opening
/// `db_name`: not at all, by closing some database, or by opening another.
pub open spec fn keeps_closed<S>(
    before: Map<Seq<char>, S>,
    after: Map<Seq<char>, S>,
    db_name: Seq<char>,
) -> bool {
    ||| after == before
    ||| exists|x: Seq<char>| after == before.remove(x)
    ||| exists|x: Seq<char>, s: S| x != db_name && after == before.insert(x, s)
}

/// A database that is not open stays so while no request opens it: along
/// any run of such requests, every request on it but opening, closing and
/// debugging is answered that it is not open.
pub proof fn law_closed_stays_closed<S>(
    tables: Seq<Map<Seq<char>, S>>,
    db_name: Seq<char>,
    rpc: Seq<char>,
)
    requires
        tables.len() > 0,
        !tables[0].contains_key(db_name),
        forall|i: int|
            0 <= i < tables.len() - 1 ==> #[trigger] keeps_closed(tables[i], tables[i + 1], db_name),
        rpc != "open"@,
        rpc != "close"@,
        rpc != "debug"@,
    ensures
        forall|i: int|
            0 <= i < tables.len() ==> !(#[trigger] tables[i]).contains_key(db_name) && route_for(
                tables[i].contains_key(db_name),
                rpc,
            ) == Route::NotOpen,
{
    assert forall|i: int| 0 <= i < tables.len() implies !(#[trigger] tables[i]).contains_key(
        db_name,
    ) by {
        lemma_closed_up_to(tables, db_name, i);
    }
}

/// Induction step of `law_closed_stays_closed`.
proof fn lemma_closed_up_to<S>(tables: Seq<Map<Seq<char>, S>>, db_name: Seq<char>, k: int)
    requires
        0 <= k < tables.len(),
        !tables[0].contains_key(db_name),
        forall|i: int|
            0 <= i < tables.len() - 1 ==> #[trigger] keeps_closed(tables[i], tables[i + 1], db_name),
    ensures
        !tables[k].contains_key(db_name),
    decreases k,
{
    if k > 0 {
        lemma_closed_up_to(tables, db_name, k - 1);
        let before = tables[k - 1];
        let after = tables[k];
        assert(keeps_closed(tables[k - 1], tables[k - 1 + 1], db_name));
        if after == before {
        } else if exists|x: Seq<char>| after == before.remove(x) {
            let x = choose|x: Seq<char>| after == before.remove(x);
            assert(after == before.remove(x));
        } else {
            let (x, s) = choose|x: Seq<char>, s: S| x != db_name && after == before.insert(x, s);
            assert(after == before.insert(x, s));
        }
    }
}

/// Closing twice is closing once.
pub proof fn law_close_idempotent<S>(m: Map<Seq<char>, S>, db_name: Seq<char>)
    ensures
        m.remove(db_name).remove(db_name) == m.remove(db_name),
{
    assert(m.remove(db_name).remove(db_name) =~= m.remove(db_name));
}

/// The reply to a request on a database that is not open.
pub fn not_open_reply(db_name: &String) -> (r: Response)
    ensures
        r matches Err(m) && m@ == not_open_text(db_name@),
{
    let mut m = "\"".to_owned();
    m.append(db_name.as_str());
    m.append("\" not open");
    Err(m)
}

/// The reply to a request that names no handler.
pub fn unsupported_reply() -> (r: Response)
    ensures
        r matches Err(m) && m@ == "Unsupported rpc name"@,
{
    Err("Unsupported rpc name".to_owned())
}

/// The reply to a request whose data is not a well-formed request.
pub fn parse_failure_reply() -> (r: Response)
    ensures
        r matches Err(m) && m@ == "Failed to parse request"@,
{
    Err("Failed to parse request".to_owned())
}

/// What a `has` or `get` answer says: whether the key is there and its
/// value as text, or the error text.
pub open spec fn reply_view(r: Result<GetResponse, String>) -> Result<
    (bool, Option<Seq<char>>),
    Seq<char>,
> {
    match r {
        Ok(g) => Ok((g.has, opt_string_view(g.value))),
        Err(m) => Err(m@),
    }
}

/// What the store said of a `has` request, as plain values.
pub open spec fn has_found(found: Result<bool, StoreError>) -> Result<bool, Seq<char>> {
    match found {
        Ok(h) => Ok(h),
        Err(e) => Err(e.message@),
    }
}

/// What the store said of a `get` request, as plain values.
pub open spec fn get_found(found: Result<Option<Vec<u8>>, StoreError>) -> Result<
    Option<Seq<u8>>,
    Seq<char>,
> {
    match found {
        Ok(Some(v)) => Ok(Some(v@)),
        Ok(None) => Ok(None),
        Err(e) => Err(e.message@),
    }
}

/// The answer to a `has` request, given what the store said.
pub open spec fn has_answer(found: Result<bool, Seq<char>>) -> Result<
    (bool, Option<Seq<char>>),
    Seq<char>,
> {
    match found {
        Ok(h) => Ok((h, None)),
        Err(m) => Err(m),
    }
}

/// The answer to a `get` request, given what the store said.
pub open spec fn get_answer(found: Result<Option<Seq<u8>>, Seq<char>>) -> Result<
    (bool, Option<Seq<char>>),
    Seq<char>,
> {
    match found {
        Ok(Some(v)) => if valid_utf8(v) {
            Ok((true, Some(decode_utf8(v))))
        } else {
            Err(utf8_error_text(v))
        },
        Ok(None) => Ok((false, None)),
        Err(m) => Err(m),
    }
}

/// Where the store answers `has` and `get` alike for a key (it has the key
/// exactly when it has a value for it, and the value is text), the two
/// requests agree on whether the key is there, and `get` gives a value
/// exactly when the key is there.
pub proof fn law_has_and_get_agree(stored: Option<Seq<u8>>)
    requires
        stored matches Some(v) ==> valid_utf8(v),
    ensures
        has_answer(Ok(stored is Some)) == Ok::<(bool, Option<Seq<char>>), Seq<char>>(
            (stored is Some, None),
        ),
        get_answer(Ok(stored)) matches Ok((h, value)) && h == (stored is Some) && (value is Some)
            == h,
{
}

/// The answer to a `has` request, from what the store said.
pub fn has_reply(found: Result<bool, StoreError>) -> (r: Result<GetResponse, String>)
    ensures
        match found {
            Ok(h) => r matches Ok(g) && g.has == h && g.value is None,
            Err(e) => r matches Err(m) && m@ == e.message@,
        },
        reply_view(r) == has_answer(has_found(found)),
{
    match found {
        Ok(h) => Ok(GetResponse { value: None, has: h }),
        Err(e) => Err(e.message),
    }
}

/// The answer to a `get` request, from what the store said: a value is
/// handed back as text, and one that is not UTF-8 is an error.
pub fn get_reply(found: Result<Option<Vec<u8>>, StoreError>) -> (r: Result<GetResponse, String>)
    ensures
        match found {
            Ok(Some(v)) => if valid_utf8(v@) {
                r matches Ok(g) && g.has && opt_string_view(g.value) == Some(decode_utf8(v@))
            } else {
                r matches Err(m) && m@ == utf8_error_text(v@)
            },
            Ok(None) => r matches Ok(g) && !g.has && g.value is None,
            Err(e) => r matches Err(m) && m@ == e.message@,
        },
        reply_view(r) == get_answer(get_found(found)),
{
    match found {
        Ok(Some(v)) => match decode_text(v.as_slice()) {
            Ok(s) => Ok(GetResponse { value: Some(s), has: true }),
            Err(m) => Err(m),
        },
        Ok(None) => Ok(GetResponse { value: None, has: false }),
        Err(e) => Err(e.message),
    }
}

/// `nanoserde::DeJsonErr`, the error of parsing JSON; carried as it is.
#[verifier::external_type_specification]
#[verifier::external_body]
pub struct ExDeJsonErr(nanoserde::DeJsonErr);

/// Why a `put` request failed.
#[derive(Debug)]
pub enum PutError {
    InvalidJSON(nanoserde::DeJsonErr),
    DagError(dag::Error),
    WriteError(NewError),
    CommitError(CommitError),
    NoHead,
}

/// The head commit that a `put` request builds on; a store without one
/// refuses the request.
pub fn put_head(head: Option<String>) -> (r: Result<String, PutError>)
    ensures
        match head {
            Some(h) => r matches Ok(g) && g == h,
            None => r matches Err(e) && e is NoHead,
        },
{
    match head {
        Some(h) => Ok(h),
        None => Err(PutError::NoHead),
    }
}

/// The reply to a `put` request that succeeded.
pub fn put_reply() -> (r: String)
    ensures
        r@ == "{}"@,
{
    "{}".to_owned()
}

impl From<nanoserde::DeJsonErr> for PutError {
    fn from(e: nanoserde::DeJsonErr) -> (r: PutError) {
        PutError::InvalidJSON(e)
    }
}

impl vstd::std_specs::convert::FromSpecImpl<nanoserde::DeJsonErr> for PutError {
    open spec fn obeys_from_spec() -> bool {
        true
    }

    open spec fn from_spec(e: nanoserde::DeJsonErr) -> PutError {
        PutError::InvalidJSON(e)
    }
}

impl From<dag::Error> for PutError {
    fn from(e: dag::Error) -> (r: PutError) {
        PutError::DagError(e)
    }
}

impl vstd::std_specs::convert::FromSpecImpl<dag::Error> for PutError {
    open spec fn obeys_from_spec() -> bool {
        true
    }

    open spec fn from_spec(e: dag::Error) -> PutError {
        PutError::DagError(e)
    }
}

impl From<NewError> for PutError {
    fn from(e: NewError) -> (r: PutError) {
        PutError::WriteError(e)
    }
}

impl vstd::std_specs::convert::FromSpecImpl<NewError> for PutError {
    open spec fn obeys_from_spec() -> bool {
        true
    }

    open spec fn from_spec(e: NewError) -> PutError {
        PutError::WriteError(e)
    }
}

impl From<CommitError> for PutError {
    fn from(e: CommitError) -> (r: PutError) {
        PutError::CommitError(e)
    }
}

impl vstd::std_specs::convert::FromSpecImpl<CommitError> for PutError {
    open spec fn obeys_from_spec() -> bool {
        true
    }

    open spec fn from_spec(e: CommitError) -> PutError {
        PutError::CommitError(e)
    }
}

} // verus!
