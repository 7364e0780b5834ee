use vstd::prelude::*;

use crate::storage::{
    distinct_keys, store_contains, store_del, store_lookup, store_set, table_of, table_pairs,
    Storage, StoreModel,
};
use crate::value::{Kvpair, Value, ValueModel};

verus! {

/// Success.
pub const STATUS_OK: u32 = 200;

/// A read found nothing; not an error.
pub const STATUS_NOT_FOUND: u32 = 404;

/// A request that names no recognizable operation; no storage call is made.
pub const STATUS_BAD_REQUEST: u32 = 400;

/// An engine-internal failure, carried to the caller instead of a panic.
pub const STATUS_SERVER_ERROR: u32 = 500;

/// The model of a request.
pub enum RequestModel {
    Hget { table: Seq<char>, key: Seq<char> },
    Hgetall { table: Seq<char> },
    Hset { table: Seq<char>, key: Seq<char>, value: ValueModel },
    Hdel { table: Seq<char>, key: Seq<char> },
    Hexist { table: Seq<char>, key: Seq<char> },
}

/// One command against the store: the operation, its table, and the key
/// and value the operation needs.
#[derive(Debug, PartialEq, Eq)]
pub enum CommandRequest {
    Hget { table: String, key: String },
    Hgetall { table: String },
    Hset { table: String, pair: Kvpair },
    Hdel { table: String, key: String },
    Hexist { table: String, key: String },
}

impl View for CommandRequest {
    type V = RequestModel;

    open spec fn view(&self) -> RequestModel {
        match self {
            CommandRequest::Hget { table, key } => RequestModel::Hget {
                table: table@,
                key: key@,
            },
            CommandRequest::Hgetall { table } => RequestModel::Hgetall { table: table@ },
            CommandRequest::Hset { table, pair } => RequestModel::Hset {
                table: table@,
                key: pair.key@,
                value: pair.value@,
            },
            CommandRequest::Hdel { table, key } => RequestModel::Hdel {
                table: table@,
                key: key@,
            },
            CommandRequest::Hexist { table, key } => RequestModel::Hexist {
                table: table@,
                key: key@,
            },
        }
    }
}

impl CommandRequest {
    /// HGET: read one key of one table.
    pub fn new_hget(table: &str, key: &str) -> (c: CommandRequest)
        ensures
            c@ == (RequestModel::Hget { table: table@, key: key@ }),
    {
        CommandRequest::Hget { table: table.to_owned(), key: key.to_owned() }
    }

    /// HGETALL: read every pair of one table.
    pub fn new_hgetall(table: &str) -> (c: CommandRequest)
        ensures
            c@ == (RequestModel::Hgetall { table: table@ }),
    {
        CommandRequest::Hgetall { table: table.to_owned() }
    }

    /// HSET: bind one key of one table to a value.
    pub fn new_hset(table: &str, key: &str, value: Value) -> (c: CommandRequest)
        ensures
            c@ == (RequestModel::Hset { table: table@, key: key@, value: value@ }),
    {
        CommandRequest::Hset { table: table.to_owned(), pair: Kvpair::new(key, value) }
    }

    /// HDEL: remove one key of one table.
    pub fn new_hdel(table: &str, key: &str) -> (c: CommandRequest)
        ensures
            c@ == (RequestModel::Hdel { table: table@, key: key@ }),
    {
        CommandRequest::Hdel { table: table.to_owned(), key: key.to_owned() }
    }

    /// HEXIST: ask whether one key of one table is bound.
    pub fn new_hexist(table: &str, key: &str) -> (c: CommandRequest)
        ensures
            c@ == (RequestModel::Hexist { table: table@, key: key@ }),
    {
        CommandRequest::Hexist { table: table.to_owned(), key: key.to_owned() }
    }
}

/// The model of a response.
pub struct ResponseModel {
    pub status: u32,
    pub message: Seq<char>,
    pub values: Seq<ValueModel>,
}

/// What the dispatcher answers: an HTTP-like status, an optional
/// human-readable message (empty when there is nothing to say), and the
/// returned values in order.
#[derive(Debug, PartialEq, Eq, PartialOrd, Ord)]
pub struct CommandResponse {
    pub status: u32,
    pub message: String,
    pub values: Vec<Value>,
}

impl View for CommandResponse {
    type V = ResponseModel;

    open spec fn view(&self) -> ResponseModel {
        ResponseModel { status: self.status, message: self.message@, values: values_views(self.values@) }
    }
}

/// The views of a sequence of values.
pub open spec fn values_views(s: Seq<Value>) -> Seq<ValueModel> {
    s.map_values(|v: Value| v@)
}

/// A sequence of pairs flattened into values: each pair contributes its
/// key as a string value, then its value.
pub open spec fn flatten_pairs(s: Seq<(Seq<char>, ValueModel)>) -> Seq<ValueModel>
    decreases s.len(),
{
    if s.len() == 0 {
        Seq::empty()
    } else {
        flatten_pairs(s.drop_last()) + seq![ValueModel::Str(s.last().0), s.last().1]
    }
}

/// A read's response: the value with success, or not-found with nothing.
pub open spec fn read_post(m: StoreModel, t: Seq<char>, k: Seq<char>, r: ResponseModel) -> bool {
    match store_lookup(m, t, k) {
        Some(v) => r.status == STATUS_OK && r.values == seq![v] && r.message == Seq::<
            char,
        >::empty(),
        None => r.status == STATUS_NOT_FOUND && r.values == Seq::<ValueModel>::empty()
            && r.message == "not found"@,
    }
}

/// A write's response: success, carrying the previous value if any.
pub open spec fn write_post(m: StoreModel, t: Seq<char>, k: Seq<char>, r: ResponseModel) -> bool {
    r.status == STATUS_OK && r.message == Seq::<char>::empty() && r.values == (
    match store_lookup(m, t, k) {
        Some(v) => seq![v],
        None => Seq::<ValueModel>::empty(),
    })
}

/// An existence test's response: success, carrying the answer.
pub open spec fn exist_post(m: StoreModel, t: Seq<char>, k: Seq<char>, r: ResponseModel) -> bool {
    r.status == STATUS_OK && r.message == Seq::<char>::empty() && r.values == seq![
        ValueModel::Bool(store_contains(m, t, k)),
    ]
}

/// A whole-table read's response: success, all pairs flattened in the
/// order the engine produced them — some order of the table's pairs.
pub open spec fn getall_post(m: StoreModel, t: Seq<char>, r: ResponseModel) -> bool {
    r.status == STATUS_OK && r.message == Seq::<char>::empty() && exists|
        s: Seq<(Seq<char>, ValueModel)>,
    |
        distinct_keys(s) && s.to_set() == table_pairs(table_of(m, t)) && r.values
            == #[trigger] flatten_pairs(s)
}

/// Everything the dispatcher promises of one dispatched command, relating
/// the store's state before (`m0`) and after (`m1`) and the response. A
/// server-error response can come only out of a fallible engine (`nf`
/// false) and leaves the state unchanged, with the engine's description
/// in the message.
pub open spec fn dispatch_post(
    req: RequestModel,
    m0: StoreModel,
    nf: bool,
    m1: StoreModel,
    r: ResponseModel,
) -> bool {
    if r.status == STATUS_SERVER_ERROR {
        !nf && m1 == m0 && r.values == Seq::<ValueModel>::empty()
    } else {
        match req {
            RequestModel::Hget { table, key } => m1 == m0 && read_post(m0, table, key, r),
            RequestModel::Hgetall { table } => m1 == m0 && getall_post(m0, table, r),
            RequestModel::Hset { table, key, value } => m1 == store_set(m0, table, key, value)
                && write_post(m0, table, key, r),
            RequestModel::Hdel { table, key } => m1 == store_del(m0, table, key) && write_post(
                m0,
                table,
                key,
                r,
            ),
            RequestModel::Hexist { table, key } => m1 == m0 && exist_post(m0, table, key, r),
        }
    }
}

/// Interprets one command: performs exactly one storage operation and
/// maps the outcome onto a response. State-free per call; an engine
/// failure becomes a server-error response, never a panic.
pub fn dispatch<S: Storage>(store: &mut S, req: CommandRequest) -> (resp: CommandResponse)
    requires
        old(store).wf(),
    ensures
        final(store).wf(),
        final(store).never_fails() == old(store).never_fails(),
        dispatch_post(
            req@,
            old(store).tables(),
            old(store).never_fails(),
            final(store).tables(),
            resp@,
        ),
{
    match req {
        CommandRequest::Hget { table, key } => {
            match store.get(table.as_str(), key.as_str()) {
                Ok(Some(v)) => ok_response_one(v),
                Ok(None) => not_found_response(),
                Err(e) => error_response(e),
            }
        },
        CommandRequest::Hexist { table, key } => {
            match store.contains(table.as_str(), key.as_str()) {
                Ok(b) => ok_response_one(Value::Bool(b)),
                Err(e) => error_response(e),
            }
        },
        CommandRequest::Hset { table, pair } => {
            match store.set(table.as_str(), pair.key.as_str(), pair.value) {
                Ok(prev) => write_response(prev),
                Err(e) => error_response(e),
            }
        },
        CommandRequest::Hdel { table, key } => {
            match store.del(table.as_str(), key.as_str()) {
                Ok(prev) => write_response(prev),
                Err(e) => error_response(e),
            }
        },
        CommandRequest::Hgetall { table } => {
            match store.get_all(table.as_str()) {
                Ok(pairs) => {
                    let ghost witness = crate::storage::pair_views(pairs@);
                    let mut values: Vec<Value> = Vec::new();
                    let n = pairs.len();
                    let mut i: usize = 0;
                    while i < n
                        invariant
                            n == pairs@.len(),
                            i <= n,
                            values@.len() == 2 * i,
                            values_views(values@) == flatten_pairs(
                                crate::storage::pair_views(pairs@).take(i as int),
                            ),
                        decreases n - i,
                    {
                        let k = pairs[i].key.clone();
                        let v = pairs[i].value.clone();
                        values.push(Value::Str(k));
                        values.push(v);
                        proof {
                            let pv = crate::storage::pair_views(pairs@);
                            assert(pv.take(i + 1).drop_last() =~= pv.take(i as int));
                            assert(pv.take(i + 1).last() == pv[i as int]);
                            assert(values_views(values@) =~~= flatten_pairs(pv.take(i + 1)));
                        }
                        i = i + 1;
                    }
                    proof {
                        let pv = crate::storage::pair_views(pairs@);
                        assert(pv.take(n as int) =~= pv);
                        assert(values_views(values@) == flatten_pairs(witness));
                    }
                    CommandResponse { status: STATUS_OK, message: String::new(), values }
                },
                Err(e) => error_response(e),
            }
        },
    }
}

/// Interprets what the decoder produced: a recognized command is
/// dispatched; a malformed one is answered with a bad-request response
/// and no storage call at all.
pub fn dispatch_decoded<S: Storage>(store: &mut S, req: Option<CommandRequest>) -> (resp:
    CommandResponse)
    requires
        old(store).wf(),
    ensures
        final(store).wf(),
        final(store).never_fails() == old(store).never_fails(),
        match req {
            Some(c) => dispatch_post(
                c@,
                old(store).tables(),
                old(store).never_fails(),
                final(store).tables(),
                resp@,
            ),
            None => final(store).tables() == old(store).tables() && resp@.status
                == STATUS_BAD_REQUEST && resp@.values == Seq::<ValueModel>::empty()
                && resp@.message == "invalid command"@,
        },
{
    match req {
        Some(c) => dispatch(store, c),
        None => {
            let resp = CommandResponse {
                status: STATUS_BAD_REQUEST,
                message: "invalid command".to_owned(),
                values: Vec::new(),
            };
            proof {
                assert(values_views(resp.values@) =~= Seq::<ValueModel>::empty());
            }
            resp
        },
    }
}

/// A success carrying exactly one value.
fn ok_response_one(v: Value) -> (resp: CommandResponse)
    ensures
        resp@.status == STATUS_OK,
        resp@.message == Seq::<char>::empty(),
        resp@.values == seq![v@],
{
    let mut values: Vec<Value> = Vec::new();
    values.push(v);
    proof {
        assert(values_views(values@) =~= seq![v@]);
    }
    CommandResponse { status: STATUS_OK, message: String::new(), values }
}

/// The not-found answer of a read: empty values, never an error.
fn not_found_response() -> (resp: CommandResponse)
    ensures
        resp@.status == STATUS_NOT_FOUND,
        resp@.message == "not found"@,
        resp@.values == Seq::<ValueModel>::empty(),
{
    let resp = CommandResponse {
        status: STATUS_NOT_FOUND,
        message: "not found".to_owned(),
        values: Vec::new(),
    };
    proof {
        assert(values_views(resp.values@) =~= Seq::<ValueModel>::empty());
    }
    resp
}

/// A write's success: the previous value if there was one.
fn write_response(prev: Option<Value>) -> (resp: CommandResponse)
    ensures
        resp@.status == STATUS_OK,
        resp@.message == Seq::<char>::empty(),
        resp@.values == (match prev {
            Some(v) => seq![v@],
            None => Seq::<ValueModel>::empty(),
        }),
{
    match prev {
        Some(v) => ok_response_one(v),
        None => {
            let resp = CommandResponse { status: STATUS_OK, message: String::new(), values: Vec::new() };
            proof {
                assert(values_views(resp.values@) =~= Seq::<ValueModel>::empty());
            }
            resp
        },
    }
}

/// An engine failure, turned into a response instead of a panic; the
/// message carries the engine's description.
fn error_response(e: crate::error::KvError) -> (resp: CommandResponse)
    ensures
        resp@.status == STATUS_SERVER_ERROR,
        resp@.message == e.description(),
        resp@.values == Seq::<ValueModel>::empty(),
{
    let resp = CommandResponse {
        status: STATUS_SERVER_ERROR,
        message: e.into_message(),
        values: Vec::new(),
    };
    proof {
        assert(values_views(resp.values@) =~= Seq::<ValueModel>::empty());
    }
    resp
}

} // verus!
