use vstd::prelude::*;

use vstd::bytes::{
    spec_u32_from_le_bytes, spec_u32_to_le_bytes, spec_u64_from_le_bytes, spec_u64_to_le_bytes,
    u32_from_le_bytes, u32_to_le_bytes, u64_from_le_bytes, u64_to_le_bytes,
};
use vstd::slice::{slice_subrange, slice_to_vec};
use vstd::string::StrSliceExecFns;
use vstd::utf8::{decode_utf8, encode_utf8, valid_utf8};

use crate::dispatcher::{
    values_views, CommandRequest, CommandResponse, RequestModel, ResponseModel,
};
use crate::value::{clone_bytes, Kvpair, Value, ValueModel};

verus! {

// The wire form of a message. Every integer is little-endian. A string is
// its UTF-8 byte length as eight bytes, then the bytes; a byte field
// likewise. A value is one tag byte, then its content. A request is one
// operation tag byte, then its fields; a response is the status as four
// bytes, the message string, the value count as eight bytes, then the
// values. A frame on a stream is the payload's byte length as eight
// bytes, then the payload.
/// The encoding of one string field.
pub open spec fn spec_encode_str(s: Seq<char>) -> Seq<u8> {
    spec_u64_to_le_bytes(encode_utf8(s).len() as u64) + encode_utf8(s)
}

/// The encoding of one raw byte field.
pub open spec fn spec_encode_bytes(b: Seq<u8>) -> Seq<u8> {
    spec_u64_to_le_bytes(b.len() as u64) + b
}

/// The encoding of one value: a tag byte, then the content.
pub open spec fn spec_encode_value(v: ValueModel) -> Seq<u8> {
    match v {
        ValueModel::Str(s) => seq![0u8] + spec_encode_str(s),
        ValueModel::Bytes(b) => seq![1u8] + spec_encode_bytes(b),
        ValueModel::Int(i) => seq![2u8] + spec_u64_to_le_bytes(i as u64),
        ValueModel::FloatBits(x) => seq![3u8] + spec_u64_to_le_bytes(x),
        ValueModel::Bool(b) => seq![
            4u8,
            if b {
                1u8
            } else {
                0u8
            },
        ],
    }
}

/// The encoding of a sequence of values, in order.
pub open spec fn spec_encode_value_list(s: Seq<ValueModel>) -> Seq<u8>
    decreases s.len(),
{
    if s.len() == 0 {
        Seq::empty()
    } else {
        spec_encode_value(s.first()) + spec_encode_value_list(s.drop_first())
    }
}

/// The encoding of one request: an operation tag byte, then its fields.
pub open spec fn spec_encode_request(r: RequestModel) -> Seq<u8> {
    match r {
        RequestModel::Hget { table, key } => seq![1u8] + spec_encode_str(table) + spec_encode_str(
            key,
        ),
        RequestModel::Hgetall { table } => seq![2u8] + spec_encode_str(table),
        RequestModel::Hset { table, key, value } => seq![3u8] + spec_encode_str(table)
            + spec_encode_str(key) + spec_encode_value(value),
        RequestModel::Hdel { table, key } => seq![4u8] + spec_encode_str(table) + spec_encode_str(
            key,
        ),
        RequestModel::Hexist { table, key } => seq![5u8] + spec_encode_str(table)
            + spec_encode_str(key),
    }
}

/// The encoding of one response.
pub open spec fn spec_encode_response(r: ResponseModel) -> Seq<u8> {
    spec_u32_to_le_bytes(r.status) + spec_encode_str(r.message) + spec_u64_to_le_bytes(
        r.values.len() as u64,
    ) + spec_encode_value_list(r.values)
}

// ---------------------------------------------------------------------
// The decoder, first as a total specification, then executable code that
// returns exactly what the specification says.
/// Reads eight bytes as an integer; fails where fewer than eight remain.
pub open spec fn spec_read_u64(b: Seq<u8>, pos: int) -> Option<(u64, int)> {
    if 0 <= pos && pos + 8 <= b.len() {
        Some((spec_u64_from_le_bytes(b.subrange(pos, pos + 8)), pos + 8))
    } else {
        None
    }
}

/// Reads four bytes as an integer.
pub open spec fn spec_read_u32(b: Seq<u8>, pos: int) -> Option<(u32, int)> {
    if 0 <= pos && pos + 4 <= b.len() {
        Some((spec_u32_from_le_bytes(b.subrange(pos, pos + 4)), pos + 4))
    } else {
        None
    }
}

/// Reads one string field; fails where the counted bytes run past the
/// buffer or are not valid UTF-8.
pub open spec fn spec_read_str(b: Seq<u8>, pos: int) -> Option<(Seq<char>, int)> {
    match spec_read_u64(b, pos) {
        Some((n, p)) => if p + n <= b.len() && valid_utf8(b.subrange(p, p + n)) {
            Some((decode_utf8(b.subrange(p, p + n)), p + n))
        } else {
            None
        },
        None => None,
    }
}

/// Reads one raw byte field.
pub open spec fn spec_read_bytes(b: Seq<u8>, pos: int) -> Option<(Seq<u8>, int)> {
    match spec_read_u64(b, pos) {
        Some((n, p)) => if p + n <= b.len() {
            Some((b.subrange(p, p + n), p + n))
        } else {
            None
        },
        None => None,
    }
}

/// Reads one value: the tag byte decides the content.
pub open spec fn spec_decode_value(b: Seq<u8>, pos: int) -> Option<(ValueModel, int)> {
    if !(0 <= pos < b.len()) {
        None
    } else {
        let tag = b[pos];
        if tag == 0 {
            match spec_read_str(b, pos + 1) {
                Some((s, p)) => Some((ValueModel::Str(s), p)),
                None => None,
            }
        } else if tag == 1 {
            match spec_read_bytes(b, pos + 1) {
                Some((raw, p)) => Some((ValueModel::Bytes(raw), p)),
                None => None,
            }
        } else if tag == 2 {
            match spec_read_u64(b, pos + 1) {
                Some((n, p)) => Some((ValueModel::Int(n as i64), p)),
                None => None,
            }
        } else if tag == 3 {
            match spec_read_u64(b, pos + 1) {
                Some((n, p)) => Some((ValueModel::FloatBits(n), p)),
                None => None,
            }
        } else if tag == 4 {
            if pos + 1 < b.len() && (b[pos + 1] == 0 || b[pos + 1] == 1) {
                Some((ValueModel::Bool(b[pos + 1] == 1), pos + 2))
            } else {
                None
            }
        } else {
            None
        }
    }
}

/// Reads `count` values, one after the other.
pub open spec fn spec_decode_value_list(b: Seq<u8>, pos: int, count: nat) -> Option<
    (Seq<ValueModel>, int),
>
    decreases count,
{
    if count == 0 {
        Some((Seq::empty(), pos))
    } else {
        match spec_decode_value(b, pos) {
            Some((v, p)) => match spec_decode_value_list(b, p, (count - 1) as nat) {
                Some((s, p2)) => Some((seq![v] + s, p2)),
                None => None,
            },
            None => None,
        }
    }
}

/// What a whole request buffer decodes to, if anything: the tag and
/// fields must parse and use the buffer exactly.
pub open spec fn spec_decode_request(b: Seq<u8>) -> Option<RequestModel> {
    if b.len() < 1 {
        None
    } else {
        let tag = b[0];
        if tag == 1 || tag == 4 || tag == 5 {
            match spec_read_str(b, 1) {
                Some((t, p)) => match spec_read_str(b, p) {
                    Some((k, p2)) => if p2 == b.len() {
                        if tag == 1 {
                            Some(RequestModel::Hget { table: t, key: k })
                        } else if tag == 4 {
                            Some(RequestModel::Hdel { table: t, key: k })
                        } else {
                            Some(RequestModel::Hexist { table: t, key: k })
                        }
                    } else {
                        None
                    },
                    None => None,
                },
                None => None,
            }
        } else if tag == 2 {
            match spec_read_str(b, 1) {
                Some((t, p)) => if p == b.len() {
                    Some(RequestModel::Hgetall { table: t })
                } else {
                    None
                },
                None => None,
            }
        } else if tag == 3 {
            match spec_read_str(b, 1) {
                Some((t, p)) => match spec_read_str(b, p) {
                    Some((k, p2)) => match spec_decode_value(b, p2) {
                        Some((v, p3)) => if p3 == b.len() {
                            Some(RequestModel::Hset { table: t, key: k, value: v })
                        } else {
                            None
                        },
                        None => None,
                    },
                    None => None,
                },
                None => None,
            }
        } else {
            None
        }
    }
}

/// What a whole response buffer decodes to, if anything.
pub open spec fn spec_decode_response(b: Seq<u8>) -> Option<ResponseModel> {
    match spec_read_u32(b, 0) {
        Some((status, p)) => match spec_read_str(b, p) {
            Some((message, p2)) => match spec_read_u64(b, p2) {
                Some((count, p3)) => match spec_decode_value_list(b, p3, count as nat) {
                    Some((values, p4)) => if p4 == b.len() {
                        Some(ResponseModel { status, message, values })
                    } else {
                        None
                    },
                    None => None,
                },
                None => None,
            },
            None => None,
        },
        None => None,
    }
}

// ---------------------------------------------------------------------
// Executable encoding.
/// Appends the eight-byte form of an integer.
fn push_u64(out: &mut Vec<u8>, n: u64)
    ensures
        final(out)@ == old(out)@ + spec_u64_to_le_bytes(n),
{
    let mut b = u64_to_le_bytes(n);
    out.append(&mut b);
}

/// Appends the four-byte form of an integer.
fn push_u32(out: &mut Vec<u8>, n: u32)
    ensures
        final(out)@ == old(out)@ + spec_u32_to_le_bytes(n),
{
    let mut b = u32_to_le_bytes(n);
    out.append(&mut b);
}

/// Appends one string field.
fn push_str_field(out: &mut Vec<u8>, s: &str)
    ensures
        final(out)@ == old(out)@ + spec_encode_str(s@),
{
    let mut b = s.as_bytes_vec();
    push_u64(out, b.len() as u64);
    out.append(&mut b);
    proof {
        assert(out@ =~= old(out)@ + spec_encode_str(s@));
    }
}

/// Appends one raw byte field.
fn push_bytes_field(out: &mut Vec<u8>, b: &Vec<u8>)
    ensures
        final(out)@ == old(out)@ + spec_encode_bytes(b@),
{
    push_u64(out, b.len() as u64);
    let mut copy = clone_bytes(b);
    out.append(&mut copy);
    proof {
        assert(out@ =~= old(out)@ + spec_encode_bytes(b@));
    }
}

/// Appends one value.
fn push_value(out: &mut Vec<u8>, v: &Value)
    ensures
        final(out)@ == old(out)@ + spec_encode_value(v@),
{
    match v {
        Value::Str(s) => {
            out.push(0u8);
            push_str_field(out, s.as_str());
        },
        Value::Bytes(b) => {
            out.push(1u8);
            push_bytes_field(out, b);
        },
        Value::Int(i) => {
            out.push(2u8);
            push_u64(out, *i as u64);
        },
        Value::FloatBits(x) => {
            out.push(3u8);
            push_u64(out, *x);
        },
        Value::Bool(b) => {
            out.push(4u8);
            if *b {
                out.push(1u8);
            } else {
                out.push(0u8);
            }
        },
    }
    proof {
        assert(out@ =~= old(out)@ + spec_encode_value(v@));
    }
}

/// Encoding a list one value at a time extends the list's encoding.
proof fn lemma_encode_list_snoc(s: Seq<ValueModel>, v: ValueModel)
    ensures
        spec_encode_value_list(s.push(v)) == spec_encode_value_list(s) + spec_encode_value(v),
    decreases s.len(),
{
    assert(spec_encode_value_list(Seq::<ValueModel>::empty()) == Seq::<u8>::empty());
    if s.len() == 0 {
        assert(s.push(v).first() == v);
        assert(s.push(v).drop_first() =~~= Seq::<ValueModel>::empty());
        assert(spec_encode_value_list(s.push(v).drop_first()) == Seq::<u8>::empty());
        assert(spec_encode_value_list(s.push(v)) =~= spec_encode_value_list(s)
            + spec_encode_value(v));
    } else {
        assert(s.push(v).first() == s.first());
        assert(s.push(v).drop_first() =~~= s.drop_first().push(v));
        lemma_encode_list_snoc(s.drop_first(), v);
        assert(spec_encode_value_list(s.push(v)) =~= spec_encode_value_list(s)
            + spec_encode_value(v));
    }
}

/// Serializes one request to its wire form.
pub fn encode_request(req: &CommandRequest) -> (out: Vec<u8>)
    ensures
        out@ == spec_encode_request(req@),
{
    let mut out: Vec<u8> = Vec::new();
    match req {
        CommandRequest::Hget { table, key } => {
            out.push(1u8);
            push_str_field(&mut out, table.as_str());
            push_str_field(&mut out, key.as_str());
        },
        CommandRequest::Hgetall { table } => {
            out.push(2u8);
            push_str_field(&mut out, table.as_str());
        },
        CommandRequest::Hset { table, pair } => {
            out.push(3u8);
            push_str_field(&mut out, table.as_str());
            push_str_field(&mut out, pair.key.as_str());
            push_value(&mut out, &pair.value);
        },
        CommandRequest::Hdel { table, key } => {
            out.push(4u8);
            push_str_field(&mut out, table.as_str());
            push_str_field(&mut out, key.as_str());
        },
        CommandRequest::Hexist { table, key } => {
            out.push(5u8);
            push_str_field(&mut out, table.as_str());
            push_str_field(&mut out, key.as_str());
        },
    }
    proof {
        assert(out@ =~= spec_encode_request(req@));
    }
    out
}

/// Serializes one response to its wire form.
pub fn encode_response(resp: &CommandResponse) -> (out: Vec<u8>)
    ensures
        out@ == spec_encode_response(resp@),
{
    let mut out: Vec<u8> = Vec::new();
    push_u32(&mut out, resp.status);
    push_str_field(&mut out, resp.message.as_str());
    push_u64(&mut out, resp.values.len() as u64);
    let ghost head = out@;
    let n = resp.values.len();
    let mut i: usize = 0;
    while i < n
        invariant
            n == resp.values@.len(),
            i <= n,
            out@ == head + spec_encode_value_list(values_views(resp.values@).take(i as int)),
        decreases n - i,
    {
        push_value(&mut out, &resp.values[i]);
        proof {
            let vs = values_views(resp.values@);
            assert(vs.take(i + 1) =~= vs.take(i as int).push(vs[i as int]));
            lemma_encode_list_snoc(vs.take(i as int), vs[i as int]);
            assert(out@ =~= head + spec_encode_value_list(vs.take(i + 1)));
        }
        i = i + 1;
    }
    proof {
        assert(values_views(resp.values@).take(n as int) =~= values_views(resp.values@));
        assert(out@ =~= spec_encode_response(resp@));
    }
    out
}

/// Wraps a payload in a frame: its byte length as eight bytes, then the
/// payload itself, so a reader knows the length before decoding.
pub fn encode_frame(payload: &Vec<u8>) -> (out: Vec<u8>)
    ensures
        out@ == spec_u64_to_le_bytes(payload@.len() as u64) + payload@,
{
    let mut out: Vec<u8> = Vec::new();
    push_u64(&mut out, payload.len() as u64);
    let mut copy = clone_bytes(payload);
    out.append(&mut copy);
    out
}

/// Reads a frame header: the payload length that follows it.
pub fn frame_payload_len(header: &Vec<u8>) -> (r: Option<u64>)
    ensures
        match spec_read_u64(header@, 0) {
            Some((n, _)) => r == Some(n),
            None => r is None,
        },
{
    match read_u64_at(header, 0) {
        Some((n, _)) => Some(n),
        None => None,
    }
}

// ---------------------------------------------------------------------
// Executable decoding: each function returns exactly what the
// specification-level reader says.
/// Reads eight bytes as an integer.
fn read_u64_at(bytes: &Vec<u8>, pos: usize) -> (r: Option<(u64, usize)>)
    ensures
        match r {
            Some((n, p)) => spec_read_u64(bytes@, pos as int) == Some((n, p as int)),
            None => spec_read_u64(bytes@, pos as int) is None,
        },
{
    if pos <= bytes.len() && bytes.len() - pos >= 8 {
        let sl = slice_subrange(bytes.as_slice(), pos, pos + 8);
        Some((u64_from_le_bytes(sl), pos + 8))
    } else {
        None
    }
}

/// Reads four bytes as an integer.
fn read_u32_at(bytes: &Vec<u8>, pos: usize) -> (r: Option<(u32, usize)>)
    ensures
        match r {
            Some((n, p)) => spec_read_u32(bytes@, pos as int) == Some((n, p as int)),
            None => spec_read_u32(bytes@, pos as int) is None,
        },
{
    if pos <= bytes.len() && bytes.len() - pos >= 4 {
        let sl = slice_subrange(bytes.as_slice(), pos, pos + 4);
        Some((u32_from_le_bytes(sl), pos + 4))
    } else {
        None
    }
}

/// Relies on `String::from_utf8`: it succeeds exactly on valid UTF-8 and
/// returns the string of those bytes, so the bytes are the UTF-8 form of
/// the result's characters; stated through vstd's UTF-8 model.
#[verifier::external_body]
fn bytes_to_string(bytes: Vec<u8>) -> (r: Option<String>)
    ensures
        match r {
            Some(s) => bytes@ == encode_utf8(s@),
            None => !valid_utf8(bytes@),
        },
{
    match String::from_utf8(bytes) {
        Ok(s) => Some(s),
        Err(_) => None,
    }
}

/// Reads one string field.
fn read_str_at(bytes: &Vec<u8>, pos: usize) -> (r: Option<(String, usize)>)
    ensures
        match r {
            Some((s, p)) => spec_read_str(bytes@, pos as int) == Some((s@, p as int)),
            None => spec_read_str(bytes@, pos as int) is None,
        },
{
    match read_u64_at(bytes, pos) {
        None => None,
        Some((n, p)) => {
            if n <= (bytes.len() - p) as u64 {
                let n_us = n as usize;
                let raw = slice_to_vec(slice_subrange(bytes.as_slice(), p, p + n_us));
                match bytes_to_string(raw) {
                    Some(s) => {
                        proof {
                            broadcast use vstd::utf8::encode_utf8_valid_utf8;
                            broadcast use vstd::utf8::encode_utf8_decode_utf8;

                            assert(valid_utf8(bytes@.subrange(p as int, p + n)));
                            assert(decode_utf8(bytes@.subrange(p as int, p + n)) == s@);
                        }
                        Some((s, p + n_us))
                    },
                    None => None,
                }
            } else {
                None
            }
        },
    }
}

/// Reads one raw byte field.
fn read_bytes_at(bytes: &Vec<u8>, pos: usize) -> (r: Option<(Vec<u8>, usize)>)
    ensures
        match r {
            Some((raw, p)) => spec_read_bytes(bytes@, pos as int) == Some((raw@, p as int)),
            None => spec_read_bytes(bytes@, pos as int) is None,
        },
{
    match read_u64_at(bytes, pos) {
        None => None,
        Some((n, p)) => {
            if n <= (bytes.len() - p) as u64 {
                let n_us = n as usize;
                let raw = slice_to_vec(slice_subrange(bytes.as_slice(), p, p + n_us));
                Some((raw, p + n_us))
            } else {
                None
            }
        },
    }
}

/// Reads one value.
fn decode_value_at(bytes: &Vec<u8>, pos: usize) -> (r: Option<(Value, usize)>)
    ensures
        match r {
            Some((v, p)) => spec_decode_value(bytes@, pos as int) == Some((v@, p as int)),
            None => spec_decode_value(bytes@, pos as int) is None,
        },
{
    if pos >= bytes.len() {
        return None;
    }
    let tag = bytes[pos];
    if tag == 0 {
        match read_str_at(bytes, pos + 1) {
            Some((s, p)) => Some((Value::Str(s), p)),
            None => None,
        }
    } else if tag == 1 {
        match read_bytes_at(bytes, pos + 1) {
            Some((raw, p)) => Some((Value::Bytes(raw), p)),
            None => None,
        }
    } else if tag == 2 {
        match read_u64_at(bytes, pos + 1) {
            Some((n, p)) => Some((Value::Int(n as i64), p)),
            None => None,
        }
    } else if tag == 3 {
        match read_u64_at(bytes, pos + 1) {
            Some((n, p)) => Some((Value::FloatBits(n), p)),
            None => None,
        }
    } else if tag == 4 {
        if pos + 1 < bytes.len() {
            let bb = bytes[pos + 1];
            if bb == 0 || bb == 1 {
                Some((Value::Bool(bb == 1), pos + 2))
            } else {
                None
            }
        } else {
            None
        }
    } else {
        None
    }
}

/// Reads `count` values, one after the other.
fn decode_value_list_at(bytes: &Vec<u8>, pos: usize, count: u64) -> (r: Option<(Vec<Value>, usize)>)
    ensures
        match r {
            Some((vs, p)) => spec_decode_value_list(bytes@, pos as int, count as nat) == Some(
                (values_views(vs@), p as int),
            ),
            None => spec_decode_value_list(bytes@, pos as int, count as nat) is None,
        },
    decreases count,
{
    if count == 0 {
        let vs: Vec<Value> = Vec::new();
        proof {
            assert(values_views(vs@) =~= Seq::<ValueModel>::empty());
        }
        Some((vs, pos))
    } else {
        match decode_value_at(bytes, pos) {
            Some((v, p)) => {
                match decode_value_list_at(bytes, p, count - 1) {
                    Some((mut vs, p2)) => {
                        let ghost tail = values_views(vs@);
                        vs.insert(0, v);
                        proof {
                            assert(values_views(vs@) =~~= seq![v@] + tail);
                        }
                        Some((vs, p2))
                    },
                    None => None,
                }
            },
            None => None,
        }
    }
}

/// Parses one request buffer; answers exactly what the wire grammar
/// admits, and nothing on any other input.
pub fn decode_request(bytes: &Vec<u8>) -> (r: Option<CommandRequest>)
    ensures
        match r {
            Some(req) => spec_decode_request(bytes@) == Some(req@),
            None => spec_decode_request(bytes@) is None,
        },
{
    if bytes.len() < 1 {
        return None;
    }
    let tag = bytes[0];
    if tag == 1 || tag == 4 || tag == 5 {
        match read_str_at(bytes, 1) {
            Some((table, p)) => match read_str_at(bytes, p) {
                Some((key, p2)) => if p2 == bytes.len() {
                    if tag == 1 {
                        Some(CommandRequest::Hget { table, key })
                    } else if tag == 4 {
                        Some(CommandRequest::Hdel { table, key })
                    } else {
                        Some(CommandRequest::Hexist { table, key })
                    }
                } else {
                    None
                },
                None => None,
            },
            None => None,
        }
    } else if tag == 2 {
        match read_str_at(bytes, 1) {
            Some((table, p)) => if p == bytes.len() {
                Some(CommandRequest::Hgetall { table })
            } else {
                None
            },
            None => None,
        }
    } else if tag == 3 {
        match read_str_at(bytes, 1) {
            Some((table, p)) => match read_str_at(bytes, p) {
                Some((key, p2)) => match decode_value_at(bytes, p2) {
                    Some((value, p3)) => if p3 == bytes.len() {
                        Some(CommandRequest::Hset { table, pair: Kvpair { key, value } })
                    } else {
                        None
                    },
                    None => None,
                },
                None => None,
            },
            None => None,
        }
    } else {
        None
    }
}

/// Parses one response buffer.
pub fn decode_response(bytes: &Vec<u8>) -> (r: Option<CommandResponse>)
    ensures
        match r {
            Some(resp) => spec_decode_response(bytes@) == Some(resp@),
            None => spec_decode_response(bytes@) is None,
        },
{
    match read_u32_at(bytes, 0) {
        Some((status, p)) => match read_str_at(bytes, p) {
            Some((message, p2)) => match read_u64_at(bytes, p2) {
                Some((count, p3)) => match decode_value_list_at(bytes, p3, count) {
                    Some((values, p4)) => if p4 == bytes.len() {
                        Some(CommandResponse { status, message, values })
                    } else {
                        None
                    },
                    None => None,
                },
                None => None,
            },
            None => None,
        },
        None => None,
    }
}


// ---------------------------------------------------------------------
// Round trip: decoding an encoding yields the message back.
/// Whether a value's lengths fit the wire's eight-byte length fields.
pub open spec fn value_encodable(v: ValueModel) -> bool {
    match v {
        ValueModel::Str(s) => encode_utf8(s).len() <= u64::MAX,
        ValueModel::Bytes(b) => b.len() <= u64::MAX,
        _ => true,
    }
}

/// Whether a request's lengths fit the wire's length fields.
pub open spec fn request_encodable(r: RequestModel) -> bool {
    match r {
        RequestModel::Hget { table, key } => encode_utf8(table).len() <= u64::MAX && encode_utf8(
            key,
        ).len() <= u64::MAX,
        RequestModel::Hgetall { table } => encode_utf8(table).len() <= u64::MAX,
        RequestModel::Hset { table, key, value } => encode_utf8(table).len() <= u64::MAX
            && encode_utf8(key).len() <= u64::MAX && value_encodable(value),
        RequestModel::Hdel { table, key } => encode_utf8(table).len() <= u64::MAX && encode_utf8(
            key,
        ).len() <= u64::MAX,
        RequestModel::Hexist { table, key } => encode_utf8(table).len() <= u64::MAX && encode_utf8(
            key,
        ).len() <= u64::MAX,
    }
}

/// Whether a response's lengths fit the wire's length fields.
pub open spec fn response_encodable(r: ResponseModel) -> bool {
    encode_utf8(r.message).len() <= u64::MAX && r.values.len() <= u64::MAX && forall|i: int|
        0 <= i < r.values.len() ==> value_encodable(#[trigger] r.values[i])
}

/// A window of a window of the buffer is the inner window.
proof fn lemma_subrange_at(b: Seq<u8>, pos: int, e: Seq<u8>, off: int, l: int)
    requires
        0 <= pos,
        pos + e.len() <= b.len(),
        b.subrange(pos, pos + e.len()) == e,
        0 <= off,
        0 <= l,
        off + l <= e.len(),
    ensures
        b.subrange(pos + off, pos + off + l) == e.subrange(off, off + l),
{
    assert forall|i: int| 0 <= i < l implies #[trigger] b.subrange(pos + off, pos + off + l)[i]
        == e.subrange(off, off + l)[i] by {
        assert(b.subrange(pos, pos + e.len())[off + i] == e[off + i]);
    }
    assert(b.subrange(pos + off, pos + off + l) =~= e.subrange(off, off + l));
}

/// Where the buffer carries an integer's eight bytes, the reader sees it.
proof fn lemma_read_u64_round(b: Seq<u8>, pos: int, n: u64)
    requires
        0 <= pos,
        pos + 8 <= b.len(),
        b.subrange(pos, pos + 8) == spec_u64_to_le_bytes(n),
    ensures
        spec_read_u64(b, pos) == Some((n, pos + 8)),
{
    vstd::bytes::lemma_auto_spec_u64_to_from_le_bytes();
}

/// Where the buffer carries a string field's encoding, the reader sees
/// exactly that string.
proof fn lemma_read_str_round(b: Seq<u8>, pos: int, s: Seq<char>)
    requires
        0 <= pos,
        encode_utf8(s).len() <= u64::MAX,
        pos + spec_encode_str(s).len() <= b.len(),
        b.subrange(pos, pos + spec_encode_str(s).len()) == spec_encode_str(s),
    ensures
        spec_read_str(b, pos) == Some((s, pos + spec_encode_str(s).len())),
{
    broadcast use vstd::utf8::encode_utf8_valid_utf8;
    broadcast use vstd::utf8::encode_utf8_decode_utf8;

    vstd::bytes::lemma_auto_spec_u64_to_from_le_bytes();
    let u = encode_utf8(s);
    let n = u.len() as u64;
    let e = spec_encode_str(s);
    assert(e.len() == 8 + u.len() as int);
    lemma_subrange_at(b, pos, e, 0, 8);
    assert(e.subrange(0, 8) =~= spec_u64_to_le_bytes(n));
    lemma_read_u64_round(b, pos, n);
    lemma_subrange_at(b, pos, e, 8, u.len() as int);
    assert(e.subrange(8, 8 + u.len() as int) =~= u);
    assert(b.subrange(pos + 8, pos + 8 + n as int) == u);
}

/// Where the buffer carries a byte field's encoding, the reader sees
/// exactly those bytes.
proof fn lemma_read_bytes_round(b: Seq<u8>, pos: int, raw: Seq<u8>)
    requires
        0 <= pos,
        raw.len() <= u64::MAX,
        pos + spec_encode_bytes(raw).len() <= b.len(),
        b.subrange(pos, pos + spec_encode_bytes(raw).len()) == spec_encode_bytes(raw),
    ensures
        spec_read_bytes(b, pos) == Some((raw, pos + spec_encode_bytes(raw).len())),
{
    vstd::bytes::lemma_auto_spec_u64_to_from_le_bytes();
    let n = raw.len() as u64;
    let e = spec_encode_bytes(raw);
    assert(e.len() == 8 + raw.len() as int);
    lemma_subrange_at(b, pos, e, 0, 8);
    assert(e.subrange(0, 8) =~= spec_u64_to_le_bytes(n));
    lemma_read_u64_round(b, pos, n);
    lemma_subrange_at(b, pos, e, 8, raw.len() as int);
    assert(e.subrange(8, 8 + raw.len() as int) =~= raw);
    assert(b.subrange(pos + 8, pos + 8 + n as int) == raw);
}

/// Where the buffer carries a value's encoding, the reader sees exactly
/// that value.
proof fn lemma_decode_value_round(b: Seq<u8>, pos: int, v: ValueModel)
    requires
        0 <= pos,
        value_encodable(v),
        pos + spec_encode_value(v).len() <= b.len(),
        b.subrange(pos, pos + spec_encode_value(v).len()) == spec_encode_value(v),
    ensures
        spec_decode_value(b, pos) == Some((v, pos + spec_encode_value(v).len())),
{
    vstd::bytes::lemma_auto_spec_u64_to_from_le_bytes();
    let e = spec_encode_value(v);
    assert(b[pos] == e[0]) by {
        assert(b.subrange(pos, pos + e.len())[0] == e[0]);
    }
    match v {
        ValueModel::Str(s) => {
            assert(e[0] == 0u8);
            lemma_subrange_at(b, pos, e, 1, spec_encode_str(s).len() as int);
            assert(e.subrange(1, 1 + spec_encode_str(s).len() as int) =~= spec_encode_str(s));
            lemma_read_str_round(b, pos + 1, s);
        },
        ValueModel::Bytes(raw) => {
            assert(e[0] == 1u8);
            lemma_subrange_at(b, pos, e, 1, spec_encode_bytes(raw).len() as int);
            assert(e.subrange(1, 1 + spec_encode_bytes(raw).len() as int) =~= spec_encode_bytes(raw));
            lemma_read_bytes_round(b, pos + 1, raw);
        },
        ValueModel::Int(i) => {
            assert(e[0] == 2u8);
            lemma_subrange_at(b, pos, e, 1, 8);
            assert(e.subrange(1, 9) =~= spec_u64_to_le_bytes(i as u64)) by {
                vstd::bytes::lemma_auto_spec_u64_to_from_le_bytes();
            }
            lemma_read_u64_round(b, pos + 1, i as u64);
            assert(((i as u64) as i64) == i) by (bit_vector);
        },
        ValueModel::FloatBits(x) => {
            assert(e[0] == 3u8);
            lemma_subrange_at(b, pos, e, 1, 8);
            assert(e.subrange(1, 9) =~= spec_u64_to_le_bytes(x)) by {
                vstd::bytes::lemma_auto_spec_u64_to_from_le_bytes();
            }
            lemma_read_u64_round(b, pos + 1, x);
        },
        ValueModel::Bool(flag) => {
            assert(e[0] == 4u8);
            assert(b[pos + 1] == e[1]) by {
                assert(b.subrange(pos, pos + e.len())[1] == e[1]);
            }
        },
    }
}

/// Where the buffer carries a value list's encoding, the reader, told the
/// count, sees exactly that list.
proof fn lemma_decode_value_list_round(b: Seq<u8>, pos: int, s: Seq<ValueModel>)
    requires
        0 <= pos,
        forall|i: int| 0 <= i < s.len() ==> value_encodable(#[trigger] s[i]),
        pos + spec_encode_value_list(s).len() <= b.len(),
        b.subrange(pos, pos + spec_encode_value_list(s).len()) == spec_encode_value_list(s),
    ensures
        spec_decode_value_list(b, pos, s.len()) == Some(
            (s, pos + spec_encode_value_list(s).len()),
        ),
    decreases s.len(),
{
    let e = spec_encode_value_list(s);
    if s.len() == 0 {
        assert(spec_decode_value_list(b, pos, 0) == Some((Seq::<ValueModel>::empty(), pos)));
        assert(s =~~= Seq::<ValueModel>::empty());
    } else {
        let v = s.first();
        let ev = spec_encode_value(v);
        let rest = s.drop_first();
        let er = spec_encode_value_list(rest);
        assert(e == ev + er);
        lemma_subrange_at(b, pos, e, 0, ev.len() as int);
        assert(e.subrange(0, ev.len() as int) =~= ev);
        assert(s[0] == v);
        lemma_decode_value_round(b, pos, v);
        lemma_subrange_at(b, pos, e, ev.len() as int, er.len() as int);
        assert(e.subrange(ev.len() as int, e.len() as int) =~= er);
        assert(forall|i: int| 0 <= i < rest.len() ==> value_encodable(#[trigger] rest[i])) by {
            assert(forall|i: int| 0 <= i < rest.len() ==> rest[i] == s[i + 1]);
        }
        lemma_decode_value_list_round(b, pos + ev.len() as int, rest);
        assert(seq![v] + rest =~~= s);
    }
}

/// Decoding a request's encoding yields the request back: the wire form
/// loses nothing.
pub proof fn lemma_request_round_trip(r: RequestModel)
    requires
        request_encodable(r),
    ensures
        spec_decode_request(spec_encode_request(r)) == Some(r),
{
    vstd::bytes::lemma_auto_spec_u64_to_from_le_bytes();
    let b = spec_encode_request(r);
    assert(b[0] == spec_encode_request(r)[0]);
    assert(b.subrange(0, b.len() as int) =~= b);
    match r {
        RequestModel::Hget { table, key } => {
            lemma_request_two_fields_round(b, 1u8, table, key);
        },
        RequestModel::Hdel { table, key } => {
            lemma_request_two_fields_round(b, 4u8, table, key);
        },
        RequestModel::Hexist { table, key } => {
            lemma_request_two_fields_round(b, 5u8, table, key);
        },
        RequestModel::Hgetall { table } => {
            let et = spec_encode_str(table);
            assert(b == seq![2u8] + et);
            assert(b[0] == 2u8);
            lemma_subrange_at(b, 0, b, 1, et.len() as int);
            assert(b.subrange(1, 1 + et.len() as int) =~= et);
            lemma_read_str_round(b, 1, table);
        },
        RequestModel::Hset { table, key, value } => {
            let et = spec_encode_str(table);
            let ek = spec_encode_str(key);
            let ev = spec_encode_value(value);
            assert(b == seq![3u8] + et + ek + ev);
            assert(b[0] == 3u8);
            lemma_subrange_at(b, 0, b, 1, et.len() as int);
            assert(b.subrange(1, 1 + et.len() as int) =~= et);
            lemma_read_str_round(b, 1, table);
            lemma_subrange_at(b, 0, b, 1 + et.len() as int, ek.len() as int);
            assert(b.subrange(1 + et.len() as int, 1 + et.len() as int + ek.len() as int) =~= ek);
            lemma_read_str_round(b, 1 + et.len() as int, key);
            lemma_subrange_at(b, 0, b, 1 + et.len() as int + ek.len() as int, ev.len() as int);
            assert(b.subrange(1 + et.len() as int + ek.len() as int, b.len() as int) =~= ev);
            lemma_decode_value_round(b, 1 + et.len() as int + ek.len() as int, value);
        },
    }
}

/// The shared shape of the two-string-field requests.
proof fn lemma_request_two_fields_round(b: Seq<u8>, tag: u8, table: Seq<char>, key: Seq<char>)
    requires
        encode_utf8(table).len() <= u64::MAX,
        encode_utf8(key).len() <= u64::MAX,
        b == seq![tag] + spec_encode_str(table) + spec_encode_str(key),
    ensures
        spec_read_str(b, 1) == Some((table, 1 + spec_encode_str(table).len() as int)),
        spec_read_str(b, 1 + spec_encode_str(table).len() as int) == Some((key, b.len() as int)),
{
    vstd::bytes::lemma_auto_spec_u64_to_from_le_bytes();
    let et = spec_encode_str(table);
    let ek = spec_encode_str(key);
    assert(b.len() == 1 + et.len() + ek.len());
    assert(b.subrange(1, 1 + et.len() as int) =~= et);
    lemma_read_str_round(b, 1, table);
    assert(b.subrange(1 + et.len() as int, b.len() as int) =~= ek);
    lemma_read_str_round(b, 1 + et.len() as int, key);
}

/// Decoding a response's encoding yields the response back.
pub proof fn lemma_response_round_trip(r: ResponseModel)
    requires
        response_encodable(r),
    ensures
        spec_decode_response(spec_encode_response(r)) == Some(r),
{
    vstd::bytes::lemma_auto_spec_u32_to_from_le_bytes();
    vstd::bytes::lemma_auto_spec_u64_to_from_le_bytes();
    let b = spec_encode_response(r);
    let es = spec_u32_to_le_bytes(r.status);
    let em = spec_encode_str(r.message);
    let ec = spec_u64_to_le_bytes(r.values.len() as u64);
    let el = spec_encode_value_list(r.values);
    assert(b == es + em + ec + el);
    assert(es.len() == 4);
    assert(b.subrange(0, b.len() as int) =~= b);
    assert(b.subrange(0, 4) =~= es);
    assert(spec_read_u32(b, 0) == Some((r.status, 4int)));
    lemma_subrange_at(b, 0, b, 4, em.len() as int);
    assert(b.subrange(4, 4 + em.len() as int) =~= em);
    lemma_read_str_round(b, 4, r.message);
    lemma_subrange_at(b, 0, b, 4 + em.len() as int, 8);
    assert(b.subrange(4 + em.len() as int, 4 + em.len() as int + 8) =~= ec);
    lemma_read_u64_round(b, 4 + em.len() as int, r.values.len() as u64);
    lemma_subrange_at(b, 0, b, 4 + em.len() as int + 8, el.len() as int);
    assert(b.subrange(4 + em.len() as int + 8, b.len() as int) =~= el);
    assert((r.values.len() as u64) as nat == r.values.len());
    lemma_decode_value_list_round(b, 4 + em.len() as int + 8, r.values);
}


} // verus!
