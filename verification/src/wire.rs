//! Wire-level message envelopes.
//!
//! A command goes out as `{"id": n, "method": m, "params": p}`. A frame
//! coming back is either a response — an object carrying an `id` and
//! either a `result` or an `error` with a `message` — or an event, an
//! object without an `id` but with a `method`. Anything else is malformed.

use vstd::prelude::*;
use crate::json::{
    JsonValue, Jv, deep_members, p_doc, parse_json, to_json_string, ser, lemma_deep_members_len,
};
use crate::strutil::str_eq;

verus! {

pub open spec fn key_id() -> Seq<char> {
    seq!['i', 'd']
}

pub open spec fn key_method() -> Seq<char> {
    seq!['m', 'e', 't', 'h', 'o', 'd']
}

pub open spec fn key_params() -> Seq<char> {
    seq!['p', 'a', 'r', 'a', 'm', 's']
}

pub open spec fn key_result() -> Seq<char> {
    seq!['r', 'e', 's', 'u', 'l', 't']
}

pub open spec fn key_error() -> Seq<char> {
    seq!['e', 'r', 'r', 'o', 'r']
}

pub open spec fn key_message() -> Seq<char> {
    seq!['m', 'e', 's', 's', 'a', 'g', 'e']
}

/// The binding of `key` from position `i` on.
pub open spec fn lookup_from(ms: Seq<(Seq<char>, Jv)>, key: Seq<char>, i: int) -> Option<Jv>
    decreases ms.len() - i,
{
    if i < 0 || i >= ms.len() {
        None
    } else if ms[i].0 == key {
        Some(ms[i].1)
    } else {
        lookup_from(ms, key, i + 1)
    }
}

/// The first binding of `key` in an object's members.
pub open spec fn obj_lookup(ms: Seq<(Seq<char>, Jv)>, key: Seq<char>) -> Option<Jv> {
    lookup_from(ms, key, 0)
}

/// Borrow the first binding of `key`.
pub fn obj_get<'a>(ms: &'a Vec<(String, JsonValue)>, key: &str) -> (r: Option<&'a JsonValue>)
    ensures
        match r {
            Some(v) => obj_lookup(deep_members(ms@), key@) == Some(v@),
            None => obj_lookup(deep_members(ms@), key@) is None,
        },
{
    proof {
        lemma_deep_members_len(ms@);
    }
    let ghost dm = deep_members(ms@);
    let mut i: usize = 0;
    while i < ms.len()
        invariant
            0 <= i <= ms@.len(),
            dm == deep_members(ms@),
            dm.len() == ms@.len(),
            forall|k: int| 0 <= k < ms@.len() ==> dm[k] == ((#[trigger] ms@[k]).0@, crate::json::deep(
                ms@[k].1,
            )),
            lookup_from(dm, key@, 0) == lookup_from(dm, key@, i as int),
        decreases ms@.len() - i,
    {
        if str_eq(ms[i].0.as_str(), key) {
            assert(lookup_from(dm, key@, i as int) == Some(dm[i as int].1));
            return Some(&ms[i].1);
        }
        assert(dm[i as int].0 != key@);
        i += 1;
    }
    None
}

/// Remove and return the first binding of `key`; the object keeps its
/// other members.
pub fn obj_take(ms: &mut Vec<(String, JsonValue)>, key: &str) -> (r: Option<JsonValue>)
    ensures
        match r {
            Some(v) => obj_lookup(deep_members(old(ms)@), key@) == Some(v@),
            None => obj_lookup(deep_members(old(ms)@), key@) is None && *final(ms) == *old(ms),
        },
{
    proof {
        lemma_deep_members_len(ms@);
    }
    let ghost dm = deep_members(ms@);
    let mut i: usize = 0;
    while i < ms.len()
        invariant
            0 <= i <= ms@.len(),
            *ms == *old(ms),
            dm == deep_members(ms@),
            dm.len() == ms@.len(),
            forall|k: int| 0 <= k < ms@.len() ==> dm[k] == ((#[trigger] ms@[k]).0@, crate::json::deep(
                ms@[k].1,
            )),
            lookup_from(dm, key@, 0) == lookup_from(dm, key@, i as int),
        decreases ms@.len() - i,
    {
        if str_eq(ms[i].0.as_str(), key) {
            assert(lookup_from(dm, key@, i as int) == Some(dm[i as int].1));
            let kv: (String, JsonValue) = ms.remove(i);
            return Some(kv.1);
        }
        assert(dm[i as int].0 != key@);
        i += 1;
    }
    None
}

/// The envelope of one outgoing command.
pub open spec fn command_jv(id: int, method: Seq<char>, params: Jv) -> Jv {
    Jv::Obj(
        seq![
            (key_id(), Jv::Int(id)),
            (key_method(), Jv::Str(method)),
            (key_params(), params),
        ],
    )
}

/// Serialize the command envelope `{"id": id, "method": method,
/// "params": params}`.
pub fn encode_command(id: u64, method: &str, params: JsonValue) -> (r: String)
    requires
        id <= i64::MAX as u64,
    ensures
        r@ == ser(command_jv(id as int, method@, params@)),
{
    let ghost pv = params@;
    let mut ms: Vec<(String, JsonValue)> = Vec::new();
    ms.push((String::from_str("id"), JsonValue::Int(id as i64)));
    ms.push((String::from_str("method"), JsonValue::Str(String::from_str(method))));
    ms.push((String::from_str("params"), params));
    proof {
        reveal_strlit("id");
        reveal_strlit("method");
        reveal_strlit("params");
        assert("id"@ =~= key_id());
        assert("method"@ =~= key_method());
        assert("params"@ =~= key_params());
        lemma_deep_members_len(ms@);
        let dm = deep_members(ms@);
        let cm = command_jv(id as int, method@, pv)->Obj_0;
        assert(ms@.len() == 3);
        assert(dm[0] == (ms@[0].0@, crate::json::deep(ms@[0].1)));
        assert(dm[1] == (ms@[1].0@, crate::json::deep(ms@[1].1)));
        assert(dm[2] == (ms@[2].0@, crate::json::deep(ms@[2].1)));
        assert(dm[0] == cm[0]);
        assert(dm[1] == cm[1]);
        assert(dm[2] == cm[2]);
        assert(dm =~= cm);
    }
    let v = JsonValue::Obj(ms);
    to_json_string(&v)
}

/// Every command frame this client puts on the wire is a well-formed
/// JSON document: the receiver, parsing it, sees exactly the envelope
/// that was serialized.
pub proof fn lemma_command_frame_parses(id: int, method: Seq<char>, params: Jv)
    requires
        0 <= id <= i64::MAX as int,
        crate::json::jv_wf(params),
    ensures
        p_doc(ser(command_jv(id, method, params))) == Some(command_jv(id, method, params)),
{
    let v = command_jv(id, method, params);
    assert(crate::json::jv_wf(v)) by {
        let ms = v->Obj_0;
        assert(ms.len() == 3);
        assert(ms[0].1 == Jv::Int(id));
        assert(ms[1].1 == Jv::Str(method));
        assert(ms[2].1 == params);
        assert(forall|i: int| 0 <= i < ms.len() ==> crate::json::jv_wf(#[trigger] ms[i].1));
    }
    crate::json::lemma_round_trip(v);
}

/// What one incoming frame is.
pub enum Frame {
    /// A response to the command with the given identifier: its result,
    /// or the message of the error the browser reported.
    Response { id: u64, payload: Result<JsonValue, String> },
    /// A server-pushed event; this client discards them.
    Event { method: String },
    /// Not a response and not an event.
    Malformed,
}

/// The classification a frame's text must receive, over the parsed value.
pub open spec fn frame_shape(d: Option<Jv>) -> FrameShape {
    match d {
        Option::None => FrameShape::Malformed,
        Option::Some(v) => match v {
            Jv::Obj(ms) => match obj_lookup(ms, key_id()) {
                Option::Some(Jv::Int(n)) => if 0 <= n <= u64::MAX as int {
                    match obj_lookup(ms, key_result()) {
                        Option::Some(r) => FrameShape::Response(n, Result::Ok(r)),
                        Option::None => match obj_lookup(ms, key_error()) {
                            Option::Some(Jv::Obj(ems)) => match obj_lookup(ems, key_message()) {
                                Option::Some(Jv::Str(m)) => FrameShape::Response(
                                    n,
                                    Result::Err(m),
                                ),
                                _ => FrameShape::Response(n, Result::Err(Seq::empty())),
                            },
                            Option::Some(_) => FrameShape::Response(
                                n,
                                Result::Err(Seq::empty()),
                            ),
                            Option::None => FrameShape::Malformed,
                        },
                    }
                } else {
                    FrameShape::Malformed
                },
                Option::Some(_) => FrameShape::Malformed,
                Option::None => match obj_lookup(ms, key_method()) {
                    Option::Some(Jv::Str(m)) => FrameShape::Event(m),
                    _ => FrameShape::Malformed,
                },
            },
            _ => FrameShape::Malformed,
        },
    }
}

/// The mathematical mirror of `Frame`.
pub enum FrameShape {
    Response(int, Result<Jv, Seq<char>>),
    Event(Seq<char>),
    Malformed,
}

impl View for Frame {
    type V = FrameShape;

    open spec fn view(&self) -> FrameShape {
        match self {
            Frame::Response { id, payload } => FrameShape::Response(
                *id as int,
                match payload {
                    Result::Ok(v) => Result::Ok(v@),
                    Result::Err(m) => Result::Err(m@),
                },
            ),
            Frame::Event { method } => FrameShape::Event(method@),
            Frame::Malformed => FrameShape::Malformed,
        }
    }
}

/// Parse and classify one incoming frame.
pub fn classify_frame(text: &str) -> (r: Frame)
    ensures
        r@ == frame_shape(p_doc(text@)),
{
    proof {
        reveal_strlit("id");
        reveal_strlit("method");
        reveal_strlit("result");
        reveal_strlit("error");
        reveal_strlit("message");
        assert("id"@ =~= key_id());
        assert("method"@ =~= key_method());
        assert("result"@ =~= key_result());
        assert("error"@ =~= key_error());
        assert("message"@ =~= key_message());
    }
    let parsed: Option<JsonValue> = parse_json(text);
    match parsed {
        Option::None => Frame::Malformed,
        Option::Some(v) => match v {
            JsonValue::Obj(mut ms) => {
                let id_val: Option<&JsonValue> = obj_get(&ms, "id");
                match id_val {
                    Option::Some(JsonValue::Int(n)) => {
                        let n: i64 = *n;
                        if n >= 0 {
                            let id: u64 = n as u64;
                            match obj_take(&mut ms, "result") {
                                Option::Some(res) => Frame::Response {
                                    id,
                                    payload: Result::Ok(res),
                                },
                                Option::None => {
                                    match obj_take(&mut ms, "error") {
                                        Option::Some(JsonValue::Obj(mut ems)) => {
                                            match obj_take(&mut ems, "message") {
                                                Option::Some(JsonValue::Str(m)) => Frame::Response {
                                                    id,
                                                    payload: Result::Err(m),
                                                },
                                                Option::Some(_) => Frame::Response {
                                                    id,
                                                    payload: Result::Err(String::new()),
                                                },
                                                Option::None => Frame::Response {
                                                    id,
                                                    payload: Result::Err(String::new()),
                                                },
                                            }
                                        },
                                        Option::Some(_) => Frame::Response {
                                            id,
                                            payload: Result::Err(String::new()),
                                        },
                                        Option::None => Frame::Malformed,
                                    }
                                },
                            }
                        } else {
                            Frame::Malformed
                        }
                    },
                    Option::Some(_) => Frame::Malformed,
                    Option::None => {
                        match obj_get(&ms, "method") {
                            Option::Some(JsonValue::Str(m)) => Frame::Event {
                                method: m.clone(),
                            },
                            _ => Frame::Malformed,
                        }
                    },
                }
            },
            _ => Frame::Malformed,
        },
    }
}

} // verus!
