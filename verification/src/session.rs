//! Page sessions and the browser-level control channel.
//!
//! The control channel serves one purpose: creating new page targets. A
//! page session owns its own connection — its own correlator, its own
//! identifier space — and offers navigation and script evaluation. Both
//! types build the exact command frames to put on the wire and interpret
//! the response payloads that come back; the surrounding binary moves the
//! bytes.

use vstd::prelude::*;
use crate::correlator::Correlator;
use crate::errors::CdpError;
use crate::json::{JsonValue, Jv, ser};
use crate::strutil::{find_first, occurs_at};
use crate::wire::{command_jv, obj_lookup, obj_take};

verus! {

pub open spec fn key_url() -> Seq<char> {
    seq!['u', 'r', 'l']
}

pub open spec fn key_expression() -> Seq<char> {
    seq!['e', 'x', 'p', 'r', 'e', 's', 's', 'i', 'o', 'n']
}

pub open spec fn key_return_by_value() -> Seq<char> {
    seq!['r', 'e', 't', 'u', 'r', 'n', 'B', 'y', 'V', 'a', 'l', 'u', 'e']
}

pub open spec fn key_value() -> Seq<char> {
    seq!['v', 'a', 'l', 'u', 'e']
}

pub open spec fn key_exception_details() -> Seq<char> {
    seq!['e', 'x', 'c', 'e', 'p', 't', 'i', 'o', 'n', 'D', 'e', 't', 'a', 'i', 'l', 's']
}

pub open spec fn key_text() -> Seq<char> {
    seq!['t', 'e', 'x', 't']
}

pub open spec fn key_inner_result() -> Seq<char> {
    seq!['r', 'e', 's', 'u', 'l', 't']
}

pub open spec fn key_target_id() -> Seq<char> {
    seq!['t', 'a', 'r', 'g', 'e', 't', 'I', 'd']
}

/// The parameter object of a navigation command.
pub open spec fn navigate_params(url: Seq<char>) -> Jv {
    Jv::Obj(seq![(key_url(), Jv::Str(url))])
}

/// The parameter object of a script-evaluation command: the source, with
/// the result asked for by value.
pub open spec fn evaluate_params(script: Seq<char>) -> Jv {
    Jv::Obj(seq![(key_expression(), Jv::Str(script)), (key_return_by_value(), Jv::Bool(true))])
}

/// The parameter object of a create-target command: a blank page.
pub open spec fn create_target_params() -> Jv {
    Jv::Obj(seq![(key_url(), Jv::Str(seq!['a', 'b', 'o', 'u', 't', ':', 'b', 'l', 'a', 'n', 'k']))])
}

fn one_member_params(key: &str, value: JsonValue) -> (r: JsonValue)
    ensures
        r@ == Jv::Obj(seq![(key@, value@)]),
{
    let ghost vv = value@;
    let mut ms: Vec<(String, JsonValue)> = Vec::new();
    ms.push((String::from_str(key), value));
    proof {
        crate::json::lemma_deep_members_len(ms@);
        assert(crate::json::deep_members(ms@) =~= seq![(key@, vv)]);
    }
    JsonValue::Obj(ms)
}

/// The browser-level connection: used only to create page targets.
pub struct ControlChannel {
    pub conn: Correlator,
}

impl ControlChannel {
    pub open spec fn inv(&self) -> bool {
        self.conn.inv()
    }

    /// A fresh control channel over a fresh connection.
    pub fn new() -> (c: ControlChannel)
        ensures
            c.inv(),
            !c.conn.is_closed(),
            c.conn.issued_ids() == Seq::<u64>::empty(),
            c.conn.next() == 1,
    {
        ControlChannel { conn: Correlator::new() }
    }

    /// Build and register the create-target command that asks the browser
    /// for a new page. On a closed control connection this fails with
    /// `ConnectionClosed` and sends nothing.
    pub fn new_page_request(&mut self) -> (r: Result<(u64, String), CdpError>)
        requires
            old(self).inv(),
            old(self).conn.next() <= i64::MAX as u64,
        ensures
            final(self).inv(),
            match r {
                Ok((id, frame)) => {
                    &&& !old(self).conn.is_closed()
                    &&& id == old(self).conn.next()
                    &&& frame@ == ser(
                        command_jv(
                            id as int,
                            seq![
                                'T', 'a', 'r', 'g', 'e', 't', '.', 'c', 'r', 'e', 'a', 't', 'e',
                                'T', 'a', 'r', 'g', 'e', 't',
                            ],
                            create_target_params(),
                        ),
                    )
                    &&& final(self).conn.pending_ids().contains(id)
                },
                Err(e) => {
                    &&& e matches CdpError::ConnectionClosed
                    &&& old(self).conn.is_closed()
                    &&& *final(self) == *old(self)
                },
            },
    {
        proof {
            reveal_strlit("about:blank");
            reveal_strlit("url");
            reveal_strlit("Target.createTarget");
            assert("url"@ =~= key_url());
            assert("about:blank"@ =~= seq!['a', 'b', 'o', 'u', 't', ':', 'b', 'l', 'a', 'n', 'k']);
            assert("Target.createTarget"@ =~= seq![
                'T', 'a', 'r', 'g', 'e', 't', '.', 'c', 'r', 'e', 'a', 't', 'e', 'T', 'a', 'r',
                'g', 'e', 't',
            ]);
        }
        let params: JsonValue = one_member_params("url", JsonValue::Str(String::from_str(
            "about:blank",
        )));
        let r = self.conn.send("Target.createTarget", params);
        match r {
            Ok((id, frame)) => {
                proof {
                    assert(final(self).conn.pending_ids().last() == id);
                }
                Ok((id, frame))
            },
            Err(e) => Err(e),
        }
    }
}

/// What a create-target response payload denotes: the fresh target's
/// identifier, or nothing usable.
pub open spec fn target_id_of(v: Jv) -> Option<Seq<char>> {
    match v {
        Jv::Obj(ms) => match obj_lookup(ms, key_target_id()) {
            Some(Jv::Str(t)) => Some(t),
            _ => None,
        },
        _ => None,
    }
}

/// Extract the new page's target identifier from a create-target response
/// payload; a payload of any other shape is a `ProtocolError`.
pub fn parse_new_page_response(v: JsonValue) -> (r: Result<String, CdpError>)
    ensures
        match r {
            Ok(t) => target_id_of(v@) == Some(t@),
            Err(e) => target_id_of(v@) is None && e matches CdpError::ProtocolError,
        },
{
    proof {
        reveal_strlit("targetId");
        assert("targetId"@ =~= key_target_id());
    }
    match v {
        JsonValue::Obj(mut ms) => {
            match obj_take(&mut ms, "targetId") {
                Some(JsonValue::Str(t)) => Ok(t),
                Some(_) => Err(CdpError::ProtocolError),
                None => Err(CdpError::ProtocolError),
            }
        },
        _ => Err(CdpError::ProtocolError),
    }
}

/// The control endpoint of a page target, derived from the browser-level
/// endpoint: the host part up to `/devtools/`, then `/devtools/page/`,
/// then the target identifier.
pub fn page_endpoint(browser_ws: &str, target_id: &str) -> (r: Option<String>)
    ensures
        match r {
            Some(u) => exists|i: int|
                {
                    &&& #[trigger] occurs_at(browser_ws@, "/devtools/"@, i)
                    &&& (forall|j: int| 0 <= j < i ==> !occurs_at(browser_ws@, "/devtools/"@, j))
                    &&& u@ == browser_ws@.subrange(0, i) + "/devtools/page/"@ + target_id@
                },
            None => forall|j: int| !occurs_at(browser_ws@, "/devtools/"@, j),
        },
{
    match find_first(browser_ws, "/devtools/") {
        Some(i) => {
            let prefix: &str = browser_ws.substring_char(0, i);
            let mut out: String = prefix.to_owned();
            out.append("/devtools/page/");
            out.append(target_id);
            Some(out)
        },
        None => None,
    }
}

/// One page session: its own connection, identifier space and pending
/// set, driven by one caller at a time. `Closed` is terminal: every
/// operation on a closed session fails with `SessionClosed`.
pub struct PageSession {
    pub conn: Correlator,
    pub live: bool,
}

impl PageSession {
    pub open spec fn inv(&self) -> bool {
        self.conn.inv()
    }

    pub open spec fn is_live(&self) -> bool {
        self.live
    }

    /// A fresh session over a fresh page-level connection.
    pub fn connect() -> (s: PageSession)
        ensures
            s.inv(),
            s.is_live(),
            !s.conn.is_closed(),
            s.conn.issued_ids() == Seq::<u64>::empty(),
            s.conn.next() == 1,
    {
        PageSession { conn: Correlator::new(), live: true }
    }

    /// Drop the session: terminal, every later operation fails.
    pub fn close(&mut self)
        requires
            old(self).inv(),
        ensures
            final(self).inv(),
            !final(self).is_live(),
            final(self).conn == old(self).conn,
    {
        self.live = false;
    }

    /// Build and register the navigation command for `url`. The session
    /// does not wait for the page to finish loading; callers poll.
    pub fn navigate_request(&mut self, url: &str) -> (r: Result<(u64, String), CdpError>)
        requires
            old(self).inv(),
            old(self).conn.next() <= i64::MAX as u64,
        ensures
            final(self).inv(),
            final(self).is_live() == old(self).is_live(),
            match r {
                Ok((id, frame)) => {
                    &&& old(self).is_live()
                    &&& !old(self).conn.is_closed()
                    &&& id == old(self).conn.next()
                    &&& frame@ == ser(
                        command_jv(
                            id as int,
                            seq!['P', 'a', 'g', 'e', '.', 'n', 'a', 'v', 'i', 'g', 'a', 't', 'e'],
                            navigate_params(url@),
                        ),
                    )
                    &&& final(self).conn.pending_ids().contains(id)
                },
                Err(e) => {
                    if !old(self).is_live() {
                        e matches CdpError::SessionClosed && *final(self) == *old(self)
                    } else {
                        e matches CdpError::ConnectionClosed && old(self).conn.is_closed()
                            && *final(self) == *old(self)
                    }
                },
            },
    {
        if !self.live {
            return Err(CdpError::SessionClosed);
        }
        proof {
            reveal_strlit("url");
            reveal_strlit("Page.navigate");
            assert("url"@ =~= key_url());
            assert("Page.navigate"@ =~= seq![
                'P', 'a', 'g', 'e', '.', 'n', 'a', 'v', 'i', 'g', 'a', 't', 'e',
            ]);
        }
        let params: JsonValue = one_member_params("url", JsonValue::Str(String::from_str(url)));
        let r = self.conn.send("Page.navigate", params);
        match r {
            Ok((id, frame)) => {
                proof {
                    assert(final(self).conn.pending_ids().last() == id);
                }
                Ok((id, frame))
            },
            Err(e) => Err(e),
        }
    }

    /// Build and register the evaluation command for `script`, asking for
    /// the result by value.
    pub fn evaluate_request(&mut self, script: &str) -> (r: Result<(u64, String), CdpError>)
        requires
            old(self).inv(),
            old(self).conn.next() <= i64::MAX as u64,
        ensures
            final(self).inv(),
            final(self).is_live() == old(self).is_live(),
            match r {
                Ok((id, frame)) => {
                    &&& old(self).is_live()
                    &&& !old(self).conn.is_closed()
                    &&& id == old(self).conn.next()
                    &&& frame@ == ser(
                        command_jv(
                            id as int,
                            seq![
                                'R', 'u', 'n', 't', 'i', 'm', 'e', '.', 'e', 'v', 'a', 'l', 'u',
                                'a', 't', 'e',
                            ],
                            evaluate_params(script@),
                        ),
                    )
                    &&& final(self).conn.pending_ids().contains(id)
                },
                Err(e) => {
                    if !old(self).is_live() {
                        e matches CdpError::SessionClosed && *final(self) == *old(self)
                    } else {
                        e matches CdpError::ConnectionClosed && old(self).conn.is_closed()
                            && *final(self) == *old(self)
                    }
                },
            },
    {
        if !self.live {
            return Err(CdpError::SessionClosed);
        }
        proof {
            reveal_strlit("expression");
            reveal_strlit("returnByValue");
            reveal_strlit("Runtime.evaluate");
            assert("expression"@ =~= key_expression());
            assert("returnByValue"@ =~= key_return_by_value());
            assert("Runtime.evaluate"@ =~= seq![
                'R', 'u', 'n', 't', 'i', 'm', 'e', '.', 'e', 'v', 'a', 'l', 'u', 'a', 't', 'e',
            ]);
        }
        let ghost sv = script@;
        let mut ms: Vec<(String, JsonValue)> = Vec::new();
        ms.push((String::from_str("expression"), JsonValue::Str(String::from_str(script))));
        ms.push((String::from_str("returnByValue"), JsonValue::Bool(true)));
        proof {
            crate::json::lemma_deep_members_len(ms@);
            let dm = crate::json::deep_members(ms@);
            let em = evaluate_params(sv)->Obj_0;
            assert(ms@.len() == 2);
            assert(dm[0] == (ms@[0].0@, crate::json::deep(ms@[0].1)));
            assert(dm[1] == (ms@[1].0@, crate::json::deep(ms@[1].1)));
            assert(dm[0] == em[0]);
            assert(dm[1] == em[1]);
            assert(dm =~= em);
        }
        let params = JsonValue::Obj(ms);
        let r = self.conn.send("Runtime.evaluate", params);
        match r {
            Ok((id, frame)) => {
                proof {
                    assert(final(self).conn.pending_ids().last() == id);
                }
                Ok((id, frame))
            },
            Err(e) => Err(e),
        }
    }
}

/// What a script-evaluation response payload denotes: the value the
/// script produced, the text of the exception the browser reported, or
/// nothing usable.
pub enum EvalShape {
    Value(Jv),
    Script(Seq<char>),
    Malformed,
}

pub open spec fn eval_shape(v: Jv) -> EvalShape {
    match v {
        Jv::Obj(ms) => match obj_lookup(ms, key_exception_details()) {
            Some(ex) => match ex {
                Jv::Obj(ems) => match obj_lookup(ems, key_text()) {
                    Some(Jv::Str(t)) => EvalShape::Script(t),
                    _ => EvalShape::Script(Seq::empty()),
                },
                _ => EvalShape::Script(Seq::empty()),
            },
            None => match obj_lookup(ms, key_inner_result()) {
                Some(Jv::Obj(rms)) => match obj_lookup(rms, key_value()) {
                    Some(w) => EvalShape::Value(w),
                    None => EvalShape::Value(Jv::Null),
                },
                _ => EvalShape::Malformed,
            },
        },
        _ => EvalShape::Malformed,
    }
}

/// Interpret a script-evaluation response payload: the produced value, a
/// `ScriptError` carrying the browser's exception text, or a
/// `ProtocolError` for any other shape. A result with no `value` member
/// is the script evaluating to nothing, which decodes as null.
pub fn parse_evaluate_response(v: JsonValue) -> (r: Result<JsonValue, CdpError>)
    ensures
        match r {
            Ok(w) => eval_shape(v@) matches EvalShape::Value(x) && x == w@,
            Err(e) => match e {
                CdpError::ScriptError(m) => eval_shape(v@) matches EvalShape::Script(t) && t
                    == m@,
                CdpError::ProtocolError => eval_shape(v@) matches EvalShape::Malformed,
                _ => false,
            },
        },
{
    proof {
        reveal_strlit("exceptionDetails");
        reveal_strlit("text");
        reveal_strlit("result");
        reveal_strlit("value");
        assert("exceptionDetails"@ =~= key_exception_details());
        assert("text"@ =~= key_text());
        assert("result"@ =~= key_inner_result());
        assert("value"@ =~= key_value());
    }
    match v {
        JsonValue::Obj(mut ms) => {
            match obj_take(&mut ms, "exceptionDetails") {
                Some(ex) => match ex {
                    JsonValue::Obj(mut ems) => match obj_take(&mut ems, "text") {
                        Some(JsonValue::Str(t)) => Err(CdpError::ScriptError(t)),
                        Some(_) => Err(CdpError::ScriptError(String::new())),
                        None => Err(CdpError::ScriptError(String::new())),
                    },
                    _ => Err(CdpError::ScriptError(String::new())),
                },
                None => match obj_take(&mut ms, "result") {
                    Some(JsonValue::Obj(mut rms)) => match obj_take(&mut rms, "value") {
                        Some(w) => Ok(w),
                        None => Ok(JsonValue::Null),
                    },
                    Some(_) => Err(CdpError::ProtocolError),
                    None => Err(CdpError::ProtocolError),
                },
            }
        },
        _ => Err(CdpError::ProtocolError),
    }
}

} // verus!
