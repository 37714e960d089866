//! The command/response correlator.
//!
//! Each live connection owns one `Correlator`. Sending assigns the next
//! identifier — strictly greater than every identifier the connection has
//! issued before — and registers a pending request under it. A response
//! frame resolves the pending request carrying its identifier, whatever
//! order responses arrive in; a connection failure resolves every pending
//! request at once; a caller's timeout withdraws one. An identifier leaves
//! the pending set exactly once, so every request sees exactly one of:
//! a result, a delivered error, a timeout, or a connection failure.
//!
//! The correlator holds no socket. The surrounding binary writes the frame
//! text that `send` hands back, feeds every received frame to `on_frame`,
//! and reports the connection's fate with `fail_all`.

use vstd::prelude::*;
use crate::errors::CdpError;
use crate::json::JsonValue;
use crate::wire::{encode_command, command_jv, Frame};
use crate::json::ser;

verus! {

broadcast use vstd::seq_lib::group_seq_properties;

/// How one pending request was resolved.
pub enum Outcome {
    /// The browser answered with a result.
    Delivered(JsonValue),
    /// The browser answered with a protocol-level error message.
    Failed(String),
    /// The caller's bound elapsed first.
    TimedOut,
    /// The connection dropped with the request still outstanding.
    ConnectionClosed,
}

/// The resolution of the request with the given identifier.
pub struct Resolution {
    pub id: u64,
    pub outcome: Outcome,
}

/// The four ways a request can be resolved; each request sees exactly
/// one of them.
pub enum ResolvedKind {
    WithResult,
    WithError,
    ByTimeout,
    ByConnectionClosed,
}

/// Whether the resolution log holds an entry for `x`.
pub open spec fn resolved_has(s: Seq<(u64, ResolvedKind)>, x: u64) -> bool {
    exists|k: int| 0 <= k < s.len() && (#[trigger] s[k]).0 == x
}

/// Per-connection correlation state: the identifier counter and the
/// pending-request set.
pub struct Correlator {
    next_id: u64,
    pending: Vec<u64>,
    closed: bool,
    issued: Ghost<Seq<u64>>,
    resolved: Ghost<Seq<(u64, ResolvedKind)>>,
}

impl Correlator {
    /// Every identifier this connection has issued, in order.
    pub closed spec fn issued_ids(&self) -> Seq<u64> {
        self.issued@
    }

    /// The identifiers whose requests are still outstanding, ascending.
    pub closed spec fn pending_ids(&self) -> Seq<u64> {
        self.pending@
    }

    /// The resolution log: each resolved identifier with the one way its
    /// request was resolved, in resolution order.
    pub closed spec fn resolutions(&self) -> Seq<(u64, ResolvedKind)> {
        self.resolved@
    }

    /// The identifiers whose requests have been resolved, in resolution
    /// order.
    pub open spec fn resolved_ids(&self) -> Seq<u64> {
        self.resolutions().map_values(|p: (u64, ResolvedKind)| p.0)
    }

    pub closed spec fn is_closed(&self) -> bool {
        self.closed
    }

    pub closed spec fn next(&self) -> u64 {
        self.next_id
    }

    /// The correlation invariant: identifiers are issued in strictly
    /// increasing order; every issued identifier is pending or resolved,
    /// never both, and resolved at most once.
    pub closed spec fn inv(&self) -> bool {
        &&& self.next_id >= 1
        &&& (forall|i: int, j: int|
            0 <= i < j < self.issued@.len() ==> self.issued@[i] < self.issued@[j])
        &&& (forall|i: int| 0 <= i < self.issued@.len() ==> #[trigger] self.issued@[i]
            < self.next_id)
        &&& (forall|i: int, j: int|
            0 <= i < j < self.pending@.len() ==> self.pending@[i] < self.pending@[j])
        &&& (forall|i: int| 0 <= i < self.pending@.len() ==> self.issued@.contains(
            #[trigger] self.pending@[i],
        ))
        &&& (forall|i: int| 0 <= i < self.resolved@.len() ==> self.issued@.contains(
            (#[trigger] self.resolved@[i]).0,
        ))
        &&& (forall|i: int, j: int|
            0 <= i < j < self.resolved@.len() ==> self.resolved@[i].0 != self.resolved@[j].0)
        &&& (forall|i: int, j: int|
            0 <= i < self.pending@.len() && 0 <= j < self.resolved@.len()
                ==> self.pending@[i] != self.resolved@[j].0)
        &&& (forall|k: int|
            0 <= k < self.issued@.len() ==> self.pending@.contains(#[trigger] self.issued@[k])
                || resolved_has(self.resolved@, self.issued@[k]))
    }

    /// A fresh correlator: nothing issued, nothing pending, counter at one.
    pub fn new() -> (c: Correlator)
        ensures
            c.inv(),
            c.issued_ids() == Seq::<u64>::empty(),
            c.pending_ids() == Seq::<u64>::empty(),
            c.resolutions() == Seq::<(u64, ResolvedKind)>::empty(),
            !c.is_closed(),
            c.next() == 1,
    {
        Correlator {
            next_id: 1,
            pending: Vec::new(),
            closed: false,
            issued: Ghost(Seq::empty()),
            resolved: Ghost(Seq::empty()),
        }
    }

    /// The identifier the next send will carry.
    pub fn peek_next_id(&self) -> (r: u64)
        ensures
            r == self.next(),
    {
        self.next_id
    }

    /// Whether the connection has been recorded as closed.
    pub fn closed_now(&self) -> (r: bool)
        ensures
            r == self.is_closed(),
    {
        self.closed
    }

    /// Record that the connection has dropped; subsequent sends fail.
    /// `fail_all` reports the casualties.
    pub fn mark_closed(&mut self)
        requires
            old(self).inv(),
        ensures
            final(self).inv(),
            final(self).is_closed(),
            final(self).issued_ids() == old(self).issued_ids(),
            final(self).pending_ids() == old(self).pending_ids(),
            final(self).resolutions() == old(self).resolutions(),
            final(self).next() == old(self).next(),
    {
        self.closed = true;
    }

    /// Assign the next identifier, register it pending, and hand back the
    /// serialized command frame to put on the wire. The identifier is
    /// strictly greater than every identifier issued before on this
    /// connection. On a closed connection nothing is sent or registered.
    pub fn send(&mut self, method: &str, params: JsonValue) -> (r: Result<
        (u64, String),
        CdpError,
    >)
        requires
            old(self).inv(),
            old(self).next() <= i64::MAX as u64,
        ensures
            final(self).inv(),
            match r {
                Ok((id, frame)) => {
                    &&& !old(self).is_closed()
                    &&& id == old(self).next()
                    &&& frame@ == ser(command_jv(id as int, method@, params@))
                    &&& final(self).issued_ids() == old(self).issued_ids().push(id)
                    &&& (forall|k: int|
                        0 <= k < old(self).issued_ids().len()
                            ==> #[trigger] old(self).issued_ids()[k] < id)
                    &&& final(self).pending_ids() == old(self).pending_ids().push(id)
                    &&& final(self).resolutions() == old(self).resolutions()
                    &&& final(self).next() == id + 1
                    &&& !final(self).is_closed()
                },
                Err(e) => {
                    &&& e matches CdpError::ConnectionClosed
                    &&& old(self).is_closed()
                    &&& *final(self) == *old(self)
                },
            },
    {
        if self.closed {
            return Err(CdpError::ConnectionClosed);
        }
        let id: u64 = self.next_id;
        let frame: String = encode_command(id, method, params);
        self.next_id = id + 1;
        self.pending.push(id);
        proof {
            self.issued@ = self.issued@.push(id);
        }
        Ok((id, frame))
    }

    /// Handle one frame read from the connection. A response whose
    /// identifier is pending resolves that request — correlation is by
    /// identifier alone, not by send order. Responses to unknown or
    /// withdrawn identifiers, events, and malformed frames are discarded.
    pub fn on_frame(&mut self, frame: Frame) -> (r: Option<Resolution>)
        requires
            old(self).inv(),
        ensures
            final(self).inv(),
            final(self).issued_ids() == old(self).issued_ids(),
            final(self).next() == old(self).next(),
            final(self).is_closed() == old(self).is_closed(),
            match frame {
                Frame::Response { id, payload } => {
                    if old(self).pending_ids().contains(id) {
                        &&& r matches Some(res)
                        &&& r->0.id == id
                        &&& (match payload {
                            Ok(v) => r->0.outcome matches Outcome::Delivered(w) && w@ == v@,
                            Err(m) => r->0.outcome matches Outcome::Failed(w) && w@ == m@,
                        })
                        &&& (forall|x: u64|
                            final(self).pending_ids().contains(x) <==> (old(
                                self,
                            ).pending_ids().contains(x) && x != id))
                        &&& final(self).resolutions() == old(self).resolutions().push(
                            (
                                id,
                                match payload {
                                    Ok(_) => ResolvedKind::WithResult,
                                    Err(_) => ResolvedKind::WithError,
                                },
                            ),
                        )
                    } else {
                        r is None && *final(self) == *old(self)
                    }
                },
                _ => r is None && *final(self) == *old(self),
            },
    {
        match frame {
            Frame::Response { id, payload } => {
                let hit: bool = match &payload {
                    Ok(_) => self.resolve_pending(id, Ghost(ResolvedKind::WithResult)),
                    Err(_) => self.resolve_pending(id, Ghost(ResolvedKind::WithError)),
                };
                match hit {
                    true => {
                        let outcome: Outcome = match payload {
                            Ok(v) => Outcome::Delivered(v),
                            Err(m) => Outcome::Failed(m),
                        };
                        Some(Resolution { id, outcome })
                    },
                    false => None,
                }
            },
            Frame::Event { method: _ } => None,
            Frame::Malformed => None,
        }
    }

    /// Withdraw one pending identifier, as when a caller's bound elapsed
    /// with no response: the request is then resolved by timeout, and a
    /// late response for it will be discarded. Reports whether the
    /// identifier was pending.
    pub fn withdraw(&mut self, id: u64) -> (r: bool)
        requires
            old(self).inv(),
        ensures
            final(self).inv(),
            final(self).issued_ids() == old(self).issued_ids(),
            final(self).next() == old(self).next(),
            final(self).is_closed() == old(self).is_closed(),
            r == old(self).pending_ids().contains(id),
            r ==> {
                &&& (forall|x: u64|
                    final(self).pending_ids().contains(x) <==> (old(self).pending_ids().contains(
                        x,
                    ) && x != id))
                &&& final(self).resolutions() == old(self).resolutions().push(
                    (id, ResolvedKind::ByTimeout),
                )
            },
            !r ==> *final(self) == *old(self),
    {
        self.resolve_pending(id, Ghost(ResolvedKind::ByTimeout))
    }

    /// Take `id` out of the pending set, logging the way its request was
    /// resolved. Reports whether it was pending.
    fn resolve_pending(&mut self, id: u64, Ghost(kind): Ghost<ResolvedKind>) -> (r: bool)
        requires
            old(self).inv(),
        ensures
            final(self).inv(),
            final(self).issued_ids() == old(self).issued_ids(),
            final(self).next() == old(self).next(),
            final(self).is_closed() == old(self).is_closed(),
            r == old(self).pending_ids().contains(id),
            r ==> {
                &&& (forall|x: u64|
                    final(self).pending_ids().contains(x) <==> (old(self).pending_ids().contains(
                        x,
                    ) && x != id))
                &&& final(self).resolutions() == old(self).resolutions().push((id, kind))
            },
            !r ==> *final(self) == *old(self),
    {
        let ghost pre = self.pending@;
        let mut i: usize = 0;
        while i < self.pending.len()
            invariant
                *self == *old(self),
                old(self).inv(),
                pre == self.pending@,
                0 <= i <= self.pending@.len(),
                forall|k: int| 0 <= k < i ==> #[trigger] self.pending@[k] != id,
            decreases self.pending@.len() - i,
        {
            if self.pending[i] == id {
                self.pending.remove(i);
                proof {
                    self.resolved@ = self.resolved@.push((id, kind));
                    assert(self.pending@ =~= pre.subrange(0, i as int) + pre.subrange(
                        i + 1,
                        pre.len() as int,
                    ));
                    assert forall|x: u64| self.pending@.contains(x) implies (pre.contains(x) && x
                        != id) by {
                        let w = choose|w: int| 0 <= w < self.pending@.len() && self.pending@[w] == x;
                        if w < i {
                            assert(pre[w] == x);
                            assert(pre[w] != pre[i as int]);
                        } else {
                            assert(pre[w + 1] == x);
                            assert(pre[w + 1] != pre[i as int]);
                        }
                    }
                    assert forall|x: u64| pre.contains(x) && x != id implies self.pending@.contains(
                        x,
                    ) by {
                        let w = choose|w: int| 0 <= w < pre.len() && pre[w] == x;
                        if w < i {
                            assert(self.pending@[w] == x);
                        } else if w > i {
                            assert(self.pending@[w - 1] == x);
                        }
                    }
                    assert(pre.contains(id)) by {
                        assert(pre[i as int] == id);
                    }
                    assert forall|k: int| 0 <= k < self.issued@.len() implies self.pending@.contains(
                        #[trigger] self.issued@[k],
                    ) || resolved_has(self.resolved@, self.issued@[k]) by {
                        let x = self.issued@[k];
                        if pre.contains(x) {
                            if x == id {
                                assert(self.resolved@[self.resolved@.len() - 1].0 == id);
                            }
                        } else {
                            let w = choose|w: int|
                                0 <= w < old(self).resolved@.len() && (#[trigger] old(
                                    self,
                                ).resolved@[w]).0 == x;
                            assert(self.resolved@[w].0 == x);
                        }
                    }
                }
                return true;
            }
            i += 1;
        }
        assert(!pre.contains(id)) by {
            if pre.contains(id) {
                let w = choose|w: int| 0 <= w < pre.len() && pre[w] == id;
            }
        }
        false
    }

    /// The connection has failed: resolve every outstanding request with
    /// `ConnectionClosed`, in identifier order, and close the correlator.
    pub fn fail_all(&mut self) -> (rs: Vec<Resolution>)
        requires
            old(self).inv(),
        ensures
            final(self).inv(),
            final(self).is_closed(),
            final(self).issued_ids() == old(self).issued_ids(),
            final(self).next() == old(self).next(),
            final(self).pending_ids() == Seq::<u64>::empty(),
            final(self).resolutions() == old(self).resolutions() + old(self).pending_ids().map_values(
                |id: u64| (id, ResolvedKind::ByConnectionClosed),
            ),
            rs@.len() == old(self).pending_ids().len(),
            forall|k: int|
                0 <= k < rs@.len() ==> (#[trigger] rs@[k]).id == old(self).pending_ids()[k]
                    && rs@[k].outcome matches Outcome::ConnectionClosed,
    {
        let ghost pre = self.pending@;
        let mut rs: Vec<Resolution> = Vec::new();
        let mut i: usize = 0;
        while i < self.pending.len()
            invariant
                old(self).inv(),
                self.pending@ == pre,
                self.issued == old(self).issued,
                self.resolved == old(self).resolved,
                0 <= i <= pre.len(),
                rs@.len() == i,
                forall|k: int|
                    0 <= k < i ==> (#[trigger] rs@[k]).id == pre[k] && rs@[k].outcome matches
                        Outcome::ConnectionClosed,
            decreases pre.len() - i,
        {
            let id: u64 = self.pending[i];
            rs.push(Resolution { id, outcome: Outcome::ConnectionClosed });
            i += 1;
        }
        self.pending = Vec::new();
        self.closed = true;
        proof {
            let tagged = pre.map_values(|id: u64| (id, ResolvedKind::ByConnectionClosed));
            self.resolved@ = self.resolved@ + tagged;
            assert(tagged.len() == pre.len());
            assert(forall|w: int| 0 <= w < pre.len() ==> (#[trigger] tagged[w]).0 == pre[w]);
            assert forall|a: int, b: int| 0 <= a < b < self.resolved@.len() implies self.resolved@[a].0
                != self.resolved@[b].0 by {
                let n = old(self).resolved@.len() as int;
                if a < n && b >= n {
                    assert(old(self).resolved@[a] == self.resolved@[a]);
                    assert(tagged[b - n] == self.resolved@[b]);
                } else if a >= n {
                    assert(tagged[a - n] == self.resolved@[a]);
                    assert(tagged[b - n] == self.resolved@[b]);
                }
            }
            assert forall|k: int| 0 <= k < self.issued@.len() implies self.pending@.contains(
                #[trigger] self.issued@[k],
            ) || resolved_has(self.resolved@, self.issued@[k]) by {
                let x = self.issued@[k];
                if pre.contains(x) {
                    let w = choose|w: int| 0 <= w < pre.len() && pre[w] == x;
                    assert(self.resolved@[old(self).resolved@.len() + w].0 == x);
                } else {
                    let w = choose|w: int|
                        0 <= w < old(self).resolved@.len() && (#[trigger] old(
                            self,
                        ).resolved@[w]).0 == x;
                    assert(self.resolved@[w].0 == x);
                }
            }
            assert forall|i2: int| 0 <= i2 < self.resolved@.len() implies self.issued@.contains(
                (#[trigger] self.resolved@[i2]).0,
            ) by {
                let n = old(self).resolved@.len() as int;
                if i2 < n {
                    assert(self.resolved@[i2] == old(self).resolved@[i2]);
                } else {
                    assert(self.resolved@[i2] == tagged[i2 - n]);
                }
            }
        }
        rs
    }
}

/// Identifiers are issued strictly increasing: every command sent on a
/// connection carries an identifier greater than all sent before it.
pub proof fn lemma_ids_strictly_increase(c: &Correlator, i: int, j: int)
    requires
        c.inv(),
        0 <= i < j < c.issued_ids().len(),
    ensures
        c.issued_ids()[i] < c.issued_ids()[j],
{
}

/// A request is resolved at most once: the resolution log pairs each
/// resolved identifier with the one way — result, delivered error,
/// timeout, or connection failure — its request ended, and never repeats
/// an identifier; a resolved identifier is no longer pending.
pub proof fn lemma_resolution_at_most_once(c: &Correlator, i: int, j: int)
    requires
        c.inv(),
        0 <= i < c.resolutions().len(),
        0 <= j < c.resolutions().len(),
        i != j,
    ensures
        c.resolutions()[i].0 != c.resolutions()[j].0,
        !c.pending_ids().contains(c.resolutions()[i].0),
{
    if c.pending_ids().contains(c.resolutions()[i].0) {
        let w = choose|w: int|
            0 <= w < c.pending_ids().len() && c.pending_ids()[w] == c.resolutions()[i].0;
    }
}

/// A request is resolved at least once by the time the connection is
/// drained: with nothing pending, every issued identifier stands in the
/// resolution log, under exactly one of the four kinds.
pub proof fn lemma_drained_all_resolved(c: &Correlator, id: u64)
    requires
        c.inv(),
        c.pending_ids().len() == 0,
        c.issued_ids().contains(id),
    ensures
        resolved_has(c.resolutions(), id),
{
    let k = choose|k: int| 0 <= k < c.issued_ids().len() && c.issued_ids()[k] == id;
}

} // verus!
