//! The transport model: per-connection message queues in three delivery
//! classes.
//!
//! A queue hands messages out in the order they were sent; that is the whole
//! guarantee of the reliable-ordered class. The reliable-unordered class may
//! be drained in any order by its consumer, and the unreliable class may be
//! dropped or read twice by the harness that owns it — both are therefore
//! carried by the same queue type, which promises no more than what it
//! holds. Broadcasting appends to every live endpoint separately, so one
//! endpoint's fate never touches what the others receive.

use vstd::prelude::*;
use vstd::slice::slice_to_vec;

verus! {

/// The three delivery classes of the transport.
#[derive(Clone, Copy, Debug, PartialEq, Eq, Structural)]
pub enum DeliveryClass {
    ReliableOrdered,
    ReliableUnordered,
    Unreliable,
}

/// A first-in-first-out queue of framed payloads.
pub struct ChannelQueue {
    msgs: Vec<Vec<u8>>,
}

impl View for ChannelQueue {
    type V = Seq<Seq<u8>>;

    closed spec fn view(&self) -> Seq<Seq<u8>> {
        self.msgs.deep_view()
    }
}

impl ChannelQueue {
    /// An empty queue.
    pub fn new() -> (q: ChannelQueue)
        ensures
            q@ == Seq::<Seq<u8>>::empty(),
    {
        let q = ChannelQueue { msgs: Vec::new() };
        proof {
            assert(q@ =~~= Seq::<Seq<u8>>::empty());
        }
        q
    }

    /// Sends a payload: it joins the back of the queue.
    pub fn send(&mut self, bytes: Vec<u8>)
        ensures
            final(self)@ == old(self)@.push(bytes@),
    {
        let ghost sent = bytes@;
        self.msgs.push(bytes);
        proof {
            assert(self.msgs.deep_view() =~~= old(self).msgs.deep_view().push(sent));
        }
    }

    /// Receives the payload that has waited longest, if any: messages come
    /// out in exactly the order they were sent.
    pub fn try_recv(&mut self) -> (r: Option<Vec<u8>>)
        ensures
            old(self)@.len() == 0 ==> r is None && final(self)@ == old(self)@,
            old(self)@.len() > 0 ==> final(self)@ == old(self)@.drop_first() && (r matches Some(m)
                && m@ == old(self)@[0]),
    {
        if self.msgs.len() == 0 {
            proof {
                assert(self@ =~~= old(self)@);
            }
            None
        } else {
            let m = self.msgs.remove(0);
            proof {
                assert(self.msgs.deep_view() =~~= old(self).msgs.deep_view().drop_first());
            }
            Some(m)
        }
    }

    /// Receives everything at once, in send order, leaving the queue empty.
    pub fn drain(&mut self) -> (r: Vec<Vec<u8>>)
        ensures
            r.deep_view() == old(self)@,
            final(self)@ == Seq::<Seq<u8>>::empty(),
    {
        let mut drained: Vec<Vec<u8>> = Vec::new();
        core::mem::swap(&mut drained, &mut self.msgs);
        proof {
            assert(self.msgs.deep_view() =~~= Seq::<Seq<u8>>::empty());
        }
        drained
    }

    /// How many payloads wait in the queue.
    pub fn len(&self) -> (n: usize)
        ensures
            n == self@.len(),
    {
        self.msgs.len()
    }
}

/// The queue contents after a run of sends, in order.
pub open spec fn queue_after_sends(q: Seq<Seq<u8>>, sent: Seq<Seq<u8>>) -> Seq<Seq<u8>>
    decreases sent.len(),
{
    if sent.len() == 0 {
        q
    } else {
        queue_after_sends(q.push(sent[0]), sent.drop_first())
    }
}

/// Order preservation of a queue: sending a run of payloads appends them in
/// send order, so draining afterwards observes them exactly as sent.
pub proof fn lemma_fifo_order(q: Seq<Seq<u8>>, sent: Seq<Seq<u8>>)
    ensures
        queue_after_sends(q, sent) == q + sent,
    decreases sent.len(),
{
    if sent.len() == 0 {
        assert(q + sent =~= q);
    } else {
        lemma_fifo_order(q.push(sent[0]), sent.drop_first());
        assert(q.push(sent[0]) + sent.drop_first() =~= q + sent);
    }
}

/// The host-side handle of one live connection: the queues of messages on
/// their way to that client, one per delivery class.
pub struct Endpoint {
    pub client_id: u64,
    pub ordered: ChannelQueue,
    pub unordered: ChannelQueue,
    pub unreliable: ChannelQueue,
}

/// How one endpoint relates to its earlier self after a send to `target`
/// went out: the addressed queue of the addressed endpoint grew by the
/// payload, and nothing else moved.
pub open spec fn sent_to(
    e0: Endpoint,
    e1: Endpoint,
    target: Option<u64>,
    class: DeliveryClass,
    bytes: Seq<u8>,
) -> bool {
    &&& e1.client_id == e0.client_id
    &&& (if target == Some(e0.client_id) {
        match class {
            DeliveryClass::ReliableOrdered => e1.ordered@ == e0.ordered@.push(bytes)
                && e1.unordered@ == e0.unordered@ && e1.unreliable@ == e0.unreliable@,
            DeliveryClass::ReliableUnordered => e1.unordered@ == e0.unordered@.push(bytes)
                && e1.ordered@ == e0.ordered@ && e1.unreliable@ == e0.unreliable@,
            DeliveryClass::Unreliable => e1.unreliable@ == e0.unreliable@.push(bytes)
                && e1.ordered@ == e0.ordered@ && e1.unordered@ == e0.unordered@,
        }
    } else {
        e1.ordered@ == e0.ordered@ && e1.unordered@ == e0.unordered@ && e1.unreliable@
            == e0.unreliable@
    })
}

/// How one endpoint relates to its earlier self after a broadcast that
/// spared `except`: every endpoint but the spared one has the payload at the
/// back of the addressed queue, each independently of all others.
pub open spec fn broadcast_to(
    e0: Endpoint,
    e1: Endpoint,
    except: Option<u64>,
    class: DeliveryClass,
    bytes: Seq<u8>,
) -> bool {
    &&& e1.client_id == e0.client_id
    &&& (if except == Some(e0.client_id) {
        e1.ordered@ == e0.ordered@ && e1.unordered@ == e0.unordered@ && e1.unreliable@
            == e0.unreliable@
    } else {
        match class {
            DeliveryClass::ReliableOrdered => e1.ordered@ == e0.ordered@.push(bytes)
                && e1.unordered@ == e0.unordered@ && e1.unreliable@ == e0.unreliable@,
            DeliveryClass::ReliableUnordered => e1.unordered@ == e0.unordered@.push(bytes)
                && e1.ordered@ == e0.ordered@ && e1.unreliable@ == e0.unreliable@,
            DeliveryClass::Unreliable => e1.unreliable@ == e0.unreliable@.push(bytes)
                && e1.ordered@ == e0.ordered@ && e1.unordered@ == e0.unordered@,
        }
    })
}

/// Appends a copy of the payload to the endpoint's queue of the given class.
fn push_class(e: &mut Endpoint, class: DeliveryClass, bytes: &Vec<u8>)
    ensures
        sent_to(*old(e), *final(e), Some(old(e).client_id), class, bytes@),
{
    let copy = slice_to_vec(bytes.as_slice());
    match class {
        DeliveryClass::ReliableOrdered => e.ordered.send(copy),
        DeliveryClass::ReliableUnordered => e.unordered.send(copy),
        DeliveryClass::Unreliable => e.unreliable.send(copy),
    }
}

/// The endpoints that stay when one client id leaves, their order kept.
pub open spec fn without_id(s: Seq<Endpoint>, id: u64) -> Seq<Endpoint>
    decreases s.len(),
{
    if s.len() == 0 {
        s
    } else if s[0].client_id != id {
        seq![s[0]] + without_id(s.drop_first(), id)
    } else {
        without_id(s.drop_first(), id)
    }
}

/// The host's side of the transport: one endpoint per live connection.
pub struct Network {
    pub endpoints: Vec<Endpoint>,
}

impl Network {
    /// Whether some endpoint carries this client id.
    pub open spec fn spec_contains(&self, client_id: u64) -> bool {
        exists|k: int|
            0 <= k < self.endpoints@.len() && self.endpoints@[k].client_id == client_id
    }

    /// A transport with no connections.
    pub fn new() -> (n: Network)
        ensures
            n.endpoints@.len() == 0,
    {
        Network { endpoints: Vec::new() }
    }

    /// A new connection came up: give it empty queues.
    pub fn connect(&mut self, client_id: u64)
        ensures
            final(self).endpoints@.len() == old(self).endpoints@.len() + 1,
            forall|k: int|
                0 <= k < old(self).endpoints@.len() ==> final(self).endpoints@[k] == old(
                    self,
                ).endpoints@[k],
            final(self).endpoints@.last().client_id == client_id,
            final(self).endpoints@.last().ordered@ == Seq::<Seq<u8>>::empty(),
            final(self).endpoints@.last().unordered@ == Seq::<Seq<u8>>::empty(),
            final(self).endpoints@.last().unreliable@ == Seq::<Seq<u8>>::empty(),
    {
        let e = Endpoint {
            client_id,
            ordered: ChannelQueue::new(),
            unordered: ChannelQueue::new(),
            unreliable: ChannelQueue::new(),
        };
        self.endpoints.push(e);
    }

    /// A connection went down: its endpoint disappears, with whatever was
    /// still queued for it; everything addressed to others stays untouched.
    pub fn disconnect(&mut self, client_id: u64)
        ensures
            final(self).endpoints@ == without_id(old(self).endpoints@, client_id),
    {
        let mut kept: Vec<Endpoint> = Vec::new();
        let ghost all = self.endpoints@;
        while self.endpoints.len() > 0
            invariant
                without_id(all, client_id) =~= kept@ + without_id(self.endpoints@, client_id),
            decreases self.endpoints@.len(),
        {
            let ghost cur = self.endpoints@;
            let ghost kept0 = kept@;
            let e = self.endpoints.remove(0);
            proof {
                assert(self.endpoints@ =~= cur.drop_first());
            }
            if e.client_id != client_id {
                kept.push(e);
                proof {
                    assert(without_id(cur, client_id) == seq![e] + without_id(
                        cur.drop_first(),
                        client_id,
                    ));
                    assert(kept0 + without_id(cur, client_id) =~= kept@ + without_id(
                        self.endpoints@,
                        client_id,
                    ));
                }
            } else {
                proof {
                    assert(without_id(cur, client_id) == without_id(
                        cur.drop_first(),
                        client_id,
                    ));
                }
            }
        }
        proof {
            assert(kept@ + without_id(self.endpoints@, client_id) =~= kept@);
        }
        self.endpoints = kept;
    }

    /// Sends a payload to one connection over one class; a target that is
    /// not connected (any longer) means nothing is sent, not a fault.
    pub fn send_to(&mut self, client_id: u64, class: DeliveryClass, bytes: &Vec<u8>)
        ensures
            final(self).endpoints@.len() == old(self).endpoints@.len(),
            forall|k: int|
                0 <= k < old(self).endpoints@.len() ==> sent_to(
                    old(self).endpoints@[k],
                    #[trigger] final(self).endpoints@[k],
                    Some(client_id),
                    class,
                    bytes@,
                ),
    {
        let n = self.endpoints.len();
        let mut k: usize = 0;
        while k < n
            invariant
                n == self.endpoints@.len(),
                k <= n,
                forall|j: int|
                    0 <= j < k ==> sent_to(
                        old(self).endpoints@[j],
                        #[trigger] self.endpoints@[j],
                        Some(client_id),
                        class,
                        bytes@,
                    ),
                forall|j: int| k <= j < n ==> self.endpoints@[j] == old(self).endpoints@[j],
            decreases n - k,
        {
            if self.endpoints[k].client_id == client_id {
                push_class(&mut self.endpoints[k], class, bytes);
            }
            k = k + 1;
        }
    }

    /// Broadcasts a payload to every connection over one class: each live
    /// endpoint receives its own copy, independently of every other.
    pub fn broadcast(&mut self, class: DeliveryClass, bytes: &Vec<u8>)
        ensures
            final(self).endpoints@.len() == old(self).endpoints@.len(),
            forall|k: int|
                0 <= k < old(self).endpoints@.len() ==> broadcast_to(
                    old(self).endpoints@[k],
                    #[trigger] final(self).endpoints@[k],
                    None,
                    class,
                    bytes@,
                ),
    {
        self.broadcast_inner(None, class, bytes);
    }

    /// Broadcasts a payload to every connection but the originator: each of
    /// the others receives its own copy, independently of every other.
    pub fn broadcast_except(&mut self, except: u64, class: DeliveryClass, bytes: &Vec<u8>)
        ensures
            final(self).endpoints@.len() == old(self).endpoints@.len(),
            forall|k: int|
                0 <= k < old(self).endpoints@.len() ==> broadcast_to(
                    old(self).endpoints@[k],
                    #[trigger] final(self).endpoints@[k],
                    Some(except),
                    class,
                    bytes@,
                ),
    {
        self.broadcast_inner(Some(except), class, bytes);
    }

    /// The shared walk of both broadcast forms.
    fn broadcast_inner(&mut self, except: Option<u64>, class: DeliveryClass, bytes: &Vec<u8>)
        ensures
            final(self).endpoints@.len() == old(self).endpoints@.len(),
            forall|k: int|
                0 <= k < old(self).endpoints@.len() ==> broadcast_to(
                    old(self).endpoints@[k],
                    #[trigger] final(self).endpoints@[k],
                    except,
                    class,
                    bytes@,
                ),
    {
        let n = self.endpoints.len();
        let mut k: usize = 0;
        while k < n
            invariant
                n == self.endpoints@.len(),
                k <= n,
                forall|j: int|
                    0 <= j < k ==> broadcast_to(
                        old(self).endpoints@[j],
                        #[trigger] self.endpoints@[j],
                        except,
                        class,
                        bytes@,
                    ),
                forall|j: int| k <= j < n ==> self.endpoints@[j] == old(self).endpoints@[j],
            decreases n - k,
        {
            let spared = match except {
                Some(id) => self.endpoints[k].client_id == id,
                None => false,
            };
            if !spared {
                push_class(&mut self.endpoints[k], class, bytes);
            }
            k = k + 1;
        }
    }
}

} // verus!
