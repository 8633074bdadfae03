//! What the server sends, once it is decoded: which of its payloads are usable, and under
//! which identity each one goes.

use crate::identity::{key_from_halves, spec_key_from_halves, EntityKey};
use vstd::prelude::*;

verus! {

/// An identity as the wire carries it: two 64-bit fields, the low half first.
#[derive(Clone, Copy, Debug, PartialEq, Eq, Structural)]
pub struct ProtoUuid {
    pub data_1: u64,
    pub data_2: u64,
}

impl ProtoUuid {
    /// The key that the two fields carry.
    pub open spec fn spec_key(self) -> EntityKey {
        spec_key_from_halves(self.data_1, self.data_2) as EntityKey
    }

    pub fn key(self) -> (key: EntityKey)
        ensures
            key == self.spec_key(),
    {
        key_from_halves(self.data_1, self.data_2)
    }
}

/// One payload of a server message as decoded: either field may be missing.
#[derive(Debug)]
pub struct ServerMessagePayload<C> {
    /// The entity that the payload is about.
    pub id: Option<ProtoUuid>,
    /// What is said of it.
    pub payload: Option<C>,
}

/// A payload that names its entity and says something of it.
#[derive(Debug)]
pub struct InnerServerMessage<C> {
    pub id: EntityKey,
    pub content: C,
}

impl<C> ServerMessagePayload<C> {
    /// The message that the payload holds, if it holds both an identity and a content.
    pub open spec fn spec_into_inner(self) -> Option<InnerServerMessage<C>> {
        match (self.id, self.payload) {
            (Some(id), Some(content)) => Some(InnerServerMessage { id: id.spec_key(), content }),
            _ => None,
        }
    }

    pub fn into_inner(self) -> (inner: Option<InnerServerMessage<C>>)
        ensures
            inner == self.spec_into_inner(),
    {
        let id = match self.id {
            Some(id) => id,
            None => {
                return None;
            },
        };
        match self.payload {
            Some(content) => Some(InnerServerMessage { id: id.key(), content }),
            None => None,
        }
    }
}

/// The usable messages among the payloads, in their order.
pub open spec fn usable_messages<C>(payloads: Seq<ServerMessagePayload<C>>) -> Seq<
    InnerServerMessage<C>,
>
    decreases payloads.len(),
{
    if payloads.len() == 0 {
        Seq::empty()
    } else {
        let earlier = usable_messages(payloads.drop_last());
        match payloads.last().spec_into_inner() {
            Some(inner) => earlier.push(inner),
            None => earlier,
        }
    }
}

/// Keeps the payloads of a server message that name their entity and say something of
/// it, and drops the others.
pub fn parse_server_msg_payload<C>(payloads: Vec<ServerMessagePayload<C>>) -> (inner_messages: Vec<
    InnerServerMessage<C>,
>)
    ensures
        inner_messages@ == usable_messages(payloads@),
{
    let mut inner_messages: Vec<InnerServerMessage<C>> = Vec::new();
    let ghost all = payloads@;
    assert(all.take(0) =~= Seq::empty());
    for payload in it: payloads
        invariant
            it.seq() == all,
            inner_messages@ == usable_messages(all.take(it.index())),
    {
        proof {
            let k = it.index();
            assert(all.take(k + 1).drop_last() =~= all.take(k));
            assert(all.take(k + 1).last() == payload);
        }
        if let Some(inner) = payload.into_inner() {
            inner_messages.push(inner);
        }
    }
    assert(all.take(all.len() as int) =~= all);
    inner_messages
}

} // verus!
