//! The decisions of a datagram relay that forwards to an upstream server
//! and lets a policy answer some datagrams itself.

use vstd::prelude::*;

verus! {

/// A policy that may answer a client datagram without forwarding it.
pub trait Interceptor {
    /// The reply the policy gives to `datagram`, if any.
    spec fn reply_for(&self, datagram: Seq<u8>) -> Option<Seq<u8>>;

    /// Offers a datagram to the policy: `Some(reply)` is sent straight back
    /// to the client, `None` has the datagram forwarded.
    fn intercept(&self, datagram: &[u8]) -> (r: Option<Vec<u8>>)
        ensures
            match r {
                Some(reply) => self.reply_for(datagram@) == Some(reply@),
                None => self.reply_for(datagram@) is None,
            },
    ;
}

/// The policy that answers nothing: every datagram is forwarded.
pub struct DefaultInterceptor;

impl Interceptor for DefaultInterceptor {
    open spec fn reply_for(&self, datagram: Seq<u8>) -> Option<Seq<u8>> {
        None
    }

    fn intercept(&self, datagram: &[u8]) -> (r: Option<Vec<u8>>) {
        None
    }
}

/// Where the relay stands in handling one client datagram.
#[derive(Clone, Copy, Debug, PartialEq, Eq, Structural)]
pub enum RelayState {
    /// Waiting for a datagram from a client.
    AwaitClient,
    /// A reply is being sent back to the client.
    ReplyPending,
    /// The client's datagram is being forwarded upstream.
    ForwardPending,
    /// Waiting for the upstream server's reply.
    AwaitUpstream,
}

/// What came of the last action the relay asked for.
pub enum RelayEvent {
    /// A datagram arrived (from the client or from upstream, as asked).
    Received(Vec<u8>),
    /// The receive failed.
    ReceiveFailed,
    /// The datagram was sent.
    Sent,
    /// The send failed.
    SendFailed,
}

/// The I/O the relay asks for next.
pub enum RelayAction {
    /// Receive the next datagram from any client.
    ReceiveFromClient,
    /// Send these bytes to the client of the datagram being handled.
    SendToClient(Vec<u8>),
    /// Forward these bytes to the upstream server.
    SendUpstream(Vec<u8>),
    /// Receive the upstream server's reply.
    ReceiveFromUpstream,
}

/// A `RelayAction` with its bytes as sequences.
pub enum RelayActionModel {
    ReceiveFromClient,
    SendToClient(Seq<u8>),
    SendUpstream(Seq<u8>),
    ReceiveFromUpstream,
}

impl View for RelayAction {
    type V = RelayActionModel;

    open spec fn view(&self) -> RelayActionModel {
        match self {
            RelayAction::ReceiveFromClient => RelayActionModel::ReceiveFromClient,
            RelayAction::SendToClient(b) => RelayActionModel::SendToClient(b@),
            RelayAction::SendUpstream(b) => RelayActionModel::SendUpstream(b@),
            RelayAction::ReceiveFromUpstream => RelayActionModel::ReceiveFromUpstream,
        }
    }
}

/// The next state and action of a relay with policy `policy`, in state `s`,
/// on `event`. A client datagram is answered by the policy or forwarded; a
/// forwarded one waits for the upstream reply, which goes back to the
/// client. Every failure, and every finished reply, returns the relay to
/// waiting for a client.
pub open spec fn transition<I: Interceptor>(policy: &I, s: RelayState, event: RelayEvent) -> (
    RelayState,
    RelayActionModel,
) {
    match s {
        RelayState::AwaitClient => match event {
            RelayEvent::Received(d) => match policy.reply_for(d@) {
                Some(reply) => (RelayState::ReplyPending, RelayActionModel::SendToClient(reply)),
                None => (RelayState::ForwardPending, RelayActionModel::SendUpstream(d@)),
            },
            _ => (RelayState::AwaitClient, RelayActionModel::ReceiveFromClient),
        },
        RelayState::ForwardPending => match event {
            RelayEvent::Sent => (RelayState::AwaitUpstream, RelayActionModel::ReceiveFromUpstream),
            _ => (RelayState::AwaitClient, RelayActionModel::ReceiveFromClient),
        },
        RelayState::AwaitUpstream => match event {
            RelayEvent::Received(d) => (RelayState::ReplyPending, RelayActionModel::SendToClient(d@)),
            _ => (RelayState::AwaitClient, RelayActionModel::ReceiveFromClient),
        },
        RelayState::ReplyPending => (RelayState::AwaitClient, RelayActionModel::ReceiveFromClient),
    }
}

/// A relay between clients and the upstream server `target`, with a policy
/// that may answer datagrams itself. It decides; its owner does the I/O.
pub struct UdpRelay<A, I> {
    target: A,
    interceptor: I,
    state: RelayState,
}

impl<A, I: Interceptor> UdpRelay<A, I> {
    pub closed spec fn relay_target(&self) -> A {
        self.target
    }

    pub closed spec fn relay_policy(&self) -> I {
        self.interceptor
    }

    pub closed spec fn relay_state(&self) -> RelayState {
        self.state
    }

    /// A relay to `target`, waiting for its first client datagram.
    pub fn new(target: A, interceptor: I) -> (r: UdpRelay<A, I>)
        ensures
            r.relay_target() == target,
            r.relay_policy() == interceptor,
            r.relay_state() == RelayState::AwaitClient,
    {
        UdpRelay { target, interceptor, state: RelayState::AwaitClient }
    }

    /// The upstream server's address.
    pub fn target(&self) -> (r: &A)
        ensures
            *r == self.relay_target(),
    {
        &self.target
    }

    pub fn state(&self) -> (r: RelayState)
        ensures
            r == self.relay_state(),
    {
        self.state
    }

    /// Takes in what came of the last action and returns the next one.
    pub fn step(&mut self, event: RelayEvent) -> (action: RelayAction)
        ensures
            (final(self).relay_state(), action@) == transition(
                &old(self).relay_policy(),
                old(self).relay_state(),
                event,
            ),
            final(self).relay_target() == old(self).relay_target(),
            final(self).relay_policy() == old(self).relay_policy(),
    {
        let (next, action) = match self.state {
            RelayState::AwaitClient => match event {
                RelayEvent::Received(d) => match self.interceptor.intercept(d.as_slice()) {
                    Some(reply) => (RelayState::ReplyPending, RelayAction::SendToClient(reply)),
                    None => (RelayState::ForwardPending, RelayAction::SendUpstream(d)),
                },
                _ => (RelayState::AwaitClient, RelayAction::ReceiveFromClient),
            },
            RelayState::ForwardPending => match event {
                RelayEvent::Sent => (RelayState::AwaitUpstream, RelayAction::ReceiveFromUpstream),
                _ => (RelayState::AwaitClient, RelayAction::ReceiveFromClient),
            },
            RelayState::AwaitUpstream => match event {
                RelayEvent::Received(d) => (RelayState::ReplyPending, RelayAction::SendToClient(d)),
                _ => (RelayState::AwaitClient, RelayAction::ReceiveFromClient),
            },
            RelayState::ReplyPending => (RelayState::AwaitClient, RelayAction::ReceiveFromClient),
        };
        self.state = next;
        action
    }
}

/// A failed receive or send, in any state, abandons the datagram being
/// handled without sending anything and returns the relay to waiting for
/// the next client datagram, the state a new relay starts in.
pub proof fn lemma_failures_resume<I: Interceptor>(policy: &I, s: RelayState)
    ensures
        transition(policy, s, RelayEvent::ReceiveFailed) == (
            RelayState::AwaitClient,
            RelayActionModel::ReceiveFromClient,
        ),
        transition(policy, s, RelayEvent::SendFailed) == (
            RelayState::AwaitClient,
            RelayActionModel::ReceiveFromClient,
        ),
{
}

} // verus!
