//! The decision core of the websocket update server: what a polled client
//! item means for the client stream, which instruction each kind of
//! update sends, and how the server loop reacts to events. The transport
//! itself (websocket frames, JSON decoding) lives with the embedder.

use vstd::prelude::*;

verus! {

/// A message a client sends: a subscription to updates of one chunk path.
#[derive(PartialEq, Eq, Debug)]
pub enum ClientMessage {
    Subscribe { chunk_path: String },
}

/// What a computed update contains.
#[derive(Clone, Copy, PartialEq, Eq, Structural, Debug)]
pub enum UpdateKind {
    /// An incremental patch exists.
    Partial,
    /// Everything changed; the client must restart.
    Total,
    /// Nothing changed; only diagnostics are delivered.
    Unchanged,
}

/// The instruction sent to a client.
#[derive(Clone, Copy, PartialEq, Eq, Structural, Debug)]
pub enum InstructionKind {
    /// Apply the partial patch.
    Partial,
    /// Reload from scratch.
    Restart,
    /// Diagnostics only.
    Issues,
}

/// Which instruction an update of each kind sends to the subscribed
/// client.
pub fn instruction_for_update(update: UpdateKind) -> (r: InstructionKind)
    ensures
        update is Partial ==> r is Partial,
        update is Total ==> r is Restart,
        update is Unchanged ==> r is Issues,
{
    match update {
        UpdateKind::Partial => InstructionKind::Partial,
        UpdateKind::Total => InstructionKind::Restart,
        UpdateKind::Unchanged => InstructionKind::Issues,
    }
}

/// One item polled from the client's websocket, after the transport has
/// classified the frame and tried to decode its text.
#[derive(PartialEq, Eq, Debug)]
pub enum ClientItem {
    /// A text frame; `None` when its payload failed to decode.
    Text(Option<ClientMessage>),
    /// The transport reported an error.
    TransportError,
    /// The stream closed, or a frame of another kind arrived.
    ClosedOrOther,
}

/// What one poll of the client stream yields.
#[derive(PartialEq, Eq, Debug)]
pub enum ClientPoll {
    /// A decoded message.
    Message(ClientMessage),
    /// The payload could not be decoded; the stream ends in error.
    ProtocolError,
    /// The transport failed; the stream ends in error.
    TransportFailure,
    /// The stream is over.
    Terminated,
}

/// The client stream's state: once ended it stays ended and yields
/// nothing further.
pub struct UpdateClientState {
    pub ended: bool,
}

impl UpdateClientState {
    pub fn new() -> (r: UpdateClientState)
        ensures
            !r.ended,
    {
        UpdateClientState { ended: false }
    }

    /// Classifies one polled item. Every outcome but a decoded message
    /// ends the stream, and an ended stream only ever terminates: the
    /// ended flag is monotone.
    pub fn poll_step(&mut self, item: ClientItem) -> (r: ClientPoll)
        ensures
            old(self).ended ==> r == ClientPoll::Terminated && *final(self) == *old(self),
            old(self).ended ==> final(self).ended,
            !old(self).ended ==> match item {
                ClientItem::Text(Some(m)) => r == ClientPoll::Message(m) && !final(self).ended,
                ClientItem::Text(None) => r == ClientPoll::ProtocolError && final(self).ended,
                ClientItem::TransportError => r == ClientPoll::TransportFailure && final(self).ended,
                ClientItem::ClosedOrOther => r == ClientPoll::Terminated && final(self).ended,
            },
    {
        if self.ended {
            return ClientPoll::Terminated;
        }
        match item {
            ClientItem::Text(Some(m)) => ClientPoll::Message(m),
            ClientItem::Text(None) => {
                self.ended = true;
                ClientPoll::ProtocolError
            },
            ClientItem::TransportError => {
                self.ended = true;
                ClientPoll::TransportFailure
            },
            ClientItem::ClosedOrOther => {
                self.ended = true;
                ClientPoll::Terminated
            },
        }
    }

    /// The fused-stream probe: terminated once the state ended or the
    /// underlying websocket reports itself terminated.
    pub fn is_terminated(&self, ws_terminated: bool) -> (r: bool)
        ensures
            r == (self.ended || ws_terminated),
    {
        self.ended || ws_terminated
    }
}

/// An event the server loop reacts to.
#[derive(PartialEq, Eq, Debug)]
pub enum ServerEvent {
    /// The client stream yielded an item.
    Client(ClientItem),
    /// The update stream of a subscribed chunk path produced an update.
    Stream(String, UpdateKind),
    /// Every source of events is exhausted.
    AllEnded,
}

/// What the server loop does next.
#[derive(PartialEq, Eq, Debug)]
pub enum ServerAction {
    /// Open an update stream for the chunk path and remember it.
    OpenStream(String),
    /// Send the instruction for the chunk path to the client.
    Send(String, InstructionKind),
    /// Leave the loop; no more updates are sent.
    Stop,
}

/// The update server's state: which chunk paths are subscribed, and the
/// client stream's state.
pub struct UpdateServerState {
    pub subscriptions: Vec<String>,
    pub client: UpdateClientState,
}

/// A chunk path is among the subscriptions.
pub open spec fn spec_subscribed(subs: Seq<String>, path: Seq<char>) -> bool {
    exists|i: int| 0 <= i < subs.len() && (#[trigger] subs[i])@ == path
}

impl UpdateServerState {
    pub fn new() -> (r: UpdateServerState)
        ensures
            r.subscriptions@.len() == 0,
            !r.client.ended,
    {
        UpdateServerState { subscriptions: Vec::new(), client: UpdateClientState::new() }
    }

    /// The server loop's one-step decision: a subscription opens (and
    /// remembers) an update stream, any client error or closure stops the
    /// loop, and a produced update of a subscribed path is sent with the
    /// instruction of its kind.
    pub fn handle_event(&mut self, event: ServerEvent) -> (r: ServerAction)
        ensures
            match event {
                ServerEvent::Client(item) => match item {
                    ClientItem::Text(Some(ClientMessage::Subscribe { chunk_path })) => {
                        &&& r == ServerAction::OpenStream(chunk_path)
                        &&& spec_subscribed(final(self).subscriptions@, chunk_path@)
                        &&& (spec_subscribed(old(self).subscriptions@, chunk_path@)
                            ==> final(self).subscriptions == old(self).subscriptions)
                        &&& (!spec_subscribed(old(self).subscriptions@, chunk_path@)
                            ==> final(self).subscriptions@.len() == old(self).subscriptions@.len() + 1)
                    },
                    _ => r == ServerAction::Stop && final(self).subscriptions == old(self).subscriptions,
                },
                ServerEvent::Stream(path, update) => {
                    &&& final(self).subscriptions == old(self).subscriptions
                    &&& match update {
                        UpdateKind::Partial => r == ServerAction::Send(
                            path,
                            InstructionKind::Partial,
                        ),
                        UpdateKind::Total => r == ServerAction::Send(
                            path,
                            InstructionKind::Restart,
                        ),
                        UpdateKind::Unchanged => r == ServerAction::Send(
                            path,
                            InstructionKind::Issues,
                        ),
                    }
                },
                ServerEvent::AllEnded => r == ServerAction::Stop && final(self).subscriptions
                    == old(self).subscriptions,
            },
    {
        match event {
            ServerEvent::Client(item) => match item {
                ClientItem::Text(Some(ClientMessage::Subscribe { chunk_path })) => {
                    let mut found = false;
                    let mut i: usize = 0;
                    let n = self.subscriptions.len();
                    while i < n
                        invariant
                            *self == *old(self),
                            n == self.subscriptions@.len(),
                            i <= n,
                            found == (exists|j: int|
                                0 <= j < i && (#[trigger] self.subscriptions@[j])@
                                    == chunk_path@),
                        decreases n - i,
                    {
                        if self.subscriptions[i] == chunk_path {
                            found = true;
                        }
                        i = i + 1;
                    }
                    if !found {
                        let copy = chunk_path.clone();
                        self.subscriptions.push(copy);
                        proof {
                            assert((self.subscriptions@.last())@ == chunk_path@);
                        }
                    }
                    ServerAction::OpenStream(chunk_path)
                },
                _ => ServerAction::Stop,
            },
            ServerEvent::Stream(path, update) => {
                let kind = instruction_for_update(update);
                ServerAction::Send(path, kind)
            },
            ServerEvent::AllEnded => ServerAction::Stop,
        }
    }
}

} // verus!
