//! Per-connection protocol multiplexer.
//!
//! One `NotifsHandler` owns, for a single established connection, the state
//! the multiplexer keeps about every named notification-substream handler
//! pair plus the single legacy substream handler.  The substream handlers
//! themselves live with the connection task; the multiplexer decides, for
//! every command and every sub-handler event, which handler is told what.
//! Each decision is returned as a list of [`Action`] values naming the
//! receiving handler and the command it is handed.

use vstd::prelude::*;

verus! {

use crate::scale::bytes_enc;
use crate::scale::clone_bytes;

/// Tri-state enablement lifecycle of a connection's protocol handlers.
///
/// Starts at `Initial`; the first `Enable` or `Disable` command moves it to
/// `Enabled` or `Disabled`, and it never changes again.
#[derive(Debug, Clone, Copy, PartialEq, Eq, Structural)]
pub enum EnabledState {
    /// No `Enable` or `Disable` command has been received yet.
    Initial,
    /// The first command received was `Enable`.
    Enabled,
    /// The first command received was `Disabled`.
    Disabled,
}

/// Descriptor of the legacy backward-compatibility protocol.
#[derive(Debug, Clone, PartialEq, Eq)]
pub struct RegisteredProtocol {
    /// Wire identifier of the legacy protocol.
    pub id: Vec<u8>,
}

/// What the multiplexer keeps about one inbound notification handler:
/// its protocol name and the handshake bytes sent with an accept.
struct NotifsInHandler {
    name: Vec<u8>,
    handshake: Vec<u8>,
}

/// What the multiplexer keeps about one outbound notification handler:
/// its protocol name, and whether its substream is currently open
/// (it has reported an open and has not since reported closed or refused,
/// nor been disabled).
struct NotifsOutHandler {
    name: Vec<u8>,
    open: bool,
}

/// Abstract state of a [`NotifsHandlerProto`].
pub struct NotifsHandlerProtoView {
    /// Protocol name of each inbound handler, in registration order.
    pub in_protocols: Seq<Seq<u8>>,
    /// Handshake bytes of each inbound handler.
    pub handshakes: Seq<Seq<u8>>,
    /// Protocol name of each outbound handler.
    pub out_protocols: Seq<Seq<u8>>,
    /// Legacy protocol identifier.
    pub legacy: Seq<u8>,
}

impl NotifsHandlerProtoView {
    /// The two handler lists are built from the same ordered protocol list.
    pub open spec fn wf(self) -> bool {
        &&& self.in_protocols.len() == self.out_protocols.len()
        &&& self.handshakes.len() == self.in_protocols.len()
        &&& forall|i: int|
            0 <= i < self.in_protocols.len() ==> self.in_protocols[i] == self.out_protocols[i]
    }
}

/// Prototype for a [`NotifsHandler`]: built once per protocol list, turned
/// into the actual handler when a connection is established.
pub struct NotifsHandlerProto {
    in_handlers: Vec<NotifsInHandler>,
    out_handlers: Vec<NotifsOutHandler>,
    legacy: RegisteredProtocol,
}

impl View for NotifsHandlerProto {
    type V = NotifsHandlerProtoView;

    closed spec fn view(&self) -> NotifsHandlerProtoView {
        NotifsHandlerProtoView {
            in_protocols: self.in_handlers@.map_values(|h: NotifsInHandler| h.name@),
            handshakes: self.in_handlers@.map_values(|h: NotifsInHandler| h.handshake@),
            out_protocols: self.out_handlers@.map_values(|h: NotifsOutHandler| h.name@),
            legacy: self.legacy.id@,
        }
    }
}

/// Abstract state of a [`NotifsHandler`].
pub struct NotifsHandlerView {
    /// Protocol name of each inbound handler, in registration order.
    pub in_protocols: Seq<Seq<u8>>,
    /// Handshake bytes of each inbound handler.
    pub handshakes: Seq<Seq<u8>>,
    /// Protocol name of each outbound handler.
    pub out_protocols: Seq<Seq<u8>>,
    /// Whether each outbound handler's substream is currently open.
    pub out_open: Seq<bool>,
    /// Legacy protocol identifier.
    pub legacy: Seq<u8>,
    /// Enablement state.
    pub enabled: EnabledState,
    /// Inbound handler indices whose open request arrived while `Initial`
    /// and is not yet resolved, in arrival order.
    pub pending_in: Seq<usize>,
}

impl NotifsHandlerView {
    /// Invariant of every constructed multiplexer: the handler lists are
    /// parallel, the pending set is non-empty only while `Initial`, and
    /// every pending index is in range.
    pub open spec fn wf(self) -> bool {
        &&& self.in_protocols.len() == self.out_protocols.len()
        &&& self.handshakes.len() == self.in_protocols.len()
        &&& self.out_open.len() == self.out_protocols.len()
        &&& forall|i: int|
            0 <= i < self.in_protocols.len() ==> self.in_protocols[i] == self.out_protocols[i]
        &&& (self.pending_in.len() > 0 ==> self.enabled == EnabledState::Initial)
        &&& forall|j: int|
            0 <= j < self.pending_in.len() ==> (self.pending_in[j] as int) < self.in_protocols.len()
    }
}

/// The per-connection protocol multiplexer.
pub struct NotifsHandler {
    in_handlers: Vec<NotifsInHandler>,
    out_handlers: Vec<NotifsOutHandler>,
    legacy: RegisteredProtocol,
    enabled: EnabledState,
    pending_in: Vec<usize>,
}

impl View for NotifsHandler {
    type V = NotifsHandlerView;

    closed spec fn view(&self) -> NotifsHandlerView {
        NotifsHandlerView {
            in_protocols: self.in_handlers@.map_values(|h: NotifsInHandler| h.name@),
            handshakes: self.in_handlers@.map_values(|h: NotifsInHandler| h.handshake@),
            out_protocols: self.out_handlers@.map_values(|h: NotifsOutHandler| h.name@),
            out_open: self.out_handlers@.map_values(|h: NotifsOutHandler| h.open),
            legacy: self.legacy.id@,
            enabled: self.enabled,
            pending_in: self.pending_in@,
        }
    }
}

/// Command accepted by the multiplexer from the connection's owner.
#[derive(Debug, Clone, PartialEq, Eq)]
pub enum NotifsHandlerIn {
    /// The node should start using custom protocols.
    Enable,
    /// The node should stop using custom protocols.
    Disable,
    /// Sends a raw message over the legacy substream.
    Send {
        /// The message to send.
        message: Vec<u8>,
    },
    /// Sends a notification message, over the named protocol's substream if
    /// it is open and over the legacy substream otherwise.
    SendNotification {
        /// Name of the protocol for the message.
        proto_name: Vec<u8>,
        /// Tag to use if the message falls back to the legacy substream.
        engine_id: [u8; 4],
        /// The message to send.
        message: Vec<u8>,
    },
}

/// Error kind handed to a sub-handler after a failed outbound upgrade.
#[derive(Debug, Clone, Copy, PartialEq, Eq, Structural)]
pub enum RoutedUpgradeError {
    /// The negotiation timed out.
    Timeout,
    /// The negotiation timer failed.
    Timer,
    /// Protocol selection failed.
    Select,
    /// The protocol's own upgrade logic failed.
    Apply,
}

/// Command the multiplexer hands an inbound notification handler.
#[derive(Debug, Clone, PartialEq, Eq)]
pub enum InboundCommand {
    /// The handler receives the fully negotiated inbound substream.
    FullyNegotiated,
    /// Accept the handler's pending open request, sending these handshake
    /// bytes.
    Accept {
        /// Handshake payload sent with the accept.
        handshake: Vec<u8>,
    },
    /// Refuse the handler's pending open request.
    Refuse,
}

/// Command the multiplexer hands an outbound notification handler.
#[derive(Debug, Clone, PartialEq, Eq)]
pub enum OutboundCommand {
    /// The handler may open its outbound substream.
    Enable,
    /// The handler must close its outbound substream.
    Disable,
    /// Send these bytes on the handler's open substream.
    Send {
        /// The message to send.
        message: Vec<u8>,
    },
    /// The handler receives the fully negotiated outbound substream.
    FullyNegotiated,
    /// The handler's outbound upgrade failed.
    DialUpgradeError {
        /// What failed.
        error: RoutedUpgradeError,
    },
}

/// Command the multiplexer hands the legacy handler.
#[derive(Debug, Clone, PartialEq, Eq)]
pub enum LegacyCommand {
    /// Start using the legacy protocol.
    Enable,
    /// Stop using the legacy protocol.
    Disable,
    /// Send these bytes as a raw legacy message.
    SendCustomMessage {
        /// The message to send.
        message: Vec<u8>,
    },
    /// The handler receives a fully negotiated inbound substream.
    FullyNegotiatedInbound,
    /// The handler receives the fully negotiated outbound substream.
    FullyNegotiatedOutbound,
    /// The handler's outbound upgrade failed.
    DialUpgradeError {
        /// What failed.
        error: RoutedUpgradeError,
    },
}

/// One routing decision: which sub-handler is told what.
#[derive(Debug, Clone, PartialEq, Eq)]
pub enum Action {
    /// Command for the inbound notification handler at this index.
    Inbound {
        /// Index into the inbound handler list.
        index: usize,
        /// The command handed over.
        command: InboundCommand,
    },
    /// Command for the outbound notification handler at this index.
    Outbound {
        /// Index into the outbound handler list.
        index: usize,
        /// The command handed over.
        command: OutboundCommand,
    },
    /// Command for the legacy handler.
    Legacy {
        /// The command handed over.
        command: LegacyCommand,
    },
}

/// Outcome of an inbound upgrade negotiation: a named protocol's inbound
/// handler, identified by its index, or the legacy protocol.
#[derive(Debug, Clone, Copy, PartialEq, Eq, Structural)]
pub enum InboundNegotiation {
    /// A named notification protocol was selected.
    Notifications {
        /// Index of the selected inbound handler.
        index: usize,
    },
    /// The legacy protocol was selected.
    Legacy,
}

/// Which upgrade kind an outbound negotiation resolved to.
#[derive(Debug, Clone, Copy, PartialEq, Eq, Structural)]
pub enum OutboundNegotiation {
    /// A named notification protocol was negotiated.
    Notifications,
    /// The legacy protocol was negotiated.
    Legacy,
}

/// Error kinds reported for a failed outbound upgrade, before routing.
/// An `Apply` failure remembers which upgrade side produced it.
#[derive(Debug, Clone, Copy, PartialEq, Eq, Structural)]
pub enum DialUpgradeError {
    /// The negotiation timed out.
    Timeout,
    /// The negotiation timer failed.
    Timer,
    /// Protocol selection failed.
    Select,
    /// A named notification protocol's upgrade logic failed.
    ApplyNotifications,
    /// The legacy protocol's upgrade logic failed.
    ApplyLegacy,
}

/// The message placed on the legacy substream when a notification falls
/// back to the legacy path: the engine id, then the length-prefixed
/// payload.
pub open spec fn legacy_message_bytes(engine_id: Seq<u8>, data: Seq<u8>) -> Seq<u8> {
    engine_id + bytes_enc(data)
}

/// Index of the first outbound handler at or after position `i` that is
/// open and matches `name`, if any.
pub open spec fn first_open_match_from(
    out_protocols: Seq<Seq<u8>>,
    out_open: Seq<bool>,
    name: Seq<u8>,
    i: int,
) -> Option<int>
    decreases out_protocols.len() - i,
{
    if i < 0 || i >= out_protocols.len() {
        None
    } else if out_open[i] && out_protocols[i] == name {
        Some(i)
    } else {
        first_open_match_from(out_protocols, out_open, name, i + 1)
    }
}

/// Index of the first outbound handler that is open and matches `name`,
/// if any.
pub open spec fn first_open_match(
    out_protocols: Seq<Seq<u8>>,
    out_open: Seq<bool>,
    name: Seq<u8>,
) -> Option<int> {
    first_open_match_from(out_protocols, out_open, name, 0)
}

/// `first_open_match_from` names the least open matching index at or
/// after `i`, and `None` means there is none.
pub proof fn lemma_first_open_match_from(
    out_protocols: Seq<Seq<u8>>,
    out_open: Seq<bool>,
    name: Seq<u8>,
    i: int,
)
    requires
        out_open.len() == out_protocols.len(),
        0 <= i,
    ensures
        match first_open_match_from(out_protocols, out_open, name, i) {
            Some(j) => {
                &&& i <= j < out_protocols.len()
                &&& out_open[j]
                &&& out_protocols[j] == name
                &&& forall|k: int| i <= k < j ==> !(out_open[k] && out_protocols[k] == name)
            },
            None => forall|k: int|
                i <= k < out_protocols.len() ==> !(out_open[k] && out_protocols[k] == name),
        },
    decreases out_protocols.len() - i,
{
    if 0 <= i < out_protocols.len() {
        if out_open[i] && out_protocols[i] == name {
        } else {
            lemma_first_open_match_from(out_protocols, out_open, name, i + 1);
        }
    }
}

/// `first_open_match` names the least open matching index, and `None`
/// means there is none.
pub proof fn lemma_first_open_match(
    out_protocols: Seq<Seq<u8>>,
    out_open: Seq<bool>,
    name: Seq<u8>,
)
    requires
        out_open.len() == out_protocols.len(),
    ensures
        match first_open_match(out_protocols, out_open, name) {
            Some(i) => {
                &&& 0 <= i < out_protocols.len()
                &&& out_open[i]
                &&& out_protocols[i] == name
                &&& forall|k: int| 0 <= k < i ==> !(out_open[k] && out_protocols[k] == name)
            },
            None => forall|k: int|
                0 <= k < out_protocols.len() ==> !(out_open[k] && out_protocols[k] == name),
        },
{
    lemma_first_open_match_from(out_protocols, out_open, name, 0);
}

/// Holds when `a` is an accept of inbound handler `idx` carrying
/// handshake bytes `handshake`.
pub open spec fn is_accept_action(a: Action, idx: usize, handshake: Seq<u8>) -> bool {
    a matches Action::Inbound { index, command: InboundCommand::Accept { handshake: h } }
        && index == idx && h@ == handshake
}

/// Holds when `a` is a refuse of inbound handler `idx`.
pub open spec fn is_refuse_action(a: Action, idx: usize) -> bool {
    a == (Action::Inbound { index: idx, command: InboundCommand::Refuse })
}

/// Relation between the state before an `Enable` or `Disable` command, the
/// state after it, and the commands handed to the sub-handlers.  The first
/// command goes to the legacy handler, then every outbound handler is told,
/// then every pending inbound open request is resolved, in recording order.
pub open spec fn enablement_rel(
    pre: NotifsHandlerView,
    post: NotifsHandlerView,
    acts: Seq<Action>,
    enable: bool,
) -> bool {
    let out_len = pre.out_protocols.len() as int;
    &&& post.enabled == (if pre.enabled == EnabledState::Initial {
        if enable {
            EnabledState::Enabled
        } else {
            EnabledState::Disabled
        }
    } else {
        pre.enabled
    })
    &&& post.pending_in == Seq::<usize>::empty()
    &&& post.in_protocols == pre.in_protocols
    &&& post.handshakes == pre.handshakes
    &&& post.out_protocols == pre.out_protocols
    &&& post.out_open == (if enable {
        pre.out_open
    } else {
        Seq::new(pre.out_open.len(), |i: int| false)
    })
    &&& post.legacy == pre.legacy
    &&& acts.len() == 1 + out_len + pre.pending_in.len()
    &&& acts[0] == (Action::Legacy {
        command: if enable {
            LegacyCommand::Enable
        } else {
            LegacyCommand::Disable
        },
    })
    &&& forall|k: int|
        1 <= k < 1 + out_len ==> #[trigger] acts[k] == (Action::Outbound {
            index: (k - 1) as usize,
            command: if enable {
                OutboundCommand::Enable
            } else {
                OutboundCommand::Disable
            },
        })
    &&& forall|j: int|
        0 <= j < pre.pending_in.len() ==> {
            let idx = #[trigger] pre.pending_in[j];
            if enable {
                is_accept_action(acts[1 + out_len + j], idx, pre.handshakes[idx as int])
            } else {
                is_refuse_action(acts[1 + out_len + j], idx)
            }
        }
}

/// Relation for a `Send` command: the state is untouched and the message
/// goes to the legacy handler as a raw message.
pub open spec fn send_rel(
    pre: NotifsHandlerView,
    post: NotifsHandlerView,
    acts: Seq<Action>,
    message: Seq<u8>,
) -> bool {
    &&& post == pre
    &&& acts.len() == 1
    &&& acts[0] matches Action::Legacy { command: LegacyCommand::SendCustomMessage { message: m } }
        && m@ == message
}

/// Relation for a `SendNotification` command: the state is untouched; the
/// message goes to the first open outbound handler whose protocol matches,
/// and otherwise goes to the legacy handler wrapped with the engine id.
pub open spec fn send_notification_rel(
    pre: NotifsHandlerView,
    post: NotifsHandlerView,
    acts: Seq<Action>,
    proto_name: Seq<u8>,
    engine_id: Seq<u8>,
    message: Seq<u8>,
) -> bool {
    &&& post == pre
    &&& acts.len() == 1
    &&& match first_open_match(pre.out_protocols, pre.out_open, proto_name) {
        Some(i) => acts[0] matches Action::Outbound {
            index,
            command: OutboundCommand::Send { message: m },
        } && index as int == i && m@ == message,
        None => acts[0] matches Action::Legacy {
            command: LegacyCommand::SendCustomMessage { message: m },
        } && m@ == legacy_message_bytes(engine_id, message),
    }
}

/// Compares two byte vectors.
fn bytes_equal(a: &Vec<u8>, b: &Vec<u8>) -> (r: bool)
    ensures
        r == (a@ == b@),
{
    if a.len() != b.len() {
        assert(a@ != b@);
        return false;
    }
    let mut i: usize = 0;
    while i < a.len()
        invariant
            i <= a@.len(),
            a@.len() == b@.len(),
            forall|k: int| 0 <= k < i ==> a@[k] == b@[k],
        decreases a@.len() - i,
    {
        if a[i] != b[i] {
            assert(a@ != b@);
            return false;
        }
        i += 1;
    }
    assert(a@ =~= b@);
    true
}

impl NotifsHandlerProto {
    /// Builds the prototype handler set: one inbound and one outbound
    /// handler per `(protocol name, handshake)` pair of `list`, plus the
    /// legacy handler.
    pub fn new(legacy: RegisteredProtocol, list: Vec<(Vec<u8>, Vec<u8>)>) -> (r: Self)
        ensures
            r@.wf(),
            r@.in_protocols == list@.map_values(|p: (Vec<u8>, Vec<u8>)| p.0@),
            r@.handshakes == list@.map_values(|p: (Vec<u8>, Vec<u8>)| p.1@),
            r@.out_protocols == list@.map_values(|p: (Vec<u8>, Vec<u8>)| p.0@),
            r@.legacy == legacy.id@,
    {
        let mut in_handlers: Vec<NotifsInHandler> = Vec::new();
        let mut out_handlers: Vec<NotifsOutHandler> = Vec::new();
        let mut i: usize = 0;
        while i < list.len()
            invariant
                i <= list@.len(),
                in_handlers@.len() == i,
                out_handlers@.len() == i,
                forall|k: int| 0 <= k < i ==> (#[trigger] in_handlers@[k]).name@ == list@[k].0@,
                forall|k: int|
                    0 <= k < i ==> (#[trigger] in_handlers@[k]).handshake@ == list@[k].1@,
                forall|k: int| 0 <= k < i ==> (#[trigger] out_handlers@[k]).name@ == list@[k].0@,
            decreases list@.len() - i,
        {
            in_handlers.push(
                NotifsInHandler {
                    name: clone_bytes(&list[i].0),
                    handshake: clone_bytes(&list[i].1),
                },
            );
            out_handlers.push(NotifsOutHandler { name: clone_bytes(&list[i].0), open: false });
            i += 1;
        }
        let r = NotifsHandlerProto { in_handlers, out_handlers, legacy };
        assert(r@.in_protocols =~~= list@.map_values(|p: (Vec<u8>, Vec<u8>)| p.0@));
        assert(r@.handshakes =~~= list@.map_values(|p: (Vec<u8>, Vec<u8>)| p.1@));
        assert(r@.out_protocols =~~= list@.map_values(|p: (Vec<u8>, Vec<u8>)| p.0@));
        r
    }

    /// The protocols this side offers for inbound negotiation: every named
    /// inbound protocol, then the legacy protocol.
    pub fn inbound_protocol(&self) -> (r: Vec<Vec<u8>>)
        ensures
            r@.map_values(|v: Vec<u8>| v@) == self@.in_protocols.push(self@.legacy),
    {
        let mut r: Vec<Vec<u8>> = Vec::new();
        let mut i: usize = 0;
        while i < self.in_handlers.len()
            invariant
                i <= self.in_handlers@.len(),
                r@.len() == i,
                forall|k: int| 0 <= k < i ==> (#[trigger] r@[k])@ == self@.in_protocols[k],
            decreases self.in_handlers@.len() - i,
        {
            r.push(clone_bytes(&self.in_handlers[i].name));
            i += 1;
        }
        r.push(clone_bytes(&self.legacy.id));
        assert(r@.map_values(|v: Vec<u8>| v@) =~~= self@.in_protocols.push(self@.legacy));
        r
    }

    /// Turns the prototype into the handler used once the connection is
    /// established: state starts at `Initial`, no pending requests, no open
    /// outbound substream.
    pub fn into_handler(self) -> (r: NotifsHandler)
        requires
            self@.wf(),
        ensures
            r@.wf(),
            r@.in_protocols == self@.in_protocols,
            r@.handshakes == self@.handshakes,
            r@.out_protocols == self@.out_protocols,
            r@.out_open == Seq::new(self@.out_protocols.len(), |i: int| false),
            r@.legacy == self@.legacy,
            r@.enabled == EnabledState::Initial,
            r@.pending_in == Seq::<usize>::empty(),
    {
        let NotifsHandlerProto { in_handlers, out_handlers, legacy } = self;
        let mut fresh_out: Vec<NotifsOutHandler> = Vec::new();
        let mut i: usize = 0;
        let ghost out_names = out_handlers@.map_values(|h: NotifsOutHandler| h.name@);
        while i < out_handlers.len()
            invariant
                i <= out_handlers@.len(),
                out_names == out_handlers@.map_values(|h: NotifsOutHandler| h.name@),
                fresh_out@.len() == i,
                forall|k: int| 0 <= k < i ==> (#[trigger] fresh_out@[k]).name@ == out_names[k],
                forall|k: int| 0 <= k < i ==> !(#[trigger] fresh_out@[k]).open,
            decreases out_handlers@.len() - i,
        {
            fresh_out.push(
                NotifsOutHandler { name: clone_bytes(&out_handlers[i].name), open: false },
            );
            i += 1;
        }
        assert(fresh_out@.map_values(|h: NotifsOutHandler| h.name@) =~~= out_names);
        let r = NotifsHandler {
            in_handlers,
            out_handlers: fresh_out,
            legacy,
            enabled: EnabledState::Initial,
            pending_in: Vec::new(),
        };
        assert(r@.out_open =~= Seq::new(r@.out_protocols.len(), |i: int| false));
        assert(r@.pending_in =~= Seq::<usize>::empty());
        r
    }
}

impl NotifsHandler {
    /// Enablement state, for the connection's owner.
    pub fn enabled_state(&self) -> (r: EnabledState)
        ensures
            r == self@.enabled,
    {
        self.enabled
    }

    /// The inbound handler indices recorded while `Initial` and not yet
    /// resolved, in arrival order.
    pub fn pending_indices(&self) -> (r: Vec<usize>)
        ensures
            r@ == self@.pending_in,
    {
        let mut r: Vec<usize> = Vec::new();
        let mut i: usize = 0;
        while i < self.pending_in.len()
            invariant
                i <= self.pending_in@.len(),
                r@.len() == i,
                forall|k: int| 0 <= k < i ==> #[trigger] r@[k] == self.pending_in@[k],
            decreases self.pending_in@.len() - i,
        {
            r.push(self.pending_in[i]);
            i += 1;
        }
        assert(r@ =~= self.pending_in@);
        r
    }

    /// Number of inbound notification handlers.
    pub fn num_in_handlers(&self) -> (r: usize)
        ensures
            r == self@.in_protocols.len(),
    {
        self.in_handlers.len()
    }

    /// Number of outbound notification handlers.
    pub fn num_out_handlers(&self) -> (r: usize)
        ensures
            r == self@.out_protocols.len(),
    {
        self.out_handlers.len()
    }

    /// Whether the outbound handler at `index` currently has an open
    /// substream.
    pub fn is_open(&self, index: usize) -> (r: bool)
        requires
            index < self@.out_protocols.len(),
        ensures
            r == self@.out_open[index as int],
    {
        self.out_handlers[index].open
    }

    /// The protocols this side offers for inbound negotiation: every named
    /// inbound protocol, then the legacy protocol.
    pub fn listen_protocol(&self) -> (r: Vec<Vec<u8>>)
        ensures
            r@.map_values(|v: Vec<u8>| v@) == self@.in_protocols.push(self@.legacy),
    {
        let mut r: Vec<Vec<u8>> = Vec::new();
        let mut i: usize = 0;
        while i < self.in_handlers.len()
            invariant
                i <= self.in_handlers@.len(),
                r@.len() == i,
                forall|k: int| 0 <= k < i ==> (#[trigger] r@[k])@ == self@.in_protocols[k],
            decreases self.in_handlers@.len() - i,
        {
            r.push(clone_bytes(&self.in_handlers[i].name));
            i += 1;
        }
        r.push(clone_bytes(&self.legacy.id));
        assert(r@.map_values(|v: Vec<u8>| v@) =~~= self@.in_protocols.push(self@.legacy));
        r
    }

    /// Routes a fully negotiated inbound substream: to the inbound handler
    /// the negotiation selected, or to the legacy handler.
    pub fn inject_fully_negotiated_inbound(&self, out: InboundNegotiation) -> (r: Action)
        requires
            out matches InboundNegotiation::Notifications { index } ==> (index as int)
                < self@.in_protocols.len(),
        ensures
            r == (match out {
                InboundNegotiation::Notifications { index } => Action::Inbound {
                    index,
                    command: InboundCommand::FullyNegotiated,
                },
                InboundNegotiation::Legacy => Action::Legacy {
                    command: LegacyCommand::FullyNegotiatedInbound,
                },
            }),
    {
        match out {
            InboundNegotiation::Notifications { index } => Action::Inbound {
                index,
                command: InboundCommand::FullyNegotiated,
            },
            InboundNegotiation::Legacy => Action::Legacy {
                command: LegacyCommand::FullyNegotiatedInbound,
            },
        }
    }

    /// Routes a fully negotiated outbound substream by the correlation
    /// token carried from the original open request: a named-protocol
    /// result with token `Some(index)` goes to that outbound handler, a
    /// legacy result with token `None` goes to the legacy handler, and any
    /// other pairing is a defect that is dropped.
    pub fn inject_fully_negotiated_outbound(
        &self,
        out: OutboundNegotiation,
        num: Option<usize>,
    ) -> (r: Option<Action>)
        requires
            num matches Some(i) ==> (i as int) < self@.out_protocols.len(),
        ensures
            r == (match (out, num) {
                (OutboundNegotiation::Notifications, Some(i)) => Some(Action::Outbound {
                    index: i,
                    command: OutboundCommand::FullyNegotiated,
                }),
                (OutboundNegotiation::Legacy, None) => Some(Action::Legacy {
                    command: LegacyCommand::FullyNegotiatedOutbound,
                }),
                _ => None::<Action>,
            }),
    {
        match (out, num) {
            (OutboundNegotiation::Notifications, Some(i)) => Some(Action::Outbound {
                index: i,
                command: OutboundCommand::FullyNegotiated,
            }),
            (OutboundNegotiation::Legacy, None) => Some(Action::Legacy {
                command: LegacyCommand::FullyNegotiatedOutbound,
            }),
            _ => None,
        }
    }

    /// Routes a failed outbound upgrade by its correlation token, exactly
    /// as successful opens are routed: `Some(index)` to that outbound
    /// handler, `None` to the legacy handler.  A token/error-kind mismatch
    /// is a defect that is dropped without touching the connection.
    pub fn inject_dial_upgrade_error(&self, num: Option<usize>, err: DialUpgradeError) -> (r:
        Option<Action>)
        requires
            num matches Some(i) ==> (i as int) < self@.out_protocols.len(),
        ensures
            r == (match (err, num) {
                (DialUpgradeError::Timeout, Some(i)) => Some(Action::Outbound {
                    index: i,
                    command: OutboundCommand::DialUpgradeError { error: RoutedUpgradeError::Timeout },
                }),
                (DialUpgradeError::Timeout, None) => Some(Action::Legacy {
                    command: LegacyCommand::DialUpgradeError { error: RoutedUpgradeError::Timeout },
                }),
                (DialUpgradeError::Timer, Some(i)) => Some(Action::Outbound {
                    index: i,
                    command: OutboundCommand::DialUpgradeError { error: RoutedUpgradeError::Timer },
                }),
                (DialUpgradeError::Timer, None) => Some(Action::Legacy {
                    command: LegacyCommand::DialUpgradeError { error: RoutedUpgradeError::Timer },
                }),
                (DialUpgradeError::Select, Some(i)) => Some(Action::Outbound {
                    index: i,
                    command: OutboundCommand::DialUpgradeError { error: RoutedUpgradeError::Select },
                }),
                (DialUpgradeError::Select, None) => Some(Action::Legacy {
                    command: LegacyCommand::DialUpgradeError { error: RoutedUpgradeError::Select },
                }),
                (DialUpgradeError::ApplyNotifications, Some(i)) => Some(Action::Outbound {
                    index: i,
                    command: OutboundCommand::DialUpgradeError { error: RoutedUpgradeError::Apply },
                }),
                (DialUpgradeError::ApplyLegacy, None) => Some(Action::Legacy {
                    command: LegacyCommand::DialUpgradeError { error: RoutedUpgradeError::Apply },
                }),
                _ => None::<Action>,
            }),
    {
        match (err, num) {
            (DialUpgradeError::Timeout, Some(i)) => Some(Action::Outbound {
                index: i,
                command: OutboundCommand::DialUpgradeError { error: RoutedUpgradeError::Timeout },
            }),
            (DialUpgradeError::Timeout, None) => Some(Action::Legacy {
                command: LegacyCommand::DialUpgradeError { error: RoutedUpgradeError::Timeout },
            }),
            (DialUpgradeError::Timer, Some(i)) => Some(Action::Outbound {
                index: i,
                command: OutboundCommand::DialUpgradeError { error: RoutedUpgradeError::Timer },
            }),
            (DialUpgradeError::Timer, None) => Some(Action::Legacy {
                command: LegacyCommand::DialUpgradeError { error: RoutedUpgradeError::Timer },
            }),
            (DialUpgradeError::Select, Some(i)) => Some(Action::Outbound {
                index: i,
                command: OutboundCommand::DialUpgradeError { error: RoutedUpgradeError::Select },
            }),
            (DialUpgradeError::Select, None) => Some(Action::Legacy {
                command: LegacyCommand::DialUpgradeError { error: RoutedUpgradeError::Select },
            }),
            (DialUpgradeError::ApplyNotifications, Some(i)) => Some(Action::Outbound {
                index: i,
                command: OutboundCommand::DialUpgradeError { error: RoutedUpgradeError::Apply },
            }),
            (DialUpgradeError::ApplyLegacy, None) => Some(Action::Legacy {
                command: LegacyCommand::DialUpgradeError { error: RoutedUpgradeError::Apply },
            }),
            _ => None,
        }
    }

    /// Handles one command from the connection's owner and returns the
    /// commands handed to the sub-handlers, in the order they are issued.
    pub fn inject_event(&mut self, message: NotifsHandlerIn) -> (r: Vec<Action>)
        requires
            old(self)@.wf(),
            message matches NotifsHandlerIn::SendNotification { message: m, .. } ==> m@.len()
                <= u32::MAX,
        ensures
            final(self)@.wf(),
            match message {
                NotifsHandlerIn::Enable => enablement_rel(old(self)@, final(self)@, r@, true),
                NotifsHandlerIn::Disable => enablement_rel(old(self)@, final(self)@, r@, false),
                NotifsHandlerIn::Send { message: m } => send_rel(
                    old(self)@,
                    final(self)@,
                    r@,
                    m@,
                ),
                NotifsHandlerIn::SendNotification { proto_name, engine_id, message: m } =>
                    send_notification_rel(
                    old(self)@,
                    final(self)@,
                    r@,
                    proto_name@,
                    engine_id@,
                    m@,
                ),
            },
    {
        match message {
            NotifsHandlerIn::Enable => self.handle_enablement(true),
            NotifsHandlerIn::Disable => self.handle_enablement(false),
            NotifsHandlerIn::Send { message } => {
                let mut acts: Vec<Action> = Vec::new();
                acts.push(Action::Legacy { command: LegacyCommand::SendCustomMessage { message } });
                acts
            },
            NotifsHandlerIn::SendNotification { proto_name, engine_id, message } => self
                .handle_send_notification(proto_name, engine_id, message),
        }
    }

    /// Applies the first or a repeated `Enable`/`Disable`: advances the
    /// state once from `Initial`, tells the legacy handler and every
    /// outbound handler, and resolves every pending inbound open request.
    fn handle_enablement(&mut self, enable: bool) -> (r: Vec<Action>)
        requires
            old(self)@.wf(),
        ensures
            final(self)@.wf(),
            enablement_rel(old(self)@, final(self)@, r@, enable),
    {
        if self.enabled == EnabledState::Initial {
            self.enabled = if enable {
                EnabledState::Enabled
            } else {
                EnabledState::Disabled
            };
        }
        let mut acts: Vec<Action> = Vec::new();
        acts.push(
            Action::Legacy {
                command: if enable {
                    LegacyCommand::Enable
                } else {
                    LegacyCommand::Disable
                },
            },
        );
        let out_len = self.out_handlers.len();
        let mut i: usize = 0;
        while i < out_len
            invariant
                i <= out_len,
                acts@.len() == 1 + i,
                acts@[0] == (Action::Legacy {
                    command: if enable {
                        LegacyCommand::Enable
                    } else {
                        LegacyCommand::Disable
                    },
                }),
                forall|k: int|
                    1 <= k < 1 + i ==> #[trigger] acts@[k] == (Action::Outbound {
                        index: (k - 1) as usize,
                        command: if enable {
                            OutboundCommand::Enable
                        } else {
                            OutboundCommand::Disable
                        },
                    }),
            decreases out_len - i,
        {
            acts.push(
                Action::Outbound {
                    index: i,
                    command: if enable {
                        OutboundCommand::Enable
                    } else {
                        OutboundCommand::Disable
                    },
                },
            );
            i += 1;
        }
        if !enable {
            let mut j: usize = 0;
            let ghost names = self@.out_protocols;
            let ghost snapshot = *self;
            while j < self.out_handlers.len()
                invariant
                    j <= self.out_handlers@.len(),
                    self.out_handlers@.len() == names.len(),
                    names == self.out_handlers@.map_values(|h: NotifsOutHandler| h.name@),
                    forall|k: int| 0 <= k < j ==> !(#[trigger] self.out_handlers@[k].open),
                    self.in_handlers@ == snapshot.in_handlers@,
                    self.pending_in@ == snapshot.pending_in@,
                    self.legacy == snapshot.legacy,
                    self.enabled == snapshot.enabled,
                decreases self.out_handlers@.len() - j,
            {
                let name = clone_bytes(&self.out_handlers[j].name);
                self.out_handlers[j] = NotifsOutHandler { name, open: false };
                assert(names =~= self.out_handlers@.map_values(|h: NotifsOutHandler| h.name@));
                j += 1;
            }
            assert(self@.out_open =~= Seq::new(names.len(), |i: int| false));
        }
        let mut p: usize = 0;
        let pending_len = self.pending_in.len();
        let ghost out_n = out_len as int;
        while p < pending_len
            invariant
                old(self)@.wf(),
                p <= pending_len,
                pending_len == self.pending_in@.len(),
                self.pending_in@ == old(self)@.pending_in,
                self.in_handlers@ == old(self).in_handlers@,
                out_n == old(self)@.out_protocols.len(),
                acts@.len() == 1 + out_n + p,
                forall|j: int|
                    0 <= j < p ==> {
                        let idx = #[trigger] old(self)@.pending_in[j];
                        if enable {
                            is_accept_action(
                                acts@[1 + out_n + j],
                                idx,
                                old(self)@.handshakes[idx as int],
                            )
                        } else {
                            is_refuse_action(acts@[1 + out_n + j], idx)
                        }
                    },
                acts@[0] == (Action::Legacy {
                    command: if enable {
                        LegacyCommand::Enable
                    } else {
                        LegacyCommand::Disable
                    },
                }),
                forall|k: int|
                    1 <= k < 1 + out_n ==> #[trigger] acts@[k] == (Action::Outbound {
                        index: (k - 1) as usize,
                        command: if enable {
                            OutboundCommand::Enable
                        } else {
                            OutboundCommand::Disable
                        },
                    }),
            decreases pending_len - p,
        {
            let idx = self.pending_in[p];
            assert(old(self)@.pending_in[p as int] == idx);
            assert((idx as int) < old(self)@.in_protocols.len());
            let ghost prev_acts = acts@;
            if enable {
                let handshake = clone_bytes(&self.in_handlers[idx].handshake);
                assert(handshake@ == old(self)@.handshakes[idx as int]);
                acts.push(Action::Inbound { index: idx, command: InboundCommand::Accept { handshake } });
            } else {
                acts.push(Action::Inbound { index: idx, command: InboundCommand::Refuse });
            }
            proof {
                assert(acts@.len() == prev_acts.len() + 1);
                assert(forall|k: int| 0 <= k < prev_acts.len() ==> acts@[k] == prev_acts[k]);
                let new_k = prev_acts.len() as int;
                if enable {
                    assert(is_accept_action(
                        acts@[new_k],
                        idx,
                        old(self)@.handshakes[idx as int],
                    ));
                } else {
                    assert(is_refuse_action(acts@[new_k], idx));
                }
            }
            p += 1;
        }
        self.pending_in = Vec::new();
        assert(self@.pending_in =~= Seq::<usize>::empty());
        acts
    }

    /// Sends a notification: on the first open outbound handler whose
    /// protocol name matches, and otherwise wrapped with the engine id over
    /// the legacy substream.
    fn handle_send_notification(
        &mut self,
        proto_name: Vec<u8>,
        engine_id: [u8; 4],
        message: Vec<u8>,
    ) -> (r: Vec<Action>)
        requires
            old(self)@.wf(),
            message@.len() <= u32::MAX,
        ensures
            final(self)@.wf(),
            final(self)@ == old(self)@,
            send_notification_rel(
                old(self)@,
                final(self)@,
                r@,
                proto_name@,
                engine_id@,
                message@,
            ),
    {
        proof {
            lemma_first_open_match(self@.out_protocols, self@.out_open, proto_name@);
        }
        let mut i: usize = 0;
        while i < self.out_handlers.len()
            invariant
                old(self)@.wf(),
                *self == *old(self),
                i <= self.out_handlers@.len(),
                forall|k: int|
                    0 <= k < i ==> !(self@.out_open[k] && self@.out_protocols[k] == proto_name@),
            decreases self.out_handlers@.len() - i,
        {
            if self.out_handlers[i].open && bytes_equal(&self.out_handlers[i].name, &proto_name) {
                proof {
                    assert(self@.out_open[i as int] && self@.out_protocols[i as int]
                        == proto_name@);
                    lemma_first_open_match_from(
                        self@.out_protocols,
                        self@.out_open,
                        proto_name@,
                        0,
                    );
                    let m = first_open_match(self@.out_protocols, self@.out_open, proto_name@);
                    if let Some(f) = m {
                        assert(!(f < i as int));
                        assert(!(f > i as int));
                    }
                    assert(m == Some(i as int));
                }
                let mut acts: Vec<Action> = Vec::new();
                acts.push(Action::Outbound { index: i, command: OutboundCommand::Send { message } });
                return acts;
            }
            i += 1;
        }
        proof {
            lemma_first_open_match(self@.out_protocols, self@.out_open, proto_name@);
            assert(first_open_match(self@.out_protocols, self@.out_open, proto_name@) is None);
        }
        let mut payload: Vec<u8> = Vec::new();
        payload.push(engine_id[0]);
        payload.push(engine_id[1]);
        payload.push(engine_id[2]);
        payload.push(engine_id[3]);
        assert(payload@ =~= engine_id@);
        crate::scale::encode_bytes(&message, &mut payload);
        assert(payload@ == legacy_message_bytes(engine_id@, message@));
        let mut acts: Vec<Action> = Vec::new();
        acts.push(Action::Legacy { command: LegacyCommand::SendCustomMessage { message: payload } });
        acts
    }
}


/// Liveness signal a handler reports for the connection.
#[derive(Debug, Clone, Copy, PartialEq, Eq, Structural)]
pub enum KeepAlive {
    /// No liveness requirement.
    No,
    /// Keep the connection alive until this instant (an opaque tick count).
    Until(u64),
    /// Keep the connection alive unconditionally.
    Yes,
}

/// Ordering of liveness signals: `No` is weakest, `Until` signals are
/// ordered by their instant, `Yes` is strongest.
pub open spec fn keep_alive_le(a: KeepAlive, b: KeepAlive) -> bool {
    match (a, b) {
        (_, KeepAlive::Yes) => true,
        (KeepAlive::Yes, _) => false,
        (KeepAlive::No, _) => true,
        (_, KeepAlive::No) => false,
        (KeepAlive::Until(x), KeepAlive::Until(y)) => x <= y,
    }
}

/// `keep_alive_le` is total.
pub proof fn lemma_keep_alive_le_total(a: KeepAlive, b: KeepAlive)
    ensures
        keep_alive_le(a, b) || keep_alive_le(b, a),
{
}

/// `keep_alive_le` is transitive.
pub proof fn lemma_keep_alive_le_trans(a: KeepAlive, b: KeepAlive, c: KeepAlive)
    requires
        keep_alive_le(a, b),
        keep_alive_le(b, c),
    ensures
        keep_alive_le(a, c),
{
}

/// Every liveness signal the multiplexer combines, in the order they are
/// consulted: the legacy handler's, then every inbound handler's, then
/// every outbound handler's.
pub open spec fn keep_alive_reports(
    legacy: KeepAlive,
    ins: Seq<KeepAlive>,
    outs: Seq<KeepAlive>,
) -> Seq<KeepAlive> {
    seq![legacy] + ins + outs
}

/// Events an inbound notification handler can report to the multiplexer.
#[derive(Debug, Clone, PartialEq, Eq)]
pub enum NotifsInEvent {
    /// The remote asks to open this protocol's substream.
    OpenRequest,
    /// A notification arrived on the open substream.
    Notif {
        /// The notification payload.
        message: Vec<u8>,
    },
    /// The substream was closed.
    Closed,
}

/// Events an outbound notification handler can report to the multiplexer.
#[derive(Debug, Clone, PartialEq, Eq)]
pub enum NotifsOutEvent {
    /// The handler asks to open its outbound substream.
    SubstreamRequest,
    /// The outbound substream opened, with the remote's handshake.
    Open {
        /// Handshake bytes the remote sent back.
        handshake: Vec<u8>,
    },
    /// The outbound substream closed.
    Closed,
    /// The remote refused the outbound substream.
    Refused,
}

/// Events the legacy handler can report to the multiplexer.
#[derive(Debug, Clone, PartialEq, Eq)]
pub enum LegacyEvent {
    /// The handler asks to open its outbound substream.
    SubstreamRequest,
    /// The legacy protocol opened.
    CustomProtocolOpen,
    /// The legacy protocol closed.
    CustomProtocolClosed {
        /// Reason the substream closed, for diagnostics.
        reason: Vec<u8>,
    },
    /// A raw message arrived on the legacy substream.
    CustomMessage {
        /// The received payload.
        message: Vec<u8>,
    },
    /// The legacy send buffer is clogged.
    Clogged {
        /// Copy of the buffered messages, for diagnostics.
        messages: Vec<Vec<u8>>,
    },
    /// A protocol-level error happened on the legacy substream.
    ProtocolError {
        /// Whether the error is severe (such as a protocol violation).
        is_severe: bool,
        /// Description of the error.
        message: Vec<u8>,
    },
    /// The legacy handler asks to close the whole connection.
    Close {
        /// Description of the fatal error.
        message: Vec<u8>,
    },
}

/// Event the multiplexer surfaces to the connection's owner.
#[derive(Debug, Clone, PartialEq, Eq)]
pub enum NotifsHandlerOut {
    /// Opened a custom protocol with the remote.
    CustomProtocolOpen,
    /// Closed a custom protocol with the remote.
    CustomProtocolClosed {
        /// Reason the substream closed, for diagnostics.
        reason: Vec<u8>,
    },
    /// A message arrived, tagged with its protocol name, or untagged if it
    /// came over the legacy substream.
    CustomMessage {
        /// Protocol the message belongs to, `None` for the legacy path.
        proto_name: Option<Vec<u8>>,
        /// The received payload.
        message: Vec<u8>,
    },
    /// A substream to the remote is clogged.
    Clogged {
        /// Copy of the buffered messages, for diagnostics.
        messages: Vec<Vec<u8>>,
    },
    /// A protocol-level error happened.
    ProtocolError {
        /// Whether the error is severe (such as a protocol violation).
        is_severe: bool,
        /// Description of the error.
        message: Vec<u8>,
    },
}

/// What one poll tick resolves to.
#[derive(Debug, Clone, PartialEq, Eq)]
pub enum PollOutcome {
    /// No sub-handler had a ready event.
    Pending,
    /// Some handler wants to open an outbound substream; the token names
    /// the outbound handler (`None` for the legacy handler) and travels
    /// with the request so that success or failure is routed back to it.
    OutboundSubstreamRequest {
        /// Correlation token: index of the requesting outbound handler, or
        /// `None` for the legacy handler.
        token: Option<usize>,
    },
    /// A translated sub-handler event, surfaced to the connection owner.
    Custom(NotifsHandlerOut),
    /// The legacy handler asks to close the whole connection.
    Close {
        /// Description of the fatal error.
        message: Vec<u8>,
    },
}

/// Whether an inbound handler's event is surfaced to the owner (only a
/// notification is; open requests and closes are consumed internally).
pub open spec fn in_event_surfaces(e: Option<NotifsInEvent>) -> bool {
    e matches Some(NotifsInEvent::Notif { .. })
}

/// Whether an outbound handler's event is surfaced to the owner (only a
/// substream-open request is).
pub open spec fn out_event_surfaces(e: Option<NotifsOutEvent>) -> bool {
    e == Some(NotifsOutEvent::SubstreamRequest)
}

/// Position of the first inbound handler at or after `i` whose pending
/// event is surfaced.
pub open spec fn first_in_surface_from(evs: Seq<Option<NotifsInEvent>>, i: int) -> Option<int>
    decreases evs.len() - i,
{
    if i < 0 || i >= evs.len() {
        None
    } else if in_event_surfaces(evs[i]) {
        Some(i)
    } else {
        first_in_surface_from(evs, i + 1)
    }
}

/// Position of the first inbound handler whose pending event is surfaced.
pub open spec fn first_in_surface(evs: Seq<Option<NotifsInEvent>>) -> Option<int> {
    first_in_surface_from(evs, 0)
}

/// Position of the first outbound handler at or after `i` whose pending
/// event is surfaced.
pub open spec fn first_out_surface_from(evs: Seq<Option<NotifsOutEvent>>, i: int) -> Option<int>
    decreases evs.len() - i,
{
    if i < 0 || i >= evs.len() {
        None
    } else if out_event_surfaces(evs[i]) {
        Some(i)
    } else {
        first_out_surface_from(evs, i + 1)
    }
}

/// Position of the first outbound handler whose pending event is surfaced.
pub open spec fn first_out_surface(evs: Seq<Option<NotifsOutEvent>>) -> Option<int> {
    first_out_surface_from(evs, 0)
}

/// `first_in_surface_from` names the least surfacing position at or after
/// `i`, and `None` means there is none.
pub proof fn lemma_first_in_surface_from(evs: Seq<Option<NotifsInEvent>>, i: int)
    requires
        0 <= i,
    ensures
        match first_in_surface_from(evs, i) {
            Some(j) => {
                &&& i <= j < evs.len()
                &&& in_event_surfaces(evs[j])
                &&& forall|k: int| i <= k < j ==> !in_event_surfaces(#[trigger] evs[k])
            },
            None => forall|k: int| i <= k < evs.len() ==> !in_event_surfaces(#[trigger] evs[k]),
        },
    decreases evs.len() - i,
{
    if 0 <= i < evs.len() {
        if !in_event_surfaces(evs[i]) {
            lemma_first_in_surface_from(evs, i + 1);
        }
    }
}

/// `first_out_surface_from` names the least surfacing position at or
/// after `i`, and `None` means there is none.
pub proof fn lemma_first_out_surface_from(evs: Seq<Option<NotifsOutEvent>>, i: int)
    requires
        0 <= i,
    ensures
        match first_out_surface_from(evs, i) {
            Some(j) => {
                &&& i <= j < evs.len()
                &&& out_event_surfaces(evs[j])
                &&& forall|k: int| i <= k < j ==> !out_event_surfaces(#[trigger] evs[k])
            },
            None => forall|k: int| i <= k < evs.len() ==> !out_event_surfaces(#[trigger] evs[k]),
        },
    decreases evs.len() - i,
{
    if 0 <= i < evs.len() {
        if !out_event_surfaces(evs[i]) {
            lemma_first_out_surface_from(evs, i + 1);
        }
    }
}

/// Positions in `[0, upto)` holding an inbound open request, in order.
pub open spec fn open_request_indices(evs: Seq<Option<NotifsInEvent>>, upto: int) -> Seq<usize>
    decreases upto,
{
    if upto <= 0 {
        Seq::empty()
    } else if evs[upto - 1] == Some(NotifsInEvent::OpenRequest) {
        open_request_indices(evs, upto - 1).push((upto - 1) as usize)
    } else {
        open_request_indices(evs, upto - 1)
    }
}

/// Every recorded open-request position is an in-range open request.
pub proof fn lemma_open_request_indices(evs: Seq<Option<NotifsInEvent>>, upto: int)
    requires
        upto <= evs.len(),
        upto <= usize::MAX,
    ensures
        forall|j: int|
            0 <= j < open_request_indices(evs, upto).len() ==> {
                let idx = #[trigger] open_request_indices(evs, upto)[j];
                &&& (idx as int) < upto
                &&& evs[idx as int] == Some(NotifsInEvent::OpenRequest)
            },
    decreases upto,
{
    if upto > 0 {
        lemma_open_request_indices(evs, upto - 1);
        let prev = open_request_indices(evs, upto - 1);
        let cur = open_request_indices(evs, upto);
        assert forall|j: int|
            0 <= j < cur.len() implies ((cur[j] as int) < upto && evs[cur[j] as int] == Some(
            NotifsInEvent::OpenRequest,
        )) by {
            if evs[upto - 1] == Some(NotifsInEvent::OpenRequest) {
                if j < prev.len() {
                    assert(cur[j] == prev[j]);
                } else {
                    assert(cur[j] == (upto - 1) as usize);
                }
            } else {
                assert(cur[j] == prev[j]);
            }
        }
    }
}

/// The pending set that results from recording a prefix of inbound open
/// requests keeps every index in range, and grows only while `Initial`.
proof fn lemma_poll_pending_wf(
    pre: NotifsHandlerView,
    pending: Seq<usize>,
    ins: Seq<Option<NotifsInEvent>>,
    upto: int,
)
    requires
        pre.wf(),
        ins.len() == pre.in_protocols.len(),
        0 <= upto <= ins.len(),
        upto <= usize::MAX,
        pending == (if pre.enabled == EnabledState::Initial {
            pre.pending_in + open_request_indices(ins, upto)
        } else {
            pre.pending_in
        }),
    ensures
        forall|j: int|
            0 <= j < pending.len() ==> ((#[trigger] pending[j]) as int) < pre.in_protocols.len(),
        pending.len() > 0 ==> pre.enabled == EnabledState::Initial,
{
    lemma_open_request_indices(ins, upto);
    if pre.enabled == EnabledState::Initial {
        assert forall|j: int|
            0 <= j < pending.len() implies ((pending[j]) as int) < pre.in_protocols.len() by {
            if j < pre.pending_in.len() {
                assert(pending[j] == pre.pending_in[j]);
            } else {
                assert(pending[j] == open_request_indices(ins, upto)[j - pre.pending_in.len()]);
            }
        }
    }
}

/// How the surfaced outcome of a poll tick renders a ready legacy-handler
/// event: each of its events maps one-to-one to a unified event.
pub open spec fn legacy_outcome_rel(leg: Option<LegacyEvent>, outcome: PollOutcome) -> bool {
    match leg {
        None => outcome == PollOutcome::Pending,
        Some(LegacyEvent::SubstreamRequest) => outcome == (PollOutcome::OutboundSubstreamRequest {
            token: None,
        }),
        Some(LegacyEvent::CustomProtocolOpen) => outcome == PollOutcome::Custom(
            NotifsHandlerOut::CustomProtocolOpen,
        ),
        Some(LegacyEvent::CustomProtocolClosed { reason }) => outcome matches PollOutcome::Custom(
            NotifsHandlerOut::CustomProtocolClosed { reason: r },
        ) && r@ == reason@,
        Some(LegacyEvent::CustomMessage { message }) => outcome matches PollOutcome::Custom(
            NotifsHandlerOut::CustomMessage { proto_name: None, message: m },
        ) && m@ == message@,
        Some(LegacyEvent::Clogged { messages }) => outcome matches PollOutcome::Custom(
            NotifsHandlerOut::Clogged { messages: ms },
        ) && ms@.map_values(|v: Vec<u8>| v@) == messages@.map_values(|v: Vec<u8>| v@),
        Some(LegacyEvent::ProtocolError { is_severe, message }) => outcome matches PollOutcome::Custom(
            NotifsHandlerOut::ProtocolError { is_severe: s, message: m },
        ) && s == is_severe && m@ == message@,
        Some(LegacyEvent::Close { message }) => outcome matches PollOutcome::Close { message: m }
            && m@ == message@,
    }
}

/// Relation between the state before a poll tick, the state after it, the
/// sub-handler events that were ready, the surfaced outcome, and the
/// commands handed to sub-handlers during the tick.
///
/// Sources are consulted in fixed priority order: every inbound handler,
/// then every outbound handler, then the legacy handler; at most one event
/// is surfaced and sources after the surfacing one stay untouched until
/// the next tick.  An inbound open request is resolved by the enablement
/// state: recorded while `Initial`, accepted with the protocol handshake
/// while `Enabled`, refused while `Disabled`.  Outbound open, closed and
/// refused reports update the handler's open flag and surface nothing.
pub open spec fn poll_rel(
    pre: NotifsHandlerView,
    post: NotifsHandlerView,
    ins: Seq<Option<NotifsInEvent>>,
    outs: Seq<Option<NotifsOutEvent>>,
    leg: Option<LegacyEvent>,
    outcome: PollOutcome,
    acts: Seq<Action>,
) -> bool {
    let cut_in = match first_in_surface(ins) {
        Some(k) => k,
        None => ins.len() as int,
    };
    let in_requests = open_request_indices(ins, cut_in);
    &&& post.in_protocols == pre.in_protocols
    &&& post.handshakes == pre.handshakes
    &&& post.out_protocols == pre.out_protocols
    &&& post.legacy == pre.legacy
    &&& post.enabled == pre.enabled
    &&& post.pending_in == (if pre.enabled == EnabledState::Initial {
        pre.pending_in + in_requests
    } else {
        pre.pending_in
    })
    &&& acts.len() == (if pre.enabled == EnabledState::Initial {
        0
    } else {
        in_requests.len() as int
    })
    &&& (pre.enabled != EnabledState::Initial ==> forall|j: int|
        0 <= j < in_requests.len() ==> {
            let idx = #[trigger] in_requests[j];
            if pre.enabled == EnabledState::Enabled {
                is_accept_action(acts[j], idx, pre.handshakes[idx as int])
            } else {
                is_refuse_action(acts[j], idx)
            }
        })
    &&& match first_in_surface(ins) {
        Some(k) => {
            &&& post.out_open == pre.out_open
            &&& match ins[k] {
                Some(NotifsInEvent::Notif { message }) => outcome matches PollOutcome::Custom(
                    NotifsHandlerOut::CustomMessage { proto_name: Some(n), message: m },
                ) && n@ == pre.in_protocols[k] && m@ == message@,
                _ => false,
            }
        },
        None => {
            let cut_out = match first_out_surface(outs) {
                Some(k) => k,
                None => outs.len() as int,
            };
            &&& post.out_open.len() == pre.out_open.len()
            &&& forall|x: int|
                0 <= x < post.out_open.len() ==> #[trigger] post.out_open[x] == (if x < cut_out {
                    match outs[x] {
                        Some(NotifsOutEvent::Open { .. }) => true,
                        Some(NotifsOutEvent::Closed) => false,
                        Some(NotifsOutEvent::Refused) => false,
                        _ => pre.out_open[x],
                    }
                } else {
                    pre.out_open[x]
                })
            &&& match first_out_surface(outs) {
                Some(k) => outcome == (PollOutcome::OutboundSubstreamRequest {
                    token: Some(k as usize),
                }),
                None => legacy_outcome_rel(leg, outcome),
            }
        },
    }
}

/// Copies a list of byte vectors.
fn clone_byte_lists(v: &Vec<Vec<u8>>) -> (r: Vec<Vec<u8>>)
    ensures
        r@.map_values(|x: Vec<u8>| x@) == v@.map_values(|x: Vec<u8>| x@),
{
    let mut r: Vec<Vec<u8>> = Vec::new();
    let mut i: usize = 0;
    while i < v.len()
        invariant
            i <= v@.len(),
            r@.len() == i,
            forall|k: int| 0 <= k < i ==> (#[trigger] r@[k])@ == v@[k]@,
        decreases v@.len() - i,
    {
        r.push(clone_bytes(&v[i]));
        i += 1;
    }
    assert(r@.map_values(|x: Vec<u8>| x@) =~~= v@.map_values(|x: Vec<u8>| x@));
    r
}

impl NotifsHandler {
    /// The strongest liveness signal across the legacy handler and every
    /// sub-handler, each having reported the given value: `Yes` if any
    /// reports `Yes`, and otherwise the longest timeout among all reports.
    pub fn connection_keep_alive(
        &self,
        legacy: KeepAlive,
        in_reports: &Vec<KeepAlive>,
        out_reports: &Vec<KeepAlive>,
    ) -> (r: KeepAlive)
        requires
            in_reports@.len() == self@.in_protocols.len(),
            out_reports@.len() == self@.out_protocols.len(),
        ensures
            keep_alive_reports(legacy, in_reports@, out_reports@).contains(r),
            forall|k: int|
                0 <= k < keep_alive_reports(legacy, in_reports@, out_reports@).len()
                    ==> keep_alive_le(
                    #[trigger] keep_alive_reports(legacy, in_reports@, out_reports@)[k],
                    r,
                ),
    {
        let ghost all = keep_alive_reports(legacy, in_reports@, out_reports@);
        let mut ret = legacy;
        assert(all[0] == legacy);
        if let KeepAlive::Yes = ret {
            assert(keep_alive_le(all[0], KeepAlive::Yes));
            return KeepAlive::Yes;
        }
        let mut i: usize = 0;
        while i < in_reports.len()
            invariant
                i <= in_reports@.len(),
                all == keep_alive_reports(legacy, in_reports@, out_reports@),
                all.contains(ret),
                keep_alive_le(legacy, ret),
                forall|k: int| 0 <= k < i ==> keep_alive_le(#[trigger] in_reports@[k], ret),
            decreases in_reports@.len() - i,
        {
            let val = in_reports[i];
            if let KeepAlive::Yes = val {
                assert(all[1 + i as int] == val);
                assert(all.contains(val));
                assert forall|k: int| 0 <= k < all.len() implies keep_alive_le(
                    #[trigger] all[k],
                    KeepAlive::Yes,
                ) by {}
                return KeepAlive::Yes;
            }
            let stay = keep_alive_le_exec(&val, &ret);
            if !stay {
                proof {
                    lemma_keep_alive_le_total(val, ret);
                    assert(keep_alive_le(ret, val));
                    lemma_keep_alive_le_trans(legacy, ret, val);
                    assert forall|k: int| 0 <= k < i + 1 implies keep_alive_le(
                        #[trigger] in_reports@[k],
                        val,
                    ) by {
                        if k < i {
                            lemma_keep_alive_le_trans(in_reports@[k], ret, val);
                        }
                    }
                    assert(all[1 + i as int] == val);
                    assert(all.contains(val));
                }
                ret = val;
            } else {
                assert(keep_alive_le(in_reports@[i as int], ret));
            }
            i += 1;
        }
        let mut j: usize = 0;
        while j < out_reports.len()
            invariant
                j <= out_reports@.len(),
                all == keep_alive_reports(legacy, in_reports@, out_reports@),
                all.contains(ret),
                keep_alive_le(legacy, ret),
                forall|k: int|
                    0 <= k < in_reports@.len() ==> keep_alive_le(#[trigger] in_reports@[k], ret),
                forall|k: int| 0 <= k < j ==> keep_alive_le(#[trigger] out_reports@[k], ret),
            decreases out_reports@.len() - j,
        {
            let val = out_reports[j];
            if let KeepAlive::Yes = val {
                assert(all[1 + in_reports@.len() + j as int] == val);
                assert(all.contains(val));
                assert forall|k: int| 0 <= k < all.len() implies keep_alive_le(
                    #[trigger] all[k],
                    KeepAlive::Yes,
                ) by {}
                return KeepAlive::Yes;
            }
            let stay = keep_alive_le_exec(&val, &ret);
            if !stay {
                proof {
                    lemma_keep_alive_le_total(val, ret);
                    lemma_keep_alive_le_trans(legacy, ret, val);
                    assert forall|k: int| 0 <= k < in_reports@.len() implies keep_alive_le(
                        #[trigger] in_reports@[k],
                        val,
                    ) by {
                        lemma_keep_alive_le_trans(in_reports@[k], ret, val);
                    }
                    assert forall|k: int| 0 <= k < j + 1 implies keep_alive_le(
                        #[trigger] out_reports@[k],
                        val,
                    ) by {
                        if k < j {
                            lemma_keep_alive_le_trans(out_reports@[k], ret, val);
                        }
                    }
                    assert(all[1 + in_reports@.len() + j as int] == val);
                    assert(all.contains(val));
                }
                ret = val;
            } else {
                assert(keep_alive_le(out_reports@[j as int], ret));
            }
            j += 1;
        }
        proof {
            assert forall|k: int| 0 <= k < all.len() implies keep_alive_le(
                #[trigger] all[k],
                ret,
            ) by {
                if k == 0 {
                } else if k < 1 + in_reports@.len() {
                    assert(all[k] == in_reports@[k - 1]);
                } else {
                    assert(all[k] == out_reports@[k - 1 - in_reports@.len()]);
                }
            }
        }
        ret
    }

    /// One poll tick.  `in_events` and `out_events` hold the event, if
    /// any, that each inbound and outbound handler has ready, in handler
    /// order; `legacy_event` holds the legacy handler's ready event.  An
    /// inbound close is consumed with no observable effect.
    /// Sources are consulted in that fixed priority order and at most one
    /// translated event is surfaced; sources at or after the surfacing one
    /// (other than the surfaced event itself) are retried on the next
    /// tick.  Returns the surfaced outcome and the commands handed to
    /// sub-handlers while consuming events.
    pub fn poll(
        &mut self,
        in_events: &Vec<Option<NotifsInEvent>>,
        out_events: &Vec<Option<NotifsOutEvent>>,
        legacy_event: &Option<LegacyEvent>,
    ) -> (r: (PollOutcome, Vec<Action>))
        requires
            old(self)@.wf(),
            in_events@.len() == old(self)@.in_protocols.len(),
            out_events@.len() == old(self)@.out_protocols.len(),
        ensures
            final(self)@.wf(),
            poll_rel(
                old(self)@,
                final(self)@,
                in_events@,
                out_events@,
                *legacy_event,
                r.0,
                r.1@,
            ),
    {
        let mut acts: Vec<Action> = Vec::new();
        let mut i: usize = 0;
        while i < in_events.len()
            invariant
                old(self)@.wf(),
                i <= in_events@.len(),
                in_events@.len() == old(self)@.in_protocols.len(),
                self.in_handlers@ == old(self).in_handlers@,
                self.out_handlers@ == old(self).out_handlers@,
                self.legacy == old(self).legacy,
                self.enabled == old(self).enabled,
                self.pending_in@ == (if old(self)@.enabled == EnabledState::Initial {
                    old(self)@.pending_in + open_request_indices(in_events@, i as int)
                } else {
                    old(self)@.pending_in
                }),
                acts@.len() == (if old(self)@.enabled == EnabledState::Initial {
                    0
                } else {
                    open_request_indices(in_events@, i as int).len() as int
                }),
                old(self)@.enabled != EnabledState::Initial ==> forall|j: int|
                    0 <= j < open_request_indices(in_events@, i as int).len() ==> {
                        let idx = #[trigger] open_request_indices(in_events@, i as int)[j];
                        if old(self)@.enabled == EnabledState::Enabled {
                            is_accept_action(acts@[j], idx, old(self)@.handshakes[idx as int])
                        } else {
                            is_refuse_action(acts@[j], idx)
                        }
                    },
                forall|k: int| 0 <= k < i ==> !in_event_surfaces(#[trigger] in_events@[k]),
            decreases in_events@.len() - i,
        {
            let ghost prev_requests = open_request_indices(in_events@, i as int);
            match &in_events[i] {
                Option::None => {},
                Option::Some(NotifsInEvent::OpenRequest) => {
                    match self.enabled {
                        EnabledState::Initial => {
                            self.pending_in.push(i);
                        },
                        EnabledState::Enabled => {
                            let handshake = clone_bytes(&self.in_handlers[i].handshake);
                            assert(handshake@ == old(self)@.handshakes[i as int]);
                            acts.push(
                                Action::Inbound {
                                    index: i,
                                    command: InboundCommand::Accept { handshake },
                                },
                            );
                        },
                        EnabledState::Disabled => {
                            acts.push(
                                Action::Inbound { index: i, command: InboundCommand::Refuse },
                            );
                        },
                    }
                    assert(open_request_indices(in_events@, i + 1) == prev_requests.push(i));
                },
                Option::Some(NotifsInEvent::Closed) => {},
                Option::Some(NotifsInEvent::Notif { message }) => {
                    let name = clone_bytes(&self.in_handlers[i].name);
                    let payload = clone_bytes(message);
                    proof {
                        lemma_first_in_surface_from(in_events@, 0);
                        if let Some(f) = first_in_surface(in_events@) {
                            assert(!(f < i as int));
                            assert(!(f > i as int));
                        }
                        assert(first_in_surface(in_events@) == Some(i as int));
                        lemma_poll_pending_wf(
                            old(self)@,
                            self@.pending_in,
                            in_events@,
                            i as int,
                        );
                        assert(self@.wf());
                    }
                    let outcome = PollOutcome::Custom(
                        NotifsHandlerOut::CustomMessage {
                            proto_name: Some(name),
                            message: payload,
                        },
                    );
                    return (outcome, acts);
                },
            }
            i += 1;
            assert(i <= in_events@.len());
            proof {
                if !(in_events@[i - 1] matches Some(NotifsInEvent::OpenRequest)) {
                    assert(open_request_indices(in_events@, i as int) == open_request_indices(
                        in_events@,
                        i - 1,
                    ));
                }
            }
        }
        proof {
            lemma_first_in_surface_from(in_events@, 0);
            if let Some(f) = first_in_surface(in_events@) {
                assert(!in_event_surfaces(in_events@[f]));
            }
            assert(first_in_surface(in_events@) is None);
        }
        let ghost mid = *self;
        let mut x: usize = 0;
        while x < out_events.len()
            invariant
                old(self)@.wf(),
                x <= out_events@.len(),
                out_events@.len() == old(self)@.out_protocols.len(),
                in_events@.len() == old(self)@.in_protocols.len(),
                mid.in_handlers@ == old(self).in_handlers@,
                mid.out_handlers@ == old(self).out_handlers@,
                mid.legacy == old(self).legacy,
                mid.enabled == old(self).enabled,
                mid.pending_in@ == (if old(self)@.enabled == EnabledState::Initial {
                    old(self)@.pending_in + open_request_indices(
                        in_events@,
                        in_events@.len() as int,
                    )
                } else {
                    old(self)@.pending_in
                }),
                first_in_surface(in_events@) is None,
                acts@.len() == (if old(self)@.enabled == EnabledState::Initial {
                    0
                } else {
                    open_request_indices(in_events@, in_events@.len() as int).len() as int
                }),
                old(self)@.enabled != EnabledState::Initial ==> forall|j: int|
                    0 <= j < open_request_indices(in_events@, in_events@.len() as int).len()
                        ==> {
                        let idx = #[trigger] open_request_indices(
                            in_events@,
                            in_events@.len() as int,
                        )[j];
                        if old(self)@.enabled == EnabledState::Enabled {
                            is_accept_action(acts@[j], idx, old(self)@.handshakes[idx as int])
                        } else {
                            is_refuse_action(acts@[j], idx)
                        }
                    },
                self.in_handlers@ == mid.in_handlers@,
                self.legacy == mid.legacy,
                self.enabled == mid.enabled,
                self.pending_in@ == mid.pending_in@,
                self.out_handlers@.len() == mid.out_handlers@.len(),
                forall|k: int|
                    0 <= k < self.out_handlers@.len() ==> (#[trigger] self.out_handlers@[k]).name@
                        == mid.out_handlers@[k].name@,
                forall|k: int|
                    0 <= k < self.out_handlers@.len() ==> (#[trigger] self.out_handlers@[k]).open
                        == (if k < x {
                        match out_events@[k] {
                            Some(NotifsOutEvent::Open { .. }) => true,
                            Some(NotifsOutEvent::Closed) => false,
                            Some(NotifsOutEvent::Refused) => false,
                            _ => mid.out_handlers@[k].open,
                        }
                    } else {
                        mid.out_handlers@[k].open
                    }),
                forall|k: int| 0 <= k < x ==> !out_event_surfaces(#[trigger] out_events@[k]),
            decreases out_events@.len() - x,
        {
            match &out_events[x] {
                Option::None => {},
                Option::Some(NotifsOutEvent::SubstreamRequest) => {
                    proof {
                        lemma_first_out_surface_from(out_events@, 0);
                        if let Some(f) = first_out_surface(out_events@) {
                            assert(!(f < x as int));
                            assert(!(f > x as int));
                        }
                        assert(first_out_surface(out_events@) == Some(x as int));
                    }
                    let outcome = PollOutcome::OutboundSubstreamRequest { token: Some(x) };
                    proof {
                        lemma_poll_pending_wf(
                            old(self)@,
                            self@.pending_in,
                            in_events@,
                            in_events@.len() as int,
                        );
                        assert(self@.out_protocols =~~= old(self)@.out_protocols);
                        assert(self@.wf());
                    }
                    return (outcome, acts);
                },
                Option::Some(NotifsOutEvent::Open { handshake: _ }) => {
                    let name = clone_bytes(&self.out_handlers[x].name);
                    self.out_handlers[x] = NotifsOutHandler { name, open: true };
                },
                Option::Some(NotifsOutEvent::Closed) => {
                    let name = clone_bytes(&self.out_handlers[x].name);
                    self.out_handlers[x] = NotifsOutHandler { name, open: false };
                },
                Option::Some(NotifsOutEvent::Refused) => {
                    let name = clone_bytes(&self.out_handlers[x].name);
                    self.out_handlers[x] = NotifsOutHandler { name, open: false };
                },
            }
            x += 1;
        }
        proof {
            lemma_first_out_surface_from(out_events@, 0);
            if let Some(f) = first_out_surface(out_events@) {
                assert(!out_event_surfaces(out_events@[f]));
            }
            assert(first_out_surface(out_events@) is None);
        }
        let outcome = match legacy_event {
            Option::None => PollOutcome::Pending,
            Option::Some(LegacyEvent::SubstreamRequest) => PollOutcome::OutboundSubstreamRequest {
                token: None,
            },
            Option::Some(LegacyEvent::CustomProtocolOpen) => PollOutcome::Custom(
                NotifsHandlerOut::CustomProtocolOpen,
            ),
            Option::Some(LegacyEvent::CustomProtocolClosed { reason }) => PollOutcome::Custom(
                NotifsHandlerOut::CustomProtocolClosed { reason: clone_bytes(reason) },
            ),
            Option::Some(LegacyEvent::CustomMessage { message }) => PollOutcome::Custom(
                NotifsHandlerOut::CustomMessage {
                    proto_name: None,
                    message: clone_bytes(message),
                },
            ),
            Option::Some(LegacyEvent::Clogged { messages }) => PollOutcome::Custom(
                NotifsHandlerOut::Clogged { messages: clone_byte_lists(messages) },
            ),
            Option::Some(LegacyEvent::ProtocolError { is_severe, message }) => PollOutcome::Custom(
                NotifsHandlerOut::ProtocolError {
                    is_severe: *is_severe,
                    message: clone_bytes(message),
                },
            ),
            Option::Some(LegacyEvent::Close { message }) => PollOutcome::Close {
                message: clone_bytes(message),
            },
        };
        proof {
            lemma_poll_pending_wf(
                old(self)@,
                self@.pending_in,
                in_events@,
                in_events@.len() as int,
            );
            assert(self@.out_protocols =~~= old(self)@.out_protocols);
            assert(self@.wf());
        }
        (outcome, acts)
    }
}

/// Compares two liveness signals by [`keep_alive_le`].
fn keep_alive_le_exec(a: &KeepAlive, b: &KeepAlive) -> (r: bool)
    ensures
        r == keep_alive_le(*a, *b),
{
    match (a, b) {
        (_, KeepAlive::Yes) => true,
        (KeepAlive::Yes, _) => false,
        (KeepAlive::No, _) => true,
        (_, KeepAlive::No) => false,
        (KeepAlive::Until(x), KeepAlive::Until(y)) => *x <= *y,
    }
}


/// For every constructed multiplexer the inbound and outbound handler
/// lists have the same length, and the protocol name at index `i` is
/// identical in both lists.
pub proof fn lemma_parallel_handler_lists(h: NotifsHandlerView)
    requires
        h.wf(),
    ensures
        h.in_protocols.len() == h.out_protocols.len(),
        forall|i: int| 0 <= i < h.in_protocols.len() ==> h.in_protocols[i] == h.out_protocols[i],
{
}

/// The first `Enable` or `Disable` transitions the state exactly once
/// from `Initial`; a later identical or differing command leaves the
/// state unchanged but is still propagated to the legacy handler and to
/// every outbound handler.
pub proof fn lemma_enablement_transitions_once(
    s0: NotifsHandlerView,
    s1: NotifsHandlerView,
    s2: NotifsHandlerView,
    acts1: Seq<Action>,
    acts2: Seq<Action>,
    first_enable: bool,
    second_enable: bool,
)
    requires
        s0.enabled == EnabledState::Initial,
        enablement_rel(s0, s1, acts1, first_enable),
        enablement_rel(s1, s2, acts2, second_enable),
    ensures
        s1.enabled == (if first_enable {
            EnabledState::Enabled
        } else {
            EnabledState::Disabled
        }),
        s2.enabled == s1.enabled,
        acts2.len() >= 1 + s1.out_protocols.len(),
        acts2[0] == (Action::Legacy {
            command: if second_enable {
                LegacyCommand::Enable
            } else {
                LegacyCommand::Disable
            },
        }),
        forall|k: int|
            1 <= k < 1 + s1.out_protocols.len() ==> #[trigger] acts2[k] == (Action::Outbound {
                index: (k - 1) as usize,
                command: if second_enable {
                    OutboundCommand::Enable
                } else {
                    OutboundCommand::Disable
                },
            }),
{
}

/// Every inbound open request recorded while `Initial` is resolved
/// exactly once (accepted on `Enable`, refused on `Disable`) by the next
/// enablement command, and the pending set is empty immediately
/// afterward: one resolution action stands at a distinct position for
/// each recorded request, and no other action touches an inbound handler.
pub proof fn lemma_pending_resolved_once(
    pre: NotifsHandlerView,
    post: NotifsHandlerView,
    acts: Seq<Action>,
    enable: bool,
)
    requires
        pre.wf(),
        enablement_rel(pre, post, acts, enable),
    ensures
        post.pending_in.len() == 0,
        acts.len() == 1 + pre.out_protocols.len() + pre.pending_in.len(),
        forall|j: int|
            0 <= j < pre.pending_in.len() ==> {
                let idx = #[trigger] pre.pending_in[j];
                if enable {
                    is_accept_action(
                        acts[1 + pre.out_protocols.len() + j],
                        idx,
                        pre.handshakes[idx as int],
                    )
                } else {
                    is_refuse_action(acts[1 + pre.out_protocols.len() + j], idx)
                }
            },
        forall|k: int|
            0 <= k < 1 + pre.out_protocols.len() ==> !((#[trigger] acts[k]) matches
            Action::Inbound { .. }),
{
    assert forall|k: int|
        0 <= k < 1 + pre.out_protocols.len() implies !((#[trigger] acts[k]) matches
    Action::Inbound { .. }) by {
        if k == 0 {
        } else {
            assert(acts[k] == (Action::Outbound {
                index: (k - 1) as usize,
                command: if enable {
                    OutboundCommand::Enable
                } else {
                    OutboundCommand::Disable
                },
            }));
        }
    }
}

/// `SendNotification` for a protocol with no matching open outbound
/// handler results in exactly one legacy send, with the message wrapped
/// and tagged by the supplied engine id.
pub proof fn lemma_send_notification_legacy_fallback(
    pre: NotifsHandlerView,
    post: NotifsHandlerView,
    acts: Seq<Action>,
    proto_name: Seq<u8>,
    engine_id: Seq<u8>,
    message: Seq<u8>,
)
    requires
        pre.out_open.len() == pre.out_protocols.len(),
        send_notification_rel(pre, post, acts, proto_name, engine_id, message),
        forall|i: int|
            0 <= i < pre.out_protocols.len() ==> !(pre.out_open[i] && #[trigger] pre.out_protocols[i]
                == proto_name),
    ensures
        acts.len() == 1,
        acts[0] matches Action::Legacy { command: LegacyCommand::SendCustomMessage { message: m } }
            && m@ == legacy_message_bytes(engine_id, message),
        post == pre,
{
    lemma_first_open_match(pre.out_protocols, pre.out_open, proto_name);
    if let Some(i) = first_open_match(pre.out_protocols, pre.out_open, proto_name) {
        assert(!(pre.out_open[i] && pre.out_protocols[i] == proto_name));
        assert(false);
    }
}

/// `SendNotification` for a protocol with a matching open outbound
/// handler hands the message to the first such handler and never triggers
/// a legacy send for that call.
pub proof fn lemma_send_notification_no_legacy(
    pre: NotifsHandlerView,
    post: NotifsHandlerView,
    acts: Seq<Action>,
    proto_name: Seq<u8>,
    engine_id: Seq<u8>,
    message: Seq<u8>,
)
    requires
        pre.out_open.len() == pre.out_protocols.len(),
        send_notification_rel(pre, post, acts, proto_name, engine_id, message),
        exists|i: int|
            0 <= i < pre.out_protocols.len() && pre.out_open[i] && #[trigger] pre.out_protocols[i]
                == proto_name,
    ensures
        acts.len() == 1,
        acts[0] matches Action::Outbound {
            index,
            command: OutboundCommand::Send { message: m },
        } && m@ == message && (index as int) < pre.out_protocols.len() && pre.out_open[index as int]
            && pre.out_protocols[index as int] == proto_name,
        forall|k: int| 0 <= k < acts.len() ==> !((#[trigger] acts[k]) matches Action::Legacy { .. }),
        post == pre,
{
    lemma_first_open_match(pre.out_protocols, pre.out_open, proto_name);
    if first_open_match(pre.out_protocols, pre.out_open, proto_name) is None {
        let i = choose|i: int|
            0 <= i < pre.out_protocols.len() && pre.out_open[i] && #[trigger] pre.out_protocols[i]
                == proto_name;
        assert(!(pre.out_open[i] && pre.out_protocols[i] == proto_name));
        assert(false);
    }
}

} // verus!
