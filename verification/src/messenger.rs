//! A session: one socket, one destination, and the messages still to go.
//!
//! A `Messenger` never touches a socket. It is driven: the driver calls
//! [`Messenger::step`] with the time and with what became of the last thing it
//! was asked to do, carries out the [`Action`] it gets back, and calls again.
//! What the driver is asked, and in which order, is fixed by
//! [`MessengerView::step`].

use vstd::prelude::*;
use crate::address::{IpAddress, SocketAddress};
use crate::duty_cycle::DutyCycleMessage;
use crate::error::ScpiError;
use crate::framing::{frame_message, framed};
use crate::networking::{NetworkMode, NetworkSender};

verus! {

/// What became of the action that the driver was last asked to carry out.
#[derive(Clone, Copy, Debug, PartialEq, Eq, Structural)]
pub enum Event {
    /// Nothing to report: no socket call was made since the last step.
    Idle,
    /// The socket call returned without an error.
    Succeeded,
    /// The socket call returned an error.
    Failed,
}

/// How often the messages of a request are gone through.
#[derive(Clone, Copy, Debug, PartialEq, Eq, Structural)]
pub enum Repetition {
    Count(usize),
    Infinite,
}

/// What the driver is to do next. Each socket action is one socket call.
#[derive(Debug, PartialEq, Eq)]
pub enum Action {
    /// Bind a UDP socket to `local`.
    BindUdp { local: SocketAddress },
    /// Open a TCP connection to `remote`.
    ConnectTcp { remote: SocketAddress },
    /// Join the multicast group `group` on the interface `interface`; both
    /// are IPv4 addresses.
    JoinMulticast { group: IpAddress, interface: IpAddress },
    /// Send `frame` as one datagram to `destination`.
    SendTo { frame: Vec<u8>, destination: SocketAddress },
    /// Write all of `frame` to the connected stream.
    WriteAll { frame: Vec<u8> },
    /// Nothing to do yet: read the clock and step again with `Event::Idle`.
    Spin,
    /// The request is over. `Ok` carries the length in bytes of the frame sent
    /// last, or 0 if none was sent.
    Finish(Result<usize, ScpiError>),
}

/// An `Action` with its frame as a sequence of bytes.
pub enum ActionView {
    BindUdp { local: SocketAddress },
    ConnectTcp { remote: SocketAddress },
    JoinMulticast { group: IpAddress, interface: IpAddress },
    SendTo { frame: Seq<u8>, destination: SocketAddress },
    WriteAll { frame: Seq<u8> },
    Spin,
    Finish(Result<usize, ScpiError>),
}

impl View for Action {
    type V = ActionView;

    open spec fn view(&self) -> ActionView {
        match self {
            Action::BindUdp { local } => ActionView::BindUdp { local: *local },
            Action::ConnectTcp { remote } => ActionView::ConnectTcp { remote: *remote },
            Action::JoinMulticast { group, interface } => ActionView::JoinMulticast {
                group: *group,
                interface: *interface,
            },
            Action::SendTo { frame, destination } => ActionView::SendTo {
                frame: frame@,
                destination: *destination,
            },
            Action::WriteAll { frame } => ActionView::WriteAll { frame: frame@ },
            Action::Spin => ActionView::Spin,
            Action::Finish(result) => ActionView::Finish(*result),
        }
    }
}

impl ActionView {
    /// Whether the action puts a frame on the wire.
    pub open spec fn is_transmit(self) -> bool {
        self is SendTo || self is WriteAll
    }

    /// The frame that the action puts on the wire; empty if it puts none.
    pub open spec fn frame(self) -> Seq<u8> {
        match self {
            ActionView::SendTo { frame, .. } => frame,
            ActionView::WriteAll { frame } => frame,
            _ => Seq::<u8>::empty(),
        }
    }
}

/// How far a session is from having its socket.
#[derive(Clone, Copy, Debug, PartialEq, Eq, Structural)]
pub enum Stage {
    /// Nothing was asked of the driver yet.
    Closed,
    /// The driver was asked to bind.
    Binding,
    /// The driver was asked to connect.
    Connecting,
    /// The driver was asked to join the multicast group.
    Joining,
    /// The socket is there.
    Ready,
    /// The socket could not be had, and never will.
    Broken(ScpiError),
}

/// Where a request stands.
#[derive(Clone, Copy, Debug, PartialEq, Eq, Structural)]
pub enum Phase {
    /// No frame is under way.
    Armed,
    /// The driver was asked to transmit the frame of the current slot.
    InFlight,
    /// That frame is out; its pause has not passed yet.
    Holding,
    /// A transmission failed, which ended the request.
    Aborted(ScpiError),
}

/// One message of a request, with the pause that follows it.
pub struct Slot {
    message: String,
    hold: u64,
}

/// What a `Slot` holds.
pub struct SlotView {
    pub message: Seq<char>,
    /// Microseconds, counted from the moment the transmission begins.
    pub hold: u64,
}

impl View for Slot {
    type V = SlotView;

    closed spec fn view(&self) -> SlotView {
        SlotView { message: self.message@, hold: self.hold }
    }
}

/// A request: the messages to send, in order, and how often to go through them.
pub struct Request {
    pub slots: Seq<SlotView>,
    pub passes: Repetition,
}

impl Request {
    /// Nothing to send.
    pub open spec fn nothing() -> Request {
        Request { slots: Seq::empty(), passes: Repetition::Count(0) }
    }

    /// One message, once.
    pub open spec fn once(message: Seq<char>) -> Request {
        Request { slots: seq![SlotView { message, hold: 0 }], passes: Repetition::Count(1) }
    }

    /// Each message once, in order.
    pub open spec fn list(messages: Seq<Seq<char>>) -> Request {
        Request {
            slots: Seq::new(messages.len(), |i: int| SlotView { message: messages[i], hold: 0 }),
            passes: Repetition::Count(1),
        }
    }

    /// One message, as often as `repetitions` says.
    pub open spec fn repeated(message: Seq<char>, repetitions: Repetition) -> Request {
        Request { slots: seq![SlotView { message, hold: 0 }], passes: repetitions }
    }

    /// Two messages in turn, without end, each with its pause.
    pub open spec fn duty_cycled(
        first: Seq<char>,
        second: Seq<char>,
        first_period: u64,
        second_period: u64,
    ) -> Request {
        Request {
            slots: seq![
                SlotView { message: first, hold: first_period },
                SlotView { message: second, hold: second_period },
            ],
            passes: Repetition::Infinite,
        }
    }
}

/// The microseconds from `since` to `now`; zero if the clock went backwards.
pub open spec fn elapsed(since: u64, now: u64) -> u64 {
    if now >= since {
        (now - since) as u64
    } else {
        0
    }
}

/// The address that every session's own socket is bound to: any interface.
pub open spec fn wildcard() -> IpAddress {
    IpAddress::V4(0, 0, 0, 0)
}

/// A session, seen as plain values.
pub struct MessengerView {
    /// The port of the session's own socket.
    pub local_port: u16,
    /// Where every message of the session goes.
    pub destination: SocketAddress,
    /// The kind of socket.
    pub transport: NetworkSender,
    /// Whether the socket is to join the destination as a multicast group.
    pub multicast: bool,
    pub stage: Stage,
    /// The request at hand.
    pub request: Request,
    /// The slot whose message is next, under way, or followed by its pause.
    pub cursor: usize,
    /// How many times all the slots were gone through; counted only as far
    /// as the request's `Count` says.
    pub pass: usize,
    pub phase: Phase,
    /// The time handed to the step that asked for the last transmission.
    pub started: u64,
    /// The length of the frame that the driver was last asked to transmit.
    pub in_flight: usize,
    /// The length of the frame that was last transmitted, or 0.
    pub last: usize,
}

impl MessengerView {
    /// A session on which nothing has happened yet. `mode` must have a
    /// transport.
    pub open spec fn fresh(local_port: u16, destination: SocketAddress, mode: NetworkMode) -> Self {
        MessengerView {
            local_port,
            destination,
            transport: mode.transport().unwrap_or(NetworkSender::Udp),
            multicast: mode is UdpMulticast,
            stage: Stage::Closed,
            request: Request::nothing(),
            cursor: 0,
            pass: 0,
            phase: Phase::Armed,
            started: 0,
            in_flight: 0,
            last: 0,
        }
    }

    /// The session with a new request in place of the one at hand. The socket
    /// stays as it is.
    pub open spec fn with_request(self, request: Request) -> Self {
        MessengerView {
            request,
            cursor: 0,
            pass: 0,
            phase: Phase::Armed,
            in_flight: 0,
            last: 0,
            ..self
        }
    }

    /// The address of the session's own socket.
    pub open spec fn local(self) -> SocketAddress {
        SocketAddress { ip: wildcard(), port: self.local_port }
    }

    /// Whether a message is still to be sent.
    pub open spec fn pending(self) -> bool {
        &&& self.cursor < self.request.slots.len()
        &&& match self.request.passes {
            Repetition::Count(n) => self.pass < n,
            Repetition::Infinite => true,
        }
    }

    /// The frame of the current slot.
    pub open spec fn frame(self) -> Seq<u8> {
        framed(self.request.slots[self.cursor as int].message)
    }

    /// The pause that follows the current slot's message.
    pub open spec fn hold(self) -> u64 {
        if self.cursor < self.request.slots.len() {
            self.request.slots[self.cursor as int].hold
        } else {
            0
        }
    }

    /// The socket call that transmits the current slot's frame: a datagram to
    /// the destination over UDP, a write to the stream over TCP.
    pub open spec fn transmit(self) -> ActionView {
        match self.transport {
            NetworkSender::Udp => ActionView::SendTo {
                frame: self.frame(),
                destination: self.destination,
            },
            NetworkSender::Tcp => ActionView::WriteAll { frame: self.frame() },
        }
    }

    /// The session moved on to the next slot; after the last slot, to the
    /// first slot of the next pass.
    pub open spec fn advanced(self) -> Self {
        if self.cursor + 1 < self.request.slots.len() {
            MessengerView { cursor: (self.cursor + 1) as usize, ..self }
        } else {
            MessengerView {
                cursor: 0,
                pass: match self.request.passes {
                    Repetition::Count(n) => if self.pass < n {
                        (self.pass + 1) as usize
                    } else {
                        self.pass
                    },
                    Repetition::Infinite => self.pass,
                },
                ..self
            }
        }
    }

    /// With no frame under way: ask for the next one, or finish.
    pub open spec fn launch(self, now: u64) -> (Self, ActionView) {
        if self.pending() {
            (
                MessengerView {
                    phase: Phase::InFlight,
                    started: now,
                    in_flight: self.frame().len() as usize,
                    ..self
                },
                self.transmit(),
            )
        } else {
            (MessengerView { phase: Phase::Armed, ..self }, ActionView::Finish(Ok(self.last)))
        }
    }

    /// With a frame out: move on once its pause has passed, else wait.
    pub open spec fn settle(self, now: u64) -> (Self, ActionView) {
        if elapsed(self.started, now) >= self.hold() {
            self.advanced().launch(now)
        } else {
            (MessengerView { phase: Phase::Holding, ..self }, ActionView::Spin)
        }
    }

    /// One step of a session that has its socket.
    pub open spec fn send_step(self, now: u64, event: Event) -> (Self, ActionView) {
        match self.phase {
            Phase::Armed => self.launch(now),
            Phase::InFlight => match event {
                Event::Succeeded => MessengerView { last: self.in_flight, ..self }.settle(now),
                Event::Failed => {
                    let error = ScpiError::Io { message: self.cursor };
                    (
                        MessengerView { phase: Phase::Aborted(error), ..self },
                        ActionView::Finish(Err(error)),
                    )
                },
                Event::Idle => (self, ActionView::Spin),
            },
            Phase::Holding => self.settle(now),
            Phase::Aborted(error) => (self, ActionView::Finish(Err(error))),
        }
    }

    /// The session gave up on its socket.
    pub open spec fn broken(self, error: ScpiError) -> (Self, ActionView) {
        (MessengerView { stage: Stage::Broken(error), ..self }, ActionView::Finish(Err(error)))
    }

    /// The session got its socket and turns to its request.
    pub open spec fn ready(self, now: u64) -> (Self, ActionView) {
        MessengerView { stage: Stage::Ready, ..self }.send_step(now, Event::Idle)
    }

    /// One step of a session: from its state, the time and the last outcome
    /// to its next state and what the driver is to do.
    ///
    /// A UDP session binds its socket to the wildcard address; a multicast
    /// session then joins the destination as a group, which only an IPv4
    /// destination allows. A TCP session connects to the destination. Any
    /// failure on the way is final. With its socket, the session goes
    /// through its request.
    pub open spec fn step(self, now: u64, event: Event) -> (Self, ActionView) {
        match self.stage {
            Stage::Closed => match self.transport {
                NetworkSender::Udp => (
                    MessengerView { stage: Stage::Binding, ..self },
                    ActionView::BindUdp { local: self.local() },
                ),
                NetworkSender::Tcp => (
                    MessengerView { stage: Stage::Connecting, ..self },
                    ActionView::ConnectTcp { remote: self.destination },
                ),
            },
            Stage::Binding => match event {
                Event::Idle => (self, ActionView::Spin),
                Event::Failed => self.broken(ScpiError::Bind),
                Event::Succeeded => if !self.multicast {
                    self.ready(now)
                } else {
                    match self.destination.ip {
                        IpAddress::V4(a, b, c, d) => (
                            MessengerView { stage: Stage::Joining, ..self },
                            ActionView::JoinMulticast {
                                group: IpAddress::V4(a, b, c, d),
                                interface: wildcard(),
                            },
                        ),
                        IpAddress::V6(..) => self.broken(ScpiError::UnsupportedAddressFamily),
                    }
                },
            },
            Stage::Connecting => match event {
                Event::Idle => (self, ActionView::Spin),
                Event::Failed => self.broken(ScpiError::Connect),
                Event::Succeeded => self.ready(now),
            },
            Stage::Joining => match event {
                Event::Idle => (self, ActionView::Spin),
                Event::Failed => self.broken(ScpiError::MulticastJoin),
                Event::Succeeded => self.ready(now),
            },
            Stage::Ready => self.send_step(now, event),
            Stage::Broken(error) => (self, ActionView::Finish(Err(error))),
        }
    }
}

/// A session: a destination, the kind of socket that leads there, and the
/// request at hand. Destination and kind never change.
pub struct Messenger {
    local_port: u16,
    destination_address: SocketAddress,
    sending_socket: NetworkSender,
    multicast: bool,
    stage: Stage,
    slots: Vec<Slot>,
    passes: Repetition,
    cursor: usize,
    pass: usize,
    phase: Phase,
    started: u64,
    in_flight: usize,
    last: usize,
}

/// The slots as plain values.
pub closed spec fn slots_view(slots: Seq<Slot>) -> Seq<SlotView> {
    Seq::new(slots.len(), |i: int| slots[i]@)
}

impl View for Messenger {
    type V = MessengerView;

    closed spec fn view(&self) -> MessengerView {
        MessengerView {
            local_port: self.local_port,
            destination: self.destination_address,
            transport: self.sending_socket,
            multicast: self.multicast,
            stage: self.stage,
            request: Request { slots: slots_view(self.slots@), passes: self.passes },
            cursor: self.cursor,
            pass: self.pass,
            phase: self.phase,
            started: self.started,
            in_flight: self.in_flight,
            last: self.last,
        }
    }
}

impl Messenger {
    /// Prepares a session from `local_port` on any interface to
    /// `remote_client` at `remote_port`. No socket exists yet: the first step
    /// asks for it. TCP multicast is refused here, whatever the addresses;
    /// every other mode yields a session.
    pub fn new(
        local_port: u16,
        remote_port: u16,
        remote_client: &IpAddress,
        mode: &NetworkMode,
    ) -> (result: Result<Messenger, ScpiError>)
        ensures
            *mode is TcpMulticast ==> result is Err && result->Err_0 == ScpiError::UnsupportedMode,
            !(*mode is TcpMulticast) ==> result is Ok && result->Ok_0@ == MessengerView::fresh(
                local_port,
                SocketAddress { ip: *remote_client, port: remote_port },
                *mode,
            ),
    {
        let sending_socket: NetworkSender = match mode.sender() {
            Some(kind) => kind,
            None => {
                return Err(ScpiError::UnsupportedMode);
            },
        };
        let multicast: bool = match mode {
            NetworkMode::UdpMulticast => true,
            _ => false,
        };
        let messenger = Messenger {
            local_port,
            destination_address: SocketAddress::new(*remote_client, remote_port),
            sending_socket,
            multicast,
            stage: Stage::Closed,
            slots: Vec::new(),
            passes: Repetition::Count(0),
            cursor: 0,
            pass: 0,
            phase: Phase::Armed,
            started: 0,
            in_flight: 0,
            last: 0,
        };
        assert(slots_view(messenger.slots@) =~= Seq::<SlotView>::empty());
        Ok(messenger)
    }

    /// Where the session's messages go.
    pub fn destination_address(&self) -> (address: SocketAddress)
        ensures
            address == self@.destination,
    {
        self.destination_address
    }

    /// The kind of socket the session writes to.
    pub fn sending_socket(&self) -> (kind: NetworkSender)
        ensures
            kind == self@.transport,
    {
        self.sending_socket
    }

    /// Whether the session has given up on its socket. A driver that holds a
    /// socket for such a session lets go of it.
    pub fn is_broken(&self) -> (broken: bool)
        ensures
            broken == (self@.stage is Broken),
    {
        match self.stage {
            Stage::Broken(_) => true,
            _ => false,
        }
    }

    /// Puts the slots in place as the new request.
    fn request(&mut self, slots: Vec<Slot>, passes: Repetition)
        ensures
            final(self)@ == old(self)@.with_request(
                Request { slots: slots_view(slots@), passes },
            ),
    {
        self.slots = slots;
        self.passes = passes;
        self.cursor = 0;
        self.pass = 0;
        self.phase = Phase::Armed;
        self.in_flight = 0;
        self.last = 0;
    }

    /// Makes `message` the session's request: it is sent once.
    pub fn send_message(&mut self, message: &str)
        ensures
            final(self)@ == old(self)@.with_request(Request::once(message@)),
    {
        let mut slots: Vec<Slot> = Vec::new();
        slots.push(Slot { message: message.to_owned(), hold: 0 });
        assert(slots_view(slots@) =~= Request::once(message@).slots);
        self.request(slots, Repetition::Count(1));
    }

    /// Makes `message`, sent as often as `repetitions` says, the session's
    /// request.
    pub fn send_repeated_message(&mut self, message: &str, repetitions: Repetition)
        ensures
            final(self)@ == old(self)@.with_request(Request::repeated(message@, repetitions)),
    {
        let mut slots: Vec<Slot> = Vec::new();
        slots.push(Slot { message: message.to_owned(), hold: 0 });
        assert(slots_view(slots@) =~= Request::repeated(message@, repetitions).slots);
        self.request(slots, repetitions);
    }

    /// Makes the messages, each sent once and in order, the session's request.
    pub fn send_list_of_messages(&mut self, messages: &[&str])
        ensures
            final(self)@ == old(self)@.with_request(
                Request::list(Seq::new(messages@.len(), |i: int| messages@[i]@)),
            ),
    {
        let ghost texts = Seq::new(messages@.len(), |i: int| messages@[i]@);
        let mut slots: Vec<Slot> = Vec::new();
        let mut i: usize = 0;
        while i < messages.len()
            invariant
                i <= messages@.len(),
                slots@.len() == i,
                forall|k: int| 0 <= k < i ==> (#[trigger] slots@[k])@ == (SlotView {
                    message: messages@[k]@,
                    hold: 0,
                }),
            decreases messages@.len() - i,
        {
            slots.push(Slot { message: messages[i].to_owned(), hold: 0 });
            i = i + 1;
        }
        assert(slots_view(slots@) =~= Request::list(texts).slots);
        self.request(slots, Repetition::Count(1));
    }

    /// Makes the two messages, sent in turn without end, the session's
    /// request. Each message is followed by its own pause.
    pub fn send_duty_cycled_message(&mut self, message: &DutyCycleMessage)
        ensures
            final(self)@ == old(self)@.with_request(
                Request::duty_cycled(
                    message@.first_message,
                    message@.second_message,
                    message@.first_period,
                    message@.second_period,
                ),
            ),
    {
        let (first_time, second_time) = message.get_times();
        let (first_message, second_message) = message.get_messages();
        let mut slots: Vec<Slot> = Vec::new();
        slots.push(Slot { message: first_message.to_owned(), hold: first_time });
        slots.push(Slot { message: second_message.to_owned(), hold: second_time });
        assert(slots_view(slots@) =~= Request::duty_cycled(
            message@.first_message,
            message@.second_message,
            message@.first_period,
            message@.second_period,
        ).slots);
        self.request(slots, Repetition::Infinite);
    }

    /// Whether a message is still to be sent.
    fn pending(&self) -> (pending: bool)
        ensures
            pending == self@.pending(),
    {
        self.cursor < self.slots.len() && match self.passes {
            Repetition::Count(n) => self.pass < n,
            Repetition::Infinite => true,
        }
    }

    /// Moves on to the next slot.
    fn advance(&mut self)
        ensures
            final(self)@ == old(self)@.advanced(),
    {
        if self.cursor < self.slots.len() && self.cursor + 1 < self.slots.len() {
            self.cursor = self.cursor + 1;
        } else {
            self.cursor = 0;
            match self.passes {
                Repetition::Count(n) => {
                    if self.pass < n {
                        self.pass = self.pass + 1;
                    }
                },
                Repetition::Infinite => {},
            }
        }
    }

    /// Asks for the next frame, or finishes.
    fn launch(&mut self, now: u64) -> (action: Action)
        ensures
            (final(self)@, action@) == old(self)@.launch(now),
    {
        if self.pending() {
            let frame: Vec<u8> = frame_message(self.slots[self.cursor].message.as_str());
            assert(self.slots@[self.cursor as int]@.message == self.slots@[self.cursor as int].message@);
            assert(frame@ == self@.frame());
            self.phase = Phase::InFlight;
            self.started = now;
            self.in_flight = frame.len();
            match self.sending_socket {
                NetworkSender::Udp => Action::SendTo {
                    frame,
                    destination: self.destination_address,
                },
                NetworkSender::Tcp => Action::WriteAll { frame },
            }
        } else {
            self.phase = Phase::Armed;
            Action::Finish(Ok(self.last))
        }
    }

    /// Moves on once the pause has passed, else waits.
    fn settle(&mut self, now: u64) -> (action: Action)
        ensures
            (final(self)@, action@) == old(self)@.settle(now),
    {
        let hold: u64 = if self.cursor < self.slots.len() {
            self.slots[self.cursor].hold
        } else {
            0
        };
        let waited: u64 = if now >= self.started {
            now - self.started
        } else {
            0
        };
        if waited >= hold {
            self.advance();
            self.launch(now)
        } else {
            self.phase = Phase::Holding;
            Action::Spin
        }
    }

    /// One step of a session that has its socket.
    fn send_step(&mut self, now: u64, event: Event) -> (action: Action)
        ensures
            (final(self)@, action@) == old(self)@.send_step(now, event),
    {
        match self.phase {
            Phase::Armed => self.launch(now),
            Phase::InFlight => match event {
                Event::Succeeded => {
                    self.last = self.in_flight;
                    self.settle(now)
                },
                Event::Failed => {
                    let error = ScpiError::Io { message: self.cursor };
                    self.phase = Phase::Aborted(error);
                    Action::Finish(Err(error))
                },
                Event::Idle => Action::Spin,
            },
            Phase::Holding => self.settle(now),
            Phase::Aborted(error) => Action::Finish(Err(error)),
        }
    }

    /// Gives up on the socket.
    fn broken(&mut self, error: ScpiError) -> (action: Action)
        ensures
            (final(self)@, action@) == old(self)@.broken(error),
    {
        self.stage = Stage::Broken(error);
        Action::Finish(Err(error))
    }

    /// Turns to the request, now that the socket is there.
    fn ready(&mut self, now: u64) -> (action: Action)
        ensures
            (final(self)@, action@) == old(self)@.ready(now),
    {
        self.stage = Stage::Ready;
        self.send_step(now, Event::Idle)
    }

    /// Takes one step. `now` is a reading, in microseconds, of a clock that
    /// does not go backwards; `event` says what became of the action that
    /// the previous step returned.
    pub fn step(&mut self, now: u64, event: Event) -> (action: Action)
        ensures
            (final(self)@, action@) == old(self)@.step(now, event),
    {
        match self.stage {
            Stage::Closed => match self.sending_socket {
                NetworkSender::Udp => {
                    self.stage = Stage::Binding;
                    Action::BindUdp {
                        local: SocketAddress::new(IpAddress::V4(0, 0, 0, 0), self.local_port),
                    }
                },
                NetworkSender::Tcp => {
                    self.stage = Stage::Connecting;
                    Action::ConnectTcp { remote: self.destination_address }
                },
            },
            Stage::Binding => match event {
                Event::Idle => Action::Spin,
                Event::Failed => self.broken(ScpiError::Bind),
                Event::Succeeded => {
                    if !self.multicast {
                        self.ready(now)
                    } else {
                        match self.destination_address.ip {
                            IpAddress::V4(a, b, c, d) => {
                                self.stage = Stage::Joining;
                                Action::JoinMulticast {
                                    group: IpAddress::V4(a, b, c, d),
                                    interface: IpAddress::V4(0, 0, 0, 0),
                                }
                            },
                            IpAddress::V6(..) => self.broken(ScpiError::UnsupportedAddressFamily),
                        }
                    }
                },
            },
            Stage::Connecting => match event {
                Event::Idle => Action::Spin,
                Event::Failed => self.broken(ScpiError::Connect),
                Event::Succeeded => self.ready(now),
            },
            Stage::Joining => match event {
                Event::Idle => Action::Spin,
                Event::Failed => self.broken(ScpiError::MulticastJoin),
                Event::Succeeded => self.ready(now),
            },
            Stage::Ready => self.send_step(now, event),
            Stage::Broken(error) => Action::Finish(Err(error)),
        }
    }
}

} // verus!
