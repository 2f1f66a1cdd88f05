//! What a session does over many steps.
//!
//! A run is a session together with the inputs of a number of steps: for each
//! step the clock reading and the outcome reported to it. The laws below say
//! what the driver is asked to do along a run.

use vstd::prelude::*;
use crate::error::ScpiError;
use crate::framing::framed;
use crate::address::IpAddress;
use crate::messenger::{
    ActionView, Event, MessengerView, Phase, Repetition, Request, Stage, elapsed, wildcard,
};
use crate::networking::NetworkSender;

verus! {

/// The input of one step: the clock reading and the outcome reported.
pub struct Input {
    pub now: u64,
    pub event: Event,
}

/// The session after the steps that `inputs` describe.
pub open spec fn state_after(m: MessengerView, inputs: Seq<Input>) -> MessengerView
    decreases inputs.len(),
{
    if inputs.len() == 0 {
        m
    } else {
        state_after(m, inputs.drop_last()).step(inputs.last().now, inputs.last().event).0
    }
}

/// What the driver is asked to do by step `i` of the run.
pub open spec fn action_at(m: MessengerView, inputs: Seq<Input>, i: int) -> ActionView {
    state_after(m, inputs.take(i)).step(inputs[i].now, inputs[i].event).1
}

/// The session with its socket in hand.
pub open spec fn opened(m: MessengerView) -> MessengerView {
    MessengerView { stage: Stage::Ready, ..m }
}

/// A session that has its socket and has not begun its request.
pub open spec fn at_start(m: MessengerView) -> bool {
    &&& m.stage == Stage::Ready
    &&& m.phase == Phase::Armed
    &&& m.cursor == 0
    &&& m.pass == 0
}

/// A session that will never again ask for a transmission: it has no socket
/// and cannot get one, or its request was aborted, or nothing is left to send.
pub open spec fn is_over(m: MessengerView) -> bool {
    ||| m.stage is Broken
    ||| m.stage == Stage::Ready && m.phase is Aborted
    ||| m.phase == Phase::Armed && !m.pending()
}

/// The state after `i + 1` steps is one step from the state after `i`.
pub proof fn lemma_state_unfold(m: MessengerView, inputs: Seq<Input>, i: int)
    requires
        0 <= i < inputs.len(),
    ensures
        state_after(m, inputs.take(i + 1)) == state_after(m, inputs.take(i)).step(
            inputs[i].now,
            inputs[i].event,
        ).0,
{
    let front = inputs.take(i + 1);
    assert(front.drop_last() =~= inputs.take(i));
    assert(front.last() == inputs[i]);
}

/// A session that is over stays over, and is asked for no transmission. With
/// its socket it answers every step alike: with the error that aborted the
/// request, or else with the length of the frame sent last.
pub proof fn lemma_over_is_final(m: MessengerView, now: u64, event: Event)
    requires
        is_over(m),
    ensures
        is_over(m.step(now, event).0),
        !m.step(now, event).1.is_transmit(),
        m.step(now, event).0.last == m.last,
        m.stage matches Stage::Broken(error) ==> m.step(now, event) == (
            m,
            ActionView::Finish(Err(error)),
        ),
        m.stage == Stage::Ready ==> m.step(now, event) == (
            m,
            match m.phase {
                Phase::Aborted(error) => ActionView::Finish(Err(error)),
                _ => ActionView::Finish(Ok(m.last)),
            },
        ),
{
}

/// Along a run that starts over, no step asks for a transmission.
pub proof fn lemma_over_sends_nothing(m: MessengerView, inputs: Seq<Input>, i: int)
    requires
        is_over(m),
        0 <= i < inputs.len(),
    ensures
        is_over(state_after(m, inputs.take(i))),
        state_after(m, inputs.take(i)).last == m.last,
        !action_at(m, inputs, i).is_transmit(),
    decreases i,
{
    if i > 0 {
        lemma_over_sends_nothing(m, inputs, i - 1);
        lemma_state_unfold(m, inputs, i - 1);
        lemma_over_is_final(
            state_after(m, inputs.take(i - 1)),
            inputs[i - 1].now,
            inputs[i - 1].event,
        );
    } else {
        assert(inputs.take(0) =~= Seq::<Input>::empty());
    }
    lemma_over_is_final(state_after(m, inputs.take(i)), inputs[i].now, inputs[i].event);
}

/// The socket call that puts `message` on the wire of session `m`.
pub open spec fn wire(m: MessengerView, message: Seq<char>) -> ActionView {
    match m.transport {
        NetworkSender::Udp => ActionView::SendTo {
            frame: framed(message),
            destination: m.destination,
        },
        NetworkSender::Tcp => ActionView::WriteAll { frame: framed(message) },
    }
}

/// The length of the frame of `message`, as the session counts it.
pub open spec fn frame_len(message: Seq<char>) -> usize {
    framed(message).len() as usize
}

/// Whether the steps `from` to `to` of the run, both included, report success.
pub open spec fn succeed_between(inputs: Seq<Input>, from: int, to: int) -> bool {
    forall|i: int| from <= i <= to && 0 <= i < inputs.len() ==> (#[trigger] inputs[i]).event
        == Event::Succeeded
}

/// A session that has nothing left to send and nothing under way.
pub open spec fn is_idle(m: MessengerView) -> bool {
    m.phase == Phase::Armed && !m.pending()
}

/// An idle session stays idle along any run and keeps the length it holds.
proof fn lemma_idle_stays(m: MessengerView, inputs: Seq<Input>, i: int)
    requires
        is_idle(m),
        0 <= i <= inputs.len(),
    ensures
        is_idle(state_after(m, inputs.take(i))),
        state_after(m, inputs.take(i)).last == m.last,
    decreases i,
{
    if i > 0 {
        lemma_idle_stays(m, inputs, i - 1);
        lemma_state_unfold(m, inputs, i - 1);
    } else {
        assert(inputs.take(0) =~= Seq::<Input>::empty());
    }
}

/// Nothing to send. A session whose request holds no message, or goes
/// through its messages zero times, never asks for a transmission, whatever
/// is reported to it; once it has its socket it answers each step with
/// `Ok` of the length it started with, which for a new request is 0.
pub proof fn lemma_nothing_to_send(m: MessengerView, inputs: Seq<Input>, i: int)
    requires
        m.phase == Phase::Armed,
        m.request.slots.len() == 0 || m.request.passes == Repetition::Count(0),
        0 <= i < inputs.len(),
    ensures
        !action_at(m, inputs, i).is_transmit(),
        state_after(m, inputs.take(i)).stage == Stage::Ready ==> action_at(m, inputs, i)
            == ActionView::Finish(Ok(m.last)),
        action_at(m, inputs, i) matches ActionView::Finish(Ok(n)) ==> n == m.last,
{
    lemma_idle_stays(m, inputs, i);
}

/// A list is sent in order. While every transmission succeeds, step `k` of a
/// session that starts on a list asks for the frame of message `k`; the step
/// after the last message finishes with the length of the last frame.
pub proof fn lemma_list_in_order(
    m: MessengerView,
    messages: Seq<Seq<char>>,
    inputs: Seq<Input>,
    k: int,
)
    requires
        at_start(m),
        m.request == Request::list(messages),
        messages.len() <= usize::MAX,
        0 <= k < inputs.len(),
        k <= messages.len(),
        succeed_between(inputs, 1, k),
    ensures
        k < messages.len() ==> action_at(m, inputs, k) == wire(m, messages[k]),
        k < messages.len() ==> state_after(m, inputs.take(k + 1)) == (MessengerView {
            phase: Phase::InFlight,
            cursor: k as usize,
            started: inputs[k].now,
            in_flight: frame_len(messages[k]),
            last: if k == 0 {
                m.last
            } else {
                frame_len(messages[k - 1])
            },
            ..m
        }),
        k == messages.len() ==> action_at(m, inputs, k) == ActionView::Finish(
            Ok(
                if k == 0 {
                    m.last
                } else {
                    frame_len(messages[k - 1])
                },
            ),
        ),
    decreases k,
{
    lemma_state_unfold(m, inputs, k);
    if k == 0 {
        assert(inputs.take(0) =~= Seq::<Input>::empty());
    } else {
        lemma_list_in_order(m, messages, inputs, k - 1);
        assert(inputs[k].event == Event::Succeeded);
    }
}

/// A list fails fast. If the transmission of message `j` fails after all
/// before it succeeded, that step and every later one, whatever is reported
/// to it, is answered with the error that names message `j`: no later
/// message is ever put on the wire.
pub proof fn lemma_list_fails_fast(
    m: MessengerView,
    messages: Seq<Seq<char>>,
    inputs: Seq<Input>,
    j: int,
    i: int,
)
    requires
        at_start(m),
        m.request == Request::list(messages),
        messages.len() <= usize::MAX,
        0 <= j < messages.len(),
        succeed_between(inputs, 1, j),
        j + 1 < inputs.len(),
        inputs[j + 1].event == Event::Failed,
        j + 1 <= i < inputs.len(),
    ensures
        action_at(m, inputs, i) == ActionView::Finish(Err(ScpiError::Io { message: j as usize })),
        state_after(m, inputs.take(i + 1)).phase == Phase::Aborted(
            ScpiError::Io { message: j as usize },
        ),
        state_after(m, inputs.take(i + 1)).stage == Stage::Ready,
    decreases i,
{
    lemma_state_unfold(m, inputs, i);
    if i == j + 1 {
        lemma_list_in_order(m, messages, inputs, j);
    } else {
        lemma_list_fails_fast(m, messages, inputs, j, i - 1);
    }
}

/// A counted repetition sends exactly as often as it says. While every
/// transmission succeeds, each of the first `n` steps of a session that
/// starts on `n` repetitions asks for the frame of the message, and the step
/// after them finishes with the frame's length, or for `n == 0` with the
/// length the session started with.
pub proof fn lemma_repeated_count(
    m: MessengerView,
    message: Seq<char>,
    n: usize,
    inputs: Seq<Input>,
    k: int,
)
    requires
        at_start(m),
        m.request == Request::repeated(message, Repetition::Count(n)),
        0 <= k < inputs.len(),
        k <= n,
        succeed_between(inputs, 1, k),
    ensures
        k < n ==> action_at(m, inputs, k) == wire(m, message),
        k < n ==> state_after(m, inputs.take(k + 1)) == (MessengerView {
            phase: Phase::InFlight,
            pass: k as usize,
            started: inputs[k].now,
            in_flight: frame_len(message),
            last: if k == 0 {
                m.last
            } else {
                frame_len(message)
            },
            ..m
        }),
        k == n ==> action_at(m, inputs, k) == ActionView::Finish(
            Ok(
                if k == 0 {
                    m.last
                } else {
                    frame_len(message)
                },
            ),
        ),
    decreases k,
{
    lemma_state_unfold(m, inputs, k);
    if k == 0 {
        assert(inputs.take(0) =~= Seq::<Input>::empty());
    } else {
        lemma_repeated_count(m, message, n, inputs, k - 1);
        assert(inputs[k].event == Event::Succeeded);
    }
}

/// A session that has put the frame of a slot on the wire and has not moved
/// on from that slot since.
pub open spec fn is_waiting(m: MessengerView) -> bool {
    m.stage == Stage::Ready && (m.phase == Phase::InFlight || m.phase == Phase::Holding)
}

/// Whether two sessions stand at the same slot of the same request, with the
/// same moment of transmission.
pub open spec fn same_slot(a: MessengerView, b: MessengerView) -> bool {
    a.request == b.request && a.cursor == b.cursor && a.pass == b.pass && a.started == b.started
}

/// What asking for the next frame leaves behind.
proof fn lemma_launch_transmit(m: MessengerView, now: u64)
    requires
        m.launch(now).1.is_transmit(),
    ensures
        m.launch(now).0 == (MessengerView {
            phase: Phase::InFlight,
            started: now,
            in_flight: m.frame().len() as usize,
            ..m
        }),
        m.pending(),
        m.launch(now).1 == m.transmit(),
{
}

/// What moving on from a slot leaves behind, if it leads to a transmission.
proof fn lemma_settle_transmit(m: MessengerView, now: u64)
    requires
        m.settle(now).1.is_transmit(),
    ensures
        elapsed(m.started, now) >= m.hold(),
        m.settle(now) == m.advanced().launch(now),
{
}

/// What a step of a session with its socket leaves behind, if it asks for a
/// transmission.
proof fn lemma_send_step_transmit(m: MessengerView, now: u64, event: Event)
    requires
        m.send_step(now, event).1.is_transmit(),
    ensures
        ({
            let after = m.send_step(now, event).0;
            &&& after.stage == m.stage
            &&& after.phase == Phase::InFlight
            &&& after.started == now
            &&& after.request == m.request
            &&& after.pending()
            &&& m.send_step(now, event).1 == after.transmit()
            &&& m.phase == Phase::InFlight || m.phase == Phase::Holding ==> elapsed(
                m.started,
                now,
            ) >= m.hold() && after.cursor == m.advanced().cursor
        }),
{
    match m.phase {
        Phase::Armed => {
            lemma_launch_transmit(m, now);
        },
        Phase::InFlight => {
            let sent = MessengerView { last: m.in_flight, ..m };
            assert(event == Event::Succeeded);
            lemma_settle_transmit(sent, now);
            lemma_launch_transmit(sent.advanced(), now);
            assert(sent.hold() == m.hold());
            assert(sent.advanced().cursor == m.advanced().cursor);
        },
        Phase::Holding => {
            lemma_settle_transmit(m, now);
            lemma_launch_transmit(m.advanced(), now);
        },
        Phase::Aborted(_) => {},
    }
}

/// What a step that asks for a transmission leaves behind: the session waits
/// at the slot whose frame it asked for, and remembers the time of the step.
/// If the session was waiting before, the pause of the slot it waited at has
/// passed, and the slot it moved to is the next one.
pub proof fn lemma_transmit_step(m: MessengerView, now: u64, event: Event)
    requires
        m.step(now, event).1.is_transmit(),
    ensures
        is_waiting(m.step(now, event).0),
        m.step(now, event).0.phase == Phase::InFlight,
        m.step(now, event).0.started == now,
        m.step(now, event).0.request == m.request,
        m.step(now, event).0.pending(),
        m.step(now, event).1 == m.step(now, event).0.transmit(),
        is_waiting(m) ==> elapsed(m.started, now) >= m.hold() && m.step(now, event).0.cursor
            == m.advanced().cursor,
{
    let opened = MessengerView { stage: Stage::Ready, ..m };
    match m.stage {
        Stage::Ready => {
            lemma_send_step_transmit(m, now, event);
        },
        Stage::Closed => {},
        Stage::Broken(_) => {},
        _ => {
            assert(m.step(now, event) == opened.send_step(now, Event::Idle));
            lemma_send_step_transmit(opened, now, Event::Idle);
        },
    }
}

/// A waiting session that is not asked for a transmission keeps waiting at
/// its slot, or is over.
proof fn lemma_waiting_step(m: MessengerView, now: u64, event: Event)
    requires
        is_waiting(m),
        !m.step(now, event).1.is_transmit(),
    ensures
        is_over(m.step(now, event).0) || (is_waiting(m.step(now, event).0) && same_slot(
            m.step(now, event).0,
            m,
        )),
{
    let sent = if m.phase == Phase::InFlight {
        MessengerView { last: m.in_flight, ..m }
    } else {
        m
    };
    if m.phase == Phase::Holding || event == Event::Succeeded {
        assert(m.step(now, event) == sent.settle(now));
        if elapsed(sent.started, now) >= sent.hold() {
            let next = sent.advanced();
            assert(!next.pending());
            assert(is_over(next.launch(now).0));
        }
    }
}

/// From a transmission at step `i` up to step `k`, with no transmission in
/// between, the session waits at the slot of step `i` or is over.
proof fn lemma_waits_between(m: MessengerView, inputs: Seq<Input>, i: int, k: int)
    requires
        0 <= i < k <= inputs.len(),
        action_at(m, inputs, i).is_transmit(),
        forall|l: int| i < l < k ==> !(#[trigger] action_at(m, inputs, l)).is_transmit(),
    ensures
        is_over(state_after(m, inputs.take(k))) || (is_waiting(state_after(m, inputs.take(k)))
            && same_slot(state_after(m, inputs.take(k)), state_after(m, inputs.take(i + 1)))),
    decreases k - i,
{
    if k == i + 1 {
        lemma_state_unfold(m, inputs, i);
        lemma_transmit_step(state_after(m, inputs.take(i)), inputs[i].now, inputs[i].event);
    } else {
        lemma_waits_between(m, inputs, i, k - 1);
        lemma_state_unfold(m, inputs, k - 1);
        let before = state_after(m, inputs.take(k - 1));
        assert(!action_at(m, inputs, k - 1).is_transmit());
        if is_over(before) {
            lemma_over_is_final(before, inputs[k - 1].now, inputs[k - 1].event);
        } else {
            lemma_waiting_step(before, inputs[k - 1].now, inputs[k - 1].event);
        }
    }
}

/// Spacing. Between two transmissions of a run with none in between, at
/// least the pause of the first one's slot has passed on the clock, counted
/// from the reading handed to the step that asked for the first one; and the
/// second one's slot is the slot after the first one's. This holds of every
/// run: no outcome reported to the session can hurry it.
pub proof fn lemma_spacing(m: MessengerView, inputs: Seq<Input>, i: int, j: int)
    requires
        0 <= i < j < inputs.len(),
        action_at(m, inputs, i).is_transmit(),
        action_at(m, inputs, j).is_transmit(),
        forall|l: int| i < l < j ==> !(#[trigger] action_at(m, inputs, l)).is_transmit(),
    ensures
        ({
            let first = state_after(m, inputs.take(i + 1));
            let second = state_after(m, inputs.take(j + 1));
            &&& action_at(m, inputs, i) == first.transmit()
            &&& action_at(m, inputs, j) == second.transmit()
            &&& first.started == inputs[i].now
            &&& elapsed(inputs[i].now, inputs[j].now) >= first.hold()
            &&& second.cursor == first.advanced().cursor
            &&& second.request == first.request
        }),
{
    lemma_state_unfold(m, inputs, i);
    lemma_state_unfold(m, inputs, j);
    lemma_transmit_step(state_after(m, inputs.take(i)), inputs[i].now, inputs[i].event);
    lemma_waits_between(m, inputs, i, j);
    let before = state_after(m, inputs.take(j));
    if is_over(before) {
        lemma_over_is_final(before, inputs[j].now, inputs[j].event);
    }
    lemma_transmit_step(before, inputs[j].now, inputs[j].event);
}

/// Whether a session goes through its messages without end and has one to
/// go on with.
pub open spec fn is_unbounded(m: MessengerView) -> bool {
    m.request.passes == Repetition::Infinite && m.cursor < m.request.slots.len()
}

/// One step of a session that repeats without end.
proof fn lemma_unbounded_step(m: MessengerView, now: u64, event: Event)
    requires
        is_unbounded(m),
    ensures
        is_unbounded(m.step(now, event).0),
        !(m.step(now, event).1 matches ActionView::Finish(Ok(_))),
{
    let at = opened(m);
    let sent = MessengerView { last: at.in_flight, ..at };
    assert(at.pending() && at.advanced().pending() && sent.advanced().pending());
    assert(is_unbounded(at.settle(now).0) && !(at.settle(now).1 matches ActionView::Finish(Ok(_))));
    assert(is_unbounded(sent.settle(now).0) && !(sent.settle(now).1 matches ActionView::Finish(
        Ok(_),
    )));
}

/// An unbounded request never completes. A session that repeats without end
/// answers no step with `Ok`: the only way out is an error.
pub proof fn lemma_unbounded_never_completes(m: MessengerView, inputs: Seq<Input>, i: int)
    requires
        is_unbounded(m),
        0 <= i < inputs.len(),
    ensures
        is_unbounded(state_after(m, inputs.take(i))),
        !(action_at(m, inputs, i) matches ActionView::Finish(Ok(_))),
    decreases i,
{
    if i > 0 {
        lemma_unbounded_never_completes(m, inputs, i - 1);
        lemma_state_unfold(m, inputs, i - 1);
        lemma_unbounded_step(
            state_after(m, inputs.take(i - 1)),
            inputs[i - 1].now,
            inputs[i - 1].event,
        );
    } else {
        assert(inputs.take(0) =~= Seq::<Input>::empty());
    }
    lemma_unbounded_step(state_after(m, inputs.take(i)), inputs[i].now, inputs[i].event);
}

/// The number of socket calls that it takes to open the session's socket:
/// bind and join for multicast, else bind alone or connect alone.
pub open spec fn opening_steps(m: MessengerView) -> int {
    if m.transport == NetworkSender::Udp && m.multicast {
        2
    } else {
        1
    }
}

/// The step at which opening fails, and the error it fails with, if the run
/// holds such a step: a failed bind or connect, a multicast group that is no
/// IPv4 address (found once the socket is bound), or a failed join.
pub open spec fn opening_failure(m: MessengerView, inputs: Seq<Input>) -> Option<(int, ScpiError)> {
    if inputs.len() < 2 {
        None
    } else if inputs[1].event == Event::Failed {
        Some(
            (
                1,
                match m.transport {
                    NetworkSender::Udp => ScpiError::Bind,
                    NetworkSender::Tcp => ScpiError::Connect,
                },
            ),
        )
    } else if inputs[1].event == Event::Succeeded && opening_steps(m) == 2 {
        if m.destination.ip is V6 {
            Some((1, ScpiError::UnsupportedAddressFamily))
        } else if inputs.len() >= 3 && inputs[2].event == Event::Failed {
            Some((2, ScpiError::MulticastJoin))
        } else {
            None
        }
    } else {
        None
    }
}

/// How a session asks for its socket. The first step of a new session asks
/// to bind a UDP socket to the wildcard address and the session's own port,
/// or to connect to the destination over TCP. A multicast session whose bind
/// succeeded asks next to join the destination as a group.
pub proof fn lemma_opening_asks(m: MessengerView, inputs: Seq<Input>)
    requires
        m.stage == Stage::Closed,
        inputs.len() >= 1,
    ensures
        action_at(m, inputs, 0) == (match m.transport {
            NetworkSender::Udp => ActionView::BindUdp { local: m.local() },
            NetworkSender::Tcp => ActionView::ConnectTcp { remote: m.destination },
        }),
        opening_steps(m) == 2 && inputs.len() >= 2 && inputs[1].event == Event::Succeeded
            ==> (match m.destination.ip {
            IpAddress::V4(a, b, c, d) => action_at(m, inputs, 1) == ActionView::JoinMulticast {
                group: m.destination.ip,
                interface: wildcard(),
            },
            IpAddress::V6(..) => action_at(m, inputs, 1) == ActionView::Finish(
                Err(ScpiError::UnsupportedAddressFamily),
            ),
        }),
{
    assert(inputs.take(0) =~= Seq::<Input>::empty());
    if inputs.len() >= 2 {
        lemma_state_unfold(m, inputs, 0);
    }
}

/// A failed opening is final. From the step at which opening fails, every
/// step is answered with the error of that failure, whatever is reported:
/// no frame ever goes out.
pub proof fn lemma_opening_fails(
    m: MessengerView,
    inputs: Seq<Input>,
    at: int,
    error: ScpiError,
    i: int,
)
    requires
        m.stage == Stage::Closed,
        opening_failure(m, inputs) == Some((at, error)),
        at <= i < inputs.len(),
    ensures
        action_at(m, inputs, i) == ActionView::Finish(Err(error)),
        state_after(m, inputs.take(i + 1)).stage == Stage::Broken(error),
    decreases i,
{
    assert(inputs.take(0) =~= Seq::<Input>::empty());
    lemma_state_unfold(m, inputs, 0);
    lemma_state_unfold(m, inputs, 1);
    lemma_state_unfold(m, inputs, i);
    if i > at {
        lemma_opening_fails(m, inputs, at, error, i - 1);
    } else if at == 2 {
        lemma_state_unfold(m, inputs, 2);
    }
}

/// A successful opening leads to the request. If the socket calls of the
/// opening succeed, the steps after them are those of the session with its
/// socket in hand.
pub proof fn lemma_opening_succeeds(m: MessengerView, inputs: Seq<Input>, i: int)
    requires
        m.stage == Stage::Closed,
        m.phase == Phase::Armed,
        opening_steps(m) == 2 ==> m.destination.ip is V4,
        succeed_between(inputs, 1, opening_steps(m)),
        opening_steps(m) <= i < inputs.len(),
    ensures
        action_at(m, inputs, i) == action_at(
            opened(m),
            inputs.skip(opening_steps(m)),
            i - opening_steps(m),
        ),
        state_after(m, inputs.take(i + 1)) == state_after(
            opened(m),
            inputs.skip(opening_steps(m)).take(i + 1 - opening_steps(m)),
        ),
    decreases i,
{
    let d = opening_steps(m);
    let rest = inputs.skip(d);
    lemma_state_unfold(m, inputs, i);
    lemma_state_unfold(opened(m), rest, i - d);
    assert(rest[i - d] == inputs[i]);
    if i == d {
        assert(inputs.take(0) =~= Seq::<Input>::empty());
        assert(rest.take(0) =~= Seq::<Input>::empty());
        lemma_state_unfold(m, inputs, 0);
        assert(inputs[d].event == Event::Succeeded);
        if d == 2 {
            lemma_state_unfold(m, inputs, 1);
            assert(inputs[1].event == Event::Succeeded);
        }
    } else {
        lemma_opening_succeeds(m, inputs, i - 1);
    }
}

/// Whether two sessions have the same ports, destination, kind of socket
/// and request.
pub open spec fn same_session(a: MessengerView, b: MessengerView) -> bool {
    &&& a.local_port == b.local_port
    &&& a.destination == b.destination
    &&& a.transport == b.transport
    &&& a.multicast == b.multicast
    &&& a.request == b.request
}

/// One step changes neither where a session sends, nor through what, nor
/// what.
proof fn lemma_step_keeps_session(m: MessengerView, now: u64, event: Event)
    ensures
        same_session(m.step(now, event).0, m),
{
    let at = opened(m);
    let sent = MessengerView { last: at.in_flight, ..at };
    assert(same_session(at.settle(now).0, m));
    assert(same_session(sent.settle(now).0, m));
}

/// A session is fixed for life. Along any run the session's own port, its
/// destination, its kind of socket and its request stay what they were.
pub proof fn lemma_session_is_fixed(m: MessengerView, inputs: Seq<Input>, i: int)
    requires
        0 <= i <= inputs.len(),
    ensures
        same_session(state_after(m, inputs.take(i)), m),
    decreases i,
{
    if i > 0 {
        lemma_session_is_fixed(m, inputs, i - 1);
        lemma_state_unfold(m, inputs, i - 1);
        lemma_step_keeps_session(
            state_after(m, inputs.take(i - 1)),
            inputs[i - 1].now,
            inputs[i - 1].event,
        );
    } else {
        assert(inputs.take(0) =~= Seq::<Input>::empty());
    }
}

/// One step of a session with no frame under way: it stays at its slot, and
/// either asks for that slot's frame or still has no frame under way.
proof fn lemma_armed_step(m: MessengerView, now: u64, event: Event)
    requires
        m.phase == Phase::Armed,
    ensures
        m.step(now, event).0.cursor == m.cursor,
        m.step(now, event).1.is_transmit() ==> m.step(now, event).1 == m.transmit()
            && m.pending(),
        !m.step(now, event).1.is_transmit() ==> m.step(now, event).0.phase == Phase::Armed,
{
}

/// Up to its first transmission a session stays at the slot it started at.
proof fn lemma_armed_until(m: MessengerView, inputs: Seq<Input>, k: int)
    requires
        m.phase == Phase::Armed,
        0 <= k <= inputs.len(),
        forall|l: int| 0 <= l < k ==> !(#[trigger] action_at(m, inputs, l)).is_transmit(),
    ensures
        state_after(m, inputs.take(k)).phase == Phase::Armed,
        state_after(m, inputs.take(k)).cursor == m.cursor,
    decreases k,
{
    if k == 0 {
        assert(inputs.take(0) =~= Seq::<Input>::empty());
    } else {
        lemma_armed_until(m, inputs, k - 1);
        lemma_state_unfold(m, inputs, k - 1);
        assert(!action_at(m, inputs, k - 1).is_transmit());
        lemma_armed_step(
            state_after(m, inputs.take(k - 1)),
            inputs[k - 1].now,
            inputs[k - 1].event,
        );
    }
}

/// The first transmission. The first frame that a session with no frame
/// under way asks for is the frame of the slot it stands at.
pub proof fn lemma_first_transmission(m: MessengerView, inputs: Seq<Input>, i: int)
    requires
        m.phase == Phase::Armed,
        0 <= i < inputs.len(),
        action_at(m, inputs, i).is_transmit(),
        forall|l: int| 0 <= l < i ==> !(#[trigger] action_at(m, inputs, l)).is_transmit(),
    ensures
        m.cursor < m.request.slots.len(),
        action_at(m, inputs, i) == wire(m, m.request.slots[m.cursor as int].message),
{
    lemma_armed_until(m, inputs, i);
    lemma_session_is_fixed(m, inputs, i);
    lemma_armed_step(state_after(m, inputs.take(i)), inputs[i].now, inputs[i].event);
}

} // verus!
