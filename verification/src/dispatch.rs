//! One-call requests: a new session that already knows what to send.
//!
//! Each function prepares a session and hands it its request. Driving the
//! session then opens the socket, sends, and finishes.

use vstd::prelude::*;
use vstd::utf8::encode_utf8;
use crate::address::{IpAddress, SocketAddress};
use crate::duty_cycle::DutyCycleMessage;
use crate::error::ScpiError;
use crate::framing::{framed, lemma_frame_bytes, trim};
use crate::messenger::{ActionView, Event, Messenger, MessengerView, Repetition, Request, elapsed};
use crate::networking::NetworkMode;
use crate::trace::{
    Input, action_at, frame_len, lemma_first_transmission, lemma_list_fails_fast,
    lemma_list_in_order, lemma_nothing_to_send, lemma_opening_succeeds, lemma_repeated_count,
    lemma_session_is_fixed, lemma_spacing, lemma_state_unfold, lemma_transmit_step,
    lemma_unbounded_never_completes, opened, opening_steps, state_after, succeed_between, wire,
};

verus! {

/// The new session that a one-call request yields.
pub open spec fn dispatched(
    request: Request,
    mode: NetworkMode,
    remote_client: IpAddress,
    remote_port: u16,
    local_port: u16,
) -> MessengerView {
    MessengerView::fresh(
        local_port,
        SocketAddress { ip: remote_client, port: remote_port },
        mode,
    ).with_request(request)
}

/// What a one-call request returns: the session, unless the mode is TCP
/// multicast, which is refused before anything else happens.
pub open spec fn dispatch_result(
    result: Result<Messenger, ScpiError>,
    request: Request,
    mode: NetworkMode,
    remote_client: IpAddress,
    remote_port: u16,
    local_port: u16,
) -> bool {
    match result {
        Ok(messenger) => !(mode is TcpMulticast) && messenger@ == dispatched(
            request,
            mode,
            remote_client,
            remote_port,
            local_port,
        ),
        Err(error) => mode is TcpMulticast && error == ScpiError::UnsupportedMode,
    }
}

/// An optional count as a repetition: no count means without end.
pub open spec fn repetition_of(repetitions: Option<usize>) -> Repetition {
    match repetitions {
        Some(n) => Repetition::Count(n),
        None => Repetition::Infinite,
    }
}

/// A session that sends `message` once.
pub fn send_scpi_message(
    message: &str,
    mode: &NetworkMode,
    remote_client: &IpAddress,
    remote_port: u16,
    local_port: u16,
) -> (result: Result<Messenger, ScpiError>)
    ensures
        dispatch_result(
            result,
            Request::once(message@),
            *mode,
            *remote_client,
            remote_port,
            local_port,
        ),
{
    let mut messenger: Messenger = match Messenger::new(
        local_port,
        remote_port,
        remote_client,
        mode,
    ) {
        Ok(messenger) => messenger,
        Err(error) => {
            return Err(error);
        },
    };
    messenger.send_message(message);
    Ok(messenger)
}

/// A session that sends each of `messages` once, in order, and stops at the
/// first that fails.
pub fn send_list_of_scpi_messages(
    messages: &[&str],
    mode: &NetworkMode,
    remote_client: &IpAddress,
    remote_port: u16,
    local_port: u16,
) -> (result: Result<Messenger, ScpiError>)
    ensures
        dispatch_result(
            result,
            Request::list(Seq::new(messages@.len(), |i: int| messages@[i]@)),
            *mode,
            *remote_client,
            remote_port,
            local_port,
        ),
{
    let mut messenger: Messenger = match Messenger::new(
        local_port,
        remote_port,
        remote_client,
        mode,
    ) {
        Ok(messenger) => messenger,
        Err(error) => {
            return Err(error);
        },
    };
    messenger.send_list_of_messages(messages);
    Ok(messenger)
}

/// A session that sends `message` as often as `repetitions` says: that many
/// times, or without end if no count is given.
pub fn send_repeated_scpi_message(
    message: &str,
    mode: &NetworkMode,
    remote_client: &IpAddress,
    remote_port: u16,
    local_port: u16,
    repetitions: Option<usize>,
) -> (result: Result<Messenger, ScpiError>)
    ensures
        dispatch_result(
            result,
            Request::repeated(message@, repetition_of(repetitions)),
            *mode,
            *remote_client,
            remote_port,
            local_port,
        ),
{
    let mut messenger: Messenger = match Messenger::new(
        local_port,
        remote_port,
        remote_client,
        mode,
    ) {
        Ok(messenger) => messenger,
        Err(error) => {
            return Err(error);
        },
    };
    let repetition: Repetition = match repetitions {
        Some(n) => Repetition::Count(n),
        None => Repetition::Infinite,
    };
    messenger.send_repeated_message(message, repetition);
    Ok(messenger)
}

/// A session that sends the two messages of `duty_cycle_message` in turn,
/// without end, each followed by its pause.
pub fn send_duty_cycled_message(
    duty_cycle_message: &DutyCycleMessage,
    mode: &NetworkMode,
    remote_client: &IpAddress,
    remote_port: u16,
    local_port: u16,
) -> (result: Result<Messenger, ScpiError>)
    ensures
        dispatch_result(
            result,
            Request::duty_cycled(
                duty_cycle_message@.first_message,
                duty_cycle_message@.second_message,
                duty_cycle_message@.first_period,
                duty_cycle_message@.second_period,
            ),
            *mode,
            *remote_client,
            remote_port,
            local_port,
        ),
{
    let mut messenger: Messenger = match Messenger::new(
        local_port,
        remote_port,
        remote_client,
        mode,
    ) {
        Ok(messenger) => messenger,
        Err(error) => {
            return Err(error);
        },
    };
    messenger.send_duty_cycled_message(duty_cycle_message);
    Ok(messenger)
}

/// Whether the session can get its socket: its mode has a transport, and a
/// multicast destination is an IPv4 address.
pub open spec fn can_open(mode: NetworkMode, remote_client: IpAddress) -> bool {
    !(mode is TcpMulticast) && (mode is UdpMulticast ==> remote_client is V4)
}

/// The outcomes that `inputs` report from step `d` on are those that its
/// tail reports.
proof fn lemma_tail_succeeds(inputs: Seq<Input>, d: int, k: int)
    requires
        0 <= d <= inputs.len(),
        succeed_between(inputs, 1, d + k),
    ensures
        succeed_between(inputs.skip(d), 1, k),
{
    let rest = inputs.skip(d);
    assert forall|i: int| 1 <= i <= k && 0 <= i < rest.len() implies (#[trigger] rest[i]).event
        == Event::Succeeded by {
        assert(rest[i] == inputs[d + i]);
    }
}

/// Sending once. If opening the socket and the transmission succeed, a
/// session made to send `message` once asks, after the socket calls of the
/// opening, for one transmission of the frame of `message`, and then
/// finishes with the length of that frame: the length in bytes of the
/// trimmed message, plus 2.
pub proof fn lemma_send_once(
    message: Seq<char>,
    mode: NetworkMode,
    remote_client: IpAddress,
    remote_port: u16,
    local_port: u16,
    inputs: Seq<Input>,
)
    requires
        can_open(mode, remote_client),
        framed(message).len() <= usize::MAX,
        inputs.len() == 3 + (if mode is UdpMulticast {
            1int
        } else {
            0int
        }),
        succeed_between(inputs, 1, inputs.len() - 1),
    ensures
        ({
            let m = dispatched(Request::once(message), mode, remote_client, remote_port, local_port);
            let d = inputs.len() - 2;
            &&& d == opening_steps(m)
            &&& action_at(m, inputs, d) == wire(m, message)
            &&& wire(m, message).frame() == framed(message)
            &&& action_at(m, inputs, d + 1) == ActionView::Finish(
                Ok((encode_utf8(trim(message)).len() + 2) as usize),
            )
        }),
{
    let m = dispatched(Request::once(message), mode, remote_client, remote_port, local_port);
    let d = opening_steps(m);
    lemma_opening_succeeds(m, inputs, d);
    lemma_opening_succeeds(m, inputs, d + 1);
    lemma_tail_succeeds(inputs, d, 1);
    lemma_repeated_count(opened(m), message, 1, inputs.skip(d), 0);
    lemma_repeated_count(opened(m), message, 1, inputs.skip(d), 1);
    lemma_frame_bytes(message);
}

/// Sending a counted number of times. If opening the socket and every
/// transmission succeed, a session made to send `message` `n` times asks,
/// after the `d` socket calls of the opening, exactly `n` times for a
/// transmission of the frame of `message`, and then finishes: with the
/// length of that frame, or with 0 if `n` is 0.
pub proof fn lemma_send_repeated(
    message: Seq<char>,
    n: usize,
    mode: NetworkMode,
    remote_client: IpAddress,
    remote_port: u16,
    local_port: u16,
    inputs: Seq<Input>,
    k: int,
)
    requires
        can_open(mode, remote_client),
        0 <= k <= n,
        inputs.len() > k + (if mode is UdpMulticast {
            2int
        } else {
            1int
        }),
        succeed_between(
            inputs,
            1,
            k + (if mode is UdpMulticast {
                2int
            } else {
                1int
            }),
        ),
    ensures
        ({
            let m = dispatched(
                Request::repeated(message, Repetition::Count(n)),
                mode,
                remote_client,
                remote_port,
                local_port,
            );
            let d = opening_steps(m);
            &&& k < n ==> action_at(m, inputs, d + k) == wire(m, message)
            &&& k == n ==> action_at(m, inputs, d + k) == ActionView::Finish(
                Ok(
                    if n == 0 {
                        0
                    } else {
                        frame_len(message)
                    },
                ),
            )
        }),
{
    let m = dispatched(
        Request::repeated(message, Repetition::Count(n)),
        mode,
        remote_client,
        remote_port,
        local_port,
    );
    let d = opening_steps(m);
    lemma_opening_succeeds(m, inputs, d + k);
    lemma_tail_succeeds(inputs, d, k);
    lemma_repeated_count(opened(m), message, n, inputs.skip(d), k);
}

/// Sending zero times. A session made to send `message` zero times never
/// asks for a transmission, whatever the outcomes reported to it, and if it
/// finishes with `Ok`, then with 0.
pub proof fn lemma_send_zero_times(
    message: Seq<char>,
    mode: NetworkMode,
    remote_client: IpAddress,
    remote_port: u16,
    local_port: u16,
    inputs: Seq<Input>,
    i: int,
)
    requires
        0 <= i < inputs.len(),
    ensures
        ({
            let m = dispatched(
                Request::repeated(message, Repetition::Count(0)),
                mode,
                remote_client,
                remote_port,
                local_port,
            );
            &&& !action_at(m, inputs, i).is_transmit()
            &&& action_at(m, inputs, i) matches ActionView::Finish(Ok(n)) ==> n == 0
        }),
{
    let m = dispatched(
        Request::repeated(message, Repetition::Count(0)),
        mode,
        remote_client,
        remote_port,
        local_port,
    );
    lemma_nothing_to_send(m, inputs, i);
}

/// Sending a list. If opening the socket succeeds and so do the
/// transmissions of the messages before message `j`, the session asks for
/// the frames of the messages up to `j` in order. If then the transmission
/// of message `j` fails, that step and every later one is answered with the
/// error that names message `j`, so that no message after `j` is ever sent;
/// if no transmission fails, the step after the last message finishes with
/// the length of the last frame.
pub proof fn lemma_send_list(
    messages: Seq<Seq<char>>,
    mode: NetworkMode,
    remote_client: IpAddress,
    remote_port: u16,
    local_port: u16,
    inputs: Seq<Input>,
    j: int,
    i: int,
)
    requires
        can_open(mode, remote_client),
        messages.len() <= usize::MAX,
        0 <= j <= messages.len(),
        inputs.len() > j + (if mode is UdpMulticast {
            2int
        } else {
            1int
        }),
        succeed_between(
            inputs,
            1,
            j + (if mode is UdpMulticast {
                2int
            } else {
                1int
            }),
        ),
    ensures
        ({
            let m = dispatched(
                Request::list(messages),
                mode,
                remote_client,
                remote_port,
                local_port,
            );
            let d = opening_steps(m);
            &&& j < messages.len() ==> action_at(m, inputs, d + j) == wire(m, messages[j])
            &&& j == messages.len() ==> action_at(m, inputs, d + j) == ActionView::Finish(
                Ok(
                    if j == 0 {
                        0
                    } else {
                        frame_len(messages[j - 1])
                    },
                ),
            )
            &&& j < messages.len() && d + j + 1 <= i < inputs.len() && inputs[d + j + 1].event
                == Event::Failed ==> action_at(m, inputs, i) == ActionView::Finish(
                Err(ScpiError::Io { message: j as usize }),
            )
        }),
{
    let m = dispatched(Request::list(messages), mode, remote_client, remote_port, local_port);
    let d = opening_steps(m);
    let rest = inputs.skip(d);
    lemma_opening_succeeds(m, inputs, d + j);
    lemma_tail_succeeds(inputs, d, j);
    lemma_list_in_order(opened(m), messages, rest, j);
    if j < messages.len() && d + j + 1 <= i < inputs.len() && inputs[d + j + 1].event
        == Event::Failed {
        assert(rest[j + 1] == inputs[d + j + 1]);
        lemma_opening_succeeds(m, inputs, i);
        lemma_list_fails_fast(opened(m), messages, rest, j, i - d);
    }
}

/// The duty cycle. Of two transmissions of a duty-cycled session with none
/// in between, one carries the first message and the other the second, and
/// the clock readings of the steps that asked for them lie at least the
/// earlier message's period apart. This holds of every run, whatever the
/// outcomes reported.
pub proof fn lemma_duty_cycle(
    first: Seq<char>,
    second: Seq<char>,
    first_period: u64,
    second_period: u64,
    mode: NetworkMode,
    remote_client: IpAddress,
    remote_port: u16,
    local_port: u16,
    inputs: Seq<Input>,
    i: int,
    j: int,
)
    requires
        0 <= i < j < inputs.len(),
        ({
            let m = dispatched(
                Request::duty_cycled(first, second, first_period, second_period),
                mode,
                remote_client,
                remote_port,
                local_port,
            );
            &&& action_at(m, inputs, i).is_transmit()
            &&& action_at(m, inputs, j).is_transmit()
            &&& forall|l: int| i < l < j ==> !(#[trigger] action_at(m, inputs, l)).is_transmit()
        }),
    ensures
        ({
            let m = dispatched(
                Request::duty_cycled(first, second, first_period, second_period),
                mode,
                remote_client,
                remote_port,
                local_port,
            );
            let waited = elapsed(inputs[i].now, inputs[j].now);
            ||| action_at(m, inputs, i) == wire(m, first) && action_at(m, inputs, j) == wire(
                m,
                second,
            ) && waited >= first_period
            ||| action_at(m, inputs, i) == wire(m, second) && action_at(m, inputs, j) == wire(
                m,
                first,
            ) && waited >= second_period
        }),
{
    let m = dispatched(
        Request::duty_cycled(first, second, first_period, second_period),
        mode,
        remote_client,
        remote_port,
        local_port,
    );
    lemma_spacing(m, inputs, i, j);
    lemma_session_is_fixed(m, inputs, i + 1);
    lemma_session_is_fixed(m, inputs, j + 1);
    let a = state_after(m, inputs.take(i + 1));
    let b = state_after(m, inputs.take(j + 1));
    lemma_state_unfold(m, inputs, i);
    lemma_state_unfold(m, inputs, j);
    lemma_transmit_step(
        state_after(m, inputs.take(i)),
        inputs[i].now,
        inputs[i].event,
    );
    assert(a.pending());
    assert(a.cursor == 0 || a.cursor == 1);
}

/// The duty cycle begins with the first message: the first transmission of a
/// duty-cycled session carries it.
pub proof fn lemma_duty_cycle_begins(
    first: Seq<char>,
    second: Seq<char>,
    first_period: u64,
    second_period: u64,
    mode: NetworkMode,
    remote_client: IpAddress,
    remote_port: u16,
    local_port: u16,
    inputs: Seq<Input>,
    i: int,
)
    requires
        0 <= i < inputs.len(),
        ({
            let m = dispatched(
                Request::duty_cycled(first, second, first_period, second_period),
                mode,
                remote_client,
                remote_port,
                local_port,
            );
            &&& action_at(m, inputs, i).is_transmit()
            &&& forall|l: int| 0 <= l < i ==> !(#[trigger] action_at(m, inputs, l)).is_transmit()
        }),
    ensures
        ({
            let m = dispatched(
                Request::duty_cycled(first, second, first_period, second_period),
                mode,
                remote_client,
                remote_port,
                local_port,
            );
            action_at(m, inputs, i) == wire(m, first)
        }),
{
    let m = dispatched(
        Request::duty_cycled(first, second, first_period, second_period),
        mode,
        remote_client,
        remote_port,
        local_port,
    );
    lemma_first_transmission(m, inputs, i);
}

/// Requests without end never complete. A session made to repeat a message
/// without a count, or to alternate two messages, answers no step with `Ok`,
/// whatever is reported to it: it goes on until a socket call fails.
pub proof fn lemma_send_without_end(
    request: Request,
    mode: NetworkMode,
    remote_client: IpAddress,
    remote_port: u16,
    local_port: u16,
    inputs: Seq<Input>,
    i: int,
)
    requires
        0 <= i < inputs.len(),
        (exists|message: Seq<char>| request == Request::repeated(message, Repetition::Infinite))
            || (exists|first: Seq<char>, second: Seq<char>, p: u64, q: u64|
            request == Request::duty_cycled(first, second, p, q)),
    ensures
        !(action_at(
            dispatched(request, mode, remote_client, remote_port, local_port),
            inputs,
            i,
        ) matches ActionView::Finish(Ok(_))),
{
    let m = dispatched(request, mode, remote_client, remote_port, local_port);
    lemma_unbounded_never_completes(m, inputs, i);
}

} // verus!
