use scpi::address::{IpAddress, SocketAddress};
use scpi::duty_cycle::DutyCycleMessage;
use scpi::error::ScpiError;
use scpi::messenger::{Action, Event, Messenger, Repetition};
use scpi::networking::{NetworkMode, NetworkSender};
use scpi::{
    send_duty_cycled_message, send_list_of_scpi_messages, send_repeated_scpi_message,
    send_scpi_message,
};

/// Drives a session against a pretend network. `answer` decides what becomes
/// of each socket call; the clock advances by `tick` microseconds per step.
fn drive(
    messenger: &mut Messenger,
    answer: &mut dyn FnMut(&Action) -> Event,
    tick: u64,
    limit: usize,
) -> (Vec<(u64, Action)>, Option<Result<usize, ScpiError>>) {
    let mut log = Vec::new();
    let mut event = Event::Idle;
    let mut now: u64 = 0;
    for _ in 0..limit {
        let action = messenger.step(now, event);
        match &action {
            Action::Finish(result) => {
                let result = *result;
                log.push((now, action));
                return (log, Some(result));
            }
            Action::Spin => event = Event::Idle,
            other => event = answer(other),
        }
        log.push((now, action));
        now += tick;
    }
    (log, None)
}

fn frames(log: &[(u64, Action)]) -> Vec<Vec<u8>> {
    let mut out = Vec::new();
    for (_, action) in log {
        match action {
            Action::SendTo { frame, .. } => out.push(frame.clone()),
            Action::WriteAll { frame } => out.push(frame.clone()),
            _ => {}
        }
    }
    out
}

fn always(event: Event) -> impl FnMut(&Action) -> Event {
    move |_| event
}

fn instrument() -> IpAddress {
    IpAddress::new("192.168.1.70").unwrap()
}

#[test]
fn test_send_udp_message() {
    const MESSAGE: &str = "*IDN";
    const MODE: NetworkMode = NetworkMode::Udp;
    let remote_client: IpAddress = IpAddress::new("192.168.1.70").unwrap();
    const REMOTE_PORT: u16 = 5025;
    const LOCAL_PORT: u16 = 42;

    let session = send_scpi_message(MESSAGE, &MODE, &remote_client, REMOTE_PORT, LOCAL_PORT);
    assert!(session.is_ok());
    let mut session = session.unwrap();
    let (log, result) = drive(&mut session, &mut always(Event::Succeeded), 1, 10);
    assert!(result.unwrap().is_ok());
    assert_eq!(result, Some(Ok(6)));
    let destination = SocketAddress { ip: IpAddress::V4(192, 168, 1, 70), port: 5025 };
    let local = SocketAddress { ip: IpAddress::V4(0, 0, 0, 0), port: 42 };
    let actions: Vec<Action> = log.into_iter().map(|(_, a)| a).collect();
    assert_eq!(
        actions,
        vec![
            Action::BindUdp { local },
            Action::SendTo { frame: b"*IDN\r\n".to_vec(), destination },
            Action::Finish(Ok(6)),
        ]
    );
}

#[test]
fn test_repeated_udp_messages() {
    const MESSAGE: &str = "*IDN";
    const MODE: NetworkMode = NetworkMode::Udp;
    let remote_client: IpAddress = IpAddress::new("192.168.1.70").unwrap();
    const REMOTE_PORT: u16 = 5025;
    const LOCAL_PORT: u16 = 42;

    let session = send_repeated_scpi_message(
        MESSAGE,
        &MODE,
        &remote_client,
        REMOTE_PORT,
        LOCAL_PORT,
        Some(10),
    );
    assert!(session.is_ok());
    let mut session = session.unwrap();
    let (log, result) = drive(&mut session, &mut always(Event::Succeeded), 1, 100);
    assert!(result.unwrap().is_ok());
    assert_eq!(result, Some(Ok(6)));
    assert_eq!(frames(&log), vec![b"*IDN\r\n".to_vec(); 10]);
    assert_eq!(log.len(), 12);
}

#[test]
fn send_once_returns_trimmed_length_plus_two() {
    let messages = ["*IDN?", "  MEAS:VOLT?  \n", "", "\u{2003}größe ", "OUTP ON"];
    for mode in [NetworkMode::Udp, NetworkMode::UdpMulticast, NetworkMode::Tcp] {
        for message in messages {
            let group = IpAddress::V4(239, 1, 2, 3);
            let mut session = send_scpi_message(message, &mode, &group, 5025, 4000).unwrap();
            let (log, result) = drive(&mut session, &mut always(Event::Succeeded), 1, 10);
            assert_eq!(result, Some(Ok(message.trim().len() + 2)));
            let mut expected = message.trim().as_bytes().to_vec();
            expected.extend_from_slice(b"\r\n");
            assert_eq!(frames(&log), vec![expected]);
        }
    }
}

#[test]
fn zero_repetitions_send_nothing_and_return_zero() {
    for mode in [NetworkMode::Udp, NetworkMode::UdpMulticast, NetworkMode::Tcp] {
        let group = IpAddress::V4(239, 1, 2, 3);
        let mut session =
            send_repeated_scpi_message("*IDN?", &mode, &group, 5025, 4000, Some(0)).unwrap();
        let (log, result) = drive(&mut session, &mut always(Event::Succeeded), 1, 10);
        assert_eq!(result, Some(Ok(0)));
        assert!(frames(&log).is_empty());
    }
}

#[test]
fn zero_repetitions_send_nothing_whatever_is_reported() {
    let events = [Event::Idle, Event::Succeeded, Event::Failed];
    for first in events {
        for second in events {
            for third in events {
                let mut session = send_repeated_scpi_message(
                    "*IDN?",
                    &NetworkMode::UdpMulticast,
                    &IpAddress::V4(239, 0, 0, 1),
                    5025,
                    4000,
                    Some(0),
                )
                .unwrap();
                let script = [first, second, third];
                for (i, event) in script.iter().enumerate() {
                    let action = session.step(i as u64, *event);
                    assert!(!matches!(action, Action::SendTo { .. } | Action::WriteAll { .. }));
                    if let Action::Finish(Ok(n)) = action {
                        assert_eq!(n, 0);
                    }
                }
            }
        }
    }
}

#[test]
fn five_repetitions_are_five_identical_frames() {
    let mut session = send_repeated_scpi_message(
        " SYST:ERR? ",
        &NetworkMode::Tcp,
        &instrument(),
        5025,
        0,
        Some(5),
    )
    .unwrap();
    let (log, result) = drive(&mut session, &mut always(Event::Succeeded), 1, 100);
    assert_eq!(frames(&log), vec![b"SYST:ERR?\r\n".to_vec(); 5]);
    assert_eq!(result, Some(Ok(11)));
    let writes = log.iter().filter(|(_, a)| matches!(a, Action::WriteAll { .. })).count();
    assert_eq!(writes, 5);
}

#[test]
fn repetition_stops_at_the_first_failure() {
    let mut session =
        send_repeated_scpi_message("A", &NetworkMode::Udp, &instrument(), 5025, 1, Some(5)).unwrap();
    let mut sends = 0;
    let mut answer = |action: &Action| match action {
        Action::SendTo { .. } => {
            sends += 1;
            if sends == 3 {
                Event::Failed
            } else {
                Event::Succeeded
            }
        }
        _ => Event::Succeeded,
    };
    let (log, result) = drive(&mut session, &mut answer, 1, 100);
    assert_eq!(result, Some(Err(ScpiError::Io { message: 0 })));
    assert_eq!(frames(&log).len(), 3);
}

#[test]
fn list_is_sent_in_order() {
    let mut session = send_list_of_scpi_messages(
        &["A", " B ", "C\n"],
        &NetworkMode::Udp,
        &instrument(),
        5025,
        42,
    )
    .unwrap();
    let (log, result) = drive(&mut session, &mut always(Event::Succeeded), 1, 100);
    assert_eq!(frames(&log), vec![b"A\r\n".to_vec(), b"B\r\n".to_vec(), b"C\r\n".to_vec()]);
    assert_eq!(result, Some(Ok(3)));
}

#[test]
fn empty_list_sends_nothing() {
    let mut session =
        send_list_of_scpi_messages(&[], &NetworkMode::Tcp, &instrument(), 5025, 42).unwrap();
    let (log, result) = drive(&mut session, &mut always(Event::Succeeded), 1, 100);
    assert!(frames(&log).is_empty());
    assert_eq!(result, Some(Ok(0)));
}

#[test]
fn list_fails_fast_on_the_second_message() {
    let mut session = send_list_of_scpi_messages(
        &["A", "B", "C"],
        &NetworkMode::Tcp,
        &instrument(),
        5025,
        42,
    )
    .unwrap();
    let mut delivered: Vec<Vec<u8>> = Vec::new();
    let mut answer = |action: &Action| match action {
        Action::WriteAll { frame } => {
            if frame == b"B\r\n" {
                Event::Failed
            } else {
                delivered.push(frame.clone());
                Event::Succeeded
            }
        }
        _ => Event::Succeeded,
    };
    let (log, result) = drive(&mut session, &mut answer, 1, 100);
    assert_eq!(result, Some(Err(ScpiError::Io { message: 1 })));
    assert_eq!(delivered, vec![b"A\r\n".to_vec()]);
    assert_eq!(frames(&log), vec![b"A\r\n".to_vec(), b"B\r\n".to_vec()]);
    // nothing reported later brings the third message out
    for event in [Event::Succeeded, Event::Idle, Event::Failed, Event::Succeeded] {
        assert_eq!(session.step(1000, event), Action::Finish(Err(ScpiError::Io { message: 1 })));
    }
}

#[test]
fn duty_cycle_keeps_its_periods() {
    let message = DutyCycleMessage::new(1000, 2000, "A", "B");
    let mut session =
        send_duty_cycled_message(&message, &NetworkMode::Udp, &instrument(), 5025, 42).unwrap();
    let (log, result) = drive(&mut session, &mut always(Event::Succeeded), 70, 20000);
    assert_eq!(result, None);
    let mut sends: Vec<(u64, Vec<u8>)> = Vec::new();
    for (now, action) in &log {
        if let Action::SendTo { frame, .. } = action {
            sends.push((*now, frame.clone()));
        }
    }
    assert!(sends.len() >= 200);
    assert_eq!(sends[0].1, b"A\r\n".to_vec());
    for pair in sends.windows(2) {
        let gap = pair[1].0 - pair[0].0;
        if pair[0].1 == b"A\r\n" {
            assert_eq!(pair[1].1, b"B\r\n".to_vec());
            assert!(gap >= 1000);
            assert!(gap < 1000 + 2 * 70);
        } else {
            assert_eq!(pair[0].1, b"B\r\n".to_vec());
            assert_eq!(pair[1].1, b"A\r\n".to_vec());
            assert!(gap >= 2000);
            assert!(gap < 2000 + 2 * 70);
        }
    }
}

#[test]
fn duty_cycle_with_zero_periods_never_spins() {
    let message = DutyCycleMessage::new(0, 0, "A", "B");
    let mut session =
        send_duty_cycled_message(&message, &NetworkMode::Tcp, &instrument(), 5025, 42).unwrap();
    let (log, result) = drive(&mut session, &mut always(Event::Succeeded), 0, 101);
    assert_eq!(result, None);
    assert!(log.iter().all(|(_, a)| !matches!(a, Action::Spin)));
    assert_eq!(frames(&log).len(), 100);
}

#[test]
fn duty_cycle_waits_even_if_the_clock_runs_backwards() {
    let message = DutyCycleMessage::new(10, 10, "A", "B");
    let mut session =
        send_duty_cycled_message(&message, &NetworkMode::Udp, &instrument(), 5025, 42).unwrap();
    assert!(matches!(session.step(100, Event::Idle), Action::BindUdp { .. }));
    assert!(matches!(session.step(100, Event::Succeeded), Action::SendTo { .. }));
    assert_eq!(session.step(50, Event::Succeeded), Action::Spin);
    assert_eq!(session.step(109, Event::Idle), Action::Spin);
    assert!(matches!(session.step(110, Event::Idle), Action::SendTo { .. }));
}

#[test]
fn duty_cycle_ends_only_with_an_error() {
    let message = DutyCycleMessage::new(5, 5, "A", "B");
    let mut session =
        send_duty_cycled_message(&message, &NetworkMode::Udp, &instrument(), 5025, 42).unwrap();
    let mut sends = 0;
    let mut answer = |action: &Action| match action {
        Action::SendTo { .. } => {
            sends += 1;
            if sends == 8 {
                Event::Failed
            } else {
                Event::Succeeded
            }
        }
        _ => Event::Succeeded,
    };
    let (log, result) = drive(&mut session, &mut answer, 1, 10000);
    assert_eq!(result, Some(Err(ScpiError::Io { message: 1 })));
    assert_eq!(frames(&log).len(), 8);
}

#[test]
fn infinite_repetition_never_finishes_on_success() {
    let mut session =
        send_repeated_scpi_message("A", &NetworkMode::Udp, &instrument(), 5025, 42, None).unwrap();
    let (log, result) = drive(&mut session, &mut always(Event::Succeeded), 1, 5000);
    assert_eq!(result, None);
    assert_eq!(frames(&log).len(), 4999);
}

#[test]
fn tcp_multicast_is_unsupported_whatever_the_address() {
    let addresses = [
        IpAddress::V4(239, 1, 1, 1),
        IpAddress::V4(192, 168, 1, 70),
        IpAddress::V6(0xff02, 0, 0, 0, 0, 0, 0, 1),
        IpAddress::V6(0, 0, 0, 0, 0, 0, 0, 1),
    ];
    for address in addresses {
        for (local, remote) in [(0u16, 0u16), (42, 5025), (65535, 65535)] {
            let session = Messenger::new(local, remote, &address, &NetworkMode::TcpMulticast);
            assert!(matches!(session, Err(ScpiError::UnsupportedMode)));
            let session =
                send_scpi_message("*IDN?", &NetworkMode::TcpMulticast, &address, remote, local);
            assert!(matches!(session, Err(ScpiError::UnsupportedMode)));
            let session = send_list_of_scpi_messages(
                &["A"],
                &NetworkMode::TcpMulticast,
                &address,
                remote,
                local,
            );
            assert!(matches!(session, Err(ScpiError::UnsupportedMode)));
            let session = send_repeated_scpi_message(
                "A",
                &NetworkMode::TcpMulticast,
                &address,
                remote,
                local,
                None,
            );
            assert!(matches!(session, Err(ScpiError::UnsupportedMode)));
            let message = DutyCycleMessage::new(1, 1, "A", "B");
            let session = send_duty_cycled_message(
                &message,
                &NetworkMode::TcpMulticast,
                &address,
                remote,
                local,
            );
            assert!(matches!(session, Err(ScpiError::UnsupportedMode)));
        }
    }
}

#[test]
fn tcp_session_connects_then_writes() {
    let mut session = Messenger::new(42, 5025, &instrument(), &NetworkMode::Tcp).unwrap();
    assert_eq!(session.sending_socket(), NetworkSender::Tcp);
    let destination = SocketAddress { ip: IpAddress::V4(192, 168, 1, 70), port: 5025 };
    assert_eq!(session.destination_address(), destination);
    assert_eq!(session.step(0, Event::Idle), Action::ConnectTcp { remote: destination });
    assert_eq!(session.step(1, Event::Succeeded), Action::Finish(Ok(0)));
    session.send_message(" *RST ");
    assert_eq!(session.step(2, Event::Idle), Action::WriteAll { frame: b"*RST\r\n".to_vec() });
    assert_eq!(session.step(3, Event::Succeeded), Action::Finish(Ok(6)));
    assert_eq!(session.step(4, Event::Idle), Action::Finish(Ok(6)));
}

#[test]
fn multicast_session_binds_then_joins() {
    let group = IpAddress::V4(239, 255, 0, 7);
    let mut session = Messenger::new(7000, 7001, &group, &NetworkMode::UdpMulticast).unwrap();
    assert_eq!(session.sending_socket(), NetworkSender::Udp);
    let local = SocketAddress { ip: IpAddress::V4(0, 0, 0, 0), port: 7000 };
    assert_eq!(session.step(0, Event::Idle), Action::BindUdp { local });
    assert_eq!(
        session.step(1, Event::Succeeded),
        Action::JoinMulticast { group, interface: IpAddress::V4(0, 0, 0, 0) }
    );
    assert_eq!(session.step(2, Event::Succeeded), Action::Finish(Ok(0)));
    session.send_message("X");
    assert_eq!(
        session.step(3, Event::Idle),
        Action::SendTo {
            frame: b"X\r\n".to_vec(),
            destination: SocketAddress { ip: group, port: 7001 }
        }
    );
}

#[test]
fn ipv6_multicast_is_refused_once_the_socket_is_bound() {
    let group = IpAddress::V6(0xff02, 0, 0, 0, 0, 0, 0, 1);
    let mut session = Messenger::new(7000, 7001, &group, &NetworkMode::UdpMulticast).unwrap();
    assert!(matches!(session.step(0, Event::Idle), Action::BindUdp { .. }));
    assert_eq!(
        session.step(1, Event::Succeeded),
        Action::Finish(Err(ScpiError::UnsupportedAddressFamily))
    );
    assert_eq!(
        session.step(2, Event::Succeeded),
        Action::Finish(Err(ScpiError::UnsupportedAddressFamily))
    );
}

#[test]
fn ipv6_unicast_is_accepted() {
    let remote = IpAddress::new("fe80::1").unwrap();
    let mut session = send_scpi_message("A", &NetworkMode::Udp, &remote, 5025, 42).unwrap();
    let (log, result) = drive(&mut session, &mut always(Event::Succeeded), 1, 10);
    assert_eq!(result, Some(Ok(3)));
    assert_eq!(
        log[1].1,
        Action::SendTo {
            frame: b"A\r\n".to_vec(),
            destination: SocketAddress { ip: remote, port: 5025 }
        }
    );
    let mut session = send_scpi_message("A", &NetworkMode::Tcp, &remote, 5025, 42).unwrap();
    let (_, result) = drive(&mut session, &mut always(Event::Succeeded), 1, 10);
    assert_eq!(result, Some(Ok(3)));
}

#[test]
fn each_opening_failure_has_its_error() {
    let group = IpAddress::V4(239, 0, 0, 1);
    let mut udp = send_scpi_message("A", &NetworkMode::Udp, &instrument(), 1, 2).unwrap();
    let (log, result) = drive(&mut udp, &mut always(Event::Failed), 1, 10);
    assert_eq!(result, Some(Err(ScpiError::Bind)));
    assert!(frames(&log).is_empty());

    let mut tcp = send_scpi_message("A", &NetworkMode::Tcp, &instrument(), 1, 2).unwrap();
    let (log, result) = drive(&mut tcp, &mut always(Event::Failed), 1, 10);
    assert_eq!(result, Some(Err(ScpiError::Connect)));
    assert!(frames(&log).is_empty());

    let mut multicast = send_scpi_message("A", &NetworkMode::UdpMulticast, &group, 1, 2).unwrap();
    let mut answer = |action: &Action| match action {
        Action::JoinMulticast { .. } => Event::Failed,
        _ => Event::Succeeded,
    };
    let (log, result) = drive(&mut multicast, &mut answer, 1, 10);
    assert_eq!(result, Some(Err(ScpiError::MulticastJoin)));
    assert!(frames(&log).is_empty());
    assert_eq!(multicast.step(9, Event::Succeeded), Action::Finish(Err(ScpiError::MulticastJoin)));
}

#[test]
fn a_failed_send_leaves_the_session_usable() {
    let mut session = Messenger::new(42, 5025, &instrument(), &NetworkMode::Udp).unwrap();
    let (_, result) = drive(&mut session, &mut always(Event::Succeeded), 1, 10);
    assert_eq!(result, Some(Ok(0)));
    session.send_message("A");
    let (_, result) = drive(&mut session, &mut always(Event::Failed), 1, 10);
    assert_eq!(result, Some(Err(ScpiError::Io { message: 0 })));
    session.send_message("BB");
    let (log, result) = drive(&mut session, &mut always(Event::Succeeded), 1, 10);
    assert_eq!(result, Some(Ok(4)));
    assert_eq!(frames(&log), vec![b"BB\r\n".to_vec()]);
}

#[test]
fn session_methods_set_the_request() {
    let mut session = Messenger::new(42, 5025, &instrument(), &NetworkMode::Tcp).unwrap();
    let (_, _) = drive(&mut session, &mut always(Event::Succeeded), 1, 10);

    session.send_list_of_messages(&["A", "BB"]);
    let (log, result) = drive(&mut session, &mut always(Event::Succeeded), 1, 10);
    assert_eq!(frames(&log), vec![b"A\r\n".to_vec(), b"BB\r\n".to_vec()]);
    assert_eq!(result, Some(Ok(4)));

    session.send_repeated_message("C", Repetition::Count(2));
    let (log, result) = drive(&mut session, &mut always(Event::Succeeded), 1, 10);
    assert_eq!(frames(&log), vec![b"C\r\n".to_vec(); 2]);
    assert_eq!(result, Some(Ok(3)));

    session.send_repeated_message("C", Repetition::Infinite);
    let (log, result) = drive(&mut session, &mut always(Event::Succeeded), 1, 10);
    assert_eq!(frames(&log).len(), 10);
    assert_eq!(result, None);

    let duty = DutyCycleMessage::new(0, 3, "D", "E");
    session.send_duty_cycled_message(&duty);
    let (log, result) = drive(&mut session, &mut always(Event::Succeeded), 1, 12);
    assert_eq!(result, None);
    let sent = frames(&log);
    assert_eq!(sent[0], b"D\r\n".to_vec());
    assert_eq!(sent[1], b"E\r\n".to_vec());
    assert_eq!(sent[2], b"D\r\n".to_vec());
}

#[test]
fn an_unreported_call_is_waited_for() {
    let mut session = send_scpi_message("A", &NetworkMode::Udp, &instrument(), 5025, 42).unwrap();
    assert!(matches!(session.step(0, Event::Idle), Action::BindUdp { .. }));
    assert_eq!(session.step(1, Event::Idle), Action::Spin);
    assert!(matches!(session.step(2, Event::Succeeded), Action::SendTo { .. }));
    assert_eq!(session.step(3, Event::Idle), Action::Spin);
    assert_eq!(session.step(4, Event::Succeeded), Action::Finish(Ok(3)));
}

#[test]
fn duty_cycle_message_hands_back_what_it_was_given() {
    let message = DutyCycleMessage::new(1000, 2000, "OUTP ON", "OUTP OFF");
    assert_eq!(message.get_times(), (1000, 2000));
    assert_eq!(message.get_messages(), ("OUTP ON", "OUTP OFF"));
    let message = DutyCycleMessage::new(0, u64::MAX, "", " ");
    assert_eq!(message.get_times(), (0, u64::MAX));
    assert_eq!(message.get_messages(), ("", " "));
}
