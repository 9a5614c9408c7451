use smart_house::decimal::{parse_fixed, Fixed};
use smart_house::device::{DeviceType, Thermometer};
use smart_house::fake_power_socket::{FakePowerSocket, PowerSocketState};
use smart_house::registry::{
    copy_to_buffer, device_get_name, device_get_value, device_off, device_on, device_state,
    new_device, Registry,
};
use smart_house::report::{format_row, Report, Reportable, Reporter};
use smart_house::stream::{LinkAction, LinkEvent, Phase, StreamLink};
use smart_house::transport::{datagram_text, MockTransport, Transport};

fn name_of(registry: &Registry, id: u64) -> String {
    let mut buffer = [0xAAu8; 16];
    let written = device_get_name(registry, id, &mut buffer);
    String::from_utf8_lossy(&buffer[..written.min(15)]).into_owned()
}

fn state_of(registry: &mut Registry, id: u64) -> String {
    let mut buffer = [0xAAu8; 16];
    let written = device_state(registry, id, &mut buffer);
    String::from_utf8_lossy(&buffer[..written.min(15)]).into_owned()
}

#[test]
fn unknown_handles_get_sentinels() {
    let mut registry = Registry::new();
    assert!(!device_on(&mut registry, 0));
    assert!(!device_off(&mut registry, 7));
    assert_eq!(device_get_value(&mut registry, 3), Fixed::zero());
    assert_eq!(name_of(&registry, 1), "Unknown");
    assert_eq!(state_of(&mut registry, u64::MAX), "Unknown");

    let id = new_device(&mut registry, DeviceType::PowerSocket, Fixed::from_int(60));
    assert_eq!(id, 0);
    assert!(!device_on(&mut registry, 1));
    assert_eq!(device_get_value(&mut registry, 1), Fixed::zero());
    assert_eq!(name_of(&registry, 1), "Unknown");
    assert_eq!(registry.len(), 1);
}

#[test]
fn socket_round_trip_through_registry() {
    let mut registry = Registry::new();
    let id = new_device(&mut registry, DeviceType::PowerSocket, Fixed::from_int(60));
    assert!(device_on(&mut registry, id));
    assert_eq!(device_get_value(&mut registry, id), Fixed::from_int(60));
    assert!(device_off(&mut registry, id));
    assert_eq!(device_get_value(&mut registry, id), Fixed::from_int(0));
}

#[test]
fn turning_on_twice_changes_nothing_more() {
    let mut registry = Registry::new();
    let id = new_device(&mut registry, DeviceType::PowerSocket, Fixed::from_int(60));
    assert!(device_on(&mut registry, id));
    let value_once = device_get_value(&mut registry, id);
    let state_once = state_of(&mut registry, id);
    assert!(device_on(&mut registry, id));
    assert_eq!(device_get_value(&mut registry, id), value_once);
    assert_eq!(state_of(&mut registry, id), state_once);
    assert_eq!(name_of(&registry, id), "PowerSocket");
}

#[test]
fn creates_give_distinct_handles() {
    let mut registry = Registry::new();
    let mut handles = Vec::new();
    for i in 0..8 {
        let kind = if i % 2 == 0 { DeviceType::Thermometer } else { DeviceType::PowerSocket };
        handles.push(new_device(&mut registry, kind, Fixed::from_int(10 + i)));
    }
    for i in 0..handles.len() {
        for j in (i + 1)..handles.len() {
            assert_ne!(handles[i], handles[j]);
        }
    }
    for (i, &h) in handles.iter().enumerate() {
        if i % 2 == 0 {
            assert_eq!(name_of(&registry, h), "Thermometer");
            assert_eq!(device_get_value(&mut registry, h), Fixed::from_int(10 + i as i32));
        } else {
            assert_eq!(name_of(&registry, h), "PowerSocket");
            assert!(device_on(&mut registry, h));
            assert_eq!(device_get_value(&mut registry, h), Fixed::from_int(10 + i as i32));
        }
    }
}

#[test]
fn names_are_cut_to_the_buffer() {
    let mut registry = Registry::new();
    let id = new_device(&mut registry, DeviceType::Thermometer, Fixed::from_int(23));
    let mut small = [0xAAu8; 5];
    assert_eq!(device_get_name(&registry, id, &mut small), 11);
    assert_eq!(&small, b"Ther\0");
    let mut empty: [u8; 0] = [];
    assert_eq!(device_get_name(&registry, id, &mut empty), 11);
    let mut wide = [0xAAu8; 16];
    assert_eq!(device_state(&mut registry, id, &mut wide), 2);
    assert_eq!(&wide[..4], b"ON\0\xAA");
}

#[test]
fn copy_keeps_bytes_past_the_terminator() {
    let mut buffer = [7u8; 6];
    assert_eq!(copy_to_buffer(b"ab", &mut buffer), 2);
    assert_eq!(buffer, [b'a', b'b', 0, 7, 7, 7]);
    let mut one = [9u8; 1];
    assert_eq!(copy_to_buffer(b"abc", &mut one), 3);
    assert_eq!(one, [0]);
}

#[test]
fn decimal_text_is_read_exactly() {
    assert_eq!(parse_fixed("25.0"), Some(Fixed::from_milli(25000)));
    assert_eq!(parse_fixed("-3"), Some(Fixed::from_milli(-3000)));
    assert_eq!(parse_fixed("+.5"), Some(Fixed::from_milli(500)));
    assert_eq!(parse_fixed("7."), Some(Fixed::from_milli(7000)));
    assert_eq!(parse_fixed("1.23456"), Some(Fixed::from_milli(1234)));
    assert_eq!(parse_fixed("-0.0019"), Some(Fixed::from_milli(-1)));
    assert_eq!(parse_fixed("9223372036854775.807"), Some(Fixed::from_milli(i64::MAX)));
    assert_eq!(parse_fixed("9223372036854775.808"), None);
    assert_eq!(parse_fixed("9223372036854776"), None);
    assert_eq!(parse_fixed(""), None);
    assert_eq!(parse_fixed("."), None);
    assert_eq!(parse_fixed("-"), None);
    assert_eq!(parse_fixed("1e3"), None);
    assert_eq!(parse_fixed("1.2.3"), None);
    assert_eq!(parse_fixed(" 4"), None);
    assert_eq!(parse_fixed("abc"), None);
}

#[test]
fn decimal_values_are_written_out() {
    assert_eq!(Fixed::from_milli(25000).to_text(), "25");
    assert_eq!(Fixed::from_milli(23200).to_text(), "23.2");
    assert_eq!(Fixed::from_milli(23125).to_text(), "23.125");
    assert_eq!(Fixed::from_milli(-500).to_text(), "-0.5");
    assert_eq!(Fixed::from_milli(1050).to_text(), "1.05");
    assert_eq!(Fixed::zero().to_text(), "0");
    assert_eq!(Fixed::from_milli(i64::MIN).to_text(), "-9223372036854775.808");
}

#[test]
fn mock_transport_echoes_switch_commands() {
    let mut mock = MockTransport::new("idle".to_string());
    assert_eq!(mock.exchange("state"), "idle");
    assert_eq!(mock.exchange("on"), "on");
    assert_eq!(mock.exchange("state"), "on");
    assert_eq!(mock.exchange("off"), "off");
    assert_eq!(mock.exchange("ON"), "off");
}

#[test]
fn datagrams_are_read_as_text() {
    assert_eq!(datagram_text(b"25.0"), "25.0");
    assert_eq!(datagram_text(b"\xff\xfe"), "");
    assert_eq!(datagram_text("21,5 \u{b0}C".as_bytes()), "21,5 \u{b0}C");
}

#[test]
fn stream_link_reconnects_after_a_failure() {
    let mut link = StreamLink::new(true);
    assert!(matches!(link.step(LinkEvent::Start), LinkAction::Write));
    match link.step(LinkEvent::Wrote(false)) {
        LinkAction::Reply(text) => assert_eq!(text, "disconnected"),
        _ => panic!("a failed write ends the exchange"),
    }
    assert!(!link.connected);
    assert_eq!(link.phase, Phase::Idle);

    assert!(matches!(link.step(LinkEvent::Start), LinkAction::Connect));
    assert!(matches!(link.step(LinkEvent::Connected(true)), LinkAction::Write));
    assert!(matches!(link.step(LinkEvent::Wrote(true)), LinkAction::Read));
    match link.step(LinkEvent::Received(Some(b"on".to_vec()))) {
        LinkAction::Reply(text) => assert_eq!(text, "on"),
        _ => panic!("a read ends the exchange"),
    }
    assert!(link.connected);
}

#[test]
fn stream_link_gives_up_without_a_peer() {
    let mut link = StreamLink::new(false);
    assert!(matches!(link.step(LinkEvent::Start), LinkAction::Connect));
    match link.step(LinkEvent::Connected(false)) {
        LinkAction::Reply(text) => assert_eq!(text, "disconnected"),
        _ => panic!("a failed connect ends the exchange"),
    }
    let mut link = StreamLink::new(true);
    link.step(LinkEvent::Start);
    link.step(LinkEvent::Wrote(true));
    match link.step(LinkEvent::Received(Some(Vec::new()))) {
        LinkAction::Reply(text) => assert_eq!(text, "disconnected"),
        _ => panic!("an empty read ends the exchange"),
    }
    assert!(!link.connected);
    match link.step(LinkEvent::Wrote(true)) {
        LinkAction::Reply(text) => assert_eq!(text, "disconnected"),
        _ => panic!("an event out of turn ends the exchange"),
    }
}

#[test]
fn fake_socket_answers_the_protocol() {
    let socket = FakePowerSocket::new(6000);
    assert_eq!(socket.port, 6000);
    let mut state = socket.state;
    assert_eq!(state, PowerSocketState::Off);
    assert_eq!(FakePowerSocket::process(b"state", &mut state), "off");
    assert_eq!(FakePowerSocket::process(b"  on \r\n", &mut state), "ok");
    assert_eq!(state, PowerSocketState::On);
    assert_eq!(FakePowerSocket::process(b"state\n", &mut state), "on");
    assert_eq!(FakePowerSocket::process(b"off", &mut state), "ok");
    assert_eq!(state, PowerSocketState::Off);
    assert_eq!(FakePowerSocket::process(b"exit", &mut state), "bye");
    assert_eq!(FakePowerSocket::process(b"   ", &mut state), "");
    assert_eq!(FakePowerSocket::process(b"toggle", &mut state), "error");
    assert_eq!(FakePowerSocket::process(b"\xff", &mut state), "error");
    assert_eq!(FakePowerSocket::parse(b"\ton\n"), "on");
}

#[test]
fn reports_describe_a_thermometer() {
    let mut thermometer = Thermometer::new(Fixed::from_milli(23500));
    assert_eq!(thermometer.report(), "Thermometer state: ON, temperature: 23.5");
    assert_eq!(thermometer.generate_report(), "Thermometer   ON              23.5");
    thermometer.off();
    let entries = Reporter::new().add(&Thermometer::new(Fixed::from_int(25))).add(&thermometer).into_entries();
    assert_eq!(
        entries,
        vec![
            "Thermometer state: ON, temperature: 25".to_string(),
            "Thermometer state: OFF, temperature: 0".to_string(),
        ]
    );
    assert_eq!(format_row("A", "B", "1234567"), format!("A{}B{}1234567", " ".repeat(13), " ".repeat(13)));
}

#[test]
fn fake_socket_responds_to_trimmed_commands() {
    let mut state = PowerSocketState::Off;
    assert_eq!(FakePowerSocket::respond("on", &mut state), "ok");
    assert_eq!(state, PowerSocketState::On);
    assert_eq!(FakePowerSocket::respond("state", &mut state), "on");
    assert_eq!(FakePowerSocket::respond(" on", &mut state), "error");
    assert_eq!(FakePowerSocket::respond("", &mut state), "");
    assert_eq!(state, PowerSocketState::On);
}

#[test]
fn written_values_read_back() {
    for milli in [0, 1, -1, 999, 1000, -1001, 25000, 23200, -7250, 123456789, i64::MAX, i64::MIN + 1] {
        let v = Fixed::from_milli(milli);
        assert_eq!(parse_fixed(&v.to_text()), Some(v));
    }
    assert_eq!(parse_fixed(&Fixed::from_milli(i64::MIN).to_text()), None);
}
