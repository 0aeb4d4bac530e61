use websocket_control::protocol::{
    check_open, decode_event, decode_gps, decode_monitor_size, decode_peripheral,
    decode_redstone, get_peripheral_request, get_redstone_request, gps_locate_request, handshake,
    monitor_get_size_request, monitor_write_multi_request, monitor_write_request,
    monitor_write_string_request, pull_event_request, set_redstone_request, settle_receive,
    settle_send, HandshakeStep, ReceiveOutcome, SendOutcome,
};
use websocket_control::utils::AsIfPixel;
use websocket_control::{ColorId, Direction, Errors, Event, GpsError, PeripheralType, Side, ToErrorsResult};

#[test]
fn event_monitor_touch_decodes() {
    assert_eq!(
        Event::decode("monitor_touch top 5 7"),
        Event::MonitorTouch { side: Side::Top, x: 5, y: 7 }
    );
}

#[test]
fn event_key_decodes() {
    assert_eq!(Event::decode("key 42 true"), Event::Key { keycode: 42, hold: true });
}

#[test]
fn event_unknown_kind_is_other() {
    assert_eq!(Event::decode("ping"), Event::Other("ping".to_string()));
}

#[test]
fn event_malformed_is_other() {
    assert_eq!(Event::decode("key abc true"), Event::Other("key abc true".to_string()));
    assert_eq!(Event::decode("key 70000 true"), Event::Other("key 70000 true".to_string()));
    assert_eq!(
        Event::decode("monitor_touch middle 1 1"),
        Event::Other("monitor_touch middle 1 1".to_string())
    );
    assert_eq!(Event::decode("mouse_click 1 2"), Event::Other("mouse_click 1 2".to_string()));
}

#[test]
fn event_other_kinds_decode() {
    assert_eq!(Event::decode("key_up 30"), Event::KeyUp { keycode: 30 });
    assert_eq!(Event::decode("mouse_click 1 10 20"), Event::MouseClick { key: 1, x: 10, y: 20 });
    assert_eq!(Event::decode("mouse_up 2 3 4"), Event::MouseUp { key: 2, x: 3, y: 4 });
    assert_eq!(Event::decode("mouse_drag 3 5 6"), Event::MouseDrag { key: 3, x: 5, y: 6 });
    assert_eq!(
        Event::decode("mouse_scroll -1 3 4"),
        Event::MouseScroll { direction: -1, x: 3, y: 4 }
    );
    assert_eq!(Event::decode("key +7 false"), Event::Key { keycode: 7, hold: false });
}

#[test]
fn event_reply_none() {
    assert_eq!(decode_event("none"), None);
    assert_eq!(decode_event("key_up 1"), Some(Event::KeyUp { keycode: 1 }));
}

#[test]
fn redstone_set_then_echoed_get_reads_fifteen() {
    let request = set_redstone_request(Side::Left, 15).unwrap();
    assert_eq!(request, "s_rs left 15");
    let echoed = request.rsplit(' ').next().unwrap();
    assert_eq!(decode_redstone(echoed).unwrap(), 15);
}

#[test]
fn redstone_level_sixteen_refused() {
    assert!(matches!(set_redstone_request(Side::Left, 16), Err(Errors::InvalidRedstoneLevel(16))));
    assert!(matches!(set_redstone_request(Side::Left, -1), Err(Errors::InvalidRedstoneLevel(-1))));
}

#[test]
fn redstone_reading_truncates() {
    assert_eq!(decode_redstone("15.0").unwrap(), 15);
    assert_eq!(decode_redstone("7.9").unwrap(), 7);
    assert_eq!(decode_redstone("-3.7").unwrap(), -3);
    assert_eq!(decode_redstone(".5").unwrap(), 0);
    assert_eq!(decode_redstone("99999999999").unwrap(), i32::MAX);
    match decode_redstone("abc") {
        Err(Errors::ParseFloatError(t)) => assert_eq!(t, "abc"),
        _ => panic!("expected a parse error"),
    }
    assert!(decode_redstone(".").is_err());
    assert!(decode_redstone("").is_err());
}

#[test]
fn requests_are_encoded() {
    assert_eq!(get_redstone_request(Side::Front), "g_rs front");
    assert_eq!(get_peripheral_request(Side::Back), "g_peri back");
    assert_eq!(monitor_get_size_request(Side::Top), "m_g_sz top");
    assert_eq!(gps_locate_request(), "gps_loc");
    assert_eq!(pull_event_request(), "evt");
    assert_eq!(set_redstone_request(Side::Bottom, 0).unwrap(), "s_rs bottom 0");
}

#[test]
fn monitor_write_encodes_space_as_underscore() {
    let m = monitor_write_request(Side::Top, 3, 4, ColorId::Orange, ColorId::Black, ' ').unwrap();
    assert_eq!(m, "m_w_at_c_sig top 3 4 2 32768 true _");
    let m = monitor_write_request(Side::Right, 10, 1, ColorId::White, ColorId::Red, 'x').unwrap();
    assert_eq!(m, "m_w_at_c_sig right 10 1 1 16384 false x");
}

#[test]
fn monitor_write_refuses_non_ascii() {
    assert!(matches!(
        monitor_write_request(Side::Top, 1, 1, ColorId::White, ColorId::Black, 'é'),
        Err(Errors::InvalidChar('é'))
    ));
}

#[test]
fn monitor_write_string_two_messages() {
    let (a, b) = monitor_write_string_request(Side::Left, 2, 5, ColorId::Lime, ColorId::Blue, "hi there");
    assert_eq!(a, "m_w_at_c left 2 5 32 2048");
    assert_eq!(b, "hi there");
}

#[test]
fn monitor_write_multi_batches_cells() {
    let p = AsIfPixel::new('A', ColorId::White, ColorId::Black).unwrap();
    let q = AsIfPixel::colored_whitespace(ColorId::Gray);
    let m = monitor_write_multi_request(Side::Top, &[(1, 2, p), (12, 3, q)]);
    assert_eq!(m, "msm 2 top 1 2 1 32768 false A 12 3 128 128 true _");
    assert_eq!(monitor_write_multi_request(Side::Top, &[]), "msm 0 top");
}

#[test]
fn monitor_size_replies() {
    assert_eq!(decode_monitor_size("none").unwrap(), None);
    assert_eq!(decode_monitor_size("51 19").unwrap(), Some((51, 19)));
    match decode_monitor_size("x 19") {
        Err(Errors::ParseIntError(t)) => assert_eq!(t, "x"),
        _ => panic!("expected a parse error"),
    }
    assert!(matches!(decode_monitor_size("51"), Err(Errors::NoneValue)));
}

#[test]
fn gps_replies() {
    assert!(matches!(decode_gps("failed"), Err(Errors::GPSError(GpsError::Failed))));
    assert!(matches!(decode_gps("1 2"), Err(Errors::GPSError(GpsError::Other))));
    let (x, y, z) = decode_gps("1.5 -2 3").unwrap();
    assert_eq!((x.as_str(), y.as_str(), z.as_str()), ("1.5", "-2", "3"));
}

#[test]
fn peripheral_replies() {
    assert_eq!(decode_peripheral("none").unwrap(), None);
    assert_eq!(decode_peripheral("monitor").unwrap(), Some(PeripheralType::Monitor));
    assert_eq!(decode_peripheral("inventory").unwrap(), Some(PeripheralType::Inventory));
    match decode_peripheral("toaster") {
        Err(Errors::InvalidPeripheralType(t)) => assert_eq!(t, "toaster"),
        _ => panic!("expected an invalid peripheral type"),
    }
    assert_eq!(PeripheralType::Monitor.name(), "Monitor");
    assert_eq!(PeripheralType::Printer.name(), "printer");
}

#[test]
fn send_outcomes_settle() {
    let mut closed = false;
    assert!(settle_send(&mut closed, SendOutcome::Sent).is_ok());
    assert!(!closed);
    assert!(matches!(settle_send(&mut closed, SendOutcome::TimedOut), Err(Errors::WebSocketClosed)));
    assert!(closed);
    let mut closed = false;
    match settle_send(&mut closed, SendOutcome::Failed("reset".to_string())) {
        Err(Errors::Transport(t)) => assert_eq!(t, "reset"),
        _ => panic!("expected a transport error"),
    }
    assert!(closed);
}

#[test]
fn receive_outcomes_settle() {
    let mut closed = false;
    assert_eq!(settle_receive(&mut closed, ReceiveOutcome::Text("15".to_string())).unwrap(), "15");
    assert!(!closed);
    assert!(matches!(
        settle_receive(&mut closed, ReceiveOutcome::Binary),
        Err(Errors::WrongMessageType("Binary"))
    ));
    assert!(closed);
    let mut closed = false;
    assert!(matches!(settle_receive(&mut closed, ReceiveOutcome::Ended), Err(Errors::WebSocketClosed)));
    assert!(closed);
    let mut closed = false;
    assert!(matches!(settle_receive(&mut closed, ReceiveOutcome::TimedOut), Err(Errors::WebSocketClosed)));
    assert!(closed);
}

#[test]
fn closed_connection_fails_before_io() {
    assert!(matches!(check_open(true), Err(Errors::WebSocketClosed)));
    assert!(check_open(false).is_ok());
}

#[test]
fn handshake_steps() {
    match handshake(ReceiveOutcome::Text("id alpha".to_string())) {
        HandshakeStep::Register(id) => assert_eq!(id, "alpha"),
        _ => panic!("expected a registration"),
    }
    assert!(matches!(handshake(ReceiveOutcome::Text("hello alpha".to_string())), HandshakeStep::Drop));
    assert!(matches!(handshake(ReceiveOutcome::Text("id".to_string())), HandshakeStep::Drop));
    assert!(matches!(handshake(ReceiveOutcome::Ping), HandshakeStep::Wait));
    assert!(matches!(handshake(ReceiveOutcome::Close), HandshakeStep::Drop));
}

#[test]
fn sides_and_colors() {
    assert!(matches!(Side::from_name("front"), Ok(Side::Front)));
    match Side::from_name("up") {
        Err(Errors::InvalidSideName(n)) => assert_eq!(n, "up"),
        _ => panic!("expected an invalid side"),
    }
    assert_eq!(Side::Bottom.name(), "bottom");
    assert_eq!(ColorId::White.to_number(), 1);
    assert_eq!(ColorId::Cyan.to_number(), 512);
    assert_eq!(ColorId::Black.to_number(), 32768);
    assert_eq!(ColorId::from_number_overflow(17), ColorId::Orange);
    assert_eq!(ColorId::from_number_overflow(15), ColorId::Black);
    assert_eq!(Direction::NegY.to_dxdy(), (0, -1));
    assert_eq!(Direction::PosX.to_dxdy(), (1, 0));
}

#[test]
fn missing_value_becomes_error() {
    assert_eq!(Some(3).to_errors_result().unwrap(), 3);
    assert!(matches!(None::<u8>.to_errors_result(), Err(Errors::NoneValue)));
}
