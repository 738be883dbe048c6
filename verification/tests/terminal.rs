use cloudone::terminal::{
    connected, failure, get_slave_name, handle_message, output, receive, shell, terminal_action,
    ClientMessage, Frame, TerminalAction, TerminalFailure,
};

fn resized(a: TerminalAction) -> (u16, u16) {
    match a {
        TerminalAction::Resize { rows, cols } => (rows, cols),
        _ => panic!("not resized"),
    }
}

#[test]
fn input() {
    assert!(matches!(handle_message("{\"type\":\"input\",\"data\":\"ls\\n\"}"), TerminalAction::Input(b) if b == b"ls\n"));
    assert!(matches!(handle_message("{\"type\":\"input\",\"data\":\"\u{e9}\"}"), TerminalAction::Input(b) if b == [0xc3, 0xa9]));
    assert!(matches!(handle_message("{\"type\":\"input\",\"data\":5}"), TerminalAction::Input(b) if b.is_empty()));
    assert!(matches!(handle_message("{\"type\":\"input\"}"), TerminalAction::Input(b) if b.is_empty()));
}

#[test]
fn sizes() {
    assert_eq!(resized(handle_message("{\"type\":\"resize\",\"rows\":50,\"cols\":132}")), (50, 132));
    assert_eq!(resized(handle_message("{\"type\":\"resize\"}")), (24, 80));
    assert_eq!(resized(handle_message("{\"type\":\"resize\",\"rows\":0,\"cols\":-3}")), (24, 80));
    assert_eq!(resized(handle_message("{\"type\":\"resize\",\"rows\":65536,\"cols\":65537}")), (24, 1));
    let m = ClientMessage { kind: Some("resize".to_string()), data: None, rows: Some(7), cols: None };
    assert_eq!(resized(terminal_action(&m)), (7, 80));
}

#[test]
fn other_messages_are_ignored() {
    for m in ["", "x", "[]", "5", "{}", "{\"type\":1}", "{\"type\":\"ping\"}"] {
        assert!(matches!(handle_message(m), TerminalAction::Ignore), "{m}");
    }
}

#[test]
fn the_first_frame_that_is_no_text_ends_it() {
    assert!(matches!(receive(Frame::Text("x".to_string())), Some(TerminalAction::Ignore)));
    let input = "{\"type\":\"input\",\"data\":\"a\"}".to_string();
    assert!(matches!(receive(Frame::Text(input)), Some(TerminalAction::Input(b)) if b == b"a"));
    for f in [Frame::Binary, Frame::Ping, Frame::Close, Frame::Failed, Frame::End] {
        assert!(receive(f).is_none());
    }
}

#[test]
fn messages_to_the_client() {
    assert_eq!(connected(), "{\"type\":\"connected\"}");
    assert_eq!(output(&b"a\"b".to_vec()), "{\"data\":\"a\\\"b\",\"type\":\"output\"}");
    assert_eq!(output(&b"\x1b[0m\n\\\x7f".to_vec()), "{\"data\":\"\\u001b[0m\\n\\\\\u{7f}\",\"type\":\"output\"}");
    assert_eq!(output(&vec![0xff]), "{\"data\":\"\u{fffd}\",\"type\":\"output\"}");
    assert_eq!(failure(TerminalFailure::Open), "{\"data\":\"Failed to open PTY\",\"type\":\"error\"}");
    assert_eq!(failure(TerminalFailure::Name("x".to_string())), "{\"data\":\"PTY slave error: x\",\"type\":\"error\"}");
    assert_eq!(failure(TerminalFailure::OpenOther), "{\"data\":\"Failed to open PTY slave\",\"type\":\"error\"}");
    assert_eq!(failure(TerminalFailure::Start("x".to_string())), "{\"data\":\"Failed to start shell: x\",\"type\":\"error\"}");
}

#[test]
fn the_other_end() {
    assert_eq!(shell(true), "/bin/bash");
    assert_eq!(shell(false), "/bin/sh");
    assert_eq!(get_slave_name(12), "/dev/pts/12");
}
