use sshgate::terminal::{clamp_terminal_size, ChannelEvent, TerminalSession, TerminalStep};

#[test]
fn output_is_base64_encoded() {
    let mut t = TerminalSession::new("t1".into());
    match t.on_channel_event(ChannelEvent::Data(b"hi".to_vec())) {
        TerminalStep::Output(e) => {
            assert_eq!(e.terminal_id, "t1");
            assert_eq!(e.data.as_deref(), Some("aGk="));
            assert!(e.message.is_none() && e.exit_status.is_none());
        }
        _ => panic!("expected output"),
    }
    match t.on_channel_event(ChannelEvent::Data(b"hello!".to_vec())) {
        TerminalStep::Output(e) => assert_eq!(e.data.as_deref(), Some("aGVsbG8h")),
        _ => panic!("expected output"),
    }
}

#[test]
fn exit_status_then_close() {
    let mut t = TerminalSession::new("t1".into());
    assert!(matches!(t.on_channel_event(ChannelEvent::ExitStatus(3)), TerminalStep::Continue));
    assert!(matches!(t.on_channel_event(ChannelEvent::Closed), TerminalStep::Finish));
    let e = t.closed_event();
    assert_eq!(e.exit_status, Some(3));
    assert_eq!(e.message.as_deref(), Some("远端 Shell 已关闭"));
    assert!(e.data.is_none());
}

#[test]
fn signal_message_is_kept() {
    let mut t = TerminalSession::new("t".into());
    assert!(matches!(t.on_channel_event(ChannelEvent::ExitSignal(String::new())), TerminalStep::Finish));
    assert_eq!(t.close_message.as_deref(), Some("远端 Shell 被信号终止"));
    assert!(matches!(t.on_channel_event(ChannelEvent::Ended), TerminalStep::Finish));
    assert_eq!(t.close_message.as_deref(), Some("远端 Shell 被信号终止"));
}

#[test]
fn sizes_are_at_least_one() {
    assert_eq!(clamp_terminal_size(0, 0), (1, 1));
    assert_eq!(clamp_terminal_size(80, 24), (80, 24));
}
