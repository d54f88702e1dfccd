use stompers::frame::{Command, Frame};
use stompers::message::Message;

#[test]
fn new_message_is_a_send_frame_for_the_destination() {
    let m = Message::new("a-queue", "hello world");
    assert_eq!(m.frame().command(), Command::Send);
    assert_eq!(m.frame().body(), "hello world");
    assert_eq!(m.get_header("destination"), Some(&"a-queue".to_string()));
    assert_eq!(m.get_header("content-length"), Some(&"11".to_string()));
    assert_eq!(m.get_header("receipt"), None);
}

#[test]
fn message_on_the_wire() {
    let m = Message::new("a-queue", "hello world");
    assert_eq!(m.to_string(), "SEND\ncontent-length:11\ndestination:a-queue\n\nhello world\0");
}

#[test]
fn message_headers_are_escaped() {
    let mut m = Message::new("a-queue", "hello\nworld");
    m.add_header("nasty\n:", "header");
    assert_eq!(m.get_header("nasty\n:"), Some(&"header".to_string()));
    assert_eq!(
        m.to_string(),
        "SEND\ncontent-length:11\ndestination:a-queue\nnasty\\n\\c:header\n\nhello\nworld\0"
    );
}

#[test]
fn message_add_header_overwrites() {
    let mut m = Message::new("a-queue", "");
    m.add_header("destination", "b-queue");
    m.add_header("x", "1");
    m.add_header("x", "2");
    assert_eq!(m.get_header("destination"), Some(&"b-queue".to_string()));
    assert_eq!(m.get_header("x"), Some(&"2".to_string()));
    assert_eq!(m.to_string(), "SEND\ncontent-length:0\ndestination:b-queue\nx:2\n\n\0");
}

#[test]
fn message_from_frame_keeps_the_frame() {
    let mut f = Frame::new(Command::Message, "payload");
    f.add_header("destination", "a-queue");
    f.add_header("subscription", "0");
    let wire = f.to_string();
    let m = Message::from_frame(f);
    assert_eq!(m.frame().command(), Command::Message);
    assert_eq!(m.get_header("subscription"), Some(&"0".to_string()));
    assert_eq!(m.get_header("destination"), Some(&"a-queue".to_string()));
    assert_eq!(m.to_string(), wire);
}

#[test]
fn message_round_trip() {
    let mut m = Message::new("a:queue", "body");
    m.add_header("k\\", "v\r\n");
    let f = Frame::parse(m.to_string().as_bytes()).unwrap();
    let back = Message::from_frame(f);
    assert_eq!(back.get_header("destination"), Some(&"a:queue".to_string()));
    assert_eq!(back.get_header("k\\"), Some(&"v\r\n".to_string()));
    assert_eq!(back.get_header("content-length"), Some(&"4".to_string()));
    assert_eq!(back.frame().body(), "body");
    assert_eq!(back.to_string(), m.to_string());
}
