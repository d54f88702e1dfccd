use stompers::frame::{Command, Frame};
use stompers::{Message, StompError};

#[test]
fn frames_are_equal_whatever_the_order_of_their_headers() {
    let mut a = Frame::new(Command::Send, "x");
    a.add_header("k1", "v1");
    a.add_header("k2", "v2");
    let mut b = Frame::new(Command::Send, "x");
    b.add_header("k2", "v2");
    b.add_header("k1", "v1");
    assert_eq!(a, b);
    assert_eq!(b, a);
    assert_ne!(a.to_string(), b.to_string());
}

#[test]
fn frames_differ_by_command_body_or_header() {
    let mut a = Frame::new(Command::Send, "x");
    a.add_header("k", "v");
    let mut other_command = Frame::new(Command::Message, "x");
    other_command.add_header("k", "v");
    assert_ne!(a, other_command);
    let mut other_body = Frame::new(Command::Send, "y");
    other_body.add_header("k", "v");
    assert_ne!(a, other_body);
    let mut other_value = Frame::new(Command::Send, "x");
    other_value.add_header("k", "w");
    assert_ne!(a, other_value);
    let fewer = Frame::new(Command::Send, "x");
    assert_ne!(a, fewer);
    assert_ne!(fewer, a);
    let mut more = Frame::new(Command::Send, "x");
    more.add_header("k", "v");
    more.add_header("l", "");
    assert_ne!(a, more);
    assert_ne!(more, a);
}

#[test]
fn a_frame_read_back_is_equal() {
    let mut f = Frame::new(Command::Send, "hello\nworld");
    f.add_header("destination", "a-queue");
    f.add_header("nasty\n:", "hea\\der\r");
    f.add_header("::", "\\\\");
    let back = Frame::parse(f.to_string().as_bytes()).unwrap();
    assert_eq!(back, f);
    assert_eq!(back.headers(), f.headers());
}

#[test]
fn a_frame_read_back_gets_content_length_where_it_had_none() {
    let f = Frame::parse(b"MESSAGE\nk:v\n\nbody\0").unwrap();
    assert_eq!(
        f.headers(),
        &vec![
            ("content-length".to_string(), "0".to_string()),
            ("k".to_string(), "v".to_string())
        ]
    );
    let back = Frame::parse(f.to_string().as_bytes()).unwrap();
    assert_eq!(back, f);
}

#[test]
fn clones_are_equal() {
    let mut f = Frame::new(Command::Error, "oops");
    f.add_header("message", "bad:thing");
    let g = f.clone();
    assert_eq!(f, g);
    assert_eq!(f.to_string(), g.to_string());
    let m = Message::new("q", "b");
    let n = m.clone();
    assert_eq!(m, n);
    assert_eq!(m.to_string(), n.to_string());
    let e = StompError::MessageNotSent("why".to_string());
    assert_eq!(e.clone(), e);
    assert_ne!(e, StompError::Other("why".to_string()));
    assert_ne!(e, StompError::MessageNotSent("because".to_string()));
}

#[test]
fn messages_are_equal_where_their_frames_are() {
    let mut a = Message::new("q", "b");
    a.add_header("x", "1");
    a.add_header("y", "2");
    let mut b = Message::new("q", "b");
    b.add_header("y", "2");
    b.add_header("x", "1");
    assert_eq!(a, b);
    b.add_header("x", "3");
    assert_ne!(a, b);
    assert_ne!(a, Message::new("q", "b"));
    assert_ne!(Message::new("q", "b"), Message::new("r", "b"));
    assert_eq!(Message::new("q", "b"), Message::new("q", "b"));
}
