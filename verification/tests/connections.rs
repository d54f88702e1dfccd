use stompers::connection::{Connection, State};
use stompers::frame::{Command, Frame};
use stompers::message::Message;
use stompers::misc::{ErrorKind, StompError};

fn connected<C>() -> Connection<C> {
    let mut conn: Connection<C> = Connection::new();
    conn.connect();
    conn.connected(b"CONNECTED\nversion:1.1\n\n\0").unwrap();
    conn
}

fn shout(m: Message) -> String {
    format!("{}!", m.frame().body())
}

fn whisper(m: Message) -> String {
    format!("{}...", m.frame().body())
}

#[test]
fn new_connection_is_disconnected() {
    let conn: Connection<u8> = Connection::new();
    assert_eq!(conn.state(), State::Disconnected);
    assert_eq!(conn.subscription_count(), 0);
}

#[test]
fn connect_hands_out_the_connect_frame() {
    let mut conn: Connection<u8> = Connection::new();
    let text = conn.connect();
    assert_eq!(text, "CONNECT\ncontent-length:0\n\n\0");
    assert_eq!(conn.state(), State::AwaitingConnected);
    let f = Frame::parse(text.as_bytes()).unwrap();
    assert_eq!(f.command(), Command::Connect);
    assert_eq!(f.body(), "");
}

#[test]
fn handshake_succeeds_on_connected() {
    let mut conn: Connection<u8> = Connection::new();
    conn.connect();
    assert_eq!(conn.connected(b"CONNECTED\n\n\0"), Ok(()));
    assert_eq!(conn.state(), State::Connected);
}

#[test]
fn handshake_refused_on_error() {
    let mut conn: Connection<u8> = Connection::new();
    conn.connect();
    let e = conn.connected(b"ERROR\nmessage:denied\n\naccess denied\0").unwrap_err();
    assert_eq!(e.kind(), ErrorKind::ConnectionRefused);
    assert!(e.detail().contains("access denied"));
    assert_eq!(
        e,
        StompError::ConnectionRefused(
            "Server refused connection. Error was: access denied".to_string()
        )
    );
    assert_eq!(conn.state(), State::Failed);
}

#[test]
fn handshake_incorrect_response_on_message() {
    let mut conn: Connection<u8> = Connection::new();
    conn.connect();
    let e = conn.connected(b"MESSAGE\nsubscription:0\n\nhi\0").unwrap_err();
    assert_eq!(e.kind(), ErrorKind::IncorrectResponse);
    assert!(e.detail().contains("MESSAGE"));
    assert_eq!(
        e,
        StompError::IncorrectResponse(
            "Expected server to send a CONNECTED frame but didn't get one. Instead got a MESSAGE frame"
                .to_string()
        )
    );
    assert_eq!(conn.state(), State::Failed);
}

#[test]
fn handshake_fails_on_what_is_no_frame() {
    let mut conn: Connection<u8> = Connection::new();
    conn.connect();
    let e = conn.connected(b"garbage").unwrap_err();
    assert_eq!(e.kind(), ErrorKind::MalformedFrame);
    assert_eq!(conn.state(), State::Failed);

    let mut conn: Connection<u8> = Connection::new();
    conn.connect();
    assert_eq!(conn.connected(b"HELLO\n\n\0").unwrap_err().kind(), ErrorKind::MalformedCommand);
    assert_eq!(conn.state(), State::Failed);

    let mut conn: Connection<u8> = Connection::new();
    conn.connect();
    assert_eq!(
        conn.connected(b"CONNECTED\nno colon\n\n\0").unwrap_err().kind(),
        ErrorKind::MalformedHeader
    );
    assert_eq!(conn.state(), State::Failed);
}

#[test]
fn subscribe_twice_sends_one_frame() {
    let mut conn: Connection<fn(Message) -> String> = connected();
    let first = conn.subscribe("a-queue", shout);
    assert_eq!(
        first,
        Some("SUBSCRIBE\ncontent-length:0\nid:0\ndestination:a-queue\n\n\0".to_string())
    );
    assert_eq!(conn.subscription_count(), 1);
    let second = conn.subscribe("a-queue", whisper);
    assert_eq!(second, None);
    assert_eq!(conn.subscription_count(), 1);
    // the callback that was there first stays
    let (cb, msg) = conn.dispatch(b"MESSAGE\nsubscription:0\n\nhey\0").unwrap();
    assert_eq!(cb(msg), "hey!");
}

#[test]
fn subscription_ids_count_up() {
    let mut conn: Connection<u8> = connected();
    for (i, name) in ["q0", "q1", "q2", "q3", "q4", "q5", "q6", "q7", "q8", "q9", "q10"]
        .iter()
        .enumerate()
    {
        let text = conn.subscribe(name, i as u8).unwrap();
        let f = Frame::parse(text.as_bytes()).unwrap();
        assert_eq!(f.command(), Command::Subscribe);
        assert_eq!(f.get_header("id"), Some(&i.to_string()));
        assert_eq!(f.get_header("destination"), Some(&name.to_string()));
        assert_eq!(f.body(), "");
    }
    assert_eq!(conn.subscription_count(), 11);
    assert_eq!(conn.subscribe("q3", 99), None);
    let text = conn.subscribe("q11", 11).unwrap();
    assert_eq!(text, "SUBSCRIBE\ncontent-length:0\nid:11\ndestination:q11\n\n\0");
}

#[test]
fn subscribe_escapes_the_destination() {
    let mut conn: Connection<u8> = connected();
    let text = conn.subscribe("a:queue\n", 0).unwrap();
    assert_eq!(text, "SUBSCRIBE\ncontent-length:0\nid:0\ndestination:a\\cqueue\\n\n\n\0");
    assert_eq!(conn.subscribe("a:queue\n", 1), None);
    assert!(conn.subscribe("a:queue", 1).is_some());
}

#[test]
fn dispatch_calls_the_callback_of_the_subscription() {
    let mut conn: Connection<fn(Message) -> String> = connected();
    conn.subscribe("a-queue", shout);
    conn.subscribe("b-queue", whisper);
    let mut calls: Vec<String> = Vec::new();
    let (cb, msg) = conn
        .dispatch(b"MESSAGE\nsubscription:0\ndestination:a-queue\n\nhello world\0")
        .unwrap();
    assert_eq!(msg.get_header("destination"), Some(&"a-queue".to_string()));
    assert_eq!(msg.frame().body(), "hello world");
    calls.push(cb(msg));
    assert_eq!(calls, vec!["hello world!".to_string()]);
    let (cb, msg) = conn.dispatch(b"MESSAGE\nsubscription:1\n\nhello\0").unwrap();
    assert_eq!(cb(msg), "hello...");
}

#[test]
fn dispatch_reads_a_padded_buffer() {
    let mut conn: Connection<u8> = connected();
    conn.subscribe("a-queue", 7);
    let mut buf = [0u8; 1024];
    let text = b"MESSAGE\nsubscription:0\n\nbody\0";
    buf[..text.len()].copy_from_slice(text);
    let (cb, msg) = conn.dispatch(&buf).unwrap();
    assert_eq!(*cb, 7);
    assert_eq!(msg.frame().body(), "body");
}

#[test]
fn dispatch_drops_what_it_cannot_deliver() {
    let mut conn: Connection<u8> = connected();
    conn.subscribe("a-queue", 7);
    // no subscription header
    assert!(conn.dispatch(b"MESSAGE\ndestination:a-queue\n\nx\0").is_none());
    // not a number
    assert!(conn.dispatch(b"MESSAGE\nsubscription:zero\n\nx\0").is_none());
    assert!(conn.dispatch(b"MESSAGE\nsubscription:\n\nx\0").is_none());
    assert!(conn.dispatch(b"MESSAGE\nsubscription:-0\n\nx\0").is_none());
    // no such subscription
    assert!(conn.dispatch(b"MESSAGE\nsubscription:1\n\nx\0").is_none());
    assert!(conn.dispatch(b"MESSAGE\nsubscription:18446744073709551616\n\nx\0").is_none());
    // no frame
    assert!(conn.dispatch(b"MESSAGE").is_none());
    assert!(conn.dispatch(b"NOPE\nsubscription:0\n\nx\0").is_none());
    assert!(conn.dispatch(b"MESSAGE\nsubscription\n\nx\0").is_none());
    assert!(conn.dispatch(&[0xc3, 0x28]).is_none());
    // and one that it can
    assert!(conn.dispatch(b"MESSAGE\nsubscription:00\n\nx\0").is_some());
}

#[test]
fn send_is_one_send_frame() {
    let conn: Connection<u8> = connected();
    let text = conn.send_message(Message::new("a-queue", "hello world"));
    assert_eq!(text, "SEND\ncontent-length:11\ndestination:a-queue\n\nhello world\0");
    let f = Frame::parse(text.as_bytes()).unwrap();
    assert_eq!(f.command(), Command::Send);
    assert_eq!(f.get_header("destination"), Some(&"a-queue".to_string()));
    assert_eq!(f.get_header("content-length"), Some(&"11".to_string()));
    assert_eq!(f.body(), "hello world");
}

#[test]
fn send_with_receipt_adds_the_header() {
    let conn: Connection<u8> = connected();
    let text = conn.send_with_receipt(Message::new("a-queue", "hi"), "r-1");
    assert_eq!(text, "SEND\ncontent-length:2\ndestination:a-queue\nreceipt:r-1\n\nhi\0");
    let mut m = Message::new("a-queue", "hi");
    m.add_header("receipt", "old");
    m.add_header("last", "x");
    let text = conn.send_with_receipt(m, "new");
    assert_eq!(text, "SEND\ncontent-length:2\ndestination:a-queue\nreceipt:new\nlast:x\n\nhi\0");
}

#[test]
fn receipt_answers() {
    let conn: Connection<u8> = connected();
    assert_eq!(conn.receipt(b"RECEIPT\nreceipt-id:r-1\n\n\0"), Ok(()));
    assert_eq!(
        conn.receipt(b"ERROR\n\nqueue is full\0"),
        Err(StompError::MessageNotSent("queue is full".to_string()))
    );
    assert_eq!(
        conn.receipt(b"CONNECTED\n\n\0"),
        Err(StompError::IncorrectResponse(
            "Expected server to send a RECEIPT frame but didn't get one. Instead got a CONNECTED frame"
                .to_string()
        ))
    );
    assert_eq!(conn.receipt(b"RECEIPT").unwrap_err().kind(), ErrorKind::MalformedFrame);
}

#[test]
fn wait_answers() {
    let conn: Connection<u8> = connected();
    assert_eq!(conn.waited(None), Ok(()));
    assert_eq!(
        conn.waited(Some(b"ERROR\n\nno such queue\0")),
        Err(StompError::MessageNotSent("no such queue".to_string()))
    );
    assert_eq!(
        conn.waited(Some(b"RECEIPT\n\n\0")),
        Err(StompError::IncorrectResponse(
            "Expected server to send a ERROR frame but didn't get one. Instead got a RECEIPT frame"
                .to_string()
        ))
    );
    assert_eq!(conn.waited(Some(b"ERROR\nx\n\n\0")).unwrap_err().kind(), ErrorKind::MalformedHeader);
}

#[test]
fn receive_answers() {
    let conn: Connection<u8> = connected();
    let m = conn.receive(b"MESSAGE\ndestination:a-queue\n\nhello\0").unwrap();
    assert_eq!(m.get_header("destination"), Some(&"a-queue".to_string()));
    assert_eq!(m.frame().body(), "hello");
    assert_eq!(m.frame().command(), Command::Message);
    assert_eq!(
        conn.receive(b"ERROR\n\nbroken\0").unwrap_err(),
        StompError::Other("broken".to_string())
    );
    let e = conn.receive(b"RECEIPT\n\n\0").unwrap_err();
    assert_eq!(e.kind(), ErrorKind::IncorrectResponse);
    assert!(e.detail().contains("RECEIPT"));
    assert!(e.detail().contains("MESSAGE"));
    assert_eq!(conn.receive(b"WHAT\n\n\0").unwrap_err().kind(), ErrorKind::MalformedCommand);
}

#[test]
fn connect_then_send_writes_one_send_frame() {
    // a broker that answers CONNECTED; everything the client hands out goes to `written`
    let mut written: Vec<String> = Vec::new();
    let mut conn: Connection<u8> = Connection::new();
    written.push(conn.connect());
    conn.connected(b"CONNECTED\n\n\0").unwrap();
    written.push(conn.send_message(Message::new("a-queue", "hello world")));
    let sends: Vec<Frame> = written
        .iter()
        .map(|w| Frame::parse(w.as_bytes()).unwrap())
        .filter(|f| f.command() == Command::Send)
        .collect();
    assert_eq!(sends.len(), 1);
    assert_eq!(sends[0].get_header("destination"), Some(&"a-queue".to_string()));
    assert_eq!(sends[0].get_header("content-length"), Some(&"11".to_string()));
    assert_eq!(sends[0].body(), "hello world");
    assert_eq!(written.len(), 2);
}

#[test]
fn every_error_kind() {
    assert_eq!(StompError::TcpError("t".to_string()).kind(), ErrorKind::Tcp);
    assert_eq!(StompError::MalformedFrame("t".to_string()).kind(), ErrorKind::MalformedFrame);
    assert_eq!(StompError::MalformedCommand("t".to_string()).kind(), ErrorKind::MalformedCommand);
    assert_eq!(StompError::MalformedHeader("t".to_string()).kind(), ErrorKind::MalformedHeader);
    assert_eq!(StompError::ConnectionRefused("t".to_string()).kind(), ErrorKind::ConnectionRefused);
    assert_eq!(StompError::IncorrectResponse("t".to_string()).kind(), ErrorKind::IncorrectResponse);
    assert_eq!(StompError::MessageNotSent("t".to_string()).kind(), ErrorKind::MessageNotSent);
    assert_eq!(StompError::Other("t".to_string()).kind(), ErrorKind::Other);
    assert_eq!(StompError::Other("why".to_string()).detail(), "why");
    assert_eq!(StompError::TcpError("refused".to_string()).detail(), "refused");
}
