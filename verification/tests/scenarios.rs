use minibus::connection::{Connection, Routed, SendError};
use minibus::server::{route_inbound, Handled};
use minibus::greeter::{hello_string, Greeter};
use minibus::msg::{Message, MessageKind};
use minibus::proxy::{NextItem, Proxy};
use minibus::server::{Interface, ObjectServer};
use minibus::value::{decode_value, encode_value, DecodeError, Sig, Value};

const SERVICE: &str = "org.zbus.MyGreeter";
const PATH: &str = "/org/zbus/MyGreeter";
const IFACE: &str = "org.zbus.MyGreeter1";

fn greeter_server() -> ObjectServer<Greeter> {
    let mut server: ObjectServer<Greeter> = ObjectServer::new();
    server.add_object(PATH, IFACE, Greeter).unwrap();
    server
}

/// Route everything a dispatch sent back into the client's connection, as
/// the read loops on both ends would.
fn deliver_all(out: Vec<Message>, client: &mut Connection) {
    for m in out {
        match m.kind {
            MessageKind::Signal => {
                client.accept_signal(&m);
            }
            MessageKind::Reply | MessageKind::Error => {
                client.accept_reply(&m);
            }
            MessageKind::Call => panic!("a server never dispatches a call outwards here"),
        }
    }
}

#[test]
fn u32_codec_round_trip_is_exact() {
    let bytes = encode_value(&Value::U32(0x0102_0304));
    assert_eq!(bytes, vec![0x04, 0x03, 0x02, 0x01]);
    match decode_value(Sig::U32, &bytes) {
        Ok(Value::U32(x)) => assert_eq!(x, 0x0102_0304),
        _ => panic!("four bytes must decode as the same number"),
    }
    assert!(matches!(decode_value(Sig::U32, &vec![1, 2, 3]), Err(DecodeError)));
}

#[test]
fn string_codec_round_trip_and_invalid_utf8() {
    let bytes = encode_value(&Value::Str("grüße".to_string()));
    assert_eq!(bytes, "grüße".as_bytes().to_vec());
    match decode_value(Sig::Str, &bytes) {
        Ok(Value::Str(s)) => assert_eq!(s, "grüße"),
        _ => panic!("the bytes must decode back to the same string"),
    }
    // 0xff is never valid UTF-8.
    assert!(matches!(decode_value(Sig::Str, &vec![0xff]), Err(DecodeError)));
    // A unit payload is an empty body and nothing else.
    assert!(matches!(
        decode_value(Sig::Unit, &Vec::new()),
        Ok(Value::Unit)
    ));
    assert!(matches!(decode_value(Sig::Unit, &vec![0]), Err(DecodeError)));
}

#[test]
fn say_hello_round_trip_greets_maria() {
    let mut server = greeter_server();
    let mut client = Connection::new();
    let proxy = Proxy::new(SERVICE, PATH, IFACE);

    let call = proxy
        .call_method(&mut client, "say_hello", &Value::Str("Maria".to_string()))
        .unwrap();
    let out = server.dispatch_call(&call);
    assert_eq!(out.len(), 1);
    match client.accept_reply(&out[0]) {
        minibus::connection::Routed::Resolved { serial, error, sig, body } => {
            assert_eq!(serial, call.serial);
            let reply = Proxy::decode_reply(Sig::Str, error, sig, &body).unwrap();
            match reply {
                Value::Str(s) => assert_eq!(s, "Hello Maria!"),
                _ => panic!("say_hello answers a string"),
            }
        }
        minibus::connection::Routed::Stray => panic!("the reply must resolve the call"),
    }
    assert_eq!(client.pending_len(), 0);
}

#[test]
fn hello_string_formats_exactly() {
    assert_eq!(hello_string("Maria"), "Hello Maria!");
    assert_eq!(hello_string(""), "Hello !");
}

#[test]
fn say_hello_with_wrong_payload_is_an_error_reply() {
    let mut server = greeter_server();
    let mut client = Connection::new();
    let proxy = Proxy::new(SERVICE, PATH, IFACE);
    let call = proxy
        .call_method(&mut client, "say_hello", &Value::U32(4))
        .unwrap();
    let out = server.dispatch_call(&call);
    assert_eq!(out.len(), 1);
    assert_eq!(out[0].kind, MessageKind::Error);
    assert_eq!(out[0].reply_to, Some(call.serial));
}

#[test]
fn unknown_member_is_an_error_reply() {
    let mut server = greeter_server();
    let mut client = Connection::new();
    let proxy = Proxy::new(SERVICE, PATH, IFACE);
    let call = proxy
        .call_method(&mut client, "go_away", &Value::Unit)
        .unwrap();
    let out = server.dispatch_call(&call);
    assert_eq!(out.len(), 1);
    assert_eq!(out[0].kind, MessageKind::Error);
}

#[test]
fn random_number_replies_below_one_hundred() {
    let mut greeter = Greeter;
    for _ in 0..50 {
        let out = greeter.handle_call("random_number", Sig::Unit, &Vec::new());
        match out.reply {
            Ok(Value::U32(k)) => assert!(k < 100),
            _ => panic!("random_number answers a number"),
        }
        assert!(out.signals.is_empty());
    }
}

#[test]
fn generate_random_notify_broadcasts_one_signal() {
    let mut server = greeter_server();
    let mut client = Connection::new();
    let proxy = Proxy::new(SERVICE, PATH, IFACE);
    let sub = proxy.receive_signal(&mut client, "generate_random");

    let call = proxy
        .call_method(&mut client, "generate_random_notify", &Value::Unit)
        .unwrap();
    let out = server.dispatch_call(&call);
    assert_eq!(out.len(), 2);
    assert_eq!(out[0].kind, MessageKind::Signal);
    assert_eq!(out[0].member, "generate_random");
    assert_eq!(out[1].kind, MessageKind::Reply);
    assert_eq!(out[1].reply_to, Some(call.serial));
    deliver_all(out, &mut client);
    assert!(matches!(
        proxy.next_item(&mut client, sub, Sig::Unit),
        NextItem::Item(Value::Unit)
    ));
    assert_eq!(client.pending_len(), 0);
}

#[test]
fn property_set_notifies_watchers_before_the_reply() {
    let mut server = greeter_server();
    server
        .add_property(PATH, IFACE, "greeter_name", Value::Str("first".to_string()))
        .unwrap();
    let mut client = Connection::new();
    let proxy = Proxy::new(SERVICE, PATH, IFACE);
    let watch = proxy.watch_property(&mut client, "greeter_name");

    // A non-unit payload on the property's member is a write.
    let call = proxy
        .call_method(&mut client, "greeter_name", &Value::Str("X".to_string()))
        .unwrap();
    let out = server.dispatch_call(&call);
    assert_eq!(out.len(), 2);
    // Exactly one change signal, and it precedes the write's own reply.
    assert_eq!(out[0].kind, MessageKind::Signal);
    assert_eq!(out[0].member, "greeter_name");
    assert_eq!(out[1].kind, MessageKind::Reply);
    assert_eq!(out[1].reply_to, Some(call.serial));

    deliver_all(out, &mut client);
    // The watcher's first item is the new value.
    match proxy.next_item(&mut client, watch, Sig::Str) {
        NextItem::Item(Value::Str(s)) => assert_eq!(s, "X"),
        _ => panic!("the watcher must see the new value first"),
    }

    // A unit payload on the property's member is a read of the new value.
    let read = proxy
        .call_method(&mut client, "greeter_name", &Value::Unit)
        .unwrap();
    let out = server.dispatch_call(&read);
    assert_eq!(out.len(), 1);
    match client.accept_reply(&out[0]) {
        minibus::connection::Routed::Resolved { error, sig, body, .. } => {
            match Proxy::decode_reply(Sig::Str, error, sig, &body).unwrap() {
                Value::Str(s) => assert_eq!(s, "X"),
                _ => panic!("the property holds a string"),
            }
        }
        minibus::connection::Routed::Stray => panic!("the read must resolve"),
    }
}

#[test]
fn set_property_directly_emits_the_change_signal() {
    let mut server = greeter_server();
    server
        .add_property(PATH, IFACE, "greeter_name", Value::U32(0))
        .unwrap();
    let mut watcher = Connection::new();
    let proxy = Proxy::new(SERVICE, PATH, IFACE);
    let watch = proxy.watch_property(&mut watcher, "greeter_name");

    let signal = server
        .set_property(PATH, IFACE, "greeter_name", Value::U32(41))
        .unwrap();
    assert_eq!(signal.kind, MessageKind::Signal);
    assert_eq!(watcher.accept_signal(&signal), 1);
    assert!(matches!(
        proxy.next_item(&mut watcher, watch, Sig::U32),
        NextItem::Item(Value::U32(41))
    ));
    // Unconditional notification: writing the same value notifies again.
    let again = server
        .set_property(PATH, IFACE, "greeter_name", Value::U32(41))
        .unwrap();
    assert_eq!(watcher.accept_signal(&again), 1);
    match server.get_property(PATH, IFACE, "greeter_name") {
        Ok(Value::U32(x)) => assert_eq!(x, 41),
        _ => panic!("the property holds the last written value"),
    }
    // The change counter moved once per write.
    assert_eq!(server.property_version(PATH, IFACE, "greeter_name"), Ok(2));
    assert_eq!(
        server.property_version(PATH, IFACE, "no_such"),
        Err(minibus::server::RegError::NoSuchProperty)
    );
}

#[test]
fn early_subscriber_sees_all_late_subscriber_sees_later_emissions() {
    let mut server_conn = Connection::new();
    let mut client = Connection::new();
    let proxy = Proxy::new(SERVICE, PATH, IFACE);
    let early = proxy.receive_signal(&mut client, "random_number");

    let mut emit = |value: u32, source: &mut Connection, conn: &mut Connection| {
        let m = source
            .send_signal(
                PATH,
                IFACE,
                "random_number",
                Sig::U32,
                encode_value(&Value::U32(value)),
            )
            .unwrap();
        conn.accept_signal(&m)
    };

    assert_eq!(emit(7, &mut server_conn, &mut client), 1);
    let late = proxy.receive_signal(&mut client, "random_number");
    assert_eq!(emit(42, &mut server_conn, &mut client), 2);
    assert_eq!(emit(13, &mut server_conn, &mut client), 2);

    for expected in [7u32, 42, 13] {
        match proxy.next_item(&mut client, early, Sig::U32) {
            NextItem::Item(Value::U32(v)) => assert_eq!(v, expected),
            _ => panic!("the early subscriber must see every emission in order"),
        }
    }
    assert!(matches!(
        proxy.next_item(&mut client, early, Sig::U32),
        NextItem::Pending
    ));

    for expected in [42u32, 13] {
        match proxy.next_item(&mut client, late, Sig::U32) {
            NextItem::Item(Value::U32(v)) => assert_eq!(v, expected),
            _ => panic!("the late subscriber sees only what came after it"),
        }
    }
    assert!(matches!(
        proxy.next_item(&mut client, late, Sig::U32),
        NextItem::Pending
    ));
}

#[test]
fn property_write_with_undecodable_body_is_an_error_reply() {
    let mut server = greeter_server();
    server
        .add_property(PATH, IFACE, "greeter_name", Value::U32(0))
        .unwrap();
    let mut client = Connection::new();
    // A hand-built call whose body does not decode under its signature.
    let call = client
        .begin_call(PATH, IFACE, "greeter_name", Sig::U32, vec![1, 2, 3])
        .unwrap();
    let out = server.dispatch_call(&call);
    assert_eq!(out.len(), 1);
    assert_eq!(out[0].kind, MessageKind::Error);
    assert_eq!(out[0].reply_to, Some(call.serial));
    // The stored value is untouched.
    assert!(matches!(
        server.get_property(PATH, IFACE, "greeter_name"),
        Ok(Value::U32(0))
    ));
}

#[test]
fn signals_are_delivered_to_each_subscription_independently() {
    let mut client = Connection::new();
    let proxy = Proxy::new(SERVICE, PATH, IFACE);
    let a = proxy.receive_signal(&mut client, "random_number");
    let b = proxy.receive_signal(&mut client, "random_number");
    let m = Message::new_signal(
        1,
        PATH,
        IFACE,
        "random_number",
        Sig::U32,
        encode_value(&Value::U32(5)),
    );
    assert_eq!(client.accept_signal(&m), 2);
    // Pulling one sequence does not consume the other's copy.
    assert!(matches!(
        proxy.next_item(&mut client, a, Sig::U32),
        NextItem::Item(Value::U32(5))
    ));
    assert!(matches!(
        proxy.next_item(&mut client, b, Sig::U32),
        NextItem::Item(Value::U32(5))
    ));
}

#[test]
fn route_inbound_demultiplexes_by_kind() {
    let mut server = greeter_server();
    let mut server_conn = Connection::new();
    let mut client = Connection::new();
    // The client's own (empty) object server: nothing is exposed there.
    let mut client_side: ObjectServer<Greeter> = ObjectServer::new();

    let proxy = Proxy::new(SERVICE, PATH, IFACE);
    let sub = proxy.receive_signal(&mut client, "generate_random");
    let call = proxy
        .call_method(&mut client, "generate_random_notify", &Value::Unit)
        .unwrap();

    // The server's read loop takes the call and answers.
    let out = match route_inbound(&mut server_conn, &mut server, &call) {
        Handled::Outbound(out) => out,
        _ => panic!("a call is dispatched"),
    };
    assert_eq!(out.len(), 2);

    // The client's read loop takes the signal, then the reply.
    match route_inbound(&mut client, &mut client_side, &out[0]) {
        Handled::Delivered(n) => assert_eq!(n, 1),
        _ => panic!("a signal fans out"),
    }
    match route_inbound(&mut client, &mut client_side, &out[1]) {
        Handled::Answer(Routed::Resolved { serial, error, .. }) => {
            assert_eq!(serial, call.serial);
            assert!(!error);
        }
        _ => panic!("the reply resolves the call"),
    }
    assert!(matches!(
        proxy.next_item(&mut client, sub, Sig::Unit),
        NextItem::Item(Value::Unit)
    ));
    assert_eq!(client.pending_len(), 0);
}

#[test]
fn reconnect_is_explicit_and_leaves_old_sequences_exhausted() {
    let mut conn = Connection::new();
    let proxy = Proxy::new(SERVICE, PATH, IFACE);
    let old_sub = proxy.receive_signal(&mut conn, "random_number");
    conn.disconnect();
    assert!(matches!(
        conn.send_signal(PATH, IFACE, "random_number", Sig::Unit, Vec::new()),
        Err(SendError::Disconnected)
    ));
    conn.reconnect();
    assert!(conn.is_connected());
    // The old sequence stays exhausted; a fresh subscription works.
    assert!(matches!(
        proxy.next_item(&mut conn, old_sub, Sig::U32),
        NextItem::Closed
    ));
    let fresh = proxy.receive_signal(&mut conn, "random_number");
    let m = conn
        .send_signal(
            PATH,
            IFACE,
            "random_number",
            Sig::U32,
            encode_value(&Value::U32(3)),
        )
        .unwrap();
    assert_eq!(conn.accept_signal(&m), 1);
    assert!(matches!(
        proxy.next_item(&mut conn, fresh, Sig::U32),
        NextItem::Item(Value::U32(3))
    ));
}
