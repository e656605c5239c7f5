use minibus::connection::{CallError, Connection, Pulled, Routed};
use minibus::greeter::Greeter;
use minibus::msg::MessageKind;
use minibus::registrar::{NameError, NameRegistrar};
use minibus::server::{ObjectServer, RegError};
use minibus::value::{encode_value, Sig, Value};

const PATH: &str = "/org/zbus/MyGreeter";
const IFACE: &str = "org.zbus.MyGreeter1";

#[test]
fn add_object_twice_fails_then_remove_allows_re_add() {
    let mut server: ObjectServer<Greeter> = ObjectServer::new();
    assert_eq!(server.add_object(PATH, IFACE, Greeter), Ok(()));
    assert_eq!(
        server.add_object(PATH, IFACE, Greeter),
        Err(RegError::DuplicateObject)
    );
    assert_eq!(server.objects_len(), 1);
    server.remove_object(PATH, IFACE);
    assert_eq!(server.objects_len(), 0);
    server.remove_object(PATH, IFACE); // idempotent
    assert_eq!(server.add_object(PATH, IFACE, Greeter), Ok(()));
    assert_eq!(server.objects_len(), 1);
}

#[test]
fn replies_resolve_only_their_own_serial() {
    let mut conn = Connection::new();
    let call_a = conn
        .begin_call(PATH, IFACE, "one", Sig::Unit, Vec::new())
        .unwrap();
    let call_b = conn
        .begin_call(PATH, IFACE, "two", Sig::Unit, Vec::new())
        .unwrap();
    assert_ne!(call_a.serial, call_b.serial);
    assert_eq!(conn.pending_len(), 2);

    // The reply to the second call arrives first.
    let reply_b = minibus::msg::Message::new_reply(7, &call_b, Sig::Unit, Vec::new());
    match conn.accept_reply(&reply_b) {
        Routed::Resolved { serial, error, .. } => {
            assert_eq!(serial, call_b.serial);
            assert!(!error);
        }
        Routed::Stray => panic!("reply should resolve the second call"),
    }
    assert_eq!(conn.pending_len(), 1);

    // A duplicate of that reply is a stray now.
    assert!(matches!(conn.accept_reply(&reply_b), Routed::Stray));

    let reply_a = minibus::msg::Message::new_reply(8, &call_a, Sig::Unit, Vec::new());
    match conn.accept_reply(&reply_a) {
        Routed::Resolved { serial, error, .. } => {
            assert_eq!(serial, call_a.serial);
            assert!(!error);
        }
        Routed::Stray => panic!("reply should resolve the first call"),
    }
    assert_eq!(conn.pending_len(), 0);
}

#[test]
fn thousand_subscribe_drop_cycles_do_not_grow_registry() {
    let mut conn = Connection::new();
    let keep = conn.subscribe(PATH, IFACE, "random_number");
    assert_eq!(conn.subs_len(), 1);
    for _ in 0..1000 {
        let id = conn.subscribe(PATH, IFACE, "random_number");
        conn.drop_subscription(id);
        assert_eq!(conn.subs_len(), 1);
    }
    conn.drop_subscription(keep);
    assert_eq!(conn.subs_len(), 0);
}

#[test]
fn unhandled_call_times_out_and_frees_its_slot() {
    let mut server: ObjectServer<Greeter> = ObjectServer::new();
    // Nothing registered at the path: the server answers with nothing.
    let mut conn = Connection::new();
    let before = conn.pending_len();
    let call = conn
        .begin_call(PATH, IFACE, "say_hello", Sig::Unit, Vec::new())
        .unwrap();
    let out = server.dispatch_call(&call);
    assert!(out.is_empty());
    // The caller's bound elapses.
    let err = conn.fail_call_timeout(call.serial);
    assert!(matches!(err, Some(CallError::Timeout)));
    assert_eq!(conn.pending_len(), before);
    // Timing out the same serial again finds nothing.
    assert!(conn.fail_call_timeout(call.serial).is_none());
}

#[test]
fn cancelling_a_pending_call_frees_its_slot() {
    let mut conn = Connection::new();
    let call = conn
        .begin_call(PATH, IFACE, "one", Sig::Unit, Vec::new())
        .unwrap();
    assert_eq!(conn.pending_len(), 1);
    conn.cancel_call(call.serial);
    assert_eq!(conn.pending_len(), 0);
    conn.cancel_call(call.serial); // idempotent
    assert_eq!(conn.pending_len(), 0);
}

#[test]
fn disconnect_fails_pending_calls_and_exhausts_subscriptions() {
    let mut conn = Connection::new();
    let call = conn
        .begin_call(PATH, IFACE, "one", Sig::Unit, Vec::new())
        .unwrap();
    let sub = conn.subscribe(PATH, IFACE, "random_number");
    let sig = minibus::msg::Message::new_signal(
        3,
        PATH,
        IFACE,
        "random_number",
        Sig::U32,
        encode_value(&Value::U32(9)),
    );
    assert_eq!(conn.accept_signal(&sig), 1);

    let failed = conn.disconnect();
    assert_eq!(failed, vec![call.serial]);
    assert_eq!(conn.pending_len(), 0);
    assert!(!conn.is_connected());

    // What was delivered before the loss may still be pulled ...
    match conn.pull(sub) {
        Pulled::Item(s, body) => {
            assert_eq!(s, Sig::U32);
            assert_eq!(body, encode_value(&Value::U32(9)));
        }
        _ => panic!("the delivered item should still be there"),
    }
    // ... and then the sequence is exhausted, not erroring.
    assert!(matches!(conn.pull(sub), Pulled::Exhausted));

    // New calls fail at once.
    assert!(matches!(
        conn.begin_call(PATH, IFACE, "one", Sig::Unit, Vec::new()),
        Err(CallError::Disconnected)
    ));
}

#[test]
fn name_registrar_grants_refuses_and_releases() {
    let mut reg = NameRegistrar::new();
    assert_eq!(reg.request_name(1, "org.zbus.MyGreeter"), Ok(()));
    // Idempotent re-request by the same connection.
    assert_eq!(reg.request_name(1, "org.zbus.MyGreeter"), Ok(()));
    assert_eq!(reg.names_len(), 1);
    // A different connection is refused.
    assert_eq!(
        reg.request_name(2, "org.zbus.MyGreeter"),
        Err(NameError::NameTaken)
    );
    // Release by a non-holder changes nothing.
    reg.release_name(2, "org.zbus.MyGreeter");
    assert_eq!(reg.names_len(), 1);
    // Release by the holder frees the name for others.
    reg.release_name(1, "org.zbus.MyGreeter");
    assert_eq!(reg.names_len(), 0);
    assert_eq!(reg.request_name(2, "org.zbus.MyGreeter"), Ok(()));
}

#[test]
fn stray_reply_is_logged_not_fatal() {
    let mut conn = Connection::new();
    let call = conn
        .begin_call(PATH, IFACE, "one", Sig::Unit, Vec::new())
        .unwrap();
    // Resolve the call, then feed the connection the same reply again: the
    // second resolution attempt finds no pending serial and is a stray.
    let reply = minibus::msg::Message::new_reply(5, &call, Sig::Unit, Vec::new());
    assert!(matches!(
        conn.accept_reply(&reply),
        Routed::Resolved { .. }
    ));
    let stray = minibus::msg::Message::new_error(6, &call, "nope");
    match conn.accept_reply(&stray) {
        Routed::Stray => {}
        _ => panic!("a reply to an unknown serial must be a stray"),
    }
    assert_eq!(conn.pending_len(), 0);
    assert!(conn.is_connected());
}

#[test]
fn error_reply_marks_the_resolution_as_error() {
    let mut conn = Connection::new();
    let call = conn
        .begin_call(PATH, IFACE, "say_hello", Sig::Unit, Vec::new())
        .unwrap();
    let err = minibus::msg::Message::new_error(9, &call, "unknown member");
    match conn.accept_reply(&err) {
        Routed::Resolved { serial, error, sig, body } => {
            assert_eq!(serial, call.serial);
            assert!(error);
            assert_eq!(sig, Sig::Str);
            let text = match minibus::value::decode_value(sig, &body) {
                Ok(Value::Str(t)) => t,
                _ => panic!("error text should decode"),
            };
            assert_eq!(text, "unknown member");
        }
        Routed::Stray => panic!("the error must resolve the call"),
    }
    assert_eq!(err.kind, MessageKind::Error);
}
