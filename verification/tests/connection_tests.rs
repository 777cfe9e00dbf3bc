use cnctd_server::json::JsonValue;
use cnctd_server::socket::connection::{CnctdConnection, ConnectionError, ConnectionFormat, ConnectionMap};
use cnctd_server::socket::{CnctdSocket, ConnectionChoice};
use cnctd_server::socket::connection::QueryParams;

type Conn = CnctdConnection<String>;

fn s(t: &str) -> String {
    t.to_string()
}

fn sorted(mut v: Vec<String>) -> Vec<String> {
    v.sort();
    v
}

#[test]
fn format_from_name() {
    assert_eq!(ConnectionFormat::from_str_opt(Some("binary")), ConnectionFormat::Binary);
    assert_eq!(ConnectionFormat::from_str_opt(Some("json")), ConnectionFormat::Json);
    assert_eq!(ConnectionFormat::from_str_opt(Some("Binary")), ConnectionFormat::Json);
    assert_eq!(ConnectionFormat::from_str_opt(None), ConnectionFormat::Json);
    assert_eq!(ConnectionFormat::default(), ConnectionFormat::Json);
}

#[test]
fn new_connection_is_fresh() {
    let c: Conn = CnctdConnection::new(vec![s("news")], Some(s("1.2.3.4")), ConnectionFormat::Binary);
    assert_eq!(c.user_id, "");
    assert!(!c.authenticated);
    assert_eq!(c.subscriptions, vec![s("news")]);
    assert_eq!(c.ip_address.as_deref(), Some("1.2.3.4"));
    assert_eq!(c.format, ConnectionFormat::Binary);
    assert!(c.sender.is_none());
    assert_eq!(c.data, JsonValue::Object(vec![]));
}

#[test]
fn register_then_get() {
    let mut m: ConnectionMap<String> = ConnectionMap::new();
    let a = CnctdConnection::register_connection(&mut m, vec![s("a")], None);
    let b = CnctdConnection::register_connection_with_format(&mut m, vec![], None, ConnectionFormat::Binary);
    assert_ne!(a, b);
    assert_eq!(a.len(), 36);
    assert_eq!(m.len(), 2);
    assert!(m.contains(&a));
    let c = CnctdConnection::get_connection(&m, &b).unwrap();
    assert_eq!(c.format, ConnectionFormat::Binary);
    assert_eq!(CnctdConnection::get_connection(&m, "nope").unwrap_err(), ConnectionError::NoMatchingConnection);
    assert_eq!(CnctdConnection::get_data(&m, "nope").unwrap_err(), ConnectionError::ConnectionNotFound);
}

#[test]
fn data_fields() {
    let mut m: ConnectionMap<String> = ConnectionMap::new();
    let id = CnctdConnection::register_connection(&mut m, vec![], None);
    CnctdConnection::update_data_field(&mut m, &id, "room", JsonValue::String(s("blue"))).unwrap();
    assert_eq!(CnctdConnection::get_data_field(&m, &id, "room").unwrap(), JsonValue::String(s("blue")));
    assert_eq!(CnctdConnection::get_data_field(&m, &id, "floor").unwrap_err(), ConnectionError::KeyNotFound);
    CnctdConnection::remove_data_field(&mut m, &id, "room").unwrap();
    assert_eq!(CnctdConnection::get_data_field(&m, &id, "room").unwrap_err(), ConnectionError::KeyNotFound);
    CnctdConnection::add_data(&mut m, &id, JsonValue::Array(vec![]));
    assert_eq!(CnctdConnection::get_data(&m, &id).unwrap(), JsonValue::Array(vec![]));
    assert_eq!(
        CnctdConnection::update_data_field(&mut m, &id, "k", JsonValue::Null).unwrap_err(),
        ConnectionError::DataNotObject
    );
    assert_eq!(CnctdConnection::remove_data_field(&mut m, &id, "k").unwrap_err(), ConnectionError::DataNotObject);
    assert_eq!(CnctdConnection::get_data_field(&m, &id, "k").unwrap_err(), ConnectionError::DataNotObject);
    assert!(CnctdConnection::update_data_field(&mut m, "nope", "k", JsonValue::Null).is_ok());
}

#[test]
fn key_value_checks() {
    let mut m: ConnectionMap<String> = ConnectionMap::new();
    let id = CnctdConnection::register_connection(&mut m, vec![], None);
    let list = JsonValue::Array(vec![JsonValue::String(s("a")), JsonValue::String(s("b"))]);
    CnctdConnection::update_data_field(&mut m, &id, "roles", list).unwrap();
    CnctdConnection::update_data_field(&mut m, &id, "team", JsonValue::String(s("red"))).unwrap();
    assert_eq!(CnctdConnection::check_key_value_pair(&m, &id, "roles", "b"), Ok(true));
    assert_eq!(CnctdConnection::check_key_value_pair(&m, &id, "roles", "c"), Ok(false));
    assert_eq!(CnctdConnection::check_key_value_pair(&m, &id, "missing", "c"), Ok(false));
    assert_eq!(CnctdConnection::check_key_value_pair(&m, "nope", "roles", "a"), Ok(false));
    assert_eq!(
        CnctdConnection::check_key_value_pair(&m, &id, "team", "red"),
        Err(ConnectionError::NotAStringList)
    );
    assert!(CnctdConnection::check_if_any_kvp_matches(&m, &id, "team", vec![s("blue"), s("red")]));
    assert!(!CnctdConnection::check_if_any_kvp_matches(&m, &id, "team", vec![s("blue")]));
    assert!(!CnctdConnection::check_if_any_kvp_matches(&m, &id, "roles", vec![s("a")]));
    let other = CnctdConnection::register_connection(&mut m, vec![], None);
    CnctdConnection::update_data_field(&mut m, &other, "team", JsonValue::String(s("blue"))).unwrap();
    assert_eq!(CnctdConnection::get_key_value_owner_ids(&m, "team", "red"), vec![id.clone()]);
    assert_eq!(CnctdConnection::get_key_value_owner_ids(&m, "team", "blue"), vec![other]);
    assert!(CnctdConnection::get_key_value_owner_ids(&m, "roles", "a").is_empty());
}

#[test]
fn subscriptions() {
    let mut m: ConnectionMap<String> = ConnectionMap::new();
    let id = CnctdConnection::register_connection(&mut m, vec![s("a")], None);
    CnctdConnection::add_subscription(&mut m, &id, "b");
    CnctdConnection::add_subscription(&mut m, &id, "b");
    assert_eq!(CnctdConnection::get_connection(&m, &id).unwrap().subscriptions, vec![s("a"), s("b")]);
    CnctdConnection::add_multiple_subscriptions(&mut m, &id, vec![s("c"), s("a"), s("d"), s("c")]);
    assert_eq!(
        CnctdConnection::get_connection(&m, &id).unwrap().subscriptions,
        vec![s("a"), s("b"), s("c"), s("d")]
    );
    CnctdConnection::remove_subscription(&mut m, &id, "b");
    CnctdConnection::remove_multiple_subscriptions(&mut m, &id, vec![s("a"), s("x")]);
    assert_eq!(CnctdConnection::get_connection(&m, &id).unwrap().subscriptions, vec![s("c"), s("d")]);
    let other = CnctdConnection::register_connection(&mut m, vec![s("d")], None);
    assert_eq!(
        sorted(CnctdConnection::get_subscriber_connection_ids(&m, "d")),
        sorted(vec![id.clone(), other.clone()])
    );
    assert_eq!(CnctdConnection::get_subscriber_connection_ids(&m, "c"), vec![id.clone()]);
    let subs = CnctdConnection::get_subscriber_connections(&m, "c");
    assert_eq!(subs, vec![(id, ConnectionFormat::Json)]);
}

#[test]
fn users_and_infos() {
    let mut m: ConnectionMap<String> = ConnectionMap::new();
    let a = CnctdConnection::register_connection(&mut m, vec![], Some(s("10.0.0.1")));
    let b = CnctdConnection::register_connection(&mut m, vec![], None);
    let c = CnctdConnection::register_connection(&mut m, vec![], None);
    let info = CnctdConnection::update_user_id(&mut m, &a, "u1", s("srv"), s("sess")).unwrap();
    assert_eq!(info.connection_id, a);
    assert_eq!(info.user_id, "u1");
    assert_eq!(info.server_id, "srv");
    assert_eq!(info.ip_address.as_deref(), Some("10.0.0.1"));
    assert!(!info.connected);
    CnctdConnection::update_user_id(&mut m, &b, "u1", s("srv"), s("sess")).unwrap();
    CnctdConnection::update_user_id(&mut m, &c, "u2", s("srv"), s("sess")).unwrap();
    assert_eq!(
        CnctdConnection::update_user_id(&mut m, "nope", "u", s("srv"), s("sess")).unwrap_err(),
        ConnectionError::ConnectionNotFound
    );
    assert_eq!(sorted(CnctdConnection::get_connection_ids(&m, "u1")), sorted(vec![a.clone(), b.clone()]));
    assert_eq!(CnctdConnection::get_connection_ids(&m, "u2"), vec![c.clone()]);
    assert!(CnctdConnection::get_connection_ids(&m, "u3").is_empty());
    CnctdConnection::update_authenticated(&mut m, &b, true);
    let info = CnctdConnection::get_connection_info(&m, &b, s("srv"), s("sess")).unwrap();
    assert!(info.authenticated);
    assert_eq!(info.server_session_id, "sess");
    let infos = CnctdConnection::get_connection_infos(&m, s("srv"), s("sess"));
    assert_eq!(sorted(infos.iter().map(|i| i.connection_id.clone()).collect()), sorted(vec![a, b, c]));
    let copy = CnctdConnection::get_connections(&m);
    assert_eq!(copy.len(), 3);
}

#[test]
fn removal_keeps_open_sockets() {
    let mut m: ConnectionMap<String> = ConnectionMap::new();
    let idle = CnctdConnection::register_connection(&mut m, vec![], None);
    let open = CnctdConnection::register_connection(&mut m, vec![], None);
    let closed = CnctdConnection::register_connection(&mut m, vec![], None);
    let (tx_open, _rx_open) = tokio::sync::mpsc::unbounded_channel::<String>();
    let (tx_closed, rx_closed) = tokio::sync::mpsc::unbounded_channel::<String>();
    assert!(CnctdConnection::set_sender(&mut m, &open, tx_open));
    assert!(CnctdConnection::set_sender(&mut m, &closed, tx_closed));
    assert!(!CnctdConnection::set_sender(&mut m, "nope", tokio::sync::mpsc::unbounded_channel::<String>().0));
    drop(rx_closed);
    CnctdSocket::remove_connection(&mut m, &idle);
    CnctdSocket::remove_connection(&mut m, &open);
    CnctdSocket::remove_connection(&mut m, &closed);
    CnctdSocket::remove_connection(&mut m, "nope");
    assert!(!m.contains(&idle));
    assert!(m.contains(&open));
    assert!(!m.contains(&closed));
    assert_eq!(m.len(), 1);
    assert!(CnctdConnection::get_connection_info(&m, &open, s("s"), s("t")).unwrap().connected);
}

#[test]
fn inline_subscription_lists() {
    assert_eq!(CnctdSocket::parse_subscriptions("a, b ,,c,  "), vec![s("a"), s("b"), s("c")]);
    assert!(CnctdSocket::parse_subscriptions("").is_empty());
    assert_eq!(CnctdSocket::parse_subscriptions("news"), vec![s("news")]);
}

#[test]
fn map_insert_and_remove() {
    let mut m: ConnectionMap<String> = ConnectionMap::new();
    m.insert(s("x"), CnctdConnection::new(vec![], None, ConnectionFormat::Json));
    m.insert(s("x"), CnctdConnection::new(vec![s("z")], None, ConnectionFormat::Json));
    assert_eq!(m.len(), 1);
    assert_eq!(m.get("x").unwrap().subscriptions, vec![s("z")]);
    m.remove("x");
    assert!(m.get("x").is_none());
    assert_eq!(m.len(), 0);
}

#[test]
fn stale_connections_are_removed() {
    let mut m: ConnectionMap<String> = ConnectionMap::new();
    let idle = CnctdConnection::register_connection(&mut m, vec![], None);
    let open = CnctdConnection::register_connection(&mut m, vec![], None);
    let (tx, _rx) = tokio::sync::mpsc::unbounded_channel::<String>();
    assert!(CnctdConnection::set_sender(&mut m, &open, tx));
    CnctdSocket::remove_if_stale(&mut m, &open, false);
    assert!(m.contains(&open));
    CnctdSocket::remove_if_stale(&mut m, &idle, false);
    assert!(!m.contains(&idle));
    CnctdSocket::remove_if_stale(&mut m, &open, true);
    assert!(!m.contains(&open));
    CnctdSocket::remove_if_stale(&mut m, "nope", true);
    assert_eq!(m.len(), 0);
}

#[test]
fn reconnect_replaces_sender() {
    let mut m: ConnectionMap<String> = ConnectionMap::new();
    let id = CnctdConnection::register_connection(&mut m, vec![], None);
    let (old_tx, old_rx) = tokio::sync::mpsc::unbounded_channel::<String>();
    assert!(CnctdConnection::set_sender(&mut m, &id, old_tx));
    drop(old_rx);
    let (new_tx, mut new_rx) = tokio::sync::mpsc::unbounded_channel::<String>();
    assert!(CnctdConnection::set_sender(&mut m, &id, new_tx));
    let sender = m.get(&id).unwrap().sender.as_ref().unwrap();
    assert!(!sender.is_closed());
    sender.send(s("hello")).unwrap();
    assert_eq!(new_rx.try_recv().unwrap(), "hello");
}

#[test]
fn excluded_recipient_is_left_out() {
    let ids = vec![s("a"), s("b"), s("c"), s("b")];
    assert_eq!(CnctdSocket::without_id(ids.clone(), Some("b")), vec![s("a"), s("c")]);
    assert_eq!(CnctdSocket::without_id(ids.clone(), None), ids);
    assert_eq!(CnctdSocket::without_id(vec![], Some("a")), Vec::<String>::new());
}

fn params(id: Option<&str>, subs: Option<&str>, format: Option<&str>) -> QueryParams {
    QueryParams {
        connection_id: id.map(s),
        subscriptions: subs.map(s),
        format: format.map(s),
    }
}

#[test]
fn socket_request_choices() {
    match CnctdSocket::choose_connection(params(Some("c1"), Some("a"), None)) {
        ConnectionChoice::Existing(id) => assert_eq!(id, "c1"),
        other => panic!("unexpected {:?}", other),
    }
    match CnctdSocket::choose_connection(params(None, Some("a, b"), Some("binary"))) {
        ConnectionChoice::Register(subs, format) => {
            assert_eq!(subs, vec![s("a"), s("b")]);
            assert_eq!(format, ConnectionFormat::Binary);
        }
        other => panic!("unexpected {:?}", other),
    }
    match CnctdSocket::choose_connection(params(None, Some(""), None)) {
        ConnectionChoice::Register(subs, format) => {
            assert!(subs.is_empty());
            assert_eq!(format, ConnectionFormat::Json);
        }
        other => panic!("unexpected {:?}", other),
    }
    assert!(matches!(CnctdSocket::choose_connection(params(None, None, Some("binary"))), ConnectionChoice::Reject));
}

#[test]
fn multiple_subscriptions_append_new_channels_once() {
    let mut m: ConnectionMap<String> = ConnectionMap::new();
    let id = CnctdConnection::register_connection(&mut m, vec![s("a"), s("b")], None);
    CnctdConnection::add_multiple_subscriptions(&mut m, &id, vec![s("c"), s("a"), s("d"), s("c")]);
    assert_eq!(m.get(&id).unwrap().subscriptions, vec![s("a"), s("b"), s("c"), s("d")]);
}

#[test]
fn registered_ids_are_uuid_v4_text() {
    let mut m: ConnectionMap<String> = ConnectionMap::new();
    let id = CnctdConnection::register_connection(&mut m, vec![], None);
    let chars: Vec<char> = id.chars().collect();
    assert_eq!(chars.len(), 36);
    for (i, c) in chars.iter().enumerate() {
        if i == 8 || i == 13 || i == 18 || i == 23 {
            assert_eq!(*c, '-');
        } else {
            assert!(c.is_ascii_digit() || ('a'..='f').contains(c));
        }
    }
    assert_eq!(chars[14], '4');
    assert!(['8', '9', 'a', 'b'].contains(&chars[19]));
}

#[test]
fn copied_connection_sends_on_the_same_channel() {
    let mut m: ConnectionMap<String> = ConnectionMap::new();
    let id = CnctdConnection::register_connection(&mut m, vec![], None);
    let (tx, mut rx) = tokio::sync::mpsc::unbounded_channel::<String>();
    assert!(CnctdConnection::set_sender(&mut m, &id, tx));
    let copy = CnctdConnection::get_connection(&m, &id).unwrap();
    copy.sender.as_ref().unwrap().send(s("via copy")).unwrap();
    assert_eq!(rx.try_recv().unwrap(), "via copy");
}
