use q2::buffer::{Buffer, Message, MessageContents, Role};
use q2::database::{load_core, Store};
use q2::network::Configuration;

fn info(text: &str) -> Message {
    Message::now(MessageContents::Information(text.to_string()))
}

#[test]
fn message_ids_strictly_increase() {
    let mut store = Store::open();
    let buf = store.create_buffer(1, Role::Status);
    let m1 = store.create_message(buf.id, info("one"));
    let m2 = store.create_message(buf.id, info("two"));
    let m3 = store.create_message(buf.id, info("three"));
    assert!(m1.id < m2.id);
    assert!(m2.id < m3.id);
}

#[test]
fn fetch_latest_is_newest_first() {
    let mut store = Store::open();
    let buf = store.create_buffer(1, Role::Status);
    for t in ["a", "b", "c"] {
        store.create_message(buf.id, info(t));
    }
    let latest = store.fetch_latest_messages(buf.id, 2);
    assert_eq!(latest.len(), 2);
    assert_eq!(latest[0].contents, MessageContents::Information("c".to_string()));
    assert_eq!(latest[1].contents, MessageContents::Information("b".to_string()));
    assert!(latest[0].id > latest[1].id);
}

#[test]
fn paging_windows_are_disjoint_and_ordered() {
    let mut store = Store::open();
    let buf = store.create_buffer(1, Role::Status);
    for t in ["a", "b", "c", "d", "e"] {
        store.create_message(buf.id, info(t));
    }
    let latest = store.fetch_latest_messages(buf.id, 2);
    let cut = latest.last().unwrap().id;
    let older = store.fetch_messages_before(buf.id, cut, 2);
    assert_eq!(older.len(), 2);
    for o in &older {
        for l in &latest {
            assert!(o.id < l.id);
        }
    }
    assert!(older[0].id > older[1].id);
    assert_eq!(older[0].contents, MessageContents::Information("c".to_string()));
    assert_eq!(older[1].contents, MessageContents::Information("b".to_string()));
}

#[test]
fn fetch_skips_other_buffers() {
    let mut store = Store::open();
    let one = store.create_buffer(1, Role::Status);
    let two = store.create_buffer(1, Role::Channel("#a".to_string()));
    store.create_message(one.id, info("mine"));
    store.create_message(two.id, info("other"));
    let latest = store.fetch_latest_messages(one.id, 10);
    assert_eq!(latest.len(), 1);
    assert_eq!(latest[0].contents, MessageContents::Information("mine".to_string()));
}

#[test]
fn buffer_handle_appends_and_pages() {
    let mut store = Store::open();
    let mut buf: Buffer = store.create_buffer(7, Role::Query("alice".to_string()));
    assert_eq!(buf.stored_messages, 0);
    let stored = buf.add(&mut store, info("hello"));
    assert_eq!(buf.stored_messages, 1);
    assert_eq!(stored.contents, MessageContents::Information("hello".to_string()));
    let fetched = buf.fetch_message_range(&store, 5, None);
    assert_eq!(fetched.len(), 1);
    assert_eq!(fetched[0].id, stored.id);
    let none_older = buf.fetch_message_range(&store, 5, Some(stored.id));
    assert!(none_older.is_empty());
}

#[test]
fn bootstrap_seeds_one_session_and_network() {
    let mut store = Store::open();
    store.bootstrap();
    assert_eq!(store.sessions.len(), 1);
    assert_eq!(store.networks.len(), 1);
    assert_eq!(store.networks[0].session_id, store.sessions[0]);
    assert!(store.networks[0].server.is_none());
    // A second bootstrap changes nothing.
    let before = store.networks[0].id;
    store.bootstrap();
    assert_eq!(store.sessions.len(), 1);
    assert_eq!(store.networks[0].id, before);
}

#[test]
fn configuration_update_reaches_the_row() {
    let mut store = Store::open();
    store.bootstrap();
    let nid = store.networks[0].id;
    let cfg = Configuration { server: "irc.example.com:6667".to_string(), nickname: "bob".to_string() };
    store.update_network_configuration(nid, &cfg);
    assert_eq!(store.networks[0].server, Some("irc.example.com:6667".to_string()));
    assert_eq!(store.networks[0].nickname, Some("bob".to_string()));
    // An unknown id changes nothing.
    store.update_network_configuration(nid + 100, &cfg);
    assert_eq!(store.networks.len(), 1);
}

#[test]
fn load_core_rebuilds_sessions_networks_buffers() {
    let mut store = Store::open();
    store.bootstrap();
    let sid = store.sessions[0];
    let nid = store.networks[0].id;
    let cfg = Configuration { server: "irc.example.com:6667".to_string(), nickname: "bob".to_string() };
    store.update_network_configuration(nid, &cfg);
    store.create_buffer(nid, Role::Status);
    store.create_buffer(nid, Role::Channel("#chan".to_string()));

    let rc = load_core(&store);
    assert_eq!(rc.sessions.len(), 1);
    assert_eq!(rc.sessions[0].0, sid);
    let session = &rc.sessions[0].1.session;
    assert_eq!(session.networks.len(), 1);
    let network = &session.networks[0];
    assert_eq!(network.id, nid);
    assert_eq!(
        network.config,
        Some(Configuration { server: "irc.example.com:6667".to_string(), nickname: "bob".to_string() })
    );
    assert_eq!(network.buffers.len(), 2);
    assert_eq!(network.buffers[0].role, Role::Status);
    assert_eq!(network.buffers[1].role, Role::Channel("#chan".to_string()));
    assert!(rc.remotes.is_empty());
}

#[test]
fn message_now_starts_unstored() {
    let m = Message::now(MessageContents::Join("WiZ".to_string()));
    assert_eq!(m.id, 0);
    assert_eq!(m.contents, MessageContents::Join("WiZ".to_string()));
}
