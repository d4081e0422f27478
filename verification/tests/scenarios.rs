use lightyear::connection::Connection;
use lightyear::error::Error;
use lightyear::manager::ConnectionManager;
use lightyear::message::{
    Content, Envelope, Message, Ping, Pong, ReplicationMessageData, SyncMessage, TickInput,
};
use lightyear::ping::PingConfig;
use lightyear::target::NetworkTarget;
use lightyear::transport::{ChannelRegistry, PacketMessage, Payload};
use lightyear::types::{
    DEFAULT_CHANNEL, ENTITY_ACTIONS_CHANNEL, ENTITY_UPDATES_CHANNEL, INPUT_CHANNEL, PING_CHANNEL,
};

fn config() -> PingConfig {
    PingConfig { ping_interval: 100 }
}

fn server() -> ConnectionManager {
    ConnectionManager::new(ChannelRegistry::new(0))
}

fn input_payload(tick: u64, inputs: Vec<TickInput>) -> Payload {
    Payload {
        tick,
        messages: vec![PacketMessage {
            channel: INPUT_CHANNEL,
            id: None,
            envelope: Envelope::Message {
                message: Message::Input(inputs),
                target: NetworkTarget::Nobody,
            },
        }],
        acks: vec![],
    }
}

fn user(bytes: Vec<u8>) -> Message {
    Message::User(Content { entities: vec![], bytes })
}

#[test]
fn peer_connects_sends_input_and_disconnects() {
    let mut server = server();
    assert!(server.add(1, &config()));
    assert_eq!(server.len(), 1);
    assert!(server.connection(1).ok().unwrap().events.connected);
    assert_eq!(server.take_new_clients(), vec![1]);

    let payload = input_payload(5, vec![TickInput { tick: 5, input: 42 }]);
    assert_eq!(server.connection_mut(1).ok().unwrap().recv_packet(payload, 0), Ok(5));
    assert_eq!(server.receive(10), Ok(()));

    assert_eq!(server.pop_inputs(5), vec![(Some(42), 1)]);
    assert_eq!(server.pop_inputs(6), vec![(Some(42), 1)]);
    assert_eq!(server.pop_inputs(4), vec![(None, 1)]);

    server.remove(1);
    assert_eq!(server.len(), 0);
    assert_eq!(server.pop_inputs(5), vec![]);
    assert_eq!(server.pop_inputs(6), vec![]);
    let events = server.take_events();
    assert_eq!(events.disconnects, vec![1]);
    assert_eq!(events.events.len(), 1);
    assert_eq!(events.events[0].0, 1);
    assert!(events.events[0].1.connected);
}

#[test]
fn acknowledged_update_is_struck_off_once() {
    let registry = ChannelRegistry::new(0);
    let mut server = Connection::new(&registry, &config());
    let mut client = Connection::new(&registry, &config());
    let group = 77;

    server.replication_sender.prepare(
        ENTITY_UPDATES_CHANNEL,
        group,
        ReplicationMessageData::Updates(vec![1, 2, 3]),
    );
    assert_eq!(server.buffer_replication_messages(10), Ok(()));
    assert_eq!(server.replication_sender.in_flight_len(), 1);
    assert_eq!(server.replication_sender.group_of(0), Some(group));
    assert_eq!(server.replication_sender.acked_clock(group), None);

    server.update(1000, 10);
    let payloads = server.send_packets(1000, 10).unwrap();
    assert_eq!(payloads.len(), 1);
    for p in payloads {
        assert_eq!(client.recv_packet(p, 0), Ok(10));
    }
    let events = client.receive(1001);
    assert_eq!(
        events.replication,
        vec![(group, 10, ReplicationMessageData::Updates(vec![1, 2, 3]))]
    );

    // the peer acknowledges what it got
    client.update(1001, 10);
    let answers = client.send_packets(1001, 10).unwrap();
    assert_eq!(answers.len(), 1);
    assert_eq!(answers[0].acks, vec![0]);
    for p in answers {
        assert_eq!(server.recv_packet(p, 5), Ok(10));
    }
    // the acknowledgment is taken in with the next payload
    assert_eq!(server.replication_sender.in_flight_len(), 1);
    let next = Payload { tick: 10, messages: vec![], acks: vec![] };
    assert_eq!(server.recv_packet(next, 6), Ok(10));
    assert_eq!(server.replication_sender.in_flight_len(), 0);
    assert_eq!(server.replication_sender.group_of(0), None);
    assert_eq!(server.replication_sender.acked_clock(group), Some(6));
}

#[test]
fn pong_carries_the_time_it_left() {
    let registry = ChannelRegistry::new(0);
    let mut a = Connection::new(&registry, &config());
    let mut b = Connection::new(&registry, &config());

    // a sends its first ping at 1000
    a.update(1000, 1);
    let out = a.send_packets(1000, 1).unwrap();
    assert_eq!(out.len(), 1);
    assert_eq!(
        out[0].messages[0].envelope,
        Envelope::Sync(SyncMessage::Ping(Ping { id: 0, send_time: 1000 }))
    );
    assert_eq!(a.ping_manager.pings_in_flight(), 1);

    // b gets it at 1010, and answers at 1030 only
    for p in out {
        assert_eq!(b.recv_packet(p, 0), Ok(1));
    }
    let _ = b.receive(1010);
    assert_eq!(b.ping_manager.pongs_pending(), 1);
    b.update(1030, 2);
    let back = b.send_packets(1030, 2).unwrap();
    assert_eq!(b.ping_manager.pongs_pending(), 0);
    let sync: Vec<&Envelope> = back[0]
        .messages
        .iter()
        .filter(|m| m.channel == PING_CHANNEL)
        .map(|m| &m.envelope)
        .collect();
    assert!(sync.contains(&&Envelope::Sync(SyncMessage::Pong(Pong {
        ping_id: 0,
        pong_sent_time: 1030
    }))));
    assert!(!sync.contains(&&Envelope::Sync(SyncMessage::Pong(Pong {
        ping_id: 0,
        pong_sent_time: 1010
    }))));

    // a gets the pong at 1050: the round trip took 50, and b's clock is 5 ahead of the midpoint
    for p in back {
        assert_eq!(a.recv_packet(p, 0), Ok(2));
    }
    let _ = a.receive(1050);
    assert_eq!(a.ping_manager.rtt(), Some(50));
    assert_eq!(a.ping_manager.offset(), Some(1030 + 25 - 1050));
    assert_eq!(a.ping_manager.pings_in_flight(), 0);
}

#[test]
fn diffs_of_one_group_are_applied_in_the_order_sent() {
    let registry = ChannelRegistry::new(0);
    let mut server = Connection::new(&registry, &config());
    let mut client = Connection::new(&registry, &config());

    server.replication_sender.prepare(ENTITY_ACTIONS_CHANNEL, 1, ReplicationMessageData::Actions(vec![1]));
    server.replication_sender.prepare(ENTITY_UPDATES_CHANNEL, 2, ReplicationMessageData::Updates(vec![2]));
    server.replication_sender.prepare(ENTITY_UPDATES_CHANNEL, 1, ReplicationMessageData::Updates(vec![3]));
    server.replication_sender.prepare(ENTITY_UPDATES_CHANNEL, 2, ReplicationMessageData::Updates(vec![4]));
    server.replication_sender.prepare(ENTITY_ACTIONS_CHANNEL, 1, ReplicationMessageData::Actions(vec![5]));
    assert_eq!(server.buffer_replication_messages(3), Ok(()));
    for p in server.send_packets(0, 3).unwrap() {
        assert_eq!(client.recv_packet(p, 0), Ok(3));
    }
    let events = client.receive(1);
    let of_group = |g: u64| -> Vec<ReplicationMessageData> {
        events
            .replication
            .iter()
            .filter(|d| d.0 == g)
            .map(|d| match &d.2 {
                ReplicationMessageData::Actions(b) => ReplicationMessageData::Actions(b.clone()),
                ReplicationMessageData::Updates(b) => ReplicationMessageData::Updates(b.clone()),
            })
            .collect()
    };
    assert_eq!(
        of_group(1),
        vec![
            ReplicationMessageData::Actions(vec![1]),
            ReplicationMessageData::Updates(vec![3]),
            ReplicationMessageData::Actions(vec![5]),
        ]
    );
    assert_eq!(
        of_group(2),
        vec![ReplicationMessageData::Updates(vec![2]), ReplicationMessageData::Updates(vec![4])]
    );
    assert_eq!(events.replication.len(), 5);
    // only the three diffs that carry values are tracked
    assert_eq!(server.replication_sender.in_flight_len(), 3);
    assert_eq!(server.replication_sender.group_of(0), None);
    assert_eq!(server.replication_sender.group_of(1), Some(2));
    assert_eq!(server.replication_sender.group_of(2), Some(1));
    assert_eq!(server.replication_sender.group_of(3), Some(2));
    assert_eq!(server.replication_sender.group_of(4), None);
}

#[test]
fn message_with_a_target_is_passed_on_to_the_peers_it_names() {
    let mut server = server();
    server.add(1, &config());
    server.add(2, &config());
    server.add(3, &config());

    let from_one = Payload {
        tick: 4,
        messages: vec![
            PacketMessage {
                channel: DEFAULT_CHANNEL,
                id: None,
                envelope: Envelope::Message {
                    message: user(vec![9]),
                    target: NetworkTarget::AllExceptSingle(1),
                },
            },
            PacketMessage {
                channel: DEFAULT_CHANNEL,
                id: None,
                envelope: Envelope::Message { message: user(vec![8]), target: NetworkTarget::Nobody },
            },
        ],
        acks: vec![],
    };
    assert_eq!(server.connection_mut(1).ok().unwrap().recv_packet(from_one, 0), Ok(4));
    assert_eq!(server.receive(0), Ok(()));

    // the message for nobody is reported, and not passed on
    let events = server.take_events();
    let of_one: Vec<_> = events.events.iter().filter(|e| e.0 == 1).collect();
    assert_eq!(of_one.len(), 1);
    assert_eq!(of_one[0].1.messages, vec![(DEFAULT_CHANNEL, user(vec![8]))]);

    let expected = Payload {
        tick: 5,
        messages: vec![PacketMessage {
            channel: DEFAULT_CHANNEL,
            id: None,
            envelope: Envelope::Message { message: user(vec![9]), target: NetworkTarget::Nobody },
        }],
        acks: vec![],
    };
    // pings are kept out of the way: the transport is asked directly
    let to_one = server.connection_mut(1).ok().unwrap().message_manager.send_packets(5);
    let to_two = server.connection_mut(2).ok().unwrap().message_manager.send_packets(5);
    let to_three = server.connection_mut(3).ok().unwrap().message_manager.send_packets(5);
    assert_eq!(to_one, vec![]);
    assert_eq!(to_two, vec![Payload { tick: 5, messages: expected.messages, acks: vec![] }]);
    assert_eq!(to_three.len(), 1);
    assert_eq!(to_three[0].messages.len(), 1);
    assert!(server.connection(1).ok().unwrap().messages_to_rebroadcast.is_empty());
}

#[test]
fn replication_on_a_channel_without_identifiers_is_a_fault() {
    let registry = ChannelRegistry::new(0);
    let mut server = Connection::new(&registry, &config());
    server.replication_sender.prepare(DEFAULT_CHANNEL, 1, ReplicationMessageData::Updates(vec![1]));
    server.replication_sender.prepare(ENTITY_UPDATES_CHANNEL, 1, ReplicationMessageData::Updates(vec![2]));
    let r = server.buffer_replication_messages(1);
    assert_eq!(r, Err(Error::InvariantViolation(DEFAULT_CHANNEL)));
    assert!(r.unwrap_err().is_fatal());
    // nothing was tracked, and the diff after the fault was not sent
    assert_eq!(server.replication_sender.in_flight_len(), 0);
    assert_eq!(server.replication_sender.pending_len(), 0);
    let out = server.message_manager.send_packets(1);
    assert_eq!(out[0].messages.len(), 1);
}
