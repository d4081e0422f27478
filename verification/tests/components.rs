use lightyear::connection::Connection;
use lightyear::entity_map::EntityMap;
use lightyear::error::Error;
use lightyear::events::{ConnectionEvents, ServerEvents};
use lightyear::input_buffer::InputBuffer;
use lightyear::message::{
    Content, Envelope, InputMessageKind, Message, Ping, Pong, ReplicationMessageData, SyncMessage,
    TickInput,
};
use lightyear::ping::{PingConfig, PingManager};
use lightyear::replication::{ReplicationReceiver, ReplicationSender};
use lightyear::target::NetworkTarget;
use lightyear::transport::{
    ChannelRegistry, ChannelSettings, MessageManager, PacketMessage, Payload,
};
use lightyear::types::{
    DEFAULT_CHANNEL, ENTITY_ACTIONS_CHANNEL, ENTITY_UPDATES_CHANNEL, INPUT_CHANNEL, PING_CHANNEL,
};

fn ping_envelope(id: u64, send_time: u64) -> Envelope {
    Envelope::Sync(SyncMessage::Ping(Ping { id, send_time }))
}

fn one(channel: u64, id: Option<u64>, envelope: Envelope) -> PacketMessage {
    PacketMessage { channel, id, envelope }
}

#[test]
fn input_buffer_falls_back_to_the_nearest_earlier_tick() {
    let mut b = InputBuffer::new();
    assert_eq!(b.get_or_last(0), None);
    assert_eq!(b.get_or_last(u64::MAX), None);
    b.set(10, 100);
    assert_eq!(b.get_or_last(9), None);
    assert_eq!(b.get_or_last(10), Some(100));
    assert_eq!(b.get_or_last(11), Some(100));
    b.set(20, 200);
    assert_eq!(b.get_or_last(19), Some(100));
    assert_eq!(b.get_or_last(20), Some(200));
    assert_eq!(b.get_or_last(u64::MAX), Some(200));
    assert_eq!(b.get(15), None);
    assert_eq!(b.get(20), Some(200));
    assert_eq!(b.len(), 2);
}

#[test]
fn input_buffer_takes_inputs_in_any_order() {
    let mut in_order = InputBuffer::new();
    let mut shuffled = InputBuffer::new();
    for (t, v) in [(1u64, 11u64), (2, 12), (5, 15), (9, 19)] {
        in_order.set(t, v);
    }
    for (t, v) in [(9u64, 19u64), (1, 11), (5, 15), (2, 12)] {
        shuffled.set(t, v);
    }
    for tick in 0..12u64 {
        assert_eq!(in_order.get_or_last(tick), shuffled.get_or_last(tick));
        assert_eq!(in_order.get(tick), shuffled.get(tick));
    }
    assert_eq!(shuffled.get_or_last(0), None);
    assert_eq!(shuffled.get_or_last(4), Some(12));
    assert_eq!(shuffled.get_or_last(8), Some(15));
    assert_eq!(shuffled.len(), 4);
}

#[test]
fn input_buffer_later_arrival_replaces_the_input_of_a_tick() {
    let mut b = InputBuffer::new();
    b.set(3, 1);
    b.set(3, 2);
    assert_eq!(b.get(3), Some(2));
    assert_eq!(b.len(), 1);
    b.update_from_message(&vec![
        TickInput { tick: 4, input: 7 },
        TickInput { tick: 2, input: 5 },
        TickInput { tick: 4, input: 8 },
    ]);
    assert_eq!(b.get(4), Some(8));
    assert_eq!(b.get(2), Some(5));
    assert_eq!(b.get(3), Some(2));
    assert_eq!(b.len(), 3);
}

#[test]
fn ping_is_due_at_once_and_then_after_each_interval() {
    let mut p = PingManager::new(&PingConfig { ping_interval: 100 });
    assert_eq!(p.maybe_prepare_ping(7), Some(Ping { id: 0, send_time: 7 }));
    assert_eq!(p.maybe_prepare_ping(8), None);
    p.update(106);
    assert_eq!(p.maybe_prepare_ping(106), None);
    p.update(107);
    assert_eq!(p.maybe_prepare_ping(110), Some(Ping { id: 1, send_time: 110 }));
    // the interval counts from the time the ping left
    p.update(209);
    assert_eq!(p.maybe_prepare_ping(209), None);
    p.update(210);
    assert_eq!(p.maybe_prepare_ping(210), Some(Ping { id: 2, send_time: 210 }));
    assert_eq!(p.pings_in_flight(), 3);
}

#[test]
fn pong_measures_round_trip_and_offset() {
    let mut p = PingManager::new(&PingConfig { ping_interval: 100 });
    assert_eq!(p.rtt(), None);
    assert_eq!(p.offset(), None);
    let ping = p.maybe_prepare_ping(1000).unwrap();
    // a pong for a ping that was never sent changes nothing
    p.process_pong(&Pong { ping_id: 5, pong_sent_time: 1 }, 1010);
    assert_eq!(p.rtt(), None);
    assert_eq!(p.pings_in_flight(), 1);
    p.process_pong(&Pong { ping_id: ping.id, pong_sent_time: 400 }, 1031);
    assert_eq!(p.rtt(), Some(31));
    assert_eq!(p.offset(), Some(400 + 15 - 1031));
    assert_eq!(p.pings_in_flight(), 0);
    // the same pong again answers nothing
    p.process_pong(&Pong { ping_id: ping.id, pong_sent_time: 400 }, 2000);
    assert_eq!(p.rtt(), Some(31));
}

#[test]
fn pong_that_arrives_before_its_ping_left_counts_as_no_time() {
    let mut p = PingManager::new(&PingConfig { ping_interval: 0 });
    let ping = p.maybe_prepare_ping(1000).unwrap();
    p.process_pong(&Pong { ping_id: ping.id, pong_sent_time: u64::MAX }, 900);
    assert_eq!(p.rtt(), Some(0));
    assert_eq!(p.offset(), Some(u64::MAX as i128 - 900));
}

#[test]
fn pending_pongs_are_taken_once() {
    let mut p = PingManager::new(&PingConfig { ping_interval: 100 });
    p.buffer_pending_pong(&Ping { id: 4, send_time: 1 }, 50);
    p.buffer_pending_pong(&Ping { id: 6, send_time: 2 }, 60);
    assert_eq!(p.pongs_pending(), 2);
    assert_eq!(
        p.take_pending_pongs(),
        vec![Pong { ping_id: 4, pong_sent_time: 50 }, Pong { ping_id: 6, pong_sent_time: 60 }]
    );
    assert_eq!(p.take_pending_pongs(), vec![]);
}

#[test]
fn registry_holds_the_built_in_channels() {
    let mut r = ChannelRegistry::new(16);
    assert_eq!(r.len(), 5);
    assert_eq!(r.send_interval(), 16);
    assert_eq!(r.name(PING_CHANNEL), Some("ping"));
    assert_eq!(r.name(ENTITY_UPDATES_CHANNEL), Some("entity_updates"));
    assert_eq!(r.name(77), None);
    assert!(r.get(ENTITY_UPDATES_CHANNEL).unwrap().tracks_delivery);
    assert!(r.get(ENTITY_ACTIONS_CHANNEL).unwrap().tracks_delivery);
    assert!(!r.get(INPUT_CHANNEL).unwrap().tracks_delivery);
    assert!(r.add(ChannelSettings { kind: 77, name: "chat", tracks_delivery: true }));
    assert!(!r.add(ChannelSettings { kind: 77, name: "other", tracks_delivery: false }));
    assert_eq!(r.name(77), Some("chat"));
    assert_eq!(r.len(), 6);
    assert_eq!(ChannelRegistry::empty(1).len(), 0);
}

#[test]
fn transport_gives_identifiers_on_tracked_channels_only() {
    let mut t = MessageManager::new(&ChannelRegistry::new(0));
    assert_eq!(t.buffer_send(ping_envelope(0, 0), PING_CHANNEL), Ok(None));
    assert_eq!(t.buffer_send(ping_envelope(1, 0), ENTITY_UPDATES_CHANNEL), Ok(Some(0)));
    assert_eq!(t.buffer_send(ping_envelope(2, 0), ENTITY_ACTIONS_CHANNEL), Ok(Some(1)));
    assert_eq!(t.buffer_send(ping_envelope(3, 0), 99), Err(Error::TransportFailure(99)));
    assert_eq!(t.buffer_send(ping_envelope(4, 0), DEFAULT_CHANNEL), Ok(None));
    let out = t.send_packets(8);
    assert_eq!(
        out,
        vec![Payload {
            tick: 8,
            messages: vec![
                one(PING_CHANNEL, None, ping_envelope(0, 0)),
                one(ENTITY_UPDATES_CHANNEL, Some(0), ping_envelope(1, 0)),
                one(ENTITY_ACTIONS_CHANNEL, Some(1), ping_envelope(2, 0)),
                one(DEFAULT_CHANNEL, None, ping_envelope(4, 0)),
            ],
            acks: vec![],
        }]
    );
    assert_eq!(t.send_packets(9), vec![]);
    assert_eq!(t.channel_name(PING_CHANNEL), "ping");
    assert_eq!(t.channel_name(99), "unknown");
}

#[test]
fn transport_reads_what_arrived_in_order_batch_by_batch() {
    let mut t = MessageManager::new(&ChannelRegistry::new(0));
    let payload = Payload {
        tick: 3,
        messages: vec![
            one(PING_CHANNEL, None, ping_envelope(0, 0)),
            one(PING_CHANNEL, None, ping_envelope(1, 0)),
            one(ENTITY_UPDATES_CHANNEL, Some(7), ping_envelope(2, 0)),
            one(PING_CHANNEL, Some(9), ping_envelope(3, 0)),
        ],
        acks: vec![40, 41],
    };
    assert_eq!(t.recv_packet(payload), Ok(3));
    let next = Payload {
        tick: 4,
        messages: vec![one(PING_CHANNEL, None, ping_envelope(4, 0))],
        acks: vec![42],
    };
    assert_eq!(t.recv_packet(next), Ok(4));
    assert_eq!(
        t.read_messages(),
        vec![
            (PING_CHANNEL, vec![(3, ping_envelope(0, 0)), (3, ping_envelope(1, 0))]),
            (ENTITY_UPDATES_CHANNEL, vec![(3, ping_envelope(2, 0))]),
            (PING_CHANNEL, vec![(3, ping_envelope(3, 0)), (4, ping_envelope(4, 0))]),
        ]
    );
    assert_eq!(t.read_messages(), vec![]);
    assert_eq!(t.take_acks(), vec![40, 41, 42]);
    assert_eq!(t.take_acks(), vec![]);
    // what arrived with an identifier is acknowledged with the next payload
    assert_eq!(t.send_packets(5), vec![Payload { tick: 5, messages: vec![], acks: vec![7, 9] }]);
}

#[test]
fn transport_refuses_a_payload_with_an_unknown_channel() {
    let mut t = MessageManager::new(&ChannelRegistry::new(0));
    let payload = Payload {
        tick: 3,
        messages: vec![
            one(PING_CHANNEL, Some(1), ping_envelope(0, 0)),
            one(98, None, ping_envelope(1, 0)),
            one(99, None, ping_envelope(2, 0)),
        ],
        acks: vec![5],
    };
    assert_eq!(t.recv_packet(payload), Err(Error::TransportFailure(98)));
    assert_eq!(t.read_messages(), vec![]);
    assert_eq!(t.take_acks(), vec![]);
    assert_eq!(t.send_packets(1), vec![]);
}

#[test]
fn transport_is_ready_again_after_the_send_interval() {
    let mut t = MessageManager::new(&ChannelRegistry::new(50));
    assert!(t.is_ready_to_send());
    t.update(10, 1);
    assert_eq!(t.send_packets(1), vec![]);
    assert!(!t.is_ready_to_send());
    t.update(59, 2);
    assert!(!t.is_ready_to_send());
    // a round that leaves early does not move the time of the next
    assert_eq!(t.send_packets(2), vec![]);
    t.update(60, 3);
    assert!(t.is_ready_to_send());

    let mut never = MessageManager::new(&ChannelRegistry::new(u64::MAX));
    never.update(5, 1);
    never.send_packets(1);
    never.update(u64::MAX - 1, 2);
    assert!(!never.is_ready_to_send());
    never.update(u64::MAX, 3);
    assert!(never.is_ready_to_send());
}

#[test]
fn entity_map_translates_in_both_directions() {
    let mut m = EntityMap::new();
    assert_eq!(m.get_local(1), None);
    m.insert(1, 10);
    m.insert(2, 20);
    assert_eq!(m.get_local(1), Some(10));
    assert_eq!(m.get_remote(20), Some(2));
    assert_eq!(m.get_remote(1), None);
    let mut entities = vec![2, 3, 1, 2];
    m.map_entities(&mut entities);
    assert_eq!(entities, vec![20, 3, 10, 20]);
}

#[test]
fn message_kinds_and_entity_translation() {
    let mut m = EntityMap::new();
    m.insert(5, 50);
    let input = Message::Input(vec![TickInput { tick: 1, input: 5 }]);
    let action = Message::ActionInput(Content { entities: vec![5, 6], bytes: vec![5] });
    let user = Message::User(Content { entities: vec![5], bytes: vec![5, 5] });
    assert_eq!(input.input_message_kind(), InputMessageKind::Native);
    assert_eq!(action.input_message_kind(), InputMessageKind::ActionState);
    assert_eq!(user.input_message_kind(), InputMessageKind::NotInput);
    assert_eq!(user.clone(), Message::User(Content { entities: vec![5], bytes: vec![5, 5] }));
    assert_eq!(input.map_entities(&m), Message::Input(vec![TickInput { tick: 1, input: 5 }]));
    assert_eq!(
        action.map_entities(&m),
        Message::ActionInput(Content { entities: vec![50, 6], bytes: vec![5] })
    );
    assert_eq!(
        user.map_entities(&m),
        Message::User(Content { entities: vec![50], bytes: vec![5, 5] })
    );
    assert!(ReplicationMessageData::Updates(vec![]).is_updates());
    assert!(!ReplicationMessageData::Actions(vec![]).is_updates());
}

#[test]
fn targets_name_the_peers_they_say() {
    assert!(!NetworkTarget::Nobody.should_send_to(&1));
    assert!(NetworkTarget::All.should_send_to(&1));
    assert!(NetworkTarget::Single(1).should_send_to(&1));
    assert!(!NetworkTarget::Single(1).should_send_to(&2));
    assert!(!NetworkTarget::AllExceptSingle(1).should_send_to(&1));
    assert!(NetworkTarget::AllExceptSingle(1).should_send_to(&2));
    assert!(NetworkTarget::Nobody.is_nobody());
    assert!(!NetworkTarget::All.is_nobody());
    assert!(!NetworkTarget::Single(0).is_nobody());
}

#[test]
fn events_are_empty_until_something_is_reported() {
    let mut e = ConnectionEvents::new();
    assert!(e.is_empty());
    e.push_replication(1, 2, ReplicationMessageData::Actions(vec![3]));
    assert!(!e.is_empty());
    let mut c = ConnectionEvents::new();
    c.push_connection();
    assert!(!c.is_empty());

    let mut s = ServerEvents::new();
    s.push_events(4, ConnectionEvents::new());
    assert!(s.events.is_empty());
    s.push_events(4, c);
    s.push_disconnects(9);
    assert_eq!(s.events.len(), 1);
    assert_eq!(s.events[0].0, 4);
    assert_eq!(s.disconnects, vec![9]);
}

#[test]
fn acknowledgment_strikes_off_its_own_entry_only() {
    let mut s = ReplicationSender::new();
    s.track(1, 100);
    s.track(2, 200);
    s.track(3, 100);
    assert_eq!(s.in_flight_len(), 3);
    assert_eq!(s.recv_update_acks(&vec![2, 9, 2], 44), vec![200]);
    assert_eq!(s.in_flight_len(), 2);
    assert_eq!(s.group_of(1), Some(100));
    assert_eq!(s.group_of(2), None);
    assert_eq!(s.group_of(3), Some(100));
    assert_eq!(s.acked_clock(200), Some(44));
    assert_eq!(s.acked_clock(100), None);
    assert_eq!(s.recv_update_acks(&vec![3, 1], 45), vec![100, 100]);
    assert_eq!(s.acked_clock(100), Some(45));
    assert_eq!(s.in_flight_len(), 0);
}

#[test]
fn sender_hands_out_what_waits_once_and_in_order() {
    let mut s = ReplicationSender::new();
    s.prepare(ENTITY_ACTIONS_CHANNEL, 1, ReplicationMessageData::Actions(vec![1]));
    s.prepare(ENTITY_UPDATES_CHANNEL, 2, ReplicationMessageData::Updates(vec![2]));
    assert_eq!(s.pending_len(), 2);
    assert_eq!(
        s.finalize(3),
        vec![
            (ENTITY_ACTIONS_CHANNEL, 1, ReplicationMessageData::Actions(vec![1])),
            (ENTITY_UPDATES_CHANNEL, 2, ReplicationMessageData::Updates(vec![2])),
        ]
    );
    assert_eq!(s.finalize(4), vec![]);
}

#[test]
fn receiver_hands_out_diffs_group_by_group() {
    let mut r = ReplicationReceiver::new();
    r.recv_message(2, 10, ReplicationMessageData::Updates(vec![1]));
    r.recv_message(1, 10, ReplicationMessageData::Actions(vec![2]));
    r.recv_message(2, 11, ReplicationMessageData::Updates(vec![3]));
    r.map_entity(7, 70);
    assert_eq!(
        r.read_messages(),
        vec![
            (
                2,
                vec![
                    (10, ReplicationMessageData::Updates(vec![1])),
                    (11, ReplicationMessageData::Updates(vec![3])),
                ]
            ),
            (1, vec![(10, ReplicationMessageData::Actions(vec![2]))]),
        ]
    );
    assert_eq!(r.read_messages(), vec![]);
    assert_eq!(r.remote_entity_map().get_local(7), Some(70));
}

#[test]
fn connection_takes_each_kind_of_message_to_its_place() {
    let registry = ChannelRegistry::new(0);
    let mut c = Connection::new(&registry, &PingConfig { ping_interval: 100 });
    c.replication_receiver.map_entity(5, 50);
    let action = Message::ActionInput(Content { entities: vec![5], bytes: vec![1] });
    let user = Message::User(Content { entities: vec![5, 6], bytes: vec![2] });
    let passed = Message::Input(vec![TickInput { tick: 9, input: 9 }]);
    let payload = Payload {
        tick: 2,
        messages: vec![
            one(
                INPUT_CHANNEL,
                None,
                Envelope::Message {
                    message: Message::Input(vec![
                        TickInput { tick: 2, input: 22 },
                        TickInput { tick: 1, input: 11 },
                    ]),
                    target: NetworkTarget::Nobody,
                },
            ),
            one(INPUT_CHANNEL, None, Envelope::Message { message: action, target: NetworkTarget::Nobody }),
            one(DEFAULT_CHANNEL, None, Envelope::Message { message: user, target: NetworkTarget::Nobody }),
            one(DEFAULT_CHANNEL, None, Envelope::Message { message: passed, target: NetworkTarget::All }),
            one(PING_CHANNEL, None, ping_envelope(3, 1)),
            one(
                ENTITY_ACTIONS_CHANNEL,
                Some(0),
                Envelope::Replication { group_id: 8, data: ReplicationMessageData::Actions(vec![4]) },
            ),
        ],
        acks: vec![],
    };
    assert_eq!(c.recv_packet(payload, 0), Ok(2));
    let events = c.receive(100);
    assert!(!events.connected);
    assert_eq!(
        events.input_messages,
        vec![Message::ActionInput(Content { entities: vec![50], bytes: vec![1] })]
    );
    assert_eq!(
        events.messages,
        vec![(DEFAULT_CHANNEL, Message::User(Content { entities: vec![50, 6], bytes: vec![2] }))]
    );
    assert_eq!(events.replication, vec![(8, 2, ReplicationMessageData::Actions(vec![4]))]);
    assert_eq!(c.input_buffer.get(1), Some(11));
    assert_eq!(c.input_buffer.get(2), Some(22));
    // an input that came with a target is passed on, and not taken in here
    assert_eq!(c.input_buffer.get(9), None);
    assert_eq!(
        c.messages_to_rebroadcast,
        vec![(
            Message::Input(vec![TickInput { tick: 9, input: 9 }]),
            NetworkTarget::All,
            DEFAULT_CHANNEL
        )]
    );
    assert_eq!(c.ping_manager.pongs_pending(), 1);
    // nothing is reported twice
    assert!(c.receive(101).is_empty());
}

#[test]
fn connection_sends_messages_for_nobody_to_pass_on() {
    let registry = ChannelRegistry::new(0);
    let mut c = Connection::new(&registry, &PingConfig { ping_interval: 100 });
    let m = Message::User(Content { entities: vec![], bytes: vec![1] });
    assert_eq!(c.buffer_message(m.clone(), DEFAULT_CHANNEL), Ok(None));
    assert_eq!(c.buffer_message(m.clone(), ENTITY_UPDATES_CHANNEL), Ok(Some(0)));
    assert_eq!(c.buffer_message(m.clone(), 1234), Err(Error::TransportFailure(1234)));
    assert_eq!(c.channel_name(1234), "unknown");
    assert_eq!(c.channel_name(DEFAULT_CHANNEL), "default");
    let out = c.message_manager.send_packets(0);
    assert_eq!(out[0].messages.len(), 2);
    assert_eq!(
        out[0].messages[0].envelope,
        Envelope::Message { message: m, target: NetworkTarget::Nobody }
    );
    // sending an application message tracks nothing
    assert_eq!(c.replication_sender.in_flight_len(), 0);
}

#[test]
fn connection_without_a_ping_channel_cannot_send_its_ping() {
    let mut registry = ChannelRegistry::empty(0);
    assert!(registry.add(ChannelSettings { kind: DEFAULT_CHANNEL, name: "default", tracks_delivery: false }));
    let mut c = Connection::new(&registry, &PingConfig { ping_interval: 100 });
    assert_eq!(c.send_packets(5, 1), Err(Error::TransportFailure(PING_CHANNEL)));
    assert_eq!(c.ping_manager.pings_in_flight(), 1);
    // no ping is due now, and no pong waits: the round succeeds
    assert_eq!(c.send_packets(6, 1), Ok(vec![]));
    c.ping_manager.buffer_pending_pong(&Ping { id: 1, send_time: 1 }, 7);
    assert_eq!(c.send_packets(8, 1), Err(Error::TransportFailure(PING_CHANNEL)));
    assert_eq!(c.ping_manager.pongs_pending(), 0);
    assert_eq!(Error::TransportFailure(PING_CHANNEL).description(), "channel not found");
    assert!(!Error::TransportFailure(PING_CHANNEL).is_fatal());
}

#[test]
fn connection_holds_back_pings_until_the_transport_is_ready() {
    let registry = ChannelRegistry::new(1000);
    let mut c = Connection::new(&registry, &PingConfig { ping_interval: 0 });
    c.update(10, 1);
    let first = c.send_packets(10, 1).unwrap();
    assert_eq!(first[0].messages, vec![one(PING_CHANNEL, None, ping_envelope(0, 10))]);
    c.update(500, 2);
    c.ping_manager.buffer_pending_pong(&Ping { id: 3, send_time: 1 }, 400);
    assert_eq!(c.send_packets(500, 2), Ok(vec![]));
    assert_eq!(c.ping_manager.pongs_pending(), 1);
    c.update(1010, 3);
    let later = c.send_packets(1015, 3).unwrap();
    assert_eq!(
        later[0].messages,
        vec![
            one(PING_CHANNEL, None, ping_envelope(1, 1015)),
            one(
                PING_CHANNEL,
                None,
                Envelope::Sync(SyncMessage::Pong(Pong { ping_id: 3, pong_sent_time: 1015 }))
            ),
        ]
    );
}
