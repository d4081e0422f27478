use lightyear::error::Error;
use lightyear::manager::ConnectionManager;
use lightyear::message::{Content, Envelope, Message, ReplicationMessageData, TickInput};
use lightyear::ping::PingConfig;
use lightyear::target::NetworkTarget;
use lightyear::transport::{ChannelRegistry, PacketMessage, Payload};
use lightyear::types::{DEFAULT_CHANNEL, ENTITY_UPDATES_CHANNEL, INPUT_CHANNEL};

fn config() -> PingConfig {
    PingConfig { ping_interval: 100 }
}

fn server_with(peers: &[u64]) -> ConnectionManager {
    let mut server = ConnectionManager::new(ChannelRegistry::new(0));
    for p in peers {
        server.add(*p, &config());
    }
    server
}

fn user(bytes: Vec<u8>) -> Message {
    Message::User(Content { entities: vec![], bytes })
}

fn outbound(server: &mut ConnectionManager, peer: u64) -> Vec<PacketMessage> {
    let mut out = server.connection_mut(peer).ok().unwrap().message_manager.send_packets(0);
    match out.pop() {
        Some(p) => p.messages,
        None => vec![],
    }
}

#[test]
fn connection_set_is_what_was_added_and_not_removed() {
    let mut server = server_with(&[]);
    assert_eq!(server.len(), 0);
    assert_eq!(server.connection(3).err(), Some(Error::NotFound(3)));
    assert!(server.add(3, &config()));
    assert!(server.add(1, &config()));
    assert!(!server.add(3, &config()));
    assert_eq!(server.len(), 2);
    server.remove(2);
    assert_eq!(server.len(), 2);
    server.remove(3);
    server.remove(3);
    assert_eq!(server.len(), 1);
    assert!(server.connection(1).is_ok());
    assert_eq!(server.connection(3).err(), Some(Error::NotFound(3)));
    assert_eq!(server.connection_mut(2).err(), Some(Error::NotFound(2)));
    assert!(server.add(3, &config()));
    assert_eq!(server.len(), 2);
    assert_eq!(server.take_new_clients(), vec![3, 1, 3]);
    assert_eq!(server.take_new_clients(), vec![]);
    assert_eq!(server.take_events().disconnects, vec![2, 3, 3]);
    assert_eq!(Error::NotFound(3).description(), "client id not found");
    assert_eq!(server.channel_name(DEFAULT_CHANNEL), "default");
    assert_eq!(server.channel_name(4321), "unknown");
}

#[test]
fn adding_a_peer_twice_keeps_its_connection() {
    let mut server = server_with(&[5]);
    server.connection_mut(5).ok().unwrap().input_buffer.set(1, 10);
    assert!(!server.add(5, &config()));
    assert_eq!(server.connection(5).ok().unwrap().input_buffer.get(1), Some(10));
    // a peer that comes back starts anew
    server.remove(5);
    assert!(server.add(5, &config()));
    assert_eq!(server.connection(5).ok().unwrap().input_buffer.get(1), None);
    assert!(server.connection(5).ok().unwrap().events.connected);
}

#[test]
fn pop_inputs_gives_one_entry_for_each_peer() {
    let mut server = server_with(&[7, 3, 9]);
    server.connection_mut(3).ok().unwrap().input_buffer.set(4, 40);
    server.connection_mut(9).ok().unwrap().input_buffer.set(6, 60);
    server.connection_mut(9).ok().unwrap().input_buffer.set(2, 20);
    let mut at5 = server.pop_inputs(5);
    at5.sort();
    assert_eq!(at5, vec![(None, 7), (Some(20), 9), (Some(40), 3)]);
    let mut at6 = server.pop_inputs(6);
    at6.sort();
    assert_eq!(at6, vec![(None, 7), (Some(40), 3), (Some(60), 9)]);
    let mut at1 = server.pop_inputs(1);
    at1.sort();
    assert_eq!(at1, vec![(None, 3), (None, 7), (None, 9)]);
    // asking again gives the same
    let mut again = server.pop_inputs(5);
    again.sort();
    assert_eq!(again, vec![(None, 7), (Some(20), 9), (Some(40), 3)]);
}

#[test]
fn inputs_arrive_out_of_order_through_the_server() {
    let mut server = server_with(&[1]);
    for (sent_at, tick, input) in [(8u64, 8u64, 80u64), (9, 3, 30), (10, 5, 50)] {
        let payload = Payload {
            tick: sent_at,
            messages: vec![PacketMessage {
                channel: INPUT_CHANNEL,
                id: None,
                envelope: Envelope::Message {
                    message: Message::Input(vec![TickInput { tick, input }]),
                    target: NetworkTarget::Nobody,
                },
            }],
            acks: vec![],
        };
        assert_eq!(server.connection_mut(1).ok().unwrap().recv_packet(payload, 0), Ok(sent_at));
    }
    assert_eq!(server.receive(0), Ok(()));
    assert_eq!(server.pop_inputs(2), vec![(None, 1)]);
    assert_eq!(server.pop_inputs(3), vec![(Some(30), 1)]);
    assert_eq!(server.pop_inputs(4), vec![(Some(30), 1)]);
    assert_eq!(server.pop_inputs(7), vec![(Some(50), 1)]);
    assert_eq!(server.pop_inputs(100), vec![(Some(80), 1)]);
    // inputs are no event: the one report is that of the connection itself
    let events = server.take_events();
    assert_eq!(events.events.len(), 1);
    assert!(events.events[0].1.connected);
    assert!(events.events[0].1.messages.is_empty());
    assert!(events.events[0].1.input_messages.is_empty());
}

#[test]
fn buffer_message_reaches_the_peers_that_the_target_names() {
    let mut server = server_with(&[1, 2, 3]);
    assert_eq!(server.buffer_message(user(vec![1]), DEFAULT_CHANNEL, NetworkTarget::All), Ok(()));
    assert_eq!(server.buffer_message(user(vec![2]), DEFAULT_CHANNEL, NetworkTarget::Single(2)), Ok(()));
    assert_eq!(
        server.buffer_message(user(vec![3]), DEFAULT_CHANNEL, NetworkTarget::AllExceptSingle(2)),
        Ok(())
    );
    assert_eq!(server.buffer_message(user(vec![4]), DEFAULT_CHANNEL, NetworkTarget::Nobody), Ok(()));
    assert_eq!(server.buffer_message(user(vec![5]), DEFAULT_CHANNEL, NetworkTarget::Single(8)), Ok(()));
    let bodies = |messages: Vec<PacketMessage>| -> Vec<Message> {
        messages
            .into_iter()
            .map(|m| match m.envelope {
                Envelope::Message { message, target } => {
                    assert_eq!(target, NetworkTarget::Nobody);
                    message
                }
                _ => panic!("not an application message"),
            })
            .collect()
    };
    assert_eq!(bodies(outbound(&mut server, 1)), vec![user(vec![1]), user(vec![3])]);
    assert_eq!(bodies(outbound(&mut server, 2)), vec![user(vec![1]), user(vec![2])]);
    assert_eq!(bodies(outbound(&mut server, 3)), vec![user(vec![1]), user(vec![3])]);
}

#[test]
fn buffer_message_on_an_unknown_channel_fails_and_sends_nothing() {
    let mut server = server_with(&[1, 2]);
    assert_eq!(
        server.buffer_message(user(vec![1]), 99, NetworkTarget::All),
        Err(Error::TransportFailure(99))
    );
    assert_eq!(
        server.buffer_message(user(vec![1]), 99, NetworkTarget::Single(2)),
        Err(Error::TransportFailure(99))
    );
    // with no peer to send to there is nothing to fail
    assert_eq!(server.buffer_message(user(vec![1]), 99, NetworkTarget::Nobody), Ok(()));
    assert_eq!(server.buffer_message(user(vec![1]), 99, NetworkTarget::Single(3)), Ok(()));
    assert_eq!(outbound(&mut server, 1), vec![]);
    assert_eq!(outbound(&mut server, 2), vec![]);
    let mut empty = server_with(&[]);
    assert_eq!(empty.buffer_message(user(vec![1]), 99, NetworkTarget::All), Ok(()));
}

#[test]
fn replication_stops_at_the_first_connection_that_fails() {
    let mut server = server_with(&[1, 2, 3]);
    for peer in [1u64, 2, 3] {
        let channel = if peer == 2 { 99 } else { ENTITY_UPDATES_CHANNEL };
        server.connection_mut(peer).ok().unwrap().replication_sender.prepare(
            channel,
            peer,
            ReplicationMessageData::Updates(vec![peer as u8]),
        );
    }
    assert_eq!(server.buffer_replication_messages(4), Err(Error::TransportFailure(99)));
    let pending = |server: &ConnectionManager, peer: u64| {
        server.connection(peer).ok().unwrap().replication_sender.pending_len()
    };
    let in_flight = |server: &ConnectionManager, peer: u64| {
        server.connection(peer).ok().unwrap().replication_sender.in_flight_len()
    };
    // the peers are taken in the order in which they connected
    assert_eq!((pending(&server, 1), in_flight(&server, 1)), (0, 1));
    assert_eq!((pending(&server, 2), in_flight(&server, 2)), (0, 0));
    assert_eq!((pending(&server, 3), in_flight(&server, 3)), (1, 0));
    assert_eq!(server.buffer_replication_messages(5), Ok(()));
    assert_eq!((pending(&server, 3), in_flight(&server, 3)), (0, 1));
    assert_eq!(server.connection(3).ok().unwrap().replication_sender.group_of(0), Some(3));
}

#[test]
fn update_advances_every_connection() {
    let mut server = server_with(&[1, 2]);
    for peer in [1u64, 2] {
        let c = server.connection_mut(peer).ok().unwrap();
        assert!(c.ping_manager.maybe_prepare_ping(0).is_some());
        assert!(c.ping_manager.maybe_prepare_ping(0).is_none());
    }
    server.update(99, 1);
    for peer in [1u64, 2] {
        assert!(server.connection_mut(peer).ok().unwrap().ping_manager.maybe_prepare_ping(99).is_none());
    }
    server.update(100, 2);
    for peer in [1u64, 2] {
        let ping = server.connection_mut(peer).ok().unwrap().ping_manager.maybe_prepare_ping(100);
        assert_eq!(ping.map(|p| p.id), Some(1));
    }
}

#[test]
fn passing_on_over_an_unknown_channel_fails() {
    let mut server = server_with(&[1, 2]);
    // a payload that names a channel the server does not know is refused
    let stray = Payload {
        tick: 1,
        messages: vec![PacketMessage {
            channel: 50,
            id: None,
            envelope: Envelope::Message { message: user(vec![1]), target: NetworkTarget::All },
        }],
        acks: vec![],
    };
    assert_eq!(
        server.connection_mut(1).ok().unwrap().recv_packet(stray, 0),
        Err(Error::TransportFailure(50))
    );
    assert_eq!(server.receive(0), Ok(()));
    // a message that waits to be passed on over such a channel stops the pass
    server.connection_mut(1).ok().unwrap().messages_to_rebroadcast.push((
        user(vec![1]),
        NetworkTarget::All,
        50,
    ));
    server.connection_mut(1).ok().unwrap().messages_to_rebroadcast.push((
        user(vec![2]),
        NetworkTarget::All,
        DEFAULT_CHANNEL,
    ));
    assert_eq!(server.receive(0), Err(Error::TransportFailure(50)));
    assert!(server.connection(1).ok().unwrap().messages_to_rebroadcast.is_empty());
    assert_eq!(outbound(&mut server, 2), vec![]);
}
