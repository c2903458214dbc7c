use naia_client_socket::address::{IpAddress, SocketAddress};
use naia_client_socket::conditioner::{
    plan_delivery, Draws, LinkConditioner, LinkConditionerConfig, PROBABILITY_SCALE,
};
use naia_client_socket::config::ClientSocketConfig;
use naia_client_socket::delay_queue::DelayQueue;
use naia_client_socket::error::{ClientSocketError, ConfigError};
use naia_client_socket::packet::{Packet, RECEIVE_BUFFER_SIZE};
use naia_client_socket::packet_sender::{BridgeInbox, PacketSender};
use naia_client_socket::transport::{classify_receive, RecvOutcome};

fn server() -> SocketAddress {
    SocketAddress::v4(127, 0, 0, 1, 9000)
}

fn read_into_buffer(bytes: &[u8]) -> Vec<u8> {
    let mut buffer = vec![0u8; RECEIVE_BUFFER_SIZE];
    let n = bytes.len().min(RECEIVE_BUFFER_SIZE);
    buffer[..n].copy_from_slice(&bytes[..n]);
    buffer
}

fn draws(loss: u32, duplication: u32, jitter: u64, duplicate_jitter: u64) -> Draws {
    Draws { loss, duplication, jitter, duplicate_jitter }
}

fn config(loss: u32, dup: u32, min_latency: u64, jitter: u64) -> LinkConditionerConfig {
    LinkConditionerConfig::new(loss, dup, min_latency, jitter).unwrap()
}

#[test]
fn address_v4_packs_octets() {
    let a = SocketAddress::v4(127, 0, 0, 1, 9000);
    assert_eq!(a.ip, IpAddress::V4(0x7f00_0001));
    assert_eq!(a.port, 9000);
    assert!(a.same_as(&server()));
    assert!(!a.same_as(&SocketAddress::v4(127, 0, 0, 1, 9001)));
}

#[test]
fn round_trip_keeps_bytes_exactly() {
    let sent = Packet::new(vec![9, 0, 255, 17, 3]);
    let buffer = read_into_buffer(sent.payload());
    let got = classify_receive(
        server(),
        &buffer,
        RecvOutcome::Received { len: sent.len(), from: server() },
    );
    let packet = got.unwrap().unwrap();
    assert_eq!(packet.payload(), &[9, 0, 255, 17, 3]);
}

#[test]
fn oversized_datagram_is_truncated_to_buffer() {
    let buffer = vec![7u8; RECEIVE_BUFFER_SIZE];
    let got = classify_receive(server(), &buffer, RecvOutcome::Received { len: 2000, from: server() });
    let packet = got.unwrap().unwrap();
    assert_eq!(packet.len(), 1472);
}

#[test]
fn empty_receive_is_none() {
    let buffer = vec![0u8; RECEIVE_BUFFER_SIZE];
    assert_eq!(classify_receive(server(), &buffer, RecvOutcome::WouldBlock).unwrap().is_none(), true);
    let mut inbox = BridgeInbox::new();
    assert!(inbox.receive().unwrap().is_none());
    let mut c = LinkConditioner::new(config(0, 0, 10, 0));
    assert!(c.pop_due(u64::MAX).is_none());
}

#[test]
fn unknown_sender_is_reported() {
    let buffer = read_into_buffer(&[1, 2, 3]);
    let stranger = SocketAddress::v4(10, 0, 0, 5, 9000);
    let got = classify_receive(server(), &buffer, RecvOutcome::Received { len: 3, from: stranger });
    assert_eq!(got.unwrap_err(), ClientSocketError::UnexpectedSender);
}

#[test]
fn io_failure_passes_through() {
    let buffer = vec![0u8; RECEIVE_BUFFER_SIZE];
    let got = classify_receive(server(), &buffer, RecvOutcome::Failed("connection refused".to_string()));
    assert_eq!(got.unwrap_err(), ClientSocketError::Io("connection refused".to_string()));
}

#[test]
fn loopback_scenario_delivers_one_two_three() {
    let local = SocketAddress::v4(127, 0, 0, 1, 40000);
    let sent = Packet::new(vec![1, 2, 3]);
    let buffer = read_into_buffer(sent.payload());
    let got = classify_receive(server(), &buffer, RecvOutcome::Received { len: 3, from: server() });
    assert_eq!(got.unwrap().unwrap().payload(), &[1, 2, 3]);
    let other = classify_receive(server(), &buffer, RecvOutcome::Received { len: 3, from: local });
    assert!(other.is_err());
}

#[test]
fn config_rejects_loss_above_one() {
    assert_eq!(
        LinkConditionerConfig::new(PROBABILITY_SCALE + 1, 0, 0, 0),
        Err(ConfigError::LossProbabilityOutOfRange)
    );
}

#[test]
fn config_rejects_duplication_above_one() {
    assert_eq!(
        LinkConditionerConfig::new(0, PROBABILITY_SCALE + 1, 0, 0),
        Err(ConfigError::DuplicationProbabilityOutOfRange)
    );
    let c = LinkConditionerConfig::new(PROBABILITY_SCALE, PROBABILITY_SCALE, 5, 6).unwrap();
    assert!(c.is_valid());
    assert_eq!(c.min_latency, 5);
    assert_eq!(c.jitter, 6);
}

#[test]
fn socket_config_validation() {
    let plain = ClientSocketConfig::new(server());
    assert_eq!(plain.validate(), Ok(()));
    let bad = LinkConditionerConfig {
        packet_loss_probability: 2_000_000,
        packet_duplication_probability: 0,
        min_latency: 0,
        jitter: 0,
    };
    let conditioned = plain.with_link_conditioner(bad);
    assert_eq!(conditioned.server_address, server());
    assert_eq!(conditioned.validate(), Err(ConfigError::LossProbabilityOutOfRange));
}

#[test]
fn draws_fit_their_ranges() {
    let c = config(0, 0, 0, 10);
    assert!(draws(0, 0, 10, 10).fits(&c));
    assert!(!draws(PROBABILITY_SCALE, 0, 0, 0).fits(&c));
    assert!(!draws(0, 0, 11, 0).fits(&c));
}

#[test]
fn plan_delivery_formula() {
    let c = config(250_000, 500_000, 100, 50);
    assert_eq!(plan_delivery(&c, 1000, draws(249_999, 0, 7, 9)), Vec::<u64>::new());
    assert_eq!(plan_delivery(&c, 1000, draws(250_000, 499_999, 7, 9)), vec![1107, 1109]);
    assert_eq!(plan_delivery(&c, 1000, draws(250_000, 500_000, 7, 9)), vec![1107]);
    assert_eq!(plan_delivery(&c, u64::MAX - 5, draws(900_000, 900_000, 50, 0)), vec![u64::MAX]);
}

#[test]
fn total_loss_delivers_nothing() {
    let mut c = LinkConditioner::new(config(PROBABILITY_SCALE, 0, 0, 0));
    for i in 0..100u32 {
        c.condition(Packet::new(vec![i as u8]), i as u64, draws(i * 9_999, 0, 0, 0));
    }
    assert_eq!(c.pending_len(), 0);
    assert!(c.pop_due(u64::MAX).is_none());
}

#[test]
fn fixed_delay_keeps_send_order() {
    let mut c = LinkConditioner::new(config(0, 0, 100, 0));
    for t in 0..5u64 {
        c.condition(Packet::new(vec![t as u8]), t, draws(0, 0, 0, 0));
    }
    assert!(c.pop_due(99).is_none());
    let mut seen = Vec::new();
    while let Some(p) = c.pop_due(104) {
        seen.push(p.payload()[0]);
    }
    assert_eq!(seen, vec![0, 1, 2, 3, 4]);
}

#[test]
fn jitter_reorders_but_never_early() {
    let mut c = LinkConditioner::new(config(0, 0, 100, 50));
    c.condition(Packet::new(vec![b'a']), 0, draws(0, 0, 40, 0));
    c.condition(Packet::new(vec![b'b']), 10, draws(0, 0, 0, 0));
    assert!(c.pop_due(109).is_none());
    assert_eq!(c.pop_due(110).unwrap().payload(), b"b");
    assert!(c.pop_due(139).is_none());
    assert_eq!(c.pop_due(140).unwrap().payload(), b"a");
    assert_eq!(c.pending_len(), 0);
}

#[test]
fn duplication_schedules_two_copies() {
    let mut c = LinkConditioner::new(config(0, PROBABILITY_SCALE, 10, 5));
    c.condition(Packet::new(vec![4, 2]), 0, draws(0, 0, 5, 1));
    assert_eq!(c.pending_len(), 2);
    assert_eq!(c.pop_due(11).unwrap().payload(), &[4, 2]);
    assert!(c.pop_due(14).is_none());
    assert_eq!(c.pop_due(15).unwrap().payload(), &[4, 2]);
}

#[test]
fn intercept_receive_passes_errors_unchanged() {
    let mut c = LinkConditioner::new(config(0, 0, 1, 0));
    let err = c.intercept_receive(Err(ClientSocketError::Io("x".to_string())), 0, draws(0, 0, 0, 0));
    assert_eq!(err, Err(ClientSocketError::Io("x".to_string())));
    assert_eq!(c.intercept_receive(Ok(None), 0, draws(0, 0, 0, 0)), Ok(false));
    assert_eq!(c.intercept_receive(Ok(Some(Packet::new(vec![1]))), 0, draws(0, 0, 0, 0)), Ok(true));
    assert_eq!(c.pending_len(), 1);
    assert_eq!(c.config().min_latency, 1);
}

#[test]
fn delay_queue_orders_by_release_then_arrival() {
    let mut q = DelayQueue::new();
    q.schedule(30, Packet::new(vec![1]));
    q.schedule(10, Packet::new(vec![2]));
    q.schedule(30, Packet::new(vec![3]));
    q.schedule(20, Packet::new(vec![4]));
    assert_eq!(q.len(), 4);
    let mut out = Vec::new();
    while let Some(p) = q.pop_due(30) {
        out.push(p.payload()[0]);
    }
    assert_eq!(out, vec![2, 4, 1, 3]);
}

#[test]
fn bridge_inbox_is_first_in_first_out() {
    let mut inbox = BridgeInbox::new();
    inbox.push(&[1, 2]);
    inbox.push(&[]);
    inbox.push(&[3]);
    assert_eq!(inbox.len(), 3);
    assert_eq!(inbox.receive().unwrap().unwrap().payload(), &[1, 2]);
    assert_eq!(inbox.receive().unwrap().unwrap().len(), 0);
    assert_eq!(inbox.receive().unwrap().unwrap().payload(), &[3]);
    assert!(inbox.receive().unwrap().is_none());
}

#[test]
fn packet_duplicate_and_sender() {
    let p = Packet::new(vec![5, 6]);
    let q = p.duplicate();
    assert_eq!(q.payload(), p.payload());
    assert_eq!(PacketSender::new(), PacketSender {});
}

#[test]
fn from_received_copies_prefix() {
    let p = Packet::from_received(&[1, 2, 3, 4], 2);
    assert_eq!(p.payload(), &[1, 2]);
}

#[test]
fn socket_config_rejects_duplication_above_one() {
    let bad = LinkConditionerConfig {
        packet_loss_probability: 0,
        packet_duplication_probability: PROBABILITY_SCALE + 1,
        min_latency: 0,
        jitter: 0,
    };
    assert!(!bad.is_valid());
    let conditioned = ClientSocketConfig::new(server()).with_link_conditioner(bad);
    assert_eq!(conditioned.validate(), Err(ConfigError::DuplicationProbabilityOutOfRange));
}

#[test]
fn fixed_delay_with_duplicates_keeps_send_order() {
    let mut c = LinkConditioner::new(config(0, 500_000, 20, 0));
    c.condition(Packet::new(vec![1]), 5, draws(0, 0, 0, 0));
    c.condition(Packet::new(vec![2]), 5, draws(0, 500_000, 0, 0));
    c.condition(Packet::new(vec![3]), 6, draws(0, 0, 0, 0));
    assert_eq!(c.pending_len(), 5);
    let mut seen = Vec::new();
    while let Some(p) = c.pop_due(26) {
        seen.push(p.payload()[0]);
    }
    assert_eq!(seen, vec![1, 1, 2, 3, 3]);
}
