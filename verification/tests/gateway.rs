use ipa::error::Error;
use ipa::helpers::buffer::{ReceiveBuffer, SendBuffer, SendBufferConfig};
use ipa::helpers::gateway::{Frame, Gateway, GatewayConfig};
use ipa::helpers::{HelperIdentity, Role};
use ipa::protocol::step::{Named, RecordId, Step, TotalRecords};
use ipa::test_fixture::InMemoryNetwork;

fn config(items_in_batch: usize, batch_count: usize) -> SendBufferConfig {
    SendBufferConfig {
        items_in_batch,
        batch_count,
    }
}

#[test]
fn a_batch_leaves_when_it_is_full() {
    let mut buffer = SendBuffer::new(config(3, 2), 1, TotalRecords::Indeterminate);
    buffer.insert(2, vec![12]).unwrap();
    buffer.insert(0, vec![10]).unwrap();
    assert!(buffer.take(false).is_none());
    buffer.insert(1, vec![11]).unwrap();
    assert_eq!(buffer.take(false), Some(vec![vec![10], vec![11], vec![12]]));
    assert_eq!(buffer.first(), 3);
    assert!(buffer.take(false).is_none());
    assert!(buffer.take(true).is_none());
}

#[test]
fn the_last_batch_leaves_when_the_total_is_reached() {
    let mut buffer = SendBuffer::new(config(3, 2), 2, TotalRecords::Specified(4));
    for record in 0..4u32 {
        buffer.insert(record, vec![record as u8, 0]).unwrap();
    }
    assert_eq!(
        buffer.take(false),
        Some(vec![vec![0, 0], vec![1, 0], vec![2, 0]])
    );
    assert_eq!(buffer.take(false), Some(vec![vec![3, 0]]));
    assert_eq!(buffer.take(false), None);
    assert_eq!(buffer.first(), 4);
}

#[test]
fn flushing_takes_what_is_there_without_a_gap() {
    let mut buffer = SendBuffer::new(config(4, 1), 1, TotalRecords::Indeterminate);
    buffer.insert(0, vec![1]).unwrap();
    buffer.insert(1, vec![2]).unwrap();
    buffer.insert(3, vec![4]).unwrap();
    assert_eq!(buffer.take(false), None);
    assert_eq!(buffer.take(true), Some(vec![vec![1], vec![2]]));
    assert_eq!(buffer.first(), 2);
    assert_eq!(buffer.take(true), None);
    buffer.insert(2, vec![3]).unwrap();
    assert_eq!(buffer.take(true), Some(vec![vec![3], vec![4]]));
}

#[test]
fn the_send_buffer_says_why_it_refuses() {
    let mut buffer = SendBuffer::new(config(2, 2), 1, TotalRecords::Specified(10));
    assert_eq!(buffer.insert(0, vec![1, 2]), Err(Error::MalformedFrame));
    assert_eq!(buffer.insert(10, vec![1]), Err(Error::TotalRecordsExceeded));
    assert_eq!(buffer.insert(4, vec![1]), Err(Error::Backpressure));
    buffer.insert(3, vec![1]).unwrap();
    assert_eq!(buffer.insert(3, vec![1]), Err(Error::RecordCollision));
    buffer.insert(0, vec![1]).unwrap();
    buffer.insert(1, vec![1]).unwrap();
    assert!(buffer.take(false).is_some());
    assert_eq!(buffer.insert(1, vec![1]), Err(Error::RecordCollision));
    // the window has moved on: record 4 fits now, record 6 does not
    buffer.insert(4, vec![1]).unwrap();
    assert_eq!(buffer.insert(6, vec![1]), Err(Error::Backpressure));
}

#[test]
fn the_receive_buffer_hands_out_every_message_once() {
    let mut buffer = ReceiveBuffer::new();
    assert_eq!(buffer.take(0), Err(Error::PeerDisconnected));
    buffer.deliver(5, vec![vec![50], vec![60]]).unwrap();
    assert_eq!(buffer.take(6), Ok(vec![60]));
    assert_eq!(buffer.take(6), Err(Error::RecordCollision));
    assert_eq!(buffer.take(4), Err(Error::PeerDisconnected));
    // a batch that would land on a used slot is refused whole
    assert_eq!(
        buffer.deliver(4, vec![vec![40], vec![51]]),
        Err(Error::RecordCollision)
    );
    assert_eq!(buffer.take(4), Err(Error::PeerDisconnected));
    assert_eq!(
        buffer.deliver(6, vec![vec![61]]),
        Err(Error::RecordCollision)
    );
    assert_eq!(
        buffer.deliver(u32::MAX, vec![vec![1], vec![2]]),
        Err(Error::MalformedFrame)
    );
    buffer.deliver(u32::MAX, vec![vec![1]]).unwrap();
    assert_eq!(buffer.take(u32::MAX), Ok(vec![1]));
    assert_eq!(buffer.take(5), Ok(vec![50]));
}

#[test]
fn the_gateway_keeps_channels_apart() {
    let cfg = GatewayConfig {
        send_buffer_config: config(1, 4),
    };
    let mut gateway = Gateway::new(Role::H1, cfg);
    assert_eq!(gateway.role(), Role::H1);
    let a = Step::root().narrow(&Named("a"));
    let b = Step::root().narrow(&Named("b"));
    let total = TotalRecords::Indeterminate;
    gateway
        .send(Role::H2, &a, total, RecordId::from(0), vec![1])
        .unwrap();
    gateway
        .send(Role::H3, &a, total, RecordId::from(0), vec![2])
        .unwrap();
    gateway
        .send(Role::H2, &b, total, RecordId::from(0), vec![3, 3])
        .unwrap();
    assert_eq!(
        gateway.send(Role::H2, &a, total, RecordId::from(0), vec![9]),
        Err(Error::RecordCollision)
    );
    assert_eq!(
        gateway.send(Role::H2, &a, total, RecordId::from(1), vec![9, 9]),
        Err(Error::MalformedFrame)
    );
    assert_eq!(
        gateway.send(Role::H3, &b, total, RecordId::from(4), vec![9]),
        Err(Error::Backpressure)
    );
    assert_eq!(
        gateway.send(
            Role::H3,
            &b,
            TotalRecords::Specified(2),
            RecordId::from(2),
            vec![9]
        ),
        Err(Error::TotalRecordsExceeded)
    );
    let mut frames = Vec::new();
    while let Some((peer, frame)) = gateway.next_frame(false) {
        frames.push((peer, frame.step.as_bytes().clone(), frame.first_record, frame.items));
    }
    assert_eq!(
        frames,
        vec![
            (Role::H2, b"/a".to_vec(), 0, vec![vec![1u8]]),
            (Role::H3, b"/a".to_vec(), 0, vec![vec![2u8]]),
            (Role::H2, b"/b".to_vec(), 0, vec![vec![3u8, 3]]),
        ]
    );
}

#[test]
fn what_is_delivered_is_what_is_received() {
    let cfg = GatewayConfig {
        send_buffer_config: config(2, 2),
    };
    let mut gateway = Gateway::new(Role::H2, cfg);
    let step = Step::root().narrow(&Named("x"));
    assert_eq!(
        gateway.receive(Role::H1, &step, RecordId::from(0)),
        Err(Error::PeerDisconnected)
    );
    gateway
        .deliver(
            Role::H1,
            Frame {
                step: step.duplicate(),
                first_record: 2,
                items: vec![vec![7], vec![8]],
            },
        )
        .unwrap();
    assert_eq!(gateway.receive(Role::H1, &step, RecordId::from(3)), Ok(vec![8]));
    assert_eq!(gateway.receive(Role::H1, &step, RecordId::from(2)), Ok(vec![7]));
    assert_eq!(
        gateway.receive(Role::H1, &step, RecordId::from(2)),
        Err(Error::RecordCollision)
    );
    assert_eq!(
        gateway.receive(Role::H3, &step, RecordId::from(2)),
        Err(Error::PeerDisconnected)
    );
    assert_eq!(
        gateway.deliver(
            Role::H1,
            Frame {
                step: step.duplicate(),
                first_record: 3,
                items: vec![vec![9]],
            },
        ),
        Err(Error::RecordCollision)
    );
}

#[test]
fn the_network_knows_three_helpers() {
    let network = InMemoryNetwork::default();
    let ids = network.helper_identities();
    assert_eq!(ids.map(|id| id.as_usize()), [1, 2, 3]);
    assert_eq!(ids.map(|id| id.role()), [Role::H1, Role::H2, Role::H3]);
    for id in ids {
        assert_eq!(network.transport(id).unwrap().identity, id);
    }
    assert!(HelperIdentity::try_from(0).is_none());
    assert!(HelperIdentity::try_from(4).is_none());
    assert_eq!(HelperIdentity::try_from(2), Some(ids[1]));
    let handles = network.transports();
    assert_eq!(handles.map(|h| h.identity), ids);
}

#[test]
fn the_network_delivers_in_the_order_of_sending() {
    let mut network = InMemoryNetwork::default();
    let handles = network.transports();
    let ids = network.helper_identities();
    let step = Step::root().narrow(&Named("n"));
    for first_record in [4u32, 2, 9] {
        network
            .send(
                &handles[0],
                ids[2],
                Frame {
                    step: step.duplicate(),
                    first_record,
                    items: vec![vec![first_record as u8]],
                },
            )
            .unwrap();
    }
    assert!(network.receive(&handles[1]).is_none());
    let mut seen = Vec::new();
    while let Some((from, frame)) = network.receive(&handles[2]) {
        assert_eq!(from, ids[0]);
        seen.push(frame.first_record);
    }
    assert_eq!(seen, vec![4, 2, 9]);
}
