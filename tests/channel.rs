use midiswitch::channel::ControlChannel;
use midiswitch::event::{MidiEvent, OutPort};
use midiswitch::message::Message;
use midiswitch::router::RouterState;

#[test]
fn channel_is_first_in_first_out() {
    let mut chan = ControlChannel::new(10);
    assert_eq!(chan.capacity(), 10);
    chan.try_enqueue(Message::Split(0, 1)).unwrap();
    chan.try_enqueue(Message::Merge(2, 3)).unwrap();
    chan.try_enqueue(Message::Split(4, 5)).unwrap();
    assert_eq!(chan.len(), 3);
    assert_eq!(chan.try_dequeue(), Some(Message::Split(0, 1)));
    assert_eq!(chan.try_dequeue(), Some(Message::Merge(2, 3)));
    assert_eq!(chan.try_dequeue(), Some(Message::Split(4, 5)));
    assert_eq!(chan.try_dequeue(), None);
    assert_eq!(chan.try_dequeue(), None);
}

#[test]
fn full_channel_refuses_and_keeps_entries() {
    let mut chan = ControlChannel::new(2);
    assert_eq!(chan.try_enqueue(Message::Split(0, 0)), Ok(()));
    assert_eq!(chan.try_enqueue(Message::Split(0, 1)), Ok(()));
    assert_eq!(chan.try_enqueue(Message::Merge(7, 7)), Err(Message::Merge(7, 7)));
    assert_eq!(chan.len(), 2);
    assert_eq!(chan.try_dequeue(), Some(Message::Split(0, 0)));
    assert_eq!(chan.try_dequeue(), Some(Message::Split(0, 1)));
    assert_eq!(chan.try_dequeue(), None);
}

#[test]
fn parted_channel_carries_messages_in_order() {
    let chan = ControlChannel::new(3);
    let (mut tx, mut rx) = chan.split();
    assert_eq!(rx.capacity(), 3);
    assert_eq!(tx.try_enqueue(Message::Split(0, 2)), Ok(()));
    assert_eq!(tx.try_enqueue(Message::Split(0, 1)), Ok(()));
    assert_eq!(tx.try_enqueue(Message::Merge(0, 1)), Ok(()));
    assert_eq!(tx.try_enqueue(Message::Merge(0, 0)), Err(Message::Merge(0, 0)));
    assert_eq!(rx.try_dequeue(), Some(Message::Split(0, 2)));
    assert_eq!(rx.try_dequeue(), Some(Message::Split(0, 1)));
    assert_eq!(rx.try_dequeue(), Some(Message::Merge(0, 1)));
    assert_eq!(rx.try_dequeue(), None);
}

#[test]
fn process_block_drains_the_receiving_end() {
    let chan = ControlChannel::new(10);
    let (mut tx, mut rx) = chan.split();
    let mut router = RouterState::new(&vec![3], &vec![]);
    tx.try_enqueue(Message::Split(0, 2)).unwrap();
    tx.try_enqueue(Message::Split(5, 0)).unwrap();
    let split_in = vec![vec![MidiEvent::new(8, vec![0x80, 60, 0])]];
    let merge_in: Vec<Vec<Vec<MidiEvent>>> = vec![];
    let mut out = Vec::new();
    let mut rejected = Vec::new();
    router.process_block(&mut rx, &split_in, &merge_in, &mut out, &mut rejected);
    assert_eq!(rejected, vec![Message::Split(5, 0)]);
    assert_eq!(out.len(), 17);
    for (ch, e) in out.iter().take(16).enumerate() {
        assert_eq!(e.port, OutPort::Split(0, 0));
        assert_eq!(e.event.time, 0);
        assert_eq!(e.event.bytes, vec![0xB0 | ch as u8, 123, 0]);
    }
    assert_eq!(out[16].port, OutPort::Split(0, 2));
    assert_eq!(out[16].event.bytes, vec![0x80, 60, 0]);
    assert_eq!(rx.try_dequeue(), None);
}
