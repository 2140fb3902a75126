use midiswitch::channel::ControlChannel;
use midiswitch::event::{Emitted, MidiEvent, OutPort};
use midiswitch::message::{Message, SwitchError};
use midiswitch::route::{MergeRoute, SplitRoute};
use midiswitch::router::RouterState;
use midiswitch::selection::SelectionController;

fn note_on(time: u32, key: u8) -> MidiEvent {
    MidiEvent::new(time, vec![0x90, key, 100])
}

fn notes_off_on(port: OutPort) -> Vec<(OutPort, u32, Vec<u8>)> {
    (0..16u8).map(|ch| (port, 0u32, vec![0xB0 | ch, 123, 0])).collect()
}

fn flat(out: &[Emitted]) -> Vec<(OutPort, u32, Vec<u8>)> {
    out.iter().map(|e| (e.port, e.event.time, e.event.bytes.clone())).collect()
}

fn strings(items: &[&str]) -> Vec<String> {
    items.iter().map(|s| s.to_string()).collect()
}

#[test]
fn split_qwerty_press_w_flushes_then_forwards() {
    let mut sel = SelectionController::new(&strings(&["qwerty"]), &vec![]);
    let mut router = RouterState::new(&sel.split_ports(), &sel.merge_ports());
    let mut chan = ControlChannel::new(10);
    assert_eq!(router.split(0).selected(), 0);
    assert_eq!(router.split(0).outputs(), 6);

    let msgs = sel.press('w');
    assert_eq!(msgs, vec![Message::Split(0, 1)]);
    assert_eq!(sel.selected(0), 1);
    for m in msgs {
        assert!(chan.try_enqueue(m).is_ok());
    }

    let split_in = vec![vec![note_on(3, 60), note_on(7, 62)]];
    let merge_in: Vec<Vec<Vec<MidiEvent>>> = vec![];
    let mut out = Vec::new();
    let mut rejected = Vec::new();
    router.process_queued(&mut chan, &split_in, &merge_in, &mut out, &mut rejected);

    let mut expected = notes_off_on(OutPort::Split(0, 0));
    expected.push((OutPort::Split(0, 1), 3, vec![0x90, 60, 100]));
    expected.push((OutPort::Split(0, 1), 7, vec![0x90, 62, 100]));
    assert_eq!(flat(&out), expected);
    assert!(rejected.is_empty());
    assert_eq!(chan.len(), 0);
    assert_eq!(router.split(0).selected(), 1);

    // the next block forwards to output 1 only, with no further burst
    let mut out2 = Vec::new();
    router.process_queued(&mut chan, &vec![vec![note_on(0, 64)]], &merge_in, &mut out2, &mut rejected);
    assert_eq!(flat(&out2), vec![(OutPort::Split(0, 1), 0, vec![0x90, 64, 100])]);
}

#[test]
fn merge_jkl_press_k_flushes_once_then_forwards_input_one() {
    let mut sel = SelectionController::new(&vec![], &strings(&["jkl"]));
    let mut router = RouterState::new(&sel.split_ports(), &sel.merge_ports());
    let mut chan = ControlChannel::new(10);
    assert_eq!(router.merge(0).inputs(), 3);

    let msgs = sel.press('k');
    assert_eq!(msgs, vec![Message::Merge(0, 1)]);
    for m in msgs {
        assert!(chan.try_enqueue(m).is_ok());
    }
    let split_in: Vec<Vec<MidiEvent>> = vec![];
    let merge_in = vec![vec![vec![note_on(1, 40)], vec![note_on(2, 50)], vec![note_on(4, 70)]]];
    let mut out = Vec::new();
    let mut rejected = Vec::new();
    router.process_queued(&mut chan, &split_in, &merge_in, &mut out, &mut rejected);

    let mut expected = notes_off_on(OutPort::Merge(0));
    expected.push((OutPort::Merge(0), 2, vec![0x90, 50, 100]));
    assert_eq!(flat(&out), expected);
    assert!(!router.merge(0).flush_pending());
    assert_eq!(router.merge(0).selected(), 1);

    let mut out2 = Vec::new();
    router.process_queued(&mut chan, &split_in, &merge_in, &mut out2, &mut rejected);
    assert_eq!(flat(&out2), vec![(OutPort::Merge(0), 2, vec![0x90, 50, 100])]);
}

#[test]
fn merge_switch_sets_pending_and_route_clears_it() {
    let mut m = MergeRoute::new(3);
    assert!(!m.flush_pending());
    assert_eq!(m.apply_switch(2), Ok(()));
    assert!(m.flush_pending());
    assert_eq!(m.selected(), 2);
    let ins = vec![vec![note_on(0, 1)], vec![note_on(0, 2)], vec![note_on(5, 3)]];
    let mut out = Vec::new();
    m.route(4, &ins, &mut out);
    let mut expected = notes_off_on(OutPort::Merge(4));
    expected.push((OutPort::Merge(4), 5, vec![0x90, 3, 100]));
    assert_eq!(flat(&out), expected);
    assert!(!m.flush_pending());
    let mut out2 = Vec::new();
    m.route(4, &ins, &mut out2);
    assert_eq!(flat(&out2), vec![(OutPort::Merge(4), 5, vec![0x90, 3, 100])]);
}

#[test]
fn split_switch_writes_burst_to_previous_output() {
    let mut s = SplitRoute::new(4);
    let mut out = Vec::new();
    assert_eq!(s.apply_switch(2, 3, &mut out), Ok(()));
    assert_eq!(flat(&out), notes_off_on(OutPort::Split(2, 0)));
    let mut out2 = Vec::new();
    assert_eq!(s.apply_switch(2, 1, &mut out2), Ok(()));
    assert_eq!(flat(&out2), notes_off_on(OutPort::Split(2, 3)));
    assert_eq!(s.selected(), 1);
}

#[test]
fn split_switch_out_of_range_is_refused() {
    let mut s = SplitRoute::new(3);
    let mut out = Vec::new();
    assert_eq!(s.apply_switch(0, 3, &mut out), Err(SwitchError::IndexOutOfRange));
    assert!(out.is_empty());
    assert_eq!(s.selected(), 0);
}

#[test]
fn merge_switch_out_of_range_is_refused() {
    let mut m = MergeRoute::new(2);
    assert_eq!(m.apply_switch(5), Err(SwitchError::IndexOutOfRange));
    assert!(!m.flush_pending());
    assert_eq!(m.selected(), 0);
}

#[test]
fn split_selection_stays_in_range_over_switches() {
    let mut s = SplitRoute::new(6);
    let mut out = Vec::new();
    for (i, idx) in [5usize, 0, 3, 6, 2, 100, 1].iter().enumerate() {
        let r = s.apply_switch(0, *idx, &mut out);
        assert!(s.selected() < 6, "step {}", i);
        if *idx < 6 {
            assert_eq!(r, Ok(()));
            assert_eq!(s.selected(), *idx);
        } else {
            assert_eq!(r, Err(SwitchError::IndexOutOfRange));
        }
    }
    assert_eq!(out.len(), 5 * 16);
}

#[test]
fn invalid_messages_are_rejected_and_block_continues() {
    let mut router = RouterState::new(&vec![2], &vec![2]);
    let mut chan = ControlChannel::new(10);
    chan.try_enqueue(Message::Split(1, 0)).unwrap();
    chan.try_enqueue(Message::Merge(0, 2)).unwrap();
    chan.try_enqueue(Message::Merge(3, 0)).unwrap();
    chan.try_enqueue(Message::Split(0, 1)).unwrap();
    let split_in = vec![vec![note_on(9, 10)]];
    let merge_in = vec![vec![vec![note_on(1, 11)], vec![]]];
    let mut out = Vec::new();
    let mut rejected = Vec::new();
    router.process_queued(&mut chan, &split_in, &merge_in, &mut out, &mut rejected);
    assert_eq!(rejected, vec![Message::Split(1, 0), Message::Merge(0, 2), Message::Merge(3, 0)]);
    let mut expected = notes_off_on(OutPort::Split(0, 0));
    expected.push((OutPort::Split(0, 1), 9, vec![0x90, 10, 100]));
    expected.push((OutPort::Merge(0), 1, vec![0x90, 11, 100]));
    assert_eq!(flat(&out), expected);
}

#[test]
fn apply_message_reports_each_error() {
    let mut router = RouterState::new(&vec![3], &vec![2, 2]);
    let mut out = Vec::new();
    assert_eq!(router.apply_message(Message::Split(1, 0), &mut out), Err(SwitchError::NoSuchRoute));
    assert_eq!(router.apply_message(Message::Merge(2, 0), &mut out), Err(SwitchError::NoSuchRoute));
    assert_eq!(router.apply_message(Message::Split(0, 3), &mut out), Err(SwitchError::IndexOutOfRange));
    assert_eq!(router.apply_message(Message::Merge(1, 2), &mut out), Err(SwitchError::IndexOutOfRange));
    assert!(out.is_empty());
    assert_eq!(router.apply_message(Message::Merge(1, 1), &mut out), Ok(()));
    assert!(out.is_empty());
    assert!(router.merge(1).flush_pending());
    assert!(!router.merge(0).flush_pending());
}

#[test]
fn events_reach_one_output_once() {
    let mut router = RouterState::new(&vec![3, 2], &vec![2]);
    let mut out = Vec::new();
    router.apply_message(Message::Split(1, 1), &mut out).unwrap();
    out.clear();
    let split_in = vec![vec![note_on(0, 1), note_on(1, 2)], vec![note_on(2, 3)]];
    let merge_in = vec![vec![vec![note_on(3, 4)], vec![note_on(4, 5)]]];
    router.route_block(&split_in, &merge_in, &mut out);
    assert_eq!(
        flat(&out),
        vec![
            (OutPort::Split(0, 0), 0, vec![0x90, 1, 100]),
            (OutPort::Split(0, 0), 1, vec![0x90, 2, 100]),
            (OutPort::Split(1, 1), 2, vec![0x90, 3, 100]),
            (OutPort::Merge(0), 3, vec![0x90, 4, 100]),
        ]
    );
}

#[test]
fn event_duplicate_keeps_time_and_bytes() {
    let e = MidiEvent::new(42, vec![0xF0, 1, 2, 3, 0xF7]);
    let d = e.duplicate();
    assert_eq!(d.time, 42);
    assert_eq!(d.bytes, vec![0xF0, 1, 2, 3, 0xF7]);
}
