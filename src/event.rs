use vstd::prelude::*;

verus! {

/// Number of MIDI channels; the all-notes-off burst holds one message each.
pub const MIDI_CHANNELS: u8 = 16;

/// Control Change controller number for "All Notes Off".
pub const ALL_NOTES_OFF: u8 = 123;

/// A timestamped MIDI message inside one processing block.
pub struct MidiEvent {
    /// Frame offset from the start of the block.
    pub time: u32,
    /// The raw message bytes, forwarded verbatim.
    pub bytes: Vec<u8>,
}

impl View for MidiEvent {
    type V = (u32, Seq<u8>);

    open spec fn view(&self) -> (u32, Seq<u8>) {
        (self.time, self.bytes@)
    }
}

impl MidiEvent {
    /// An event with the given time and bytes.
    pub fn new(time: u32, bytes: Vec<u8>) -> (r: MidiEvent)
        ensures
            r@ == (time, bytes@),
    {
        MidiEvent { time, bytes }
    }

    /// A copy of the event with the same time and bytes.
    pub fn duplicate(&self) -> (r: MidiEvent)
        ensures
            r@ == self@,
    {
        let mut bytes: Vec<u8> = Vec::with_capacity(self.bytes.len());
        let mut i: usize = 0;
        while i < self.bytes.len()
            invariant
                i <= self.bytes@.len(),
                bytes@ == self.bytes@.subrange(0, i as int),
            decreases self.bytes@.len() - i,
        {
            bytes.push(self.bytes[i]);
            i = i + 1;
        }
        assert(bytes@ == self.bytes@);
        MidiEvent { time: self.time, bytes }
    }
}

/// Where an emitted event goes.
#[derive(Clone, Copy, Debug, PartialEq, Eq, Structural)]
pub enum OutPort {
    /// Output `index` of split route `route`.
    Split(usize, usize),
    /// The shared output of merge route `route`.
    Merge(usize),
}

/// One event written to one output port.
pub struct Emitted {
    pub port: OutPort,
    pub event: MidiEvent,
}

impl View for Emitted {
    type V = (OutPort, (u32, Seq<u8>));

    open spec fn view(&self) -> (OutPort, (u32, Seq<u8>)) {
        (self.port, self.event@)
    }
}

/// The views of a sequence of events.
pub open spec fn events_view(evs: Seq<MidiEvent>) -> Seq<(u32, Seq<u8>)> {
    evs.map_values(|e: MidiEvent| e@)
}

/// The views of a sequence of emitted events.
pub open spec fn emitted_view(out: Seq<Emitted>) -> Seq<(OutPort, (u32, Seq<u8>))> {
    out.map_values(|e: Emitted| e@)
}

/// Control Change "All Notes Off" with value 0 on `channel`, at the start of the block.
pub open spec fn notes_off_event(channel: int) -> (u32, Seq<u8>) {
    (0u32, seq![(0xB0 + channel) as u8, ALL_NOTES_OFF, 0u8])
}

/// The all-notes-off burst on `port`: one message per channel, channels in order.
pub open spec fn notes_off_burst(port: OutPort) -> Seq<(OutPort, (u32, Seq<u8>))> {
    Seq::new(MIDI_CHANNELS as nat, |ch: int| (port, notes_off_event(ch)))
}

/// `evs` forwarded verbatim to `port`, in order.
pub open spec fn forwarded(port: OutPort, evs: Seq<(u32, Seq<u8>)>) -> Seq<(OutPort, (u32, Seq<u8>))> {
    evs.map_values(|e: (u32, Seq<u8>)| (port, e))
}

/// Appends the all-notes-off burst for `port` to `out`.
pub fn push_notes_off(port: OutPort, out: &mut Vec<Emitted>)
    ensures
        emitted_view(final(out)@) == emitted_view(old(out)@) + notes_off_burst(port),
{
    let ghost start = old(out)@;
    let mut channel: u8 = 0;
    while channel < MIDI_CHANNELS
        invariant
            channel <= MIDI_CHANNELS,
            emitted_view(out@) == emitted_view(start) + notes_off_burst(port).subrange(0, channel as int),
        decreases MIDI_CHANNELS - channel,
    {
        let bytes: Vec<u8> = vec![0xB0u8 | channel, ALL_NOTES_OFF, 0u8];
        assert(0xB0u8 | channel == (0xB0 + channel) as u8) by (bit_vector)
            requires
                channel < 16u8,
        ;
        let ghost before = out@;
        out.push(Emitted { port, event: MidiEvent { time: 0, bytes } });
        proof {
            assert(emitted_view(out@) == emitted_view(before).push(out@.last()@));
            assert(notes_off_burst(port).subrange(0, channel + 1) == notes_off_burst(port).subrange(0, channel as int).push(notes_off_burst(port)[channel as int]));
        }
        channel = channel + 1;
    }
    assert(notes_off_burst(port).subrange(0, 16) == notes_off_burst(port));
}

/// Appends every event of `evs`, in order, to `out` as written to `port`.
pub fn push_forwarded(port: OutPort, evs: &Vec<MidiEvent>, out: &mut Vec<Emitted>)
    ensures
        emitted_view(final(out)@) == emitted_view(old(out)@) + forwarded(port, events_view(evs@)),
{
    let ghost start = old(out)@;
    let mut i: usize = 0;
    while i < evs.len()
        invariant
            i <= evs@.len(),
            emitted_view(out@) == emitted_view(start) + forwarded(port, events_view(evs@)).subrange(0, i as int),
        decreases evs@.len() - i,
    {
        let event = evs[i].duplicate();
        let ghost before = out@;
        out.push(Emitted { port, event });
        proof {
            assert(emitted_view(out@) == emitted_view(before).push(out@.last()@));
            let f = forwarded(port, events_view(evs@));
            assert(f.subrange(0, i + 1) == f.subrange(0, i as int).push(f[i as int]));
        }
        i = i + 1;
    }
    assert(forwarded(port, events_view(evs@)).subrange(0, evs@.len() as int) == forwarded(port, events_view(evs@)));
}

} // verus!
