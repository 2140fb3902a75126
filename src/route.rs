use vstd::prelude::*;
use crate::event::{
    MidiEvent, OutPort, Emitted, emitted_view, events_view, forwarded, notes_off_burst,
    push_forwarded, push_notes_off,
};
use crate::message::SwitchError;

verus! {

/// An emitted event as the contracts see it: its port and its time and bytes.
pub type EmittedView = (OutPort, (u32, Seq<u8>));

/// The state of a split route: which of its outputs is selected.
pub struct SplitView {
    pub selected: nat,
    pub outputs: nat,
}

/// The state of a merge route: which of its inputs is selected, and whether
/// the shared output still owes an all-notes-off burst.
pub struct MergeView {
    pub selected: nat,
    pub inputs: nat,
    pub flush_pending: bool,
}

/// Split route `route` in state `v` switching to output `index`: the new
/// state, what is written, and whether the switch was applied. The burst goes
/// to the output that was selected before.
pub open spec fn split_switch(v: SplitView, route: usize, index: usize) -> (SplitView, Seq<EmittedView>, Result<(), SwitchError>) {
    if index >= v.outputs {
        (v, Seq::empty(), Err(SwitchError::IndexOutOfRange))
    } else {
        (
            SplitView { selected: index as nat, ..v },
            notes_off_burst(OutPort::Split(route, v.selected as usize)),
            Ok(()),
        )
    }
}

/// What split route `route` in state `v` writes in one block with input `evs`.
pub open spec fn split_block(v: SplitView, route: usize, evs: Seq<(u32, Seq<u8>)>) -> Seq<EmittedView> {
    forwarded(OutPort::Split(route, v.selected as usize), evs)
}

/// Merge route in state `v` switching to input `index`: the new state and
/// whether the switch was applied. Nothing is written at the switch itself.
pub open spec fn merge_switch(v: MergeView, index: usize) -> (MergeView, Result<(), SwitchError>) {
    if index >= v.inputs {
        (v, Err(SwitchError::IndexOutOfRange))
    } else {
        (MergeView { selected: index as nat, flush_pending: true, ..v }, Ok(()))
    }
}

/// What merge route `route` in state `v` writes in one block whose inputs
/// carry `ins`: the owed burst, if any, then the selected input's events.
pub open spec fn merge_block(v: MergeView, route: usize, ins: Seq<Seq<(u32, Seq<u8>)>>) -> Seq<EmittedView> {
    (if v.flush_pending { notes_off_burst(OutPort::Merge(route)) } else { Seq::empty() })
        + forwarded(OutPort::Merge(route), ins[v.selected as int])
}

/// The state of a merge route after a block: nothing is owed any more.
pub open spec fn merge_after_block(v: MergeView) -> MergeView {
    MergeView { flush_pending: false, ..v }
}

/// The state of a split route after switching to each of `idxs` in turn.
pub open spec fn split_switches(v: SplitView, route: usize, idxs: Seq<usize>) -> SplitView
    decreases idxs.len(),
{
    if idxs.len() == 0 {
        v
    } else {
        split_switch(split_switches(v, route, idxs.drop_last()), route, idxs.last()).0
    }
}

/// A split route with N outputs whose selection is in range keeps it in
/// range through any sequence of switches to indices below N: after each
/// switch the selection is the index just asked for, and the number of
/// outputs never changes.
pub proof fn lemma_split_selection_in_range(v: SplitView, route: usize, idxs: Seq<usize>)
    requires
        v.selected < v.outputs,
        forall|i: int| 0 <= i < idxs.len() ==> #[trigger] idxs[i] < v.outputs,
    ensures
        forall|k: int| 0 <= k <= idxs.len() ==> {
            &&& #[trigger] split_switches(v, route, idxs.take(k)).selected < v.outputs
            &&& split_switches(v, route, idxs.take(k)).outputs == v.outputs
            &&& k > 0 ==> split_switches(v, route, idxs.take(k)).selected == idxs[k - 1]
        },
    decreases idxs.len(),
{
    assert(idxs.take(0) == Seq::<usize>::empty());
    if idxs.len() > 0 {
        let front = idxs.drop_last();
        lemma_split_selection_in_range(v, route, front);
        assert(front.take(front.len() as int) == front);
        let prev = split_switches(v, route, front.take(front.len() as int));
        assert(prev.selected < v.outputs && prev.outputs == v.outputs);
        assert(idxs.take(idxs.len() as int) == idxs);
        assert(idxs.drop_last() == front);
        assert forall|k: int| 0 <= k <= idxs.len() implies {
            &&& #[trigger] split_switches(v, route, idxs.take(k)).selected < v.outputs
            &&& split_switches(v, route, idxs.take(k)).outputs == v.outputs
            &&& k > 0 ==> split_switches(v, route, idxs.take(k)).selected == idxs[k - 1]
        } by {
            if k < idxs.len() {
                assert(idxs.take(k) == front.take(k));
            } else {
                assert(idxs.take(k) == idxs);
            }
        }
    }
}

/// After a merge route in range switches to an input in range, the burst is
/// owed; the next block clears it and writes exactly one burst on the shared
/// output before the new input's events, and a following block with no
/// switch in between writes no burst, only the new input's events.
pub proof fn lemma_merge_flushes_once(
    v: MergeView,
    route: usize,
    index: usize,
    first: Seq<Seq<(u32, Seq<u8>)>>,
    second: Seq<Seq<(u32, Seq<u8>)>>,
)
    requires
        v.selected < v.inputs,
        index < v.inputs,
    ensures
        merge_switch(v, index).0.flush_pending,
        merge_switch(v, index).0.selected == index,
        merge_block(merge_switch(v, index).0, route, first) == notes_off_burst(OutPort::Merge(route)) + forwarded(OutPort::Merge(route), first[index as int]),
        !merge_after_block(merge_switch(v, index).0).flush_pending,
        merge_block(merge_after_block(merge_switch(v, index).0), route, second) == forwarded(OutPort::Merge(route), second[index as int]),
{
    let fw = forwarded(OutPort::Merge(route), second[index as int]);
    assert(Seq::<EmittedView>::empty() + fw == fw);
}

/// One input fanned out to exactly one of several outputs.
pub struct SplitRoute {
    selected: usize,
    outputs: usize,
}

impl View for SplitRoute {
    type V = SplitView;

    closed spec fn view(&self) -> SplitView {
        SplitView { selected: self.selected as nat, outputs: self.outputs as nat }
    }
}

impl SplitRoute {
    /// The selected output is one of the route's outputs.
    pub open spec fn wf(&self) -> bool {
        self@.selected < self@.outputs
    }

    /// A route with `outputs` outputs, the first one selected.
    pub fn new(outputs: usize) -> (r: SplitRoute)
        requires
            outputs > 0,
        ensures
            r@ == (SplitView { selected: 0, outputs: outputs as nat }),
            r.wf(),
    {
        SplitRoute { selected: 0, outputs }
    }

    /// The index of the selected output.
    pub fn selected(&self) -> (r: usize)
        ensures
            r == self@.selected,
    {
        self.selected
    }

    /// The number of outputs.
    pub fn outputs(&self) -> (r: usize)
        ensures
            r == self@.outputs,
    {
        self.outputs
    }

    /// Selects output `index`, as route `route`. An index out of range is
    /// refused and changes nothing. Otherwise the all-notes-off burst is
    /// written to the output selected until now, before the switch.
    pub fn apply_switch(&mut self, route: usize, index: usize, out: &mut Vec<Emitted>) -> (r: Result<(), SwitchError>)
        requires
            old(self).wf(),
        ensures
            final(self).wf(),
            final(self)@ == split_switch(old(self)@, route, index).0,
            emitted_view(final(out)@) == emitted_view(old(out)@) + split_switch(old(self)@, route, index).1,
            r == split_switch(old(self)@, route, index).2,
    {
        if index >= self.outputs {
            assert(emitted_view(out@) + Seq::<EmittedView>::empty() == emitted_view(out@));
            return Err(SwitchError::IndexOutOfRange);
        }
        push_notes_off(OutPort::Split(route, self.selected), out);
        self.selected = index;
        Ok(())
    }

    /// Forwards the block's input events `evs`, in order, to the selected
    /// output, as route `route`.
    pub fn route(&self, route: usize, evs: &Vec<MidiEvent>, out: &mut Vec<Emitted>)
        ensures
            emitted_view(final(out)@) == emitted_view(old(out)@) + split_block(self@, route, events_view(evs@)),
    {
        push_forwarded(OutPort::Split(route, self.selected), evs, out);
    }
}

/// Several inputs, one of which is forwarded to a single shared output.
pub struct MergeRoute {
    selected: usize,
    inputs: usize,
    flush_pending: bool,
}

impl View for MergeRoute {
    type V = MergeView;

    closed spec fn view(&self) -> MergeView {
        MergeView { selected: self.selected as nat, inputs: self.inputs as nat, flush_pending: self.flush_pending }
    }
}

impl MergeRoute {
    /// The selected input is one of the route's inputs.
    pub open spec fn wf(&self) -> bool {
        self@.selected < self@.inputs
    }

    /// A route with `inputs` inputs, the first one selected, nothing owed.
    pub fn new(inputs: usize) -> (r: MergeRoute)
        requires
            inputs > 0,
        ensures
            r@ == (MergeView { selected: 0, inputs: inputs as nat, flush_pending: false }),
            r.wf(),
    {
        MergeRoute { selected: 0, inputs, flush_pending: false }
    }

    /// The index of the selected input.
    pub fn selected(&self) -> (r: usize)
        ensures
            r == self@.selected,
    {
        self.selected
    }

    /// The number of inputs.
    pub fn inputs(&self) -> (r: usize)
        ensures
            r == self@.inputs,
    {
        self.inputs
    }

    /// Whether the shared output owes an all-notes-off burst.
    pub fn flush_pending(&self) -> (r: bool)
        ensures
            r == self@.flush_pending,
    {
        self.flush_pending
    }

    /// Selects input `index`. An index out of range is refused and changes
    /// nothing. Otherwise the burst is owed, to be sent at the next block.
    pub fn apply_switch(&mut self, index: usize) -> (r: Result<(), SwitchError>)
        requires
            old(self).wf(),
        ensures
            final(self).wf(),
            (final(self)@, r) == merge_switch(old(self)@, index),
    {
        if index >= self.inputs {
            return Err(SwitchError::IndexOutOfRange);
        }
        self.selected = index;
        self.flush_pending = true;
        Ok(())
    }

    /// Writes the owed burst, if any, and then the selected input's events
    /// from `ins` (the events of each input in this block), as route `route`.
    pub fn route(&mut self, route: usize, ins: &Vec<Vec<MidiEvent>>, out: &mut Vec<Emitted>)
        requires
            old(self).wf(),
            ins@.len() == old(self)@.inputs,
        ensures
            final(self).wf(),
            final(self)@ == merge_after_block(old(self)@),
            emitted_view(final(out)@) == emitted_view(old(out)@) + merge_block(old(self)@, route, ins@.map_values(|v: Vec<MidiEvent>| events_view(v@))),
    {
        let ghost before = emitted_view(out@);
        let ghost pending = self.flush_pending;
        if self.flush_pending {
            push_notes_off(OutPort::Merge(route), out);
            self.flush_pending = false;
        }
        let ghost mid = emitted_view(out@);
        push_forwarded(OutPort::Merge(route), &ins[self.selected], out);
        proof {
            let burst: Seq<EmittedView> = if pending { notes_off_burst(OutPort::Merge(route)) } else { Seq::empty() };
            assert(mid == before + burst);
            let fw = forwarded(OutPort::Merge(route), events_view(ins@[self.selected as int]@));
            assert(before + burst + fw == before + (burst + fw));
        }
    }
}

} // verus!
