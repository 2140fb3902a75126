use vstd::prelude::*;
use crate::event::{MidiEvent, OutPort, Emitted, emitted_view, events_view, forwarded, notes_off_burst};
use crate::message::{Message, SwitchError};
use crate::route::{
    EmittedView, SplitView, MergeView, SplitRoute, MergeRoute, split_switch, split_block,
    merge_switch, merge_block, merge_after_block,
};
use crate::channel::{ControlChannel, CommandReceiver, receiver_capacity};

verus! {

/// The state of all routes, by position.
pub struct RouterView {
    pub splits: Seq<SplitView>,
    pub merges: Seq<MergeView>,
}

/// Every route's selection is one of its ports.
pub open spec fn router_wf(v: RouterView) -> bool {
    &&& forall|i: int| 0 <= i < v.splits.len() ==> #[trigger] v.splits[i].selected < v.splits[i].outputs
    &&& forall|i: int| 0 <= i < v.merges.len() ==> #[trigger] v.merges[i].selected < v.merges[i].inputs
}

/// The events of each split route's input in one block.
pub open spec fn split_inputs_view(ins: Seq<Vec<MidiEvent>>) -> Seq<Seq<(u32, Seq<u8>)>> {
    ins.map_values(|v: Vec<MidiEvent>| events_view(v@))
}

/// The events of each input of one merge route in one block.
pub open spec fn merge_ports_view(ins: Seq<Vec<MidiEvent>>) -> Seq<Seq<(u32, Seq<u8>)>> {
    ins.map_values(|v: Vec<MidiEvent>| events_view(v@))
}

/// The events of each input of each merge route in one block.
pub open spec fn merge_inputs_view(ins: Seq<Vec<Vec<MidiEvent>>>) -> Seq<Seq<Seq<(u32, Seq<u8>)>>> {
    ins.map_values(|v: Vec<Vec<MidiEvent>>| merge_ports_view(v@))
}

/// A block's inputs match the routes: one event list per split route, and per
/// merge route one per input.
pub open spec fn block_fits(v: RouterView, split_in: Seq<Vec<MidiEvent>>, merge_in: Seq<Vec<Vec<MidiEvent>>>) -> bool {
    &&& split_in.len() == v.splits.len()
    &&& merge_in.len() == v.merges.len()
    &&& forall|i: int| 0 <= i < v.merges.len() ==> #[trigger] merge_in[i]@.len() == v.merges[i].inputs
}

/// Two states with the same routes and port counts.
pub open spec fn same_shape(a: RouterView, b: RouterView) -> bool {
    &&& a.splits.len() == b.splits.len()
    &&& a.merges.len() == b.merges.len()
    &&& forall|i: int| 0 <= i < a.splits.len() ==> #[trigger] a.splits[i].outputs == b.splits[i].outputs
    &&& forall|i: int| 0 <= i < a.merges.len() ==> #[trigger] a.merges[i].inputs == b.merges[i].inputs
}

/// Applying one message: the new state, what is written, and the outcome.
pub open spec fn message_effect(v: RouterView, m: Message) -> (RouterView, Seq<EmittedView>, Result<(), SwitchError>) {
    match m {
        Message::Split(route, index) => {
            if route >= v.splits.len() {
                (v, Seq::empty(), Err(SwitchError::NoSuchRoute))
            } else {
                let (s, e, r) = split_switch(v.splits[route as int], route, index);
                (RouterView { splits: v.splits.update(route as int, s), ..v }, e, r)
            }
        },
        Message::Merge(route, index) => {
            if route >= v.merges.len() {
                (v, Seq::empty(), Err(SwitchError::NoSuchRoute))
            } else {
                let (s, r) = merge_switch(v.merges[route as int], index);
                (RouterView { merges: v.merges.update(route as int, s), ..v }, Seq::empty(), r)
            }
        },
    }
}

/// Applying `msgs` in order: the state, what is written, and the messages
/// that were refused, in order.
pub open spec fn drain_effect(v: RouterView, msgs: Seq<Message>) -> (RouterView, Seq<EmittedView>, Seq<Message>)
    decreases msgs.len(),
{
    if msgs.len() == 0 {
        (v, Seq::empty(), Seq::empty())
    } else {
        let (v1, e1, rj) = drain_effect(v, msgs.drop_last());
        let (v2, e2, r) = message_effect(v1, msgs.last());
        (v2, e1 + e2, if r is Ok { rj } else { rj.push(msgs.last()) })
    }
}

/// What the first `n` split routes write in one block.
pub open spec fn splits_output(splits: Seq<SplitView>, ins: Seq<Seq<(u32, Seq<u8>)>>, n: nat) -> Seq<EmittedView>
    decreases n,
{
    if n == 0 {
        Seq::empty()
    } else {
        splits_output(splits, ins, (n - 1) as nat) + split_block(splits[n - 1], (n - 1) as usize, ins[n - 1])
    }
}

/// What the first `n` merge routes write in one block.
pub open spec fn merges_output(merges: Seq<MergeView>, ins: Seq<Seq<Seq<(u32, Seq<u8>)>>>, n: nat) -> Seq<EmittedView>
    decreases n,
{
    if n == 0 {
        Seq::empty()
    } else {
        merges_output(merges, ins, (n - 1) as nat) + merge_block(merges[n - 1], (n - 1) as usize, ins[n - 1])
    }
}

/// What all routes write in one block: split routes first, then merge routes.
pub open spec fn block_output(v: RouterView, split_in: Seq<Seq<(u32, Seq<u8>)>>, merge_in: Seq<Seq<Seq<(u32, Seq<u8>)>>>) -> Seq<EmittedView> {
    splits_output(v.splits, split_in, v.splits.len()) + merges_output(v.merges, merge_in, v.merges.len())
}

/// The state after a block: every owed burst has been sent.
pub open spec fn after_block(v: RouterView) -> RouterView {
    RouterView { splits: v.splits, merges: v.merges.map_values(|m: MergeView| merge_after_block(m)) }
}

/// One block: `msgs` applied in order, then every route's events copied.
/// The new state, everything written in order, and the refused messages.
pub open spec fn process_effect(
    v: RouterView,
    msgs: Seq<Message>,
    split_in: Seq<Seq<(u32, Seq<u8>)>>,
    merge_in: Seq<Seq<Seq<(u32, Seq<u8>)>>>,
) -> (RouterView, Seq<EmittedView>, Seq<Message>) {
    let (v1, e1, rj) = drain_effect(v, msgs);
    (after_block(v1), e1 + block_output(v1, split_in, merge_in), rj)
}

proof fn lemma_message_keeps_shape(v: RouterView, m: Message)
    requires
        router_wf(v),
    ensures
        same_shape(v, message_effect(v, m).0),
        router_wf(message_effect(v, m).0),
{
}

/// Switching split route `r` from its output A to output B within one block:
/// the block's writes begin with the 16-message all-notes-off burst on A, and
/// everything the block forwards, B's events included, follows it. From then
/// on B is selected, so later blocks forward to B only.
pub proof fn lemma_split_switch_flushes_first(
    v: RouterView,
    r: usize,
    b: usize,
    split_in: Seq<Seq<(u32, Seq<u8>)>>,
    merge_in: Seq<Seq<Seq<(u32, Seq<u8>)>>>,
)
    requires
        router_wf(v),
        r < v.splits.len(),
        b < v.splits[r as int].outputs,
    ensures
        process_effect(v, seq![Message::Split(r, b)], split_in, merge_in).1 == notes_off_burst(OutPort::Split(r, v.splits[r as int].selected as usize)) + block_output(message_effect(v, Message::Split(r, b)).0, split_in, merge_in),
        message_effect(v, Message::Split(r, b)).0.splits[r as int].selected == b,
        process_effect(v, seq![Message::Split(r, b)], split_in, merge_in).0.splits[r as int].selected == b,
        process_effect(v, seq![Message::Split(r, b)], split_in, merge_in).2 == Seq::<Message>::empty(),
{
    let msgs = seq![Message::Split(r, b)];
    assert(msgs.drop_last() == Seq::<Message>::empty());
    assert(msgs.last() == Message::Split(r, b));
    let eff = message_effect(v, Message::Split(r, b));
    assert(drain_effect(v, Seq::<Message>::empty()) == (v, Seq::<EmittedView>::empty(), Seq::<Message>::empty()));
    assert(drain_effect(v, msgs) == (eff.0, Seq::<EmittedView>::empty() + eff.1, Seq::<Message>::empty()));
    assert(Seq::<EmittedView>::empty() + eff.1 == eff.1);
    let burst = notes_off_burst(OutPort::Split(r, v.splits[r as int].selected as usize));
    assert(Seq::<EmittedView>::empty() + burst == burst);
}

/// Whether an emitted event went to port `p`.
pub open spec fn on_port(p: OutPort) -> spec_fn(EmittedView) -> bool {
    |e: EmittedView| e.0 == p
}

/// What one block writes to port `p`: a split route's selected output gets
/// the route's input events once, in order, and its other outputs nothing; a
/// merge route's output gets what `merge_block` says.
pub open spec fn port_block_output(
    v: RouterView,
    split_in: Seq<Seq<(u32, Seq<u8>)>>,
    merge_in: Seq<Seq<Seq<(u32, Seq<u8>)>>>,
    p: OutPort,
) -> Seq<EmittedView> {
    match p {
        OutPort::Split(r, k) => {
            if r < v.splits.len() && k == v.splits[r as int].selected {
                forwarded(p, split_in[r as int])
            } else {
                Seq::empty()
            }
        },
        OutPort::Merge(r) => {
            if r < v.merges.len() {
                merge_block(v.merges[r as int], r, merge_in[r as int])
            } else {
                Seq::empty()
            }
        },
    }
}

proof fn lemma_filter_one_port(s: Seq<EmittedView>, q: OutPort, p: OutPort)
    requires
        forall|i: int| 0 <= i < s.len() ==> (#[trigger] s[i]).0 == q,
    ensures
        s.filter(on_port(p)) == if q == p { s } else { Seq::<EmittedView>::empty() },
    decreases s.len(),
{
    reveal(Seq::filter);
    if s.len() > 0 {
        lemma_filter_one_port(s.drop_last(), q, p);
        assert(s.drop_last().push(s.last()) == s);
    }
}

proof fn lemma_filter_add(a: Seq<EmittedView>, b: Seq<EmittedView>, p: OutPort)
    ensures
        (a + b).filter(on_port(p)) == a.filter(on_port(p)) + b.filter(on_port(p)),
{
    Seq::filter_distributes_over_add(a, b, on_port(p));
}

proof fn lemma_splits_on_port(splits: Seq<SplitView>, ins: Seq<Seq<(u32, Seq<u8>)>>, n: nat, p: OutPort)
    requires
        n <= splits.len(),
        splits.len() <= usize::MAX,
        forall|i: int| 0 <= i < splits.len() ==> #[trigger] splits[i].selected <= usize::MAX,
    ensures
        splits_output(splits, ins, n).filter(on_port(p)) == match p {
            OutPort::Split(r, k) => if r < n && k == splits[r as int].selected { forwarded(p, ins[r as int]) } else { Seq::<EmittedView>::empty() },
            OutPort::Merge(_) => Seq::<EmittedView>::empty(),
        },
    decreases n,
{
    reveal(Seq::filter);
    if n > 0 {
        lemma_splits_on_port(splits, ins, (n - 1) as nat, p);
        let q = OutPort::Split((n - 1) as usize, splits[n - 1].selected as usize);
        let last = split_block(splits[n - 1], (n - 1) as usize, ins[n - 1]);
        lemma_filter_add(splits_output(splits, ins, (n - 1) as nat), last, p);
        lemma_filter_one_port(last, q, p);
        let prev = splits_output(splits, ins, (n - 1) as nat).filter(on_port(p));
        assert(prev + Seq::<EmittedView>::empty() == prev);
        assert(Seq::<EmittedView>::empty() + last == last);
    }
}

proof fn lemma_merges_on_port(merges: Seq<MergeView>, ins: Seq<Seq<Seq<(u32, Seq<u8>)>>>, n: nat, p: OutPort)
    requires
        n <= merges.len(),
        merges.len() <= usize::MAX,
    ensures
        merges_output(merges, ins, n).filter(on_port(p)) == match p {
            OutPort::Split(_, _) => Seq::<EmittedView>::empty(),
            OutPort::Merge(r) => if r < n { merge_block(merges[r as int], r, ins[r as int]) } else { Seq::<EmittedView>::empty() },
        },
    decreases n,
{
    reveal(Seq::filter);
    if n > 0 {
        lemma_merges_on_port(merges, ins, (n - 1) as nat, p);
        let q = OutPort::Merge((n - 1) as usize);
        let m = merges[n - 1];
        let burst: Seq<EmittedView> = if m.flush_pending { notes_off_burst(q) } else { Seq::empty() };
        let fw = forwarded(q, ins[n - 1][m.selected as int]);
        let last = merge_block(m, (n - 1) as usize, ins[n - 1]);
        assert(last == burst + fw);
        assert forall|i: int| 0 <= i < last.len() implies (#[trigger] last[i]).0 == q by {
            if i < burst.len() {
                assert(last[i] == burst[i]);
            } else {
                assert(last[i] == fw[i - burst.len()]);
            }
        }
        lemma_filter_add(merges_output(merges, ins, (n - 1) as nat), last, p);
        lemma_filter_one_port(last, q, p);
        let prev = merges_output(merges, ins, (n - 1) as nat).filter(on_port(p));
        assert(prev + Seq::<EmittedView>::empty() == prev);
        assert(Seq::<EmittedView>::empty() + last == last);
    }
}

/// No event of a block reaches more than one output, or one output twice:
/// what a block writes to any port `p`, taken in order, is exactly
/// `port_block_output`, so a split route's input goes once to its selected
/// output and nowhere else, and a merge route's output gets the selected
/// input's events once, after its owed burst if any.
pub proof fn lemma_block_delivers_once(
    v: RouterView,
    split_in: Seq<Seq<(u32, Seq<u8>)>>,
    merge_in: Seq<Seq<Seq<(u32, Seq<u8>)>>>,
    p: OutPort,
)
    requires
        v.splits.len() <= usize::MAX,
        v.merges.len() <= usize::MAX,
        forall|i: int| 0 <= i < v.splits.len() ==> #[trigger] v.splits[i].selected <= usize::MAX,
    ensures
        block_output(v, split_in, merge_in).filter(on_port(p)) == port_block_output(v, split_in, merge_in, p),
{
    lemma_splits_on_port(v.splits, split_in, v.splits.len(), p);
    lemma_merges_on_port(v.merges, merge_in, v.merges.len(), p);
    lemma_filter_add(splits_output(v.splits, split_in, v.splits.len()), merges_output(v.merges, merge_in, v.merges.len()), p);
    let a = splits_output(v.splits, split_in, v.splits.len()).filter(on_port(p));
    let b = merges_output(v.merges, merge_in, v.merges.len()).filter(on_port(p));
    assert(a + Seq::<EmittedView>::empty() == a);
    assert(Seq::<EmittedView>::empty() + b == b);
}

/// All the routes of the router, owned by the processing side.
pub struct RouterState {
    splits: Vec<SplitRoute>,
    merges: Vec<MergeRoute>,
}

impl View for RouterState {
    type V = RouterView;

    closed spec fn view(&self) -> RouterView {
        RouterView {
            splits: self.splits@.map_values(|s: SplitRoute| s@),
            merges: self.merges@.map_values(|m: MergeRoute| m@),
        }
    }
}

impl RouterState {
    /// Every route's selection is one of its ports.
    pub open spec fn wf(&self) -> bool {
        router_wf(self@)
    }

    /// Split routes with the given output counts and merge routes with the
    /// given input counts, all on their first port, nothing owed.
    pub fn new(split_ports: &Vec<usize>, merge_ports: &Vec<usize>) -> (r: RouterState)
        requires
            forall|i: int| 0 <= i < split_ports@.len() ==> split_ports@[i] > 0,
            forall|i: int| 0 <= i < merge_ports@.len() ==> merge_ports@[i] > 0,
        ensures
            r.wf(),
            r@.splits.len() == split_ports@.len(),
            r@.merges.len() == merge_ports@.len(),
            forall|i: int| 0 <= i < split_ports@.len() ==> #[trigger] r@.splits[i] == (SplitView { selected: 0, outputs: split_ports@[i] as nat }),
            forall|i: int| 0 <= i < merge_ports@.len() ==> #[trigger] r@.merges[i] == (MergeView { selected: 0, inputs: merge_ports@[i] as nat, flush_pending: false }),
    {
        let mut splits: Vec<SplitRoute> = Vec::with_capacity(split_ports.len());
        let mut i: usize = 0;
        while i < split_ports.len()
            invariant
                i <= split_ports@.len(),
                forall|j: int| 0 <= j < split_ports@.len() ==> split_ports@[j] > 0,
                splits@.len() == i,
                forall|j: int| 0 <= j < i ==> #[trigger] splits@[j]@ == (SplitView { selected: 0, outputs: split_ports@[j] as nat }),
            decreases split_ports@.len() - i,
        {
            splits.push(SplitRoute::new(split_ports[i]));
            i = i + 1;
        }
        let mut merges: Vec<MergeRoute> = Vec::with_capacity(merge_ports.len());
        let mut k: usize = 0;
        while k < merge_ports.len()
            invariant
                k <= merge_ports@.len(),
                forall|j: int| 0 <= j < merge_ports@.len() ==> merge_ports@[j] > 0,
                merges@.len() == k,
                forall|j: int| 0 <= j < k ==> #[trigger] merges@[j]@ == (MergeView { selected: 0, inputs: merge_ports@[j] as nat, flush_pending: false }),
            decreases merge_ports@.len() - k,
        {
            merges.push(MergeRoute::new(merge_ports[k]));
            k = k + 1;
        }
        RouterState { splits, merges }
    }

    /// The number of split routes.
    pub fn split_count(&self) -> (r: usize)
        ensures
            r == self@.splits.len(),
    {
        self.splits.len()
    }

    /// The number of merge routes.
    pub fn merge_count(&self) -> (r: usize)
        ensures
            r == self@.merges.len(),
    {
        self.merges.len()
    }

    /// Split route `i`.
    pub fn split(&self, i: usize) -> (r: &SplitRoute)
        requires
            i < self@.splits.len(),
        ensures
            r@ == self@.splits[i as int],
    {
        &self.splits[i]
    }

    /// Merge route `i`.
    pub fn merge(&self, i: usize) -> (r: &MergeRoute)
        requires
            i < self@.merges.len(),
        ensures
            r@ == self@.merges[i as int],
    {
        &self.merges[i]
    }

    /// Applies one route change. A message naming no route, or a port the
    /// route does not have, is refused and changes nothing.
    pub fn apply_message(&mut self, m: Message, out: &mut Vec<Emitted>) -> (r: Result<(), SwitchError>)
        requires
            old(self).wf(),
        ensures
            final(self).wf(),
            final(self)@ == message_effect(old(self)@, m).0,
            emitted_view(final(out)@) == emitted_view(old(out)@) + message_effect(old(self)@, m).1,
            r == message_effect(old(self)@, m).2,
    {
        proof { lemma_message_keeps_shape(self@, m); }
        match m {
            Message::Split(route, index) => {
                if route >= self.splits.len() {
                    assert(emitted_view(out@) + Seq::<EmittedView>::empty() == emitted_view(out@));
                    return Err(SwitchError::NoSuchRoute);
                }
                assert(self.splits@[route as int]@ == self@.splits[route as int]);
                let r = self.splits[route].apply_switch(route, index, out);
                assert(self@.splits == old(self)@.splits.update(route as int, split_switch(old(self)@.splits[route as int], route, index).0));
                r
            },
            Message::Merge(route, index) => {
                if route >= self.merges.len() {
                    assert(emitted_view(out@) + Seq::<EmittedView>::empty() == emitted_view(out@));
                    return Err(SwitchError::NoSuchRoute);
                }
                assert(self.merges@[route as int]@ == self@.merges[route as int]);
                let r = self.merges[route].apply_switch(index);
                assert(self@.merges == old(self)@.merges.update(route as int, merge_switch(old(self)@.merges[route as int], index).0));
                assert(emitted_view(out@) + Seq::<EmittedView>::empty() == emitted_view(out@));
                r
            },
        }
    }
    /// Copies one block's events: each split route's input to its selected
    /// output, then each merge route's owed burst, if any, and its selected
    /// input to its output. `split_in` holds the events of each split route's
    /// input, `merge_in` those of each input of each merge route.
    pub fn route_block(&mut self, split_in: &Vec<Vec<MidiEvent>>, merge_in: &Vec<Vec<Vec<MidiEvent>>>, out: &mut Vec<Emitted>)
        requires
            old(self).wf(),
            block_fits(old(self)@, split_in@, merge_in@),
        ensures
            final(self).wf(),
            final(self)@ == after_block(old(self)@),
            emitted_view(final(out)@) == emitted_view(old(out)@) + block_output(old(self)@, split_inputs_view(split_in@), merge_inputs_view(merge_in@)),
    {
        let ghost v0 = self@;
        let ghost start = emitted_view(out@);
        let ghost sv = split_inputs_view(split_in@);
        let ghost mv = merge_inputs_view(merge_in@);
        let mut i: usize = 0;
        while i < self.splits.len()
            invariant
                self@ == v0,
                router_wf(v0),
                block_fits(v0, split_in@, merge_in@),
                sv == split_inputs_view(split_in@),
                i <= v0.splits.len(),
                emitted_view(out@) == start + splits_output(v0.splits, sv, i as nat),
            decreases v0.splits.len() - i,
        {
            assert(self.splits@[i as int]@ == v0.splits[i as int]);
            self.splits[i].route(i, &split_in[i], out);
            proof {
                assert(sv[i as int] == events_view(split_in@[i as int]@));
                assert(start + splits_output(v0.splits, sv, i as nat) + split_block(v0.splits[i as int], i, sv[i as int])
                    == start + splits_output(v0.splits, sv, (i + 1) as nat));
            }
            i = i + 1;
        }
        let ghost mid = emitted_view(out@);
        let mut k: usize = 0;
        while k < self.merges.len()
            invariant
                self@.splits == v0.splits,
                self@.merges.len() == v0.merges.len(),
                router_wf(v0),
                block_fits(v0, split_in@, merge_in@),
                mv == merge_inputs_view(merge_in@),
                k <= v0.merges.len(),
                forall|j: int| 0 <= j < k ==> #[trigger] self@.merges[j] == merge_after_block(v0.merges[j]),
                forall|j: int| k <= j < v0.merges.len() ==> #[trigger] self@.merges[j] == v0.merges[j],
                mid == start + splits_output(v0.splits, split_inputs_view(split_in@), v0.splits.len()),
                emitted_view(out@) == mid + merges_output(v0.merges, mv, k as nat),
            decreases v0.merges.len() - k,
        {
            assert(self@.merges[k as int] == v0.merges[k as int]);
            let ghost before = self@;
            let ghost bvec = self.merges@;
            self.merges[k].route(k, &merge_in[k], out);
            proof {
                assert(mv[k as int] == merge_ports_view(merge_in@[k as int]@));
                assert(mid + merges_output(v0.merges, mv, k as nat) + merge_block(v0.merges[k as int], k, mv[k as int])
                    == mid + merges_output(v0.merges, mv, (k + 1) as nat));
                assert forall|j: int| 0 <= j < self@.merges.len() && j != k implies #[trigger] self@.merges[j] == before.merges[j] by {
                    assert(self.merges@[j] == bvec[j]);
                }
            }
            k = k + 1;
        }
        assert(self@.merges == after_block(v0).merges);
        assert(self@.splits == after_block(v0).splits);
    }

    /// Applies one message and records it in `rejected` if it was refused.
    fn take_message(&mut self, m: Message, out: &mut Vec<Emitted>, rejected: &mut Vec<Message>)
        requires
            old(self).wf(),
        ensures
            final(self).wf(),
            final(self)@ == message_effect(old(self)@, m).0,
            emitted_view(final(out)@) == emitted_view(old(out)@) + message_effect(old(self)@, m).1,
            final(rejected)@ == if message_effect(old(self)@, m).2 is Ok { old(rejected)@ } else { old(rejected)@.push(m) },
    {
        let r = self.apply_message(m, out);
        if r.is_err() {
            rejected.push(m);
        }
    }

    /// One block: every message waiting in `chan` is applied in order, then
    /// the block's events are copied as `route_block` does. Everything written
    /// goes to `out`, refused messages to `rejected`; the channel ends empty.
    pub fn process_queued(
        &mut self,
        chan: &mut ControlChannel,
        split_in: &Vec<Vec<MidiEvent>>,
        merge_in: &Vec<Vec<Vec<MidiEvent>>>,
        out: &mut Vec<Emitted>,
        rejected: &mut Vec<Message>,
    )
        requires
            old(self).wf(),
            block_fits(old(self)@, split_in@, merge_in@),
        ensures
            final(self).wf(),
            final(chan)@ == Seq::<Message>::empty(),
            final(chan).capacity_spec() == old(chan).capacity_spec(),
            final(self)@ == process_effect(old(self)@, old(chan)@, split_inputs_view(split_in@), merge_inputs_view(merge_in@)).0,
            emitted_view(final(out)@) == emitted_view(old(out)@) + process_effect(old(self)@, old(chan)@, split_inputs_view(split_in@), merge_inputs_view(merge_in@)).1,
            final(rejected)@ == old(rejected)@ + process_effect(old(self)@, old(chan)@, split_inputs_view(split_in@), merge_inputs_view(merge_in@)).2,
    {
        let ghost v0 = self@;
        let ghost q0 = chan@;
        let ghost out0 = emitted_view(out@);
        let ghost rej0 = rejected@;
        let ghost mut taken: Seq<Message> = Seq::empty();
        loop
            invariant
                router_wf(self@),
                q0 == taken + chan@,
                chan.capacity_spec() == old(chan).capacity_spec(),
                self@ == drain_effect(v0, taken).0,
                same_shape(v0, self@),
                emitted_view(out@) == out0 + drain_effect(v0, taken).1,
                rejected@ == rej0 + drain_effect(v0, taken).2,
            ensures
                chan@ == Seq::<Message>::empty(),
                taken == q0,
            decreases chan@.len(),
        {
            let ghost q = chan@;
            match chan.try_dequeue() {
                Some(m) => {
                    let ghost s = self@;
                    self.take_message(m, out, rejected);
                    proof {
                        lemma_message_keeps_shape(s, m);
                        assert(taken.push(m).drop_last() == taken);
                        assert(q0 == taken.push(m) + chan@);
                        taken = taken.push(m);
                    }
                },
                None => {
                    assert(chan@.len() == 0);
                    assert(chan@ == Seq::<Message>::empty());
                    assert(taken == q0);
                    break;
                },
            }
        }
        self.route_block(split_in, merge_in, out);
    }

    /// One block, taking route changes from the receiving end `rx`: the
    /// messages that arrive (at most the channel's capacity, so that the block
    /// ends in bounded time) are applied in order, then the block's events are
    /// copied as `route_block` does. Whatever the sending thread did, the
    /// outcome is that of `process_effect` for the messages taken.
    pub fn process_block(
        &mut self,
        rx: &mut CommandReceiver,
        split_in: &Vec<Vec<MidiEvent>>,
        merge_in: &Vec<Vec<Vec<MidiEvent>>>,
        out: &mut Vec<Emitted>,
        rejected: &mut Vec<Message>,
    )
        requires
            old(self).wf(),
            block_fits(old(self)@, split_in@, merge_in@),
        ensures
            final(self).wf(),
            exists|msgs: Seq<Message>| msgs.len() <= receiver_capacity(*old(rx)) && #[trigger] process_effect(old(self)@, msgs, split_inputs_view(split_in@), merge_inputs_view(merge_in@)) == (final(self)@, emitted_view(final(out)@).skip(old(out)@.len() as int), final(rejected)@.skip(old(rejected)@.len() as int)),
            emitted_view(final(out)@).take(old(out)@.len() as int) == emitted_view(old(out)@),
            final(rejected)@.take(old(rejected)@.len() as int) == old(rejected)@,
    {
        let ghost v0 = self@;
        let ghost out0 = emitted_view(out@);
        let ghost rej0 = rejected@;
        let ghost mut taken: Seq<Message> = Seq::empty();
        let cap = rx.capacity();
        let mut n: usize = 0;
        while n < cap
            invariant
                router_wf(self@),
                cap == receiver_capacity(*rx),
                receiver_capacity(*rx) == receiver_capacity(*old(rx)),
                n <= cap,
                taken.len() == n,
                self@ == drain_effect(v0, taken).0,
                same_shape(v0, self@),
                emitted_view(out@) == out0 + drain_effect(v0, taken).1,
                rejected@ == rej0 + drain_effect(v0, taken).2,
            decreases cap - n,
        {
            match rx.try_dequeue() {
                Some(m) => {
                    let ghost s = self@;
                    self.take_message(m, out, rejected);
                    proof {
                        lemma_message_keeps_shape(s, m);
                        assert(taken.push(m).drop_last() == taken);
                        taken = taken.push(m);
                    }
                    n = n + 1;
                },
                None => {
                    break;
                },
            }
        }
        let ghost mid = self@;
        self.route_block(split_in, merge_in, out);
        proof {
            let e = emitted_view(out@);
            let eff = process_effect(v0, taken, split_inputs_view(split_in@), merge_inputs_view(merge_in@));
            assert(e.len() == out@.len());
            assert(e == out0 + eff.1);
            assert(e.skip(out0.len() as int) == eff.1);
            assert(e.take(out0.len() as int) == out0);
            assert(rejected@.skip(rej0.len() as int) == eff.2);
            assert(rejected@.take(rej0.len() as int) == rej0);
            assert(eff == (self@, e.skip(old(out)@.len() as int), rejected@.skip(old(rejected)@.len() as int)));
        }
    }
}

} // verus!
