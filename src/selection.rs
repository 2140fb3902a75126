use vstd::prelude::*;
use crate::message::Message;

verus! {

/// The position of the first `c` in `m`, if `c` occurs in it.
pub open spec fn first_position(m: Seq<char>, c: char) -> Option<int> {
    if exists|i: int| 0 <= i < m.len() && m[i] == c {
        Some(choose|i: int| 0 <= i < m.len() && m[i] == c && forall|j: int| 0 <= j < i ==> m[j] != c)
    } else {
        None
    }
}

/// The message that pressing `c` sends for mapping `k`: mappings before
/// `split_count` belong to split routes, the others to merge routes.
pub open spec fn key_message(ms: Seq<Seq<char>>, split_count: nat, k: int, c: char) -> Option<Message> {
    match first_position(ms[k], c) {
        Some(p) => Some(
            if k < split_count {
                Message::Split(k as usize, p as usize)
            } else {
                Message::Merge((k - split_count) as usize, p as usize)
            },
        ),
        None => None,
    }
}

/// The messages that pressing `c` sends for the first `n` mappings, in order.
pub open spec fn key_messages(ms: Seq<Seq<char>>, split_count: nat, c: char, n: nat) -> Seq<Message>
    decreases n,
{
    if n == 0 {
        Seq::empty()
    } else {
        key_messages(ms, split_count, c, (n - 1) as nat) + match key_message(ms, split_count, n - 1, c) {
            Some(m) => seq![m],
            None => Seq::empty(),
        }
    }
}

/// The selections after pressing `c`: each mapping holding `c` selects its
/// first position of it, the others keep theirs.
pub open spec fn key_selections(ms: Seq<Seq<char>>, sel: Seq<nat>, c: char) -> Seq<nat> {
    Seq::new(sel.len(), |k: int| match first_position(ms[k], c) {
        Some(p) => p as nat,
        None => sel[k],
    })
}

/// The non-empty mappings among `ss`, in order; an empty one has no ports.
pub open spec fn nonempty_mappings(ss: Seq<String>) -> Seq<Seq<char>>
    decreases ss.len(),
{
    if ss.len() == 0 {
        Seq::empty()
    } else {
        let rest = nonempty_mappings(ss.drop_last());
        if ss.last()@.len() > 0 {
            rest.push(ss.last()@)
        } else {
            rest
        }
    }
}

/// One cell of the display: the selected character is bracketed.
pub open spec fn cell_text(c: char, on: bool) -> Seq<char> {
    if on {
        seq!['[', c, ']', ' ']
    } else {
        seq![' ', c, ' ', ' ']
    }
}

/// The first `n` cells of mapping `m` with position `sel` selected.
pub open spec fn mapping_text(m: Seq<char>, sel: nat, n: nat) -> Seq<char>
    decreases n,
{
    if n == 0 {
        Seq::empty()
    } else {
        mapping_text(m, sel, (n - 1) as nat) + cell_text(m[n - 1], n - 1 == sel)
    }
}

/// The separator written after each mapping.
pub open spec fn separator() -> Seq<char> {
    seq![' ', '|', ' ', ' ']
}

/// The display line for the first `n` mappings.
pub open spec fn display_text(ms: Seq<Seq<char>>, sel: Seq<nat>, n: nat) -> Seq<char>
    decreases n,
{
    if n == 0 {
        Seq::empty()
    } else {
        display_text(ms, sel, (n - 1) as nat) + mapping_text(ms[n - 1], sel[n - 1], ms[n - 1].len()) + separator()
    }
}

/// Relies on `String::push`, which appends one character at the end.
#[verifier::external_body]
fn push_char(s: &mut String, c: char)
    ensures
        final(s)@ == old(s)@.push(c),
{
    s.push(c)
}

/// The first position of `c` in `m`, if any.
pub fn find_char(m: &Vec<char>, c: char) -> (r: Option<usize>)
    ensures
        r matches Some(p) ==> p < m@.len() && m@[p as int] == c && first_position(m@, c) == Some(p as int),
        r is None ==> first_position(m@, c) is None,
{
    let mut i: usize = 0;
    while i < m.len()
        invariant
            i <= m@.len(),
            forall|j: int| 0 <= j < i ==> m@[j] != c,
        decreases m@.len() - i,
    {
        if m[i] == c {
            proof {
                let w = choose|k: int| 0 <= k < m@.len() && m@[k] == c && forall|j: int| 0 <= j < k ==> m@[j] != c;
                assert(0 <= i < m@.len() && m@[i as int] == c && forall|j: int| 0 <= j < i ==> m@[j] != c);
                assert(w == i) by {
                    if w < i {
                        assert(m@[w] != c);
                    } else if w > i {
                        assert(m@[i as int] != c);
                    }
                }
            }
            return Some(i);
        }
        i = i + 1;
    }
    None
}

/// The characters of `s`, in order.
fn chars_of(s: &String) -> (r: Vec<char>)
    ensures
        r@ == s@,
{
    let t = s.as_str();
    let n = t.unicode_len();
    let mut r: Vec<char> = Vec::with_capacity(n);
    let mut i: usize = 0;
    while i < n
        invariant
            n == t@.len(),
            t@ == s@,
            i <= n,
            r@ == t@.subrange(0, i as int),
        decreases n - i,
    {
        r.push(t.get_char(i));
        i = i + 1;
    }
    assert(r@ == t@);
    r
}

/// The keyboard side: the mapping strings, split routes' first, and the
/// selection the operator has asked for on each.
pub struct SelectionController {
    mappings: Vec<Vec<char>>,
    selected: Vec<usize>,
    split_count: usize,
}

/// What a controller holds, as the contracts see it.
pub struct SelectionView {
    pub mappings: Seq<Seq<char>>,
    pub selected: Seq<nat>,
    pub split_count: nat,
}

impl View for SelectionController {
    type V = SelectionView;

    closed spec fn view(&self) -> SelectionView {
        SelectionView {
            mappings: self.mappings@.map_values(|m: Vec<char>| m@),
            selected: self.selected@.map_values(|s: usize| s as nat),
            split_count: self.split_count as nat,
        }
    }
}

impl SelectionController {
    /// One selection per mapping, each in range, no mapping empty.
    pub open spec fn wf(&self) -> bool {
        &&& self@.selected.len() == self@.mappings.len()
        &&& self@.split_count <= self@.mappings.len()
        &&& forall|k: int| 0 <= k < self@.mappings.len() ==> #[trigger] self@.mappings[k].len() > 0
        &&& forall|k: int| 0 <= k < self@.mappings.len() ==> #[trigger] self@.selected[k] < self@.mappings[k].len()
    }

    /// A controller for the split mappings `split` and the merge mappings
    /// `merge`; empty mappings are left out. Every selection starts at 0.
    pub fn new(split: &Vec<String>, merge: &Vec<String>) -> (r: SelectionController)
        ensures
            r.wf(),
            r@.mappings == nonempty_mappings(split@) + nonempty_mappings(merge@),
            r@.split_count == nonempty_mappings(split@).len(),
            r@.selected == Seq::new(r@.mappings.len(), |k: int| 0nat),
    {
        let mut mappings: Vec<Vec<char>> = Vec::new();
        let mut selected: Vec<usize> = Vec::new();
        let mut i: usize = 0;
        while i < split.len()
            invariant
                i <= split@.len(),
                mappings@.map_values(|m: Vec<char>| m@) == nonempty_mappings(split@.subrange(0, i as int)),
                selected@.len() == mappings@.len(),
                forall|k: int| 0 <= k < selected@.len() ==> selected@[k] == 0,
                forall|k: int| 0 <= k < mappings@.len() ==> #[trigger] mappings@[k]@.len() > 0,
            decreases split@.len() - i,
        {
            let m = chars_of(&split[i]);
            proof {
                let nxt = split@.subrange(0, i + 1);
                assert(nxt.drop_last() == split@.subrange(0, i as int));
            }
            let ghost mv0 = mappings@.map_values(|m: Vec<char>| m@);
            if m.len() > 0 {
                mappings.push(m);
                selected.push(0);
            }
            proof {
                assert(m@.len() > 0 ==> mappings@.map_values(|m: Vec<char>| m@) == mv0.push(m@));
                assert(m@.len() == 0 ==> mappings@.map_values(|m: Vec<char>| m@) == mv0);
                assert(mappings@.map_values(|m: Vec<char>| m@) == nonempty_mappings(split@.subrange(0, i + 1)));
            }
            i = i + 1;
        }
        assert(split@.subrange(0, split@.len() as int) == split@);
        let ghost first = mappings@.map_values(|m: Vec<char>| m@);
        let split_count = mappings.len();
        let mut j: usize = 0;
        while j < merge.len()
            invariant
                j <= merge@.len(),
                split_count <= mappings@.len(),
                first == nonempty_mappings(split@),
                split_count == first.len(),
                mappings@.map_values(|m: Vec<char>| m@) == first + nonempty_mappings(merge@.subrange(0, j as int)),
                selected@.len() == mappings@.len(),
                forall|k: int| 0 <= k < selected@.len() ==> selected@[k] == 0,
                forall|k: int| 0 <= k < mappings@.len() ==> #[trigger] mappings@[k]@.len() > 0,
            decreases merge@.len() - j,
        {
            let m = chars_of(&merge[j]);
            proof {
                let nxt = merge@.subrange(0, j + 1);
                assert(nxt.drop_last() == merge@.subrange(0, j as int));
            }
            let ghost mv0 = mappings@.map_values(|m: Vec<char>| m@);
            if m.len() > 0 {
                mappings.push(m);
                selected.push(0);
            }
            proof {
                assert(m@.len() > 0 ==> mappings@.map_values(|m: Vec<char>| m@) == mv0.push(m@));
                assert(m@.len() == 0 ==> mappings@.map_values(|m: Vec<char>| m@) == mv0);
                assert(mappings@.map_values(|m: Vec<char>| m@) == first + nonempty_mappings(merge@.subrange(0, j + 1)));
            }
            j = j + 1;
        }
        assert(merge@.subrange(0, merge@.len() as int) == merge@);
        let r = SelectionController { mappings, selected, split_count };
        assert(r@.selected == Seq::new(r@.mappings.len(), |k: int| 0nat));
        r
    }
    /// The number of mappings, split and merge together.
    pub fn mapping_count(&self) -> (r: usize)
        ensures
            r == self@.mappings.len(),
    {
        self.mappings.len()
    }

    /// The number of split mappings; they come first.
    pub fn split_count(&self) -> (r: usize)
        ensures
            r == self@.split_count,
    {
        self.split_count
    }

    /// The selection asked for on mapping `k`.
    pub fn selected(&self, k: usize) -> (r: usize)
        requires
            k < self@.selected.len(),
        ensures
            r == self@.selected[k as int],
    {
        self.selected[k]
    }

    /// The port count of each mapping from `from` up to `to`, in order.
    fn port_counts(&self, from: usize, to: usize) -> (r: Vec<usize>)
        requires
            self.wf(),
            from <= to <= self@.mappings.len(),
        ensures
            r@.len() == to - from,
            forall|k: int| 0 <= k < r@.len() ==> #[trigger] r@[k] == self@.mappings[from + k].len(),
            forall|k: int| 0 <= k < r@.len() ==> #[trigger] r@[k] > 0,
    {
        let mut r: Vec<usize> = Vec::with_capacity(to - from);
        let mut k: usize = from;
        while k < to
            invariant
                self.wf(),
                from <= k <= to <= self@.mappings.len(),
                r@.len() == k - from,
                forall|j: int| 0 <= j < r@.len() ==> #[trigger] r@[j] == self@.mappings[from + j].len(),
                forall|j: int| 0 <= j < r@.len() ==> #[trigger] r@[j] > 0,
            decreases to - k,
        {
            assert(self.mappings@[k as int]@ == self@.mappings[k as int]);
            r.push(self.mappings[k].len());
            k = k + 1;
        }
        r
    }

    /// The output count of each split route: its mapping's length.
    pub fn split_ports(&self) -> (r: Vec<usize>)
        requires
            self.wf(),
        ensures
            r@.len() == self@.split_count,
            forall|k: int| 0 <= k < r@.len() ==> #[trigger] r@[k] == self@.mappings[k].len(),
            forall|k: int| 0 <= k < r@.len() ==> #[trigger] r@[k] > 0,
    {
        self.port_counts(0, self.split_count)
    }

    /// The input count of each merge route: its mapping's length.
    pub fn merge_ports(&self) -> (r: Vec<usize>)
        requires
            self.wf(),
        ensures
            r@.len() == self@.mappings.len() - self@.split_count,
            forall|k: int| 0 <= k < r@.len() ==> #[trigger] r@[k] == self@.mappings[self@.split_count + k].len(),
            forall|k: int| 0 <= k < r@.len() ==> #[trigger] r@[k] > 0,
    {
        self.port_counts(self.split_count, self.mappings.len())
    }

    /// Handles a pressed key `c`: every mapping holding `c` selects its first
    /// position of it, and for each such mapping, in order, a route change is
    /// returned for sending. Other keys change nothing.
    pub fn press(&mut self, c: char) -> (r: Vec<Message>)
        requires
            old(self).wf(),
        ensures
            final(self).wf(),
            final(self)@.mappings == old(self)@.mappings,
            final(self)@.split_count == old(self)@.split_count,
            final(self)@.selected == key_selections(old(self)@.mappings, old(self)@.selected, c),
            r@ == key_messages(old(self)@.mappings, old(self)@.split_count, c, old(self)@.mappings.len()),
    {
        let ghost v0 = self@;
        let mut msgs: Vec<Message> = Vec::new();
        let mut k: usize = 0;
        while k < self.mappings.len()
            invariant
                self@.mappings == v0.mappings,
                self@.split_count == v0.split_count,
                self@.selected.len() == v0.selected.len(),
                v0.selected.len() == v0.mappings.len(),
                v0.split_count <= v0.mappings.len(),
                forall|j: int| 0 <= j < v0.mappings.len() ==> #[trigger] v0.mappings[j].len() > 0,
                forall|j: int| 0 <= j < v0.mappings.len() ==> #[trigger] v0.selected[j] < v0.mappings[j].len(),
                k <= v0.mappings.len(),
                forall|j: int| 0 <= j < k ==> #[trigger] self@.selected[j] == key_selections(v0.mappings, v0.selected, c)[j],
                forall|j: int| k <= j < v0.mappings.len() ==> #[trigger] self@.selected[j] == v0.selected[j],
                forall|j: int| 0 <= j < v0.mappings.len() ==> #[trigger] self@.selected[j] < v0.mappings[j].len(),
                msgs@ == key_messages(v0.mappings, v0.split_count, c, k as nat),
            decreases v0.mappings.len() - k,
        {
            assert(self.mappings@[k as int]@ == v0.mappings[k as int]);
            let found = find_char(&self.mappings[k], c);
            let ghost before = self@.selected;
            match found {
                Some(p) => {
                    self.selected[k] = p;
                    let m = if k < self.split_count {
                        Message::Split(k, p)
                    } else {
                        Message::Merge(k - self.split_count, p)
                    };
                    msgs.push(m);
                    assert(self@.selected == before.update(k as int, p as nat));
                },
                None => {
                    assert(self@.selected == before);
                },
            }
            proof {
                assert(key_messages(v0.mappings, v0.split_count, c, (k + 1) as nat) == key_messages(v0.mappings, v0.split_count, c, k as nat) + match key_message(v0.mappings, v0.split_count, k as int, c) {
                    Some(m) => seq![m],
                    None => Seq::<Message>::empty(),
                });
                assert forall|j: int| 0 <= j < k + 1 implies #[trigger] self@.selected[j] == key_selections(v0.mappings, v0.selected, c)[j] by {
                    if j < k {
                        assert(self@.selected[j] == before[j]);
                    }
                }
                assert forall|j: int| k + 1 <= j < v0.mappings.len() implies #[trigger] self@.selected[j] == v0.selected[j] by {
                    assert(self@.selected[j] == before[j]);
                }
                assert forall|j: int| 0 <= j < v0.mappings.len() implies #[trigger] self@.selected[j] < v0.mappings[j].len() by {
                    if j != k {
                        assert(self@.selected[j] == before[j]);
                    }
                }
            }
            k = k + 1;
        }
        proof {
            assert(self@.selected == key_selections(v0.mappings, v0.selected, c));
        }
        msgs
    }

    /// The display line: each mapping's characters with the selected one in
    /// brackets, each mapping followed by a separator.
    pub fn render(&self) -> (r: String)
        requires
            self.wf(),
        ensures
            r@ == display_text(self@.mappings, self@.selected, self@.mappings.len()),
    {
        let mut s = String::new();
        let mut k: usize = 0;
        while k < self.mappings.len()
            invariant
                self.wf(),
                k <= self@.mappings.len(),
                s@ == display_text(self@.mappings, self@.selected, k as nat),
            decreases self@.mappings.len() - k,
        {
            let m = &self.mappings[k];
            let sel = self.selected[k];
            assert(m@ == self@.mappings[k as int]);
            assert(sel == self@.selected[k as int]);
            let ghost line = s@;
            let mut i: usize = 0;
            while i < m.len()
                invariant
                    i <= m@.len(),
                    s@ == line + mapping_text(m@, sel as nat, i as nat),
                decreases m@.len() - i,
            {
                let c = m[i];
                if i == sel {
                    push_char(&mut s, '[');
                    push_char(&mut s, c);
                    push_char(&mut s, ']');
                    push_char(&mut s, ' ');
                } else {
                    push_char(&mut s, ' ');
                    push_char(&mut s, c);
                    push_char(&mut s, ' ');
                    push_char(&mut s, ' ');
                }
                assert(s@ == line + mapping_text(m@, sel as nat, (i + 1) as nat));
                i = i + 1;
            }
            push_char(&mut s, ' ');
            push_char(&mut s, '|');
            push_char(&mut s, ' ');
            push_char(&mut s, ' ');
            assert(s@ == display_text(self@.mappings, self@.selected, (k + 1) as nat));
            k = k + 1;
        }
        s
    }
}

} // verus!
