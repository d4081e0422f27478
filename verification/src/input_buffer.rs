//! Per-tick storage of one peer's inputs, with a fallback for ticks that have none.

use vstd::prelude::*;
use crate::message::TickInput;
use crate::types::{Input, Tick};

verus! {

/// The input to simulate `tick` with: the one recorded for `tick` if there is one,
/// else the one recorded for the nearest earlier tick, else none.
pub open spec fn input_at_or_before(m: Map<Tick, Input>, tick: Tick) -> Option<Input>
    decreases tick,
{
    if m.contains_key(tick) {
        Some(m[tick])
    } else if tick == 0 {
        None
    } else {
        input_at_or_before(m, (tick - 1) as Tick)
    }
}

/// `m` after the inputs of a message were recorded in the order they stand in it.
pub open spec fn merge_inputs(m: Map<Tick, Input>, inputs: Seq<TickInput>) -> Map<Tick, Input>
    decreases inputs.len(),
{
    if inputs.len() == 0 {
        m
    } else {
        merge_inputs(m, inputs.drop_last()).insert(inputs.last().tick, inputs.last().input)
    }
}

/// Whether `k` is the latest tick up to `tick` that `m` has an input for.
pub open spec fn is_latest_at_or_before(m: Map<Tick, Input>, tick: Tick, k: Tick) -> bool {
    &&& m.contains_key(k)
    &&& k <= tick
    &&& forall|k2: Tick| #[trigger] m.contains_key(k2) && k2 <= tick ==> k2 <= k
}

/// The fallback is the input of the latest tick that is recorded and not after `tick`.
pub proof fn lemma_input_at_latest(m: Map<Tick, Input>, tick: Tick, k: Tick)
    requires
        is_latest_at_or_before(m, tick, k),
    ensures
        input_at_or_before(m, tick) == Some(m[k]),
    decreases tick,
{
    if !m.contains_key(tick) {
        assert(tick != k);
        lemma_input_at_latest(m, (tick - 1) as Tick, k);
    }
}

/// Where no input is recorded for `tick` or before it, there is no fallback.
pub proof fn lemma_input_at_none(m: Map<Tick, Input>, tick: Tick)
    requires
        forall|k: Tick| #[trigger] m.contains_key(k) ==> k > tick,
    ensures
        input_at_or_before(m, tick) is None,
    decreases tick,
{
    if tick > 0 {
        lemma_input_at_none(m, (tick - 1) as Tick);
    }
}

/// A fallback is never made up: it is an input that was recorded, for `tick` or before.
pub proof fn lemma_input_at_is_recorded(m: Map<Tick, Input>, tick: Tick)
    ensures
        input_at_or_before(m, tick) matches Some(v) ==> exists|k: Tick|
            #[trigger] m.contains_key(k) && k <= tick && m[k] == v,
        m.contains_key(tick) ==> input_at_or_before(m, tick) == Some(m[tick]),
    decreases tick,
{
    if !m.contains_key(tick) && tick > 0 {
        lemma_input_at_is_recorded(m, (tick - 1) as Tick);
    }
}

/// Inputs recorded for two different ticks can arrive in either order.
pub proof fn lemma_arrival_order_is_immaterial(
    m: Map<Tick, Input>,
    a: TickInput,
    b: TickInput,
    tick: Tick,
)
    requires
        a.tick != b.tick,
    ensures
        m.insert(a.tick, a.input).insert(b.tick, b.input) == m.insert(b.tick, b.input).insert(
            a.tick,
            a.input,
        ),
        input_at_or_before(m.insert(a.tick, a.input).insert(b.tick, b.input), tick)
            == input_at_or_before(m.insert(b.tick, b.input).insert(a.tick, a.input), tick),
{
    assert(m.insert(a.tick, a.input).insert(b.tick, b.input) =~= m.insert(b.tick, b.input).insert(
        a.tick,
        a.input,
    ));
}

/// Whether `i` is the place of the last input of `inputs` for `tick`.
pub open spec fn is_last_for(inputs: Seq<TickInput>, tick: Tick, i: int) -> bool {
    &&& 0 <= i < inputs.len()
    &&& inputs[i].tick == tick
    &&& forall|j: int| i < j < inputs.len() ==> (#[trigger] inputs[j]).tick != tick
}

/// After the inputs of a message were recorded, a tick has an input if it had one
/// or the message holds one for it. Its input is the last that the message holds
/// for it, wherever in the message that stands; a tick that the message does not
/// name keeps the input it had.
pub proof fn lemma_merge_inputs(m: Map<Tick, Input>, inputs: Seq<TickInput>, tick: Tick)
    ensures
        merge_inputs(m, inputs).contains_key(tick) <==> (m.contains_key(tick) || exists|i: int|
            0 <= i < inputs.len() && (#[trigger] inputs[i]).tick == tick),
        forall|i: int|
            is_last_for(inputs, tick, i) ==> merge_inputs(m, inputs)[tick] == inputs[i].input,
        (forall|i: int| 0 <= i < inputs.len() ==> (#[trigger] inputs[i]).tick != tick)
            ==> merge_inputs(m, inputs)[tick] == m[tick],
    decreases inputs.len(),
{
    if inputs.len() > 0 {
        let rest = inputs.drop_last();
        let last = inputs.len() - 1;
        lemma_merge_inputs(m, rest, tick);
        if exists|i: int| 0 <= i < rest.len() && (#[trigger] rest[i]).tick == tick {
            let i = choose|i: int| 0 <= i < rest.len() && (#[trigger] rest[i]).tick == tick;
            assert(inputs[i].tick == tick);
        }
        if exists|i: int| 0 <= i < inputs.len() && (#[trigger] inputs[i]).tick == tick {
            let i = choose|i: int| 0 <= i < inputs.len() && (#[trigger] inputs[i]).tick == tick;
            if i < last {
                assert(rest[i].tick == tick);
            }
        }
        assert forall|i: int| is_last_for(inputs, tick, i) implies merge_inputs(m, inputs)[tick]
            == inputs[i].input by {
            if i < last {
                assert(inputs[last].tick != tick);
                assert(is_last_for(rest, tick, i)) by {
                    assert(rest[i] == inputs[i]);
                    assert forall|j: int| i < j < rest.len() implies (#[trigger] rest[j]).tick
                        != tick by {
                        assert(rest[j] == inputs[j]);
                    }
                }
            }
        }
        if forall|i: int| 0 <= i < inputs.len() ==> (#[trigger] inputs[i]).tick != tick {
            assert forall|i: int| 0 <= i < rest.len() implies (#[trigger] rest[i]).tick != tick by {
                assert(rest[i] == inputs[i]);
            }
            assert(inputs[last].tick != tick);
        }
    }
}

/// Whether the ticks of `s` strictly increase.
pub open spec fn strictly_increasing(s: Seq<TickInput>) -> bool {
    forall|i: int, j: int| 0 <= i < j < s.len() ==> s[i].tick < s[j].tick
}

/// The inputs that a list of entries holds, by tick.
pub open spec fn recorded(s: Seq<TickInput>) -> Map<Tick, Input> {
    Map::new(
        |t: Tick| exists|i: int| 0 <= i < s.len() && #[trigger] s[i].tick == t,
        |t: Tick| s[choose|i: int| 0 <= i < s.len() && #[trigger] s[i].tick == t].input,
    )
}

proof fn lemma_recorded_at(s: Seq<TickInput>, i: int)
    requires
        strictly_increasing(s),
        0 <= i < s.len(),
    ensures
        recorded(s).contains_key(s[i].tick),
        recorded(s)[s[i].tick] == s[i].input,
{
    let t = s[i].tick;
    let j = choose|j: int| 0 <= j < s.len() && #[trigger] s[j].tick == t;
    assert(j == i) by {
        if j < i {
            assert(s[j].tick < s[i].tick);
        } else if i < j {
            assert(s[i].tick < s[j].tick);
        }
    }
}

proof fn lemma_recorded_insert(s: Seq<TickInput>, pos: int, e: TickInput)
    requires
        strictly_increasing(s),
        0 <= pos <= s.len(),
        forall|i: int| 0 <= i < pos ==> s[i].tick < e.tick,
        forall|i: int| pos <= i < s.len() ==> e.tick < s[i].tick,
    ensures
        strictly_increasing(s.insert(pos, e)),
        recorded(s.insert(pos, e)) == recorded(s).insert(e.tick, e.input),
{
    let s2 = s.insert(pos, e);
    assert(strictly_increasing(s2));
    assert forall|t: Tick| recorded(s2).contains_key(t) <==> recorded(s).insert(
        e.tick,
        e.input,
    ).contains_key(t) by {
        if recorded(s2).contains_key(t) {
            let i = choose|i: int| 0 <= i < s2.len() && #[trigger] s2[i].tick == t;
            if i < pos {
                assert(s[i].tick == t);
            } else if i > pos {
                assert(s[i - 1].tick == t);
            }
        }
        if recorded(s).contains_key(t) {
            let i = choose|i: int| 0 <= i < s.len() && #[trigger] s[i].tick == t;
            if i < pos {
                assert(s2[i].tick == t);
            } else {
                assert(s2[i + 1].tick == t);
            }
        }
        if t == e.tick {
            assert(s2[pos].tick == t);
        }
    }
    assert forall|t: Tick| recorded(s2).contains_key(t) implies recorded(s2)[t] == recorded(
        s,
    ).insert(e.tick, e.input)[t] by {
        let i = choose|i: int| 0 <= i < s2.len() && #[trigger] s2[i].tick == t;
        lemma_recorded_at(s2, i);
        if i < pos {
            lemma_recorded_at(s, i);
        } else if i > pos {
            lemma_recorded_at(s, i - 1);
        }
    }
    assert(recorded(s2) =~= recorded(s).insert(e.tick, e.input));
}

proof fn lemma_recorded_update(s: Seq<TickInput>, pos: int, e: TickInput)
    requires
        strictly_increasing(s),
        0 <= pos < s.len(),
        s[pos].tick == e.tick,
    ensures
        strictly_increasing(s.update(pos, e)),
        recorded(s.update(pos, e)) == recorded(s).insert(e.tick, e.input),
{
    let s2 = s.update(pos, e);
    assert(strictly_increasing(s2));
    assert forall|t: Tick| recorded(s2).contains_key(t) <==> recorded(s).insert(
        e.tick,
        e.input,
    ).contains_key(t) by {
        if recorded(s2).contains_key(t) {
            let i = choose|i: int| 0 <= i < s2.len() && #[trigger] s2[i].tick == t;
            assert(s[i].tick == t);
        }
        if recorded(s).contains_key(t) {
            let i = choose|i: int| 0 <= i < s.len() && #[trigger] s[i].tick == t;
            assert(s2[i].tick == t);
        }
        if t == e.tick {
            assert(s2[pos].tick == t);
        }
    }
    assert forall|t: Tick| recorded(s2).contains_key(t) implies recorded(s2)[t] == recorded(
        s,
    ).insert(e.tick, e.input)[t] by {
        let i = choose|i: int| 0 <= i < s2.len() && #[trigger] s2[i].tick == t;
        lemma_recorded_at(s2, i);
        if i != pos {
            lemma_recorded_at(s, i);
        }
    }
    assert(recorded(s2) =~= recorded(s).insert(e.tick, e.input));
}

/// The inputs received from one peer, by the tick each was produced for.
#[derive(Debug)]
pub struct InputBuffer {
    entries: Vec<TickInput>,
}

impl View for InputBuffer {
    type V = Map<Tick, Input>;

    closed spec fn view(&self) -> Map<Tick, Input> {
        recorded(self.entries@)
    }
}

impl InputBuffer {
    /// The representation invariant: the entries are kept in the order of their ticks.
    pub closed spec fn wf(&self) -> bool {
        strictly_increasing(self.entries@)
    }

    /// A buffer that holds no input.
    pub fn new() -> (r: Self)
        ensures
            r.wf(),
            r@ == Map::<Tick, Input>::empty(),
    {
        let r = InputBuffer { entries: Vec::new() };
        assert(r@ =~= Map::<Tick, Input>::empty());
        r
    }

    /// How many ticks have an input.
    pub fn len(&self) -> (r: usize)
        requires
            self.wf(),
        ensures
            self@.dom().finite(),
            r == self@.dom().len(),
    {
        proof {
            lemma_recorded_len(self.entries@);
        }
        self.entries.len()
    }

    /// The input recorded for `tick`, if there is one.
    pub fn get(&self, tick: Tick) -> (r: Option<Input>)
        requires
            self.wf(),
        ensures
            r == (if self@.contains_key(tick) {
                Some(self@[tick])
            } else {
                None
            }),
    {
        let mut i: usize = self.entries.len();
        while i > 0
            invariant
                self.wf(),
                i <= self.entries@.len(),
                forall|j: int| i <= j < self.entries@.len() ==> self.entries@[j].tick != tick,
            decreases i,
        {
            let e = self.entries[i - 1];
            if e.tick == tick {
                proof {
                    lemma_recorded_at(self.entries@, i - 1);
                }
                return Some(e.input);
            }
            i -= 1;
        }
        None
    }

    /// The input to simulate `tick` with: the one recorded for it, else the one recorded
    /// for the nearest earlier tick, else none.
    pub fn get_or_last(&self, tick: Tick) -> (r: Option<Input>)
        requires
            self.wf(),
        ensures
            r == input_at_or_before(self@, tick),
    {
        let mut i: usize = self.entries.len();
        while i > 0
            invariant
                self.wf(),
                i <= self.entries@.len(),
                forall|j: int| i <= j < self.entries@.len() ==> self.entries@[j].tick > tick,
            decreases i,
        {
            let e = self.entries[i - 1];
            if e.tick <= tick {
                proof {
                    let s = self.entries@;
                    lemma_recorded_at(s, i - 1);
                    assert forall|k2: Tick| #[trigger]
                        self@.contains_key(k2) && k2 <= tick implies k2 <= e.tick by {
                        let j = choose|j: int| 0 <= j < s.len() && #[trigger] s[j].tick == k2;
                        if j > i - 1 {
                            assert(s[j].tick > tick);
                        } else if j < i - 1 {
                            assert(s[j].tick < s[i - 1].tick);
                        }
                    }
                    lemma_input_at_latest(self@, tick, e.tick);
                }
                return Some(e.input);
            }
            i -= 1;
        }
        proof {
            lemma_input_at_none(self@, tick);
        }
        None
    }

    /// Records `input` for `tick`. An input recorded for that tick before is replaced.
    pub fn set(&mut self, tick: Tick, input: Input)
        requires
            old(self).wf(),
        ensures
            final(self).wf(),
            final(self)@ == old(self)@.insert(tick, input),
    {
        let mut i: usize = self.entries.len();
        while i > 0 && self.entries[i - 1].tick > tick
            invariant
                self.entries == old(self).entries,
                self.wf(),
                i <= self.entries@.len(),
                forall|j: int| i <= j < self.entries@.len() ==> self.entries@[j].tick > tick,
            decreases i,
        {
            i -= 1;
        }
        let entry = TickInput { tick, input };
        if i > 0 && self.entries[i - 1].tick == tick {
            proof {
                lemma_recorded_update(self.entries@, i - 1, entry);
            }
            self.entries[i - 1] = entry;
        } else {
            proof {
                let s = self.entries@;
                assert forall|j: int| 0 <= j < i implies s[j].tick < tick by {
                    if j < i - 1 {
                        assert(s[j].tick < s[i - 1].tick);
                    }
                }
                lemma_recorded_insert(s, i as int, entry);
            }
            self.entries.insert(i, entry);
        }
    }

    /// Records the inputs of a message, in the order they stand in it.
    pub fn update_from_message(&mut self, inputs: &Vec<TickInput>)
        requires
            old(self).wf(),
        ensures
            final(self).wf(),
            final(self)@ == merge_inputs(old(self)@, inputs@),
    {
        let n = inputs.len();
        let mut i: usize = 0;
        while i < n
            invariant
                n == inputs@.len(),
                i <= n,
                self.wf(),
                self@ == merge_inputs(old(self)@, inputs@.take(i as int)),
            decreases n - i,
        {
            let e = inputs[i];
            self.set(e.tick, e.input);
            proof {
                assert(inputs@.take(i + 1).drop_last() =~= inputs@.take(i as int));
            }
            i += 1;
        }
        assert(inputs@.take(n as int) =~= inputs@);
    }
}

proof fn lemma_recorded_len(s: Seq<TickInput>)
    requires
        strictly_increasing(s),
    ensures
        recorded(s).dom().finite(),
        recorded(s).dom().len() == s.len(),
    decreases s.len(),
{
    if s.len() == 0 {
        assert(recorded(s).dom() =~= Set::<Tick>::empty());
    } else {
        let p = s.drop_last();
        lemma_recorded_len(p);
        assert(strictly_increasing(p));
        lemma_recorded_insert(p, p.len() as int, s.last());
        assert(p.insert(p.len() as int, s.last()) =~= s);
        assert(!recorded(p).contains_key(s.last().tick)) by {
            if recorded(p).contains_key(s.last().tick) {
                let i = choose|i: int| 0 <= i < p.len() && #[trigger] p[i].tick == s.last().tick;
                assert(s[i].tick < s[s.len() - 1].tick);
            }
        }
        assert(recorded(s).dom() =~= recorded(p).dom().insert(s.last().tick));
    }
}

} // verus!
