//! The short-term memory (a bounded first-in, first-out buffer of
//! conversation events) and the reasoning trace (an append-only list of steps).

use std::collections::VecDeque;
use vstd::prelude::*;

use crate::clock::{is_uuid_v4_text, new_id, now_secs};

verus! {

#[verifier::external_type_specification]
#[verifier::external_body]
pub struct ExJsonValue(serde_json::Value);

/// One event of the conversation held in short-term memory.
#[derive(Debug)]
pub struct ShortTermEvent {
    pub id: String,
    pub role: String,
    pub content: String,
    pub timestamp: u64,
    pub metadata: serde_json::Value,
}

/// One step of the agent's reasoning.
#[derive(Debug)]
pub struct ReasoningStep {
    pub id: String,
    pub step_type: String,
    pub content: String,
    pub timestamp: u64,
    pub parent_id: Option<String>,
    pub tool_calls: Option<Vec<ToolCall>>,
}

/// A tool invocation recorded in a reasoning step.
#[derive(Debug)]
pub struct ToolCall {
    pub tool: String,
    pub input: serde_json::Value,
    pub output: Option<String>,
}

impl ShortTermEvent {
    /// A new event with a fresh random identifier, stamped with the current
    /// time; `None` when the clock reads earlier than the Unix epoch.
    pub fn new(role: String, content: String, metadata: serde_json::Value) -> (ev: Option<Self>)
        ensures
            match ev {
                Some(ev) => {
                    &&& ev.role == role
                    &&& ev.content == content
                    &&& ev.metadata == metadata
                    &&& is_uuid_v4_text(ev.id@)
                },
                None => true,
            },
    {
        let id = new_id();
        match now_secs() {
            Some(timestamp) => Some(ShortTermEvent::stamped(id, role, content, timestamp, metadata)),
            None => None,
        }
    }

    /// The event with these fields.
    pub fn stamped(
        id: String,
        role: String,
        content: String,
        timestamp: u64,
        metadata: serde_json::Value,
    ) -> (ev: Self)
        ensures
            ev.id == id,
            ev.role == role,
            ev.content == content,
            ev.timestamp == timestamp,
            ev.metadata == metadata,
    {
        ShortTermEvent { id, role, content, timestamp, metadata }
    }
}

impl ReasoningStep {
    /// A new step with a fresh random identifier, stamped with the current
    /// time; `None` when the clock reads earlier than the Unix epoch.
    pub fn new(
        step_type: String,
        content: String,
        parent_id: Option<String>,
        tool_calls: Option<Vec<ToolCall>>,
    ) -> (step: Option<Self>)
        ensures
            match step {
                Some(step) => {
                    &&& step.step_type == step_type
                    &&& step.content == content
                    &&& step.parent_id == parent_id
                    &&& step.tool_calls == tool_calls
                    &&& is_uuid_v4_text(step.id@)
                },
                None => true,
            },
    {
        let id = new_id();
        match now_secs() {
            Some(timestamp) => Some(
                ReasoningStep::stamped(id, step_type, content, timestamp, parent_id, tool_calls),
            ),
            None => None,
        }
    }

    /// The step with these fields.
    pub fn stamped(
        id: String,
        step_type: String,
        content: String,
        timestamp: u64,
        parent_id: Option<String>,
        tool_calls: Option<Vec<ToolCall>>,
    ) -> (step: Self)
        ensures
            step.id == id,
            step.step_type == step_type,
            step.content == content,
            step.timestamp == timestamp,
            step.parent_id == parent_id,
            step.tool_calls == tool_calls,
    {
        ReasoningStep { id, step_type, content, timestamp, parent_id, tool_calls }
    }
}

/// `buf` after `item` is added to a buffer that holds at most `max` items:
/// when the buffer is full the oldest item leaves first. A buffer of
/// capacity 0 is never full, so it keeps every item.
pub open spec fn push_bounded<T>(buf: Seq<T>, max: nat, item: T) -> Seq<T> {
    if buf.len() == max && buf.len() > 0 {
        buf.drop_first().push(item)
    } else {
        buf.push(item)
    }
}

/// `buf` after each of `items` is added in turn with `push_bounded`.
pub open spec fn push_all_bounded<T>(buf: Seq<T>, max: nat, items: Seq<T>) -> Seq<T>
    decreases items.len(),
{
    if items.len() == 0 {
        buf
    } else {
        push_bounded(push_all_bounded(buf, max, items.drop_last()), max, items.last())
    }
}

/// The last `n` items of `s` (all of them when `s` is shorter), newest first.
pub open spec fn newest_first<T>(s: Seq<T>, n: nat) -> Seq<T> {
    let k = if n < s.len() { n } else { s.len() };
    Seq::new(k, |i: int| s[s.len() - 1 - i])
}

/// Law of the newest-first read: it gives `min(n, s.len())` items, the newest
/// first, item `i` being the `i`-th from the end of `s`.
pub proof fn lemma_newest_first_reads_from_the_end<T>(s: Seq<T>, n: nat)
    ensures
        newest_first(s, n).len() == (if n < s.len() { n } else { s.len() }),
        forall|i: int|
            0 <= i < newest_first(s, n).len() ==> #[trigger] newest_first(s, n)[i] == s[s.len()
                - 1 - i],
{
}

/// The last `n` items of `s`, oldest first (all of `s` when it is shorter).
pub open spec fn last_n<T>(s: Seq<T>, n: nat) -> Seq<T> {
    if n < s.len() {
        s.subrange(s.len() - n, s.len() as int)
    } else {
        s
    }
}

/// Law of the short-term buffer: with a capacity `max` above 0, a buffer that
/// holds at most `max` events holds, after any sequence of additions, exactly
/// the `max` most recent of all the events it has seen, oldest first.
pub proof fn lemma_short_term_keeps_most_recent<T>(buf: Seq<T>, max: nat, items: Seq<T>)
    requires
        max > 0,
        buf.len() <= max,
    ensures
        push_all_bounded(buf, max, items) == last_n(buf + items, max),
    decreases items.len(),
{
    if items.len() == 0 {
        assert(buf + items =~= buf);
    } else {
        let prev = items.drop_last();
        let x = items.last();
        lemma_short_term_keeps_most_recent(buf, max, prev);
        let s_prev = buf + prev;
        let s = buf + items;
        assert(s =~= s_prev.push(x));
        let l = s.len();
        if l - 1 >= max {
            assert(last_n(s_prev, max).drop_first().push(x) =~= s.subrange(l - max, l as int));
        } else {
            assert(last_n(s_prev, max).push(x) =~= s);
        }
    }
}

/// Law of restoring: adding the events of `first` and then those of `second`
/// leaves the buffer as adding all of `first + second` at once does.
pub proof fn lemma_push_all_bounded_concat<T>(buf: Seq<T>, max: nat, first: Seq<T>, second: Seq<T>)
    ensures
        push_all_bounded(push_all_bounded(buf, max, first), max, second)
            == push_all_bounded(buf, max, first + second),
    decreases second.len(),
{
    if second.len() == 0 {
        assert(first + second =~= first);
    } else {
        lemma_push_all_bounded_concat(buf, max, first, second.drop_last());
        assert((first + second).drop_last() =~= first + second.drop_last());
        assert((first + second).last() == second.last());
    }
}

/// The abstract state of the memory layers.
pub struct MemoryLayersView {
    pub short_term: Seq<ShortTermEvent>,
    pub max_short_term: nat,
    pub reasoning: Seq<ReasoningStep>,
}

/// An operation on the memory layers, as the public methods perform it.
pub enum LayerOp {
    AddEvent(ShortTermEvent),
    RestoreEvents(Seq<ShortTermEvent>),
    AddStep(ReasoningStep),
    RestoreSteps(Seq<ReasoningStep>),
}

/// The layers after `op`.
pub open spec fn apply_layer_op(v: MemoryLayersView, op: LayerOp) -> MemoryLayersView {
    match op {
        LayerOp::AddEvent(e) => MemoryLayersView {
            short_term: push_bounded(v.short_term, v.max_short_term, e),
            ..v
        },
        LayerOp::RestoreEvents(es) => MemoryLayersView {
            short_term: push_all_bounded(v.short_term, v.max_short_term, es),
            ..v
        },
        LayerOp::AddStep(s) => MemoryLayersView { reasoning: v.reasoning.push(s), ..v },
        LayerOp::RestoreSteps(ss) => MemoryLayersView { reasoning: ss, ..v },
    }
}

/// The layers after each of `ops` in turn.
pub open spec fn apply_layer_ops(v: MemoryLayersView, ops: Seq<LayerOp>) -> MemoryLayersView
    decreases ops.len(),
{
    if ops.len() == 0 {
        v
    } else {
        apply_layer_op(apply_layer_ops(v, ops.drop_last()), ops.last())
    }
}

/// The short-term events that `ops` add, in order.
pub open spec fn events_added(ops: Seq<LayerOp>) -> Seq<ShortTermEvent>
    decreases ops.len(),
{
    if ops.len() == 0 {
        Seq::empty()
    } else {
        let rest = events_added(ops.drop_last());
        match ops.last() {
            LayerOp::AddEvent(e) => rest.push(e),
            LayerOp::RestoreEvents(es) => rest + es,
            _ => rest,
        }
    }
}

/// The last `n` items of a sequence are those of any suffix of it that holds
/// at least that many items.
proof fn lemma_last_n_of_suffix<T>(t: Seq<T>, k: int, n: nat)
    requires
        0 <= k <= t.len(),
        t.len() - k >= n || k == 0,
    ensures
        last_n(t.subrange(k, t.len() as int), n) == last_n(t, n),
{
    let u = t.subrange(k, t.len() as int);
    if k == 0 {
        assert(u =~= t);
    } else if n < u.len() {
        assert(last_n(u, n) =~= last_n(t, n));
    } else {
        assert(u.len() == n);
        assert(last_n(u, n) =~= last_n(t, n));
    }
}

/// Law of the layers: starting from empty layers whose buffer holds at most
/// `max` events, `max` above 0, any sequence of additions and restorations of
/// events and of steps leaves a buffer that holds no more than `max` events:
/// the last `max` of all the events added, oldest first.
pub proof fn lemma_layers_keep_recent_events(max: nat, ops: Seq<LayerOp>)
    requires
        max > 0,
    ensures
        ({
            let v = apply_layer_ops(
                MemoryLayersView {
                    short_term: Seq::empty(),
                    max_short_term: max,
                    reasoning: Seq::empty(),
                },
                ops,
            );
            &&& v.max_short_term == max
            &&& v.short_term == last_n(events_added(ops), max)
            &&& v.short_term.len() <= max
        }),
    decreases ops.len(),
{
    let init = MemoryLayersView {
        short_term: Seq::<ShortTermEvent>::empty(),
        max_short_term: max,
        reasoning: Seq::<ReasoningStep>::empty(),
    };
    if ops.len() == 0 {
        assert(last_n(Seq::<ShortTermEvent>::empty(), max) =~= Seq::<ShortTermEvent>::empty());
    } else {
        let prev_ops = ops.drop_last();
        lemma_layers_keep_recent_events(max, prev_ops);
        let prev = apply_layer_ops(init, prev_ops);
        let all_prev = events_added(prev_ops);
        let buf = prev.short_term;
        let new_items: Seq<ShortTermEvent> = match ops.last() {
            LayerOp::AddEvent(e) => seq![e],
            LayerOp::RestoreEvents(es) => es,
            _ => Seq::empty(),
        };
        let all = events_added(ops);
        assert(all =~= all_prev + new_items);
        lemma_short_term_keeps_most_recent(buf, max, new_items);
        let t = all_prev + new_items;
        let k = all_prev.len() - buf.len();
        assert(buf + new_items =~= t.subrange(k, t.len() as int));
        lemma_last_n_of_suffix(t, k, max);
        match ops.last() {
            LayerOp::AddEvent(e) => {
                assert(new_items.drop_last() =~= Seq::<ShortTermEvent>::empty());
                assert(push_all_bounded(buf, max, new_items.drop_last()) == buf);
            },
            LayerOp::RestoreEvents(es) => {},
            _ => {
                assert(push_all_bounded(buf, max, new_items) == buf);
                assert(buf + new_items =~= buf);
            },
        }
    }
}

/// The short-term buffer and the reasoning trace.
pub struct MemoryLayers {
    short_term: VecDeque<ShortTermEvent>,
    max_short_term: usize,
    reasoning: Vec<ReasoningStep>,
}

impl MemoryLayers {
    /// The short-term buffer is always within its capacity (unless that is 0).
    #[verifier::type_invariant]
    pub(crate) open spec fn well_formed(self) -> bool {
        self@.wf()
    }
}

impl View for MemoryLayers {
    type V = MemoryLayersView;

    closed spec fn view(&self) -> MemoryLayersView {
        MemoryLayersView {
            short_term: self.short_term@,
            max_short_term: self.max_short_term as nat,
            reasoning: self.reasoning@,
        }
    }
}

impl MemoryLayersView {
    /// The short-term buffer holds no more than its capacity, unless that capacity is 0.
    pub open spec fn wf(self) -> bool {
        self.max_short_term == 0 || self.short_term.len() <= self.max_short_term
    }
}

impl MemoryLayers {
    /// Empty layers whose short-term buffer holds at most `max_short_term` events.
    pub fn new(max_short_term: usize) -> (layers: Self)
        ensures
            layers@.short_term == Seq::<ShortTermEvent>::empty(),
            layers@.max_short_term == max_short_term,
            layers@.reasoning == Seq::<ReasoningStep>::empty(),
            layers@.wf(),
    {
        MemoryLayers { short_term: VecDeque::new(), max_short_term, reasoning: Vec::new() }
    }

    /// Adds `event` to the short-term buffer, dropping the oldest event when
    /// the buffer is full.
    pub fn add_short_term_event(&mut self, event: ShortTermEvent)
        ensures
            final(self)@.short_term == push_bounded(
                old(self)@.short_term,
                old(self)@.max_short_term,
                event,
            ),
            final(self)@.max_short_term == old(self)@.max_short_term,
            final(self)@.reasoning == old(self)@.reasoning,
            final(self)@.wf(),
            final(self)@ == apply_layer_op(old(self)@, LayerOp::AddEvent(event)),
            old(self)@.max_short_term > 0 ==> final(self)@.short_term == last_n(
                old(self)@.short_term.push(event),
                old(self)@.max_short_term,
            ),
    {
        proof {
            use_type_invariant(&*self);
            if self@.max_short_term > 0 {
                lemma_short_term_keeps_most_recent(
                    self@.short_term,
                    self@.max_short_term,
                    seq![event],
                );
            }
            assert(seq![event].drop_last() =~= Seq::<ShortTermEvent>::empty());
            assert(self@.short_term + seq![event] =~= self@.short_term.push(event));
        }
        let mut buf = VecDeque::new();
        std::mem::swap(&mut buf, &mut self.short_term);
        if buf.len() == self.max_short_term {
            let _ = buf.pop_front();
        }
        buf.push_back(event);
        self.short_term = buf;
    }

    /// The `n` most recent short-term events, newest first.
    pub fn get_short_term_context(&self, n: usize) -> (events: Vec<&ShortTermEvent>)
        ensures
            events@.len() == newest_first(self@.short_term, n as nat).len(),
            events@.len() == (if n < self@.short_term.len() { n as nat } else { self@.short_term.len() }),
            forall|i: int|
                0 <= i < events@.len() ==> *events@[i] == self@.short_term[self@.short_term.len() - 1 - i],
            forall|i: int|
                0 <= i < events@.len() ==> *events@[i] == newest_first(
                    self@.short_term,
                    n as nat,
                )[i],
    {
        let len = self.short_term.len();
        let mut out: Vec<&ShortTermEvent> = Vec::new();
        let mut i: usize = 0;
        while i < n && i < len
            invariant
                len == self.short_term@.len(),
                i <= len,
                i <= n,
                out@.len() == i,
                forall|j: int| 0 <= j < i ==> *out@[j] == self.short_term@[len - 1 - j],
            decreases len - i,
        {
            out.push(&self.short_term[len - 1 - i]);
            i = i + 1;
        }
        out
    }

    /// Appends `step` to the reasoning trace.
    pub fn add_reasoning_step(&mut self, step: ReasoningStep)
        ensures
            final(self)@.reasoning == old(self)@.reasoning.push(step),
            final(self)@.short_term == old(self)@.short_term,
            final(self)@.max_short_term == old(self)@.max_short_term,
            final(self)@ == apply_layer_op(old(self)@, LayerOp::AddStep(step)),
    {
        proof {
            use_type_invariant(&*self);
        }
        let mut steps = Vec::new();
        std::mem::swap(&mut steps, &mut self.reasoning);
        steps.push(step);
        self.reasoning = steps;
    }

    /// The `limit` most recent reasoning steps, newest first.
    pub fn get_reasoning_trace(&self, limit: usize) -> (steps: Vec<&ReasoningStep>)
        ensures
            steps@.len() == newest_first(self@.reasoning, limit as nat).len(),
            steps@.len() == (if limit < self@.reasoning.len() { limit as nat } else { self@.reasoning.len() }),
            forall|i: int|
                0 <= i < steps@.len() ==> *steps@[i] == self@.reasoning[self@.reasoning.len() - 1 - i],
            forall|i: int|
                0 <= i < steps@.len() ==> *steps@[i] == newest_first(
                    self@.reasoning,
                    limit as nat,
                )[i],
    {
        let len = self.reasoning.len();
        let mut out: Vec<&ReasoningStep> = Vec::new();
        let mut i: usize = 0;
        while i < limit && i < len
            invariant
                len == self.reasoning@.len(),
                i <= len,
                i <= limit,
                out@.len() == i,
                forall|j: int| 0 <= j < i ==> *out@[j] == self.reasoning@[len - 1 - j],
            decreases len - i,
        {
            out.push(&self.reasoning[len - 1 - i]);
            i = i + 1;
        }
        out
    }

    /// Adds each of `events` in turn, as `add_short_term_event` does.
    pub fn restore_short_term(&mut self, events: Vec<ShortTermEvent>)
        ensures
            final(self)@.short_term == push_all_bounded(
                old(self)@.short_term,
                old(self)@.max_short_term,
                events@,
            ),
            final(self)@.max_short_term == old(self)@.max_short_term,
            final(self)@.reasoning == old(self)@.reasoning,
            final(self)@.wf(),
            final(self)@ == apply_layer_op(old(self)@, LayerOp::RestoreEvents(events@)),
            old(self)@.max_short_term > 0 ==> final(self)@.short_term == last_n(
                old(self)@.short_term + events@,
                old(self)@.max_short_term,
            ),
    {
        proof {
            use_type_invariant(&*self);
            if self@.max_short_term > 0 {
                lemma_short_term_keeps_most_recent(
                    self@.short_term,
                    self@.max_short_term,
                    events@,
                );
            }
        }
        let ghost all = events@;
        for ev in it: events
            invariant
                it.seq() == all,
                self@.short_term == push_all_bounded(
                    old(self)@.short_term,
                    old(self)@.max_short_term,
                    all.take(it.index() as int),
                ),
                self@.max_short_term == old(self)@.max_short_term,
                self@.reasoning == old(self)@.reasoning,
                old(self)@.wf() ==> self@.wf(),
        {
            proof {
                let k = it.index() as int;
                assert(all.take(k + 1).drop_last() =~= all.take(k));
                assert(all.take(k + 1).last() == all[k]);
            }
            self.add_short_term_event(ev);
        }
        proof {
            assert(all.take(all.len() as int) =~= all);
        }
    }

    /// Replaces the reasoning trace with `steps`.
    pub fn restore_reasoning(&mut self, steps: Vec<ReasoningStep>)
        ensures
            final(self)@.reasoning == steps@,
            final(self)@.short_term == old(self)@.short_term,
            final(self)@.max_short_term == old(self)@.max_short_term,
            final(self)@ == apply_layer_op(old(self)@, LayerOp::RestoreSteps(steps@)),
    {
        proof {
            use_type_invariant(&*self);
        }
        self.reasoning = steps;
    }
}

} // verus!
