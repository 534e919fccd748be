//! The writes of the memory server: every change is appended to the log
//! first, and applied only when the append succeeded. A change whose append
//! failed leaves the memory as it was; a change that the memory refuses after
//! it was logged is answered with the memory's own message.

use vstd::prelude::*;
use vstd::string::*;

use crate::layers::{
    apply_layer_op, LayerOp, MemoryLayers, MemoryLayersView, ReasoningStep, ShortTermEvent,
    push_all_bounded,
};
use crate::memory::{AgentMemory, AgentMemoryView, MemoryEdge, MemoryNode};
use crate::wal::{apply_graph_command, logged_events, logged_steps, replay_graph, WalCommand};

verus! {

/// How a write ended.
pub enum WriteOutcome {
    /// Logged and applied.
    Applied,
    /// Logged, and refused by the memory with this message.
    Rejected { message: String },
    /// Not logged, for the reason the log gave; nothing was applied.
    LogFailed { message: String },
}

/// How a write ended, as texts.
pub enum WriteOutcomeView {
    Applied,
    Rejected { message: Seq<char> },
    LogFailed { message: Seq<char> },
}

impl View for WriteOutcome {
    type V = WriteOutcomeView;

    open spec fn view(&self) -> WriteOutcomeView {
        match self {
            WriteOutcome::Applied => WriteOutcomeView::Applied,
            WriteOutcome::Rejected { message } => WriteOutcomeView::Rejected { message: message@ },
            WriteOutcome::LogFailed { message } => WriteOutcomeView::LogFailed { message: message@ },
        }
    }
}

/// The HTTP status that answers an outcome: 200 when applied, 400 when the
/// memory refused the change, 500 when the log could not be written.
pub open spec fn outcome_status(o: WriteOutcomeView) -> u16 {
    match o {
        WriteOutcomeView::Applied => 200,
        WriteOutcomeView::Rejected { .. } => 400,
        WriteOutcomeView::LogFailed { .. } => 500,
    }
}

/// The error text that answers an outcome: none when applied, the memory's
/// message when refused, and `WAL error: ` and the log's reason when the log
/// could not be written.
pub open spec fn outcome_error(o: WriteOutcomeView) -> Option<Seq<char>> {
    match o {
        WriteOutcomeView::Applied => None,
        WriteOutcomeView::Rejected { message } => Some(message),
        WriteOutcomeView::LogFailed { message } => Some("WAL error: "@ + message),
    }
}

impl WriteOutcome {
    /// The HTTP status that answers this outcome.
    pub fn status(&self) -> (s: u16)
        ensures
            s == outcome_status(self@),
    {
        match self {
            WriteOutcome::Applied => 200,
            WriteOutcome::Rejected { .. } => 400,
            WriteOutcome::LogFailed { .. } => 500,
        }
    }

    /// The error text that answers this outcome, if any.
    pub fn error_text(self) -> (e: Option<String>)
        ensures
            match (e, outcome_error(self@)) {
                (Some(t), Some(expected)) => t@ == expected,
                (None, None) => true,
                _ => false,
            },
    {
        match self {
            WriteOutcome::Applied => None,
            WriteOutcome::Rejected { message } => Some(message),
            WriteOutcome::LogFailed { message } => {
                let mut t = String::from_str("WAL error: ");
                t.append(message.as_str());
                Some(t)
            },
        }
    }
}

/// Law of write answers: a write whose log append failed is answered 500 with
/// "WAL error: " and the log's reason; a write that the memory refused after
/// it was logged is answered 400 with the memory's message; an applied write
/// is answered 200 with no error.
pub proof fn lemma_write_answers(o: WriteOutcomeView)
    ensures
        o is LogFailed ==> outcome_status(o) == 500 && outcome_error(o) == Some(
            "WAL error: "@ + o->LogFailed_message,
        ),
        o is Rejected ==> outcome_status(o) == 400 && outcome_error(o) == Some(
            o->Rejected_message,
        ),
        o is Applied ==> outcome_status(o) == 200 && outcome_error(o) is None,
{
}

/// Applies the node write `node` after its log append ended with `logged`.
pub fn write_node(memory: &mut AgentMemory, node: MemoryNode, logged: Result<(), String>) -> (out: WriteOutcome)
    requires
        logged is Ok && old(memory)@.add_node(node) is Ok ==> old(memory)@.nodes.len() < u32::MAX,
    ensures
        match logged {
            Err(e) => final(memory)@ == old(memory)@ && out@ == (WriteOutcomeView::LogFailed { message: e@ }),
            Ok(()) => {
                &&& final(memory)@ == apply_graph_command(old(memory)@, WalCommand::AddNode { node })
                &&& match old(memory)@.add_node(node) {
                    Ok(_) => out@ == WriteOutcomeView::Applied,
                    Err(msg) => out@ == (WriteOutcomeView::Rejected { message: msg }),
                }
            },
        },
{
    match logged {
        Err(e) => WriteOutcome::LogFailed { message: e },
        Ok(()) => match memory.add_node(node) {
            Ok(()) => WriteOutcome::Applied,
            Err(message) => WriteOutcome::Rejected { message },
        },
    }
}

/// Applies the edge write from `from_id` to `to_id` after its log append
/// ended with `logged`.
pub fn write_edge(
    memory: &mut AgentMemory,
    from_id: String,
    to_id: String,
    edge: MemoryEdge,
    logged: Result<(), String>,
) -> (out: WriteOutcome)
    requires
        logged is Ok && old(memory)@.add_edge(from_id@, to_id@, edge) is Ok
            ==> old(memory)@.edges.len() < u32::MAX,
    ensures
        match logged {
            Err(e) => final(memory)@ == old(memory)@ && out@ == (WriteOutcomeView::LogFailed { message: e@ }),
            Ok(()) => {
                &&& final(memory)@ == apply_graph_command(
                    old(memory)@,
                    WalCommand::AddEdge { from_id, to_id, edge },
                )
                &&& match old(memory)@.add_edge(from_id@, to_id@, edge) {
                    Ok(_) => out@ == WriteOutcomeView::Applied,
                    Err(msg) => out@ == (WriteOutcomeView::Rejected { message: msg }),
                }
            },
        },
{
    match logged {
        Err(e) => WriteOutcome::LogFailed { message: e },
        Ok(()) => match memory.add_edge(from_id.as_str(), to_id.as_str(), edge) {
            Ok(()) => WriteOutcome::Applied,
            Err(message) => WriteOutcome::Rejected { message },
        },
    }
}

/// Applies the short-term event write `event` after its log append ended
/// with `logged`.
pub fn write_event(layers: &mut MemoryLayers, event: ShortTermEvent, logged: Result<(), String>) -> (out: WriteOutcome)
    ensures
        match logged {
            Err(e) => final(layers)@ == old(layers)@ && out@ == (WriteOutcomeView::LogFailed { message: e@ }),
            Ok(()) => final(layers)@ == apply_layer_op(old(layers)@, LayerOp::AddEvent(event))
                && out@ == WriteOutcomeView::Applied,
        },
{
    match logged {
        Err(e) => WriteOutcome::LogFailed { message: e },
        Ok(()) => {
            layers.add_short_term_event(event);
            WriteOutcome::Applied
        },
    }
}

/// Applies the reasoning step write `step` after its log append ended with
/// `logged`.
pub fn write_step(layers: &mut MemoryLayers, step: ReasoningStep, logged: Result<(), String>) -> (out: WriteOutcome)
    ensures
        match logged {
            Err(e) => final(layers)@ == old(layers)@ && out@ == (WriteOutcomeView::LogFailed { message: e@ }),
            Ok(()) => final(layers)@ == apply_layer_op(old(layers)@, LayerOp::AddStep(step))
                && out@ == WriteOutcomeView::Applied,
        },
{
    match logged {
        Err(e) => WriteOutcome::LogFailed { message: e },
        Ok(()) => {
            layers.add_reasoning_step(step);
            WriteOutcome::Applied
        },
    }
}

/// The graph after a sequence of graph writes, each a command and whether its
/// log append succeeded: a logged command is applied, an unlogged one is not.
pub open spec fn live_graph(m: AgentMemoryView, writes: Seq<(WalCommand, bool)>) -> AgentMemoryView
    decreases writes.len(),
{
    if writes.len() == 0 {
        m
    } else {
        let prev = live_graph(m, writes.drop_last());
        if writes.last().1 {
            apply_graph_command(prev, writes.last().0)
        } else {
            prev
        }
    }
}

/// The commands that a sequence of writes left in the log, in order.
pub open spec fn logged_commands(writes: Seq<(WalCommand, bool)>) -> Seq<WalCommand>
    decreases writes.len(),
{
    if writes.len() == 0 {
        Seq::empty()
    } else {
        let prev = logged_commands(writes.drop_last());
        if writes.last().1 {
            prev.push(writes.last().0)
        } else {
            prev
        }
    }
}

/// Law of the log: replaying what a sequence of writes logged rebuilds the
/// graph that the writes built.
pub proof fn lemma_replay_rebuilds_live_graph(m: AgentMemoryView, writes: Seq<(WalCommand, bool)>)
    ensures
        replay_graph(m, logged_commands(writes)) == live_graph(m, writes),
    decreases writes.len(),
{
    if writes.len() > 0 {
        lemma_replay_rebuilds_live_graph(m, writes.drop_last());
        let prev = logged_commands(writes.drop_last());
        if writes.last().1 {
            assert(prev.push(writes.last().0).drop_last() =~= prev);
        }
    }
}

/// The layers after a sequence of layer writes, each a command and whether
/// its log append succeeded: a logged event or step is added, anything else
/// changes nothing.
pub open spec fn live_layers(v: MemoryLayersView, writes: Seq<(WalCommand, bool)>) -> MemoryLayersView
    decreases writes.len(),
{
    if writes.len() == 0 {
        v
    } else {
        let prev = live_layers(v, writes.drop_last());
        if writes.last().1 {
            match writes.last().0 {
                WalCommand::AddShortTermEvent { event } => apply_layer_op(prev, LayerOp::AddEvent(event)),
                WalCommand::AddReasoningStep { step } => apply_layer_op(prev, LayerOp::AddStep(step)),
                _ => prev,
            }
        } else {
            prev
        }
    }
}

/// Law of the log: starting from empty layers, restoring the events and the
/// steps that a sequence of writes logged rebuilds the layers that the writes
/// built.
pub proof fn lemma_recovery_rebuilds_live_layers(max: nat, writes: Seq<(WalCommand, bool)>)
    ensures
        ({
            let logged = logged_commands(writes);
            let live = live_layers(
                MemoryLayersView {
                    short_term: Seq::empty(),
                    max_short_term: max,
                    reasoning: Seq::empty(),
                },
                writes,
            );
            &&& live.short_term == push_all_bounded(
                Seq::<ShortTermEvent>::empty(),
                max,
                logged_events(logged),
            )
            &&& live.reasoning == logged_steps(logged)
            &&& live.max_short_term == max
        }),
    decreases writes.len(),
{
    if writes.len() > 0 {
        lemma_recovery_rebuilds_live_layers(max, writes.drop_last());
        let prev = logged_commands(writes.drop_last());
        if writes.last().1 {
            let cur = prev.push(writes.last().0);
            assert(cur.drop_last() =~= prev);
            assert(cur.last() == writes.last().0);
            match writes.last().0 {
                WalCommand::AddShortTermEvent { event } => {
                    let es = logged_events(prev).push(event);
                    assert(es.drop_last() =~= logged_events(prev));
                },
                _ => {},
            }
        }
    }
}

} // verus!
