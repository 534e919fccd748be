//! The commands of the write-ahead log, and what replaying them does.
//!
//! Every change is logged before it is applied, and a change that fails is
//! still logged; replay applies the logged commands in order and, like the live
//! server, ignores the ones that fail. So replaying the log rebuilds the state
//! that the live changes built.

use vstd::prelude::*;

use crate::layers::{
    last_n, lemma_short_term_keeps_most_recent, push_all_bounded, ReasoningStep, ShortTermEvent,
};
use crate::memory::{AgentMemory, AgentMemoryView, MemoryEdge, MemoryNode};

verus! {

/// One logged change.
#[derive(Debug)]
pub enum WalCommand {
    AddNode { node: MemoryNode },
    AddEdge { from_id: String, to_id: String, edge: MemoryEdge },
    AddShortTermEvent { event: ShortTermEvent },
    AddReasoningStep { step: ReasoningStep },
}

/// The graph after `cmd`: a node or edge command is applied when it succeeds
/// and leaves the graph as it was when it fails; other commands leave it alone.
pub open spec fn apply_graph_command(m: AgentMemoryView, cmd: WalCommand) -> AgentMemoryView {
    match cmd {
        WalCommand::AddNode { node } => match m.add_node(node) {
            Ok(v) => v,
            Err(_) => m,
        },
        WalCommand::AddEdge { from_id, to_id, edge } => match m.add_edge(from_id@, to_id@, edge) {
            Ok(v) => v,
            Err(_) => m,
        },
        _ => m,
    }
}

/// The graph after each of `cmds` is applied in turn.
pub open spec fn replay_graph(m: AgentMemoryView, cmds: Seq<WalCommand>) -> AgentMemoryView
    decreases cmds.len(),
{
    if cmds.len() == 0 {
        m
    } else {
        apply_graph_command(replay_graph(m, cmds.drop_last()), cmds.last())
    }
}

/// The number of node commands in `cmds`.
pub open spec fn node_command_count(cmds: Seq<WalCommand>) -> nat
    decreases cmds.len(),
{
    if cmds.len() == 0 {
        0
    } else {
        node_command_count(cmds.drop_last()) + if cmds.last() is AddNode { 1nat } else { 0nat }
    }
}

/// The number of edge commands in `cmds`.
pub open spec fn edge_command_count(cmds: Seq<WalCommand>) -> nat
    decreases cmds.len(),
{
    if cmds.len() == 0 {
        0
    } else {
        edge_command_count(cmds.drop_last()) + if cmds.last() is AddEdge { 1nat } else { 0nat }
    }
}

/// The short-term events that `cmds` log, in their order.
pub open spec fn logged_events(cmds: Seq<WalCommand>) -> Seq<ShortTermEvent>
    decreases cmds.len(),
{
    if cmds.len() == 0 {
        Seq::empty()
    } else {
        let rest = logged_events(cmds.drop_last());
        match cmds.last() {
            WalCommand::AddShortTermEvent { event } => rest.push(event),
            _ => rest,
        }
    }
}

/// The reasoning steps that `cmds` log, in their order.
pub open spec fn logged_steps(cmds: Seq<WalCommand>) -> Seq<ReasoningStep>
    decreases cmds.len(),
{
    if cmds.len() == 0 {
        Seq::empty()
    } else {
        let rest = logged_steps(cmds.drop_last());
        match cmds.last() {
            WalCommand::AddReasoningStep { step } => rest.push(step),
            _ => rest,
        }
    }
}

/// Law of the log: replaying a log in two parts, the second on the state the
/// first left, gives the state that replaying the whole log gives.
pub proof fn lemma_replay_graph_concat(m: AgentMemoryView, first: Seq<WalCommand>, second: Seq<WalCommand>)
    ensures
        replay_graph(replay_graph(m, first), second) == replay_graph(m, first + second),
    decreases second.len(),
{
    if second.len() == 0 {
        assert(first + second =~= first);
    } else {
        lemma_replay_graph_concat(m, first, second.drop_last());
        assert((first + second).drop_last() =~= first + second.drop_last());
        assert((first + second).last() == second.last());
    }
}

/// Law of the log: a node command that appears twice in a row has the effect
/// of one, since the second is refused as a duplicate.
pub proof fn lemma_replay_repeated_node(m: AgentMemoryView, node: MemoryNode)
    requires
        m.wf(),
    ensures
        apply_graph_command(
            apply_graph_command(m, WalCommand::AddNode { node }),
            WalCommand::AddNode { node },
        ) == apply_graph_command(m, WalCommand::AddNode { node }),
{
    if m.add_node(node) is Ok {
        crate::memory::lemma_add_node_twice(m, node);
    }
}

/// Law of the log: the events and the steps of a log made of two parts are
/// those of the first part followed by those of the second.
pub proof fn lemma_logged_records_concat(first: Seq<WalCommand>, second: Seq<WalCommand>)
    ensures
        logged_events(first + second) == logged_events(first) + logged_events(second),
        logged_steps(first + second) == logged_steps(first) + logged_steps(second),
    decreases second.len(),
{
    if second.len() == 0 {
        assert(first + second =~= first);
        assert(logged_events(first) + logged_events(second) =~= logged_events(first));
        assert(logged_steps(first) + logged_steps(second) =~= logged_steps(first));
    } else {
        lemma_logged_records_concat(first, second.drop_last());
        assert((first + second).drop_last() =~= first + second.drop_last());
        assert((first + second).last() == second.last());
        let e1 = logged_events(first);
        let e2 = logged_events(second.drop_last());
        let s1 = logged_steps(first);
        let s2 = logged_steps(second.drop_last());
        match second.last() {
            WalCommand::AddShortTermEvent { event } => {
                assert((e1 + e2).push(event) =~= e1 + e2.push(event));
            },
            WalCommand::AddReasoningStep { step } => {
                assert((s1 + s2).push(step) =~= s1 + s2.push(step));
            },
            _ => {},
        }
    }
}

/// Law of recovery: restoring into an empty buffer of capacity `max` above 0
/// the events that a log records leaves the last `max` of those events.
pub proof fn lemma_recovered_short_term(cmds: Seq<WalCommand>, max: nat)
    requires
        max > 0,
    ensures
        push_all_bounded(Seq::<ShortTermEvent>::empty(), max, logged_events(cmds)) == last_n(
            logged_events(cmds),
            max,
        ),
{
    lemma_short_term_keeps_most_recent(Seq::<ShortTermEvent>::empty(), max, logged_events(cmds));
    assert(Seq::<ShortTermEvent>::empty() + logged_events(cmds) =~= logged_events(cmds));
}

/// Whether applying `cmd` to `m` would add a node to a graph that holds
/// `u32::MAX` nodes, or an edge to one that holds `u32::MAX` edges: the graph
/// indexes both by `u32` and has no room for that addition.
#[verifier::opaque]
pub open spec fn overflows(m: AgentMemoryView, cmd: WalCommand) -> bool {
    match cmd {
        WalCommand::AddNode { node } => m.add_node(node) is Ok && m.nodes.len() >= u32::MAX,
        WalCommand::AddEdge { from_id, to_id, edge } => m.add_edge(from_id@, to_id@, edge) is Ok
            && m.edges.len() >= u32::MAX,
        _ => false,
    }
}

/// Whether none of the first `k` commands of `cmds` overflows the graph when
/// they are replayed from `m`.
pub open spec fn fits_before(m: AgentMemoryView, cmds: Seq<WalCommand>, k: int) -> bool {
    forall|j: int|
        0 <= j < k ==> !overflows(replay_graph(m, cmds.take(j)), #[trigger] cmds[j])
}

/// One more command of the log: the replay and the counts of the first
/// `k + 1` commands, from those of the first `k`.
proof fn lemma_replay_step(m: AgentMemoryView, all: Seq<WalCommand>, k: int)
    requires
        0 <= k < all.len(),
    ensures
        replay_graph(m, all.take(k + 1)) == apply_graph_command(
            replay_graph(m, all.take(k)),
            all[k],
        ),
        node_command_count(all.take(k + 1)) == node_command_count(all.take(k)) + if all[k] is AddNode {
            1nat
        } else {
            0nat
        },
        edge_command_count(all.take(k + 1)) == edge_command_count(all.take(k)) + if all[k] is AddEdge {
            1nat
        } else {
            0nat
        },
{
    assert(all.take(k + 1).drop_last() =~= all.take(k));
    assert(all.take(k + 1).last() == all[k]);
}

/// A command that does not overflow extends the part of the log that fits.
proof fn lemma_fits_extend(m: AgentMemoryView, all: Seq<WalCommand>, k: int)
    requires
        0 <= k < all.len(),
        fits_before(m, all, k),
        !overflows(replay_graph(m, all.take(k)), all[k]),
    ensures
        fits_before(m, all, k + 1),
{
    assert forall|j: int| 0 <= j < k + 1 implies !overflows(
        replay_graph(m, all.take(j)),
        #[trigger] all[j],
    ) by {
        if j < k {
            assert(!overflows(replay_graph(m, all.take(j)), all[j]));
        }
    }
}

/// Applies one logged command, as replay does: `None` when it would overflow
/// the graph (and `memory` is left as it was), else whether it is a node or
/// edge command.
fn apply_logged(memory: &mut AgentMemory, cmd: WalCommand) -> (r: Option<bool>)
    ensures
        final(memory)@.wf(),
        match r {
            None => overflows(old(memory)@, cmd) && final(memory)@ == old(memory)@,
            Some(counted) => {
                &&& !overflows(old(memory)@, cmd)
                &&& final(memory)@ == apply_graph_command(old(memory)@, cmd)
                &&& counted == (cmd is AddNode || cmd is AddEdge)
            },
        },
{
    proof {
        use_type_invariant(&*memory);
        reveal(overflows);
    }
    match cmd {
        WalCommand::AddNode { node } => {
            if memory.len() >= u32::MAX as usize && memory.accepts_node(&node) {
                return None;
            }
            let _ = memory.add_node(node);
            Some(true)
        },
        WalCommand::AddEdge { from_id, to_id, edge } => {
            if memory.edge_count() >= u32::MAX as usize && memory.accepts_edge(
                from_id.as_str(),
                to_id.as_str(),
            ) {
                return None;
            }
            let _ = memory.add_edge(from_id.as_str(), to_id.as_str(), edge);
            Some(true)
        },
        _ => Some(false),
    }
}

/// Applies the node and edge commands of `commands` to `memory` in order,
/// ignoring those that fail, and returns how many node and edge commands there
/// were. A command that would overflow the graph's `u32` indices stops the
/// replay: the result is then `Err` with that command's position, and
/// `memory` holds the replay of the commands before it.
pub fn replay_graph_commands(memory: &mut AgentMemory, commands: Vec<WalCommand>) -> (r: Result<usize, usize>)
    ensures
        final(memory)@.wf(),
        match r {
            Ok(count) => {
                &&& fits_before(old(memory)@, commands@, commands@.len() as int)
                &&& final(memory)@ == replay_graph(old(memory)@, commands@)
                &&& count == node_command_count(commands@) + edge_command_count(commands@)
            },
            Err(k) => {
                &&& k < commands@.len()
                &&& fits_before(old(memory)@, commands@, k as int)
                &&& final(memory)@ == replay_graph(old(memory)@, commands@.take(k as int))
                &&& overflows(final(memory)@, commands@[k as int])
            },
        },
{
    proof {
        use_type_invariant(&*memory);
    }
    let ghost all = commands@;
    let total = commands.len();
    let mut count: usize = 0;
    let mut k: usize = 0;
    for cmd in it: commands
        invariant
            it.seq() == all,
            k == it.index(),
            all.len() == total,
            memory@.wf(),
            memory@ == replay_graph(old(memory)@, all.take(k as int)),
            fits_before(old(memory)@, all, k as int),
            count == node_command_count(all.take(k as int)) + edge_command_count(
                all.take(k as int),
            ),
            count <= k,
    {
        proof {
            lemma_replay_step(old(memory)@, all, k as int);
        }
        match apply_logged(memory, cmd) {
            None => {
                return Err(k);
            },
            Some(counted) => {
                if counted {
                    count = count + 1;
                }
            },
        }
        proof {
            lemma_fits_extend(old(memory)@, all, k as int);
        }
        k = k + 1;
    }
    proof {
        assert(all.take(all.len() as int) =~= all);
    }
    Ok(count)
}

/// The short-term events and the reasoning steps that `commands` log, each in
/// their order; graph commands are passed over.
pub fn collect_layer_records(commands: Vec<WalCommand>) -> (records: (
    Vec<ShortTermEvent>,
    Vec<ReasoningStep>,
))
    ensures
        records.0@ == logged_events(commands@),
        records.1@ == logged_steps(commands@),
{
    let ghost all = commands@;
    let mut events: Vec<ShortTermEvent> = Vec::new();
    let mut steps: Vec<ReasoningStep> = Vec::new();
    for cmd in it: commands
        invariant
            it.seq() == all,
            events@ == logged_events(all.take(it.index() as int)),
            steps@ == logged_steps(all.take(it.index() as int)),
    {
        proof {
            let k = it.index() as int;
            assert(all.take(k + 1).drop_last() =~= all.take(k));
            assert(all.take(k + 1).last() == all[k]);
        }
        match cmd {
            WalCommand::AddShortTermEvent { event } => events.push(event),
            WalCommand::AddReasoningStep { step } => steps.push(step),
            _ => {},
        }
    }
    proof {
        assert(all.take(all.len() as int) =~= all);
    }
    (events, steps)
}

} // verus!
