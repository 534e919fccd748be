//! The long-term memory: a directed graph of memory nodes joined by relations.
//! No two nodes share an identifier, and no two share both content and type.

use petgraph::graph::Graph;
use std::collections::HashMap;
use vstd::prelude::*;
use vstd::string::*;
use vstd::arithmetic::power2::{
    lemma2_to64, lemma_pow2_adds, lemma_pow2_pos, lemma_pow2_strictly_increases, pow2,
};

use crate::clock::{is_uuid_v4_text, new_id, now_secs};
use crate::ranking::{is_top_selection, top_positions};
use crate::text::{contains_text, lowercase, str_contains, to_lowercase};
use crate::graph::{
    graph_add_edge, graph_add_node, graph_edge_count, graph_edges, graph_new, graph_node_count,
    graph_node_weight, graph_nodes,
};

verus! {

/// A fact, event or other item of long-term memory.
/// The embedding is held as the IEEE 754 bit patterns of its `f32` components.
#[derive(Clone, Debug)]
pub struct MemoryNode {
    pub id: String,
    pub content: String,
    pub mem_type: String,
    pub created_at: u64,
    pub metadata: HashMap<String, String>,
    pub embedding_bits: Option<Vec<u32>>,
}

/// A relation from one node to another.
/// The weight is held as the IEEE 754 bit pattern of an `f32`.
#[derive(Clone, Debug)]
pub struct MemoryEdge {
    pub relation: String,
    pub weight_bits: u32,
    pub created_at: u64,
}

impl MemoryNode {
    /// The node that a request to remember `content` describes: it keeps the
    /// identifier given, or takes a fresh random one; it keeps the metadata
    /// given, or has none; and it is stamped with the current time. `None`
    /// when the clock reads earlier than the Unix epoch.
    pub fn from_request(
        id: Option<String>,
        content: String,
        mem_type: String,
        metadata: Option<HashMap<String, String>>,
        embedding_bits: Option<Vec<u32>>,
    ) -> (node: Option<Self>)
        ensures
            match node {
                Some(node) => {
                    &&& match id {
                        Some(given) => node.id == given,
                        None => is_uuid_v4_text(node.id@),
                    }
                    &&& node.content == content
                    &&& node.mem_type == mem_type
                    &&& match metadata {
                        Some(given) => node.metadata == given,
                        None => node.metadata@ == Map::<String, String>::empty(),
                    }
                    &&& node.embedding_bits == embedding_bits
                },
                None => true,
            },
    {
        match now_secs() {
            Some(created_at) => Some(
                MemoryNode::from_request_at(id, content, mem_type, metadata, embedding_bits, created_at),
            ),
            None => None,
        }
    }

    /// The node that a request to remember `content` describes, created at
    /// `created_at`: it keeps the identifier given, or takes a fresh random
    /// one, and it keeps the metadata given, or has none.
    pub fn from_request_at(
        id: Option<String>,
        content: String,
        mem_type: String,
        metadata: Option<HashMap<String, String>>,
        embedding_bits: Option<Vec<u32>>,
        created_at: u64,
    ) -> (node: Self)
        ensures
            match id {
                Some(given) => node.id == given,
                None => is_uuid_v4_text(node.id@),
            },
            node.content == content,
            node.mem_type == mem_type,
            match metadata {
                Some(given) => node.metadata == given,
                None => node.metadata@ == Map::<String, String>::empty(),
            },
            node.embedding_bits == embedding_bits,
            node.created_at == created_at,
    {
        let id = match id {
            Some(given) => given,
            None => new_id(),
        };
        let metadata = match metadata {
            Some(given) => given,
            None => HashMap::new(),
        };
        MemoryNode { id, content, mem_type, created_at, metadata, embedding_bits }
    }
}

/// The abstract state of the long-term memory: its nodes in the order they
/// were added, and its edges as (source index, target index, edge).
pub struct AgentMemoryView {
    pub nodes: Seq<MemoryNode>,
    pub edges: Seq<(usize, usize, MemoryEdge)>,
}

/// Whether some node of `nodes` has the identifier `id`.
pub open spec fn has_id(nodes: Seq<MemoryNode>, id: Seq<char>) -> bool {
    exists|i: int| 0 <= i < nodes.len() && (#[trigger] nodes[i]).id@ == id
}

/// Whether some node of `nodes` has both this content and this type.
pub open spec fn has_content(nodes: Seq<MemoryNode>, content: Seq<char>, mem_type: Seq<char>) -> bool {
    exists|i: int|
        0 <= i < nodes.len() && (#[trigger] nodes[i]).content@ == content && nodes[i].mem_type@
            == mem_type
}

/// The index of the node with identifier `id` (meaningful when `has_id`).
pub open spec fn index_of_id(nodes: Seq<MemoryNode>, id: Seq<char>) -> int {
    choose|i: int| 0 <= i < nodes.len() && (#[trigger] nodes[i]).id@ == id
}

/// The message of the error for a node whose content and type are already present.
pub open spec fn duplicate_content_message(content: Seq<char>, mem_type: Seq<char>) -> Seq<char> {
    "Duplicate node: content '"@ + content + "' type '"@ + mem_type + "' already exists"@
}

/// The message of the error for a node whose identifier is already present.
pub open spec fn duplicate_id_message(id: Seq<char>) -> Seq<char> {
    "Node with id "@ + id + " already exists"@
}

/// The message of the error for an edge whose source node is absent.
pub open spec fn from_not_found_message() -> Seq<char> {
    "From node not found"@
}

/// The message of the error for an edge whose target node is absent.
pub open spec fn to_not_found_message() -> Seq<char> {
    "To node not found"@
}

/// Whether the content of `node`, lower-cased, contains `keyword` lower-cased.
pub open spec fn matches_keyword(node: MemoryNode, keyword: Seq<char>) -> bool {
    contains_text(lowercase(node.content@), lowercase(keyword))
}

/// The nodes of `nodes` that match `keyword`, in their order.
pub open spec fn keyword_matches(nodes: Seq<MemoryNode>, keyword: Seq<char>) -> Seq<MemoryNode>
    decreases nodes.len(),
{
    if nodes.len() == 0 {
        Seq::empty()
    } else {
        let rest = keyword_matches(nodes.drop_last(), keyword);
        if matches_keyword(nodes.last(), keyword) {
            rest.push(nodes.last())
        } else {
            rest
        }
    }
}

/// The creation times of `nodes`, the keys of the order of recency.
pub open spec fn recency_keys(nodes: Seq<MemoryNode>) -> Seq<i128> {
    Seq::new(nodes.len(), |i: int| nodes[i].created_at as i128)
}

/// Whether the bits are those of an `f32` NaN.
pub open spec fn is_nan_bits(bits: u32) -> bool {
    bits % 0x8000_0000 > 0x7f80_0000
}

/// The place of the `f32` with these bits in the numeric order: the IEEE 754
/// magnitude bits order magnitudes, a set sign bit negates, and 0.0 and -0.0
/// share the place 0. Meaningful for bits that are no NaN.
pub open spec fn float_rank(bits: u32) -> i128 {
    if bits >= 0x8000_0000 {
        (0x8000_0000 - bits) as i128
    } else {
        bits as i128
    }
}

/// The magnitude of the `f32` whose low 31 bits are `mag`, times 2^149 (which
/// makes every finite magnitude a whole number): a subnormal has its fraction
/// bits, a normal number its fraction with the hidden bit, shifted by its
/// exponent less one, and an infinity 2^278, above every finite magnitude.
pub open spec fn f32_scaled_magnitude(mag: int) -> int {
    let e = mag / 0x80_0000;
    let m = mag % 0x80_0000;
    if e >= 255 {
        pow2(278) as int
    } else if e == 0 {
        m
    } else {
        (m + 0x80_0000) * pow2((e - 1) as nat)
    }
}

/// The numeric value of the `f32` with these bits, times 2^149: the scaled
/// magnitude, negated when the sign bit is set. Meaningful for bits that are
/// no NaN.
pub open spec fn f32_scaled_value(bits: u32) -> int {
    let b = bits as int;
    if b >= 0x8000_0000 {
        -f32_scaled_magnitude(b - 0x8000_0000)
    } else {
        f32_scaled_magnitude(b)
    }
}

/// Larger magnitude bits (up to those of infinity) stand for a larger magnitude.
proof fn lemma_scaled_magnitude_increases(a: int, b: int)
    requires
        0 <= a < b <= 0x7f80_0000,
    ensures
        0 <= f32_scaled_magnitude(a) < f32_scaled_magnitude(b),
{
    let ea = a / 0x80_0000;
    let ma = a % 0x80_0000;
    let eb = b / 0x80_0000;
    let mb = b % 0x80_0000;
    assert(ea <= eb) by (nonlinear_arith)
        requires
            a < b,
            ea == a / 0x80_0000,
            eb == b / 0x80_0000,
            0 <= a,
    ;
    assert(eb <= 255) by (nonlinear_arith)
        requires
            b <= 0x7f80_0000,
            eb == b / 0x80_0000,
            0 <= b,
    ;
    assert(ea < 255 || (ea == 255 && a == 0x7f80_0000)) by (nonlinear_arith)
        requires
            a < 0x7f80_0000,
            ea == a / 0x80_0000,
            0 <= a,
    ;
    assert(0 <= ma < 0x80_0000 && 0 <= mb < 0x80_0000);
    assert(a == ea * 0x80_0000 + ma && b == eb * 0x80_0000 + mb);
    // A finite magnitude lies below 2^23 * 2^e for its exponent field e >= 1,
    // and below 2^23 when e is 0.
    if ea >= 1 {
        lemma_pow2_pos((ea - 1) as nat);
        assert(f32_scaled_magnitude(a) >= 0) by (nonlinear_arith)
            requires
                f32_scaled_magnitude(a) == (ma + 0x80_0000) * pow2((ea - 1) as nat),
                ma >= 0,
                pow2((ea - 1) as nat) > 0,
        ;
    }
    if eb == 255 {
        // b is infinity: every finite magnitude lies below 2^278.
        if ea >= 1 {
            lemma_pow2_adds(24, (ea - 1) as nat);
            lemma_pow2_strictly_increases((24 + ea - 1) as nat, 278);
            lemma2_to64();
            assert(f32_scaled_magnitude(a) < pow2(278)) by (nonlinear_arith)
                requires
                    f32_scaled_magnitude(a) == (ma + 0x80_0000) * pow2((ea - 1) as nat),
                    ma + 0x80_0000 < pow2(24),
                    pow2(24) * pow2((ea - 1) as nat) == pow2((24 + ea - 1) as nat),
                    pow2((24 + ea - 1) as nat) < pow2(278),
                    pow2((ea - 1) as nat) > 0,
            ;
        } else {
            lemma_pow2_strictly_increases(24, 278);
            lemma2_to64();
        }
    } else if ea == eb {
        assert(ma < mb);
        if ea >= 1 {
            lemma_pow2_pos((ea - 1) as nat);
            assert((ma + 0x80_0000) * pow2((ea - 1) as nat) < (mb + 0x80_0000) * pow2(
                (ea - 1) as nat,
            )) by (nonlinear_arith)
                requires
                    ma < mb,
                    pow2((ea - 1) as nat) > 0,
            ;
        }
    } else {
        assert(ea < eb && eb >= 1);
        lemma_pow2_pos((eb - 1) as nat);
        assert(f32_scaled_magnitude(b) >= 0x80_0000 * pow2((eb - 1) as nat)) by (nonlinear_arith)
            requires
                f32_scaled_magnitude(b) == (mb + 0x80_0000) * pow2((eb - 1) as nat),
                mb >= 0,
                pow2((eb - 1) as nat) > 0,
        ;
        if ea == 0 {
            lemma2_to64();
            if eb >= 2 {
                lemma_pow2_strictly_increases(0, (eb - 1) as nat);
            }
            assert(0x80_0000 <= 0x80_0000 * pow2((eb - 1) as nat)) by (nonlinear_arith)
                requires
                    pow2((eb - 1) as nat) >= 1,
            ;
        } else {
            // 2^23 * 2^(ea - 1) * 2 = 2^23 * 2^ea <= 2^23 * 2^(eb - 1)
            lemma_pow2_adds(1, (ea - 1) as nat);
            lemma2_to64();
            if ea < eb - 1 {
                lemma_pow2_strictly_increases(ea as nat, (eb - 1) as nat);
            }
            lemma_pow2_pos((ea - 1) as nat);
            assert(f32_scaled_magnitude(a) < 0x80_0000 * pow2((eb - 1) as nat)) by (nonlinear_arith)
                requires
                    f32_scaled_magnitude(a) == (ma + 0x80_0000) * pow2((ea - 1) as nat),
                    ma < 0x80_0000,
                    pow2(1) * pow2((ea - 1) as nat) == pow2((1 + ea - 1) as nat),
                    pow2(1) == 2,
                    pow2((1 + ea - 1) as nat) <= pow2((eb - 1) as nat),
                    pow2((ea - 1) as nat) > 0,
            ;
        }
    }
}

/// Law of the score order: for scores that are no NaN, the ranking key of a
/// score is below that of another exactly when its numeric value is below
/// the other's; equal values (0.0 and -0.0 among them) have equal keys.
pub proof fn lemma_float_rank_follows_value(x: u32, y: u32)
    requires
        !is_nan_bits(x),
        !is_nan_bits(y),
    ensures
        f32_scaled_value(x) < f32_scaled_value(y) <==> float_rank(x) < float_rank(y),
        f32_scaled_value(x) == f32_scaled_value(y) <==> float_rank(x) == float_rank(y),
{
    let bx = x as int;
    let by_ = y as int;
    let mx = if bx >= 0x8000_0000 { bx - 0x8000_0000 } else { bx };
    let my = if by_ >= 0x8000_0000 { by_ - 0x8000_0000 } else { by_ };
    assert(mx == bx % 0x8000_0000 && my == by_ % 0x8000_0000);
    assert(0 <= mx <= 0x7f80_0000 && 0 <= my <= 0x7f80_0000);
    assert(f32_scaled_magnitude(0) == 0);
    if mx < my {
        lemma_scaled_magnitude_increases(mx, my);
    } else if my < mx {
        lemma_scaled_magnitude_increases(my, mx);
    }
    if 0 < mx {
        lemma_scaled_magnitude_increases(0, mx);
    }
    if 0 < my {
        lemma_scaled_magnitude_increases(0, my);
    }
}

/// Law of semantic ranking: among scores that are no NaN, a top selection by
/// score lists entries from the highest score to the lowest as numbers, equal
/// scores in the order of the entries; and every entry left out scores no
/// higher than each entry listed (and, at an equal score, comes after it).
pub proof fn lemma_score_ranking_by_value(entries: Seq<(usize, u32)>, top_k: nat, r: Seq<usize>)
    requires
        is_top_selection(score_keys(entries), top_k, r),
        forall|k: int| 0 <= k < entries.len() ==> !is_nan_bits(#[trigger] entries[k].1),
    ensures
        r.len() == (if top_k < entries.len() { top_k } else { entries.len() }),
        forall|a: int, b: int|
            0 <= a < b < r.len() ==> {
                ||| f32_scaled_value(entries[#[trigger] r[a] as int].1) > f32_scaled_value(
                    entries[#[trigger] r[b] as int].1,
                )
                ||| (f32_scaled_value(entries[r[a] as int].1) == f32_scaled_value(
                    entries[r[b] as int].1,
                ) && r[a] < r[b])
            },
        forall|j: int, a: int|
            #![trigger r[a], entries[j]]
            0 <= j < entries.len() && !r.contains(j as usize) && 0 <= a < r.len() ==> {
                ||| f32_scaled_value(entries[r[a] as int].1) > f32_scaled_value(entries[j].1)
                ||| (f32_scaled_value(entries[r[a] as int].1) == f32_scaled_value(entries[j].1)
                    && r[a] < j)
            },
{
    let keys = score_keys(entries);
    assert forall|a: int, b: int| 0 <= a < b < r.len() implies {
        ||| f32_scaled_value(entries[#[trigger] r[a] as int].1) > f32_scaled_value(
            entries[#[trigger] r[b] as int].1,
        )
        ||| (f32_scaled_value(entries[r[a] as int].1) == f32_scaled_value(entries[r[b] as int].1)
            && r[a] < r[b])
    } by {
        assert(crate::ranking::precedes(keys, r[a] as int, r[b] as int));
        lemma_float_rank_follows_value(entries[r[a] as int].1, entries[r[b] as int].1);
    }
    assert forall|j: int, a: int|
        #![trigger r[a], entries[j]]
        0 <= j < entries.len() && !r.contains(j as usize) && 0 <= a < r.len() implies {
            ||| f32_scaled_value(entries[r[a] as int].1) > f32_scaled_value(entries[j].1)
            ||| (f32_scaled_value(entries[r[a] as int].1) == f32_scaled_value(entries[j].1) && r[a]
                < j)
        } by {
        assert(keys[j] == float_rank(entries[j].1));
        assert(crate::ranking::precedes(keys, r[a] as int, j));
        lemma_float_rank_follows_value(entries[r[a] as int].1, entries[j].1);
    }
}

/// The scored nodes: the index and score bits of each node that has a score,
/// in the order of the nodes.
pub open spec fn scored_entries(scores: Seq<Option<u32>>) -> Seq<(usize, u32)>
    decreases scores.len(),
{
    if scores.len() == 0 {
        Seq::empty()
    } else {
        let rest = scored_entries(scores.drop_last());
        match scores.last() {
            Some(bits) => rest.push(((scores.len() - 1) as usize, bits)),
            None => rest,
        }
    }
}

/// The ranking keys of scored entries.
pub open spec fn score_keys(entries: Seq<(usize, u32)>) -> Seq<i128> {
    Seq::new(entries.len(), |i: int| float_rank(entries[i].1))
}

/// Law of adding a node, stated over the nodes themselves: a node whose content
/// and type some node already has is refused with "Duplicate node: content
/// '<content>' type '<type>' already exists"; else a node whose identifier some
/// node already has is refused with "Node with id <id> already exists"; any
/// other node is appended, and the edges stay as they were.
pub proof fn lemma_add_node_outcomes(m: AgentMemoryView, node: MemoryNode)
    ensures
        (exists|i: int|
            0 <= i < m.nodes.len() && m.nodes[i].content@ == node.content@ && m.nodes[i].mem_type@
                == node.mem_type@) ==> m.add_node(node) == Err::<AgentMemoryView, Seq<char>>(
            "Duplicate node: content '"@ + node.content@ + "' type '"@ + node.mem_type@
                + "' already exists"@,
        ),
        (forall|i: int|
            0 <= i < m.nodes.len() ==> !(m.nodes[i].content@ == node.content@
                && m.nodes[i].mem_type@ == node.mem_type@)) && (exists|i: int|
            0 <= i < m.nodes.len() && m.nodes[i].id@ == node.id@) ==> m.add_node(node) == Err::<
            AgentMemoryView,
            Seq<char>,
        >("Node with id "@ + node.id@ + " already exists"@),
        (forall|i: int|
            0 <= i < m.nodes.len() ==> !(m.nodes[i].content@ == node.content@
                && m.nodes[i].mem_type@ == node.mem_type@) && m.nodes[i].id@ != node.id@)
            ==> m.add_node(node) == Ok::<AgentMemoryView, Seq<char>>(
            AgentMemoryView { nodes: m.nodes.push(node), edges: m.edges },
        ),
{
}

/// Law of adding an edge, stated over the nodes themselves: without a node
/// of the source identifier it is refused with "From node not found"; with
/// one but without a node of the target identifier, with "To node not found";
/// otherwise an edge from the source's index to the target's index is
/// appended and the nodes stay as they were.
pub proof fn lemma_add_edge_outcomes(m: AgentMemoryView, from_id: Seq<char>, to_id: Seq<char>, edge: MemoryEdge)
    requires
        m.wf(),
    ensures
        (forall|i: int| 0 <= i < m.nodes.len() ==> m.nodes[i].id@ != from_id) ==> m.add_edge(
            from_id,
            to_id,
            edge,
        ) == Err::<AgentMemoryView, Seq<char>>("From node not found"@),
        (exists|i: int| 0 <= i < m.nodes.len() && m.nodes[i].id@ == from_id) && (forall|i: int|
            0 <= i < m.nodes.len() ==> m.nodes[i].id@ != to_id) ==> m.add_edge(from_id, to_id, edge)
            == Err::<AgentMemoryView, Seq<char>>("To node not found"@),
        forall|i: int, j: int|
            0 <= i < m.nodes.len() && 0 <= j < m.nodes.len() && m.nodes[i].id@ == from_id
                && m.nodes[j].id@ == to_id ==> m.add_edge(from_id, to_id, edge) == Ok::<
                AgentMemoryView,
                Seq<char>,
            >(
                AgentMemoryView {
                    nodes: m.nodes,
                    edges: m.edges.push((i as usize, j as usize, edge)),
                },
            ),
{
    assert forall|i: int, j: int|
        0 <= i < m.nodes.len() && 0 <= j < m.nodes.len() && m.nodes[i].id@ == from_id
            && m.nodes[j].id@ == to_id implies m.add_edge(from_id, to_id, edge) == Ok::<
            AgentMemoryView,
            Seq<char>,
        >(
            AgentMemoryView {
                nodes: m.nodes,
                edges: m.edges.push((i as usize, j as usize, edge)),
            },
        ) by {
        assert(has_id(m.nodes, from_id) && has_id(m.nodes, to_id));
        let fi = index_of_id(m.nodes, from_id);
        let ti = index_of_id(m.nodes, to_id);
        assert(m.nodes[fi].id@ == from_id && m.nodes[ti].id@ == to_id);
        assert(fi == i && ti == j);
    }
}

/// Law of de-duplication: adding a node that was just added is refused as a
/// duplicate and leaves the memory as it was.
pub proof fn lemma_add_node_twice(m: AgentMemoryView, node: MemoryNode)
    requires
        m.wf(),
        m.add_node(node) is Ok,
    ensures
        m.add_node(node)->Ok_0.add_node(node) == Err::<AgentMemoryView, Seq<char>>(
            duplicate_content_message(node.content@, node.mem_type@),
        ),
{
    let v = m.add_node(node)->Ok_0;
    assert(v.nodes[m.nodes.len() as int] == node);
    assert(has_content(v.nodes, node.content@, node.mem_type@));
}

/// Law of keyword search: a keyword whose lower-case text is empty matches
/// every node, so the search returns them all, in order.
pub proof fn lemma_blank_keyword_matches_all(nodes: Seq<MemoryNode>, keyword: Seq<char>)
    requires
        lowercase(keyword).len() == 0,
    ensures
        keyword_matches(nodes, keyword) == nodes,
    decreases nodes.len(),
{
    if nodes.len() > 0 {
        lemma_blank_keyword_matches_all(nodes.drop_last(), keyword);
        let hay = lowercase(nodes.last().content@);
        let needle = lowercase(keyword);
        assert(hay.subrange(0int, 0int + needle.len()) =~= needle);
        assert(contains_text(hay, needle));
        assert(matches_keyword(nodes.last(), keyword));
        assert(nodes.drop_last().push(nodes.last()) =~= nodes);
    }
}

/// Law of recency: a top selection by recency lists nodes from the latest
/// creation time to the earliest, nodes created at the same time in the order
/// they were added; and every node left out was created no later than each
/// node listed (and, at an equal time, added after it).
pub proof fn lemma_recent_by_creation_time(nodes: Seq<MemoryNode>, limit: nat, r: Seq<usize>)
    requires
        is_top_selection(recency_keys(nodes), limit, r),
    ensures
        r.len() == (if limit < nodes.len() { limit } else { nodes.len() }),
        forall|a: int| 0 <= a < r.len() ==> #[trigger] r[a] < nodes.len(),
        forall|a: int, b: int|
            0 <= a < b < r.len() ==> {
                ||| nodes[#[trigger] r[a] as int].created_at > nodes[#[trigger] r[b] as int].created_at
                ||| (nodes[r[a] as int].created_at == nodes[r[b] as int].created_at && r[a] < r[b])
            },
        forall|j: int, a: int|
            #![trigger r[a], nodes[j]]
            0 <= j < nodes.len() && !r.contains(j as usize) && 0 <= a < r.len() ==> {
                ||| nodes[r[a] as int].created_at > nodes[j].created_at
                ||| (nodes[r[a] as int].created_at == nodes[j].created_at && r[a] < j)
            },
{
    let keys = recency_keys(nodes);
    assert forall|a: int, b: int| 0 <= a < b < r.len() implies {
        ||| nodes[#[trigger] r[a] as int].created_at > nodes[#[trigger] r[b] as int].created_at
        ||| (nodes[r[a] as int].created_at == nodes[r[b] as int].created_at && r[a] < r[b])
    } by {
        assert(crate::ranking::precedes(keys, r[a] as int, r[b] as int));
    }
    assert forall|j: int, a: int|
        #![trigger r[a], nodes[j]]
        0 <= j < nodes.len() && !r.contains(j as usize) && 0 <= a < r.len() implies {
            ||| nodes[r[a] as int].created_at > nodes[j].created_at
            ||| (nodes[r[a] as int].created_at == nodes[j].created_at && r[a] < j)
        } by {
        assert(keys[j] == nodes[j].created_at as i128);
        assert(crate::ranking::precedes(keys, r[a] as int, j));
    }
}

/// Law of keyword search, stated over the content alone: the nodes found are
/// exactly the nodes, in their order, whose lower-cased content contains the
/// lower-cased keyword; no other field of a node counts.
pub proof fn lemma_keyword_search_is_content_filter(nodes: Seq<MemoryNode>, keyword: Seq<char>)
    ensures
        keyword_matches(nodes, keyword) == nodes.filter(
            |n: MemoryNode| contains_text(lowercase(n.content@), lowercase(keyword)),
        ),
    decreases nodes.len(),
{
    reveal(Seq::filter);
    if nodes.len() > 0 {
        lemma_keyword_search_is_content_filter(nodes.drop_last(), keyword);
    }
}

/// Law of keyword search: a node is found exactly when it is in the memory
/// and its content contains the keyword, ignoring case.
pub proof fn lemma_keyword_matches_members(nodes: Seq<MemoryNode>, keyword: Seq<char>, x: MemoryNode)
    ensures
        keyword_matches(nodes, keyword).contains(x) <==> (nodes.contains(x) && matches_keyword(
            x,
            keyword,
        )),
    decreases nodes.len(),
{
    if nodes.len() > 0 {
        let init = nodes.drop_last();
        lemma_keyword_matches_members(init, keyword, x);
        let rest = keyword_matches(init, keyword);
        assert(nodes =~= init.push(nodes.last()));
        if nodes.contains(x) {
            let i = choose|i: int| 0 <= i < nodes.len() && nodes[i] == x;
            if i < init.len() {
                assert(init[i] == x);
            }
        }
        if init.contains(x) {
            let i = choose|i: int| 0 <= i < init.len() && init[i] == x;
            assert(nodes[i] == x);
        }
        if matches_keyword(nodes.last(), keyword) {
            let out = rest.push(nodes.last());
            if rest.contains(x) {
                let i = choose|i: int| 0 <= i < rest.len() && rest[i] == x;
                assert(out[i] == x);
            }
            if out.contains(x) {
                let i = choose|i: int| 0 <= i < out.len() && out[i] == x;
                if i < rest.len() {
                    assert(rest[i] == x);
                }
            }
            assert(out[rest.len() as int] == nodes.last());
        }
    }
}

impl AgentMemoryView {
    /// Identifiers are unique, content-and-type pairs are unique, every edge
    /// joins existing nodes, and both counts fit the graph's `u32` indices.
    pub open spec fn wf(self) -> bool {
        &&& self.nodes.len() <= u32::MAX
        &&& self.edges.len() <= u32::MAX
        &&& forall|i: int, j: int|
            0 <= i < self.nodes.len() && 0 <= j < self.nodes.len() && i != j ==> (
            #[trigger] self.nodes[i]).id@ != (#[trigger] self.nodes[j]).id@
        &&& forall|i: int, j: int|
            0 <= i < self.nodes.len() && 0 <= j < self.nodes.len() && i != j ==> !((
            #[trigger] self.nodes[i]).content@ == (#[trigger] self.nodes[j]).content@
                && self.nodes[i].mem_type@ == self.nodes[j].mem_type@)
        &&& forall|k: int|
            0 <= k < self.edges.len() ==> (#[trigger] self.edges[k]).0 < self.nodes.len()
                && self.edges[k].1 < self.nodes.len()
    }

    /// The outcome of adding `node`: the content-and-type check comes first,
    /// then the identifier check, and only a node that passes both is appended.
    pub open spec fn add_node(self, node: MemoryNode) -> Result<AgentMemoryView, Seq<char>> {
        if has_content(self.nodes, node.content@, node.mem_type@) {
            Err(duplicate_content_message(node.content@, node.mem_type@))
        } else if has_id(self.nodes, node.id@) {
            Err(duplicate_id_message(node.id@))
        } else {
            Ok(AgentMemoryView { nodes: self.nodes.push(node), edges: self.edges })
        }
    }

    /// The outcome of adding an edge from the node `from_id` to the node
    /// `to_id`: the source is looked up first, then the target.
    pub open spec fn add_edge(self, from_id: Seq<char>, to_id: Seq<char>, edge: MemoryEdge) -> Result<
        AgentMemoryView,
        Seq<char>,
    > {
        if !has_id(self.nodes, from_id) {
            Err(from_not_found_message())
        } else if !has_id(self.nodes, to_id) {
            Err(to_not_found_message())
        } else {
            Ok(
                AgentMemoryView {
                    nodes: self.nodes,
                    edges: self.edges.push(
                        (
                            index_of_id(self.nodes, from_id) as usize,
                            index_of_id(self.nodes, to_id) as usize,
                            edge,
                        ),
                    ),
                },
            )
        }
    }
}

/// The long-term memory graph.
pub struct AgentMemory {
    graph: Graph<MemoryNode, MemoryEdge>,
}

impl AgentMemory {
    /// The memory is always well formed.
    #[verifier::type_invariant]
    pub(crate) open spec fn well_formed(self) -> bool {
        self@.wf()
    }
}

impl View for AgentMemory {
    type V = AgentMemoryView;

    closed spec fn view(&self) -> AgentMemoryView {
        AgentMemoryView { nodes: graph_nodes(self.graph), edges: graph_edges(self.graph) }
    }
}

impl AgentMemory {
    /// An empty memory.
    pub fn new() -> (m: Self)
        ensures
            m@.nodes == Seq::<MemoryNode>::empty(),
            m@.edges == Seq::<(usize, usize, MemoryEdge)>::empty(),
            m@.wf(),
    {
        AgentMemory { graph: graph_new() }
    }

    /// The number of nodes.
    pub fn len(&self) -> (n: usize)
        ensures
            n == self@.nodes.len(),
    {
        graph_node_count(&self.graph)
    }

    /// The number of edges.
    pub fn edge_count(&self) -> (n: usize)
        ensures
            n == self@.edges.len(),
    {
        graph_edge_count(&self.graph)
    }

    /// The index of the node whose identifier is `id`, if there is one.
    fn find_id(&self, id: &String) -> (r: Option<usize>)
        requires
            self@.wf(),
        ensures
            match r {
                Some(i) => i < self@.nodes.len() && self@.nodes[i as int].id@ == id@,
                None => !has_id(self@.nodes, id@),
            },
    {
        let n = graph_node_count(&self.graph);
        let mut i: usize = 0;
        while i < n
            invariant
                n == self@.nodes.len(),
                n <= u32::MAX,
                i <= n,
                forall|j: int| 0 <= j < i ==> (#[trigger] self@.nodes[j]).id@ != id@,
            decreases n - i,
        {
            let node = graph_node_weight(&self.graph, i).unwrap();
            if node.id == *id {
                return Some(i);
            }
            i = i + 1;
        }
        None
    }

    /// Whether some node has this content and this type.
    fn find_content(&self, content: &String, mem_type: &String) -> (r: bool)
        requires
            self@.wf(),
        ensures
            r == has_content(self@.nodes, content@, mem_type@),
    {
        let n = graph_node_count(&self.graph);
        let mut i: usize = 0;
        while i < n
            invariant
                n == self@.nodes.len(),
                n <= u32::MAX,
                i <= n,
                forall|j: int|
                    0 <= j < i ==> !((#[trigger] self@.nodes[j]).content@ == content@
                        && self@.nodes[j].mem_type@ == mem_type@),
            decreases n - i,
        {
            let node = graph_node_weight(&self.graph, i).unwrap();
            if node.content == *content && node.mem_type == *mem_type {
                return true;
            }
            i = i + 1;
        }
        false
    }


    /// All nodes, in the order they were added.
    pub fn nodes(&self) -> (all: Vec<&MemoryNode>)
        ensures
            all@.len() == self@.nodes.len(),
            forall|i: int| 0 <= i < all@.len() ==> *all@[i] == self@.nodes[i],
    {
        proof {
            use_type_invariant(self);
        }
        let n = graph_node_count(&self.graph);
        let mut out: Vec<&MemoryNode> = Vec::new();
        let mut i: usize = 0;
        while i < n
            invariant
                n == self@.nodes.len(),
                n <= u32::MAX,
                i <= n,
                out@.len() == i,
                forall|j: int| 0 <= j < i ==> *out@[j] == self@.nodes[j],
            decreases n - i,
        {
            out.push(graph_node_weight(&self.graph, i).unwrap());
            i = i + 1;
        }
        out
    }

    /// The nodes whose content contains `keyword`, ignoring case, in the
    /// order they were added.
    pub fn search_by_keyword(&self, keyword: &str) -> (found: Vec<&MemoryNode>)
        ensures
            found@.len() == keyword_matches(self@.nodes, keyword@).len(),
            forall|i: int|
                0 <= i < found@.len() ==> *found@[i] == keyword_matches(self@.nodes, keyword@)[i],
            keyword@.len() == 0 ==> found@.len() == self@.nodes.len(),
            keyword@.len() == 0 ==> forall|i: int|
                0 <= i < found@.len() ==> *found@[i] == self@.nodes[i],
    {
        proof {
            use_type_invariant(self);
        }
        let keyword_lower = to_lowercase(keyword);
        let n = graph_node_count(&self.graph);
        let mut out: Vec<&MemoryNode> = Vec::new();
        let mut i: usize = 0;
        while i < n
            invariant
                n == self@.nodes.len(),
                n <= u32::MAX,
                i <= n,
                keyword_lower@ == lowercase(keyword@),
                out@.len() == keyword_matches(self@.nodes.take(i as int), keyword@).len(),
                forall|j: int|
                    0 <= j < out@.len() ==> *out@[j] == keyword_matches(
                        self@.nodes.take(i as int),
                        keyword@,
                    )[j],
            decreases n - i,
        {
            let node = graph_node_weight(&self.graph, i).unwrap();
            let content_lower = to_lowercase(node.content.as_str());
            let hit = str_contains(content_lower.as_str(), keyword_lower.as_str());
            proof {
                let nodes = self@.nodes;
                assert(nodes.take(i + 1).drop_last() =~= nodes.take(i as int));
                assert(nodes.take(i + 1).last() == nodes[i as int]);
            }
            if hit {
                out.push(node);
            }
            i = i + 1;
        }
        proof {
            assert(self@.nodes.take(n as int) =~= self@.nodes);
            if keyword@.len() == 0 {
                lemma_blank_keyword_matches_all(self@.nodes, keyword@);
            }
        }
        out
    }

    /// The `limit` most recently created nodes, newest first; nodes created
    /// at the same second keep the order in which they were added.
    pub fn get_recent(&self, limit: usize) -> (recent: Vec<&MemoryNode>)
        ensures
            exists|r: Seq<usize>|
                {
                    &&& is_top_selection(recency_keys(self@.nodes), limit as nat, r)
                    &&& recent@.len() == r.len()
                    &&& forall|a: int|
                        0 <= a < r.len() ==> *recent@[a] == self@.nodes[#[trigger] r[a] as int]
                },
    {
        proof {
            use_type_invariant(self);
        }
        let n = graph_node_count(&self.graph);
        let ghost nodes = self@.nodes;
        let mut keys: Vec<i128> = Vec::new();
        let mut i: usize = 0;
        while i < n
            invariant
                nodes == self@.nodes,
                n == nodes.len(),
                n <= u32::MAX,
                i <= n,
                keys@ == recency_keys(nodes).take(i as int),
            decreases n - i,
        {
            let t = graph_node_weight(&self.graph, i).unwrap().created_at;
            keys.push(t as i128);
            proof {
                assert(keys@ =~= recency_keys(nodes).take(i + 1));
            }
            i = i + 1;
        }
        proof {
            assert(keys@ =~= recency_keys(nodes));
        }
        let picks = top_positions(&keys, limit);
        let mut out: Vec<&MemoryNode> = Vec::new();
        let mut a: usize = 0;
        while a < picks.len()
            invariant
                nodes == self@.nodes,
                n == nodes.len(),
                n <= u32::MAX,
                keys@ == recency_keys(nodes),
                is_top_selection(keys@, limit as nat, picks@),
                a <= picks@.len(),
                out@.len() == a,
                forall|k: int| 0 <= k < a ==> *out@[k] == nodes[picks@[k] as int],
            decreases picks@.len() - a,
        {
            let idx = picks[a];
            out.push(graph_node_weight(&self.graph, idx).unwrap());
            a = a + 1;
        }
        proof {
            let r = picks@;
            assert forall|k: int| 0 <= k < r.len() implies *out@[k] == nodes[#[trigger] r[k] as int] by {}
        }
        out
    }

    /// Ranks the scored nodes by score, highest first, keeping nodes with
    /// equal scores in the order they were added, and returns the first
    /// `top_k` with their scores. `scores` gives, for each node in order, the
    /// bits of its `f32` similarity score, present exactly for the nodes that
    /// have an embedding. Scores compare as numbers, which a NaN is not, so
    /// `requires` leaves out a NaN among two or more scores.
    pub fn rank_by_score(&self, scores: Vec<Option<u32>>, top_k: usize) -> (ranked: Vec<(&MemoryNode, u32)>)
        requires
            scores@.len() == self@.nodes.len(),
            forall|i: int|
                0 <= i < scores@.len() ==> (#[trigger] scores@[i]).is_some()
                    == self@.nodes[i].embedding_bits.is_some(),
            scored_entries(scores@).len() >= 2 ==> forall|k: int|
                0 <= k < scored_entries(scores@).len() ==> !is_nan_bits(
                    #[trigger] scored_entries(scores@)[k].1,
                ),
        ensures
            exists|r: Seq<usize>|
                {
                    &&& #[trigger] is_top_selection(score_keys(scored_entries(scores@)), top_k as nat, r)
                    &&& ranked@.len() == r.len()
                    &&& forall|a: int|
                        0 <= a < r.len() ==> {
                            &&& *ranked@[a].0 == self@.nodes[scored_entries(
                                scores@,
                            )[#[trigger] r[a] as int].0 as int]
                            &&& ranked@[a].1 == scored_entries(scores@)[r[a] as int].1
                        }
                },
    {
        proof {
            use_type_invariant(self);
        }
        let ghost nodes = self@.nodes;
        let ghost all = scores@;
        let n = scores.len();
        let mut entries: Vec<(usize, u32)> = Vec::new();
        let mut keys: Vec<i128> = Vec::new();
        let mut i: usize = 0;
        while i < n
            invariant
                nodes == self@.nodes,
                all == scores@,
                n == all.len(),
                n == nodes.len(),
                i <= n,
                entries@ == scored_entries(all.take(i as int)),
                keys@ == score_keys(entries@),
                forall|k: int| 0 <= k < entries@.len() ==> (#[trigger] entries@[k]).0 < i,
            decreases n - i,
        {
            proof {
                assert(all.take(i + 1).drop_last() =~= all.take(i as int));
                assert(all.take(i + 1).last() == all[i as int]);
            }
            match scores[i] {
                Some(bits) => {
                    entries.push((i, bits));
                    let key: i128 = if bits >= 0x8000_0000 {
                        0x8000_0000i128 - bits as i128
                    } else {
                        bits as i128
                    };
                    keys.push(key);
                    proof {
                        assert(keys@ =~= score_keys(entries@));
                    }
                },
                None => {},
            }
            i = i + 1;
        }
        proof {
            assert(all.take(n as int) =~= all);
        }
        let picks = top_positions(&keys, top_k);
        let mut out: Vec<(&MemoryNode, u32)> = Vec::new();
        let mut a: usize = 0;
        while a < picks.len()
            invariant
                nodes == self@.nodes,
                n == nodes.len(),
                n <= u32::MAX,
                entries@ == scored_entries(all),
                keys@ == score_keys(entries@),
                forall|k: int| 0 <= k < entries@.len() ==> (#[trigger] entries@[k]).0 < n,
                is_top_selection(keys@, top_k as nat, picks@),
                a <= picks@.len(),
                out@.len() == a,
                forall|k: int|
                    0 <= k < a ==> {
                        &&& *out@[k].0 == nodes[entries@[picks@[k] as int].0 as int]
                        &&& out@[k].1 == entries@[picks@[k] as int].1
                    },
            decreases picks@.len() - a,
        {
            let p = picks[a];
            let (idx, bits) = entries[p];
            out.push((graph_node_weight(&self.graph, idx).unwrap(), bits));
            a = a + 1;
        }
        proof {
            let r = picks@;
            let entries_s = scored_entries(all);
            assert forall|k: int| 0 <= k < r.len() implies {
                &&& *out@[k].0 == nodes[entries_s[#[trigger] r[k] as int].0 as int]
                &&& out@[k].1 == entries_s[r[k] as int].1
            } by {}
        }
        out
    }

    /// Whether `add_node` would add `node`: no node has its content and type,
    /// and none has its identifier.
    pub fn accepts_node(&self, node: &MemoryNode) -> (r: bool)
        ensures
            r == self@.add_node(*node) is Ok,
    {
        proof {
            use_type_invariant(self);
        }
        !self.find_content(&node.content, &node.mem_type) && self.find_id(&node.id).is_none()
    }

    /// Whether `add_edge` would add an edge from `from_id` to `to_id`: both
    /// nodes are present.
    pub fn accepts_edge(&self, from_id: &str, to_id: &str) -> (r: bool)
        ensures
            r == (has_id(self@.nodes, from_id@) && has_id(self@.nodes, to_id@)),
    {
        proof {
            use_type_invariant(self);
        }
        let from_key = from_id.to_owned();
        let to_key = to_id.to_owned();
        self.find_id(&from_key).is_some() && self.find_id(&to_key).is_some()
    }

    /// Adds `node`, unless a node with the same content and type, or with the
    /// same identifier, is already present; the error says which. The graph
    /// indexes nodes by `u32`, so `requires` leaves out an addition to a graph
    /// that holds `u32::MAX` nodes.
    pub fn add_node(&mut self, node: MemoryNode) -> (r: Result<(), String>)
        requires
            old(self)@.add_node(node) is Ok ==> old(self)@.nodes.len() < u32::MAX,
        ensures
            final(self)@.wf(),
            final(self)@.nodes.len() == old(self)@.nodes.len() + if r is Ok {
                1int
            } else {
                0int
            },
            final(self)@.edges == old(self)@.edges,
            match (r, old(self)@.add_node(node)) {
                (Ok(()), Ok(v)) => final(self)@ == v,
                (Err(msg), Err(expected)) => msg@ == expected && final(self)@ == old(self)@,
                _ => false,
            },
    {
        proof {
            use_type_invariant(&*self);
        }
        if self.find_content(&node.content, &node.mem_type) {
            let mut msg = String::from_str("Duplicate node: content '");
            msg.append(node.content.as_str());
            msg.append("' type '");
            msg.append(node.mem_type.as_str());
            msg.append("' already exists");
            proof {
                reveal_strlit("Duplicate node: content '");
                reveal_strlit("' type '");
                reveal_strlit("' already exists");
            }
            return Err(msg);
        }
        if self.find_id(&node.id).is_some() {
            let mut msg = String::from_str("Node with id ");
            msg.append(node.id.as_str());
            msg.append(" already exists");
            proof {
                reveal_strlit("Node with id ");
                reveal_strlit(" already exists");
            }
            return Err(msg);
        }
        let ghost old_nodes = self@.nodes;
        let ghost old_edges = self@.edges;
        let mut g = graph_new();
        std::mem::swap(&mut g, &mut self.graph);
        graph_add_node(&mut g, node);
        proof {
            let nodes = graph_nodes(g);
            assert(nodes == old_nodes.push(node));
            assert forall|i: int, j: int|
                0 <= i < nodes.len() && 0 <= j < nodes.len() && i != j implies (
                #[trigger] nodes[i]).id@ != (#[trigger] nodes[j]).id@ by {
                if i == old_nodes.len() {
                    assert(nodes[j] == old_nodes[j]);
                } else if j == old_nodes.len() {
                    assert(nodes[i] == old_nodes[i]);
                }
            }
            assert forall|i: int, j: int|
                0 <= i < nodes.len() && 0 <= j < nodes.len() && i != j implies !((
                #[trigger] nodes[i]).content@ == (#[trigger] nodes[j]).content@
                    && nodes[i].mem_type@ == nodes[j].mem_type@) by {
                if i == old_nodes.len() {
                    assert(nodes[j] == old_nodes[j]);
                } else if j == old_nodes.len() {
                    assert(nodes[i] == old_nodes[i]);
                }
            }
        }
        self.graph = g;
        Ok(())
    }

    /// Adds an edge from the node `from_id` to the node `to_id`; the error
    /// names the endpoint that is missing, the source first. The graph
    /// indexes edges by `u32`, so `requires` leaves out an addition to a graph
    /// that holds `u32::MAX` edges.
    pub fn add_edge(&mut self, from_id: &str, to_id: &str, edge: MemoryEdge) -> (r: Result<(), String>)
        requires
            old(self)@.add_edge(from_id@, to_id@, edge) is Ok ==> old(self)@.edges.len() < u32::MAX,
        ensures
            final(self)@.wf(),
            final(self)@.nodes == old(self)@.nodes,
            match (r, old(self)@.add_edge(from_id@, to_id@, edge)) {
                (Ok(()), Ok(v)) => final(self)@ == v,
                (Err(msg), Err(expected)) => msg@ == expected && final(self)@ == old(self)@,
                _ => false,
            },
    {
        proof {
            use_type_invariant(&*self);
        }
        let from_key = from_id.to_owned();
        let from = match self.find_id(&from_key) {
            Some(i) => i,
            None => {
                proof {
                    reveal_strlit("From node not found");
                }
                return Err(String::from_str("From node not found"));
            },
        };
        let to_key = to_id.to_owned();
        let to = match self.find_id(&to_key) {
            Some(i) => i,
            None => {
                proof {
                    reveal_strlit("To node not found");
                }
                return Err(String::from_str("To node not found"));
            },
        };
        proof {
            let nodes = self@.nodes;
            let fi = index_of_id(nodes, from_id@);
            let ti = index_of_id(nodes, to_id@);
            assert(nodes[from as int].id@ == from_id@);
            assert(nodes[fi].id@ == from_id@);
            assert(fi == from);
            assert(nodes[ti].id@ == to_id@);
            assert(ti == to);
        }
        let mut g = graph_new();
        std::mem::swap(&mut g, &mut self.graph);
        graph_add_edge(&mut g, from, to, edge);
        self.graph = g;
        Ok(())
    }
}

impl Default for AgentMemory {
    /// An empty memory, as `new` makes.
    fn default() -> (m: Self)
        ensures
            m@.nodes == Seq::<MemoryNode>::empty(),
            m@.edges == Seq::<(usize, usize, MemoryEdge)>::empty(),
            m@.wf(),
    {
        Self::new()
    }
}

} // verus!
