use vstd::prelude::*;
use vstd::string::StringExecFns;
use vivalaakam_neat_rs::{Genome, NeuronType};

verus! {

/// `vivalaakam_neat_rs::Genome`, declared so that a parsed genome can pass
/// through verified code; what it holds is read through `genome_nodes` and
/// `genome_connections`.
#[verifier::external_type_specification]
#[verifier::external_body]
pub struct ExGenome(Genome);

/// The role of a node in a network.
#[derive(Clone, Copy, Debug, PartialEq, Eq, Structural)]
pub enum NodeKind {
    Input,
    Hidden,
    Output,
    Unknown,
}

/// What the migration reads of a node: its id, role, position and whether
/// it is enabled (its bias and activation are carried over by index).
pub struct NodeData {
    pub id: String,
    pub kind: NodeKind,
    pub position: usize,
    pub enabled: bool,
}

/// `NodeData` as plain values.
pub struct NodeDataView {
    pub id: Seq<char>,
    pub kind: NodeKind,
    pub position: usize,
    pub enabled: bool,
}

impl View for NodeData {
    type V = NodeDataView;

    open spec fn view(&self) -> NodeDataView {
        NodeDataView { id: self.id@, kind: self.kind, position: self.position, enabled: self.enabled }
    }
}

/// What the migration reads of a connection: its ends and whether it is
/// enabled (its weight is carried over by index).
pub struct ConnectionData {
    pub from: String,
    pub to: String,
    pub enabled: bool,
}

/// `ConnectionData` as plain values.
pub struct ConnectionDataView {
    pub from: Seq<char>,
    pub to: Seq<char>,
    pub enabled: bool,
}

impl View for ConnectionData {
    type V = ConnectionDataView;

    open spec fn view(&self) -> ConnectionDataView {
        ConnectionDataView { from: self.from@, to: self.to@, enabled: self.enabled }
    }
}

/// A node of the migrated network: its id, role, position and enabled flag,
/// the index of the old node whose activation (and, unless `zero_bias`, whose
/// bias) it takes.
pub struct MigratedNode {
    pub id: String,
    pub kind: NodeKind,
    pub position: usize,
    pub enabled: bool,
    pub source: usize,
    pub zero_bias: bool,
}

/// `MigratedNode` as plain values.
pub struct MigratedNodeView {
    pub id: Seq<char>,
    pub kind: NodeKind,
    pub position: usize,
    pub enabled: bool,
    pub source: usize,
    pub zero_bias: bool,
}

impl View for MigratedNode {
    type V = MigratedNodeView;

    open spec fn view(&self) -> MigratedNodeView {
        MigratedNodeView {
            id: self.id@,
            kind: self.kind,
            position: self.position,
            enabled: self.enabled,
            source: self.source,
            zero_bias: self.zero_bias,
        }
    }
}

/// A connection of the migrated network: its ends, enabled flag, and the
/// index of the old connection whose weight it takes (`None`: weight zero).
pub struct MigratedConnection {
    pub from: String,
    pub to: String,
    pub enabled: bool,
    pub source: Option<usize>,
}

/// `MigratedConnection` as plain values.
pub struct MigratedConnectionView {
    pub from: Seq<char>,
    pub to: Seq<char>,
    pub enabled: bool,
    pub source: Option<usize>,
}

impl View for MigratedConnection {
    type V = MigratedConnectionView;

    open spec fn view(&self) -> MigratedConnectionView {
        MigratedConnectionView {
            from: self.from@,
            to: self.to@,
            enabled: self.enabled,
            source: self.source,
        }
    }
}

/// The id `id` once the node `start` is renamed to `end`.
pub open spec fn renamed(id: Seq<char>, start: Seq<char>, end: Seq<char>) -> Seq<char> {
    if id == start {
        end
    } else {
        id
    }
}

/// The old node `n` (at index `src`) in the migrated network: the node
/// `start` becomes `end`, four positions further on.
pub open spec fn migrated_node(n: NodeDataView, src: int, start: Seq<char>, end: Seq<char>) -> MigratedNodeView {
    MigratedNodeView {
        id: renamed(n.id, start, end),
        kind: n.kind,
        position: if n.id == start {
            (n.position + 4) as usize
        } else {
            n.position
        },
        enabled: n.enabled,
        source: src as usize,
        zero_bias: false,
    }
}

/// The new nodes that take the place of node `n` (at index `src`): one per
/// id of `added`, of the same role and activation, at the positions from
/// `n`'s on, enabled, with zero bias.
pub open spec fn added_nodes(n: NodeDataView, src: int, added: Seq<Seq<char>>) -> Seq<MigratedNodeView> {
    Seq::new(
        added.len(),
        |i: int|
            MigratedNodeView {
                id: added[i],
                kind: n.kind,
                position: (n.position + i) as usize,
                enabled: true,
                source: src as usize,
                zero_bias: true,
            },
    )
}

/// The nodes of the migrated network, in order: each old node, preceded,
/// where it is the node `start`, by the new nodes of `added`.
pub open spec fn migrated_nodes(
    nodes: Seq<NodeDataView>,
    start: Seq<char>,
    end: Seq<char>,
    added: Seq<Seq<char>>,
) -> Seq<MigratedNodeView>
    decreases nodes.len(),
{
    if nodes.len() == 0 {
        Seq::empty()
    } else {
        let i = nodes.len() - 1;
        migrated_nodes(nodes.drop_last(), start, end, added) + (if nodes[i].id == start {
            added_nodes(nodes[i], i, added)
        } else {
            Seq::empty()
        }) + seq![migrated_node(nodes[i], i, start, end)]
    }
}

/// The ids of the input nodes, in order.
pub open spec fn input_ids(nodes: Seq<NodeDataView>) -> Seq<Seq<char>>
    decreases nodes.len(),
{
    if nodes.len() == 0 {
        Seq::empty()
    } else {
        input_ids(nodes.drop_last()) + (if nodes.last().kind == NodeKind::Input {
            seq![nodes.last().id]
        } else {
            Seq::empty()
        })
    }
}

/// The new connections: from every input, in order, to every new node, in
/// order, enabled, with zero weight.
pub open spec fn new_links(inputs: Seq<Seq<char>>, added: Seq<Seq<char>>) -> Seq<MigratedConnectionView>
    decreases inputs.len(),
{
    if inputs.len() == 0 {
        Seq::empty()
    } else {
        new_links(inputs.drop_last(), added) + Seq::new(
            added.len(),
            |j: int|
                MigratedConnectionView {
                    from: inputs.last(),
                    to: added[j],
                    enabled: true,
                    source: None,
                },
        )
    }
}

/// The connections of the migrated network: each old one, with its end at
/// `start` moved to `end`, followed by the new links.
pub open spec fn migrated_connections(
    nodes: Seq<NodeDataView>,
    connections: Seq<ConnectionDataView>,
    start: Seq<char>,
    end: Seq<char>,
    added: Seq<Seq<char>>,
) -> Seq<MigratedConnectionView> {
    Seq::new(
        connections.len(),
        |k: int|
            MigratedConnectionView {
                from: connections[k].from,
                to: renamed(connections[k].to, start, end),
                enabled: connections[k].enabled,
                source: Some(k as usize),
            },
    ) + new_links(input_ids(nodes), added)
}

/// The positions that the migration computes fit in a `usize`: for the node
/// `start`, its position plus four and plus each index of `added`.
pub open spec fn positions_fit(nodes: Seq<NodeDataView>, start: Seq<char>, added_len: nat) -> bool {
    forall|i: int|
        0 <= i < nodes.len() && #[trigger] nodes[i].id == start ==> nodes[i].position + 4
            <= usize::MAX && nodes[i].position + added_len <= usize::MAX + 1
}

/// The texts of a sequence of strings.
pub open spec fn texts(v: Seq<String>) -> Seq<Seq<char>> {
    v.map_values(|s: String| s@)
}

/// The new links, input by input: the link at `i * added.len() + j` goes
/// from input `i` to new node `j`.
proof fn lemma_new_links_layout(inputs: Seq<Seq<char>>, added: Seq<Seq<char>>)
    ensures
        new_links(inputs, added).len() == inputs.len() * added.len(),
        forall|i: int, j: int|
            0 <= i < inputs.len() && 0 <= j < added.len() ==> #[trigger] new_links(inputs, added)[i
                * added.len() + j] == (MigratedConnectionView {
                from: inputs[i],
                to: added[j],
                enabled: true,
                source: None,
            }),
    decreases inputs.len(),
{
    let a = added.len() as int;
    if inputs.len() == 0 {
        assert(0 * a == 0) by (nonlinear_arith);
    } else {
        let n1 = inputs.len() - 1;
        let rest = inputs.drop_last();
        lemma_new_links_layout(rest, added);
        assert((n1 + 1) * a == n1 * a + a) by (nonlinear_arith);
        assert forall|i: int, j: int|
            0 <= i < inputs.len() && 0 <= j < added.len() implies #[trigger] new_links(
                inputs,
                added,
            )[i * added.len() + j] == (MigratedConnectionView {
                from: inputs[i],
                to: added[j],
                enabled: true,
                source: None,
            }) by {
            if i < n1 {
                assert(i * a + j < n1 * a) by (nonlinear_arith)
                    requires 0 <= i < n1, 0 <= j < a;
                assert(rest[i] == inputs[i]);
            } else {
                assert(i * a + j - n1 * a == j);
            }
        }
    }
}

/// The ids of the input nodes are those of the nodes of kind `Input`, in
/// their order.
pub proof fn lemma_input_ids_are_inputs(nodes: Seq<NodeDataView>)
    ensures
        input_ids(nodes) == nodes.filter(|n: NodeDataView| n.kind == NodeKind::Input).map_values(
            |n: NodeDataView| n.id,
        ),
    decreases nodes.len(),
{
    reveal(Seq::filter);
    if nodes.len() > 0 {
        lemma_input_ids_are_inputs(nodes.drop_last());
        let f = nodes.drop_last().filter(|n: NodeDataView| n.kind == NodeKind::Input);
        assert(f.push(nodes.last()).map_values(|n: NodeDataView| n.id) =~= f.map_values(
            |n: NodeDataView| n.id,
        ).push(nodes.last().id));
        assert(input_ids(nodes) =~= nodes.filter(|n: NodeDataView| n.kind == NodeKind::Input).map_values(
            |n: NodeDataView| n.id,
        ));
    } else {
        assert(input_ids(nodes) =~= nodes.filter(|n: NodeDataView| n.kind == NodeKind::Input).map_values(
            |n: NodeDataView| n.id,
        ));
    }
}

/// The migrated connections: first every old connection, in order, from the
/// same node, kept enabled or not, with its own weight, and ending at `end`
/// where it ended at `start` (each on its own, whatever the others), else
/// where it ended; then one zero-weight, enabled link from every input to
/// every new node, input by input.
pub proof fn lemma_connections_layout(
    nodes: Seq<NodeDataView>,
    connections: Seq<ConnectionDataView>,
    start: Seq<char>,
    end: Seq<char>,
    added: Seq<Seq<char>>,
)
    ensures
        migrated_connections(nodes, connections, start, end, added).len() == connections.len()
            + input_ids(nodes).len() * added.len(),
        forall|k: int|
            0 <= k < connections.len() ==> {
                let c = #[trigger] migrated_connections(nodes, connections, start, end, added)[k];
                &&& c.from == connections[k].from
                &&& connections[k].to == start ==> c.to == end
                &&& connections[k].to != start ==> c.to == connections[k].to
                &&& c.enabled == connections[k].enabled
                &&& c.source == Some(k as usize)
            },
        forall|i: int, j: int|
            0 <= i < input_ids(nodes).len() && 0 <= j < added.len() ==> #[trigger] migrated_connections(
                nodes,
                connections,
                start,
                end,
                added,
            )[connections.len() + i * added.len() + j] == (MigratedConnectionView {
                from: input_ids(nodes)[i],
                to: added[j],
                enabled: true,
                source: None,
            }),
{
    let inputs = input_ids(nodes);
    lemma_new_links_layout(inputs, added);
    let r = migrated_connections(nodes, connections, start, end, added);
    assert forall|i: int, j: int|
        0 <= i < inputs.len() && 0 <= j < added.len() implies #[trigger] r[connections.len() + i
            * added.len() + j] == (MigratedConnectionView {
            from: inputs[i],
            to: added[j],
            enabled: true,
            source: None,
        }) by {
        assert(0 <= i * added.len() + j < inputs.len() * added.len()) by (nonlinear_arith)
            requires 0 <= i < inputs.len(), 0 <= j < added.len();
        assert(new_links(inputs, added)[i * added.len() + j] == (MigratedConnectionView {
            from: inputs[i],
            to: added[j],
            enabled: true,
            source: None,
        }));
    }
}

/// How many of the first `i` nodes are the node `start`.
pub open spec fn starts_before(nodes: Seq<NodeDataView>, start: Seq<char>, i: int) -> nat
    decreases i,
{
    if i <= 0 {
        0
    } else {
        starts_before(nodes, start, i - 1) + if nodes[i - 1].id == start {
            1nat
        } else {
            0nat
        }
    }
}

/// Where the entries of old node `i` begin in the migrated list: after one
/// entry per old node before it and `added_len` more for each of those that
/// is the node `start`.
pub open spec fn node_offset(nodes: Seq<NodeDataView>, start: Seq<char>, added_len: nat, i: int) -> int {
    i + added_len * starts_before(nodes, start, i)
}

/// Where the entry of old node `i` itself sits in the migrated list: after
/// the new nodes put before it, if any.
pub open spec fn kept_offset(nodes: Seq<NodeDataView>, start: Seq<char>, added_len: nat, i: int) -> int {
    node_offset(nodes, start, added_len, i) + if nodes[i].id == start {
        added_len as int
    } else {
        0
    }
}

proof fn lemma_starts_before_prefix(nodes: Seq<NodeDataView>, start: Seq<char>, i: int)
    requires
        0 <= i < nodes.len(),
    ensures
        starts_before(nodes.drop_last(), start, i) == starts_before(nodes, start, i),
    decreases i,
{
    if i > 0 {
        lemma_starts_before_prefix(nodes, start, i - 1);
    }
}

proof fn lemma_starts_before_monotone(nodes: Seq<NodeDataView>, start: Seq<char>, i: int, k: int)
    requires
        0 <= i <= k,
    ensures
        starts_before(nodes, start, i) <= starts_before(nodes, start, k),
    decreases k - i,
{
    if i < k {
        lemma_starts_before_monotone(nodes, start, i, k - 1);
    }
}

/// What holds of `nodes` holds of all of them but the last.
proof fn lemma_nodes_step(nodes: Seq<NodeDataView>, start: Seq<char>, end: Seq<char>, added: Seq<Seq<char>>)
    requires
        nodes.len() > 0,
        positions_fit(nodes, start, added.len()),
    ensures
        positions_fit(nodes.drop_last(), start, added.len()),
        migrated_nodes(nodes, start, end, added) == migrated_nodes(nodes.drop_last(), start, end, added)
            + (if nodes.last().id == start {
            added_nodes(nodes.last(), nodes.len() - 1, added)
        } else {
            Seq::empty()
        }) + seq![migrated_node(nodes.last(), nodes.len() - 1, start, end)],
        forall|i: int|
            0 <= i < nodes.len() ==> #[trigger] starts_before(nodes.drop_last(), start, i)
                == starts_before(nodes, start, i),
{
    let pre = nodes.drop_last();
    let a = added.len();
    assert forall|i: int| 0 <= i < pre.len() && #[trigger] pre[i].id == start implies pre[i].position
        + 4 <= usize::MAX && pre[i].position + a <= usize::MAX + 1 by {
        assert(pre[i] == nodes[i]);
    }
    assert forall|i: int| 0 <= i < nodes.len() implies #[trigger] starts_before(pre, start, i)
        == starts_before(nodes, start, i) by {
        lemma_starts_before_prefix(nodes, start, i);
    }
}

/// The migrated list has one entry per old node and `added.len()` more per
/// node `start`.
proof fn lemma_nodes_len(nodes: Seq<NodeDataView>, start: Seq<char>, end: Seq<char>, added: Seq<Seq<char>>)
    requires
        positions_fit(nodes, start, added.len()),
    ensures
        migrated_nodes(nodes, start, end, added).len() == nodes.len() + added.len()
            * starts_before(nodes, start, nodes.len() as int),
    decreases nodes.len(),
{
    if nodes.len() > 0 {
        let a = added.len();
        let l = nodes.len() - 1;
        let pre = nodes.drop_last();
        lemma_nodes_step(nodes, start, end, added);
        lemma_nodes_len(pre, start, end, added);
        let sl = starts_before(nodes, start, l);
        assert(starts_before(pre, start, l) == sl);
        assert(migrated_nodes(pre, start, end, added).len() == l + a * sl);
        assert(a * (sl + 1) == a * sl + a) by (nonlinear_arith);
        let r = migrated_nodes(nodes, start, end, added);
        if nodes[l].id == start {
            assert(starts_before(nodes, start, nodes.len() as int) == sl + 1);
            assert(r.len() == l + a * sl + a + 1);
        } else {
            assert(starts_before(nodes, start, nodes.len() as int) == sl);
            assert(r.len() == l + a * sl + 1);
        }
    } else {
        assert(added.len() * 0 == 0);
    }
}

/// Entries of old nodes before the last sit within the list made of all but
/// the last.
proof fn lemma_offset_bound(nodes: Seq<NodeDataView>, start: Seq<char>, a: nat, i: int)
    requires
        0 <= i < nodes.len() - 1,
    ensures
        node_offset(nodes, start, a, i) + 1 + (if nodes[i].id == start {
            a as int
        } else {
            0
        }) <= node_offset(nodes, start, a, nodes.len() - 1),
{
    let l = nodes.len() - 1;
    lemma_starts_before_monotone(nodes, start, i + 1, l);
    let x = starts_before(nodes, start, i + 1);
    let sl = starts_before(nodes, start, l);
    assert(a * x <= a * sl) by (nonlinear_arith)
        requires x <= sl;
    if nodes[i].id == start {
        assert(a * x == a * starts_before(nodes, start, i) + a) by (nonlinear_arith)
            requires x == starts_before(nodes, start, i) + 1;
    }
}

/// The old nodes' own entries.
proof fn lemma_nodes_kept(nodes: Seq<NodeDataView>, start: Seq<char>, end: Seq<char>, added: Seq<Seq<char>>)
    requires
        positions_fit(nodes, start, added.len()),
    ensures
        forall|i: int|
            0 <= i < nodes.len() ==> #[trigger] migrated_nodes(nodes, start, end, added)[kept_offset(
                nodes,
                start,
                added.len(),
                i,
            )] == migrated_node(nodes[i], i, start, end),
    decreases nodes.len(),
{
    if nodes.len() > 0 {
        let a = added.len();
        let l = nodes.len() - 1;
        let pre = nodes.drop_last();
        lemma_nodes_step(nodes, start, end, added);
        lemma_nodes_kept(pre, start, end, added);
        lemma_nodes_len(pre, start, end, added);
        let rp = migrated_nodes(pre, start, end, added);
        let r = migrated_nodes(nodes, start, end, added);
        assert(node_offset(nodes, start, a, l) == rp.len());
        assert forall|i: int| 0 <= i < nodes.len() implies #[trigger] r[kept_offset(
            nodes,
            start,
            a,
            i,
        )] == migrated_node(nodes[i], i, start, end) by {
            if i < l {
                lemma_offset_bound(nodes, start, a, i);
                assert(pre[i] == nodes[i]);
                assert(starts_before(pre, start, i) == starts_before(nodes, start, i));
                assert(kept_offset(pre, start, a, i) == kept_offset(nodes, start, a, i));
                assert(rp[kept_offset(pre, start, a, i)] == migrated_node(pre[i], i, start, end));
                assert(r[kept_offset(nodes, start, a, i)] == rp[kept_offset(pre, start, a, i)]);
            } else {
                let extra = if nodes[l].id == start {
                    added_nodes(nodes[l], l, added)
                } else {
                    Seq::empty()
                };
                assert(kept_offset(nodes, start, a, i) == rp.len() + extra.len());
                assert(r[rp.len() + extra.len() as int] == migrated_node(nodes[l], l, start, end));
            }
        }
    }
}

/// The entries of the new nodes put before a node `start`.
proof fn lemma_nodes_new(nodes: Seq<NodeDataView>, start: Seq<char>, end: Seq<char>, added: Seq<Seq<char>>)
    requires
        positions_fit(nodes, start, added.len()),
    ensures
        forall|i: int, j: int|
            #![trigger nodes[i], added[j]]
            0 <= i < nodes.len() && nodes[i].id == start && 0 <= j < added.len() ==> migrated_nodes(
                nodes,
                start,
                end,
                added,
            )[node_offset(nodes, start, added.len(), i) + j] == added_nodes(nodes[i], i, added)[j],
    decreases nodes.len(),
{
    if nodes.len() > 0 {
        let a = added.len();
        let l = nodes.len() - 1;
        let pre = nodes.drop_last();
        lemma_nodes_step(nodes, start, end, added);
        lemma_nodes_new(pre, start, end, added);
        lemma_nodes_len(pre, start, end, added);
        let rp = migrated_nodes(pre, start, end, added);
        let r = migrated_nodes(nodes, start, end, added);
        assert(node_offset(nodes, start, a, l) == rp.len());
        assert forall|i: int, j: int|
            #![trigger nodes[i], added[j]]
            0 <= i < nodes.len() && nodes[i].id == start && 0 <= j < a implies r[node_offset(
                nodes,
                start,
                a,
                i,
            ) + j] == added_nodes(nodes[i], i, added)[j] by {
            if i < l {
                lemma_offset_bound(nodes, start, a, i);
                assert(pre[i] == nodes[i]);
                assert(starts_before(pre, start, i) == starts_before(nodes, start, i));
                assert(rp[node_offset(pre, start, a, i) + j] == added_nodes(pre[i], i, added)[j]);
                assert(r[node_offset(nodes, start, a, i) + j] == rp[node_offset(pre, start, a, i) + j]);
            } else {
                assert(r[rp.len() as int + j] == added_nodes(nodes[l], l, added)[j]);
            }
        }
    }
}

/// The migrated nodes: for every old node, in order, at `node_offset`, a
/// copy of it under its own id and position, with its enabled flag, bias and
/// activation; but where it is the node `start`, first one new node per id of
/// `added`, of its kind and activation, enabled, with zero bias, at its
/// position and the ones after, and then the node itself renamed `end` and
/// moved four positions on. Nothing else is in the list.
/// `m` is new node `j`, with id `id`, put before the node `n` at index
/// `i`: of `n`'s kind, at `n`'s position plus `j`, enabled, taking `n`'s
/// activation with zero bias.
pub open spec fn is_new_node_entry(m: MigratedNodeView, n: NodeDataView, i: int, id: Seq<char>, j: int) -> bool {
    &&& m.id == id
    &&& m.kind == n.kind
    &&& m.position == n.position + j
    &&& m.enabled
    &&& m.source == i
    &&& m.zero_bias
}

/// The fields of the entries of the new nodes.
proof fn lemma_nodes_new_fields(
    nodes: Seq<NodeDataView>,
    start: Seq<char>,
    end: Seq<char>,
    added: Seq<Seq<char>>,
)
    requires
        nodes.len() <= usize::MAX,
        positions_fit(nodes, start, added.len()),
    ensures
        forall|i: int, j: int|
            #![trigger nodes[i], added[j]]
            0 <= i < nodes.len() && nodes[i].id == start && 0 <= j < added.len()
                ==> is_new_node_entry(
                migrated_nodes(nodes, start, end, added)[node_offset(nodes, start, added.len(), i)
                    + j],
                nodes[i],
                i,
                added[j],
                j,
            ),
{
    lemma_nodes_new(nodes, start, end, added);
    let a = added.len();
    let r = migrated_nodes(nodes, start, end, added);
    assert forall|i: int, j: int|
        #![trigger nodes[i], added[j]]
        0 <= i < nodes.len() && nodes[i].id == start && 0 <= j < added.len() implies is_new_node_entry(
            migrated_nodes(nodes, start, end, added)[node_offset(nodes, start, added.len(), i) + j],
            nodes[i],
            i,
            added[j],
            j,
        ) by {
        assert(r[node_offset(nodes, start, a, i) + j] == added_nodes(nodes[i], i, added)[j]);
        assert(nodes[i].position + a <= usize::MAX + 1);
    }
}

pub proof fn lemma_nodes_layout(
    nodes: Seq<NodeDataView>,
    start: Seq<char>,
    end: Seq<char>,
    added: Seq<Seq<char>>,
)
    requires
        nodes.len() <= usize::MAX,
        positions_fit(nodes, start, added.len()),
    ensures
        migrated_nodes(nodes, start, end, added).len() == nodes.len() + added.len()
            * starts_before(nodes, start, nodes.len() as int),
        forall|i: int|
            0 <= i < nodes.len() && nodes[i].id != start ==> {
                let m = #[trigger] migrated_nodes(nodes, start, end, added)[node_offset(
                    nodes,
                    start,
                    added.len(),
                    i,
                )];
                &&& m.id == nodes[i].id
                &&& m.kind == nodes[i].kind
                &&& m.position == nodes[i].position
                &&& m.enabled == nodes[i].enabled
                &&& m.source == i
                &&& !m.zero_bias
            },
        forall|i: int|
            0 <= i < nodes.len() && nodes[i].id == start ==> {
                let m = #[trigger] migrated_nodes(nodes, start, end, added)[node_offset(
                    nodes,
                    start,
                    added.len(),
                    i,
                ) + added.len()];
                &&& m.id == end
                &&& m.kind == nodes[i].kind
                &&& m.position == nodes[i].position + 4
                &&& m.enabled == nodes[i].enabled
                &&& m.source == i
                &&& !m.zero_bias
            },
        forall|i: int, j: int|
            #![trigger nodes[i], added[j]]
            0 <= i < nodes.len() && nodes[i].id == start && 0 <= j < added.len()
                ==> is_new_node_entry(
                migrated_nodes(nodes, start, end, added)[node_offset(nodes, start, added.len(), i)
                    + j],
                nodes[i],
                i,
                added[j],
                j,
            ),
{
    let a = added.len();
    let r = migrated_nodes(nodes, start, end, added);
    lemma_nodes_len(nodes, start, end, added);
    lemma_nodes_kept(nodes, start, end, added);
    lemma_nodes_new(nodes, start, end, added);
    assert forall|i: int|
        0 <= i < nodes.len() && nodes[i].id != start implies {
            let m = #[trigger] r[node_offset(nodes, start, a, i)];
            &&& m.id == nodes[i].id
            &&& m.kind == nodes[i].kind
            &&& m.position == nodes[i].position
            &&& m.enabled == nodes[i].enabled
            &&& m.source == i
            &&& !m.zero_bias
        } by {
        assert(kept_offset(nodes, start, a, i) == node_offset(nodes, start, a, i));
        assert(r[kept_offset(nodes, start, a, i)] == migrated_node(nodes[i], i, start, end));
    }
    assert forall|i: int|
        0 <= i < nodes.len() && nodes[i].id == start implies {
            let m = #[trigger] r[node_offset(nodes, start, a, i) + a];
            &&& m.id == end
            &&& m.kind == nodes[i].kind
            &&& m.position == nodes[i].position + 4
            &&& m.enabled == nodes[i].enabled
            &&& m.source == i
            &&& !m.zero_bias
        } by {
        assert(kept_offset(nodes, start, a, i) == node_offset(nodes, start, a, i) + a);
        assert(r[kept_offset(nodes, start, a, i)] == migrated_node(nodes[i], i, start, end));
        assert(nodes[i].position + 4 <= usize::MAX);
    }
    lemma_nodes_new_fields(nodes, start, end, added);
}

/// Views of a sequence of nodes.
pub open spec fn node_views(v: Seq<NodeData>) -> Seq<NodeDataView> {
    v.map_values(|n: NodeData| n@)
}

/// Views of a sequence of connections.
pub open spec fn connection_views(v: Seq<ConnectionData>) -> Seq<ConnectionDataView> {
    v.map_values(|c: ConnectionData| c@)
}

/// Views of a sequence of migrated nodes.
pub open spec fn migrated_node_views(v: Seq<MigratedNode>) -> Seq<MigratedNodeView> {
    v.map_values(|n: MigratedNode| n@)
}

/// Views of a sequence of migrated connections.
pub open spec fn migrated_connection_views(v: Seq<MigratedConnection>) -> Seq<MigratedConnectionView> {
    v.map_values(|c: MigratedConnection| c@)
}

fn same_text(a: &String, b: &String) -> (r: bool)
    ensures
        r == (a@ == b@),
{
    *a == *b
}

/// Rewrites the outputs of a network: the node `start` is renamed `end` and
/// moved four positions on; the nodes of `added` are put before it at its
/// position and on; connections into `start` go into `end`; and every input
/// gets a zero-weight connection to every new node.
pub fn migrate_outputs(
    nodes: &Vec<NodeData>,
    connections: &Vec<ConnectionData>,
    start: &str,
    end: &str,
    added: &Vec<String>,
) -> (r: (Vec<MigratedNode>, Vec<MigratedConnection>))
    requires
        positions_fit(node_views(nodes@), start@, added@.len()),
    ensures
        migrated_node_views(r.0@) == migrated_nodes(
            node_views(nodes@),
            start@,
            end@,
            texts(added@),
        ),
        migrated_connection_views(r.1@) == migrated_connections(
            node_views(nodes@),
            connection_views(connections@),
            start@,
            end@,
            texts(added@),
        ),
{
    let ghost nv = node_views(nodes@);
    let ghost av = texts(added@);
    let start_s = String::from_str(start);
    let end_s = String::from_str(end);
    let mut out: Vec<MigratedNode> = Vec::new();
    let mut inputs: Vec<String> = Vec::new();
    let mut i: usize = 0;
    while i < nodes.len()
        invariant
            nv == node_views(nodes@),
            av == texts(added@),
            start_s@ == start@,
            end_s@ == end@,
            positions_fit(nv, start@, added@.len()),
            i <= nodes@.len(),
            migrated_node_views(out@) == migrated_nodes(nv.take(i as int), start@, end@, av),
            texts(inputs@) == input_ids(nv.take(i as int)),
        decreases nodes@.len() - i,
    {
        let n = &nodes[i];
        let is_start = same_text(&n.id, &start_s);
        proof {
            assert(nv[i as int] == n@);
        }
        let ghost before = out@;
        if is_start {
            let mut j: usize = 0;
            while j < added.len()
                invariant
                    nv == node_views(nodes@),
                    av == texts(added@),
                    positions_fit(nv, start@, added@.len()),
                    i < nodes@.len(),
                    nv[i as int] == n@,
                    n@.id == start@,
                    j <= added@.len(),
                    out@.len() == before.len() + j,
                    forall|k: int| 0 <= k < before.len() ==> #[trigger] out@[k] == before[k],
                    forall|k: int|
                        0 <= k < j ==> (#[trigger] out@[before.len() + k])@ == added_nodes(
                            n@,
                            i as int,
                            av,
                        )[k],
                decreases added@.len() - j,
            {
                proof {
                    assert(nv[i as int].id == start@);
                }
                out.push(
                    MigratedNode {
                        id: added[j].clone(),
                        kind: n.kind,
                        position: n.position + j,
                        enabled: true,
                        source: i,
                        zero_bias: true,
                    },
                );
                j = j + 1;
            }
        }
        let ghost extra = if nv[i as int].id == start@ {
            added_nodes(nv[i as int], i as int, av)
        } else {
            Seq::empty()
        };
        let ghost mid = out@;
        proof {
            assert(mid.len() == before.len() + extra.len());
            assert forall|k: int| 0 <= k < mid.len() implies #[trigger] mid[k]@ == (
            migrated_node_views(before) + extra)[k] by {
                if k >= before.len() {
                    assert(mid[before.len() + (k - before.len())] == mid[k]);
                }
            }
        }
        proof {
            assert(nv[i as int].id == start@ ==> nv[i as int].position + 4 <= usize::MAX);
        }
        let id = if is_start {
            String::from_str(end)
        } else {
            n.id.clone()
        };
        let position = if is_start {
            n.position + 4
        } else {
            n.position
        };
        out.push(
            MigratedNode {
                id,
                kind: n.kind,
                position,
                enabled: n.enabled,
                source: i,
                zero_bias: false,
            },
        );
        if n.kind == NodeKind::Input {
            inputs.push(n.id.clone());
        }
        proof {
            let t = nv.take(i + 1);
            assert(t.drop_last() =~= nv.take(i as int));
            assert(t.last() == nv[i as int]);
            let whole = migrated_node_views(before) + extra + seq![
                migrated_node(nv[i as int], i as int, start@, end@),
            ];
            assert(out@ == mid.push(out@.last()));
            assert(out@.last()@ == migrated_node(nv[i as int], i as int, start@, end@));
            assert forall|k: int| 0 <= k < out@.len() implies #[trigger] migrated_node_views(out@)[k]
                == whole[k] by {
                if k < mid.len() {
                    assert(out@[k] == mid[k]);
                }
            }
            assert(migrated_node_views(out@) =~= whole);
            assert(migrated_nodes(t, start@, end@, av) == migrated_nodes(
                nv.take(i as int),
                start@,
                end@,
                av,
            ) + extra + seq![migrated_node(nv[i as int], i as int, start@, end@)]);
            assert(input_ids(t) == input_ids(nv.take(i as int)) + (if nv[i as int].kind
                == NodeKind::Input {
                seq![nv[i as int].id]
            } else {
                Seq::empty()
            }));
            assert(texts(inputs@) =~= input_ids(t));
        }
        i = i + 1;
    }
    proof {
        assert(nv.take(nodes@.len() as int) =~= nv);
    }

    let ghost cv = connection_views(connections@);
    let mut links: Vec<MigratedConnection> = Vec::new();
    let mut k: usize = 0;
    while k < connections.len()
        invariant
            cv == connection_views(connections@),
            start_s@ == start@,
            k <= connections@.len(),
            links@.len() == k,
            forall|m: int|
                0 <= m < k ==> (#[trigger] links@[m])@ == (MigratedConnectionView {
                    from: cv[m].from,
                    to: renamed(cv[m].to, start@, end@),
                    enabled: cv[m].enabled,
                    source: Some(m as usize),
                }),
        decreases connections@.len() - k,
    {
        let c = &connections[k];
        proof {
            assert(cv[k as int] == c@);
        }
        let to = if same_text(&c.to, &start_s) {
            String::from_str(end)
        } else {
            c.to.clone()
        };
        links.push(
            MigratedConnection { from: c.from.clone(), to, enabled: c.enabled, source: Some(k) },
        );
        k = k + 1;
    }
    let ghost copied = links@;
    let ghost iv = input_ids(nv);
    let mut a: usize = 0;
    while a < inputs.len()
        invariant
            av == texts(added@),
            texts(inputs@) == iv,
            a <= inputs@.len(),
            links@.len() >= copied.len(),
            forall|m: int| 0 <= m < copied.len() ==> #[trigger] links@[m] == copied[m],
            migrated_connection_views(links@.skip(copied.len() as int)) == new_links(
                iv.take(a as int),
                av,
            ),
        decreases inputs@.len() - a,
    {
        let ghost before = links@;
        let mut b: usize = 0;
        while b < added.len()
            invariant
                av == texts(added@),
                texts(inputs@) == iv,
                a < inputs@.len(),
                b <= added@.len(),
                links@.len() == before.len() + b,
                forall|m: int| 0 <= m < before.len() ==> #[trigger] links@[m] == before[m],
                forall|m: int|
                    0 <= m < b ==> (#[trigger] links@[before.len() + m])@ == (MigratedConnectionView {
                        from: iv[a as int],
                        to: av[m],
                        enabled: true,
                        source: None,
                    }),
            decreases added@.len() - b,
        {
            links.push(
                MigratedConnection {
                    from: inputs[a].clone(),
                    to: added[b].clone(),
                    enabled: true,
                    source: None,
                },
            );
            b = b + 1;
        }
        proof {
            let t = iv.take(a + 1);
            assert(t.drop_last() =~= iv.take(a as int));
            assert(t.last() == iv[a as int]);
            let row = Seq::new(
                av.len(),
                |j: int|
                    MigratedConnectionView { from: t.last(), to: av[j], enabled: true, source: None },
            );
            assert(new_links(t, av) == new_links(iv.take(a as int), av) + row);
            assert(migrated_connection_views(before.skip(copied.len() as int)) == new_links(
                iv.take(a as int),
                av,
            ));
            let c0 = copied.len() as int;
            assert(links@.len() == before.len() + row.len());
            assert forall|m: int| 0 <= m < links@.len() - c0 implies #[trigger] migrated_connection_views(
                links@.skip(c0),
            )[m] == (migrated_connection_views(before.skip(c0)) + row)[m] by {
                if m < before.len() - c0 {
                    assert(links@[c0 + m] == before[c0 + m]);
                } else {
                    let q = m - (before.len() - c0);
                    assert(links@[before.len() + q] == links@[c0 + m]);
                }
            }
            assert(migrated_connection_views(links@.skip(copied.len() as int)) =~= migrated_connection_views(
                before.skip(copied.len() as int),
            ) + row);
        }
        a = a + 1;
    }
    proof {
        assert(iv.take(inputs@.len() as int) =~= iv);
        assert(migrated_connection_views(links@) =~= migrated_connections(
            nv,
            cv,
            start@,
            end@,
            av,
        ));
    }
    (out, links)
}

/// What `serde_json::from_str` makes of a text as a `Genome` (the parse
/// that `Genome::from(String)` makes), `None` where the text is not one.
pub uninterp spec fn parsed_genome(json: Seq<char>) -> Option<Genome>;

/// Parses a genome from its JSON text with `serde_json::from_str`, the call
/// that `Genome::from(String)` makes before it unwraps; an error of serde is
/// read as `None`. The contract names the result (`parsed_genome`): a parse
/// depends on the text alone.
#[verifier::external_body]
fn parse_genome(json: &str) -> (r: Option<Genome>)
    ensures
        r == parsed_genome(json@),
{
    serde_json::from_str::<Genome>(json).ok()
}

/// The nodes of a genome as `Genome::get_nodes` lists them, each read with
/// `Node::get_id`, `get_type`, `get_position` and `get_enabled`.
pub uninterp spec fn genome_node_data(g: Genome) -> Seq<NodeDataView>;

/// Reads the nodes of a genome, in the order of `Genome::get_nodes` (a copy
/// of the list the genome keeps), converting each to `NodeData`. The
/// contract names the result (`genome_node_data`): it depends on the genome
/// alone.
#[verifier::external_body]
fn genome_nodes(g: &Genome) -> (r: Vec<NodeData>)
    ensures
        node_views(r@) == genome_node_data(*g),
{
    g.get_nodes().iter().map(|n| NodeData {
        id: n.get_id(),
        kind: match n.get_type() {
            NeuronType::Input => NodeKind::Input,
            NeuronType::Hidden => NodeKind::Hidden,
            NeuronType::Output => NodeKind::Output,
            NeuronType::Unknown => NodeKind::Unknown,
        },
        position: n.get_position(),
        enabled: n.get_enabled(),
    }).collect()
}

/// The connections of a genome as `Genome::get_connections` lists them, each
/// read with `Connection::get_from`, `get_to` and `get_enabled`.
pub uninterp spec fn genome_connection_data(g: Genome) -> Seq<ConnectionDataView>;

/// Reads the connections of a genome, in the order of
/// `Genome::get_connections` (a copy of the list the genome keeps),
/// converting each to `ConnectionData`. The contract names the result
/// (`genome_connection_data`): it depends on the genome alone.
#[verifier::external_body]
fn genome_connections(g: &Genome) -> (r: Vec<ConnectionData>)
    ensures
        connection_views(r@) == genome_connection_data(*g),
{
    g.get_connections().iter().map(|c| ConnectionData {
        from: c.get_from(),
        to: c.get_to(),
        enabled: c.get_enabled(),
    }).collect()
}

/// Tests `positions_fit`.
fn positions_fit_check(nodes: &Vec<NodeData>, start: &String, added_len: usize) -> (b: bool)
    ensures
        b == positions_fit(node_views(nodes@), start@, added_len as nat),
{
    let ghost nv = node_views(nodes@);
    let mut i: usize = 0;
    while i < nodes.len()
        invariant
            nv == node_views(nodes@),
            i <= nodes@.len(),
            forall|k: int|
                0 <= k < i && #[trigger] nv[k].id == start@ ==> nv[k].position + 4 <= usize::MAX
                    && nv[k].position + added_len <= usize::MAX + 1,
        decreases nodes@.len() - i,
    {
        proof {
            assert(nv[i as int] == nodes@[i as int]@);
        }
        if same_text(&nodes[i].id, start) {
            let p = nodes[i].position;
            proof {
                assert(nv[i as int].id == start@ && nv[i as int].position == p);
            }
            if p > usize::MAX - 4 {
                return false;
            }
            if added_len > 0 && p > usize::MAX - (added_len - 1) {
                return false;
            }
        }
        i = i + 1;
    }
    true
}

/// Why a genome could not be migrated.
#[derive(Clone, Copy, Debug, PartialEq, Eq, Structural)]
pub enum MigrationError {
    /// The text is not the JSON of a genome.
    NotAGenome,
    /// A position of the node to move, or of a node to add, does not fit a
    /// `usize`.
    PositionOverflow,
}

/// A parsed genome with its rewritten nodes and connections.
pub struct MigratedGenome {
    pub genome: Genome,
    pub nodes: Vec<MigratedNode>,
    pub connections: Vec<MigratedConnection>,
}

/// Parses the genome in `json` and rewrites its outputs as
/// `migrate_outputs` says. Fails with `NotAGenome` where the text does not
/// parse, and with `PositionOverflow` where a position would not fit.
pub fn migrate_genome(json: &str, start: &str, end: &str, added: &Vec<String>) -> (r: Result<
    MigratedGenome,
    MigrationError,
>)
    ensures
        match parsed_genome(json@) {
            None => r is Err && r->Err_0 == MigrationError::NotAGenome,
            Some(g) => if !positions_fit(genome_node_data(g), start@, added@.len()) {
                r is Err && r->Err_0 == MigrationError::PositionOverflow
            } else {
                &&& r is Ok
                &&& r->Ok_0.genome == g
                &&& migrated_node_views(r->Ok_0.nodes@) == migrated_nodes(
                    genome_node_data(g),
                    start@,
                    end@,
                    texts(added@),
                )
                &&& migrated_connection_views(r->Ok_0.connections@) == migrated_connections(
                    genome_node_data(g),
                    genome_connection_data(g),
                    start@,
                    end@,
                    texts(added@),
                )
            },
        },
{
    match parse_genome(json) {
        None => Err(MigrationError::NotAGenome),
        Some(genome) => {
            let nodes = genome_nodes(&genome);
            let connections = genome_connections(&genome);
            let start_s = String::from_str(start);
            if !positions_fit_check(&nodes, &start_s, added.len()) {
                return Err(MigrationError::PositionOverflow);
            }
            let (migrated, links) = migrate_outputs(&nodes, &connections, start, end, added);
            Ok(MigratedGenome { genome, nodes: migrated, connections: links })
        },
    }
}

} // verus!
