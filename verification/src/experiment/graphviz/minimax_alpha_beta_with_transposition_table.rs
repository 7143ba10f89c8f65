use vstd::prelude::*;
use vstd::seq_lib::lemma_concat_associative;

use crate::{
    agents::minimax_alpha_beta_with_transposition_table::transposition_table::{
        NodeType, TranspositionTableEntry,
    },
    experiment::graphviz::{
        differ_span, lemma_differ_span, lemma_differ_span_append, lemma_differ_span_from, differ_at, lemma_differ_append, lemma_differ_at, lemma_differ_from, append_html_lines, append_isize, append_usize, board_text, decimal, html_lines, isize_to_string, to_ascii,
        GraphvizConfig,
    },
    game::{
        board::{Board, ROWS},
        movement::Movement,
        player::Player,
    },
};

verus! {

/// A searched position as drawn in the tree of a search with a
/// transposition table: the window on entry and exit, the value, and what
/// the table knew about the position.
#[derive(Clone)]
pub struct MinimaxAlphaBetaWithTranspositionTableGraphNode {
    pub id: usize,

    pub player: Player,
    pub board: String,
    pub value: Option<isize>,

    pub alpha_in: isize,
    pub beta_in: isize,
    pub alpha_out: isize,
    pub beta_out: isize,

    pub depth: usize,
    pub cutoff_occurred: bool,

    pub tt_hit: bool,
    pub tt_depth: Option<usize>,
    pub tt_value: Option<isize>,
    pub tt_bound: Option<NodeType>,
    pub resolved_by_tt: bool,
    pub tt_source_node: Option<usize>,
}

/// A movement from one searched position to another.
#[derive(Clone, Copy)]
pub struct MinimaxAlphaBetaWithTranspositionTableGraphEdge {
    pub from: usize,
    pub to: usize,
    pub movement: Movement,
}

/// The tree that a search with a transposition table explored.
pub struct MinimaxAlphaBetaWithTranspositionTableGraph {
    pub config: GraphvizConfig,
    pub nodes: Vec<MinimaxAlphaBetaWithTranspositionTableGraphNode>,
    pub edges: Vec<MinimaxAlphaBetaWithTranspositionTableGraphEdge>,
}

impl MinimaxAlphaBetaWithTranspositionTableGraph {
    /// Whether the recorded nodes stay within `max_nodes`, each numbered by
    /// its index.
    pub open spec fn wf(&self) -> bool {
        &&& self.nodes@.len() <= self.config.max_nodes
        &&& forall|i: int| 0 <= i < self.nodes@.len() ==> (#[trigger] self.nodes@[i]).id == i
    }

    /// What one call of a method does to the tree, from `before` to
    /// `after`: the configuration stays, and the nodes are cleared, or one
    /// node numbered by its index is appended below `max_nodes`, or the
    /// nodes keep their number and their ids.
    pub open spec fn step(before: Self, after: Self) -> bool {
        &&& after.config == before.config
        &&& {
            ||| after.nodes@.len() == 0
            ||| {
                &&& before.nodes@.len() < before.config.max_nodes
                &&& after.nodes@.len() == before.nodes@.len() + 1
                &&& after.nodes@.drop_last() == before.nodes@
                &&& after.nodes@.last().id == before.nodes@.len()
            }
            ||| {
                &&& after.nodes@.len() == before.nodes@.len()
                &&& forall|i: int| 0 <= i < before.nodes@.len() ==> (#[trigger] after.nodes@[i]).id == before.nodes@[i].id
            }
        }
    }

    /// Law: over any sequence of calls on a tree that starts well formed
    /// (as `new` makes it), the tree stays well formed: at most `max_nodes`
    /// nodes, each numbered by its index.
    pub proof fn lemma_calls_keep_wf(history: Seq<Self>)
        requires
            history.len() > 0,
            history[0].wf(),
            forall|i: int| 0 <= i < history.len() - 1 ==> Self::step(#[trigger] history[i], history[i + 1]),
        ensures
            forall|i: int| 0 <= i < history.len() ==> (#[trigger] history[i]).wf(),
    {
        assert forall|i: int| 0 <= i < history.len() implies (#[trigger] history[i]).wf() by {
            Self::lemma_wf_at(history, i);
        }
    }

    proof fn lemma_wf_at(history: Seq<Self>, i: int)
        requires
            0 <= i < history.len(),
            history[0].wf(),
            forall|j: int| 0 <= j < history.len() - 1 ==> Self::step(#[trigger] history[j], history[j + 1]),
        ensures
            history[i].wf(),
        decreases i,
    {
        if i > 0 {
            Self::lemma_wf_at(history, i - 1);
            assert(Self::step(history[i - 1], history[i]));
            Self::lemma_step_keeps_wf(history[i - 1], history[i]);
        }
    }

    proof fn lemma_step_keeps_wf(before: Self, after: Self)
        requires
            before.wf(),
            Self::step(before, after),
        ensures
            after.wf(),
    {
        if after.nodes@.len() == before.nodes@.len() + 1 && after.nodes@.drop_last() == before.nodes@ {
            assert forall|i: int| 0 <= i < after.nodes@.len() implies (#[trigger] after.nodes@[i]).id == i by {
                if i < before.nodes@.len() {
                    assert(after.nodes@[i] == after.nodes@.drop_last()[i]);
                }
            }
        }
    }

    /// An empty tree that records at most `max_nodes` nodes, and records
    /// nodes inside the search only when `generate_graph` is set.
    pub fn new(max_nodes: usize, generate_graph: bool) -> (graph: Self)
        ensures
            graph.wf(),
            graph.config.max_nodes == max_nodes,
            graph.config.enabled == generate_graph,
            graph.nodes@.len() == 0,
            graph.edges@.len() == 0,
    {
        Self {
            config: GraphvizConfig { max_nodes, enabled: generate_graph },
            nodes: Vec::new(),
            edges: Vec::new(),
        }
    }

    /// Records a node for `board` unless `max_nodes` nodes are recorded
    /// already; the new node's id is its index and its window on exit starts
    /// as its window on entry.
    pub fn create_node(&mut self, board: &Board, depth: usize, alpha: isize, beta: isize) -> (id: Option<usize>)
        ensures
            Self::step(*old(self), *final(self)),
            old(self).wf() ==> final(self).wf(),
            final(self).config == old(self).config,
            final(self).edges@ == old(self).edges@,
            old(self).nodes@.len() >= old(self).config.max_nodes ==> id is None && final(self).nodes@
                == old(self).nodes@,
            old(self).nodes@.len() < old(self).config.max_nodes ==> {
                let node = final(self).nodes@.last();
                &&& id == Some(old(self).nodes@.len() as usize)
                &&& final(self).nodes@.len() == old(self).nodes@.len() + 1
                &&& final(self).nodes@.drop_last() == old(self).nodes@
                &&& node.id == old(self).nodes@.len()
                &&& node.player == board.spec_current_player()
                &&& node.board@ == board_text(board.spec_grid(), ROWS as int)
                &&& node.value is None
                &&& node.alpha_in == alpha
                &&& node.beta_in == beta
                &&& node.alpha_out == alpha
                &&& node.beta_out == beta
                &&& node.depth == depth
                &&& !node.cutoff_occurred
                &&& !node.tt_hit
                &&& node.tt_depth is None
                &&& node.tt_value is None
                &&& node.tt_bound is None
                &&& !node.resolved_by_tt
                &&& node.tt_source_node is None
            },
    {
        if self.nodes.len() >= self.config.max_nodes {
            return None;
        }

        let id = self.nodes.len();

        self.nodes.push(
            MinimaxAlphaBetaWithTranspositionTableGraphNode {
                id,
                player: board.current_player(),
                board: to_ascii(board),
                value: None,
                alpha_in: alpha,
                beta_in: beta,
                alpha_out: alpha,
                beta_out: beta,
                depth,
                cutoff_occurred: false,
                tt_hit: false,
                tt_bound: None,
                tt_depth: None,
                tt_value: None,
                resolved_by_tt: false,
                tt_source_node: None,
            },
        );
        proof {
            assert(self.nodes@.drop_last() == old(self).nodes@);
        }

        Some(id)
    }

    /// Records the edge from `parent` to `child` along `movement`.
    pub fn connect(&mut self, parent: usize, child: usize, movement: Movement)
        ensures
            Self::step(*old(self), *final(self)),
            old(self).wf() ==> final(self).wf(),
            final(self).config == old(self).config,
            final(self).nodes@ == old(self).nodes@,
            final(self).edges@ == old(self).edges@.push(
                MinimaxAlphaBetaWithTranspositionTableGraphEdge { from: parent, to: child, movement },
            ),
    {
        self.edges.push(MinimaxAlphaBetaWithTranspositionTableGraphEdge { from: parent, to: child, movement });
    }

    /// Records what the table held for node `id`.
    pub fn record_tt_hit(&mut self, id: usize, entry: &TranspositionTableEntry)
        requires
            id < old(self).nodes@.len(),
        ensures
            Self::step(*old(self), *final(self)),
            old(self).wf() ==> final(self).wf(),
            final(self).config == old(self).config,
            final(self).edges@ == old(self).edges@,
            final(self).nodes@ == old(self).nodes@.update(
                id as int,
                MinimaxAlphaBetaWithTranspositionTableGraphNode {
                    tt_hit: true,
                    tt_depth: Some(entry.depth),
                    tt_value: Some(entry.value),
                    tt_bound: Some(entry.node_type),
                    tt_source_node: entry.source_node_id,
                    ..old(self).nodes@[id as int]
                },
            ),
    {
        self.nodes[id].tt_hit = true;
        self.nodes[id].tt_depth = Some(entry.depth);
        self.nodes[id].tt_value = Some(entry.value);
        self.nodes[id].tt_bound = Some(entry.node_type);
        self.nodes[id].tt_source_node = entry.source_node_id;
    }

    /// Records the value of node `id` and its window on exit; `by_tt` tells
    /// that the table settled it.
    pub fn record_value(&mut self, id: usize, value: isize, alpha: isize, beta: isize, by_tt: bool)
        requires
            id < old(self).nodes@.len(),
        ensures
            Self::step(*old(self), *final(self)),
            old(self).wf() ==> final(self).wf(),
            final(self).config == old(self).config,
            final(self).edges@ == old(self).edges@,
            final(self).nodes@ == old(self).nodes@.update(
                id as int,
                MinimaxAlphaBetaWithTranspositionTableGraphNode {
                    value: Some(value),
                    alpha_out: alpha,
                    beta_out: beta,
                    resolved_by_tt: by_tt || old(self).nodes@[id as int].resolved_by_tt,
                    ..old(self).nodes@[id as int]
                },
            ),
    {
        if by_tt {
            self.nodes[id].resolved_by_tt = true;
        }
        self.nodes[id].value = Some(value);
        self.nodes[id].alpha_out = alpha;
        self.nodes[id].beta_out = beta;
    }

    /// Records that the search of node `id` was cut off.
    pub fn mark_cutoff(&mut self, id: usize)
        requires
            id < old(self).nodes@.len(),
        ensures
            Self::step(*old(self), *final(self)),
            old(self).wf() ==> final(self).wf(),
            final(self).config == old(self).config,
            final(self).edges@ == old(self).edges@,
            final(self).nodes@ == old(self).nodes@.update(
                id as int,
                MinimaxAlphaBetaWithTranspositionTableGraphNode { cutoff_occurred: true, ..old(self).nodes@[id as int] },
            ),
    {
        self.nodes[id].cutoff_occurred = true;
    }
}

/// How a bound is shown: `-∞` for `isize::MIN`, `∞` for `isize::MAX`, the
/// decimal value otherwise.
pub open spec fn value_text(value: isize) -> Seq<char> {
    if value == isize::MIN {
        seq!['-', '∞']
    } else if value == isize::MAX {
        seq!['∞']
    } else {
        decimal(value as int)
    }
}

/// The name of a kind of entry, as `Debug` writes it.
pub open spec fn bound_name(kind: NodeType) -> Seq<char> {
    match kind {
        NodeType::Exact => "Exact"@,
        NodeType::LowerBound => "LowerBound"@,
        NodeType::UpperBound => "UpperBound"@,
    }
}

fn bound_str(kind: NodeType) -> (text: &'static str)
    ensures
        text@ == bound_name(kind),
{
    match kind {
        NodeType::Exact => "Exact",
        NodeType::LowerBound => "LowerBound",
        NodeType::UpperBound => "UpperBound",
    }
}

/// How a bound is shown: `-∞` for `isize::MIN`, `∞` for `isize::MAX`, the
/// decimal value otherwise.
pub fn format_value(value: isize) -> (text: String)
    ensures
        text@ == value_text(value),
{
    if value == isize::MIN {
        proof {
            reveal_strlit("-∞");
        }
        "-∞".to_string()
    } else if value == isize::MAX {
        proof {
            reveal_strlit("∞");
        }
        "∞".to_string()
    } else {
        isize_to_string(value)
    }
}

/// The DOT text of one node: its id and an HTML table of what was recorded,
/// with the board's lines broken by `<BR/>`.
pub open spec fn node_dot(node: MinimaxAlphaBetaWithTranspositionTableGraphNode) -> Seq<char> {
    ("\n"@) + (decimal(node.id as int)) + (" [\nlabel="@) + ("<\n<TABLE STYLE=\"ROUNDED\" BORDER=\""@) + (if node.cutoff_occurred { "8"@ } else { "0"@ }) + ("\" COLOR=\""@) + (if node.resolved_by_tt { "#5cd2f6"@ } else { "#5D88F5"@ }) + ("\" CELLSPACING=\"8\">\n    <TR><TD STYLE=\"ROUNDED\" COLOR=\""@) + (if node.player == Player::Red { "#F5685D"@ } else { "#FFD65B"@ }) + ("\" BORDER=\"4\" CELLPADDING=\"8\">\n        <TABLE STYLE=\"ROUNDED\" COLOR=\"BLACK\" BORDER=\"0\" CELLBORDER=\"1\" CELLSPACING=\"0\" CELLPADDING=\"8\">\n\n            <TR><TD ALIGN=\"LEFT\"><B>ID</B></TD><TD ALIGN=\"RIGHT\"><B>"@) + (decimal(node.id as int)) + ("</B></TD></TR>\n            <TR><TD ALIGN=\"LEFT\">Depth</TD><TD ALIGN=\"RIGHT\">"@) + (decimal(node.depth as int)) + ("</TD></TR>\n\n            <TR><TD ALIGN=\"LEFT\">α in</TD><TD ALIGN=\"RIGHT\">"@) + (value_text(node.alpha_in)) + ("</TD></TR>\n            <TR><TD ALIGN=\"LEFT\">α out</TD><TD ALIGN=\"RIGHT\">"@) + (value_text(node.alpha_out)) + ("</TD></TR>\n\n            <TR><TD ALIGN=\"LEFT\">β in</TD><TD ALIGN=\"RIGHT\">"@) + (value_text(node.beta_in)) + ("</TD></TR>\n            <TR><TD ALIGN=\"LEFT\">β out</TD><TD ALIGN=\"RIGHT\">"@) + (value_text(node.beta_out)) + ("</TD></TR>\n\n            <TR><TD ALIGN=\"LEFT\">Value</TD><TD ALIGN=\"RIGHT\"><B>"@) + (match node.value { Some(v) => decimal(v as int), None => "-"@ }) + ("</B></TD></TR>\n\n            <TR><TD BORDER=\"0\" COLSPAN=\"2\">&nbsp;</TD></TR>\n\n            <TR><TD ALIGN=\"LEFT\"><B>TT Hit</B></TD><TD ALIGN=\"RIGHT\">"@) + (if node.tt_hit { "Yes"@ } else { "No"@ }) + ("</TD></TR>\n            <TR><TD ALIGN=\"LEFT\">Source</TD><TD ALIGN=\"RIGHT\">"@) + (match node.tt_source_node { Some(n) => decimal(n as int), None => "-"@ }) + ("</TD></TR>\n            <TR><TD ALIGN=\"LEFT\">Value</TD><TD ALIGN=\"RIGHT\">"@) + (match node.tt_value { Some(v) => value_text(v), None => "-"@ }) + ("</TD></TR>\n            <TR><TD ALIGN=\"LEFT\">Bound</TD><TD ALIGN=\"RIGHT\">"@) + (match node.tt_bound { Some(bound) => bound_name(bound), None => "-"@ }) + ("</TD></TR>\n            <TR><TD ALIGN=\"LEFT\">Depth</TD><TD ALIGN=\"RIGHT\">"@) + (match node.tt_depth { Some(d) => decimal(d as int), None => "-"@ }) + ("</TD></TR>\n            <TR><TD ALIGN=\"LEFT\">Resolved</TD><TD ALIGN=\"RIGHT\">"@) + (if node.resolved_by_tt { "Yes"@ } else { "No"@ }) + ("</TD></TR>\n\n            <TR><TD BORDER=\"0\" COLSPAN=\"2\">&nbsp;</TD></TR>\n\n            <TR><TD BORDER=\"0\" COLSPAN=\"2\">"@) + (html_lines(node.board@)) + ("</TD></TR>\n\n        </TABLE>\n    </TD></TR>\n</TABLE>\n>"@) + ("\n];\n                \n"@)
}

/// The DOT text of `nodes`, in order.
pub open spec fn nodes_dot(nodes: Seq<MinimaxAlphaBetaWithTranspositionTableGraphNode>) -> Seq<char>
    decreases nodes.len(),
{
    if nodes.len() == 0 {
        Seq::empty()
    } else {
        nodes_dot(nodes.drop_last()) + node_dot(nodes.last())
    }
}

/// The DOT text of one edge, labelled with the column of its movement.
pub open spec fn edge_dot(edge: MinimaxAlphaBetaWithTranspositionTableGraphEdge) -> Seq<char> {
    ("\n"@) + (decimal(edge.from as int)) + (":s -> "@) + (decimal(edge.to as int)) + (":n [headlabel=<\n<TABLE BORDER=\"0\">\n    <TR><TD STYLE=\"ROUNDED\" BORDER=\"1\" CELLPADDING=\"8\" BGCOLOR=\"#edf2fc\">"@) + (decimal(edge.movement.column as int)) + ("</TD></TR>\n    <TR><TD BORDER=\"0\">&nbsp;</TD></TR>\n</TABLE>\n>];\n                \n"@)
}

/// The DOT text of `edges`, in order.
pub open spec fn edges_dot(edges: Seq<MinimaxAlphaBetaWithTranspositionTableGraphEdge>) -> Seq<char>
    decreases edges.len(),
{
    if edges.len() == 0 {
        Seq::empty()
    } else {
        edges_dot(edges.drop_last()) + edge_dot(edges.last())
    }
}

/// The DOT text of a tree: the graph's settings, every node, every edge,
/// and the closing brace.
pub open spec fn dot_text(nodes: Seq<MinimaxAlphaBetaWithTranspositionTableGraphNode>, edges: Seq<MinimaxAlphaBetaWithTranspositionTableGraphEdge>) -> Seq<char> {
    "digraph MinimaxAlphaBetaWithTranspositionTable {\n\nfontname=\"Atkinson Hyperlegible Mono\";\nrankdir=TB;\nsplines=polyline;\nconcentrate=true;\nnodesep=1;\nranksep=4;\n            \n\nnode [\n    fontname=\"Atkinson Hyperlegible Mono\"\n    fontsize=\"32\"\n    shape=none\n    border=0\n];\n\n\nedge [\n    fontname=\"Atkinson Hyperlegible Mono\"\n    fontsize=\"64\"\n    penwidth=2\n    labeldistance=1\n    labelangle=0\n];\n\n"@ + nodes_dot(nodes) + edges_dot(edges) + "}\n"@
}

fn append_node_dot(text: &mut String, node: &MinimaxAlphaBetaWithTranspositionTableGraphNode)
    ensures
        final(text)@ == old(text)@ + node_dot(*node),
{
    let ghost start = text@;
    text.append("\n");
    let ghost mut acc = "\n"@;
    append_usize(text, node.id);
    proof {
        lemma_concat_associative(start, acc, decimal(node.id as int));
        acc = acc + (decimal(node.id as int));
    }
    text.append(" [\nlabel=");
    proof {
        lemma_concat_associative(start, acc, " [\nlabel="@);
        acc = acc + (" [\nlabel="@);
    }
    text.append("<\n<TABLE STYLE=\"ROUNDED\" BORDER=\"");
    proof {
        lemma_concat_associative(start, acc, "<\n<TABLE STYLE=\"ROUNDED\" BORDER=\""@);
        acc = acc + ("<\n<TABLE STYLE=\"ROUNDED\" BORDER=\""@);
    }
    if node.cutoff_occurred { text.append("8"); } else { text.append("0"); }
    proof {
        lemma_concat_associative(start, acc, if node.cutoff_occurred { "8"@ } else { "0"@ });
        acc = acc + (if node.cutoff_occurred { "8"@ } else { "0"@ });
    }
    text.append("\" COLOR=\"");
    proof {
        lemma_concat_associative(start, acc, "\" COLOR=\""@);
        acc = acc + ("\" COLOR=\""@);
    }
    if node.resolved_by_tt { text.append("#5cd2f6"); } else { text.append("#5D88F5"); }
    proof {
        lemma_concat_associative(start, acc, if node.resolved_by_tt { "#5cd2f6"@ } else { "#5D88F5"@ });
        acc = acc + (if node.resolved_by_tt { "#5cd2f6"@ } else { "#5D88F5"@ });
    }
    text.append("\" CELLSPACING=\"8\">\n    <TR><TD STYLE=\"ROUNDED\" COLOR=\"");
    proof {
        lemma_concat_associative(start, acc, "\" CELLSPACING=\"8\">\n    <TR><TD STYLE=\"ROUNDED\" COLOR=\""@);
        acc = acc + ("\" CELLSPACING=\"8\">\n    <TR><TD STYLE=\"ROUNDED\" COLOR=\""@);
    }
    if node.player == Player::Red { text.append("#F5685D"); } else { text.append("#FFD65B"); }
    proof {
        lemma_concat_associative(start, acc, if node.player == Player::Red { "#F5685D"@ } else { "#FFD65B"@ });
        acc = acc + (if node.player == Player::Red { "#F5685D"@ } else { "#FFD65B"@ });
    }
    text.append("\" BORDER=\"4\" CELLPADDING=\"8\">\n        <TABLE STYLE=\"ROUNDED\" COLOR=\"BLACK\" BORDER=\"0\" CELLBORDER=\"1\" CELLSPACING=\"0\" CELLPADDING=\"8\">\n\n            <TR><TD ALIGN=\"LEFT\"><B>ID</B></TD><TD ALIGN=\"RIGHT\"><B>");
    proof {
        lemma_concat_associative(start, acc, "\" BORDER=\"4\" CELLPADDING=\"8\">\n        <TABLE STYLE=\"ROUNDED\" COLOR=\"BLACK\" BORDER=\"0\" CELLBORDER=\"1\" CELLSPACING=\"0\" CELLPADDING=\"8\">\n\n            <TR><TD ALIGN=\"LEFT\"><B>ID</B></TD><TD ALIGN=\"RIGHT\"><B>"@);
        acc = acc + ("\" BORDER=\"4\" CELLPADDING=\"8\">\n        <TABLE STYLE=\"ROUNDED\" COLOR=\"BLACK\" BORDER=\"0\" CELLBORDER=\"1\" CELLSPACING=\"0\" CELLPADDING=\"8\">\n\n            <TR><TD ALIGN=\"LEFT\"><B>ID</B></TD><TD ALIGN=\"RIGHT\"><B>"@);
    }
    append_usize(text, node.id);
    proof {
        lemma_concat_associative(start, acc, decimal(node.id as int));
        acc = acc + (decimal(node.id as int));
    }
    text.append("</B></TD></TR>\n            <TR><TD ALIGN=\"LEFT\">Depth</TD><TD ALIGN=\"RIGHT\">");
    proof {
        lemma_concat_associative(start, acc, "</B></TD></TR>\n            <TR><TD ALIGN=\"LEFT\">Depth</TD><TD ALIGN=\"RIGHT\">"@);
        acc = acc + ("</B></TD></TR>\n            <TR><TD ALIGN=\"LEFT\">Depth</TD><TD ALIGN=\"RIGHT\">"@);
    }
    append_usize(text, node.depth);
    proof {
        lemma_concat_associative(start, acc, decimal(node.depth as int));
        acc = acc + (decimal(node.depth as int));
    }
    text.append("</TD></TR>\n\n            <TR><TD ALIGN=\"LEFT\">α in</TD><TD ALIGN=\"RIGHT\">");
    proof {
        lemma_concat_associative(start, acc, "</TD></TR>\n\n            <TR><TD ALIGN=\"LEFT\">α in</TD><TD ALIGN=\"RIGHT\">"@);
        acc = acc + ("</TD></TR>\n\n            <TR><TD ALIGN=\"LEFT\">α in</TD><TD ALIGN=\"RIGHT\">"@);
    }
    let shown = format_value(node.alpha_in); text.append(shown.as_str());
    proof {
        lemma_concat_associative(start, acc, value_text(node.alpha_in));
        acc = acc + (value_text(node.alpha_in));
    }
    text.append("</TD></TR>\n            <TR><TD ALIGN=\"LEFT\">α out</TD><TD ALIGN=\"RIGHT\">");
    proof {
        lemma_concat_associative(start, acc, "</TD></TR>\n            <TR><TD ALIGN=\"LEFT\">α out</TD><TD ALIGN=\"RIGHT\">"@);
        acc = acc + ("</TD></TR>\n            <TR><TD ALIGN=\"LEFT\">α out</TD><TD ALIGN=\"RIGHT\">"@);
    }
    let shown = format_value(node.alpha_out); text.append(shown.as_str());
    proof {
        lemma_concat_associative(start, acc, value_text(node.alpha_out));
        acc = acc + (value_text(node.alpha_out));
    }
    text.append("</TD></TR>\n\n            <TR><TD ALIGN=\"LEFT\">β in</TD><TD ALIGN=\"RIGHT\">");
    proof {
        lemma_concat_associative(start, acc, "</TD></TR>\n\n            <TR><TD ALIGN=\"LEFT\">β in</TD><TD ALIGN=\"RIGHT\">"@);
        acc = acc + ("</TD></TR>\n\n            <TR><TD ALIGN=\"LEFT\">β in</TD><TD ALIGN=\"RIGHT\">"@);
    }
    let shown = format_value(node.beta_in); text.append(shown.as_str());
    proof {
        lemma_concat_associative(start, acc, value_text(node.beta_in));
        acc = acc + (value_text(node.beta_in));
    }
    text.append("</TD></TR>\n            <TR><TD ALIGN=\"LEFT\">β out</TD><TD ALIGN=\"RIGHT\">");
    proof {
        lemma_concat_associative(start, acc, "</TD></TR>\n            <TR><TD ALIGN=\"LEFT\">β out</TD><TD ALIGN=\"RIGHT\">"@);
        acc = acc + ("</TD></TR>\n            <TR><TD ALIGN=\"LEFT\">β out</TD><TD ALIGN=\"RIGHT\">"@);
    }
    let shown = format_value(node.beta_out); text.append(shown.as_str());
    proof {
        lemma_concat_associative(start, acc, value_text(node.beta_out));
        acc = acc + (value_text(node.beta_out));
    }
    text.append("</TD></TR>\n\n            <TR><TD ALIGN=\"LEFT\">Value</TD><TD ALIGN=\"RIGHT\"><B>");
    proof {
        lemma_concat_associative(start, acc, "</TD></TR>\n\n            <TR><TD ALIGN=\"LEFT\">Value</TD><TD ALIGN=\"RIGHT\"><B>"@);
        acc = acc + ("</TD></TR>\n\n            <TR><TD ALIGN=\"LEFT\">Value</TD><TD ALIGN=\"RIGHT\"><B>"@);
    }
    match node.value { Some(v) => append_isize(text, v), None => text.append("-"), }
    proof {
        lemma_concat_associative(start, acc, match node.value { Some(v) => decimal(v as int), None => "-"@ });
        acc = acc + (match node.value { Some(v) => decimal(v as int), None => "-"@ });
    }
    text.append("</B></TD></TR>\n\n            <TR><TD BORDER=\"0\" COLSPAN=\"2\">&nbsp;</TD></TR>\n\n            <TR><TD ALIGN=\"LEFT\"><B>TT Hit</B></TD><TD ALIGN=\"RIGHT\">");
    proof {
        lemma_concat_associative(start, acc, "</B></TD></TR>\n\n            <TR><TD BORDER=\"0\" COLSPAN=\"2\">&nbsp;</TD></TR>\n\n            <TR><TD ALIGN=\"LEFT\"><B>TT Hit</B></TD><TD ALIGN=\"RIGHT\">"@);
        acc = acc + ("</B></TD></TR>\n\n            <TR><TD BORDER=\"0\" COLSPAN=\"2\">&nbsp;</TD></TR>\n\n            <TR><TD ALIGN=\"LEFT\"><B>TT Hit</B></TD><TD ALIGN=\"RIGHT\">"@);
    }
    if node.tt_hit { text.append("Yes"); } else { text.append("No"); }
    proof {
        lemma_concat_associative(start, acc, if node.tt_hit { "Yes"@ } else { "No"@ });
        acc = acc + (if node.tt_hit { "Yes"@ } else { "No"@ });
    }
    text.append("</TD></TR>\n            <TR><TD ALIGN=\"LEFT\">Source</TD><TD ALIGN=\"RIGHT\">");
    proof {
        lemma_concat_associative(start, acc, "</TD></TR>\n            <TR><TD ALIGN=\"LEFT\">Source</TD><TD ALIGN=\"RIGHT\">"@);
        acc = acc + ("</TD></TR>\n            <TR><TD ALIGN=\"LEFT\">Source</TD><TD ALIGN=\"RIGHT\">"@);
    }
    match node.tt_source_node { Some(n) => append_usize(text, n), None => text.append("-"), }
    proof {
        lemma_concat_associative(start, acc, match node.tt_source_node { Some(n) => decimal(n as int), None => "-"@ });
        acc = acc + (match node.tt_source_node { Some(n) => decimal(n as int), None => "-"@ });
    }
    text.append("</TD></TR>\n            <TR><TD ALIGN=\"LEFT\">Value</TD><TD ALIGN=\"RIGHT\">");
    proof {
        lemma_concat_associative(start, acc, "</TD></TR>\n            <TR><TD ALIGN=\"LEFT\">Value</TD><TD ALIGN=\"RIGHT\">"@);
        acc = acc + ("</TD></TR>\n            <TR><TD ALIGN=\"LEFT\">Value</TD><TD ALIGN=\"RIGHT\">"@);
    }
    match node.tt_value { Some(v) => { let shown = format_value(v); text.append(shown.as_str()); }, None => text.append("-"), }
    proof {
        lemma_concat_associative(start, acc, match node.tt_value { Some(v) => value_text(v), None => "-"@ });
        acc = acc + (match node.tt_value { Some(v) => value_text(v), None => "-"@ });
    }
    text.append("</TD></TR>\n            <TR><TD ALIGN=\"LEFT\">Bound</TD><TD ALIGN=\"RIGHT\">");
    proof {
        lemma_concat_associative(start, acc, "</TD></TR>\n            <TR><TD ALIGN=\"LEFT\">Bound</TD><TD ALIGN=\"RIGHT\">"@);
        acc = acc + ("</TD></TR>\n            <TR><TD ALIGN=\"LEFT\">Bound</TD><TD ALIGN=\"RIGHT\">"@);
    }
    match node.tt_bound { Some(bound) => text.append(bound_str(bound)), None => text.append("-"), }
    proof {
        lemma_concat_associative(start, acc, match node.tt_bound { Some(bound) => bound_name(bound), None => "-"@ });
        acc = acc + (match node.tt_bound { Some(bound) => bound_name(bound), None => "-"@ });
    }
    text.append("</TD></TR>\n            <TR><TD ALIGN=\"LEFT\">Depth</TD><TD ALIGN=\"RIGHT\">");
    proof {
        lemma_concat_associative(start, acc, "</TD></TR>\n            <TR><TD ALIGN=\"LEFT\">Depth</TD><TD ALIGN=\"RIGHT\">"@);
        acc = acc + ("</TD></TR>\n            <TR><TD ALIGN=\"LEFT\">Depth</TD><TD ALIGN=\"RIGHT\">"@);
    }
    match node.tt_depth { Some(d) => append_usize(text, d), None => text.append("-"), }
    proof {
        lemma_concat_associative(start, acc, match node.tt_depth { Some(d) => decimal(d as int), None => "-"@ });
        acc = acc + (match node.tt_depth { Some(d) => decimal(d as int), None => "-"@ });
    }
    text.append("</TD></TR>\n            <TR><TD ALIGN=\"LEFT\">Resolved</TD><TD ALIGN=\"RIGHT\">");
    proof {
        lemma_concat_associative(start, acc, "</TD></TR>\n            <TR><TD ALIGN=\"LEFT\">Resolved</TD><TD ALIGN=\"RIGHT\">"@);
        acc = acc + ("</TD></TR>\n            <TR><TD ALIGN=\"LEFT\">Resolved</TD><TD ALIGN=\"RIGHT\">"@);
    }
    if node.resolved_by_tt { text.append("Yes"); } else { text.append("No"); }
    proof {
        lemma_concat_associative(start, acc, if node.resolved_by_tt { "Yes"@ } else { "No"@ });
        acc = acc + (if node.resolved_by_tt { "Yes"@ } else { "No"@ });
    }
    text.append("</TD></TR>\n\n            <TR><TD BORDER=\"0\" COLSPAN=\"2\">&nbsp;</TD></TR>\n\n            <TR><TD BORDER=\"0\" COLSPAN=\"2\">");
    proof {
        lemma_concat_associative(start, acc, "</TD></TR>\n\n            <TR><TD BORDER=\"0\" COLSPAN=\"2\">&nbsp;</TD></TR>\n\n            <TR><TD BORDER=\"0\" COLSPAN=\"2\">"@);
        acc = acc + ("</TD></TR>\n\n            <TR><TD BORDER=\"0\" COLSPAN=\"2\">&nbsp;</TD></TR>\n\n            <TR><TD BORDER=\"0\" COLSPAN=\"2\">"@);
    }
    append_html_lines(text, node.board.as_str());
    proof {
        lemma_concat_associative(start, acc, html_lines(node.board@));
        acc = acc + (html_lines(node.board@));
    }
    text.append("</TD></TR>\n\n        </TABLE>\n    </TD></TR>\n</TABLE>\n>");
    proof {
        lemma_concat_associative(start, acc, "</TD></TR>\n\n        </TABLE>\n    </TD></TR>\n</TABLE>\n>"@);
        acc = acc + ("</TD></TR>\n\n        </TABLE>\n    </TD></TR>\n</TABLE>\n>"@);
    }
    text.append("\n];\n                \n");
    proof {
        lemma_concat_associative(start, acc, "\n];\n                \n"@);
        acc = acc + ("\n];\n                \n"@);
    }
    proof {
        assert(acc == node_dot(*node));
    }
}

fn append_edge_dot(text: &mut String, edge: &MinimaxAlphaBetaWithTranspositionTableGraphEdge)
    ensures
        final(text)@ == old(text)@ + edge_dot(*edge),
{
    let ghost start = text@;
    text.append("\n");
    let ghost mut acc = "\n"@;
    append_usize(text, edge.from);
    proof {
        lemma_concat_associative(start, acc, decimal(edge.from as int));
        acc = acc + (decimal(edge.from as int));
    }
    text.append(":s -> ");
    proof {
        lemma_concat_associative(start, acc, ":s -> "@);
        acc = acc + (":s -> "@);
    }
    append_usize(text, edge.to);
    proof {
        lemma_concat_associative(start, acc, decimal(edge.to as int));
        acc = acc + (decimal(edge.to as int));
    }
    text.append(":n [headlabel=<\n<TABLE BORDER=\"0\">\n    <TR><TD STYLE=\"ROUNDED\" BORDER=\"1\" CELLPADDING=\"8\" BGCOLOR=\"#edf2fc\">");
    proof {
        lemma_concat_associative(start, acc, ":n [headlabel=<\n<TABLE BORDER=\"0\">\n    <TR><TD STYLE=\"ROUNDED\" BORDER=\"1\" CELLPADDING=\"8\" BGCOLOR=\"#edf2fc\">"@);
        acc = acc + (":n [headlabel=<\n<TABLE BORDER=\"0\">\n    <TR><TD STYLE=\"ROUNDED\" BORDER=\"1\" CELLPADDING=\"8\" BGCOLOR=\"#edf2fc\">"@);
    }
    append_usize(text, edge.movement.column);
    proof {
        lemma_concat_associative(start, acc, decimal(edge.movement.column as int));
        acc = acc + (decimal(edge.movement.column as int));
    }
    text.append("</TD></TR>\n    <TR><TD BORDER=\"0\">&nbsp;</TD></TR>\n</TABLE>\n>];\n                \n");
    proof {
        lemma_concat_associative(start, acc, "</TD></TR>\n    <TR><TD BORDER=\"0\">&nbsp;</TD></TR>\n</TABLE>\n>];\n                \n"@);
        acc = acc + ("</TD></TR>\n    <TR><TD BORDER=\"0\">&nbsp;</TD></TR>\n</TABLE>\n>];\n                \n"@);
    }
    proof {
        assert(acc == edge_dot(*edge));
    }
}

impl MinimaxAlphaBetaWithTranspositionTableGraph {
    /// The tree as Graphviz DOT text (see `dot_text`).
    pub fn dot_source(&self) -> (text: String)
        ensures
            text@ == dot_text(self.nodes@, self.edges@),
    {
        let mut text = String::new();
        text.append("digraph MinimaxAlphaBetaWithTranspositionTable {\n\nfontname=\"Atkinson Hyperlegible Mono\";\nrankdir=TB;\nsplines=polyline;\nconcentrate=true;\nnodesep=1;\nranksep=4;\n            \n\nnode [\n    fontname=\"Atkinson Hyperlegible Mono\"\n    fontsize=\"32\"\n    shape=none\n    border=0\n];\n\n\nedge [\n    fontname=\"Atkinson Hyperlegible Mono\"\n    fontsize=\"64\"\n    penwidth=2\n    labeldistance=1\n    labelangle=0\n];\n\n");

        let mut i: usize = 0;
        while i < self.nodes.len()
            invariant
                i <= self.nodes@.len(),
                text@ == "digraph MinimaxAlphaBetaWithTranspositionTable {\n\nfontname=\"Atkinson Hyperlegible Mono\";\nrankdir=TB;\nsplines=polyline;\nconcentrate=true;\nnodesep=1;\nranksep=4;\n            \n\nnode [\n    fontname=\"Atkinson Hyperlegible Mono\"\n    fontsize=\"32\"\n    shape=none\n    border=0\n];\n\n\nedge [\n    fontname=\"Atkinson Hyperlegible Mono\"\n    fontsize=\"64\"\n    penwidth=2\n    labeldistance=1\n    labelangle=0\n];\n\n"@ + nodes_dot(self.nodes@.subrange(0, i as int)),
            decreases self.nodes@.len() - i,
        {
            append_node_dot(&mut text, &self.nodes[i]);
            proof {
                assert(self.nodes@.subrange(0, i + 1).drop_last() =~= self.nodes@.subrange(0, i as int));
            }
            i += 1;
        }
        proof {
            assert(self.nodes@.subrange(0, self.nodes@.len() as int) =~= self.nodes@);
        }

        let ghost with_nodes = text@;
        let mut j: usize = 0;
        while j < self.edges.len()
            invariant
                j <= self.edges@.len(),
                text@ == with_nodes + edges_dot(self.edges@.subrange(0, j as int)),
            decreases self.edges@.len() - j,
        {
            append_edge_dot(&mut text, &self.edges[j]);
            proof {
                assert(self.edges@.subrange(0, j + 1).drop_last() =~= self.edges@.subrange(0, j as int));
            }
            j += 1;
        }
        proof {
            assert(self.edges@.subrange(0, self.edges@.len() as int) =~= self.edges@);
        }

        text.append("}\n");
        proof {
            assert(text@ =~= dot_text(self.nodes@, self.edges@));
        }
        text
    }
}

/// Law: marking a cutoff in a node changes its DOT text in one place only: the
/// border of its outer table, written right after `BORDER="`, goes from `0`
/// to `8`.
pub proof fn lemma_cutoff_border(node: MinimaxAlphaBetaWithTranspositionTableGraphNode)
    ensures
        ({
            let marked = node_dot(MinimaxAlphaBetaWithTranspositionTableGraphNode { cutoff_occurred: true, ..node });
            let unmarked = node_dot(MinimaxAlphaBetaWithTranspositionTableGraphNode { cutoff_occurred: false, ..node });
            &&& marked.len() == unmarked.len()
            &&& exists|k: int|
                8 <= k < marked.len() && marked[k] == '8' && unmarked[k] == '0' && marked.subrange(k - 8, k) == seq![
                    'B',
                    'O',
                    'R',
                    'D',
                    'E',
                    'R',
                    '=',
                    '"',
                ] && forall|j: int| 0 <= j < marked.len() && j != k ==> marked[j] == unmarked[j]
        }),
{
    reveal_strlit("<\n<TABLE STYLE=\"ROUNDED\" BORDER=\"");
    reveal_strlit("8");
    reveal_strlit("0");
    let prefix = ("\n"@) + (decimal(node.id as int)) + (" [\nlabel="@) + ("<\n<TABLE STYLE=\"ROUNDED\" BORDER=\""@);
    let k = prefix.len() as int;
    let mut marked = prefix + "8"@;
    let mut unmarked = prefix + "0"@;
    assert(marked.subrange(k - 8, k) =~= seq!['B', 'O', 'R', 'D', 'E', 'R', '=', '"']);
    assert(marked[k] == '8' && unmarked[k] == '0');
    assert(forall|j: int| 0 <= j < marked.len() && j != k ==> marked[j] == unmarked[j]);
    lemma_differ_from(marked, unmarked, k);
    lemma_differ_append(marked, unmarked, k, ("\" COLOR=\""@));
    marked = marked + ("\" COLOR=\""@);
    unmarked = unmarked + ("\" COLOR=\""@);
    lemma_differ_append(marked, unmarked, k, (if node.resolved_by_tt { "#5cd2f6"@ } else { "#5D88F5"@ }));
    marked = marked + (if node.resolved_by_tt { "#5cd2f6"@ } else { "#5D88F5"@ });
    unmarked = unmarked + (if node.resolved_by_tt { "#5cd2f6"@ } else { "#5D88F5"@ });
    lemma_differ_append(marked, unmarked, k, ("\" CELLSPACING=\"8\">\n    <TR><TD STYLE=\"ROUNDED\" COLOR=\""@));
    marked = marked + ("\" CELLSPACING=\"8\">\n    <TR><TD STYLE=\"ROUNDED\" COLOR=\""@);
    unmarked = unmarked + ("\" CELLSPACING=\"8\">\n    <TR><TD STYLE=\"ROUNDED\" COLOR=\""@);
    lemma_differ_append(marked, unmarked, k, (if node.player == Player::Red { "#F5685D"@ } else { "#FFD65B"@ }));
    marked = marked + (if node.player == Player::Red { "#F5685D"@ } else { "#FFD65B"@ });
    unmarked = unmarked + (if node.player == Player::Red { "#F5685D"@ } else { "#FFD65B"@ });
    lemma_differ_append(marked, unmarked, k, ("\" BORDER=\"4\" CELLPADDING=\"8\">\n        <TABLE STYLE=\"ROUNDED\" COLOR=\"BLACK\" BORDER=\"0\" CELLBORDER=\"1\" CELLSPACING=\"0\" CELLPADDING=\"8\">\n\n            <TR><TD ALIGN=\"LEFT\"><B>ID</B></TD><TD ALIGN=\"RIGHT\"><B>"@));
    marked = marked + ("\" BORDER=\"4\" CELLPADDING=\"8\">\n        <TABLE STYLE=\"ROUNDED\" COLOR=\"BLACK\" BORDER=\"0\" CELLBORDER=\"1\" CELLSPACING=\"0\" CELLPADDING=\"8\">\n\n            <TR><TD ALIGN=\"LEFT\"><B>ID</B></TD><TD ALIGN=\"RIGHT\"><B>"@);
    unmarked = unmarked + ("\" BORDER=\"4\" CELLPADDING=\"8\">\n        <TABLE STYLE=\"ROUNDED\" COLOR=\"BLACK\" BORDER=\"0\" CELLBORDER=\"1\" CELLSPACING=\"0\" CELLPADDING=\"8\">\n\n            <TR><TD ALIGN=\"LEFT\"><B>ID</B></TD><TD ALIGN=\"RIGHT\"><B>"@);
    lemma_differ_append(marked, unmarked, k, (decimal(node.id as int)));
    marked = marked + (decimal(node.id as int));
    unmarked = unmarked + (decimal(node.id as int));
    lemma_differ_append(marked, unmarked, k, ("</B></TD></TR>\n            <TR><TD ALIGN=\"LEFT\">Depth</TD><TD ALIGN=\"RIGHT\">"@));
    marked = marked + ("</B></TD></TR>\n            <TR><TD ALIGN=\"LEFT\">Depth</TD><TD ALIGN=\"RIGHT\">"@);
    unmarked = unmarked + ("</B></TD></TR>\n            <TR><TD ALIGN=\"LEFT\">Depth</TD><TD ALIGN=\"RIGHT\">"@);
    lemma_differ_append(marked, unmarked, k, (decimal(node.depth as int)));
    marked = marked + (decimal(node.depth as int));
    unmarked = unmarked + (decimal(node.depth as int));
    lemma_differ_append(marked, unmarked, k, ("</TD></TR>\n\n            <TR><TD ALIGN=\"LEFT\">α in</TD><TD ALIGN=\"RIGHT\">"@));
    marked = marked + ("</TD></TR>\n\n            <TR><TD ALIGN=\"LEFT\">α in</TD><TD ALIGN=\"RIGHT\">"@);
    unmarked = unmarked + ("</TD></TR>\n\n            <TR><TD ALIGN=\"LEFT\">α in</TD><TD ALIGN=\"RIGHT\">"@);
    lemma_differ_append(marked, unmarked, k, (value_text(node.alpha_in)));
    marked = marked + (value_text(node.alpha_in));
    unmarked = unmarked + (value_text(node.alpha_in));
    lemma_differ_append(marked, unmarked, k, ("</TD></TR>\n            <TR><TD ALIGN=\"LEFT\">α out</TD><TD ALIGN=\"RIGHT\">"@));
    marked = marked + ("</TD></TR>\n            <TR><TD ALIGN=\"LEFT\">α out</TD><TD ALIGN=\"RIGHT\">"@);
    unmarked = unmarked + ("</TD></TR>\n            <TR><TD ALIGN=\"LEFT\">α out</TD><TD ALIGN=\"RIGHT\">"@);
    lemma_differ_append(marked, unmarked, k, (value_text(node.alpha_out)));
    marked = marked + (value_text(node.alpha_out));
    unmarked = unmarked + (value_text(node.alpha_out));
    lemma_differ_append(marked, unmarked, k, ("</TD></TR>\n\n            <TR><TD ALIGN=\"LEFT\">β in</TD><TD ALIGN=\"RIGHT\">"@));
    marked = marked + ("</TD></TR>\n\n            <TR><TD ALIGN=\"LEFT\">β in</TD><TD ALIGN=\"RIGHT\">"@);
    unmarked = unmarked + ("</TD></TR>\n\n            <TR><TD ALIGN=\"LEFT\">β in</TD><TD ALIGN=\"RIGHT\">"@);
    lemma_differ_append(marked, unmarked, k, (value_text(node.beta_in)));
    marked = marked + (value_text(node.beta_in));
    unmarked = unmarked + (value_text(node.beta_in));
    lemma_differ_append(marked, unmarked, k, ("</TD></TR>\n            <TR><TD ALIGN=\"LEFT\">β out</TD><TD ALIGN=\"RIGHT\">"@));
    marked = marked + ("</TD></TR>\n            <TR><TD ALIGN=\"LEFT\">β out</TD><TD ALIGN=\"RIGHT\">"@);
    unmarked = unmarked + ("</TD></TR>\n            <TR><TD ALIGN=\"LEFT\">β out</TD><TD ALIGN=\"RIGHT\">"@);
    lemma_differ_append(marked, unmarked, k, (value_text(node.beta_out)));
    marked = marked + (value_text(node.beta_out));
    unmarked = unmarked + (value_text(node.beta_out));
    lemma_differ_append(marked, unmarked, k, ("</TD></TR>\n\n            <TR><TD ALIGN=\"LEFT\">Value</TD><TD ALIGN=\"RIGHT\"><B>"@));
    marked = marked + ("</TD></TR>\n\n            <TR><TD ALIGN=\"LEFT\">Value</TD><TD ALIGN=\"RIGHT\"><B>"@);
    unmarked = unmarked + ("</TD></TR>\n\n            <TR><TD ALIGN=\"LEFT\">Value</TD><TD ALIGN=\"RIGHT\"><B>"@);
    lemma_differ_append(marked, unmarked, k, (match node.value { Some(v) => decimal(v as int), None => "-"@ }));
    marked = marked + (match node.value { Some(v) => decimal(v as int), None => "-"@ });
    unmarked = unmarked + (match node.value { Some(v) => decimal(v as int), None => "-"@ });
    lemma_differ_append(marked, unmarked, k, ("</B></TD></TR>\n\n            <TR><TD BORDER=\"0\" COLSPAN=\"2\">&nbsp;</TD></TR>\n\n            <TR><TD ALIGN=\"LEFT\"><B>TT Hit</B></TD><TD ALIGN=\"RIGHT\">"@));
    marked = marked + ("</B></TD></TR>\n\n            <TR><TD BORDER=\"0\" COLSPAN=\"2\">&nbsp;</TD></TR>\n\n            <TR><TD ALIGN=\"LEFT\"><B>TT Hit</B></TD><TD ALIGN=\"RIGHT\">"@);
    unmarked = unmarked + ("</B></TD></TR>\n\n            <TR><TD BORDER=\"0\" COLSPAN=\"2\">&nbsp;</TD></TR>\n\n            <TR><TD ALIGN=\"LEFT\"><B>TT Hit</B></TD><TD ALIGN=\"RIGHT\">"@);
    lemma_differ_append(marked, unmarked, k, (if node.tt_hit { "Yes"@ } else { "No"@ }));
    marked = marked + (if node.tt_hit { "Yes"@ } else { "No"@ });
    unmarked = unmarked + (if node.tt_hit { "Yes"@ } else { "No"@ });
    lemma_differ_append(marked, unmarked, k, ("</TD></TR>\n            <TR><TD ALIGN=\"LEFT\">Source</TD><TD ALIGN=\"RIGHT\">"@));
    marked = marked + ("</TD></TR>\n            <TR><TD ALIGN=\"LEFT\">Source</TD><TD ALIGN=\"RIGHT\">"@);
    unmarked = unmarked + ("</TD></TR>\n            <TR><TD ALIGN=\"LEFT\">Source</TD><TD ALIGN=\"RIGHT\">"@);
    lemma_differ_append(marked, unmarked, k, (match node.tt_source_node { Some(n) => decimal(n as int), None => "-"@ }));
    marked = marked + (match node.tt_source_node { Some(n) => decimal(n as int), None => "-"@ });
    unmarked = unmarked + (match node.tt_source_node { Some(n) => decimal(n as int), None => "-"@ });
    lemma_differ_append(marked, unmarked, k, ("</TD></TR>\n            <TR><TD ALIGN=\"LEFT\">Value</TD><TD ALIGN=\"RIGHT\">"@));
    marked = marked + ("</TD></TR>\n            <TR><TD ALIGN=\"LEFT\">Value</TD><TD ALIGN=\"RIGHT\">"@);
    unmarked = unmarked + ("</TD></TR>\n            <TR><TD ALIGN=\"LEFT\">Value</TD><TD ALIGN=\"RIGHT\">"@);
    lemma_differ_append(marked, unmarked, k, (match node.tt_value { Some(v) => value_text(v), None => "-"@ }));
    marked = marked + (match node.tt_value { Some(v) => value_text(v), None => "-"@ });
    unmarked = unmarked + (match node.tt_value { Some(v) => value_text(v), None => "-"@ });
    lemma_differ_append(marked, unmarked, k, ("</TD></TR>\n            <TR><TD ALIGN=\"LEFT\">Bound</TD><TD ALIGN=\"RIGHT\">"@));
    marked = marked + ("</TD></TR>\n            <TR><TD ALIGN=\"LEFT\">Bound</TD><TD ALIGN=\"RIGHT\">"@);
    unmarked = unmarked + ("</TD></TR>\n            <TR><TD ALIGN=\"LEFT\">Bound</TD><TD ALIGN=\"RIGHT\">"@);
    lemma_differ_append(marked, unmarked, k, (match node.tt_bound { Some(bound) => bound_name(bound), None => "-"@ }));
    marked = marked + (match node.tt_bound { Some(bound) => bound_name(bound), None => "-"@ });
    unmarked = unmarked + (match node.tt_bound { Some(bound) => bound_name(bound), None => "-"@ });
    lemma_differ_append(marked, unmarked, k, ("</TD></TR>\n            <TR><TD ALIGN=\"LEFT\">Depth</TD><TD ALIGN=\"RIGHT\">"@));
    marked = marked + ("</TD></TR>\n            <TR><TD ALIGN=\"LEFT\">Depth</TD><TD ALIGN=\"RIGHT\">"@);
    unmarked = unmarked + ("</TD></TR>\n            <TR><TD ALIGN=\"LEFT\">Depth</TD><TD ALIGN=\"RIGHT\">"@);
    lemma_differ_append(marked, unmarked, k, (match node.tt_depth { Some(d) => decimal(d as int), None => "-"@ }));
    marked = marked + (match node.tt_depth { Some(d) => decimal(d as int), None => "-"@ });
    unmarked = unmarked + (match node.tt_depth { Some(d) => decimal(d as int), None => "-"@ });
    lemma_differ_append(marked, unmarked, k, ("</TD></TR>\n            <TR><TD ALIGN=\"LEFT\">Resolved</TD><TD ALIGN=\"RIGHT\">"@));
    marked = marked + ("</TD></TR>\n            <TR><TD ALIGN=\"LEFT\">Resolved</TD><TD ALIGN=\"RIGHT\">"@);
    unmarked = unmarked + ("</TD></TR>\n            <TR><TD ALIGN=\"LEFT\">Resolved</TD><TD ALIGN=\"RIGHT\">"@);
    lemma_differ_append(marked, unmarked, k, (if node.resolved_by_tt { "Yes"@ } else { "No"@ }));
    marked = marked + (if node.resolved_by_tt { "Yes"@ } else { "No"@ });
    unmarked = unmarked + (if node.resolved_by_tt { "Yes"@ } else { "No"@ });
    lemma_differ_append(marked, unmarked, k, ("</TD></TR>\n\n            <TR><TD BORDER=\"0\" COLSPAN=\"2\">&nbsp;</TD></TR>\n\n            <TR><TD BORDER=\"0\" COLSPAN=\"2\">"@));
    marked = marked + ("</TD></TR>\n\n            <TR><TD BORDER=\"0\" COLSPAN=\"2\">&nbsp;</TD></TR>\n\n            <TR><TD BORDER=\"0\" COLSPAN=\"2\">"@);
    unmarked = unmarked + ("</TD></TR>\n\n            <TR><TD BORDER=\"0\" COLSPAN=\"2\">&nbsp;</TD></TR>\n\n            <TR><TD BORDER=\"0\" COLSPAN=\"2\">"@);
    lemma_differ_append(marked, unmarked, k, (html_lines(node.board@)));
    marked = marked + (html_lines(node.board@));
    unmarked = unmarked + (html_lines(node.board@));
    lemma_differ_append(marked, unmarked, k, ("</TD></TR>\n\n        </TABLE>\n    </TD></TR>\n</TABLE>\n>"@));
    marked = marked + ("</TD></TR>\n\n        </TABLE>\n    </TD></TR>\n</TABLE>\n>"@);
    unmarked = unmarked + ("</TD></TR>\n\n        </TABLE>\n    </TD></TR>\n</TABLE>\n>"@);
    lemma_differ_append(marked, unmarked, k, ("\n];\n                \n"@));
    marked = marked + ("\n];\n                \n"@);
    unmarked = unmarked + ("\n];\n                \n"@);
    lemma_differ_at(marked, unmarked, k);
    assert(marked == node_dot(MinimaxAlphaBetaWithTranspositionTableGraphNode { cutoff_occurred: true, ..node }));
    assert(unmarked == node_dot(MinimaxAlphaBetaWithTranspositionTableGraphNode { cutoff_occurred: false, ..node }));
}

/// Law: the side of a node is drawn as the colour of its inner border: making
/// the node Yellow's instead of Red's changes its DOT text in one span only,
/// right after `COLOR="`, from `#F5685D` to `#FFD65B`.
#[verifier::rlimit(60)]
#[verifier::spinoff_prover]
pub proof fn lemma_player_colour(node: MinimaxAlphaBetaWithTranspositionTableGraphNode)
    ensures
        ({
            let first = node_dot(MinimaxAlphaBetaWithTranspositionTableGraphNode { player: Player::Red, ..node });
            let second = node_dot(MinimaxAlphaBetaWithTranspositionTableGraphNode { player: Player::Yellow, ..node });
            &&& first.len() == second.len()
            &&& exists|k: int| #![trigger first.subrange(k, k + 7)]
                7 <= k && k + 7 <= first.len() && first.subrange(k - 7, k) == seq!['C', 'O', 'L', 'O', 'R', '=', '"'] && first.subrange(k, k + 7)
                    == seq!['#', 'F', '5', '6', '8', '5', 'D'] && second.subrange(k, k + 7) == seq!['#', 'F', 'F', 'D', '6', '5', 'B'] && forall|j: int|
                    0 <= j < first.len() && !(k <= j < k + 7) ==> first[j] == second[j]
        }),
{
    reveal_strlit("\" CELLSPACING=\"8\">\n    <TR><TD STYLE=\"ROUNDED\" COLOR=\"");
    reveal_strlit("#F5685D");
    reveal_strlit("#FFD65B");
    let before = seq!['C', 'O', 'L', 'O', 'R', '=', '"'];
    let prefix = ("\n"@) + (decimal(node.id as int)) + (" [\nlabel="@) + ("<\n<TABLE STYLE=\"ROUNDED\" BORDER=\""@) + (if node.cutoff_occurred { "8"@ } else { "0"@ }) + ("\" COLOR=\""@) + (if node.resolved_by_tt { "#5cd2f6"@ } else { "#5D88F5"@ }) + ("\" CELLSPACING=\"8\">\n    <TR><TD STYLE=\"ROUNDED\" COLOR=\""@);
    let k = prefix.len() as int;
    let mut first = prefix + "#F5685D"@;
    let mut second = prefix + "#FFD65B"@;
    assert(first.subrange(k - 7, k) =~= before);
    assert(first.subrange(k, k + 7) =~= seq!['#', 'F', '5', '6', '8', '5', 'D']);
    assert(second.subrange(k, k + 7) =~= seq!['#', 'F', 'F', 'D', '6', '5', 'B']);
    assert(forall|j: int| 0 <= j < first.len() && !(k <= j < k + 7) ==> first[j] == second[j]);
    lemma_differ_span_from(first, second, k, 7, before);
    lemma_differ_span_append(first, second, k, 7, before, ("\" BORDER=\"4\" CELLPADDING=\"8\">\n        <TABLE STYLE=\"ROUNDED\" COLOR=\"BLACK\" BORDER=\"0\" CELLBORDER=\"1\" CELLSPACING=\"0\" CELLPADDING=\"8\">\n\n            <TR><TD ALIGN=\"LEFT\"><B>ID</B></TD><TD ALIGN=\"RIGHT\"><B>"@));
    first = first + ("\" BORDER=\"4\" CELLPADDING=\"8\">\n        <TABLE STYLE=\"ROUNDED\" COLOR=\"BLACK\" BORDER=\"0\" CELLBORDER=\"1\" CELLSPACING=\"0\" CELLPADDING=\"8\">\n\n            <TR><TD ALIGN=\"LEFT\"><B>ID</B></TD><TD ALIGN=\"RIGHT\"><B>"@);
    second = second + ("\" BORDER=\"4\" CELLPADDING=\"8\">\n        <TABLE STYLE=\"ROUNDED\" COLOR=\"BLACK\" BORDER=\"0\" CELLBORDER=\"1\" CELLSPACING=\"0\" CELLPADDING=\"8\">\n\n            <TR><TD ALIGN=\"LEFT\"><B>ID</B></TD><TD ALIGN=\"RIGHT\"><B>"@);
    lemma_differ_span_append(first, second, k, 7, before, (decimal(node.id as int)));
    first = first + (decimal(node.id as int));
    second = second + (decimal(node.id as int));
    lemma_differ_span_append(first, second, k, 7, before, ("</B></TD></TR>\n            <TR><TD ALIGN=\"LEFT\">Depth</TD><TD ALIGN=\"RIGHT\">"@));
    first = first + ("</B></TD></TR>\n            <TR><TD ALIGN=\"LEFT\">Depth</TD><TD ALIGN=\"RIGHT\">"@);
    second = second + ("</B></TD></TR>\n            <TR><TD ALIGN=\"LEFT\">Depth</TD><TD ALIGN=\"RIGHT\">"@);
    lemma_differ_span_append(first, second, k, 7, before, (decimal(node.depth as int)));
    first = first + (decimal(node.depth as int));
    second = second + (decimal(node.depth as int));
    lemma_differ_span_append(first, second, k, 7, before, ("</TD></TR>\n\n            <TR><TD ALIGN=\"LEFT\">α in</TD><TD ALIGN=\"RIGHT\">"@));
    first = first + ("</TD></TR>\n\n            <TR><TD ALIGN=\"LEFT\">α in</TD><TD ALIGN=\"RIGHT\">"@);
    second = second + ("</TD></TR>\n\n            <TR><TD ALIGN=\"LEFT\">α in</TD><TD ALIGN=\"RIGHT\">"@);
    lemma_differ_span_append(first, second, k, 7, before, (value_text(node.alpha_in)));
    first = first + (value_text(node.alpha_in));
    second = second + (value_text(node.alpha_in));
    lemma_differ_span_append(first, second, k, 7, before, ("</TD></TR>\n            <TR><TD ALIGN=\"LEFT\">α out</TD><TD ALIGN=\"RIGHT\">"@));
    first = first + ("</TD></TR>\n            <TR><TD ALIGN=\"LEFT\">α out</TD><TD ALIGN=\"RIGHT\">"@);
    second = second + ("</TD></TR>\n            <TR><TD ALIGN=\"LEFT\">α out</TD><TD ALIGN=\"RIGHT\">"@);
    lemma_differ_span_append(first, second, k, 7, before, (value_text(node.alpha_out)));
    first = first + (value_text(node.alpha_out));
    second = second + (value_text(node.alpha_out));
    lemma_differ_span_append(first, second, k, 7, before, ("</TD></TR>\n\n            <TR><TD ALIGN=\"LEFT\">β in</TD><TD ALIGN=\"RIGHT\">"@));
    first = first + ("</TD></TR>\n\n            <TR><TD ALIGN=\"LEFT\">β in</TD><TD ALIGN=\"RIGHT\">"@);
    second = second + ("</TD></TR>\n\n            <TR><TD ALIGN=\"LEFT\">β in</TD><TD ALIGN=\"RIGHT\">"@);
    lemma_differ_span_append(first, second, k, 7, before, (value_text(node.beta_in)));
    first = first + (value_text(node.beta_in));
    second = second + (value_text(node.beta_in));
    lemma_differ_span_append(first, second, k, 7, before, ("</TD></TR>\n            <TR><TD ALIGN=\"LEFT\">β out</TD><TD ALIGN=\"RIGHT\">"@));
    first = first + ("</TD></TR>\n            <TR><TD ALIGN=\"LEFT\">β out</TD><TD ALIGN=\"RIGHT\">"@);
    second = second + ("</TD></TR>\n            <TR><TD ALIGN=\"LEFT\">β out</TD><TD ALIGN=\"RIGHT\">"@);
    lemma_differ_span_append(first, second, k, 7, before, (value_text(node.beta_out)));
    first = first + (value_text(node.beta_out));
    second = second + (value_text(node.beta_out));
    lemma_differ_span_append(first, second, k, 7, before, ("</TD></TR>\n\n            <TR><TD ALIGN=\"LEFT\">Value</TD><TD ALIGN=\"RIGHT\"><B>"@));
    first = first + ("</TD></TR>\n\n            <TR><TD ALIGN=\"LEFT\">Value</TD><TD ALIGN=\"RIGHT\"><B>"@);
    second = second + ("</TD></TR>\n\n            <TR><TD ALIGN=\"LEFT\">Value</TD><TD ALIGN=\"RIGHT\"><B>"@);
    lemma_differ_span_append(first, second, k, 7, before, (match node.value { Some(v) => decimal(v as int), None => "-"@ }));
    first = first + (match node.value { Some(v) => decimal(v as int), None => "-"@ });
    second = second + (match node.value { Some(v) => decimal(v as int), None => "-"@ });
    lemma_differ_span_append(first, second, k, 7, before, ("</B></TD></TR>\n\n            <TR><TD BORDER=\"0\" COLSPAN=\"2\">&nbsp;</TD></TR>\n\n            <TR><TD ALIGN=\"LEFT\"><B>TT Hit</B></TD><TD ALIGN=\"RIGHT\">"@));
    first = first + ("</B></TD></TR>\n\n            <TR><TD BORDER=\"0\" COLSPAN=\"2\">&nbsp;</TD></TR>\n\n            <TR><TD ALIGN=\"LEFT\"><B>TT Hit</B></TD><TD ALIGN=\"RIGHT\">"@);
    second = second + ("</B></TD></TR>\n\n            <TR><TD BORDER=\"0\" COLSPAN=\"2\">&nbsp;</TD></TR>\n\n            <TR><TD ALIGN=\"LEFT\"><B>TT Hit</B></TD><TD ALIGN=\"RIGHT\">"@);
    lemma_differ_span_append(first, second, k, 7, before, (if node.tt_hit { "Yes"@ } else { "No"@ }));
    first = first + (if node.tt_hit { "Yes"@ } else { "No"@ });
    second = second + (if node.tt_hit { "Yes"@ } else { "No"@ });
    lemma_differ_span_append(first, second, k, 7, before, ("</TD></TR>\n            <TR><TD ALIGN=\"LEFT\">Source</TD><TD ALIGN=\"RIGHT\">"@));
    first = first + ("</TD></TR>\n            <TR><TD ALIGN=\"LEFT\">Source</TD><TD ALIGN=\"RIGHT\">"@);
    second = second + ("</TD></TR>\n            <TR><TD ALIGN=\"LEFT\">Source</TD><TD ALIGN=\"RIGHT\">"@);
    lemma_differ_span_append(first, second, k, 7, before, (match node.tt_source_node { Some(n) => decimal(n as int), None => "-"@ }));
    first = first + (match node.tt_source_node { Some(n) => decimal(n as int), None => "-"@ });
    second = second + (match node.tt_source_node { Some(n) => decimal(n as int), None => "-"@ });
    lemma_differ_span_append(first, second, k, 7, before, ("</TD></TR>\n            <TR><TD ALIGN=\"LEFT\">Value</TD><TD ALIGN=\"RIGHT\">"@));
    first = first + ("</TD></TR>\n            <TR><TD ALIGN=\"LEFT\">Value</TD><TD ALIGN=\"RIGHT\">"@);
    second = second + ("</TD></TR>\n            <TR><TD ALIGN=\"LEFT\">Value</TD><TD ALIGN=\"RIGHT\">"@);
    lemma_differ_span_append(first, second, k, 7, before, (match node.tt_value { Some(v) => value_text(v), None => "-"@ }));
    first = first + (match node.tt_value { Some(v) => value_text(v), None => "-"@ });
    second = second + (match node.tt_value { Some(v) => value_text(v), None => "-"@ });
    lemma_differ_span_append(first, second, k, 7, before, ("</TD></TR>\n            <TR><TD ALIGN=\"LEFT\">Bound</TD><TD ALIGN=\"RIGHT\">"@));
    first = first + ("</TD></TR>\n            <TR><TD ALIGN=\"LEFT\">Bound</TD><TD ALIGN=\"RIGHT\">"@);
    second = second + ("</TD></TR>\n            <TR><TD ALIGN=\"LEFT\">Bound</TD><TD ALIGN=\"RIGHT\">"@);
    lemma_differ_span_append(first, second, k, 7, before, (match node.tt_bound { Some(bound) => bound_name(bound), None => "-"@ }));
    first = first + (match node.tt_bound { Some(bound) => bound_name(bound), None => "-"@ });
    second = second + (match node.tt_bound { Some(bound) => bound_name(bound), None => "-"@ });
    lemma_differ_span_append(first, second, k, 7, before, ("</TD></TR>\n            <TR><TD ALIGN=\"LEFT\">Depth</TD><TD ALIGN=\"RIGHT\">"@));
    first = first + ("</TD></TR>\n            <TR><TD ALIGN=\"LEFT\">Depth</TD><TD ALIGN=\"RIGHT\">"@);
    second = second + ("</TD></TR>\n            <TR><TD ALIGN=\"LEFT\">Depth</TD><TD ALIGN=\"RIGHT\">"@);
    lemma_differ_span_append(first, second, k, 7, before, (match node.tt_depth { Some(d) => decimal(d as int), None => "-"@ }));
    first = first + (match node.tt_depth { Some(d) => decimal(d as int), None => "-"@ });
    second = second + (match node.tt_depth { Some(d) => decimal(d as int), None => "-"@ });
    lemma_differ_span_append(first, second, k, 7, before, ("</TD></TR>\n            <TR><TD ALIGN=\"LEFT\">Resolved</TD><TD ALIGN=\"RIGHT\">"@));
    first = first + ("</TD></TR>\n            <TR><TD ALIGN=\"LEFT\">Resolved</TD><TD ALIGN=\"RIGHT\">"@);
    second = second + ("</TD></TR>\n            <TR><TD ALIGN=\"LEFT\">Resolved</TD><TD ALIGN=\"RIGHT\">"@);
    lemma_differ_span_append(first, second, k, 7, before, (if node.resolved_by_tt { "Yes"@ } else { "No"@ }));
    first = first + (if node.resolved_by_tt { "Yes"@ } else { "No"@ });
    second = second + (if node.resolved_by_tt { "Yes"@ } else { "No"@ });
    lemma_differ_span_append(first, second, k, 7, before, ("</TD></TR>\n\n            <TR><TD BORDER=\"0\" COLSPAN=\"2\">&nbsp;</TD></TR>\n\n            <TR><TD BORDER=\"0\" COLSPAN=\"2\">"@));
    first = first + ("</TD></TR>\n\n            <TR><TD BORDER=\"0\" COLSPAN=\"2\">&nbsp;</TD></TR>\n\n            <TR><TD BORDER=\"0\" COLSPAN=\"2\">"@);
    second = second + ("</TD></TR>\n\n            <TR><TD BORDER=\"0\" COLSPAN=\"2\">&nbsp;</TD></TR>\n\n            <TR><TD BORDER=\"0\" COLSPAN=\"2\">"@);
    lemma_differ_span_append(first, second, k, 7, before, (html_lines(node.board@)));
    first = first + (html_lines(node.board@));
    second = second + (html_lines(node.board@));
    lemma_differ_span_append(first, second, k, 7, before, ("</TD></TR>\n\n        </TABLE>\n    </TD></TR>\n</TABLE>\n>"@));
    first = first + ("</TD></TR>\n\n        </TABLE>\n    </TD></TR>\n</TABLE>\n>"@);
    second = second + ("</TD></TR>\n\n        </TABLE>\n    </TD></TR>\n</TABLE>\n>"@);
    lemma_differ_span_append(first, second, k, 7, before, ("\n];\n                \n"@));
    first = first + ("\n];\n                \n"@);
    second = second + ("\n];\n                \n"@);
    lemma_differ_span(first, second, k, 7, before);
    assert(first == node_dot(MinimaxAlphaBetaWithTranspositionTableGraphNode { player: Player::Red, ..node }));
    assert(second == node_dot(MinimaxAlphaBetaWithTranspositionTableGraphNode { player: Player::Yellow, ..node }));
}

} // verus!
