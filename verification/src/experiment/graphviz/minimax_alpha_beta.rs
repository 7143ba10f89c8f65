use vstd::prelude::*;
use vstd::seq_lib::lemma_concat_associative;

use crate::{
    experiment::graphviz::{
        differ_span, lemma_differ_span, lemma_differ_span_append, lemma_differ_span_from, differ_at, lemma_differ_append, lemma_differ_at, lemma_differ_from, append_html_lines, append_isize, append_usize, board_text, decimal, html_lines, to_ascii, GraphvizConfig,
    },
    game::{
        board::{Board, ROWS},
        movement::Movement,
        player::Player,
    },
};

verus! {

/// A searched position as drawn in the tree of a minimax search.
#[derive(Clone)]
pub struct MinimaxAlphaBetaGraphNode {
    pub id: usize,

    pub player: Player,
    pub board: String,
    pub value: Option<isize>,

    pub alpha: isize,
    pub beta: isize,

    pub depth: usize,

    pub pruned: bool,
}

/// A movement from one searched position to another.
#[derive(Clone, Copy)]
pub struct MinimaxAlphaBetaGraphEdge {
    pub from: usize,
    pub to: usize,

    pub movement: Movement,
}

/// The tree that a minimax search with alpha-beta pruning explored.
pub struct MinimaxAlphaBetaGraph {
    pub config: GraphvizConfig,
    pub nodes: Vec<MinimaxAlphaBetaGraphNode>,
    pub edges: Vec<MinimaxAlphaBetaGraphEdge>,
}

impl MinimaxAlphaBetaGraph {
    /// Whether the recorded nodes stay within `max_nodes`, each numbered by
    /// its index.
    pub open spec fn wf(&self) -> bool {
        &&& self.nodes@.len() <= self.config.max_nodes
        &&& forall|i: int| 0 <= i < self.nodes@.len() ==> (#[trigger] self.nodes@[i]).id == i
    }

    /// What one call of a method does to the tree, from `before` to
    /// `after`: the configuration stays, and the nodes are cleared, or one
    /// node numbered by its index is appended below `max_nodes`, or the
    /// nodes keep their number and their ids.
    pub open spec fn step(before: Self, after: Self) -> bool {
        &&& after.config == before.config
        &&& {
            ||| after.nodes@.len() == 0
            ||| {
                &&& before.nodes@.len() < before.config.max_nodes
                &&& after.nodes@.len() == before.nodes@.len() + 1
                &&& after.nodes@.drop_last() == before.nodes@
                &&& after.nodes@.last().id == before.nodes@.len()
            }
            ||| {
                &&& after.nodes@.len() == before.nodes@.len()
                &&& forall|i: int| 0 <= i < before.nodes@.len() ==> (#[trigger] after.nodes@[i]).id == before.nodes@[i].id
            }
        }
    }

    /// Law: over any sequence of calls on a tree that starts well formed
    /// (as `new` makes it), the tree stays well formed: at most `max_nodes`
    /// nodes, each numbered by its index.
    pub proof fn lemma_calls_keep_wf(history: Seq<Self>)
        requires
            history.len() > 0,
            history[0].wf(),
            forall|i: int| 0 <= i < history.len() - 1 ==> Self::step(#[trigger] history[i], history[i + 1]),
        ensures
            forall|i: int| 0 <= i < history.len() ==> (#[trigger] history[i]).wf(),
    {
        assert forall|i: int| 0 <= i < history.len() implies (#[trigger] history[i]).wf() by {
            Self::lemma_wf_at(history, i);
        }
    }

    proof fn lemma_wf_at(history: Seq<Self>, i: int)
        requires
            0 <= i < history.len(),
            history[0].wf(),
            forall|j: int| 0 <= j < history.len() - 1 ==> Self::step(#[trigger] history[j], history[j + 1]),
        ensures
            history[i].wf(),
        decreases i,
    {
        if i > 0 {
            Self::lemma_wf_at(history, i - 1);
            assert(Self::step(history[i - 1], history[i]));
            Self::lemma_step_keeps_wf(history[i - 1], history[i]);
        }
    }

    proof fn lemma_step_keeps_wf(before: Self, after: Self)
        requires
            before.wf(),
            Self::step(before, after),
        ensures
            after.wf(),
    {
        if after.nodes@.len() == before.nodes@.len() + 1 && after.nodes@.drop_last() == before.nodes@ {
            assert forall|i: int| 0 <= i < after.nodes@.len() implies (#[trigger] after.nodes@[i]).id == i by {
                if i < before.nodes@.len() {
                    assert(after.nodes@[i] == after.nodes@.drop_last()[i]);
                }
            }
        }
    }

    /// An empty tree that records at most `max_nodes` nodes, and records
    /// nodes inside the search only when `generate_graph` is set.
    pub fn new(max_nodes: usize, generate_graph: bool) -> (graph: Self)
        ensures
            graph.wf(),
            graph.config.max_nodes == max_nodes,
            graph.config.enabled == generate_graph,
            graph.nodes@.len() == 0,
            graph.edges@.len() == 0,
    {
        Self {
            config: GraphvizConfig { max_nodes, enabled: generate_graph },
            nodes: Vec::new(),
            edges: Vec::new(),
        }
    }

    /// Forgets the nodes; the configuration and the edges stay.
    pub fn clear(&mut self)
        ensures
            Self::step(*old(self), *final(self)),
            old(self).wf() ==> final(self).wf(),
            final(self).nodes@.len() == 0,
            final(self).edges@ == old(self).edges@,
            final(self).config == old(self).config,
    {
        self.nodes.clear();
    }

    /// Records a node for `board` unless `max_nodes` nodes are recorded
    /// already; the new node's id is its index.
    pub fn create_node(&mut self, board: &Board, depth: usize, alpha: isize, beta: isize) -> (id: Option<usize>)
        ensures
            Self::step(*old(self), *final(self)),
            old(self).wf() ==> final(self).wf(),
            final(self).config == old(self).config,
            final(self).edges@ == old(self).edges@,
            old(self).nodes@.len() >= old(self).config.max_nodes ==> id is None && final(self).nodes@
                == old(self).nodes@,
            old(self).nodes@.len() < old(self).config.max_nodes ==> {
                let node = final(self).nodes@.last();
                &&& id == Some(old(self).nodes@.len() as usize)
                &&& final(self).nodes@.len() == old(self).nodes@.len() + 1
                &&& final(self).nodes@.drop_last() == old(self).nodes@
                &&& node.id == old(self).nodes@.len()
                &&& node.player == board.spec_current_player()
                &&& node.board@ == board_text(board.spec_grid(), ROWS as int)
                &&& node.value is None
                &&& node.alpha == alpha
                &&& node.beta == beta
                &&& node.depth == depth
                &&& !node.pruned
            },
    {
        if self.nodes.len() >= self.config.max_nodes {
            return None;
        }

        let id = self.nodes.len();

        self.nodes.push(
            MinimaxAlphaBetaGraphNode {
                id,
                player: board.current_player(),
                board: to_ascii(board),
                value: None,
                depth,
                alpha,
                beta,
                pruned: false,
            },
        );
        proof {
            assert(self.nodes@.drop_last() == old(self).nodes@);
        }

        Some(id)
    }

    /// Records the edge from `parent` to `child` along `movement`.
    pub fn connect(&mut self, parent: usize, child: usize, movement: Movement)
        ensures
            Self::step(*old(self), *final(self)),
            old(self).wf() ==> final(self).wf(),
            final(self).config == old(self).config,
            final(self).nodes@ == old(self).nodes@,
            final(self).edges@ == old(self).edges@.push(
                MinimaxAlphaBetaGraphEdge { from: parent, to: child, movement },
            ),
    {
        self.edges.push(MinimaxAlphaBetaGraphEdge { from: parent, to: child, movement });
    }

    /// Records the value found for node `id`.
    pub fn set_value(&mut self, id: usize, value: isize)
        requires
            id < old(self).nodes@.len(),
        ensures
            Self::step(*old(self), *final(self)),
            old(self).wf() ==> final(self).wf(),
            final(self).config == old(self).config,
            final(self).edges@ == old(self).edges@,
            final(self).nodes@ == old(self).nodes@.update(
                id as int,
                MinimaxAlphaBetaGraphNode { value: Some(value), ..old(self).nodes@[id as int] },
            ),
    {
        self.nodes[id].value = Some(value);
    }

    /// Records that the search of node `id` was cut off.
    pub fn mark_pruned(&mut self, id: usize)
        requires
            id < old(self).nodes@.len(),
        ensures
            Self::step(*old(self), *final(self)),
            old(self).wf() ==> final(self).wf(),
            final(self).config == old(self).config,
            final(self).edges@ == old(self).edges@,
            final(self).nodes@ == old(self).nodes@.update(
                id as int,
                MinimaxAlphaBetaGraphNode { pruned: true, ..old(self).nodes@[id as int] },
            ),
    {
        self.nodes[id].pruned = true;
    }
}

/// The DOT text of one node: its id and an HTML table of what was recorded,
/// with the board's lines broken by `<BR/>`.
pub open spec fn node_dot(node: MinimaxAlphaBetaGraphNode) -> Seq<char> {
    ("\n"@) + (decimal(node.id as int)) + (" [\nlabel="@) + ("<\n<TABLE STYLE=\"ROUNDED\" BORDER=\""@) + (if node.pruned { "8"@ } else { "0"@ }) + ("\" COLOR=\"#5D88F5\" CELLSPACING=\"8\">\n    <TR><TD STYLE=\"ROUNDED\" COLOR=\""@) + (if node.player == Player::Red { "#F5685D"@ } else { "#FFD65B"@ }) + ("\" BORDER=\"4\" CELLPADDING=\"8\">\n        <TABLE STYLE=\"ROUNDED\" COLOR=\"BLACK\" BORDER=\"0\" CELLBORDER=\"1\" CELLSPACING=\"0\" CELLPADDING=\"8\">\n            <TR><TD ALIGN=\"LEFT\"><B>ID</B></TD><TD ALIGN=\"RIGHT\"><B>"@) + (decimal(node.id as int)) + ("</B></TD></TR>\n            <TR><TD ALIGN=\"LEFT\">Depth</TD><TD ALIGN=\"RIGHT\">"@) + (decimal(node.depth as int)) + ("</TD></TR>\n            <TR><TD ALIGN=\"LEFT\">α</TD><TD ALIGN=\"RIGHT\">"@) + (if node.alpha == isize::MIN { "-∞"@ } else { decimal(node.alpha as int) }) + ("</TD></TR>\n            <TR><TD ALIGN=\"LEFT\">β</TD><TD ALIGN=\"RIGHT\">"@) + (if node.beta == isize::MAX { "∞"@ } else { decimal(node.beta as int) }) + ("</TD></TR>\n            <TR><TD ALIGN=\"LEFT\">Value</TD><TD ALIGN=\"RIGHT\"><B>"@) + (match node.value { Some(v) => decimal(v as int), None => "-"@ }) + ("</B></TD></TR>\n            <TR><TD BORDER=\"0\" COLSPAN=\"2\">&nbsp;</TD></TR>\n            <TR><TD BORDER=\"0\" COLSPAN=\"2\">"@) + (html_lines(node.board@)) + ("</TD></TR>\n        </TABLE>\n    </TD></TR>\n</TABLE>\n>"@) + ("\n];\n                \n"@)
}

/// The DOT text of `nodes`, in order.
pub open spec fn nodes_dot(nodes: Seq<MinimaxAlphaBetaGraphNode>) -> Seq<char>
    decreases nodes.len(),
{
    if nodes.len() == 0 {
        Seq::empty()
    } else {
        nodes_dot(nodes.drop_last()) + node_dot(nodes.last())
    }
}

/// The DOT text of one edge, labelled with the column of its movement.
pub open spec fn edge_dot(edge: MinimaxAlphaBetaGraphEdge) -> Seq<char> {
    ("\n"@) + (decimal(edge.from as int)) + (":s -> "@) + (decimal(edge.to as int)) + (":n [headlabel=<\n<TABLE BORDER=\"0\">\n    <TR><TD STYLE=\"ROUNDED\" BORDER=\"1\" CELLPADDING=\"8\" BGCOLOR=\"#edf2fc\">"@) + (decimal(edge.movement.column as int)) + ("</TD></TR>\n    <TR><TD BORDER=\"0\">&nbsp;</TD></TR>\n</TABLE>\n>];\n                \n"@)
}

/// The DOT text of `edges`, in order.
pub open spec fn edges_dot(edges: Seq<MinimaxAlphaBetaGraphEdge>) -> Seq<char>
    decreases edges.len(),
{
    if edges.len() == 0 {
        Seq::empty()
    } else {
        edges_dot(edges.drop_last()) + edge_dot(edges.last())
    }
}

/// The DOT text of a tree: the graph's settings, every node, every edge,
/// and the closing brace.
pub open spec fn dot_text(nodes: Seq<MinimaxAlphaBetaGraphNode>, edges: Seq<MinimaxAlphaBetaGraphEdge>) -> Seq<char> {
    "digraph MinimaxAlphaBeta {\n\nfontname=\"Atkinson Hyperlegible Mono\";\nrankdir=TB;\nsplines=polyline;\nconcentrate=true;\nnodesep=1;\nranksep=4;\n            \n\nnode [\n    fontname=\"Atkinson Hyperlegible Mono\"\n    fontsize=\"32\"\n    shape=none\n    border=0\n];\n\n\nedge [\n    fontname=\"Atkinson Hyperlegible Mono\"\n    fontsize=\"64\"\n    penwidth=2\n    labeldistance=1\n    labelangle=0\n];\n\n"@ + nodes_dot(nodes) + edges_dot(edges) + "}\n"@
}

fn append_node_dot(text: &mut String, node: &MinimaxAlphaBetaGraphNode)
    ensures
        final(text)@ == old(text)@ + node_dot(*node),
{
    let ghost start = text@;
    text.append("\n");
    let ghost mut acc = "\n"@;
    append_usize(text, node.id);
    proof {
        lemma_concat_associative(start, acc, decimal(node.id as int));
        acc = acc + (decimal(node.id as int));
    }
    text.append(" [\nlabel=");
    proof {
        lemma_concat_associative(start, acc, " [\nlabel="@);
        acc = acc + (" [\nlabel="@);
    }
    text.append("<\n<TABLE STYLE=\"ROUNDED\" BORDER=\"");
    proof {
        lemma_concat_associative(start, acc, "<\n<TABLE STYLE=\"ROUNDED\" BORDER=\""@);
        acc = acc + ("<\n<TABLE STYLE=\"ROUNDED\" BORDER=\""@);
    }
    if node.pruned { text.append("8"); } else { text.append("0"); }
    proof {
        lemma_concat_associative(start, acc, if node.pruned { "8"@ } else { "0"@ });
        acc = acc + (if node.pruned { "8"@ } else { "0"@ });
    }
    text.append("\" COLOR=\"#5D88F5\" CELLSPACING=\"8\">\n    <TR><TD STYLE=\"ROUNDED\" COLOR=\"");
    proof {
        lemma_concat_associative(start, acc, "\" COLOR=\"#5D88F5\" CELLSPACING=\"8\">\n    <TR><TD STYLE=\"ROUNDED\" COLOR=\""@);
        acc = acc + ("\" COLOR=\"#5D88F5\" CELLSPACING=\"8\">\n    <TR><TD STYLE=\"ROUNDED\" COLOR=\""@);
    }
    if node.player == Player::Red { text.append("#F5685D"); } else { text.append("#FFD65B"); }
    proof {
        lemma_concat_associative(start, acc, if node.player == Player::Red { "#F5685D"@ } else { "#FFD65B"@ });
        acc = acc + (if node.player == Player::Red { "#F5685D"@ } else { "#FFD65B"@ });
    }
    text.append("\" BORDER=\"4\" CELLPADDING=\"8\">\n        <TABLE STYLE=\"ROUNDED\" COLOR=\"BLACK\" BORDER=\"0\" CELLBORDER=\"1\" CELLSPACING=\"0\" CELLPADDING=\"8\">\n            <TR><TD ALIGN=\"LEFT\"><B>ID</B></TD><TD ALIGN=\"RIGHT\"><B>");
    proof {
        lemma_concat_associative(start, acc, "\" BORDER=\"4\" CELLPADDING=\"8\">\n        <TABLE STYLE=\"ROUNDED\" COLOR=\"BLACK\" BORDER=\"0\" CELLBORDER=\"1\" CELLSPACING=\"0\" CELLPADDING=\"8\">\n            <TR><TD ALIGN=\"LEFT\"><B>ID</B></TD><TD ALIGN=\"RIGHT\"><B>"@);
        acc = acc + ("\" BORDER=\"4\" CELLPADDING=\"8\">\n        <TABLE STYLE=\"ROUNDED\" COLOR=\"BLACK\" BORDER=\"0\" CELLBORDER=\"1\" CELLSPACING=\"0\" CELLPADDING=\"8\">\n            <TR><TD ALIGN=\"LEFT\"><B>ID</B></TD><TD ALIGN=\"RIGHT\"><B>"@);
    }
    append_usize(text, node.id);
    proof {
        lemma_concat_associative(start, acc, decimal(node.id as int));
        acc = acc + (decimal(node.id as int));
    }
    text.append("</B></TD></TR>\n            <TR><TD ALIGN=\"LEFT\">Depth</TD><TD ALIGN=\"RIGHT\">");
    proof {
        lemma_concat_associative(start, acc, "</B></TD></TR>\n            <TR><TD ALIGN=\"LEFT\">Depth</TD><TD ALIGN=\"RIGHT\">"@);
        acc = acc + ("</B></TD></TR>\n            <TR><TD ALIGN=\"LEFT\">Depth</TD><TD ALIGN=\"RIGHT\">"@);
    }
    append_usize(text, node.depth);
    proof {
        lemma_concat_associative(start, acc, decimal(node.depth as int));
        acc = acc + (decimal(node.depth as int));
    }
    text.append("</TD></TR>\n            <TR><TD ALIGN=\"LEFT\">α</TD><TD ALIGN=\"RIGHT\">");
    proof {
        lemma_concat_associative(start, acc, "</TD></TR>\n            <TR><TD ALIGN=\"LEFT\">α</TD><TD ALIGN=\"RIGHT\">"@);
        acc = acc + ("</TD></TR>\n            <TR><TD ALIGN=\"LEFT\">α</TD><TD ALIGN=\"RIGHT\">"@);
    }
    if node.alpha == isize::MIN { text.append("-∞"); } else { append_isize(text, node.alpha); }
    proof {
        lemma_concat_associative(start, acc, if node.alpha == isize::MIN { "-∞"@ } else { decimal(node.alpha as int) });
        acc = acc + (if node.alpha == isize::MIN { "-∞"@ } else { decimal(node.alpha as int) });
    }
    text.append("</TD></TR>\n            <TR><TD ALIGN=\"LEFT\">β</TD><TD ALIGN=\"RIGHT\">");
    proof {
        lemma_concat_associative(start, acc, "</TD></TR>\n            <TR><TD ALIGN=\"LEFT\">β</TD><TD ALIGN=\"RIGHT\">"@);
        acc = acc + ("</TD></TR>\n            <TR><TD ALIGN=\"LEFT\">β</TD><TD ALIGN=\"RIGHT\">"@);
    }
    if node.beta == isize::MAX { text.append("∞"); } else { append_isize(text, node.beta); }
    proof {
        lemma_concat_associative(start, acc, if node.beta == isize::MAX { "∞"@ } else { decimal(node.beta as int) });
        acc = acc + (if node.beta == isize::MAX { "∞"@ } else { decimal(node.beta as int) });
    }
    text.append("</TD></TR>\n            <TR><TD ALIGN=\"LEFT\">Value</TD><TD ALIGN=\"RIGHT\"><B>");
    proof {
        lemma_concat_associative(start, acc, "</TD></TR>\n            <TR><TD ALIGN=\"LEFT\">Value</TD><TD ALIGN=\"RIGHT\"><B>"@);
        acc = acc + ("</TD></TR>\n            <TR><TD ALIGN=\"LEFT\">Value</TD><TD ALIGN=\"RIGHT\"><B>"@);
    }
    match node.value { Some(v) => append_isize(text, v), None => text.append("-"), }
    proof {
        lemma_concat_associative(start, acc, match node.value { Some(v) => decimal(v as int), None => "-"@ });
        acc = acc + (match node.value { Some(v) => decimal(v as int), None => "-"@ });
    }
    text.append("</B></TD></TR>\n            <TR><TD BORDER=\"0\" COLSPAN=\"2\">&nbsp;</TD></TR>\n            <TR><TD BORDER=\"0\" COLSPAN=\"2\">");
    proof {
        lemma_concat_associative(start, acc, "</B></TD></TR>\n            <TR><TD BORDER=\"0\" COLSPAN=\"2\">&nbsp;</TD></TR>\n            <TR><TD BORDER=\"0\" COLSPAN=\"2\">"@);
        acc = acc + ("</B></TD></TR>\n            <TR><TD BORDER=\"0\" COLSPAN=\"2\">&nbsp;</TD></TR>\n            <TR><TD BORDER=\"0\" COLSPAN=\"2\">"@);
    }
    append_html_lines(text, node.board.as_str());
    proof {
        lemma_concat_associative(start, acc, html_lines(node.board@));
        acc = acc + (html_lines(node.board@));
    }
    text.append("</TD></TR>\n        </TABLE>\n    </TD></TR>\n</TABLE>\n>");
    proof {
        lemma_concat_associative(start, acc, "</TD></TR>\n        </TABLE>\n    </TD></TR>\n</TABLE>\n>"@);
        acc = acc + ("</TD></TR>\n        </TABLE>\n    </TD></TR>\n</TABLE>\n>"@);
    }
    text.append("\n];\n                \n");
    proof {
        lemma_concat_associative(start, acc, "\n];\n                \n"@);
        acc = acc + ("\n];\n                \n"@);
    }
    proof {
        assert(acc == node_dot(*node));
    }
}

fn append_edge_dot(text: &mut String, edge: &MinimaxAlphaBetaGraphEdge)
    ensures
        final(text)@ == old(text)@ + edge_dot(*edge),
{
    let ghost start = text@;
    text.append("\n");
    let ghost mut acc = "\n"@;
    append_usize(text, edge.from);
    proof {
        lemma_concat_associative(start, acc, decimal(edge.from as int));
        acc = acc + (decimal(edge.from as int));
    }
    text.append(":s -> ");
    proof {
        lemma_concat_associative(start, acc, ":s -> "@);
        acc = acc + (":s -> "@);
    }
    append_usize(text, edge.to);
    proof {
        lemma_concat_associative(start, acc, decimal(edge.to as int));
        acc = acc + (decimal(edge.to as int));
    }
    text.append(":n [headlabel=<\n<TABLE BORDER=\"0\">\n    <TR><TD STYLE=\"ROUNDED\" BORDER=\"1\" CELLPADDING=\"8\" BGCOLOR=\"#edf2fc\">");
    proof {
        lemma_concat_associative(start, acc, ":n [headlabel=<\n<TABLE BORDER=\"0\">\n    <TR><TD STYLE=\"ROUNDED\" BORDER=\"1\" CELLPADDING=\"8\" BGCOLOR=\"#edf2fc\">"@);
        acc = acc + (":n [headlabel=<\n<TABLE BORDER=\"0\">\n    <TR><TD STYLE=\"ROUNDED\" BORDER=\"1\" CELLPADDING=\"8\" BGCOLOR=\"#edf2fc\">"@);
    }
    append_usize(text, edge.movement.column);
    proof {
        lemma_concat_associative(start, acc, decimal(edge.movement.column as int));
        acc = acc + (decimal(edge.movement.column as int));
    }
    text.append("</TD></TR>\n    <TR><TD BORDER=\"0\">&nbsp;</TD></TR>\n</TABLE>\n>];\n                \n");
    proof {
        lemma_concat_associative(start, acc, "</TD></TR>\n    <TR><TD BORDER=\"0\">&nbsp;</TD></TR>\n</TABLE>\n>];\n                \n"@);
        acc = acc + ("</TD></TR>\n    <TR><TD BORDER=\"0\">&nbsp;</TD></TR>\n</TABLE>\n>];\n                \n"@);
    }
    proof {
        assert(acc == edge_dot(*edge));
    }
}

impl MinimaxAlphaBetaGraph {
    /// The tree as Graphviz DOT text (see `dot_text`).
    pub fn dot_source(&self) -> (text: String)
        ensures
            text@ == dot_text(self.nodes@, self.edges@),
    {
        let mut text = String::new();
        text.append("digraph MinimaxAlphaBeta {\n\nfontname=\"Atkinson Hyperlegible Mono\";\nrankdir=TB;\nsplines=polyline;\nconcentrate=true;\nnodesep=1;\nranksep=4;\n            \n\nnode [\n    fontname=\"Atkinson Hyperlegible Mono\"\n    fontsize=\"32\"\n    shape=none\n    border=0\n];\n\n\nedge [\n    fontname=\"Atkinson Hyperlegible Mono\"\n    fontsize=\"64\"\n    penwidth=2\n    labeldistance=1\n    labelangle=0\n];\n\n");

        let mut i: usize = 0;
        while i < self.nodes.len()
            invariant
                i <= self.nodes@.len(),
                text@ == "digraph MinimaxAlphaBeta {\n\nfontname=\"Atkinson Hyperlegible Mono\";\nrankdir=TB;\nsplines=polyline;\nconcentrate=true;\nnodesep=1;\nranksep=4;\n            \n\nnode [\n    fontname=\"Atkinson Hyperlegible Mono\"\n    fontsize=\"32\"\n    shape=none\n    border=0\n];\n\n\nedge [\n    fontname=\"Atkinson Hyperlegible Mono\"\n    fontsize=\"64\"\n    penwidth=2\n    labeldistance=1\n    labelangle=0\n];\n\n"@ + nodes_dot(self.nodes@.subrange(0, i as int)),
            decreases self.nodes@.len() - i,
        {
            append_node_dot(&mut text, &self.nodes[i]);
            proof {
                assert(self.nodes@.subrange(0, i + 1).drop_last() =~= self.nodes@.subrange(0, i as int));
            }
            i += 1;
        }
        proof {
            assert(self.nodes@.subrange(0, self.nodes@.len() as int) =~= self.nodes@);
        }

        let ghost with_nodes = text@;
        let mut j: usize = 0;
        while j < self.edges.len()
            invariant
                j <= self.edges@.len(),
                text@ == with_nodes + edges_dot(self.edges@.subrange(0, j as int)),
            decreases self.edges@.len() - j,
        {
            append_edge_dot(&mut text, &self.edges[j]);
            proof {
                assert(self.edges@.subrange(0, j + 1).drop_last() =~= self.edges@.subrange(0, j as int));
            }
            j += 1;
        }
        proof {
            assert(self.edges@.subrange(0, self.edges@.len() as int) =~= self.edges@);
        }

        text.append("}\n");
        proof {
            assert(text@ =~= dot_text(self.nodes@, self.edges@));
        }
        text
    }
}

/// Law: marking a node pruned changes its DOT text in one place only: the border
/// of its outer table, written right after `BORDER="`, goes from `0` to `8`.
pub proof fn lemma_pruned_border(node: MinimaxAlphaBetaGraphNode)
    ensures
        ({
            let marked = node_dot(MinimaxAlphaBetaGraphNode { pruned: true, ..node });
            let unmarked = node_dot(MinimaxAlphaBetaGraphNode { pruned: false, ..node });
            &&& marked.len() == unmarked.len()
            &&& exists|k: int|
                8 <= k < marked.len() && marked[k] == '8' && unmarked[k] == '0' && marked.subrange(k - 8, k) == seq![
                    'B',
                    'O',
                    'R',
                    'D',
                    'E',
                    'R',
                    '=',
                    '"',
                ] && forall|j: int| 0 <= j < marked.len() && j != k ==> marked[j] == unmarked[j]
        }),
{
    reveal_strlit("<\n<TABLE STYLE=\"ROUNDED\" BORDER=\"");
    reveal_strlit("8");
    reveal_strlit("0");
    let prefix = ("\n"@) + (decimal(node.id as int)) + (" [\nlabel="@) + ("<\n<TABLE STYLE=\"ROUNDED\" BORDER=\""@);
    let k = prefix.len() as int;
    let mut marked = prefix + "8"@;
    let mut unmarked = prefix + "0"@;
    assert(marked.subrange(k - 8, k) =~= seq!['B', 'O', 'R', 'D', 'E', 'R', '=', '"']);
    assert(marked[k] == '8' && unmarked[k] == '0');
    assert(forall|j: int| 0 <= j < marked.len() && j != k ==> marked[j] == unmarked[j]);
    lemma_differ_from(marked, unmarked, k);
    lemma_differ_append(marked, unmarked, k, ("\" COLOR=\"#5D88F5\" CELLSPACING=\"8\">\n    <TR><TD STYLE=\"ROUNDED\" COLOR=\""@));
    marked = marked + ("\" COLOR=\"#5D88F5\" CELLSPACING=\"8\">\n    <TR><TD STYLE=\"ROUNDED\" COLOR=\""@);
    unmarked = unmarked + ("\" COLOR=\"#5D88F5\" CELLSPACING=\"8\">\n    <TR><TD STYLE=\"ROUNDED\" COLOR=\""@);
    lemma_differ_append(marked, unmarked, k, (if node.player == Player::Red { "#F5685D"@ } else { "#FFD65B"@ }));
    marked = marked + (if node.player == Player::Red { "#F5685D"@ } else { "#FFD65B"@ });
    unmarked = unmarked + (if node.player == Player::Red { "#F5685D"@ } else { "#FFD65B"@ });
    lemma_differ_append(marked, unmarked, k, ("\" BORDER=\"4\" CELLPADDING=\"8\">\n        <TABLE STYLE=\"ROUNDED\" COLOR=\"BLACK\" BORDER=\"0\" CELLBORDER=\"1\" CELLSPACING=\"0\" CELLPADDING=\"8\">\n            <TR><TD ALIGN=\"LEFT\"><B>ID</B></TD><TD ALIGN=\"RIGHT\"><B>"@));
    marked = marked + ("\" BORDER=\"4\" CELLPADDING=\"8\">\n        <TABLE STYLE=\"ROUNDED\" COLOR=\"BLACK\" BORDER=\"0\" CELLBORDER=\"1\" CELLSPACING=\"0\" CELLPADDING=\"8\">\n            <TR><TD ALIGN=\"LEFT\"><B>ID</B></TD><TD ALIGN=\"RIGHT\"><B>"@);
    unmarked = unmarked + ("\" BORDER=\"4\" CELLPADDING=\"8\">\n        <TABLE STYLE=\"ROUNDED\" COLOR=\"BLACK\" BORDER=\"0\" CELLBORDER=\"1\" CELLSPACING=\"0\" CELLPADDING=\"8\">\n            <TR><TD ALIGN=\"LEFT\"><B>ID</B></TD><TD ALIGN=\"RIGHT\"><B>"@);
    lemma_differ_append(marked, unmarked, k, (decimal(node.id as int)));
    marked = marked + (decimal(node.id as int));
    unmarked = unmarked + (decimal(node.id as int));
    lemma_differ_append(marked, unmarked, k, ("</B></TD></TR>\n            <TR><TD ALIGN=\"LEFT\">Depth</TD><TD ALIGN=\"RIGHT\">"@));
    marked = marked + ("</B></TD></TR>\n            <TR><TD ALIGN=\"LEFT\">Depth</TD><TD ALIGN=\"RIGHT\">"@);
    unmarked = unmarked + ("</B></TD></TR>\n            <TR><TD ALIGN=\"LEFT\">Depth</TD><TD ALIGN=\"RIGHT\">"@);
    lemma_differ_append(marked, unmarked, k, (decimal(node.depth as int)));
    marked = marked + (decimal(node.depth as int));
    unmarked = unmarked + (decimal(node.depth as int));
    lemma_differ_append(marked, unmarked, k, ("</TD></TR>\n            <TR><TD ALIGN=\"LEFT\">α</TD><TD ALIGN=\"RIGHT\">"@));
    marked = marked + ("</TD></TR>\n            <TR><TD ALIGN=\"LEFT\">α</TD><TD ALIGN=\"RIGHT\">"@);
    unmarked = unmarked + ("</TD></TR>\n            <TR><TD ALIGN=\"LEFT\">α</TD><TD ALIGN=\"RIGHT\">"@);
    lemma_differ_append(marked, unmarked, k, (if node.alpha == isize::MIN { "-∞"@ } else { decimal(node.alpha as int) }));
    marked = marked + (if node.alpha == isize::MIN { "-∞"@ } else { decimal(node.alpha as int) });
    unmarked = unmarked + (if node.alpha == isize::MIN { "-∞"@ } else { decimal(node.alpha as int) });
    lemma_differ_append(marked, unmarked, k, ("</TD></TR>\n            <TR><TD ALIGN=\"LEFT\">β</TD><TD ALIGN=\"RIGHT\">"@));
    marked = marked + ("</TD></TR>\n            <TR><TD ALIGN=\"LEFT\">β</TD><TD ALIGN=\"RIGHT\">"@);
    unmarked = unmarked + ("</TD></TR>\n            <TR><TD ALIGN=\"LEFT\">β</TD><TD ALIGN=\"RIGHT\">"@);
    lemma_differ_append(marked, unmarked, k, (if node.beta == isize::MAX { "∞"@ } else { decimal(node.beta as int) }));
    marked = marked + (if node.beta == isize::MAX { "∞"@ } else { decimal(node.beta as int) });
    unmarked = unmarked + (if node.beta == isize::MAX { "∞"@ } else { decimal(node.beta as int) });
    lemma_differ_append(marked, unmarked, k, ("</TD></TR>\n            <TR><TD ALIGN=\"LEFT\">Value</TD><TD ALIGN=\"RIGHT\"><B>"@));
    marked = marked + ("</TD></TR>\n            <TR><TD ALIGN=\"LEFT\">Value</TD><TD ALIGN=\"RIGHT\"><B>"@);
    unmarked = unmarked + ("</TD></TR>\n            <TR><TD ALIGN=\"LEFT\">Value</TD><TD ALIGN=\"RIGHT\"><B>"@);
    lemma_differ_append(marked, unmarked, k, (match node.value { Some(v) => decimal(v as int), None => "-"@ }));
    marked = marked + (match node.value { Some(v) => decimal(v as int), None => "-"@ });
    unmarked = unmarked + (match node.value { Some(v) => decimal(v as int), None => "-"@ });
    lemma_differ_append(marked, unmarked, k, ("</B></TD></TR>\n            <TR><TD BORDER=\"0\" COLSPAN=\"2\">&nbsp;</TD></TR>\n            <TR><TD BORDER=\"0\" COLSPAN=\"2\">"@));
    marked = marked + ("</B></TD></TR>\n            <TR><TD BORDER=\"0\" COLSPAN=\"2\">&nbsp;</TD></TR>\n            <TR><TD BORDER=\"0\" COLSPAN=\"2\">"@);
    unmarked = unmarked + ("</B></TD></TR>\n            <TR><TD BORDER=\"0\" COLSPAN=\"2\">&nbsp;</TD></TR>\n            <TR><TD BORDER=\"0\" COLSPAN=\"2\">"@);
    lemma_differ_append(marked, unmarked, k, (html_lines(node.board@)));
    marked = marked + (html_lines(node.board@));
    unmarked = unmarked + (html_lines(node.board@));
    lemma_differ_append(marked, unmarked, k, ("</TD></TR>\n        </TABLE>\n    </TD></TR>\n</TABLE>\n>"@));
    marked = marked + ("</TD></TR>\n        </TABLE>\n    </TD></TR>\n</TABLE>\n>"@);
    unmarked = unmarked + ("</TD></TR>\n        </TABLE>\n    </TD></TR>\n</TABLE>\n>"@);
    lemma_differ_append(marked, unmarked, k, ("\n];\n                \n"@));
    marked = marked + ("\n];\n                \n"@);
    unmarked = unmarked + ("\n];\n                \n"@);
    lemma_differ_at(marked, unmarked, k);
    assert(marked == node_dot(MinimaxAlphaBetaGraphNode { pruned: true, ..node }));
    assert(unmarked == node_dot(MinimaxAlphaBetaGraphNode { pruned: false, ..node }));
}

/// Law: the side of a node is drawn as the colour of its inner border: making
/// the node Yellow's instead of Red's changes its DOT text in one span only,
/// right after `COLOR="`, from `#F5685D` to `#FFD65B`.
#[verifier::rlimit(60)]
#[verifier::spinoff_prover]
pub proof fn lemma_player_colour(node: MinimaxAlphaBetaGraphNode)
    ensures
        ({
            let first = node_dot(MinimaxAlphaBetaGraphNode { player: Player::Red, ..node });
            let second = node_dot(MinimaxAlphaBetaGraphNode { player: Player::Yellow, ..node });
            &&& first.len() == second.len()
            &&& exists|k: int| #![trigger first.subrange(k, k + 7)]
                7 <= k && k + 7 <= first.len() && first.subrange(k - 7, k) == seq!['C', 'O', 'L', 'O', 'R', '=', '"'] && first.subrange(k, k + 7)
                    == seq!['#', 'F', '5', '6', '8', '5', 'D'] && second.subrange(k, k + 7) == seq!['#', 'F', 'F', 'D', '6', '5', 'B'] && forall|j: int|
                    0 <= j < first.len() && !(k <= j < k + 7) ==> first[j] == second[j]
        }),
{
    reveal_strlit("\" COLOR=\"#5D88F5\" CELLSPACING=\"8\">\n    <TR><TD STYLE=\"ROUNDED\" COLOR=\"");
    reveal_strlit("#F5685D");
    reveal_strlit("#FFD65B");
    let before = seq!['C', 'O', 'L', 'O', 'R', '=', '"'];
    let prefix = ("\n"@) + (decimal(node.id as int)) + (" [\nlabel="@) + ("<\n<TABLE STYLE=\"ROUNDED\" BORDER=\""@) + (if node.pruned { "8"@ } else { "0"@ }) + ("\" COLOR=\"#5D88F5\" CELLSPACING=\"8\">\n    <TR><TD STYLE=\"ROUNDED\" COLOR=\""@);
    let k = prefix.len() as int;
    let mut first = prefix + "#F5685D"@;
    let mut second = prefix + "#FFD65B"@;
    assert(first.subrange(k - 7, k) =~= before);
    assert(first.subrange(k, k + 7) =~= seq!['#', 'F', '5', '6', '8', '5', 'D']);
    assert(second.subrange(k, k + 7) =~= seq!['#', 'F', 'F', 'D', '6', '5', 'B']);
    assert(forall|j: int| 0 <= j < first.len() && !(k <= j < k + 7) ==> first[j] == second[j]);
    lemma_differ_span_from(first, second, k, 7, before);
    lemma_differ_span_append(first, second, k, 7, before, ("\" BORDER=\"4\" CELLPADDING=\"8\">\n        <TABLE STYLE=\"ROUNDED\" COLOR=\"BLACK\" BORDER=\"0\" CELLBORDER=\"1\" CELLSPACING=\"0\" CELLPADDING=\"8\">\n            <TR><TD ALIGN=\"LEFT\"><B>ID</B></TD><TD ALIGN=\"RIGHT\"><B>"@));
    first = first + ("\" BORDER=\"4\" CELLPADDING=\"8\">\n        <TABLE STYLE=\"ROUNDED\" COLOR=\"BLACK\" BORDER=\"0\" CELLBORDER=\"1\" CELLSPACING=\"0\" CELLPADDING=\"8\">\n            <TR><TD ALIGN=\"LEFT\"><B>ID</B></TD><TD ALIGN=\"RIGHT\"><B>"@);
    second = second + ("\" BORDER=\"4\" CELLPADDING=\"8\">\n        <TABLE STYLE=\"ROUNDED\" COLOR=\"BLACK\" BORDER=\"0\" CELLBORDER=\"1\" CELLSPACING=\"0\" CELLPADDING=\"8\">\n            <TR><TD ALIGN=\"LEFT\"><B>ID</B></TD><TD ALIGN=\"RIGHT\"><B>"@);
    lemma_differ_span_append(first, second, k, 7, before, (decimal(node.id as int)));
    first = first + (decimal(node.id as int));
    second = second + (decimal(node.id as int));
    lemma_differ_span_append(first, second, k, 7, before, ("</B></TD></TR>\n            <TR><TD ALIGN=\"LEFT\">Depth</TD><TD ALIGN=\"RIGHT\">"@));
    first = first + ("</B></TD></TR>\n            <TR><TD ALIGN=\"LEFT\">Depth</TD><TD ALIGN=\"RIGHT\">"@);
    second = second + ("</B></TD></TR>\n            <TR><TD ALIGN=\"LEFT\">Depth</TD><TD ALIGN=\"RIGHT\">"@);
    lemma_differ_span_append(first, second, k, 7, before, (decimal(node.depth as int)));
    first = first + (decimal(node.depth as int));
    second = second + (decimal(node.depth as int));
    lemma_differ_span_append(first, second, k, 7, before, ("</TD></TR>\n            <TR><TD ALIGN=\"LEFT\">α</TD><TD ALIGN=\"RIGHT\">"@));
    first = first + ("</TD></TR>\n            <TR><TD ALIGN=\"LEFT\">α</TD><TD ALIGN=\"RIGHT\">"@);
    second = second + ("</TD></TR>\n            <TR><TD ALIGN=\"LEFT\">α</TD><TD ALIGN=\"RIGHT\">"@);
    lemma_differ_span_append(first, second, k, 7, before, (if node.alpha == isize::MIN { "-∞"@ } else { decimal(node.alpha as int) }));
    first = first + (if node.alpha == isize::MIN { "-∞"@ } else { decimal(node.alpha as int) });
    second = second + (if node.alpha == isize::MIN { "-∞"@ } else { decimal(node.alpha as int) });
    lemma_differ_span_append(first, second, k, 7, before, ("</TD></TR>\n            <TR><TD ALIGN=\"LEFT\">β</TD><TD ALIGN=\"RIGHT\">"@));
    first = first + ("</TD></TR>\n            <TR><TD ALIGN=\"LEFT\">β</TD><TD ALIGN=\"RIGHT\">"@);
    second = second + ("</TD></TR>\n            <TR><TD ALIGN=\"LEFT\">β</TD><TD ALIGN=\"RIGHT\">"@);
    lemma_differ_span_append(first, second, k, 7, before, (if node.beta == isize::MAX { "∞"@ } else { decimal(node.beta as int) }));
    first = first + (if node.beta == isize::MAX { "∞"@ } else { decimal(node.beta as int) });
    second = second + (if node.beta == isize::MAX { "∞"@ } else { decimal(node.beta as int) });
    lemma_differ_span_append(first, second, k, 7, before, ("</TD></TR>\n            <TR><TD ALIGN=\"LEFT\">Value</TD><TD ALIGN=\"RIGHT\"><B>"@));
    first = first + ("</TD></TR>\n            <TR><TD ALIGN=\"LEFT\">Value</TD><TD ALIGN=\"RIGHT\"><B>"@);
    second = second + ("</TD></TR>\n            <TR><TD ALIGN=\"LEFT\">Value</TD><TD ALIGN=\"RIGHT\"><B>"@);
    lemma_differ_span_append(first, second, k, 7, before, (match node.value { Some(v) => decimal(v as int), None => "-"@ }));
    first = first + (match node.value { Some(v) => decimal(v as int), None => "-"@ });
    second = second + (match node.value { Some(v) => decimal(v as int), None => "-"@ });
    lemma_differ_span_append(first, second, k, 7, before, ("</B></TD></TR>\n            <TR><TD BORDER=\"0\" COLSPAN=\"2\">&nbsp;</TD></TR>\n            <TR><TD BORDER=\"0\" COLSPAN=\"2\">"@));
    first = first + ("</B></TD></TR>\n            <TR><TD BORDER=\"0\" COLSPAN=\"2\">&nbsp;</TD></TR>\n            <TR><TD BORDER=\"0\" COLSPAN=\"2\">"@);
    second = second + ("</B></TD></TR>\n            <TR><TD BORDER=\"0\" COLSPAN=\"2\">&nbsp;</TD></TR>\n            <TR><TD BORDER=\"0\" COLSPAN=\"2\">"@);
    lemma_differ_span_append(first, second, k, 7, before, (html_lines(node.board@)));
    first = first + (html_lines(node.board@));
    second = second + (html_lines(node.board@));
    lemma_differ_span_append(first, second, k, 7, before, ("</TD></TR>\n        </TABLE>\n    </TD></TR>\n</TABLE>\n>"@));
    first = first + ("</TD></TR>\n        </TABLE>\n    </TD></TR>\n</TABLE>\n>"@);
    second = second + ("</TD></TR>\n        </TABLE>\n    </TD></TR>\n</TABLE>\n>"@);
    lemma_differ_span_append(first, second, k, 7, before, ("\n];\n                \n"@));
    first = first + ("\n];\n                \n"@);
    second = second + ("\n];\n                \n"@);
    lemma_differ_span(first, second, k, 7, before);
    assert(first == node_dot(MinimaxAlphaBetaGraphNode { player: Player::Red, ..node }));
    assert(second == node_dot(MinimaxAlphaBetaGraphNode { player: Player::Yellow, ..node }));
}

} // verus!
