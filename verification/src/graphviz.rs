//! Drawing the graph and its materializations in the dot language of Graphviz.

use crate::graph::{DataflowGraph, GraphView};
use crate::index::NodeIndex;
use crate::node::{DomainIndex, Node};
use crate::plan::MaterializationStatus;
use crate::search::{explore, flagged, reaches};
use crate::state::{Materializations, State};
use crate::topology::Direction;
use vstd::prelude::*;
use vstd::string::StringExecFns;

verus! {

broadcast use vstd::std_specs::hash::group_hash_axioms;

/// What a character is written as in a label: `<` and `>`, which would
/// open and close a port, get a backslash before them.
pub open spec fn escaped_char(c: char) -> Seq<char> {
    if c == '<' || c == '>' {
        seq!['\\', c]
    } else {
        seq![c]
    }
}

/// The text with a backslash put before each `<` and each `>`.
pub open spec fn sanitized(text: Seq<char>) -> Seq<char>
    decreases text.len(),
{
    if text.len() == 0 {
        Seq::empty()
    } else {
        sanitized(text.drop_last()) + escaped_char(text.last())
    }
}

/// `Regex::new` and `Regex::replace_all` of the regex crate: the text with
/// every match of the pattern replaced, or nothing where the pattern is
/// refused. The pattern `([<>])` is accepted and matches every single `<`
/// and `>`, as its first group; the replacement `\$1` stands for a backslash
/// and that group. So with these two the result is the text with a
/// backslash before each `<` and `>`. Of other patterns nothing is stated.
#[verifier::external_body]
fn regex_replace_all(pattern: &str, text: &str, replacement: &str) -> (r: Option<String>)
    ensures
        pattern@ == "([<>])"@ && replacement@ == "\\$1"@ ==> r is Some && r->0@ == sanitized(
            text@,
        ),
{
    match regex::Regex::new(pattern) {
        Ok(re) => Some(re.replace_all(text, replacement).into_owned()),
        Err(_) => None,
    }
}

/// Puts a backslash before each `<` and each `>`, which would otherwise
/// open and close a port in a label.
pub fn sanitize(s: &str) -> (r: String)
    ensures
        r@ == sanitized(s@),
{
    match regex_replace_all("([<>])", s, "\\$1") {
        Some(t) => t,
        None => String::from_str(s),
    }
}

/// The character of a decimal digit.
pub open spec fn digit_text(d: nat) -> Seq<char> {
    if d == 0 {
        "0"@
    } else if d == 1 {
        "1"@
    } else if d == 2 {
        "2"@
    } else if d == 3 {
        "3"@
    } else if d == 4 {
        "4"@
    } else if d == 5 {
        "5"@
    } else if d == 6 {
        "6"@
    } else if d == 7 {
        "7"@
    } else if d == 8 {
        "8"@
    } else {
        "9"@
    }
}

/// The number in decimal digits.
pub open spec fn decimal(n: nat) -> Seq<char>
    decreases n,
{
    if n < 10 {
        digit_text(n)
    } else {
        decimal(n / 10) + digit_text(n % 10)
    }
}

/// The text of a decimal digit.
pub fn digit_string(d: usize) -> (r: &'static str)
    requires
        d < 10,
    ensures
        r@ == digit_text(d as nat),
{
    if d == 0 {
        "0"
    } else if d == 1 {
        "1"
    } else if d == 2 {
        "2"
    } else if d == 3 {
        "3"
    } else if d == 4 {
        "4"
    } else if d == 5 {
        "5"
    } else if d == 6 {
        "6"
    } else if d == 7 {
        "7"
    } else if d == 8 {
        "8"
    } else {
        "9"
    }
}

/// The number in decimal digits.
pub fn decimal_string(n: usize) -> (r: String)
    ensures
        r@ == decimal(n as nat),
    decreases n,
{
    if n < 10 {
        String::from_str(digit_string(n))
    } else {
        let mut s = decimal_string(n / 10);
        s.append(digit_string(n % 10));
        s
    }
}

/// How a node is materialized, in words.
pub open spec fn status_text(status: MaterializationStatus) -> Seq<char> {
    match status {
        MaterializationStatus::Not => "not materialized"@,
        MaterializationStatus::Partial { beyond_materialization_frontier } =>
            if beyond_materialization_frontier {
                "partial, beyond frontier"@
            } else {
                "partial"@
            },
        MaterializationStatus::Full => "full"@,
    }
}

/// The size known for node `v`, if one is.
pub open spec fn size_of(sizes: Map<NodeIndex, usize>, v: NodeIndex) -> Option<usize> {
    if sizes.contains_key(v) {
        Some(sizes[v])
    } else {
        None
    }
}

/// The position at or after `k` of the first domain that lists node `v`, if one does.
pub open spec fn listing(domains: Seq<(DomainIndex, Vec<NodeIndex>)>, v: NodeIndex, k: int)
    -> Option<int>
    decreases domains.len() - k,
{
    if k < 0 || k >= domains.len() {
        None
    } else if domains[k].1@.contains(v) {
        Some(k)
    } else {
        listing(domains, v, k + 1)
    }
}

/// What is drawn, and how.
pub ghost struct Diagram {
    pub g: GraphView,
    pub s: State,
    /// Whether each node is drawn with all that is known of it.
    pub detailed: bool,
    pub sizes: Map<NodeIndex, usize>,
    /// The domains, each with the nodes it owns.
    pub domains: Seq<(DomainIndex, Vec<NodeIndex>)>,
    /// For each node, whether it is drawn.
    pub drawn: Seq<bool>,
}

/// The attributes of node `v`, label first.
pub open spec fn describe(d: Diagram, v: NodeIndex) -> Seq<char> {
    let n = d.g.nodes[v as int];
    if !d.detailed {
        " [label=\""@ + n.name@ + "\"]\n"@
    } else {
        let size = match size_of(d.sizes, v) {
            Some(bytes) => " | size "@ + decimal(bytes as nat),
            None => Seq::empty(),
        };
        " [label=\""@ + n.name@ + " | "@ + n.description@ + " | "@ + status_text(
            d.s.status(v, n),
        ) + size + "\"]\n"@
    }
}

/// The line that draws node `v`.
pub open spec fn node_text(d: Diagram, v: NodeIndex) -> Seq<char> {
    "    n"@ + decimal(v as nat) + sanitized(describe(d, v))
}

/// The text after the lines of the drawn nodes from `v` on that belong to
/// the group: to the domain at the given position, or to no domain.
pub open spec fn group_text(d: Diagram, group: Option<int>, v: int, acc: Seq<char>) -> Seq<char>
    decreases d.g.nodes.len() - v,
{
    if v < 0 || v >= d.g.nodes.len() {
        acc
    } else if flagged(d.drawn, v as usize) && listing(d.domains, v as usize, 0) == group {
        group_text(d, group, v + 1, acc + node_text(d, v as usize))
    } else {
        group_text(d, group, v + 1, acc)
    }
}

/// The start of the cluster of a domain.
pub open spec fn cluster_open(domain: DomainIndex) -> Seq<char> {
    "    subgraph cluster_d"@ + decimal(domain as nat) + " {\n    label = \"Domain "@ + decimal(
        domain as nat,
    ) + "\";\n    style=filled;\n    color=grey97;\n    "@
}

/// The cluster of the domain at position `k`; nothing where none of its nodes is drawn.
pub open spec fn cluster_text(d: Diagram, k: int) -> Seq<char> {
    let body = group_text(d, Some(k), 0, Seq::empty());
    if body.len() == 0 {
        Seq::empty()
    } else {
        cluster_open(d.domains[k].0) + body + "\n    }\n"@
    }
}

/// The text after the clusters of the domains from position `k` on.
pub open spec fn clusters_text(d: Diagram, k: int, acc: Seq<char>) -> Seq<char>
    decreases d.domains.len() - k,
{
    if k < 0 || k >= d.domains.len() {
        acc
    } else {
        clusters_text(d, k + 1, acc + cluster_text(d, k))
    }
}

/// The attributes of an edge from the given node: an edge that leaves a
/// domain is grey, and one from the source is not shown.
pub open spec fn edge_attributes(n: Node) -> Seq<char> {
    if n.kind is Egress {
        "color=\"#CCCCCC\""@
    } else if n.kind is Source {
        "style=invis"@
    } else {
        Seq::empty()
    }
}

/// The line that draws an edge.
pub open spec fn edge_text(d: Diagram, e: (NodeIndex, NodeIndex)) -> Seq<char> {
    "    n"@ + decimal(e.0 as nat) + " -> n"@ + decimal(e.1 as nat) + " [ "@ + edge_attributes(
        d.g.nodes[e.0 as int],
    ) + " ]\n"@
}

/// The text after the lines of the edges from position `k` on whose two ends are drawn.
pub open spec fn edges_text(d: Diagram, k: int, acc: Seq<char>) -> Seq<char>
    decreases d.g.edges.len() - k,
{
    if k < 0 || k >= d.g.edges.len() {
        acc
    } else if flagged(d.drawn, d.g.edges[k].0) && flagged(d.drawn, d.g.edges[k].1) {
        edges_text(d, k + 1, acc + edge_text(d, d.g.edges[k]))
    } else {
        edges_text(d, k + 1, acc)
    }
}

/// The first lines of a diagram.
pub open spec fn header_text(detailed: bool) -> Seq<char> {
    if detailed {
        "digraph {\n    fontsize=10    node [shape=record, fontsize=10]\n"@
    } else {
        "digraph {\n    fontsize=10    graph [ fontsize=24 fontcolor=\"#0C6fA9\", outputorder=edgesfirst ]\nedge [ color=\"#0C6fA9\", style=bold ]\nnode [ color=\"#0C6fA9\", shape=box, style=\"rounded,bold\" ]\n"@
    }
}

/// The diagram: the header, the nodes of no domain, a cluster for each
/// domain with its nodes, the edges, and the closing brace.
pub open spec fn diagram_text(d: Diagram) -> Seq<char> {
    edges_text(d, 0, clusters_text(d, 0, group_text(d, None, 0, header_text(d.detailed)))) + "}"@
}

/// For each node, that the walk goes on past it.
pub open spec fn everywhere(g: GraphView) -> Seq<bool> {
    Seq::new(g.nodes.len(), |v: int| true)
}

/// For each node, whether it is drawn: every node where no root is given,
/// else the root and the nodes that it reaches in the given direction.
pub open spec fn drawn_nodes(g: GraphView, root: Option<(NodeIndex, Direction)>) -> Seq<bool> {
    match root {
        None => everywhere(g),
        Some((ni, dir)) => Seq::new(
            g.nodes.len(),
            |v: int| v == ni || reaches(g, ni, dir, everywhere(g), v as usize),
        ),
    }
}

/// A drawing of a graph and its materializations.
pub struct Graphviz<'a> {
    pub graph: &'a DataflowGraph,
    /// Whether each node is drawn with all that is known of it.
    pub detailed: bool,
    /// The sizes of the state of the nodes, for those of which it is known.
    pub node_sizes: Option<std::collections::HashMap<NodeIndex, usize>>,
    pub materializations: &'a Materializations,
    /// The domains, each with the nodes it owns.
    pub domain_nodes: Option<&'a Vec<(DomainIndex, Vec<NodeIndex>)>>,
    /// The node from which, in the given direction, the nodes to draw are reached.
    pub reachable_from: Option<(NodeIndex, Direction)>,
}

/// Whether the list holds the node.
pub fn lists_node(nodes: &Vec<NodeIndex>, v: NodeIndex) -> (r: bool)
    ensures
        r == nodes@.contains(v),
{
    let mut k: usize = 0;
    while k < nodes.len()
        invariant
            k <= nodes.len(),
            forall|j: int| 0 <= j < k ==> nodes@[j] != v,
        decreases nodes.len() - k,
    {
        if nodes[k] == v {
            return true;
        }
        k += 1;
    }
    false
}

/// The position of the first domain that lists node `v`, if one does.
pub fn domain_position(domains: &Vec<(DomainIndex, Vec<NodeIndex>)>, v: NodeIndex) -> (r: Option<
    usize,
>)
    ensures
        match listing(domains@, v, 0) {
            Some(k) => r == Some(k as usize) && 0 <= k < domains@.len(),
            None => r is None,
        },
{
    let mut k: usize = 0;
    while k < domains.len()
        invariant
            k <= domains.len(),
            listing(domains@, v, 0) == listing(domains@, v, k as int),
        decreases domains.len() - k,
    {
        if lists_node(&domains[k].1, v) {
            return Some(k);
        }
        k += 1;
    }
    None
}

/// The size known for node `v`, if one is.
pub fn listed_size(sizes: &std::collections::HashMap<NodeIndex, usize>, v: NodeIndex) -> (r: Option<
    usize,
>)
    ensures
        r == size_of(sizes@, v),
{
    match sizes.get(&v) {
        Some(size) => Some(*size),
        None => None,
    }
}

/// How a node is materialized, in words.
pub fn status_string(status: MaterializationStatus) -> (r: &'static str)
    ensures
        r@ == status_text(status),
{
    match status {
        MaterializationStatus::Not => "not materialized",
        MaterializationStatus::Partial { beyond_materialization_frontier } =>
            if beyond_materialization_frontier {
                "partial, beyond frontier"
            } else {
                "partial"
            },
        MaterializationStatus::Full => "full",
    }
}

impl<'a> Graphviz<'a> {
    /// The sizes that are known.
    pub open spec fn sizes(&self) -> Map<NodeIndex, usize> {
        match self.node_sizes {
            Some(v) => v@,
            None => Map::empty(),
        }
    }

    /// The domains that are known.
    pub open spec fn domains(&self) -> Seq<(DomainIndex, Vec<NodeIndex>)> {
        match self.domain_nodes {
            Some(v) => v@,
            None => Seq::empty(),
        }
    }

    /// What the drawing shows.
    pub open spec fn diagram(&self) -> Diagram {
        Diagram {
            g: self.graph@,
            s: self.materializations@,
            detailed: self.detailed,
            sizes: self.sizes(),
            domains: self.domains(),
            drawn: drawn_nodes(self.graph@, self.reachable_from),
        }
    }

    /// For each node, whether it is drawn.
    pub fn drawn(&self) -> (r: Vec<bool>)
        requires
            self.graph.wf(),
        ensures
            r@ == drawn_nodes(self.graph@, self.reachable_from),
    {
        let n = self.graph.node_count();
        let mut all: Vec<bool> = Vec::new();
        let mut none: Vec<bool> = Vec::new();
        let mut v: usize = 0;
        while v < n
            invariant
                v <= n,
                n == self.graph@.nodes.len(),
                all@.len() == v,
                none@.len() == v,
                forall|k: int| 0 <= k < v ==> all@[k],
                forall|k: int| 0 <= k < v ==> !none@[k],
            decreases n - v,
        {
            all.push(true);
            none.push(false);
            v += 1;
        }
        assert(all@ =~= everywhere(self.graph@));
        match self.reachable_from {
            None => all,
            Some((ni, dir)) => {
                let (found, mut seen) = explore(self.graph, ni, dir, &all, &none);
                let ghost reached = seen@;
                proof {
                    assert forall|t: NodeIndex| !flagged(none@, t) by {}
                    assert(!crate::search::reaches_marked(self.graph@, ni, dir, all@, none@));
                    assert(found is None);
                }
                if ni < n {
                    seen.set(ni, true);
                }
                proof {
                    let want = drawn_nodes(self.graph@, self.reachable_from);
                    assert forall|v: int| 0 <= v < n implies seen@[v] == want[v] by {
                        assert(flagged(reached, v as usize) <==> reaches(
                            self.graph@,
                            ni,
                            dir,
                            all@,
                            v as usize,
                        ));
                    }
                }
                assert(seen@ =~= drawn_nodes(self.graph@, self.reachable_from));
                seen
            },
        }
    }

    /// The attributes of node `v`, label first.
    pub fn describe_node(&self, v: NodeIndex) -> (r: String)
        requires
            self.graph.wf(),
            self.materializations.wf(),
            self.graph@.has_node(v),
        ensures
            r@ == describe(self.diagram(), v),
    {
        let n = self.graph.node(v);
        let mut out = String::from_str(" [label=\"");
        out.append(n.name.as_str());
        if self.detailed {
            out.append(" | ");
            out.append(n.description.as_str());
            out.append(" | ");
            out.append(status_string(self.materializations.get_status(v, n)));
            let size = match &self.node_sizes {
                Some(sizes) => listed_size(sizes, v),
                None => None,
            };
            match size {
                Some(bytes) => {
                    let mut text = String::from_str(" | size ");
                    text.append(decimal_string(bytes).as_str());
                    out.append(text.as_str());
                },
                None => {
                    assert(out@ + Seq::<char>::empty() =~= out@);
                },
            }
        }
        out.append("\"]\n");
        out
    }

    /// The line that draws node `v`.
    pub fn node_line(&self, v: NodeIndex) -> (r: String)
        requires
            self.graph.wf(),
            self.materializations.wf(),
            self.graph@.has_node(v),
        ensures
            r@ == node_text(self.diagram(), v),
    {
        let mut out = String::from_str("    n");
        out.append(decimal_string(v).as_str());
        out.append(sanitize(self.describe_node(v).as_str()).as_str());
        out
    }

    /// Adds the lines of the drawn nodes that belong to the group.
    pub fn draw_group(&self, drawn: &Vec<bool>, group: Option<usize>, out: &mut String)
        requires
            self.graph.wf(),
            self.materializations.wf(),
            drawn@ == drawn_nodes(self.graph@, self.reachable_from),
        ensures
            final(out)@ == group_text(
                self.diagram(),
                match group {
                    Some(k) => Some(k as int),
                    None => None,
                },
                0,
                old(out)@,
            ),
    {
        let n = self.graph.node_count();
        let ghost d = self.diagram();
        let ghost wanted: Option<int> = match group {
            Some(k) => Some(k as int),
            None => None,
        };
        let mut v: usize = 0;
        while v < n
            invariant
                v <= n,
                n == self.graph@.nodes.len(),
                self.graph.wf(),
                self.materializations.wf(),
                d == self.diagram(),
                drawn@ == d.drawn,
                wanted == match group {
                    Some(k) => Some(k as int),
                    None => None,
                },
                group_text(d, wanted, 0, old(out)@) == group_text(d, wanted, v as int, out@),
            decreases n - v,
        {
            let shown = v < drawn.len() && drawn[v];
            if shown {
                let listed = match self.domain_nodes {
                    Some(domains) => {
                        assert(d.domains == domains@);
                        assert(domains@.len() == domains.len());
                        assert(d.domains.len() <= usize::MAX);
                        domain_position(domains, v)
                    },
                    None => {
                        assert(d.domains == Seq::<(DomainIndex, Vec<NodeIndex>)>::empty());
                        assert(listing(d.domains, v, 0) is None);
                        None
                    },
                };
                assert(match listing(d.domains, v, 0) {
                    Some(k) => listed == Some(k as usize) && 0 <= k < d.domains.len() && k
                        <= usize::MAX,
                    None => listed is None,
                });
                assert(match wanted {
                    Some(k) => group == Some(k as usize) && 0 <= k <= usize::MAX,
                    None => group is None,
                });
                let belongs = match listed {
                    Some(a) => match group {
                        Some(b) => a == b,
                        None => false,
                    },
                    None => match group {
                        Some(_) => false,
                        None => true,
                    },
                };
                assert(belongs == (listing(d.domains, v, 0) == wanted));
                if belongs {
                    out.append(self.node_line(v).as_str());
                }
            }
            v += 1;
        }
    }

    /// Adds the lines of the edges whose two ends are drawn.
    pub fn draw_edges(&self, drawn: &Vec<bool>, out: &mut String)
        requires
            self.graph.wf(),
            drawn@ == drawn_nodes(self.graph@, self.reachable_from),
        ensures
            final(out)@ == edges_text(self.diagram(), 0, old(out)@),
    {
        let edges = self.graph.edges();
        let ghost d = self.diagram();
        let mut k: usize = 0;
        while k < edges.len()
            invariant
                k <= edges.len(),
                self.graph.wf(),
                edges@ == self.graph@.edges,
                d == self.diagram(),
                drawn@ == d.drawn,
                edges_text(d, 0, old(out)@) == edges_text(d, k as int, out@),
            decreases edges.len() - k,
        {
            let (from, to) = edges[k];
            if from < drawn.len() && drawn[from] && to < drawn.len() && drawn[to] {
                assert(self.graph@.edge_within(k as int));
                let source = self.graph.node(from);
                let mut line = String::from_str("    n");
                line.append(decimal_string(from).as_str());
                line.append(" -> n");
                line.append(decimal_string(to).as_str());
                line.append(" [ ");
                if source.is_egress() {
                    line.append("color=\"#CCCCCC\"");
                } else if source.is_source() {
                    line.append("style=invis");
                } else {
                    assert(line@ + Seq::<char>::empty() =~= line@);
                }
                line.append(" ]\n");
                out.append(line.as_str());
            }
            k += 1;
        }
    }

    /// The drawing in the dot language: the header, the nodes of no domain,
    /// a cluster for each domain with its nodes, the edges, and the closing brace.
    pub fn render(&self) -> (r: String)
        requires
            self.graph.wf(),
            self.materializations.wf(),
        ensures
            r@ == diagram_text(self.diagram()),
    {
        let drawn = self.drawn();
        let ghost d = self.diagram();
        let mut out = if self.detailed {
            String::from_str("digraph {\n    fontsize=10    node [shape=record, fontsize=10]\n")
        } else {
            String::from_str(
                "digraph {\n    fontsize=10    graph [ fontsize=24 fontcolor=\"#0C6fA9\", outputorder=edgesfirst ]\nedge [ color=\"#0C6fA9\", style=bold ]\nnode [ color=\"#0C6fA9\", shape=box, style=\"rounded,bold\" ]\n",
            )
        };
        self.draw_group(&drawn, None, &mut out);
        match self.domain_nodes {
            None => {},
            Some(domains) => {
                let ghost start = out@;
                let mut k: usize = 0;
                while k < domains.len()
                    invariant
                        k <= domains.len(),
                        self.graph.wf(),
                        self.materializations.wf(),
                        self.domain_nodes == Some(domains),
                        d == self.diagram(),
                        drawn@ == d.drawn,
                        clusters_text(d, 0, start) == clusters_text(d, k as int, out@),
                    decreases domains.len() - k,
                {
                    let mut body = String::new();
                    self.draw_group(&drawn, Some(k), &mut body);
                    if body.as_str().unicode_len() > 0 {
                        let domain = domains[k].0;
                        let mut cluster = String::from_str("    subgraph cluster_d");
                        cluster.append(decimal_string(domain).as_str());
                        cluster.append(" {\n    label = \"Domain ");
                        cluster.append(decimal_string(domain).as_str());
                        cluster.append("\";\n    style=filled;\n    color=grey97;\n    ");
                        cluster.append(body.as_str());
                        cluster.append("\n    }\n");
                        out.append(cluster.as_str());
                    } else {
                        assert(out@ + Seq::<char>::empty() =~= out@);
                    }
                    k += 1;
                }
            },
        }
        self.draw_edges(&drawn, &mut out);
        out.append("}");
        out
    }
}

} // verus!
