use vstd::prelude::*;
use vstd::string::StringExecFns;

verus! {

/// The kind of a syntax tree node.
#[derive(Debug, PartialEq, Eq, Structural, Clone, Copy)]
pub enum NodeType {
    Expression,
    Term,
    Factor,
    Identifier,
    Operation,
    Declaration,
    Assignment,
    Reassignment,
    FunctionCall,
    Literal,
    If,
    Function,
    Args,
    TypeAnnotation,
    Parameters,
    Program,
    MapIndex,
    Index,
    List,
    Mapping,
    Block,
    Return,
}

/// A syntax tree node: a kind, an optional text payload and ordered children.
#[derive(Debug, PartialEq)]
pub struct Node {
    pub value: Option<String>,
    pub node_type: NodeType,
    pub children: Vec<Node>,
}

/// The mathematical model of a [`Node`].
pub struct NodeView {
    pub kind: NodeType,
    pub value: Option<Seq<char>>,
    pub children: Seq<NodeView>,
}

/// The model of an optional text payload.
pub open spec fn text_view(value: Option<String>) -> Option<Seq<char>> {
    match value {
        Some(s) => Some(s@),
        None => None,
    }
}

/// The models of a sequence of nodes, in order.
pub open spec fn node_views(nodes: Seq<Node>) -> Seq<NodeView>
    decreases nodes, 0nat,
{
    if nodes.len() == 0 {
        Seq::empty()
    } else {
        node_views(nodes.drop_last()).push(node_view(nodes.last()))
    }
}

/// The model of one node.
pub open spec fn node_view(node: Node) -> NodeView
    decreases node, 1nat,
{
    NodeView {
        kind: node.node_type,
        value: text_view(node.value),
        children: node_views(node.children@),
    }
}

impl View for Node {
    type V = NodeView;

    open spec fn view(&self) -> NodeView {
        node_view(*self)
    }
}

/// `node_views` maps `node_view` over the sequence, index by index.
pub broadcast proof fn lemma_node_views(nodes: Seq<Node>)
    ensures
        (#[trigger] node_views(nodes)).len() == nodes.len(),
        forall|i: int| 0 <= i < nodes.len() ==> (#[trigger] node_views(nodes)[i]) == nodes[i]@,
    decreases nodes.len(),
{
    if nodes.len() > 0 {
        lemma_node_views(nodes.drop_last());
    }
}

/// The model of a node has the node's kind, the model of its payload and the
/// models of its children.
pub broadcast proof fn lemma_node_view(node: Node)
    ensures
        #[trigger] node_view(node) == (NodeView {
            kind: node.node_type,
            value: text_view(node.value),
            children: node_views(node.children@),
        }),
{
}

pub broadcast group group_node_views {
    lemma_node_view,
    lemma_node_views,
}

/// Appending a node appends its model.
pub proof fn lemma_node_views_push(nodes: Seq<Node>, node: Node)
    ensures
        node_views(nodes.push(node)) == node_views(nodes).push(node@),
{
    assert(nodes.push(node).drop_last() =~= nodes);
}

impl Node {
    /// A node of the given kind with a payload and no children.
    pub fn leaf(node_type: NodeType, value: String) -> (node: Node)
        ensures
            node@ == (NodeView { kind: node_type, value: Some(value@), children: Seq::empty() }),
    {
        Node { value: Some(value), node_type, children: Vec::new() }
    }

    /// A node of the given kind with children and no payload.
    pub fn branch(node_type: NodeType, children: Vec<Node>) -> (node: Node)
        ensures
            node@ == (NodeView {
                kind: node_type,
                value: None,
                children: node_views(children@),
            }),
    {
        Node { value: None, node_type, children }
    }

    /// A node of the given kind with a payload and children.
    pub fn named(node_type: NodeType, value: String, children: Vec<Node>) -> (node: Node)
        ensures
            node@ == (NodeView {
                kind: node_type,
                value: Some(value@),
                children: node_views(children@),
            }),
    {
        Node { value: Some(value), node_type, children }
    }
}

/// The name of a kind of node.
pub open spec fn kind_text(kind: NodeType) -> Seq<char> {
    match kind {
        NodeType::Expression => "Expression"@,
        NodeType::Term => "Term"@,
        NodeType::Factor => "Factor"@,
        NodeType::Identifier => "Identifier"@,
        NodeType::Operation => "Operation"@,
        NodeType::Declaration => "Declaration"@,
        NodeType::Assignment => "Assignment"@,
        NodeType::Reassignment => "Reassignment"@,
        NodeType::FunctionCall => "FunctionCall"@,
        NodeType::Literal => "Literal"@,
        NodeType::If => "If"@,
        NodeType::Function => "Function"@,
        NodeType::Args => "Args"@,
        NodeType::TypeAnnotation => "TypeAnnotation"@,
        NodeType::Parameters => "Parameters"@,
        NodeType::Program => "Program"@,
        NodeType::MapIndex => "MapIndex"@,
        NodeType::Index => "Index"@,
        NodeType::List => "List"@,
        NodeType::Mapping => "Map"@,
        NodeType::Block => "Block"@,
        NodeType::Return => "Return"@,
    }
}

/// The indentation of a line at a level: two spaces for each level.
pub open spec fn indentation(level: nat) -> Seq<char>
    decreases level,
{
    if level == 0 {
        Seq::empty()
    } else {
        indentation((level - 1) as nat) + "  "@
    }
}

/// The line of a node: its indentation, the name of its kind, and its payload
/// after a colon where it has one.
pub open spec fn node_line(node: NodeView, indent: Seq<char>) -> Seq<char> {
    match node.value {
        Some(text) => indent + kind_text(node.kind) + ": "@ + text + " \n"@,
        None => indent + kind_text(node.kind) + "\n"@,
    }
}

/// A tree as text: the line of the node, then its children, each indented by
/// two spaces more.
pub open spec fn tree_text(node: NodeView, indent: Seq<char>) -> Seq<char>
    decreases node, 1nat,
{
    node_line(node, indent) + trees_text(node.children, 0, indent + "  "@)
}

/// The trees from the one at `i` on as text, one after the other.
pub open spec fn trees_text(nodes: Seq<NodeView>, i: int, indent: Seq<char>) -> Seq<char>
    decreases nodes, nodes.len() - i,
{
    if !(0 <= i < nodes.len()) {
        Seq::empty()
    } else {
        tree_text(nodes[i], indent) + trees_text(nodes, i + 1, indent)
    }
}

/// The name of a kind of node.
pub fn kind_name(kind: NodeType) -> (name: &'static str)
    ensures
        name@ == kind_text(kind),
{
    match kind {
        NodeType::Expression => "Expression",
        NodeType::Term => "Term",
        NodeType::Factor => "Factor",
        NodeType::Identifier => "Identifier",
        NodeType::Operation => "Operation",
        NodeType::Declaration => "Declaration",
        NodeType::Assignment => "Assignment",
        NodeType::Reassignment => "Reassignment",
        NodeType::FunctionCall => "FunctionCall",
        NodeType::Literal => "Literal",
        NodeType::If => "If",
        NodeType::Function => "Function",
        NodeType::Args => "Args",
        NodeType::TypeAnnotation => "TypeAnnotation",
        NodeType::Parameters => "Parameters",
        NodeType::Program => "Program",
        NodeType::MapIndex => "MapIndex",
        NodeType::Index => "Index",
        NodeType::List => "List",
        NodeType::Mapping => "Map",
        NodeType::Block => "Block",
        NodeType::Return => "Return",
    }
}

/// The indentation of a line at a level.
pub fn indentation_of(level: usize) -> (indent: String)
    ensures
        indent@ == indentation(level as nat),
{
    let mut indent = String::new();
    let mut i: usize = 0;
    while i < level
        invariant
            i <= level,
            indent@ == indentation(i as nat),
        decreases level - i,
    {
        indent.append("  ");
        i += 1;
    }
    indent
}

/// Appends a tree as text to a text.
pub fn push_tree(node: &Node, indent: &str, out: &mut String)
    ensures
        final(out)@ == old(out)@ + tree_text(node@, indent@),
    decreases node,
{
    broadcast use group_node_views;

    out.append(indent);
    out.append(kind_name(node.node_type));
    match &node.value {
        Some(text) => {
            out.append(": ");
            out.append(text.as_str());
            out.append(" \n");
        },
        None => {
            out.append("\n");
        },
    }
    assert(out@ =~= old(out)@ + node_line(node@, indent@));
    let mut deeper = indent.to_owned();
    deeper.append("  ");
    let ghost line = out@;
    let mut i: usize = 0;
    while i < node.children.len()
        invariant
            i <= node.children.len(),
            deeper@ == indent@ + "  "@,
            out@ + trees_text(node@.children, i as int, deeper@) == line + trees_text(
                node@.children,
                0,
                deeper@,
            ),
        decreases node.children.len() - i,
    {
        let ghost before = out@;
        proof {
            lemma_node_view(*node);
            lemma_node_views(node.children@);
        }
        push_tree(&node.children[i], deeper.as_str(), out);
        assert(out@ + trees_text(node@.children, i + 1, deeper@) =~= before + trees_text(
            node@.children,
            i as int,
            deeper@,
        ));
        i += 1;
    }
    proof {
        lemma_node_view(*node);
        lemma_node_views(node.children@);
        assert(out@ =~= old(out)@ + tree_text(node@, indent@));
    }
}

/// The vector that holds one node.
pub fn one(a: Node) -> (nodes: Vec<Node>)
    ensures
        node_views(nodes@) == seq![a@],
{
    let mut nodes: Vec<Node> = Vec::new();
    nodes.push(a);
    proof {
        lemma_node_views(nodes@);
        assert(node_views(nodes@) =~= seq![a@]);
    }
    nodes
}

/// The vector that holds two nodes, in order.
pub fn two(a: Node, b: Node) -> (nodes: Vec<Node>)
    ensures
        node_views(nodes@) == seq![a@, b@],
{
    let mut nodes: Vec<Node> = Vec::new();
    nodes.push(a);
    nodes.push(b);
    proof {
        lemma_node_views(nodes@);
        assert(node_views(nodes@) =~= seq![a@, b@]);
    }
    nodes
}

/// The vector that holds three nodes, in order.
pub fn three(a: Node, b: Node, c: Node) -> (nodes: Vec<Node>)
    ensures
        node_views(nodes@) == seq![a@, b@, c@],
{
    let mut nodes: Vec<Node> = Vec::new();
    nodes.push(a);
    nodes.push(b);
    nodes.push(c);
    proof {
        lemma_node_views(nodes@);
        assert(node_views(nodes@) =~= seq![a@, b@, c@]);
    }
    nodes
}

impl Clone for Node {
    fn clone(&self) -> (copy: Self)
        ensures
            copy@ == self@,
        decreases self,
    {
        let mut children: Vec<Node> = Vec::new();
        let mut i: usize = 0;
        while i < self.children.len()
            invariant
                i <= self.children.len(),
                node_views(children@) == node_views(self.children@.take(i as int)),
            decreases self.children.len() - i,
        {
            let child = self.children[i].clone();
            proof {
                lemma_node_views_push(children@, child);
                lemma_node_views_push(self.children@.take(i as int), self.children@[i as int]);
                assert(self.children@.take(i as int).push(self.children@[i as int])
                    =~= self.children@.take(i as int + 1));
            }
            children.push(child);
            i += 1;
        }
        assert(self.children@.take(i as int) =~= self.children@);
        let value = match &self.value {
            Some(s) => Some(s.clone()),
            None => None,
        };
        Node { value, node_type: self.node_type, children }
    }
}

} // verus!
