use crate::interpreter::operators::is_binary_operator;
use crate::node::node::{NodeType, NodeView};
use vstd::prelude::*;

verus! {

/// The kinds of node that have a value.
pub open spec fn has_value(kind: NodeType) -> bool {
    match kind {
        NodeType::Literal
        | NodeType::Identifier
        | NodeType::Expression
        | NodeType::Term
        | NodeType::Factor
        | NodeType::Return
        | NodeType::Block
        | NodeType::List
        | NodeType::If
        | NodeType::Assignment
        | NodeType::Reassignment
        | NodeType::Declaration
        | NodeType::Operation
        | NodeType::Index
        | NodeType::FunctionCall => true,
        _ => false,
    }
}

/// Whether every child of a node has a value.
pub open spec fn children_have_values(node: NodeView) -> bool {
    forall|i: int| 0 <= i < node.children.len() ==> has_value((#[trigger] node.children[i]).kind)
}

/// Whether a node has the payload and the children of its kind:
/// a literal and a name have a text and no child; a wrapper and a `Return`
/// have one child; an operation has an operator and two operands, or is `-`
/// with one; an `If` has a condition and one or two branches; an assignment
/// and a reassignment have a name and a value; a declaration has a name and
/// a function; a function has its parameters, which are names, and its body,
/// which is a block; a call has a name and its arguments; and every child
/// that is evaluated has a value.
pub open spec fn shaped(node: NodeView) -> bool {
    match node.kind {
        NodeType::Literal | NodeType::Identifier => node.value is Some && node.children.len() == 0,
        NodeType::Expression | NodeType::Term | NodeType::Factor | NodeType::Return => {
            node.children.len() == 1 && children_have_values(node)
        },
        NodeType::Block | NodeType::List | NodeType::Parameters | NodeType::Program => {
            children_have_values(node)
        },
        NodeType::Args => forall|i: int|
            0 <= i < node.children.len() ==> (#[trigger] node.children[i]).kind
                == NodeType::Identifier,
        NodeType::Operation => {
            &&& node.value is Some
            &&& is_binary_operator(node.value->0)
            &&& node.children.len() == 2 || (node.children.len() == 1 && node.value->0 == "-"@)
            &&& children_have_values(node)
        },
        NodeType::If => 2 <= node.children.len() <= 3 && children_have_values(node),
        NodeType::Assignment | NodeType::Reassignment => {
            &&& node.children.len() == 2
            &&& node.children[0].kind == NodeType::Identifier
            &&& has_value(node.children[1].kind)
        },
        NodeType::Declaration => {
            &&& node.children.len() == 2
            &&& node.children[0].kind == NodeType::Identifier
            &&& node.children[1].kind == NodeType::Function
        },
        NodeType::Function => {
            &&& node.children.len() == 2
            &&& node.children[0].kind == NodeType::Args
            &&& node.children[1].kind == NodeType::Block
        },
        NodeType::FunctionCall => {
            &&& node.value is Some
            &&& node.children.len() == 1
            &&& node.children[0].kind == NodeType::Parameters
        },
        NodeType::Index => node.children.len() == 2 && children_have_values(node),
        _ => true,
    }
}

/// Whether every node of a tree has the payload and the children of its kind.
pub open spec fn well_formed(node: NodeView) -> bool
    decreases node,
{
    &&& shaped(node)
    &&& forall|i: int| 0 <= i < node.children.len() ==> well_formed(#[trigger] node.children[i])
}

/// Whether every tree of a sequence is well formed.
pub open spec fn all_well_formed(nodes: Seq<NodeView>) -> bool {
    forall|i: int| 0 <= i < nodes.len() ==> well_formed(#[trigger] nodes[i])
}

/// Whether every tree of a sequence is well formed and has a value.
pub open spec fn all_have_values(nodes: Seq<NodeView>) -> bool {
    forall|i: int| 0 <= i < nodes.len() ==> well_formed(#[trigger] nodes[i]) && has_value(
        nodes[i].kind,
    )
}

} // verus!
