use crate::interpreter::builtins::{element, is_builtin};
use crate::interpreter::error::RuntimeError;
use crate::interpreter::operators::{is_binary_operator, operation};
use crate::interpreter::scope::{bind, leave, lookup, reassign, Bindings};
use crate::interpreter::semantics::{
    apply, bound_name, builtin, declares, eval, eval_assignment, eval_block, eval_call, eval_each,
    eval_if, eval_index, eval_operation, eval_reassignment, frame, hoist, hoist_each,
    parameter_names, run, with_scopes, Gathered, Machine, Outcome,
};
use crate::laws::parsing::lemma_program_well_formed;
use crate::laws::scopes::lemma_reassign_changes_holder;
use crate::node::node::{NodeType, NodeView};
use crate::node::shape::{all_have_values, has_value, well_formed};
use crate::parser::grammar::program;
use crate::token::token::{TokenView, ValueView};
use vstd::prelude::*;

verus! {

/// Whether every function in a value is a well-formed `Function` node.
pub open spec fn sane(value: ValueView) -> bool
    decreases value,
{
    match value {
        ValueView::Function(function) => function.kind == NodeType::Function && well_formed(
            function,
        ),
        ValueView::List(items) => forall|i: int|
            0 <= i < items.len() ==> sane(#[trigger] items[i]),
        _ => true,
    }
}

/// Whether every value of a sequence is sane.
pub open spec fn all_sane(values: Seq<ValueView>) -> bool {
    forall|i: int| 0 <= i < values.len() ==> sane(#[trigger] values[i])
}

/// Whether every value that a scope binds is sane.
pub open spec fn sane_bindings(scope: Bindings) -> bool {
    forall|name: Seq<char>| scope.contains_key(name) ==> sane(#[trigger] scope[name])
}

/// Whether every value that the scopes bind is sane.
pub open spec fn sane_scopes(scopes: Seq<Bindings>) -> bool {
    forall|i: int| 0 <= i < scopes.len() ==> sane_bindings(#[trigger] scopes[i])
}

/// Whether a failure is one of a tree that is not well formed.
pub open spec fn is_malformed(e: RuntimeError) -> bool {
    e == RuntimeError::InvalidNode || e == RuntimeError::InvalidOperator
}

/// Whether an outcome leaves sane scopes, and is a sane value or a failure
/// that is not one of a tree that is not well formed.
pub open spec fn proper(o: Outcome) -> bool {
    &&& sane_scopes(o.machine.scopes)
    &&& match o.result {
        Ok(flow) => sane(flow.value),
        Err(e) => !is_malformed(e),
    }
}

/// The same for the outcome of a sequence of nodes.
pub open spec fn proper_each(g: Gathered, count: int) -> bool {
    &&& sane_scopes(g.machine.scopes)
    &&& match g.result {
        Ok(values) => all_sane(values) && values.len() == count,
        Err(e) => !is_malformed(e),
    }
}

proof fn lemma_lookup_sane(scopes: Seq<Bindings>, name: Seq<char>)
    requires
        sane_scopes(scopes),
    ensures
        lookup(scopes, name) matches Some(value) ==> sane(value),
    decreases scopes.len(),
{
    if scopes.len() > 0 {
        assert(sane_bindings(scopes[scopes.len() - 1]));
        if !scopes.last().contains_key(name) {
            assert forall|i: int| 0 <= i < scopes.drop_last().len() implies sane_bindings(
                #[trigger] scopes.drop_last()[i],
            ) by {
                assert(scopes.drop_last()[i] == scopes[i]);
            }
            lemma_lookup_sane(scopes.drop_last(), name);
        }
    }
}

proof fn lemma_bind_sane(scopes: Seq<Bindings>, name: Seq<char>, value: ValueView)
    requires
        sane_scopes(scopes),
        sane(value),
    ensures
        sane_scopes(bind(scopes, name, value)),
{
    let after = bind(scopes, name, value);
    assert forall|i: int| 0 <= i < after.len() implies sane_bindings(#[trigger] after[i]) by {
        assert(sane_bindings(scopes[i]));
    }
}

proof fn lemma_reassign_sane(scopes: Seq<Bindings>, name: Seq<char>, value: ValueView)
    requires
        sane_scopes(scopes),
        sane(value),
    ensures
        reassign(scopes, name, value) matches Some(after) ==> sane_scopes(after),
{
    lemma_reassign_changes_holder(scopes, name, value);
    match reassign(scopes, name, value) {
        Some(after) => {
            assert forall|i: int| 0 <= i < after.len() implies sane_bindings(
                #[trigger] after[i],
            ) by {
                assert(sane_bindings(scopes[i]));
            }
        },
        None => {},
    }
}

proof fn lemma_operation_sane(op: Seq<char>, operands: Seq<ValueView>)
    requires
        all_sane(operands),
        is_binary_operator(op),
        operands.len() == 2 || (operands.len() == 1 && op == "-"@),
    ensures
        match operation(op, operands) {
            Ok(value) => sane(value),
            Err(e) => !is_malformed(e),
        },
{
    assert(sane(operands[0]));
    if operands.len() == 2 {
        assert(sane(operands[1]));
        match (operands[0], operands[1]) {
            (ValueView::List(x), ValueView::List(y)) => {
                assert forall|i: int| 0 <= i < (x + y).len() implies sane(#[trigger] (x + y)[i]) by {
                    if i < x.len() {
                        assert((x + y)[i] == x[i]);
                    } else {
                        assert((x + y)[i] == y[i - x.len()]);
                    }
                }
            },
            _ => {},
        }
    }
}

proof fn lemma_builtin_proper(name: Seq<char>, arguments: Seq<ValueView>, machine: Machine)
    requires
        all_sane(arguments),
        sane_scopes(machine.scopes),
    ensures
        proper(builtin(name, arguments, machine)),
{
    if arguments.len() == 1 {
        let value = arguments[0];
        assert(sane(value));
        match value {
            ValueView::List(items) => {
                if items.len() > 0 {
                    assert(sane(items[0]));
                    assert forall|i: int| 0 <= i < items.drop_first().len() implies sane(
                        #[trigger] items.drop_first()[i],
                    ) by {
                        assert(items.drop_first()[i] == items[i + 1]);
                    }
                }
            },
            _ => {},
        }
    }
}

proof fn lemma_element_sane(indexed: ValueView, position: ValueView)
    requires
        sane(indexed),
    ensures
        match element(indexed, position) {
            Ok(value) => sane(value),
            Err(e) => !is_malformed(e),
        },
{
    match (indexed, position) {
        (ValueView::List(items), ValueView::Number(i)) => {
            if 0 <= i < items.len() {
                assert(sane(items[i as int]));
            }
        },
        _ => {},
    }
}

proof fn lemma_frame_sane(names: Seq<Seq<char>>, arguments: Seq<ValueView>)
    requires
        all_sane(arguments),
    ensures
        sane_bindings(frame(names, arguments)),
    decreases names.len(),
{
    if names.len() > 0 && names.len() == arguments.len() {
        assert forall|i: int| 0 <= i < arguments.drop_last().len() implies sane(
            #[trigger] arguments.drop_last()[i],
        ) by {
            assert(arguments.drop_last()[i] == arguments[i]);
        }
        lemma_frame_sane(names.drop_last(), arguments.drop_last());
        assert(sane(arguments[arguments.len() - 1]));
    }
}

/// The parameters of a well-formed function have names.
proof fn lemma_parameters_named(parameters: NodeView, i: int)
    requires
        well_formed(parameters),
        parameters.kind == NodeType::Args,
        0 <= i <= parameters.children.len(),
    ensures
        parameter_names(parameters.children, i) is Some,
    decreases parameters.children.len() - i,
{
    if i < parameters.children.len() {
        assert(well_formed(parameters.children[i]));
        assert(parameters.children[i].kind == NodeType::Identifier);
        lemma_parameters_named(parameters, i + 1);
    }
}

/// The children of a well-formed node are well formed.
proof fn lemma_child(node: NodeView, i: int)
    requires
        well_formed(node),
        0 <= i < node.children.len(),
    ensures
        well_formed(node.children[i]),
{
}

/// The children of a well-formed node that is a list of trees with values are
/// well formed and have values.
proof fn lemma_children(node: NodeView)
    requires
        well_formed(node),
        node.kind == NodeType::Block || node.kind == NodeType::List || node.kind
            == NodeType::Parameters || node.kind == NodeType::Program || node.kind
            == NodeType::Operation || node.kind == NodeType::If || node.kind == NodeType::Index,
    ensures
        all_have_values(node.children),
{
    assert forall|i: int| 0 <= i < node.children.len() implies well_formed(
        #[trigger] node.children[i],
    ) && has_value(node.children[i].kind) by {
        lemma_child(node, i);
    }
}

/// Evaluating a well-formed tree that has a value, in scopes that bind sane
/// values, is proper.
pub proof fn lemma_eval_proper(node: NodeView, machine: Machine, depth: nat)
    requires
        well_formed(node),
        has_value(node.kind),
        sane_scopes(machine.scopes),
    ensures
        proper(eval(node, machine, depth)),
    decreases depth, node, 1nat,
{
    match node.kind {
        NodeType::Literal => {},
        NodeType::Identifier => {
            lemma_lookup_sane(machine.scopes, node.value->0);
        },
        NodeType::Expression | NodeType::Term | NodeType::Factor | NodeType::Return => {
            lemma_child(node, 0);
            lemma_eval_proper(node.children[0], machine, depth);
        },
        NodeType::Block => {
            lemma_children(node);
            lemma_block_proper(node.children, 0, machine, ValueView::Null, depth);
        },
        NodeType::List => {
            lemma_children(node);
            lemma_each_proper(node.children, 0, machine, Seq::empty(), depth);
        },
        NodeType::If => {
            lemma_if_proper(node, machine, depth);
        },
        NodeType::Assignment => {
            lemma_assignment_proper(node, machine, depth);
        },
        NodeType::Reassignment => {
            lemma_reassignment_proper(node, machine, depth);
        },
        NodeType::Declaration => {
            lemma_child(node, 0);
            lemma_child(node, 1);
            lemma_bind_sane(
                machine.scopes,
                bound_name(node)->0,
                ValueView::Function(node.children[1]),
            );
        },
        NodeType::Operation => {
            lemma_operation_proper(node, machine, depth);
        },
        NodeType::Index => {
            lemma_index_proper(node, machine, depth);
        },
        NodeType::FunctionCall => {
            lemma_call_proper(node, machine, depth);
        },
        _ => {},
    }
}

proof fn lemma_block_proper(
    nodes: Seq<NodeView>,
    i: int,
    machine: Machine,
    last: ValueView,
    depth: nat,
)
    requires
        all_have_values(nodes),
        sane_scopes(machine.scopes),
        sane(last),
    ensures
        proper(eval_block(nodes, i, machine, last, depth)),
    decreases depth, nodes, nodes.len() - i,
{
    if 0 <= i < nodes.len() {
        assert(well_formed(nodes[i]) && has_value(nodes[i].kind));
        lemma_eval_proper(nodes[i], machine, depth);
        let o = eval(nodes[i], machine, depth);
        match o.result {
            Ok(flow) => {
                if !flow.returned {
                    lemma_block_proper(nodes, i + 1, o.machine, flow.value, depth);
                }
            },
            Err(_) => {},
        }
    }
}

proof fn lemma_each_proper(
    nodes: Seq<NodeView>,
    i: int,
    machine: Machine,
    values: Seq<ValueView>,
    depth: nat,
)
    requires
        all_have_values(nodes),
        sane_scopes(machine.scopes),
        all_sane(values),
        0 <= i <= nodes.len(),
    ensures
        proper_each(eval_each(nodes, i, machine, values, depth), values.len() + nodes.len() - i),
    decreases depth, nodes, nodes.len() - i,
{
    if i < nodes.len() {
        assert(well_formed(nodes[i]) && has_value(nodes[i].kind));
        lemma_eval_proper(nodes[i], machine, depth);
        let o = eval(nodes[i], machine, depth);
        match o.result {
            Ok(flow) => {
                assert forall|j: int| 0 <= j < values.push(flow.value).len() implies sane(
                    #[trigger] values.push(flow.value)[j],
                ) by {
                    if j < values.len() {
                        assert(values.push(flow.value)[j] == values[j]);
                    }
                }
                lemma_each_proper(nodes, i + 1, o.machine, values.push(flow.value), depth);
            },
            Err(_) => {},
        }
    }
}

proof fn lemma_if_proper(node: NodeView, machine: Machine, depth: nat)
    requires
        well_formed(node),
        node.kind == NodeType::If,
        sane_scopes(machine.scopes),
    ensures
        proper(eval_if(node, machine, depth)),
    decreases depth, node, 0nat,
{
    lemma_children(node);
    assert(well_formed(node.children[0]) && has_value(node.children[0].kind));
    lemma_eval_proper(node.children[0], machine, depth);
    let o = eval(node.children[0], machine, depth);
    match o.result {
        Ok(flow) => match flow.value {
            ValueView::Boolean(condition) => {
                if condition {
                    assert(well_formed(node.children[1]) && has_value(node.children[1].kind));
                    lemma_eval_proper(node.children[1], o.machine, depth);
                } else if node.children.len() >= 3 {
                    assert(well_formed(node.children[2]) && has_value(node.children[2].kind));
                    lemma_eval_proper(node.children[2], o.machine, depth);
                }
            },
            _ => {},
        },
        Err(_) => {},
    }
}

proof fn lemma_assignment_proper(node: NodeView, machine: Machine, depth: nat)
    requires
        well_formed(node),
        node.kind == NodeType::Assignment,
        sane_scopes(machine.scopes),
    ensures
        proper(eval_assignment(node, machine, depth)),
    decreases depth, node, 0nat,
{
    lemma_child(node, 0);
    lemma_child(node, 1);
    lemma_eval_proper(node.children[1], machine, depth);
    let o = eval(node.children[1], machine, depth);
    match o.result {
        Ok(flow) => {
            lemma_bind_sane(o.machine.scopes, bound_name(node)->0, flow.value);
        },
        Err(_) => {},
    }
}

proof fn lemma_reassignment_proper(node: NodeView, machine: Machine, depth: nat)
    requires
        well_formed(node),
        node.kind == NodeType::Reassignment,
        sane_scopes(machine.scopes),
    ensures
        proper(eval_reassignment(node, machine, depth)),
    decreases depth, node, 0nat,
{
    lemma_child(node, 0);
    lemma_child(node, 1);
    lemma_eval_proper(node.children[1], machine, depth);
    let o = eval(node.children[1], machine, depth);
    match o.result {
        Ok(flow) => {
            lemma_reassign_sane(o.machine.scopes, bound_name(node)->0, flow.value);
        },
        Err(_) => {},
    }
}

proof fn lemma_operation_proper(node: NodeView, machine: Machine, depth: nat)
    requires
        well_formed(node),
        node.kind == NodeType::Operation,
        sane_scopes(machine.scopes),
    ensures
        proper(eval_operation(node, machine, depth)),
    decreases depth, node, 0nat,
{
    lemma_children(node);
    lemma_each_proper(node.children, 0, machine, Seq::empty(), depth);
    let g = eval_each(node.children, 0, machine, Seq::empty(), depth);
    match g.result {
        Ok(operands) => {
            lemma_operation_sane(node.value->0, operands);
        },
        Err(_) => {},
    }
}

proof fn lemma_index_proper(node: NodeView, machine: Machine, depth: nat)
    requires
        well_formed(node),
        node.kind == NodeType::Index,
        sane_scopes(machine.scopes),
    ensures
        proper(eval_index(node, machine, depth)),
    decreases depth, node, 0nat,
{
    lemma_children(node);
    assert(well_formed(node.children[0]) && has_value(node.children[0].kind));
    assert(well_formed(node.children[1]) && has_value(node.children[1].kind));
    lemma_eval_proper(node.children[0], machine, depth);
    let indexed = eval(node.children[0], machine, depth);
    match indexed.result {
        Ok(first) => {
            lemma_eval_proper(node.children[1], indexed.machine, depth);
            let position = eval(node.children[1], indexed.machine, depth);
            match position.result {
                Ok(second) => {
                    lemma_element_sane(first.value, second.value);
                },
                Err(_) => {},
            }
        },
        Err(_) => {},
    }
}

proof fn lemma_call_proper(node: NodeView, machine: Machine, depth: nat)
    requires
        well_formed(node),
        node.kind == NodeType::FunctionCall,
        sane_scopes(machine.scopes),
    ensures
        proper(eval_call(node, machine, depth)),
    decreases depth, node, 0nat,
{
    let name = node.value->0;
    if !(lookup(machine.scopes, name) is None && !is_builtin(name)) {
        lemma_child(node, 0);
        lemma_children(node.children[0]);
        lemma_each_proper(node.children[0].children, 0, machine, Seq::empty(), depth);
        let g = eval_each(node.children[0].children, 0, machine, Seq::empty(), depth);
        match g.result {
            Ok(arguments) => {
                if lookup(machine.scopes, name) is None {
                    lemma_builtin_proper(name, arguments, g.machine);
                } else {
                    lemma_lookup_sane(g.machine.scopes, name);
                    match lookup(g.machine.scopes, name) {
                        Some(ValueView::Function(function)) => {
                            if depth > 0 {
                                lemma_apply_proper(
                                    function,
                                    arguments,
                                    g.machine,
                                    (depth - 1) as nat,
                                );
                            }
                        },
                        _ => {},
                    }
                }
            },
            Err(_) => {},
        }
    }
}

/// Calling a well-formed function with sane values, in scopes that bind sane
/// values, is proper.
pub proof fn lemma_apply_proper(
    function: NodeView,
    arguments: Seq<ValueView>,
    machine: Machine,
    depth: nat,
)
    requires
        well_formed(function),
        function.kind == NodeType::Function,
        all_sane(arguments),
        sane_scopes(machine.scopes),
    ensures
        proper(apply(function, arguments, machine, depth)),
    decreases depth, function, 0nat,
{
    lemma_child(function, 0);
    lemma_child(function, 1);
    lemma_parameters_named(function.children[0], 0);
    let names = parameter_names(function.children[0].children, 0)->0;
    if names.len() == arguments.len() {
        lemma_frame_sane(names, arguments);
        let entered = machine.scopes.push(frame(names, arguments));
        assert forall|i: int| 0 <= i < entered.len() implies sane_bindings(
            #[trigger] entered[i],
        ) by {
            if i < machine.scopes.len() {
                assert(sane_bindings(machine.scopes[i]));
            }
        }
        lemma_children(function.children[1]);
        lemma_block_proper(
            function.children[1].children,
            0,
            with_scopes(machine, entered),
            ValueView::Null,
            depth,
        );
        let o = eval_block(
            function.children[1].children,
            0,
            with_scopes(machine, entered),
            ValueView::Null,
            depth,
        );
        let left = leave(o.machine.scopes);
        assert forall|i: int| 0 <= i < left.len() implies sane_bindings(#[trigger] left[i]) by {
            assert(sane_bindings(o.machine.scopes[i]));
        }
    }
}

/// Binding the declarations below a well-formed tree leaves the scopes sane.
proof fn lemma_hoist_sane(node: NodeView, scopes: Seq<Bindings>)
    requires
        well_formed(node),
        sane_scopes(scopes),
    ensures
        sane_scopes(hoist(node, scopes)),
    decreases node, 1nat,
{
    assert forall|i: int| 0 <= i < node.children.len() implies well_formed(
        #[trigger] node.children[i],
    ) by {}
    lemma_hoist_each_sane(node.children, 0, scopes);
}

proof fn lemma_hoist_each_sane(nodes: Seq<NodeView>, i: int, scopes: Seq<Bindings>)
    requires
        forall|j: int| 0 <= j < nodes.len() ==> well_formed(#[trigger] nodes[j]),
        sane_scopes(scopes),
    ensures
        sane_scopes(hoist_each(nodes, i, scopes)),
    decreases nodes, nodes.len() - i,
{
    if 0 <= i < nodes.len() {
        assert(well_formed(nodes[i]));
        let declared = if declares(nodes[i]) {
            lemma_child(nodes[i], 1);
            lemma_bind_sane(
                scopes,
                bound_name(nodes[i])->0,
                ValueView::Function(nodes[i].children[1]),
            );
            bind(scopes, bound_name(nodes[i])->0, ValueView::Function(nodes[i].children[1]))
        } else {
            scopes
        };
        lemma_hoist_sane(nodes[i], declared);
        lemma_hoist_each_sane(nodes, i + 1, hoist(nodes[i], declared));
    }
}

/// Running a well-formed program in scopes that bind sane values is proper.
pub proof fn lemma_run_proper(root: NodeView, machine: Machine, depth: nat)
    requires
        well_formed(root),
        root.kind == NodeType::Program,
        sane_scopes(machine.scopes),
    ensures
        proper(run(root, machine, depth)),
{
    lemma_hoist_sane(root, machine.scopes);
    lemma_children(root);
    lemma_block_proper(
        root.children,
        0,
        with_scopes(machine, hoist(root, machine.scopes)),
        ValueView::Number(0),
        depth,
    );
}

/// A program that parses does not fail as a tree that is not well formed:
/// run in scopes that bind sane values, as those of a new interpreter do, it
/// has a sane value or fails in another way, and leaves scopes that bind sane
/// values.
pub proof fn lemma_parsed_programs_run_properly(
    ts: Seq<TokenView>,
    machine: Machine,
    depth: nat,
)
    requires
        sane_scopes(machine.scopes),
    ensures
        program(ts) matches Ok(root) ==> proper(run(root, machine, depth)),
{
    lemma_program_well_formed(ts);
    match program(ts) {
        Ok(root) => {
            lemma_run_proper(root, machine, depth);
        },
        Err(_) => {},
    }
}

} // verus!
