use crate::interpreter::builtins::element;
use crate::interpreter::operators::operation;
use crate::interpreter::scope::{bind, leave, lookup, reassign, Bindings};
use crate::interpreter::semantics::{
    apply, bound_name, builtin, declares, eval, eval_assignment, eval_block, eval_call, eval_each,
    eval_if, eval_index, eval_operation, eval_reassignment, frame, hoist, hoist_each,
    parameter_names, run, with_scopes, Gathered, Machine, Outcome,
};
use crate::laws::scopes::{
    lemma_apply_keeps, lemma_frame_binds, lemma_reassign_changes_holder, same_binding,
};
use crate::node::node::{NodeType, NodeView};
use crate::token::token::ValueView;
use vstd::prelude::*;

verus! {

/// Whether a node binds the name by itself: an assignment, a reassignment or
/// a declaration of the name.
pub open spec fn binds(node: NodeView, name: Seq<char>) -> bool {
    &&& node.kind == NodeType::Assignment || node.kind == NodeType::Reassignment || node.kind
        == NodeType::Declaration
    &&& bound_name(node) == Some(name)
}

/// Whether a tree holds an assignment, a reassignment or a declaration of
/// the name, at any depth.
pub open spec fn rebinds(node: NodeView, name: Seq<char>) -> bool
    decreases node,
{
    ||| binds(node, name)
    ||| exists|i: int| 0 <= i < node.children.len() && rebinds(#[trigger] node.children[i], name)
}

/// Whether no function in a value rebinds the name.
pub open spec fn quiet(value: ValueView, name: Seq<char>) -> bool
    decreases value,
{
    match value {
        ValueView::Function(function) => !rebinds(function, name),
        ValueView::List(items) => forall|i: int|
            0 <= i < items.len() ==> quiet(#[trigger] items[i], name),
        _ => true,
    }
}

/// Whether every value of a sequence is quiet.
pub open spec fn all_quiet(values: Seq<ValueView>, name: Seq<char>) -> bool {
    forall|i: int| 0 <= i < values.len() ==> quiet(#[trigger] values[i], name)
}

/// Whether every value that a scope binds is quiet.
pub open spec fn quiet_bindings(scope: Bindings, name: Seq<char>) -> bool {
    forall|key: Seq<char>| scope.contains_key(key) ==> quiet(#[trigger] scope[key], name)
}

/// Whether every value that the scopes bind is quiet.
pub open spec fn quiet_scopes(scopes: Seq<Bindings>, name: Seq<char>) -> bool {
    forall|i: int| 0 <= i < scopes.len() ==> quiet_bindings(#[trigger] scopes[i], name)
}

/// Whether every scope binds the name after as it did before.
pub open spec fn unchanged(before: Seq<Bindings>, after: Seq<Bindings>, name: Seq<char>) -> bool {
    &&& after.len() == before.len()
    &&& forall|i: int| 0 <= i < before.len() ==> #[trigger] same_binding(before, after, i, name)
}

/// Whether an outcome leaves the name bound as it was and the scopes quiet,
/// and is a quiet value if it is one.
pub open spec fn kept(before: Seq<Bindings>, o: Outcome, name: Seq<char>) -> bool {
    &&& unchanged(before, o.machine.scopes, name)
    &&& quiet_scopes(o.machine.scopes, name)
    &&& o.result matches Ok(flow) ==> quiet(flow.value, name)
}

/// The same for the outcome of a sequence of nodes.
pub open spec fn kept_each(before: Seq<Bindings>, g: Gathered, name: Seq<char>) -> bool {
    &&& unchanged(before, g.machine.scopes, name)
    &&& quiet_scopes(g.machine.scopes, name)
    &&& g.result matches Ok(values) ==> all_quiet(values, name)
}

proof fn lemma_unchanged_same(scopes: Seq<Bindings>, name: Seq<char>)
    ensures
        unchanged(scopes, scopes, name),
{
    assert forall|i: int| 0 <= i < scopes.len() implies #[trigger] same_binding(
        scopes,
        scopes,
        i,
        name,
    ) by {}
}

proof fn lemma_unchanged_chain(
    a: Seq<Bindings>,
    b: Seq<Bindings>,
    c: Seq<Bindings>,
    name: Seq<char>,
)
    requires
        unchanged(a, b, name),
        unchanged(b, c, name),
    ensures
        unchanged(a, c, name),
{
    assert forall|i: int| 0 <= i < a.len() implies #[trigger] same_binding(a, c, i, name) by {
        assert(same_binding(a, b, i, name));
        assert(same_binding(b, c, i, name));
    }
}

/// A tree that does not rebind a name has no child that does.
proof fn lemma_child_quiet(node: NodeView, i: int, name: Seq<char>)
    requires
        !rebinds(node, name),
        0 <= i < node.children.len(),
    ensures
        !rebinds(node.children[i], name),
{
}

proof fn lemma_children_quiet(nodes: NodeView, name: Seq<char>)
    requires
        !rebinds(nodes, name),
    ensures
        forall|i: int|
            0 <= i < nodes.children.len() ==> !rebinds(#[trigger] nodes.children[i], name),
{
    assert forall|i: int| 0 <= i < nodes.children.len() implies !rebinds(
        #[trigger] nodes.children[i],
        name,
    ) by {
        lemma_child_quiet(nodes, i, name);
    }
}

proof fn lemma_lookup_quiet(scopes: Seq<Bindings>, key: Seq<char>, name: Seq<char>)
    requires
        quiet_scopes(scopes, name),
    ensures
        lookup(scopes, key) matches Some(value) ==> quiet(value, name),
    decreases scopes.len(),
{
    if scopes.len() > 0 {
        assert(quiet_bindings(scopes[scopes.len() - 1], name));
        if !scopes.last().contains_key(key) {
            assert forall|i: int| 0 <= i < scopes.drop_last().len() implies quiet_bindings(
                #[trigger] scopes.drop_last()[i],
                name,
            ) by {
                assert(scopes.drop_last()[i] == scopes[i]);
            }
            lemma_lookup_quiet(scopes.drop_last(), key, name);
        }
    }
}

/// Binding another name leaves the name bound as it was.
proof fn lemma_bind_keeps(scopes: Seq<Bindings>, key: Seq<char>, value: ValueView, name: Seq<char>)
    requires
        quiet_scopes(scopes, name),
        quiet(value, name),
        key != name,
    ensures
        unchanged(scopes, bind(scopes, key, value), name),
        quiet_scopes(bind(scopes, key, value), name),
{
    let after = bind(scopes, key, value);
    assert forall|i: int| 0 <= i < scopes.len() implies #[trigger] same_binding(
        scopes,
        after,
        i,
        name,
    ) by {}
    assert forall|i: int| 0 <= i < after.len() implies quiet_bindings(
        #[trigger] after[i],
        name,
    ) by {
        assert(quiet_bindings(scopes[i], name));
    }
}

/// Reassigning another name leaves the name bound as it was.
proof fn lemma_reassign_keeps(
    scopes: Seq<Bindings>,
    key: Seq<char>,
    value: ValueView,
    name: Seq<char>,
)
    requires
        quiet_scopes(scopes, name),
        quiet(value, name),
        key != name,
    ensures
        reassign(scopes, key, value) matches Some(after) ==> unchanged(scopes, after, name)
            && quiet_scopes(after, name),
{
    lemma_reassign_changes_holder(scopes, key, value);
    match reassign(scopes, key, value) {
        Some(after) => {
            assert forall|i: int| 0 <= i < scopes.len() implies #[trigger] same_binding(
                scopes,
                after,
                i,
                name,
            ) by {}
            assert forall|i: int| 0 <= i < after.len() implies quiet_bindings(
                #[trigger] after[i],
                name,
            ) by {
                assert(quiet_bindings(scopes[i], name));
            }
        },
        None => {},
    }
}

proof fn lemma_operation_quiet(op: Seq<char>, operands: Seq<ValueView>, name: Seq<char>)
    requires
        all_quiet(operands, name),
    ensures
        operation(op, operands) matches Ok(value) ==> quiet(value, name),
{
    if operands.len() == 2 {
        assert(quiet(operands[0], name));
        assert(quiet(operands[1], name));
        match (operands[0], operands[1]) {
            (ValueView::List(x), ValueView::List(y)) => {
                assert forall|i: int| 0 <= i < (x + y).len() implies quiet(
                    #[trigger] (x + y)[i],
                    name,
                ) by {
                    if i < x.len() {
                        assert((x + y)[i] == x[i]);
                    } else {
                        assert((x + y)[i] == y[i - x.len()]);
                    }
                }
            },
            _ => {},
        }
    }
}

proof fn lemma_builtin_keeps(
    key: Seq<char>,
    arguments: Seq<ValueView>,
    machine: Machine,
    name: Seq<char>,
)
    requires
        all_quiet(arguments, name),
        quiet_scopes(machine.scopes, name),
    ensures
        kept(machine.scopes, builtin(key, arguments, machine), name),
{
    lemma_unchanged_same(machine.scopes, name);
    if arguments.len() == 1 {
        let value = arguments[0];
        assert(quiet(value, name));
        match value {
            ValueView::List(items) => {
                if items.len() > 0 {
                    assert(quiet(items[0], name));
                    assert forall|i: int| 0 <= i < items.drop_first().len() implies quiet(
                        #[trigger] items.drop_first()[i],
                        name,
                    ) by {
                        assert(items.drop_first()[i] == items[i + 1]);
                    }
                }
            },
            _ => {},
        }
    }
}

proof fn lemma_element_quiet(indexed: ValueView, position: ValueView, name: Seq<char>)
    requires
        quiet(indexed, name),
    ensures
        element(indexed, position) matches Ok(value) ==> quiet(value, name),
{
    match (indexed, position) {
        (ValueView::List(items), ValueView::Number(i)) => {
            if 0 <= i < items.len() {
                assert(quiet(items[i as int], name));
            }
        },
        _ => {},
    }
}

proof fn lemma_frame_quiet(names: Seq<Seq<char>>, arguments: Seq<ValueView>, name: Seq<char>)
    requires
        all_quiet(arguments, name),
    ensures
        quiet_bindings(frame(names, arguments), name),
    decreases names.len(),
{
    if names.len() > 0 && names.len() == arguments.len() {
        assert forall|i: int| 0 <= i < arguments.drop_last().len() implies quiet(
            #[trigger] arguments.drop_last()[i],
            name,
        ) by {
            assert(arguments.drop_last()[i] == arguments[i]);
        }
        lemma_frame_quiet(names.drop_last(), arguments.drop_last(), name);
        assert(quiet(arguments[arguments.len() - 1], name));
    }
}

/// Evaluating a tree that does not rebind a name, in scopes where no
/// function does, leaves the name bound as it was.
pub proof fn lemma_eval_keeps(node: NodeView, machine: Machine, depth: nat, name: Seq<char>)
    requires
        !rebinds(node, name),
        quiet_scopes(machine.scopes, name),
    ensures
        kept(machine.scopes, eval(node, machine, depth), name),
    decreases depth, node, 1nat,
{
    lemma_unchanged_same(machine.scopes, name);
    lemma_children_quiet(node, name);
    match node.kind {
        NodeType::Identifier => {
            if node.value is Some {
                lemma_lookup_quiet(machine.scopes, node.value->0, name);
            }
        },
        NodeType::Expression | NodeType::Term | NodeType::Factor | NodeType::Args => {
            if node.children.len() == 1 {
                lemma_eval_keeps(node.children[0], machine, depth, name);
            }
        },
        NodeType::Return => {
            if node.children.len() != 0 {
                lemma_eval_keeps(node.children[0], machine, depth, name);
            }
        },
        NodeType::Block => {
            lemma_block_keeps(node.children, 0, machine, ValueView::Null, depth, name);
        },
        NodeType::List => {
            lemma_each_keeps(node.children, 0, machine, Seq::empty(), depth, name);
        },
        NodeType::If => {
            lemma_if_keeps(node, machine, depth, name);
        },
        NodeType::Assignment => {
            lemma_assignment_keeps(node, machine, depth, name);
        },
        NodeType::Reassignment => {
            lemma_reassignment_keeps(node, machine, depth, name);
        },
        NodeType::Declaration => {
            match bound_name(node) {
                Some(key) => {
                    lemma_bind_keeps(
                        machine.scopes,
                        key,
                        ValueView::Function(node.children[1]),
                        name,
                    );
                },
                None => {},
            }
        },
        NodeType::Operation => {
            lemma_operation_keeps(node, machine, depth, name);
        },
        NodeType::Index => {
            lemma_index_keeps(node, machine, depth, name);
        },
        NodeType::FunctionCall => {
            lemma_call_keeps(node, machine, depth, name);
        },
        _ => {},
    }
}

proof fn lemma_block_keeps(
    nodes: Seq<NodeView>,
    i: int,
    machine: Machine,
    last: ValueView,
    depth: nat,
    name: Seq<char>,
)
    requires
        forall|j: int| 0 <= j < nodes.len() ==> !rebinds(#[trigger] nodes[j], name),
        quiet_scopes(machine.scopes, name),
        quiet(last, name),
    ensures
        kept(machine.scopes, eval_block(nodes, i, machine, last, depth), name),
    decreases depth, nodes, nodes.len() - i,
{
    lemma_unchanged_same(machine.scopes, name);
    if 0 <= i < nodes.len() {
        lemma_eval_keeps(nodes[i], machine, depth, name);
        let o = eval(nodes[i], machine, depth);
        match o.result {
            Ok(flow) => {
                if !flow.returned {
                    lemma_block_keeps(nodes, i + 1, o.machine, flow.value, depth, name);
                    lemma_unchanged_chain(
                        machine.scopes,
                        o.machine.scopes,
                        eval_block(nodes, i + 1, o.machine, flow.value, depth).machine.scopes,
                        name,
                    );
                }
            },
            Err(_) => {},
        }
    }
}

proof fn lemma_each_keeps(
    nodes: Seq<NodeView>,
    i: int,
    machine: Machine,
    values: Seq<ValueView>,
    depth: nat,
    name: Seq<char>,
)
    requires
        forall|j: int| 0 <= j < nodes.len() ==> !rebinds(#[trigger] nodes[j], name),
        quiet_scopes(machine.scopes, name),
        all_quiet(values, name),
    ensures
        kept_each(machine.scopes, eval_each(nodes, i, machine, values, depth), name),
    decreases depth, nodes, nodes.len() - i,
{
    lemma_unchanged_same(machine.scopes, name);
    if 0 <= i < nodes.len() {
        lemma_eval_keeps(nodes[i], machine, depth, name);
        let o = eval(nodes[i], machine, depth);
        match o.result {
            Ok(flow) => {
                assert forall|j: int| 0 <= j < values.push(flow.value).len() implies quiet(
                    #[trigger] values.push(flow.value)[j],
                    name,
                ) by {
                    if j < values.len() {
                        assert(values.push(flow.value)[j] == values[j]);
                    }
                }
                lemma_each_keeps(nodes, i + 1, o.machine, values.push(flow.value), depth, name);
                lemma_unchanged_chain(
                    machine.scopes,
                    o.machine.scopes,
                    eval_each(
                        nodes,
                        i + 1,
                        o.machine,
                        values.push(flow.value),
                        depth,
                    ).machine.scopes,
                    name,
                );
            },
            Err(_) => {},
        }
    }
}

proof fn lemma_if_keeps(node: NodeView, machine: Machine, depth: nat, name: Seq<char>)
    requires
        !rebinds(node, name),
        quiet_scopes(machine.scopes, name),
    ensures
        kept(machine.scopes, eval_if(node, machine, depth), name),
    decreases depth, node, 0nat,
{
    lemma_unchanged_same(machine.scopes, name);
    lemma_children_quiet(node, name);
    if node.children.len() > 0 {
        lemma_eval_keeps(node.children[0], machine, depth, name);
        let o = eval(node.children[0], machine, depth);
        match o.result {
            Ok(flow) => match flow.value {
                ValueView::Boolean(condition) => {
                    if condition && node.children.len() >= 2 {
                        lemma_eval_keeps(node.children[1], o.machine, depth, name);
                        lemma_unchanged_chain(
                            machine.scopes,
                            o.machine.scopes,
                            eval(node.children[1], o.machine, depth).machine.scopes,
                            name,
                        );
                    } else if !condition && node.children.len() >= 3 {
                        lemma_eval_keeps(node.children[2], o.machine, depth, name);
                        lemma_unchanged_chain(
                            machine.scopes,
                            o.machine.scopes,
                            eval(node.children[2], o.machine, depth).machine.scopes,
                            name,
                        );
                    }
                },
                _ => {},
            },
            Err(_) => {},
        }
    }
}

proof fn lemma_assignment_keeps(node: NodeView, machine: Machine, depth: nat, name: Seq<char>)
    requires
        !rebinds(node, name),
        node.kind == NodeType::Assignment,
        quiet_scopes(machine.scopes, name),
    ensures
        kept(machine.scopes, eval_assignment(node, machine, depth), name),
    decreases depth, node, 0nat,
{
    lemma_unchanged_same(machine.scopes, name);
    lemma_children_quiet(node, name);
    match bound_name(node) {
        Some(key) => {
            lemma_eval_keeps(node.children[1], machine, depth, name);
            let o = eval(node.children[1], machine, depth);
            match o.result {
                Ok(flow) => {
                    lemma_bind_keeps(o.machine.scopes, key, flow.value, name);
                    lemma_unchanged_chain(
                        machine.scopes,
                        o.machine.scopes,
                        bind(o.machine.scopes, key, flow.value),
                        name,
                    );
                },
                Err(_) => {},
            }
        },
        None => {},
    }
}

proof fn lemma_reassignment_keeps(node: NodeView, machine: Machine, depth: nat, name: Seq<char>)
    requires
        !rebinds(node, name),
        node.kind == NodeType::Reassignment,
        quiet_scopes(machine.scopes, name),
    ensures
        kept(machine.scopes, eval_reassignment(node, machine, depth), name),
    decreases depth, node, 0nat,
{
    lemma_unchanged_same(machine.scopes, name);
    lemma_children_quiet(node, name);
    match bound_name(node) {
        Some(key) => {
            lemma_eval_keeps(node.children[1], machine, depth, name);
            let o = eval(node.children[1], machine, depth);
            match o.result {
                Ok(flow) => {
                    lemma_reassign_keeps(o.machine.scopes, key, flow.value, name);
                    match reassign(o.machine.scopes, key, flow.value) {
                        Some(after) => {
                            lemma_unchanged_chain(machine.scopes, o.machine.scopes, after, name);
                        },
                        None => {},
                    }
                },
                Err(_) => {},
            }
        },
        None => {},
    }
}

proof fn lemma_operation_keeps(node: NodeView, machine: Machine, depth: nat, name: Seq<char>)
    requires
        !rebinds(node, name),
        quiet_scopes(machine.scopes, name),
    ensures
        kept(machine.scopes, eval_operation(node, machine, depth), name),
    decreases depth, node, 0nat,
{
    lemma_unchanged_same(machine.scopes, name);
    lemma_children_quiet(node, name);
    if node.value is Some {
        lemma_each_keeps(node.children, 0, machine, Seq::empty(), depth, name);
        let g = eval_each(node.children, 0, machine, Seq::empty(), depth);
        match g.result {
            Ok(operands) => {
                lemma_operation_quiet(node.value->0, operands, name);
            },
            Err(_) => {},
        }
    }
}

proof fn lemma_index_keeps(node: NodeView, machine: Machine, depth: nat, name: Seq<char>)
    requires
        !rebinds(node, name),
        quiet_scopes(machine.scopes, name),
    ensures
        kept(machine.scopes, eval_index(node, machine, depth), name),
    decreases depth, node, 0nat,
{
    lemma_unchanged_same(machine.scopes, name);
    lemma_children_quiet(node, name);
    if node.children.len() == 2 {
        lemma_eval_keeps(node.children[0], machine, depth, name);
        let indexed = eval(node.children[0], machine, depth);
        match indexed.result {
            Ok(first) => {
                lemma_eval_keeps(node.children[1], indexed.machine, depth, name);
                let position = eval(node.children[1], indexed.machine, depth);
                lemma_unchanged_chain(
                    machine.scopes,
                    indexed.machine.scopes,
                    position.machine.scopes,
                    name,
                );
                match position.result {
                    Ok(second) => {
                        lemma_element_quiet(first.value, second.value, name);
                    },
                    Err(_) => {},
                }
            },
            Err(_) => {},
        }
    }
}

proof fn lemma_call_keeps(node: NodeView, machine: Machine, depth: nat, name: Seq<char>)
    requires
        !rebinds(node, name),
        quiet_scopes(machine.scopes, name),
    ensures
        kept(machine.scopes, eval_call(node, machine, depth), name),
    decreases depth, node, 0nat,
{
    lemma_unchanged_same(machine.scopes, name);
    lemma_children_quiet(node, name);
    match node.value {
        Some(key) => {
            if node.children.len() > 0 {
                lemma_children_quiet(node.children[0], name);
                lemma_each_keeps(
                    node.children[0].children,
                    0,
                    machine,
                    Seq::empty(),
                    depth,
                    name,
                );
                let g = eval_each(node.children[0].children, 0, machine, Seq::empty(), depth);
                match g.result {
                    Ok(arguments) => {
                        if lookup(machine.scopes, key) is None {
                            lemma_builtin_keeps(key, arguments, g.machine, name);
                            lemma_unchanged_chain(
                                machine.scopes,
                                g.machine.scopes,
                                builtin(key, arguments, g.machine).machine.scopes,
                                name,
                            );
                        } else {
                            lemma_lookup_quiet(g.machine.scopes, key, name);
                            match lookup(g.machine.scopes, key) {
                                Some(ValueView::Function(function)) => {
                                    if depth > 0 {
                                        lemma_apply_keeps_name(
                                            function,
                                            arguments,
                                            g.machine,
                                            (depth - 1) as nat,
                                            name,
                                        );
                                        lemma_unchanged_chain(
                                            machine.scopes,
                                            g.machine.scopes,
                                            apply(
                                                function,
                                                arguments,
                                                g.machine,
                                                (depth - 1) as nat,
                                            ).machine.scopes,
                                            name,
                                        );
                                    }
                                },
                                _ => {},
                            }
                        }
                    },
                    Err(_) => {},
                }
            }
        },
        None => {},
    }
}

/// A call of a function that does not rebind a name, in scopes where no
/// function does, leaves the name bound as it was before the call.
pub proof fn lemma_apply_keeps_name(
    function: NodeView,
    arguments: Seq<ValueView>,
    machine: Machine,
    depth: nat,
    name: Seq<char>,
)
    requires
        !rebinds(function, name),
        all_quiet(arguments, name),
        quiet_scopes(machine.scopes, name),
    ensures
        kept(machine.scopes, apply(function, arguments, machine, depth), name),
    decreases depth, function, 0nat,
{
    let s = machine.scopes;
    lemma_unchanged_same(s, name);
    if function.children.len() == 2 {
        lemma_child_quiet(function, 1, name);
        lemma_children_quiet(function.children[1], name);
        match parameter_names(function.children[0].children, 0) {
            Some(names) => {
                if names.len() == arguments.len() {
                    lemma_frame_quiet(names, arguments, name);
                    let entered = s.push(frame(names, arguments));
                    assert forall|i: int| 0 <= i < entered.len() implies quiet_bindings(
                        #[trigger] entered[i],
                        name,
                    ) by {
                        if i < s.len() {
                            assert(quiet_bindings(s[i], name));
                        }
                    }
                    lemma_block_keeps(
                        function.children[1].children,
                        0,
                        with_scopes(machine, entered),
                        ValueView::Null,
                        depth,
                        name,
                    );
                    let o = eval_block(
                        function.children[1].children,
                        0,
                        with_scopes(machine, entered),
                        ValueView::Null,
                        depth,
                    );
                    let left = leave(o.machine.scopes);
                    assert forall|i: int| 0 <= i < s.len() implies #[trigger] same_binding(
                        s,
                        left,
                        i,
                        name,
                    ) by {
                        assert(same_binding(entered, o.machine.scopes, i, name));
                        assert(entered[i] == s[i]);
                    }
                    assert forall|i: int| 0 <= i < left.len() implies quiet_bindings(
                        #[trigger] left[i],
                        name,
                    ) by {
                        assert(quiet_bindings(o.machine.scopes[i], name));
                    }
                }
            },
            None => {},
        }
    }
}

/// A name that every scope binds as before is found as before.
pub proof fn lemma_unchanged_found(before: Seq<Bindings>, after: Seq<Bindings>, name: Seq<char>)
    requires
        unchanged(before, after, name),
    ensures
        lookup(after, name) == lookup(before, name),
    decreases before.len(),
{
    if before.len() > 0 {
        assert(same_binding(before, after, before.len() - 1, name));
        assert forall|i: int| 0 <= i < before.drop_last().len() implies #[trigger] same_binding(
            before.drop_last(),
            after.drop_last(),
            i,
            name,
        ) by {
            assert(same_binding(before, after, i, name));
        }
        lemma_unchanged_found(before.drop_last(), after.drop_last(), name);
    }
}

/// Whether a name is that of a parameter of a function that is called with
/// as many arguments as it has parameters.
pub open spec fn is_parameter(
    function: NodeView,
    arguments: Seq<ValueView>,
    name: Seq<char>,
) -> bool {
    &&& function.children.len() == 2
    &&& parameter_names(function.children[0].children, 0) matches Some(names) && names.len()
        == arguments.len() && names.contains(name)
}

/// Whether a call cannot change what the scopes of the caller bind a name
/// to: the name is that of a parameter, which the scope of the call hides; or
/// neither the function, nor an argument, nor a function that the scopes
/// bind holds an assignment, a reassignment or a declaration of the name.
pub open spec fn call_keeps(
    function: NodeView,
    arguments: Seq<ValueView>,
    before: Seq<Bindings>,
    name: Seq<char>,
) -> bool {
    ||| is_parameter(function, arguments, name)
    ||| !rebinds(function, name) && all_quiet(arguments, name) && quiet_scopes(before, name)
}

/// Value copy: a call leaves what the scopes of the caller bind a name to as
/// it was, and the name is found after the call as it was before it, where
/// the name is that of a parameter, whatever the body does to it, or where
/// nothing that runs binds the name.
pub proof fn lemma_call_leaves_caller(
    function: NodeView,
    arguments: Seq<ValueView>,
    machine: Machine,
    depth: nat,
    name: Seq<char>,
)
    requires
        call_keeps(function, arguments, machine.scopes, name),
    ensures
        unchanged(machine.scopes, apply(function, arguments, machine, depth).machine.scopes, name),
        lookup(apply(function, arguments, machine, depth).machine.scopes, name) == lookup(
            machine.scopes,
            name,
        ),
{
    let after = apply(function, arguments, machine, depth).machine.scopes;
    if is_parameter(function, arguments, name) {
        let names = parameter_names(function.children[0].children, 0)->0;
        let k = choose|k: int| 0 <= k < names.len() && names[k] == name;
        lemma_frame_binds(names, arguments, k);
        lemma_apply_keeps(function, arguments, machine, depth);
        assert forall|i: int| 0 <= i < machine.scopes.len() implies #[trigger] same_binding(
            machine.scopes,
            after,
            i,
            name,
        ) by {}
    } else {
        lemma_apply_keeps_name(function, arguments, machine, depth, name);
    }
    lemma_unchanged_found(machine.scopes, after, name);
}

/// Whether a function binds only its parameters: every name of which it
/// holds an assignment, a reassignment or a declaration is that of one of its
/// parameters.
pub open spec fn binds_only_parameters(function: NodeView, arguments: Seq<ValueView>) -> bool {
    forall|name: Seq<char>| #[trigger]
        rebinds(function, name) ==> is_parameter(function, arguments, name)
}

/// Value copy: a call of a function that binds only its parameters, whatever
/// it binds them to and however often, leaves every variable of the caller
/// as it was: a name is found after the call bound to the value it was bound
/// to before it. So a list that is handed to the function is still the same
/// list after the call. This holds of every name of which no argument and no
/// function in the scopes holds a binding.
pub proof fn lemma_rebinding_parameters_changes_nothing(
    function: NodeView,
    arguments: Seq<ValueView>,
    machine: Machine,
    depth: nat,
    name: Seq<char>,
)
    requires
        binds_only_parameters(function, arguments),
        all_quiet(arguments, name),
        quiet_scopes(machine.scopes, name),
    ensures
        unchanged(machine.scopes, apply(function, arguments, machine, depth).machine.scopes, name),
        lookup(apply(function, arguments, machine, depth).machine.scopes, name) == lookup(
            machine.scopes,
            name,
        ),
{
    if rebinds(function, name) {
        assert(is_parameter(function, arguments, name));
    }
    lemma_call_leaves_caller(function, arguments, machine, depth, name);
}

/// Binding the declarations below a tree that does not rebind a name leaves
/// the name bound as it was.
proof fn lemma_hoist_keeps(node: NodeView, scopes: Seq<Bindings>, name: Seq<char>)
    requires
        !rebinds(node, name),
        quiet_scopes(scopes, name),
    ensures
        unchanged(scopes, hoist(node, scopes), name),
        quiet_scopes(hoist(node, scopes), name),
    decreases node, 1nat,
{
    lemma_children_quiet(node, name);
    lemma_hoist_each_keeps(node.children, 0, scopes, name);
}

proof fn lemma_hoist_each_keeps(
    nodes: Seq<NodeView>,
    i: int,
    scopes: Seq<Bindings>,
    name: Seq<char>,
)
    requires
        forall|j: int| 0 <= j < nodes.len() ==> !rebinds(#[trigger] nodes[j], name),
        quiet_scopes(scopes, name),
    ensures
        unchanged(scopes, hoist_each(nodes, i, scopes), name),
        quiet_scopes(hoist_each(nodes, i, scopes), name),
    decreases nodes, nodes.len() - i,
{
    lemma_unchanged_same(scopes, name);
    if 0 <= i < nodes.len() {
        assert(!rebinds(nodes[i], name));
        let declared = if declares(nodes[i]) {
            lemma_child_quiet(nodes[i], 1, name);
            lemma_bind_keeps(
                scopes,
                bound_name(nodes[i])->0,
                ValueView::Function(nodes[i].children[1]),
                name,
            );
            bind(scopes, bound_name(nodes[i])->0, ValueView::Function(nodes[i].children[1]))
        } else {
            scopes
        };
        lemma_unchanged_same(declared, name);
        lemma_hoist_keeps(nodes[i], declared, name);
        lemma_hoist_each_keeps(nodes, i + 1, hoist(nodes[i], declared), name);
        lemma_unchanged_chain(scopes, declared, hoist(nodes[i], declared), name);
        lemma_unchanged_chain(
            scopes,
            hoist(nodes[i], declared),
            hoist_each(nodes, i + 1, hoist(nodes[i], declared)),
            name,
        );
    }
}

/// Only what binds a name changes what it is bound to: a program that holds
/// no assignment, reassignment or declaration of a name, run in scopes where
/// no function holds one, leaves every scope binding the name as it did.
pub proof fn lemma_run_keeps_name(root: NodeView, machine: Machine, depth: nat, name: Seq<char>)
    requires
        !rebinds(root, name),
        quiet_scopes(machine.scopes, name),
    ensures
        unchanged(machine.scopes, run(root, machine, depth).machine.scopes, name),
        quiet_scopes(run(root, machine, depth).machine.scopes, name),
{
    lemma_hoist_keeps(root, machine.scopes, name);
    lemma_children_quiet(root, name);
    let ready = with_scopes(machine, hoist(root, machine.scopes));
    lemma_block_keeps(root.children, 0, ready, ValueView::Number(0), depth, name);
    lemma_unchanged_chain(
        machine.scopes,
        ready.scopes,
        run(root, machine, depth).machine.scopes,
        name,
    );
}

} // verus!
