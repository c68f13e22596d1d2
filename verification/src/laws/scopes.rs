use crate::interpreter::scope::{bind, leave, lookup, reassign, Bindings};
use crate::interpreter::semantics::{
    apply, bound_name, eval, eval_assignment, eval_block, eval_call, eval_each, eval_if,
    eval_index, eval_operation, eval_reassignment, frame, hoist, parameter_names, run,
    with_scopes, Machine,
};
use crate::laws::hoisting::{declarations, lemma_bind_all_shape, lemma_hoist_binds_declarations};
use crate::node::node::{NodeType, NodeView};
use crate::token::token::ValueView;
use vstd::prelude::*;

verus! {

/// Whether a scope further in than the one at `i` binds the name, so that
/// what the scope at `i` binds it to cannot be seen.
pub open spec fn hidden(scopes: Seq<Bindings>, i: int, name: Seq<char>) -> bool {
    exists|j: int| i < j < scopes.len() && #[trigger] scopes[j].contains_key(name)
}

/// What evaluation keeps of the scope at `i` for one name: a bound name stays
/// bound; only the innermost scope gets new names; and a hidden binding keeps
/// its value.
pub open spec fn kept_at(
    before: Seq<Bindings>,
    after: Seq<Bindings>,
    i: int,
    name: Seq<char>,
) -> bool {
    &&& before[i].contains_key(name) ==> after[i].contains_key(name)
    &&& i < before.len() - 1 && after[i].contains_key(name) ==> before[i].contains_key(name)
    &&& hidden(before, i, name) && before[i].contains_key(name) ==> after[i][name]
        == before[i][name]
}

/// What evaluation keeps of the scopes: their number, and of each scope what
/// `kept_at` says.
pub open spec fn extends(before: Seq<Bindings>, after: Seq<Bindings>) -> bool {
    &&& after.len() == before.len()
    &&& forall|i: int, name: Seq<char>|
        0 <= i < before.len() ==> #[trigger] kept_at(before, after, i, name)
}

/// Whether two stacks of scopes bind the same names, scope by scope.
pub open spec fn same_names(before: Seq<Bindings>, after: Seq<Bindings>) -> bool {
    &&& after.len() == before.len()
    &&& forall|i: int, name: Seq<char>|
        0 <= i < before.len() ==> (#[trigger] after[i].contains_key(name)
            == before[i].contains_key(name))
}

/// Whether the scope at `i` binds a name after as it did before: to the same
/// value, or not at all.
pub open spec fn same_binding(
    before: Seq<Bindings>,
    after: Seq<Bindings>,
    i: int,
    name: Seq<char>,
) -> bool {
    &&& after[i].contains_key(name) == before[i].contains_key(name)
    &&& before[i].contains_key(name) ==> after[i][name] == before[i][name]
}

proof fn lemma_extends_chain(a: Seq<Bindings>, b: Seq<Bindings>, c: Seq<Bindings>)
    requires
        extends(a, b),
        extends(b, c),
    ensures
        extends(a, c),
{
    assert forall|i: int, name: Seq<char>| 0 <= i < a.len() implies #[trigger] kept_at(
        a,
        c,
        i,
        name,
    ) by {
        assert(kept_at(a, b, i, name));
        assert(kept_at(b, c, i, name));
        if hidden(a, i, name) {
            let j = choose|j: int| i < j < a.len() && #[trigger] a[j].contains_key(name);
            assert(kept_at(a, b, j, name));
            assert(b[j].contains_key(name));
        }
    }
}

proof fn lemma_bind_extends(scopes: Seq<Bindings>, name: Seq<char>, value: ValueView)
    ensures
        extends(scopes, bind(scopes, name, value)),
{
    let after = bind(scopes, name, value);
    assert forall|i: int, other: Seq<char>| 0 <= i < scopes.len() implies #[trigger] kept_at(
        scopes,
        after,
        i,
        other,
    ) by {}
}

/// The place of the innermost scope that binds a name, or `-1`.
pub open spec fn holder(scopes: Seq<Bindings>, name: Seq<char>) -> int
    decreases scopes.len(),
{
    if scopes.len() == 0 {
        -1
    } else if scopes.last().contains_key(name) {
        scopes.len() - 1
    } else {
        holder(scopes.drop_last(), name)
    }
}

/// Reassigning a name gives it the new value in the innermost scope that
/// binds it, and changes nothing else.
pub proof fn lemma_reassign_changes_holder(scopes: Seq<Bindings>, name: Seq<char>, value: ValueView)
    ensures
        -1 <= holder(scopes, name) < scopes.len(),
        holder(scopes, name) >= 0 ==> scopes[holder(scopes, name)].contains_key(name) && !hidden(
            scopes,
            holder(scopes, name),
            name,
        ),
        reassign(scopes, name, value) == if holder(scopes, name) >= 0 {
            Some(
                scopes.update(
                    holder(scopes, name),
                    scopes[holder(scopes, name)].insert(name, value),
                ),
            )
        } else {
            None
        },
    decreases scopes.len(),
{
    if scopes.len() > 0 && !scopes.last().contains_key(name) {
        let below = scopes.drop_last();
        lemma_reassign_changes_holder(below, name, value);
        let k = holder(below, name);
        if k >= 0 {
            assert(below.update(k, below[k].insert(name, value)).push(scopes.last())
                =~= scopes.update(k, scopes[k].insert(name, value)));
            if hidden(scopes, k, name) {
                let j = choose|j: int| k < j < scopes.len() && #[trigger] scopes[j].contains_key(
                    name,
                );
                assert(below[j].contains_key(name));
                assert(hidden(below, k, name));
            }
        }
    }
}

proof fn lemma_reassign_extends(scopes: Seq<Bindings>, name: Seq<char>, value: ValueView)
    ensures
        reassign(scopes, name, value) matches Some(after) ==> extends(scopes, after),
{
    lemma_reassign_changes_holder(scopes, name, value);
    match reassign(scopes, name, value) {
        Some(after) => {
            assert forall|i: int, other: Seq<char>| 0 <= i < scopes.len() implies #[trigger] kept_at(
                scopes,
                after,
                i,
                other,
            ) by {}
        },
        None => {},
    }
}

/// Evaluating a node keeps of the scopes what `extends` says.
pub proof fn lemma_eval_extends(node: NodeView, machine: Machine, depth: nat)
    ensures
        extends(machine.scopes, eval(node, machine, depth).machine.scopes),
    decreases depth, node, 1nat,
{
    let s = machine.scopes;
    lemma_refl(s);
    match node.kind {
        NodeType::Expression | NodeType::Term | NodeType::Factor | NodeType::Args => {
            if node.children.len() == 1 {
                lemma_eval_extends(node.children[0], machine, depth);
            }
        },
        NodeType::Return => {
            if node.children.len() != 0 {
                lemma_eval_extends(node.children[0], machine, depth);
            }
        },
        NodeType::Block => {
            lemma_block_extends(node.children, 0, machine, ValueView::Null, depth);
        },
        NodeType::List => {
            lemma_each_extends(node.children, 0, machine, Seq::empty(), depth);
        },
        NodeType::If => {
            lemma_if_extends(node, machine, depth);
        },
        NodeType::Assignment => {
            lemma_assignment_extends(node, machine, depth);
        },
        NodeType::Reassignment => {
            lemma_reassignment_extends(node, machine, depth);
        },
        NodeType::Declaration => {
            match bound_name(node) {
                Some(name) => {
                    lemma_bind_extends(s, name, ValueView::Function(node.children[1]));
                },
                None => {},
            }
        },
        NodeType::Operation => {
            lemma_operation_extends(node, machine, depth);
        },
        NodeType::Index => {
            lemma_index_extends(node, machine, depth);
        },
        NodeType::FunctionCall => {
            lemma_call_extends(node, machine, depth);
        },
        _ => {},
    }
}

proof fn lemma_refl(s: Seq<Bindings>)
    ensures
        extends(s, s),
{
    assert forall|i: int, name: Seq<char>| 0 <= i < s.len() implies #[trigger] kept_at(
        s,
        s,
        i,
        name,
    ) by {}
}

proof fn lemma_block_extends(
    nodes: Seq<NodeView>,
    i: int,
    machine: Machine,
    last: ValueView,
    depth: nat,
)
    ensures
        extends(machine.scopes, eval_block(nodes, i, machine, last, depth).machine.scopes),
    decreases depth, nodes, nodes.len() - i,
{
    lemma_refl(machine.scopes);
    if 0 <= i < nodes.len() {
        let o = eval(nodes[i], machine, depth);
        lemma_eval_extends(nodes[i], machine, depth);
        match o.result {
            Ok(flow) => {
                if !flow.returned {
                    lemma_block_extends(nodes, i + 1, o.machine, flow.value, depth);
                    lemma_extends_chain(
                        machine.scopes,
                        o.machine.scopes,
                        eval_block(nodes, i + 1, o.machine, flow.value, depth).machine.scopes,
                    );
                }
            },
            Err(_) => {},
        }
    }
}

proof fn lemma_each_extends(
    nodes: Seq<NodeView>,
    i: int,
    machine: Machine,
    values: Seq<ValueView>,
    depth: nat,
)
    ensures
        extends(machine.scopes, eval_each(nodes, i, machine, values, depth).machine.scopes),
    decreases depth, nodes, nodes.len() - i,
{
    lemma_refl(machine.scopes);
    if 0 <= i < nodes.len() {
        let o = eval(nodes[i], machine, depth);
        lemma_eval_extends(nodes[i], machine, depth);
        match o.result {
            Ok(flow) => {
                lemma_each_extends(nodes, i + 1, o.machine, values.push(flow.value), depth);
                lemma_extends_chain(
                    machine.scopes,
                    o.machine.scopes,
                    eval_each(
                        nodes,
                        i + 1,
                        o.machine,
                        values.push(flow.value),
                        depth,
                    ).machine.scopes,
                );
            },
            Err(_) => {},
        }
    }
}

proof fn lemma_if_extends(node: NodeView, machine: Machine, depth: nat)
    ensures
        extends(machine.scopes, eval_if(node, machine, depth).machine.scopes),
    decreases depth, node, 0nat,
{
    lemma_refl(machine.scopes);
    if node.children.len() > 0 {
        let o = eval(node.children[0], machine, depth);
        lemma_eval_extends(node.children[0], machine, depth);
        match o.result {
            Ok(flow) => match flow.value {
                ValueView::Boolean(condition) => {
                    if condition && node.children.len() >= 2 {
                        lemma_eval_extends(node.children[1], o.machine, depth);
                        lemma_extends_chain(
                            machine.scopes,
                            o.machine.scopes,
                            eval(node.children[1], o.machine, depth).machine.scopes,
                        );
                    } else if !condition && node.children.len() >= 3 {
                        lemma_eval_extends(node.children[2], o.machine, depth);
                        lemma_extends_chain(
                            machine.scopes,
                            o.machine.scopes,
                            eval(node.children[2], o.machine, depth).machine.scopes,
                        );
                    }
                },
                _ => {},
            },
            Err(_) => {},
        }
    }
}

proof fn lemma_assignment_extends(node: NodeView, machine: Machine, depth: nat)
    ensures
        extends(machine.scopes, eval_assignment(node, machine, depth).machine.scopes),
    decreases depth, node, 0nat,
{
    lemma_refl(machine.scopes);
    match bound_name(node) {
        Some(name) => {
            let o = eval(node.children[1], machine, depth);
            lemma_eval_extends(node.children[1], machine, depth);
            match o.result {
                Ok(flow) => {
                    lemma_bind_extends(o.machine.scopes, name, flow.value);
                    lemma_extends_chain(
                        machine.scopes,
                        o.machine.scopes,
                        bind(o.machine.scopes, name, flow.value),
                    );
                },
                Err(_) => {},
            }
        },
        None => {},
    }
}

proof fn lemma_reassignment_extends(node: NodeView, machine: Machine, depth: nat)
    ensures
        extends(machine.scopes, eval_reassignment(node, machine, depth).machine.scopes),
    decreases depth, node, 0nat,
{
    lemma_refl(machine.scopes);
    match bound_name(node) {
        Some(name) => {
            let o = eval(node.children[1], machine, depth);
            lemma_eval_extends(node.children[1], machine, depth);
            match o.result {
                Ok(flow) => {
                    lemma_reassign_extends(o.machine.scopes, name, flow.value);
                    match reassign(o.machine.scopes, name, flow.value) {
                        Some(after) => {
                            lemma_extends_chain(machine.scopes, o.machine.scopes, after);
                        },
                        None => {},
                    }
                },
                Err(_) => {},
            }
        },
        None => {},
    }
}

proof fn lemma_operation_extends(node: NodeView, machine: Machine, depth: nat)
    ensures
        extends(machine.scopes, eval_operation(node, machine, depth).machine.scopes),
    decreases depth, node, 0nat,
{
    lemma_refl(machine.scopes);
    if node.value is Some {
        lemma_each_extends(node.children, 0, machine, Seq::empty(), depth);
    }
}

proof fn lemma_index_extends(node: NodeView, machine: Machine, depth: nat)
    ensures
        extends(machine.scopes, eval_index(node, machine, depth).machine.scopes),
    decreases depth, node, 0nat,
{
    lemma_refl(machine.scopes);
    if node.children.len() == 2 {
        let indexed = eval(node.children[0], machine, depth);
        lemma_eval_extends(node.children[0], machine, depth);
        match indexed.result {
            Ok(_) => {
                lemma_eval_extends(node.children[1], indexed.machine, depth);
                lemma_extends_chain(
                    machine.scopes,
                    indexed.machine.scopes,
                    eval(node.children[1], indexed.machine, depth).machine.scopes,
                );
            },
            Err(_) => {},
        }
    }
}

proof fn lemma_call_extends(node: NodeView, machine: Machine, depth: nat)
    ensures
        extends(machine.scopes, eval_call(node, machine, depth).machine.scopes),
    decreases depth, node, 0nat,
{
    lemma_refl(machine.scopes);
    match node.value {
        Some(name) => {
            if node.children.len() > 0 {
                let g = eval_each(node.children[0].children, 0, machine, Seq::empty(), depth);
                lemma_each_extends(node.children[0].children, 0, machine, Seq::empty(), depth);
                match g.result {
                    Ok(arguments) => {
                        match lookup(g.machine.scopes, name) {
                            Some(ValueView::Function(function)) => {
                                if depth > 0 {
                                    lemma_apply_keeps(
                                        function,
                                        arguments,
                                        g.machine,
                                        (depth - 1) as nat,
                                    );
                                    lemma_extends_chain(
                                        machine.scopes,
                                        g.machine.scopes,
                                        apply(
                                            function,
                                            arguments,
                                            g.machine,
                                            (depth - 1) as nat,
                                        ).machine.scopes,
                                    );
                                }
                            },
                            _ => {},
                        }
                    },
                    Err(_) => {},
                }
            }
        },
        None => {},
    }
}

/// A call keeps of the scopes what `extends` says, and leaves each scope with
/// the names it had.
pub proof fn lemma_apply_keeps(
    function: NodeView,
    arguments: Seq<ValueView>,
    machine: Machine,
    depth: nat,
)
    ensures
        extends(machine.scopes, apply(function, arguments, machine, depth).machine.scopes),
        same_names(machine.scopes, apply(function, arguments, machine, depth).machine.scopes),
        function.children.len() == 2 ==> (parameter_names(function.children[0].children, 0)
            matches Some(names) ==> names.len() == arguments.len() ==> forall|
            i: int,
            name: Seq<char>,
        |
            0 <= i < machine.scopes.len() && frame(names, arguments).contains_key(name)
                ==> #[trigger] same_binding(
                machine.scopes,
                apply(function, arguments, machine, depth).machine.scopes,
                i,
                name,
            )),
    decreases depth, function, 0nat,
{
    let s = machine.scopes;
    lemma_refl(s);
    if function.children.len() == 2 {
        match parameter_names(function.children[0].children, 0) {
            Some(names) => {
                if names.len() == arguments.len() {
                    let entered = s.push(frame(names, arguments));
                    let o = eval_block(
                        function.children[1].children,
                        0,
                        with_scopes(machine, entered),
                        ValueView::Null,
                        depth,
                    );
                    lemma_block_extends(
                        function.children[1].children,
                        0,
                        with_scopes(machine, entered),
                        ValueView::Null,
                        depth,
                    );
                    let left = leave(o.machine.scopes);
                    assert forall|i: int, name: Seq<char>| 0 <= i < s.len() implies #[trigger] kept_at(
                        s,
                        left,
                        i,
                        name,
                    ) && left[i].contains_key(name) == s[i].contains_key(name) && (frame(
                        names,
                        arguments,
                    ).contains_key(name) && s[i].contains_key(name) ==> left[i][name]
                        == s[i][name]) by {
                        assert(kept_at(entered, o.machine.scopes, i, name));
                        assert(entered[i] == s[i]);
                        if hidden(s, i, name) {
                            let j = choose|j: int|
                                i < j < s.len() && #[trigger] s[j].contains_key(name);
                            assert(entered[j].contains_key(name));
                        }
                        if frame(names, arguments).contains_key(name) {
                            assert(entered[s.len() as int].contains_key(name));
                        }
                    }
                    assert forall|i: int, name: Seq<char>| 0 <= i < s.len() implies (
                    #[trigger] left[i].contains_key(name) == s[i].contains_key(name)) by {
                        assert(kept_at(s, left, i, name));
                    }
                    assert forall|i: int, name: Seq<char>|
                        0 <= i < s.len() && frame(names, arguments).contains_key(
                            name,
                        ) implies #[trigger] same_binding(s, left, i, name) by {
                        assert(kept_at(s, left, i, name));
                    }
                }
            },
            None => {},
        }
    }
}

/// Every scope that a call pushes is popped again: a program leaves as many
/// scopes as it found, whether it succeeds or fails.
pub proof fn lemma_run_balances_scopes(root: NodeView, machine: Machine, depth: nat)
    ensures
        run(root, machine, depth).machine.scopes.len() == machine.scopes.len(),
{
    lemma_hoist_binds_declarations(root, machine.scopes);
    lemma_bind_all_shape(machine.scopes, declarations(root));
    lemma_block_extends(
        root.children,
        0,
        with_scopes(machine, hoist(root, machine.scopes)),
        ValueView::Number(0),
        depth,
    );
}

/// Two stacks of scopes that bind the same names find the same names.
proof fn lemma_same_names_found(before: Seq<Bindings>, after: Seq<Bindings>, name: Seq<char>)
    requires
        same_names(before, after),
    ensures
        lookup(after, name) is Some == lookup(before, name) is Some,
    decreases before.len(),
{
    if before.len() > 0 {
        assert(after.last().contains_key(name) == before.last().contains_key(name));
        assert forall|i: int, other: Seq<char>| 0 <= i < before.drop_last().len() implies (
        #[trigger] after.drop_last()[i].contains_key(other) == before.drop_last()[i].contains_key(
            other,
        )) by {
            assert(after[i].contains_key(other) == before[i].contains_key(other));
        }
        lemma_same_names_found(before.drop_last(), after.drop_last(), name);
    }
}

/// The scope of a call binds every parameter.
pub proof fn lemma_frame_binds(names: Seq<Seq<char>>, arguments: Seq<ValueView>, k: int)
    requires
        names.len() == arguments.len(),
        0 <= k < names.len(),
    ensures
        frame(names, arguments).contains_key(names[k]),
    decreases names.len(),
{
    if k < names.len() - 1 {
        lemma_frame_binds(names.drop_last(), arguments.drop_last(), k);
    }
}

/// Scope isolation: after a call has returned, every scope binds the names it
/// bound before the call, and no others. A name that the body of the function
/// has bound is not found after the call unless it was found before.
pub proof fn lemma_scope_isolation(
    function: NodeView,
    arguments: Seq<ValueView>,
    machine: Machine,
    depth: nat,
    name: Seq<char>,
)
    ensures
        same_names(machine.scopes, apply(function, arguments, machine, depth).machine.scopes),
        lookup(apply(function, arguments, machine, depth).machine.scopes, name) is Some
            == lookup(machine.scopes, name) is Some,
{
    lemma_apply_keeps(function, arguments, machine, depth);
    lemma_same_names_found(
        machine.scopes,
        apply(function, arguments, machine, depth).machine.scopes,
        name,
    );
}

/// Value copy: whatever the body of a function does to one of its parameters,
/// what the scopes of the caller bind that name to is after the call what it
/// was before it.
pub proof fn lemma_value_copy(
    function: NodeView,
    arguments: Seq<ValueView>,
    machine: Machine,
    depth: nat,
    k: int,
    i: int,
)
    requires
        function.children.len() == 2,
        parameter_names(function.children[0].children, 0) is Some,
        parameter_names(function.children[0].children, 0)->0.len() == arguments.len(),
        0 <= k < arguments.len(),
        0 <= i < machine.scopes.len(),
    ensures
        ({
            let parameter = parameter_names(function.children[0].children, 0)->0[k];
            let after = apply(function, arguments, machine, depth).machine.scopes;
            &&& after.len() == machine.scopes.len()
            &&& after[i].contains_key(parameter) == machine.scopes[i].contains_key(parameter)
            &&& machine.scopes[i].contains_key(parameter) ==> after[i][parameter]
                == machine.scopes[i][parameter]
        }),
{
    let names = parameter_names(function.children[0].children, 0)->0;
    lemma_apply_keeps(function, arguments, machine, depth);
    lemma_frame_binds(names, arguments, k);
    let after = apply(function, arguments, machine, depth).machine.scopes;
    assert(same_binding(machine.scopes, after, i, names[k]));
}

} // verus!
