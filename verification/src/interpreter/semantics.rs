use crate::interpreter::builtins::{element, is_builtin, literal_value, pure_builtin, render};
use crate::interpreter::error::RuntimeError;
use crate::interpreter::operators::operation;
use crate::interpreter::scope::{bind, leave, lookup, reassign, Bindings};
use crate::node::node::{NodeType, NodeView};
use crate::token::token::ValueView;
use vstd::prelude::*;

verus! {

/// The state of the interpreter: the stack of scopes with the global scope
/// first, what has been printed, and the lines still to be read.
pub struct Machine {
    pub scopes: Seq<Bindings>,
    pub output: Seq<char>,
    pub input: Seq<Seq<char>>,
}

/// The value of a node, and whether a `return` was met on the way to it.
pub struct Flow {
    pub value: ValueView,
    pub returned: bool,
}

/// What evaluating a node gives: the state it leaves, and its value or why it
/// has none.
pub struct Outcome {
    pub machine: Machine,
    pub result: Result<Flow, RuntimeError>,
}

/// What evaluating a sequence of nodes gives: the state it leaves, and their
/// values or why they have none.
pub struct Gathered {
    pub machine: Machine,
    pub result: Result<Seq<ValueView>, RuntimeError>,
}

/// The outcome that is a value.
pub open spec fn done(machine: Machine, value: ValueView) -> Outcome {
    Outcome { machine, result: Ok(Flow { value, returned: false }) }
}

/// The outcome that is a failure.
pub open spec fn failed(machine: Machine, error: RuntimeError) -> Outcome {
    Outcome { machine, result: Err(error) }
}

/// The outcome of a computation that leaves the state as it is.
pub open spec fn settled(machine: Machine, r: Result<ValueView, RuntimeError>) -> Outcome {
    match r {
        Ok(value) => done(machine, value),
        Err(error) => failed(machine, error),
    }
}

/// The value of an outcome, without the mark of a `return`.
pub open spec fn value_of(o: Outcome) -> Result<ValueView, RuntimeError> {
    match o.result {
        Ok(flow) => Ok(flow.value),
        Err(e) => Err(e),
    }
}

/// The state with other scopes.
pub open spec fn with_scopes(machine: Machine, scopes: Seq<Bindings>) -> Machine {
    Machine { scopes, ..machine }
}

/// A line without the line break at its end.
pub open spec fn without_line_end(line: Seq<char>) -> Seq<char> {
    let cut = if line.len() > 0 && line.last() == '\n' {
        line.drop_last()
    } else {
        line
    };
    if cut.len() > 0 && cut.last() == '\r' {
        cut.drop_last()
    } else {
        cut
    }
}

/// `input()`: the next line to be read, without its line break. It fails
/// where no line is left.
pub open spec fn read_line(machine: Machine) -> Outcome {
    if machine.input.len() > 0 {
        done(
            Machine { input: machine.input.drop_first(), ..machine },
            ValueView::String(without_line_end(machine.input[0])),
        )
    } else {
        failed(machine, RuntimeError::InputExhausted)
    }
}

/// `print(x)` and `println(x)`: what `x` is printed as is added to the output,
/// with a line break after it for `println`; the value is `x`.
pub open spec fn printed(machine: Machine, value: ValueView, line_break: bool) -> Outcome {
    let text = if line_break {
        render(value).push('\n')
    } else {
        render(value)
    };
    done(Machine { output: machine.output + text, ..machine }, value)
}

/// A built-in function called with the values of its arguments.
pub open spec fn builtin(name: Seq<char>, arguments: Seq<ValueView>, machine: Machine) -> Outcome {
    if name == "input"@ {
        if arguments.len() != 0 {
            failed(machine, RuntimeError::ArityMismatch)
        } else {
            read_line(machine)
        }
    } else if arguments.len() != 1 {
        failed(machine, RuntimeError::ArityMismatch)
    } else if name == "print"@ {
        printed(machine, arguments[0], false)
    } else if name == "println"@ {
        printed(machine, arguments[0], true)
    } else {
        settled(machine, pure_builtin(name, arguments[0]))
    }
}

/// The name that a declaration or an assignment binds: the payload of its
/// first child, where it has two children.
pub open spec fn bound_name(node: NodeView) -> Option<Seq<char>> {
    if node.children.len() == 2 {
        node.children[0].value
    } else {
        None
    }
}

/// The names of the parameters of a function, in order, or `None` where one
/// of them has no name.
pub open spec fn parameter_names(parameters: Seq<NodeView>, i: int) -> Option<Seq<Seq<char>>>
    decreases parameters.len() - i,
{
    if !(0 <= i < parameters.len()) {
        Some(Seq::empty())
    } else {
        match (parameters[i].value, parameter_names(parameters, i + 1)) {
            (Some(name), Some(rest)) => Some(seq![name] + rest),
            _ => None,
        }
    }
}

/// The scope of a call: each parameter bound to its argument, in order.
pub open spec fn frame(names: Seq<Seq<char>>, arguments: Seq<ValueView>) -> Bindings
    decreases names.len(),
{
    if names.len() == 0 || names.len() != arguments.len() {
        Map::empty()
    } else {
        frame(names.drop_last(), arguments.drop_last()).insert(names.last(), arguments.last())
    }
}

/// The value of a node in a state, and the state that evaluating it leaves.
/// `depth` is how many calls may still be nested.
pub open spec fn eval(node: NodeView, machine: Machine, depth: nat) -> Outcome
    decreases depth, node, 1nat,
{
    match node.kind {
        NodeType::Literal => match node.value {
            Some(text) => settled(machine, literal_value(text)),
            None => failed(machine, RuntimeError::InvalidNode),
        },
        NodeType::Identifier => match node.value {
            Some(name) => match lookup(machine.scopes, name) {
                Some(value) => done(machine, value),
                None => failed(machine, RuntimeError::IdentifierNotFound),
            },
            None => failed(machine, RuntimeError::InvalidNode),
        },
        NodeType::Expression | NodeType::Term | NodeType::Factor | NodeType::Args => {
            if node.children.len() != 1 {
                failed(machine, RuntimeError::InvalidNode)
            } else {
                eval(node.children[0], machine, depth)
            }
        },
        NodeType::Return => {
            if node.children.len() == 0 {
                failed(machine, RuntimeError::InvalidNode)
            } else {
                let o = eval(node.children[0], machine, depth);
                match o.result {
                    Ok(flow) => Outcome {
                        machine: o.machine,
                        result: Ok(Flow { value: flow.value, returned: true }),
                    },
                    Err(_) => o,
                }
            }
        },
        NodeType::Block => eval_block(node.children, 0, machine, ValueView::Null, depth),
        NodeType::List => {
            let g = eval_each(node.children, 0, machine, Seq::empty(), depth);
            match g.result {
                Ok(items) => done(g.machine, ValueView::List(items)),
                Err(e) => failed(g.machine, e),
            }
        },
        NodeType::If => eval_if(node, machine, depth),
        NodeType::Assignment => eval_assignment(node, machine, depth),
        NodeType::Reassignment => eval_reassignment(node, machine, depth),
        NodeType::Declaration => match bound_name(node) {
            Some(name) => {
                let function = ValueView::Function(node.children[1]);
                done(with_scopes(machine, bind(machine.scopes, name, function)), function)
            },
            None => failed(machine, RuntimeError::InvalidNode),
        },
        NodeType::Operation => eval_operation(node, machine, depth),
        NodeType::Index => eval_index(node, machine, depth),
        NodeType::FunctionCall => eval_call(node, machine, depth),
        _ => failed(machine, RuntimeError::InvalidNode),
    }
}

/// The children of a block from the one at `i` on, evaluated in order up to
/// the first that returns or fails. The value is that of the last one
/// evaluated, and `last` where there is none.
pub open spec fn eval_block(
    nodes: Seq<NodeView>,
    i: int,
    machine: Machine,
    last: ValueView,
    depth: nat,
) -> Outcome
    decreases depth, nodes, nodes.len() - i,
{
    if !(0 <= i < nodes.len()) {
        done(machine, last)
    } else {
        let o = eval(nodes[i], machine, depth);
        match o.result {
            Ok(flow) => if flow.returned {
                o
            } else {
                eval_block(nodes, i + 1, o.machine, flow.value, depth)
            },
            Err(_) => o,
        }
    }
}

/// The values of the nodes from the one at `i` on, evaluated in order and
/// added to `values`, up to the first that fails.
pub open spec fn eval_each(
    nodes: Seq<NodeView>,
    i: int,
    machine: Machine,
    values: Seq<ValueView>,
    depth: nat,
) -> Gathered
    decreases depth, nodes, nodes.len() - i,
{
    if !(0 <= i < nodes.len()) {
        Gathered { machine, result: Ok(values) }
    } else {
        let o = eval(nodes[i], machine, depth);
        match o.result {
            Ok(flow) => eval_each(nodes, i + 1, o.machine, values.push(flow.value), depth),
            Err(e) => Gathered { machine: o.machine, result: Err(e) },
        }
    }
}

/// `If`: the condition, then the branch it selects. A branch that is not
/// there has the value `Null`.
pub open spec fn eval_if(node: NodeView, machine: Machine, depth: nat) -> Outcome
    decreases depth, node, 0nat,
{
    if node.children.len() == 0 {
        failed(machine, RuntimeError::InvalidNode)
    } else {
        let o = eval(node.children[0], machine, depth);
        match o.result {
            Ok(flow) => match flow.value {
                ValueView::Boolean(condition) => {
                    if condition {
                        if node.children.len() >= 2 {
                            eval(node.children[1], o.machine, depth)
                        } else {
                            done(o.machine, ValueView::Null)
                        }
                    } else {
                        if node.children.len() >= 3 {
                            eval(node.children[2], o.machine, depth)
                        } else {
                            done(o.machine, ValueView::Null)
                        }
                    }
                },
                _ => failed(o.machine, RuntimeError::ExpectedBoolean),
            },
            Err(_) => o,
        }
    }
}

/// `Assignment`: the value of the right side, bound in the innermost scope.
pub open spec fn eval_assignment(node: NodeView, machine: Machine, depth: nat) -> Outcome
    decreases depth, node, 0nat,
{
    match bound_name(node) {
        Some(name) => {
            let o = eval(node.children[1], machine, depth);
            match o.result {
                Ok(flow) => done(
                    with_scopes(o.machine, bind(o.machine.scopes, name, flow.value)),
                    flow.value,
                ),
                Err(_) => o,
            }
        },
        None => failed(machine, RuntimeError::InvalidNode),
    }
}

/// `Reassignment`: the value of the right side, given to the name in the
/// innermost scope that binds it.
pub open spec fn eval_reassignment(node: NodeView, machine: Machine, depth: nat) -> Outcome
    decreases depth, node, 0nat,
{
    match bound_name(node) {
        Some(name) => {
            let o = eval(node.children[1], machine, depth);
            match o.result {
                Ok(flow) => match reassign(o.machine.scopes, name, flow.value) {
                    Some(scopes) => done(with_scopes(o.machine, scopes), flow.value),
                    None => failed(o.machine, RuntimeError::IdentifierNotFound),
                },
                Err(_) => o,
            }
        },
        None => failed(machine, RuntimeError::InvalidNode),
    }
}

/// `Operation`: the operands from left to right, then the operator.
pub open spec fn eval_operation(node: NodeView, machine: Machine, depth: nat) -> Outcome
    decreases depth, node, 0nat,
{
    match node.value {
        Some(op) => {
            let g = eval_each(node.children, 0, machine, Seq::empty(), depth);
            match g.result {
                Ok(operands) => settled(g.machine, operation(op, operands)),
                Err(e) => failed(g.machine, e),
            }
        },
        None => failed(machine, RuntimeError::InvalidNode),
    }
}

/// `Index`: what is indexed, then the position, then the element there.
pub open spec fn eval_index(node: NodeView, machine: Machine, depth: nat) -> Outcome
    decreases depth, node, 0nat,
{
    if node.children.len() != 2 {
        failed(machine, RuntimeError::InvalidNode)
    } else {
        let indexed = eval(node.children[0], machine, depth);
        match indexed.result {
            Ok(first) => {
                let position = eval(node.children[1], indexed.machine, depth);
                match position.result {
                    Ok(second) => settled(position.machine, element(first.value, second.value)),
                    Err(_) => position,
                }
            },
            Err(_) => indexed,
        }
    }
}

/// `FunctionCall`: a name bound in a scope is called as a function of the
/// program, any other as a built-in. The arguments are evaluated from left to
/// right before the call.
pub open spec fn eval_call(node: NodeView, machine: Machine, depth: nat) -> Outcome
    decreases depth, node, 0nat,
{
    match node.value {
        Some(name) => {
            if lookup(machine.scopes, name) is None && !is_builtin(name) {
                failed(machine, RuntimeError::FunctionNotFound)
            } else if node.children.len() == 0 {
                failed(machine, RuntimeError::InvalidNode)
            } else {
                let g = eval_each(node.children[0].children, 0, machine, Seq::empty(), depth);
                match g.result {
                    Ok(arguments) => {
                        if lookup(machine.scopes, name) is None {
                            builtin(name, arguments, g.machine)
                        } else {
                            match lookup(g.machine.scopes, name) {
                                Some(ValueView::Function(function)) => {
                                    if depth == 0 {
                                        failed(g.machine, RuntimeError::CallDepthExceeded)
                                    } else {
                                        apply(function, arguments, g.machine, (depth - 1) as nat)
                                    }
                                },
                                Some(_) => failed(g.machine, RuntimeError::ExpectedFunction),
                                None => failed(g.machine, RuntimeError::IdentifierNotFound),
                            }
                        }
                    },
                    Err(e) => failed(g.machine, e),
                }
            }
        },
        None => failed(machine, RuntimeError::InvalidNode),
    }
}

/// A function of the program called with the values of its arguments: a new
/// innermost scope binds each parameter to its argument, the body is
/// evaluated as a block, and the scope is dropped again, whatever came of the
/// body.
pub open spec fn apply(
    function: NodeView,
    arguments: Seq<ValueView>,
    machine: Machine,
    depth: nat,
) -> Outcome
    decreases depth, function, 0nat,
{
    if function.children.len() != 2 {
        failed(machine, RuntimeError::InvalidNode)
    } else {
        match parameter_names(function.children[0].children, 0) {
            Some(names) => {
                if names.len() != arguments.len() {
                    failed(machine, RuntimeError::ArityMismatch)
                } else {
                    let entered = with_scopes(
                        machine,
                        machine.scopes.push(frame(names, arguments)),
                    );
                    let o = eval_block(
                        function.children[1].children,
                        0,
                        entered,
                        ValueView::Null,
                        depth,
                    );
                    let left = with_scopes(o.machine, leave(o.machine.scopes));
                    match o.result {
                        Ok(flow) => done(left, flow.value),
                        Err(e) => failed(left, e),
                    }
                }
            },
            None => failed(machine, RuntimeError::InvalidNode),
        }
    }
}

/// Whether a node declares a function: a `Declaration` with a name and one
/// more child.
pub open spec fn declares(node: NodeView) -> bool {
    node.kind == NodeType::Declaration && bound_name(node) is Some
}

/// The scopes after every declaration below `node` is bound in the innermost
/// one, in the order in which they are written.
pub open spec fn hoist(node: NodeView, scopes: Seq<Bindings>) -> Seq<Bindings>
    decreases node, 1nat,
{
    hoist_each(node.children, 0, scopes)
}

/// The scopes after every declaration in or below the nodes from the one at
/// `i` on is bound in the innermost one.
pub open spec fn hoist_each(nodes: Seq<NodeView>, i: int, scopes: Seq<Bindings>) -> Seq<Bindings>
    decreases nodes, nodes.len() - i,
{
    if !(0 <= i < nodes.len()) {
        scopes
    } else {
        let declared = if declares(nodes[i]) {
            bind(scopes, bound_name(nodes[i])->0, ValueView::Function(nodes[i].children[1]))
        } else {
            scopes
        };
        hoist_each(nodes, i + 1, hoist(nodes[i], declared))
    }
}

/// A program run in a state: its declarations are bound first, then its
/// statements are evaluated in order. The value is that of the last
/// statement, and the number 0 for a program without statements.
pub open spec fn run(root: NodeView, machine: Machine, depth: nat) -> Outcome {
    eval_block(
        root.children,
        0,
        with_scopes(machine, hoist(root, machine.scopes)),
        ValueView::Number(0),
        depth,
    )
}

} // verus!
