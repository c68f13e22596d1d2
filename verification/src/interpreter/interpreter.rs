use crate::interpreter::builtins::{
    call_pure_builtin, handle_index, is_builtin, literal, names_pure_builtin, print_value, render,
};
use crate::interpreter::error::{value_result_view, RuntimeError};
use crate::interpreter::operators::apply_operator;
use crate::interpreter::scope::{lookup, Scope, ScopeManager};
use crate::laws::frames::{call_keeps, lemma_call_leaves_caller, unchanged};
use crate::laws::hoisting::{
    bound_as_declared, hoisted_as_declared, is_below, lemma_every_declaration_is_hoisted,
    lemma_hoisted_as_declared,
};
use crate::laws::scopes::{lemma_run_balances_scopes, lemma_scope_isolation, same_names};
use crate::interpreter::semantics::{
    apply, bound_name, builtin, declares, done, eval, eval_assignment, eval_block, eval_call, eval_each,
    eval_if, eval_index, eval_operation, eval_reassignment, frame, hoist, hoist_each,
    parameter_names, printed, read_line, run, value_of, with_scopes, without_line_end, Flow,
    Gathered, Machine, Outcome,
};
use crate::laws::soundness::{is_malformed, lemma_run_proper, sane_bindings, sane_scopes};
use crate::node::node::{
    group_node_views, lemma_node_view, lemma_node_views, node_views, text_view, Node, NodeType,
    NodeView,
};
use crate::node::shape::well_formed;
use crate::text::{chars_of, same_text, string_between};
use crate::token::token::{
    group_value_views, lemma_value_views, lemma_value_views_push, value_views, Value, ValueView,
};
use vstd::prelude::*;

verus! {

/// How many calls may be nested unless another limit is set.
pub const DEFAULT_CALL_LIMIT: usize = 128;

/// The value of a node, and whether a `return` was met on the way to it.
pub struct Evaluated {
    pub value: Value,
    pub returned: bool,
}

/// The model of what evaluating a node gave and the state it left.
pub open spec fn outcome_of(r: Result<Evaluated, RuntimeError>, machine: Machine) -> Outcome {
    Outcome {
        machine,
        result: match r {
            Ok(e) => Ok(Flow { value: e.value@, returned: e.returned }),
            Err(e) => Err(e),
        },
    }
}

/// The model of what evaluating a sequence of nodes gave and the state it left.
pub open spec fn gathered_of(r: Result<Vec<Value>, RuntimeError>, machine: Machine) -> Gathered {
    Gathered {
        machine,
        result: match r {
            Ok(values) => Ok(value_views(values@)),
            Err(e) => Err(e),
        },
    }
}

/// The models of a sequence of lines, in order.
pub open spec fn line_views(lines: Seq<String>) -> Seq<Seq<char>> {
    lines.map_values(|line: String| line@)
}

/// A value that is not the result of a `return`.
fn plain(value: Value) -> (r: Result<Evaluated, RuntimeError>)
    ensures
        r == Ok::<Evaluated, RuntimeError>(Evaluated { value, returned: false }),
{
    Ok(Evaluated { value, returned: false })
}

/// A line without the line break at its end.
fn strip_line_end(line: &str) -> (s: String)
    ensures
        s@ == without_line_end(line@),
{
    let chars = chars_of(line);
    let mut end: usize = chars.len();
    if end > 0 && chars[end - 1] == '\n' {
        end -= 1;
    }
    assert(chars@.subrange(0, end as int) =~= if line@.len() > 0 && line@.last() == '\n' {
        line@.drop_last()
    } else {
        line@
    });
    let ghost cut = chars@.subrange(0, end as int);
    if end > 0 && chars[end - 1] == '\r' {
        end -= 1;
    }
    assert(chars@.subrange(0, end as int) =~= if cut.len() > 0 && cut.last() == '\r' {
        cut.drop_last()
    } else {
        cut
    });
    string_between(&chars, 0, end)
}

/// The interpreter: a stack of scopes, the text printed so far, and the lines
/// that `input` will read.
///
/// Calls nest up to a limit, [`DEFAULT_CALL_LIMIT`] unless another is set: a
/// call beyond it fails, so that every run ends.
pub struct Interpreter {
    scope_manager: ScopeManager,
    output: String,
    input: Vec<String>,
    consumed: usize,
    call_limit: usize,
}

impl View for Interpreter {
    type V = Machine;

    closed spec fn view(&self) -> Machine {
        Machine {
            scopes: self.scope_manager@,
            output: self.output@,
            input: line_views(self.input@).skip(self.consumed as int),
        }
    }
}

impl Clone for Interpreter {
    /// A copy of the interpreter in the same state, to go back to.
    fn clone(&self) -> (copy: Self)
        ensures
            copy@ == self@,
            copy.wf() == self.wf(),
            copy.call_limit() == self.call_limit(),
    {
        let mut input: Vec<String> = Vec::new();
        let mut i: usize = 0;
        while i < self.input.len()
            invariant
                i <= self.input.len(),
                input.len() == i,
                forall|j: int| 0 <= j < i ==> input@[j]@ == self.input@[j]@,
            decreases self.input.len() - i,
        {
            input.push(self.input[i].clone());
            i += 1;
        }
        let copy = Interpreter {
            scope_manager: self.scope_manager.clone(),
            output: self.output.clone(),
            input,
            consumed: self.consumed,
            call_limit: self.call_limit,
        };
        assert(line_views(copy.input@) =~= line_views(self.input@));
        copy
    }
}

impl Interpreter {
    /// The lines read so far are lines that were given.
    pub closed spec fn wf(&self) -> bool {
        self.consumed <= self.input.len()
    }

    /// How many calls may be nested.
    pub closed spec fn call_limit(&self) -> nat {
        self.call_limit as nat
    }

    /// Every function that the scopes bind is a well-formed `Function` node.
    /// This holds of a new interpreter, and stays so as long as the programs
    /// that it runs are well formed.
    pub open spec fn sane(&self) -> bool {
        sane_scopes(self@.scopes)
    }

    /// The same interpreter in another state.
    pub open spec fn kept(&self, before: &Interpreter) -> bool {
        &&& self.wf()
        &&& self.call_limit() == before.call_limit()
    }

    /// An interpreter with a global scope that binds nothing, nothing printed
    /// and no line to read.
    pub fn new() -> (interpreter: Interpreter)
        ensures
            interpreter.wf(),
            interpreter.sane(),
            interpreter.call_limit() == DEFAULT_CALL_LIMIT,
            interpreter@ == (Machine {
                scopes: seq![Map::<Seq<char>, ValueView>::empty()],
                output: Seq::empty(),
                input: Seq::empty(),
            }),
    {
        let interpreter = Interpreter {
            scope_manager: ScopeManager::new(),
            output: String::new(),
            input: Vec::new(),
            consumed: 0,
            call_limit: DEFAULT_CALL_LIMIT,
        };
        assert(interpreter@.input =~= Seq::empty());
        assert(sane_bindings(interpreter@.scopes[0]));
        interpreter
    }

    /// Sets how many calls may be nested. Each nested call takes room on the
    /// stack of the host, so a limit should be one that the host can bear.
    pub fn set_call_limit(&mut self, limit: usize)
        requires
            old(self).wf(),
        ensures
            final(self).wf(),
            final(self)@ == old(self)@,
            final(self).call_limit() == limit,
    {
        self.call_limit = limit;
    }

    /// Adds a line for `input` to read, after those already given.
    pub fn push_input(&mut self, line: String)
        requires
            old(self).wf(),
        ensures
            final(self).kept(old(self)),
            final(self)@ == (Machine { input: old(self)@.input.push(line@), ..old(self)@ }),
    {
        self.input.push(line);
        assert(self@.input =~= old(self)@.input.push(line@));
    }

    /// Takes what has been printed, and leaves nothing printed.
    pub fn take_output(&mut self) -> (text: String)
        requires
            old(self).wf(),
        ensures
            final(self).kept(old(self)),
            text@ == old(self)@.output,
            final(self)@ == (Machine { output: Seq::empty(), ..old(self)@ }),
    {
        let mut text = String::new();
        std::mem::swap(&mut self.output, &mut text);
        text
    }

    /// A copy of the value that the innermost scope binding a name gives it,
    /// or `None` where no scope binds the name.
    pub fn lookup(&self, name: &str) -> (r: Option<Value>)
        ensures
            match r {
                Some(value) => lookup(self@.scopes, name@) == Some(value@),
                None => lookup(self@.scopes, name@) is None,
            },
    {
        self.scope_manager.get_identifier(name)
    }

    /// Runs a program: binds its declarations, then evaluates its statements
    /// in order. Returns the value of the last statement evaluated.
    ///
    /// A well-formed program, as the parser gives it, does not fail as a tree
    /// that is not well formed.
    pub fn evaluate(&mut self, root: Node) -> (r: Result<Value, RuntimeError>)
        requires
            old(self).wf(),
        ensures
            final(self).kept(old(self)),
            final(self)@ == run(root@, old(self)@, old(self).call_limit()).machine,
            value_result_view(r) == value_of(run(root@, old(self)@, old(self).call_limit())),
            final(self)@.scopes.len() == old(self)@.scopes.len(),
            old(self).sane() && well_formed(root@) && root.node_type == NodeType::Program ==> {
                &&& final(self).sane()
                &&& r matches Err(e) ==> !is_malformed(e)
            },
    {
        proof {
            lemma_run_balances_scopes(root@, self@, self.call_limit());
            if self.sane() && well_formed(root@) && root.node_type == NodeType::Program {
                lemma_run_proper(root@, self@, self.call_limit());
            }
        }
        self.store_functions(&root);
        let limit = self.call_limit;
        match self.handle_block(&root.children, Value::Number(0), limit) {
            Ok(evaluated) => Ok(evaluated.value),
            Err(e) => Err(e),
        }
    }

    /// The value of a node.
    fn evaluate_helper(&mut self, root: &Node, depth: usize) -> (r: Result<
        Evaluated,
        RuntimeError,
    >)
        requires
            old(self).wf(),
        ensures
            final(self).kept(old(self)),
            outcome_of(r, final(self)@) == eval(root@, old(self)@, depth as nat),
        decreases depth, root, 1nat,
    {
        broadcast use group_node_views;

        match root.node_type {
            NodeType::Literal | NodeType::Identifier => self.parse_value(root, depth),
            NodeType::Expression | NodeType::Term | NodeType::Factor | NodeType::Args => {
                if root.children.len() != 1 {
                    return Err(RuntimeError::InvalidNode);
                }
                self.evaluate_helper(&root.children[0], depth)
            },
            NodeType::Return => {
                if root.children.len() == 0 {
                    return Err(RuntimeError::InvalidNode);
                }
                match self.evaluate_helper(&root.children[0], depth) {
                    Ok(evaluated) => Ok(Evaluated { value: evaluated.value, returned: true }),
                    Err(e) => Err(e),
                }
            },
            NodeType::Block => self.handle_block(&root.children, Value::Null, depth),
            NodeType::List => self.handle_list(root, depth),
            NodeType::If => self.handle_if(root, depth),
            NodeType::Assignment => self.handle_assignment(root, depth),
            NodeType::Reassignment => self.handle_reassignment(root, depth),
            NodeType::Declaration => self.handle_declaration(root, depth),
            NodeType::Operation => self.handle_operator(root, depth),
            NodeType::Index => self.handle_index(root, depth),
            NodeType::FunctionCall => self.handle_function_call(root, depth),
            _ => Err(RuntimeError::InvalidNode),
        }
    }

    /// The value of a literal or of a name.
    fn parse_value(&self, node: &Node, depth: usize) -> (r: Result<Evaluated, RuntimeError>)
        requires
            node.node_type == NodeType::Literal || node.node_type == NodeType::Identifier,
        ensures
            outcome_of(r, self@) == eval(node@, self@, depth as nat),
    {
        let text = match &node.value {
            Some(text) => text,
            None => {
                return Err(RuntimeError::InvalidNode);
            },
        };
        if matches!(node.node_type, NodeType::Literal) {
            match literal(text.as_str()) {
                Ok(value) => plain(value),
                Err(e) => Err(e),
            }
        } else {
            match self.scope_manager.get_identifier(text.as_str()) {
                Some(value) => plain(value),
                None => Err(RuntimeError::IdentifierNotFound),
            }
        }
    }

    /// The children of a block, evaluated in order up to the first that
    /// returns or fails.
    fn handle_block(&mut self, nodes: &Vec<Node>, last: Value, depth: usize) -> (r: Result<
        Evaluated,
        RuntimeError,
    >)
        requires
            old(self).wf(),
        ensures
            final(self).kept(old(self)),
            outcome_of(r, final(self)@) == eval_block(
                node_views(nodes@),
                0,
                old(self)@,
                last@,
                depth as nat,
            ),
        decreases depth, nodes, 0nat,
    {
        broadcast use group_node_views;

        let mut value = last;
        let mut i: usize = 0;
        while i < nodes.len()
            invariant
                i <= nodes.len(),
                self.kept(old(self)),
                eval_block(node_views(nodes@), 0, old(self)@, last@, depth as nat) == eval_block(
                    node_views(nodes@),
                    i as int,
                    self@,
                    value@,
                    depth as nat,
                ),
            decreases nodes.len() - i,
        {
            proof {
                lemma_node_views(nodes@);
            }
            match self.evaluate_helper(&nodes[i], depth) {
                Ok(evaluated) => {
                    if evaluated.returned {
                        return Ok(evaluated);
                    }
                    value = evaluated.value;
                },
                Err(e) => {
                    return Err(e);
                },
            }
            i += 1;
        }
        plain(value)
    }

    /// The values of a sequence of nodes, evaluated in order up to the first
    /// that fails.
    fn evaluate_each(&mut self, nodes: &Vec<Node>, depth: usize) -> (r: Result<
        Vec<Value>,
        RuntimeError,
    >)
        requires
            old(self).wf(),
        ensures
            final(self).kept(old(self)),
            gathered_of(r, final(self)@) == eval_each(
                node_views(nodes@),
                0,
                old(self)@,
                Seq::empty(),
                depth as nat,
            ),
        decreases depth, nodes, 0nat,
    {
        broadcast use group_node_views;

        let mut values: Vec<Value> = Vec::new();
        assert(value_views(values@) =~= Seq::empty());
        let mut i: usize = 0;
        while i < nodes.len()
            invariant
                i <= nodes.len(),
                self.kept(old(self)),
                eval_each(node_views(nodes@), 0, old(self)@, Seq::empty(), depth as nat)
                    == eval_each(
                    node_views(nodes@),
                    i as int,
                    self@,
                    value_views(values@),
                    depth as nat,
                ),
            decreases nodes.len() - i,
        {
            proof {
                lemma_node_views(nodes@);
            }
            match self.evaluate_helper(&nodes[i], depth) {
                Ok(evaluated) => {
                    proof {
                        lemma_value_views_push(values@, evaluated.value);
                    }
                    values.push(evaluated.value);
                },
                Err(e) => {
                    return Err(e);
                },
            }
            i += 1;
        }
        Ok(values)
    }

    fn handle_list(&mut self, root: &Node, depth: usize) -> (r: Result<Evaluated, RuntimeError>)
        requires
            old(self).wf(),
            root.node_type == NodeType::List,
        ensures
            final(self).kept(old(self)),
            outcome_of(r, final(self)@) == eval(root@, old(self)@, depth as nat),
        decreases depth, root, 0nat,
    {
        match self.evaluate_each(&root.children, depth) {
            Ok(values) => plain(Value::List(values)),
            Err(e) => Err(e),
        }
    }

    fn handle_if(&mut self, root: &Node, depth: usize) -> (r: Result<Evaluated, RuntimeError>)
        requires
            old(self).wf(),
        ensures
            final(self).kept(old(self)),
            outcome_of(r, final(self)@) == eval_if(root@, old(self)@, depth as nat),
        decreases depth, root, 0nat,
    {
        broadcast use group_node_views;

        if root.children.len() == 0 {
            return Err(RuntimeError::InvalidNode);
        }
        let condition = match self.evaluate_helper(&root.children[0], depth)?.value {
            Value::Boolean(condition) => condition,
            _ => {
                return Err(RuntimeError::ExpectedBoolean);
            },
        };
        if condition {
            if root.children.len() >= 2 {
                self.evaluate_helper(&root.children[1], depth)
            } else {
                plain(Value::Null)
            }
        } else {
            if root.children.len() >= 3 {
                self.evaluate_helper(&root.children[2], depth)
            } else {
                plain(Value::Null)
            }
        }
    }

    /// A copy of the name that a declaration or an assignment binds.
    fn bound_name(root: &Node) -> (name: Option<String>)
        ensures
            text_view(name) == bound_name(root@),
    {
        broadcast use group_node_views;

        if root.children.len() != 2 {
            return None;
        }
        match &root.children[0].value {
            Some(name) => Some(name.clone()),
            None => None,
        }
    }

    fn handle_assignment(&mut self, root: &Node, depth: usize) -> (r: Result<
        Evaluated,
        RuntimeError,
    >)
        requires
            old(self).wf(),
        ensures
            final(self).kept(old(self)),
            outcome_of(r, final(self)@) == eval_assignment(root@, old(self)@, depth as nat),
        decreases depth, root, 0nat,
    {
        broadcast use group_node_views;

        let name = match Self::bound_name(root) {
            Some(name) => name,
            None => {
                return Err(RuntimeError::InvalidNode);
            },
        };
        let value = self.evaluate_helper(&root.children[1], depth)?.value;
        self.scope_manager.insert_identifier(name, value.clone());
        plain(value)
    }

    fn handle_reassignment(&mut self, root: &Node, depth: usize) -> (r: Result<
        Evaluated,
        RuntimeError,
    >)
        requires
            old(self).wf(),
        ensures
            final(self).kept(old(self)),
            outcome_of(r, final(self)@) == eval_reassignment(root@, old(self)@, depth as nat),
        decreases depth, root, 0nat,
    {
        broadcast use group_node_views;

        let name = match Self::bound_name(root) {
            Some(name) => name,
            None => {
                return Err(RuntimeError::InvalidNode);
            },
        };
        let value = self.evaluate_helper(&root.children[1], depth)?.value;
        if self.scope_manager.reassign_identifier(name, value.clone()) {
            plain(value)
        } else {
            Err(RuntimeError::IdentifierNotFound)
        }
    }

    fn handle_declaration(&mut self, root: &Node, depth: usize) -> (r: Result<
        Evaluated,
        RuntimeError,
    >)
        requires
            old(self).wf(),
            root.node_type == NodeType::Declaration,
        ensures
            final(self).kept(old(self)),
            outcome_of(r, final(self)@) == eval(root@, old(self)@, depth as nat),
    {
        broadcast use group_node_views;

        let name = match Self::bound_name(root) {
            Some(name) => name,
            None => {
                return Err(RuntimeError::InvalidNode);
            },
        };
        let function = Value::Function(root.children[1].clone());
        self.scope_manager.insert_identifier(name, function.clone());
        plain(function)
    }

    fn handle_operator(&mut self, root: &Node, depth: usize) -> (r: Result<
        Evaluated,
        RuntimeError,
    >)
        requires
            old(self).wf(),
        ensures
            final(self).kept(old(self)),
            outcome_of(r, final(self)@) == eval_operation(root@, old(self)@, depth as nat),
        decreases depth, root, 0nat,
    {
        let op = match &root.value {
            Some(op) => op,
            None => {
                return Err(RuntimeError::InvalidNode);
            },
        };
        let operands = self.evaluate_each(&root.children, depth)?;
        match apply_operator(op.as_str(), &operands) {
            Ok(value) => plain(value),
            Err(e) => Err(e),
        }
    }

    fn handle_index(&mut self, root: &Node, depth: usize) -> (r: Result<Evaluated, RuntimeError>)
        requires
            old(self).wf(),
        ensures
            final(self).kept(old(self)),
            outcome_of(r, final(self)@) == eval_index(root@, old(self)@, depth as nat),
        decreases depth, root, 0nat,
    {
        broadcast use group_node_views;

        if root.children.len() != 2 {
            return Err(RuntimeError::InvalidNode);
        }
        let indexed = self.evaluate_helper(&root.children[0], depth)?.value;
        let position = self.evaluate_helper(&root.children[1], depth)?.value;
        match handle_index(&indexed, &position) {
            Ok(value) => plain(value),
            Err(e) => Err(e),
        }
    }

    fn handle_function_call(&mut self, root: &Node, depth: usize) -> (r: Result<
        Evaluated,
        RuntimeError,
    >)
        requires
            old(self).wf(),
        ensures
            final(self).kept(old(self)),
            outcome_of(r, final(self)@) == eval_call(root@, old(self)@, depth as nat),
        decreases depth, root, 0nat,
    {
        broadcast use group_node_views;

        let name = match &root.value {
            Some(name) => name,
            None => {
                return Err(RuntimeError::InvalidNode);
            },
        };
        let user_defined = self.scope_manager.contains_identifier(name.as_str());
        if !user_defined && !Self::names_builtin(name.as_str()) {
            return Err(RuntimeError::FunctionNotFound);
        }
        if root.children.len() == 0 {
            return Err(RuntimeError::InvalidNode);
        }
        let arguments = self.evaluate_each(&root.children[0].children, depth)?;
        if !user_defined {
            return self.handle_builtin(name.as_str(), arguments);
        }
        match self.scope_manager.get_identifier(name.as_str()) {
            Some(Value::Function(function)) => {
                if depth == 0 {
                    return Err(RuntimeError::CallDepthExceeded);
                }
                self.evaluate_function(&function, arguments, depth - 1)
            },
            Some(_) => Err(RuntimeError::ExpectedFunction),
            None => Err(RuntimeError::IdentifierNotFound),
        }
    }

    /// Whether a name is that of a built-in function.
    fn names_builtin(name: &str) -> (r: bool)
        ensures
            r == is_builtin(name@),
    {
        same_text(name, "print") || same_text(name, "println") || same_text(name, "input")
            || names_pure_builtin(name)
    }

    /// A built-in function called with the values of its arguments.
    fn handle_builtin(&mut self, name: &str, arguments: Vec<Value>) -> (r: Result<
        Evaluated,
        RuntimeError,
    >)
        requires
            old(self).wf(),
            is_builtin(name@),
        ensures
            final(self).kept(old(self)),
            outcome_of(r, final(self)@) == builtin(name@, value_views(arguments@), old(self)@),
    {
        broadcast use group_value_views;

        if same_text(name, "input") {
            if arguments.len() != 0 {
                return Err(RuntimeError::ArityMismatch);
            }
            return self.handle_input();
        }
        if arguments.len() != 1 {
            return Err(RuntimeError::ArityMismatch);
        }
        let value = &arguments[0];
        if same_text(name, "print") {
            plain(self.handle_print(value))
        } else if same_text(name, "println") {
            plain(self.handle_println(value))
        } else {
            match call_pure_builtin(name, value) {
                Ok(value) => plain(value),
                Err(e) => Err(e),
            }
        }
    }

    /// `print(x)`: adds to the output what `x` is printed as.
    fn handle_print(&mut self, value: &Value) -> (r: Value)
        requires
            old(self).wf(),
        ensures
            final(self).kept(old(self)),
            done(final(self)@, r@) == printed(old(self)@, value@, false),
    {
        print_value(value, &mut self.output);
        value.clone()
    }

    /// `println(x)`: as `print(x)`, with a line break after it.
    fn handle_println(&mut self, value: &Value) -> (r: Value)
        requires
            old(self).wf(),
        ensures
            final(self).kept(old(self)),
            done(final(self)@, r@) == printed(old(self)@, value@, true),
    {
        print_value(value, &mut self.output);
        self.output.push('\n');
        assert(self.output@ =~= old(self).output@ + render(value@).push('\n'));
        value.clone()
    }

    /// `input()`: the next line to be read, without its line break.
    fn handle_input(&mut self) -> (r: Result<Evaluated, RuntimeError>)
        requires
            old(self).wf(),
        ensures
            final(self).kept(old(self)),
            outcome_of(r, final(self)@) == read_line(old(self)@),
    {
        if self.consumed < self.input.len() {
            let line = strip_line_end(self.input[self.consumed].as_str());
            self.consumed += 1;
            assert(self@.input =~= old(self)@.input.drop_first());
            plain(Value::String(line))
        } else {
            Err(RuntimeError::InputExhausted)
        }
    }

    /// The scope of a call: each parameter bound to its argument. `None`
    /// where a parameter has no name.
    fn frame(parameters: &Vec<Node>, arguments: &Vec<Value>) -> (r: Option<Scope>)
        requires
            parameters.len() == arguments.len(),
        ensures
            match (r, parameter_names(node_views(parameters@), 0)) {
                (Some(scope), Some(names)) => scope@ == frame(names, value_views(arguments@)),
                (None, None) => true,
                _ => false,
            },
    {
        broadcast use group_node_views;
        broadcast use group_value_views;

        let mut scope = Scope::new();
        let mut i: usize = 0;
        let ghost mut names: Seq<Seq<char>> = Seq::empty();
        proof {
            Self::lemma_parameter_names(node_views(parameters@), 0);
            assert(value_views(arguments@).take(0) =~= Seq::empty());
        }
        while i < parameters.len()
            invariant
                i <= parameters.len(),
                parameters.len() == arguments.len(),
                names.len() == i,
                scope@ == frame(names, value_views(arguments@).take(i as int)),
                parameter_names(node_views(parameters@), 0) == match parameter_names(
                    node_views(parameters@),
                    i as int,
                ) {
                    Some(rest) => Some(names + rest),
                    None => None,
                },
            decreases parameters.len() - i,
        {
            proof {
                lemma_node_views(parameters@);
                lemma_node_view(parameters@[i as int]);
                lemma_value_views(arguments@);
            }
            match &parameters[i].value {
                Some(name) => {
                    proof {
                        let all = value_views(arguments@);
                        assert(all.take(i + 1).drop_last() =~= all.take(i as int));
                        assert(names.push(name@).drop_last() =~= names);
                        match parameter_names(node_views(parameters@), i + 1) {
                            Some(rest) => {
                                assert(names + (seq![name@] + rest) =~= names.push(name@) + rest);
                            },
                            None => {},
                        }
                        names = names.push(name@);
                    }
                    scope.insert(name.clone(), arguments[i].clone());
                },
                None => {
                    return None;
                },
            }
            i += 1;
        }
        proof {
            assert(value_views(arguments@).take(i as int) =~= value_views(arguments@));
            assert(names + Seq::<Seq<char>>::empty() =~= names);
        }
        Some(scope)
    }

    /// Where every parameter has a name, there are as many names as
    /// parameters.
    proof fn lemma_parameter_names(parameters: Seq<NodeView>, i: int)
        requires
            0 <= i <= parameters.len(),
        ensures
            parameter_names(parameters, i) matches Some(names) ==> names.len() == parameters.len()
                - i,
            parameter_names(parameters, 0) == match parameter_names(parameters, 0) {
                Some(rest) => Some(Seq::<Seq<char>>::empty() + rest),
                None => None,
            },
        decreases parameters.len() - i,
    {
        if i < parameters.len() {
            Self::lemma_parameter_names(parameters, i + 1);
        }
        match parameter_names(parameters, 0) {
            Some(rest) => {
                assert(Seq::<Seq<char>>::empty() + rest =~= rest);
            },
            None => {},
        }
    }

    /// A function of the program called with the values of its arguments:
    /// a new innermost scope binds each parameter to its argument, the body is
    /// evaluated, and the scope is dropped again, whether the body ended, met a
    /// `return` or failed. `depth` is how many calls may still be nested
    /// inside this one.
    ///
    /// Scope isolation: after the call every scope binds the names it bound
    /// before, and no others, so that a name that was not found before the
    /// call is not found after it, whatever the body has bound.
    ///
    /// Value copy: what the scopes of the caller bind a parameter's name to,
    /// and any name that nothing that runs binds, is after the call what it
    /// was before it, whatever the body has done to the parameter.
    pub fn evaluate_function(&mut self, function: &Node, arguments: Vec<Value>, depth: usize) -> (r:
        Result<Evaluated, RuntimeError>)
        requires
            old(self).wf(),
        ensures
            final(self).kept(old(self)),
            outcome_of(r, final(self)@) == apply(
                function@,
                value_views(arguments@),
                old(self)@,
                depth as nat,
            ),
            same_names(old(self)@.scopes, final(self)@.scopes),
            forall|name: Seq<char>|
                lookup(old(self)@.scopes, name) is None ==> #[trigger] lookup(
                    final(self)@.scopes,
                    name,
                ) is None,
            forall|name: Seq<char>|
                call_keeps(function@, value_views(arguments@), old(self)@.scopes, name)
                    ==> unchanged(old(self)@.scopes, final(self)@.scopes, name) && #[trigger] lookup(
                    final(self)@.scopes,
                    name,
                ) == lookup(old(self)@.scopes, name),
        decreases depth, function, 0nat,
    {
        broadcast use group_node_views;
        broadcast use group_value_views;

        proof {
            let views = value_views(arguments@);
            let after = apply(function@, views, self@, depth as nat).machine.scopes;
            assert forall|name: Seq<char>| lookup(self@.scopes, name) is None implies lookup(
                after,
                name,
            ) is None by {
                lemma_scope_isolation(function@, views, self@, depth as nat, name);
            }
            lemma_scope_isolation(function@, views, self@, depth as nat, Seq::empty());
            assert forall|name: Seq<char>|
                call_keeps(function@, views, self@.scopes, name) implies unchanged(
                self@.scopes,
                after,
                name,
            ) && #[trigger] lookup(after, name) == lookup(self@.scopes, name) by {
                lemma_call_leaves_caller(function@, views, self@, depth as nat, name);
            }
        }

        if function.children.len() != 2 {
            return Err(RuntimeError::InvalidNode);
        }
        let parameters = &function.children[0].children;
        proof {
            Self::lemma_parameter_names(node_views(parameters@), 0);
        }
        if parameters.len() != arguments.len() {
            return Self::mismatch(parameters);
        }
        let scope = match Self::frame(parameters, &arguments) {
            Some(scope) => scope,
            None => {
                return Err(RuntimeError::InvalidNode);
            },
        };
        self.scope_manager.new_scope_with_values(scope);
        let r = self.handle_block(&function.children[1].children, Value::Null, depth);
        self.scope_manager.pop_scope();
        match r {
            Ok(evaluated) => plain(evaluated.value),
            Err(e) => Err(e),
        }
    }

    /// Why a call with the wrong number of arguments fails: a parameter
    /// without a name comes before the number of arguments.
    fn mismatch(parameters: &Vec<Node>) -> (r: Result<Evaluated, RuntimeError>)
        ensures
            r == Err::<Evaluated, RuntimeError>(
                if parameter_names(node_views(parameters@), 0) is Some {
                    RuntimeError::ArityMismatch
                } else {
                    RuntimeError::InvalidNode
                },
            ),
    {
        broadcast use group_node_views;

        let mut i: usize = parameters.len();
        while i > 0
            invariant
                i <= parameters.len(),
                parameter_names(node_views(parameters@), i as int) is Some,
            decreases i,
        {
            i -= 1;
            proof {
                lemma_node_views(parameters@);
                lemma_node_view(parameters@[i as int]);
            }
            if parameters[i].value.is_none() {
                proof {
                    Self::lemma_unnamed(node_views(parameters@), i as int, 0);
                }
                return Err(RuntimeError::InvalidNode);
            }
        }
        Err(RuntimeError::ArityMismatch)
    }

    /// A parameter without a name leaves the parameters without names.
    proof fn lemma_unnamed(parameters: Seq<NodeView>, at: int, i: int)
        requires
            0 <= i <= at < parameters.len(),
            parameters[at].value is None,
        ensures
            parameter_names(parameters, i) is None,
        decreases at - i,
    {
        if i < at {
            Self::lemma_unnamed(parameters, at, i + 1);
        }
    }

    /// Hoisting: binds every declaration below a node, at any depth, in the
    /// innermost scope, in the order in which they are written, so that a
    /// function can be called before the place where it is declared. Nothing
    /// else is bound: a `let` is not hoisted, and no other scope changes.
    pub fn store_functions(&mut self, root: &Node)
        requires
            old(self).wf(),
        ensures
            final(self).kept(old(self)),
            final(self)@ == with_scopes(old(self)@, hoist(root@, old(self)@.scopes)),
            hoisted_as_declared(root@, old(self)@.scopes, final(self)@.scopes),
            old(self)@.scopes.len() > 0 ==> forall|d: NodeView| #[trigger]
                is_below(root@, d) && declares(d) ==> bound_as_declared(
                    root@,
                    final(self)@.scopes,
                    d,
                ),
        decreases root,
    {
        broadcast use group_node_views;

        proof {
            lemma_hoisted_as_declared(root@, self@.scopes);
            if self@.scopes.len() > 0 {
                assert forall|d: NodeView| #[trigger]
                    is_below(root@, d) && declares(d) implies bound_as_declared(
                    root@,
                    hoist(root@, self@.scopes),
                    d,
                ) by {
                    lemma_every_declaration_is_hoisted(root@, self@.scopes, d);
                }
            }
        }

        let mut i: usize = 0;
        while i < root.children.len()
            invariant
                i <= root.children.len(),
                self.kept(old(self)),
                self@ == with_scopes(old(self)@, self@.scopes),
                hoist(root@, old(self)@.scopes) == hoist_each(
                    root@.children,
                    i as int,
                    self@.scopes,
                ),
            decreases root.children.len() - i,
        {
            let child = &root.children[i];
            proof {
                lemma_node_view(*root);
                lemma_node_views(root.children@);
                lemma_node_view(*child);
                lemma_node_views(child.children@);
            }
            if matches!(child.node_type, NodeType::Declaration) {
                match Self::bound_name(child) {
                    Some(name) => {
                        self.scope_manager.insert_identifier(
                            name,
                            Value::Function(child.children[1].clone()),
                        );
                    },
                    None => {},
                }
            }
            self.store_functions(child);
            i += 1;
        }
    }
}

} // verus!
