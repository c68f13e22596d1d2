use crate::interpreter::scope::{bind, lemma_lookup_bind, lookup, Bindings};
use crate::interpreter::semantics::{
    apply, bound_name, declares, eval, eval_call, eval_each, hoist, hoist_each, with_scopes,
    Machine,
};
use crate::laws::frames::{lemma_unchanged_found, unchanged};
use crate::laws::scopes::same_binding;
use crate::node::node::{NodeType, NodeView};
use crate::parser::grammar::{branch, named};
use crate::token::token::ValueView;
use vstd::prelude::*;

verus! {

/// A declaration: the name it binds and the function it binds the name to.
pub type Declared = (Seq<char>, NodeView);

/// What a node declares by itself.
pub open spec fn own_declaration(node: NodeView) -> Seq<Declared> {
    if declares(node) {
        seq![(bound_name(node)->0, node.children[1])]
    } else {
        Seq::empty()
    }
}

/// The declarations below a node at any depth, in the order in which they
/// are written.
pub open spec fn declarations(node: NodeView) -> Seq<Declared>
    decreases node, 1nat,
{
    declarations_each(node.children, 0)
}

/// The declarations in and below the nodes from the one at `i` on.
pub open spec fn declarations_each(nodes: Seq<NodeView>, i: int) -> Seq<Declared>
    decreases nodes, nodes.len() - i,
{
    if !(0 <= i < nodes.len()) {
        Seq::empty()
    } else {
        own_declaration(nodes[i]) + declarations(nodes[i]) + declarations_each(nodes, i + 1)
    }
}

/// The scopes after each declaration of a list is bound in the innermost one,
/// in order.
pub open spec fn bind_all(scopes: Seq<Bindings>, list: Seq<Declared>) -> Seq<Bindings>
    decreases list.len(),
{
    if list.len() == 0 {
        scopes
    } else {
        bind(bind_all(scopes, list.drop_last()), list.last().0, ValueView::Function(list.last().1))
    }
}

/// Binding two lists one after the other is binding them joined.
pub proof fn lemma_bind_all_joined(scopes: Seq<Bindings>, first: Seq<Declared>, second: Seq<Declared>)
    ensures
        bind_all(scopes, first + second) == bind_all(bind_all(scopes, first), second),
    decreases second.len(),
{
    if second.len() == 0 {
        assert(first + second =~= first);
    } else {
        lemma_bind_all_joined(scopes, first, second.drop_last());
        assert((first + second).drop_last() =~= first + second.drop_last());
    }
}

/// Binding a list changes neither the number of scopes nor any scope but the
/// innermost.
pub proof fn lemma_bind_all_shape(scopes: Seq<Bindings>, list: Seq<Declared>)
    ensures
        bind_all(scopes, list).len() == scopes.len(),
        forall|i: int| 0 <= i < scopes.len() - 1 ==> bind_all(scopes, list)[i] == scopes[i],
    decreases list.len(),
{
    if list.len() > 0 {
        lemma_bind_all_shape(scopes, list.drop_last());
    }
}

/// After a list is bound, a name is bound in the innermost scope to the
/// function of its last declaration in the list, and found as that.
pub proof fn lemma_bind_all_last_wins(scopes: Seq<Bindings>, list: Seq<Declared>, k: int)
    requires
        scopes.len() > 0,
        0 <= k < list.len(),
        forall|j: int| k < j < list.len() ==> list[j].0 != list[k].0,
    ensures
        lookup(bind_all(scopes, list), list[k].0) == Some(ValueView::Function(list[k].1)),
        bind_all(scopes, list).last().contains_key(list[k].0),
        bind_all(scopes, list).last()[list[k].0] == ValueView::Function(list[k].1),
    decreases list.len(),
{
    lemma_bind_all_shape(scopes, list.drop_last());
    lemma_lookup_bind(
        bind_all(scopes, list.drop_last()),
        list.last().0,
        ValueView::Function(list.last().1),
        list[k].0,
    );
    if k < list.len() - 1 {
        lemma_bind_all_last_wins(scopes, list.drop_last(), k);
    }
}

/// Whether a list holds a declaration of the name.
pub open spec fn declares_name(list: Seq<Declared>, name: Seq<char>) -> bool {
    exists|j: int| 0 <= j < list.len() && (#[trigger] list[j]).0 == name
}

/// Whether the declaration at `k` is the last of its name in the list.
pub open spec fn is_last_of_its_name(list: Seq<Declared>, k: int) -> bool {
    &&& 0 <= k < list.len()
    &&& forall|j: int| k < j < list.len() ==> (#[trigger] list[j]).0 != list[k].0
}

/// Binding a list leaves a name that the list does not declare bound as it
/// was.
pub proof fn lemma_bind_all_keeps_others(
    scopes: Seq<Bindings>,
    list: Seq<Declared>,
    name: Seq<char>,
)
    requires
        !declares_name(list, name),
    ensures
        unchanged(scopes, bind_all(scopes, list), name),
        lookup(bind_all(scopes, list), name) == lookup(scopes, name),
    decreases list.len(),
{
    if list.len() == 0 {
        assert forall|i: int| 0 <= i < scopes.len() implies #[trigger] same_binding(
            scopes,
            scopes,
            i,
            name,
        ) by {}
    } else {
        let before = list.drop_last();
        assert forall|j: int| 0 <= j < before.len() implies (#[trigger] before[j]).0 != name by {
            assert(before[j] == list[j]);
        }
        lemma_bind_all_keeps_others(scopes, before, name);
        assert(list[list.len() - 1].0 != name);
        let mid = bind_all(scopes, before);
        let after = bind_all(scopes, list);
        assert forall|i: int| 0 <= i < scopes.len() implies #[trigger] same_binding(
            scopes,
            after,
            i,
            name,
        ) by {
            assert(same_binding(scopes, mid, i, name));
        }
    }
    lemma_unchanged_found(scopes, bind_all(scopes, list), name);
}

/// What hoisting does to the scopes: it binds the declarations below the
/// root in the innermost scope, in the order in which they are written, and
/// nothing else. Each declared name is bound there to the function of its
/// last declaration, at whatever depth that is written; every other scope
/// stays as it was; and a name that is not declared is found as before.
pub open spec fn hoisted_as_declared(
    root: NodeView,
    before: Seq<Bindings>,
    after: Seq<Bindings>,
) -> bool {
    let list = declarations(root);
    &&& after == bind_all(before, list)
    &&& after.len() == before.len()
    &&& forall|i: int| 0 <= i < before.len() - 1 ==> #[trigger] after[i] == before[i]
    &&& before.len() > 0 ==> forall|k: int| #[trigger]
        is_last_of_its_name(list, k) ==> {
            &&& after.last().contains_key(list[k].0)
            &&& after.last()[list[k].0] == ValueView::Function(list[k].1)
            &&& lookup(after, list[k].0) == Some(ValueView::Function(list[k].1))
        }
    &&& forall|name: Seq<char>| !(#[trigger] declares_name(list, name)) ==> lookup(after, name)
        == lookup(before, name)
}

/// Hoisting: binding the declarations of a program is what
/// `hoisted_as_declared` says.
pub proof fn lemma_hoisted_as_declared(root: NodeView, scopes: Seq<Bindings>)
    ensures
        hoisted_as_declared(root, scopes, hoist(root, scopes)),
{
    let list = declarations(root);
    lemma_hoist_binds_declarations(root, scopes);
    lemma_bind_all_shape(scopes, list);
    if scopes.len() > 0 {
        assert forall|k: int| #[trigger] is_last_of_its_name(list, k) implies {
            &&& hoist(root, scopes).last().contains_key(list[k].0)
            &&& hoist(root, scopes).last()[list[k].0] == ValueView::Function(list[k].1)
            &&& lookup(hoist(root, scopes), list[k].0) == Some(ValueView::Function(list[k].1))
        } by {
            lemma_bind_all_last_wins(scopes, list, k);
        }
    }
    assert forall|name: Seq<char>| !(#[trigger] declares_name(list, name)) implies lookup(
        hoist(root, scopes),
        name,
    ) == lookup(scopes, name) by {
        lemma_bind_all_keeps_others(scopes, list, name);
    }
}

/// Hoisting below a node binds the declarations below it, in order.
pub proof fn lemma_hoist_binds_declarations(node: NodeView, scopes: Seq<Bindings>)
    ensures
        hoist(node, scopes) == bind_all(scopes, declarations(node)),
    decreases node, 1nat,
{
    lemma_hoist_each_binds_declarations(node.children, 0, scopes);
}

/// Hoisting in and below a sequence of nodes binds their declarations, in
/// order.
pub proof fn lemma_hoist_each_binds_declarations(
    nodes: Seq<NodeView>,
    i: int,
    scopes: Seq<Bindings>,
)
    ensures
        hoist_each(nodes, i, scopes) == bind_all(scopes, declarations_each(nodes, i)),
    decreases nodes, nodes.len() - i,
{
    if 0 <= i < nodes.len() {
        let own = own_declaration(nodes[i]);
        let declared = bind_all(scopes, own);
        if declares(nodes[i]) {
            assert(own.drop_last() =~= Seq::<Declared>::empty());
            assert(bind_all(scopes, own.drop_last()) == scopes);
        }
        assert(declared == if declares(nodes[i]) {
            bind(scopes, bound_name(nodes[i])->0, ValueView::Function(nodes[i].children[1]))
        } else {
            scopes
        });
        lemma_hoist_binds_declarations(nodes[i], declared);
        let below = hoist(nodes[i], declared);
        lemma_hoist_each_binds_declarations(nodes, i + 1, below);
        lemma_bind_all_joined(scopes, own, declarations(nodes[i]));
        lemma_bind_all_joined(
            scopes,
            own + declarations(nodes[i]),
            declarations_each(nodes, i + 1),
        );
    }
}

/// Hoisting: once the declarations of a program are bound, each declared name
/// is bound to the function of its last declaration, wherever in the program
/// that declaration is written. A call that stands before the declaration
/// finds the function.
pub proof fn lemma_hoisting(root: NodeView, scopes: Seq<Bindings>, k: int)
    requires
        scopes.len() > 0,
        0 <= k < declarations(root).len(),
        forall|j: int|
            k < j < declarations(root).len() ==> declarations(root)[j].0 != declarations(root)[k].0,
    ensures
        lookup(hoist(root, scopes), declarations(root)[k].0) == Some(
            ValueView::Function(declarations(root)[k].1),
        ),
{
    lemma_hoist_binds_declarations(root, scopes);
    lemma_bind_all_last_wins(scopes, declarations(root), k);
}

/// Whether `d` is the node itself or stands below it, at any depth.
pub open spec fn reaches(node: NodeView, d: NodeView) -> bool
    decreases node,
{
    ||| node == d
    ||| exists|i: int| 0 <= i < node.children.len() && reaches(#[trigger] node.children[i], d)
}

/// Whether `d` stands below the root, at any depth.
pub open spec fn is_below(root: NodeView, d: NodeView) -> bool {
    exists|i: int| 0 <= i < root.children.len() && reaches(#[trigger] root.children[i], d)
}

/// What a node that declares a function declares: its name and its function.
pub open spec fn entry_of(d: NodeView) -> Declared {
    (bound_name(d)->0, d.children[1])
}

/// Whether a list holds a declaration.
pub open spec fn has(list: Seq<Declared>, entry: Declared) -> bool {
    exists|k: int| 0 <= k < list.len() && (#[trigger] list[k]) == entry
}

proof fn lemma_has_joined(a: Seq<Declared>, b: Seq<Declared>, entry: Declared)
    requires
        has(a, entry) || has(b, entry),
    ensures
        has(a + b, entry),
{
    if has(a, entry) {
        let k = choose|k: int| 0 <= k < a.len() && (#[trigger] a[k]) == entry;
        assert((a + b)[k] == entry);
    } else {
        let k = choose|k: int| 0 <= k < b.len() && (#[trigger] b[k]) == entry;
        assert((a + b)[a.len() + k] == entry);
    }
}

proof fn lemma_each_has(nodes: Seq<NodeView>, i: int, j: int, entry: Declared)
    requires
        0 <= i <= j < nodes.len(),
        has(own_declaration(nodes[j]) + declarations(nodes[j]), entry),
    ensures
        has(declarations_each(nodes, i), entry),
    decreases j - i,
{
    let here = own_declaration(nodes[i]) + declarations(nodes[i]);
    if i == j {
        lemma_has_joined(here, declarations_each(nodes, i + 1), entry);
    } else {
        lemma_each_has(nodes, i + 1, j, entry);
        lemma_has_joined(here, declarations_each(nodes, i + 1), entry);
    }
}

proof fn lemma_reached_is_declared(node: NodeView, d: NodeView)
    requires
        reaches(node, d),
        declares(d),
    ensures
        has(own_declaration(node) + declarations(node), entry_of(d)),
    decreases node,
{
    if node == d {
        assert(own_declaration(node)[0] == entry_of(d));
        lemma_has_joined(own_declaration(node), declarations(node), entry_of(d));
    } else {
        let i = choose|i: int|
            0 <= i < node.children.len() && reaches(#[trigger] node.children[i], d);
        lemma_reached_is_declared(node.children[i], d);
        lemma_each_has(node.children, 0, i, entry_of(d));
        lemma_has_joined(own_declaration(node), declarations(node), entry_of(d));
    }
}

/// The declarations below a root are those of the nodes below it that
/// declare a function, at whatever depth they stand.
pub proof fn lemma_declared_below(root: NodeView, d: NodeView)
    requires
        is_below(root, d),
        declares(d),
    ensures
        has(declarations(root), entry_of(d)),
        declares_name(declarations(root), bound_name(d)->0),
{
    let i = choose|i: int| 0 <= i < root.children.len() && reaches(#[trigger] root.children[i], d);
    lemma_reached_is_declared(root.children[i], d);
    lemma_each_has(root.children, 0, i, entry_of(d));
    let list = declarations(root);
    let k = choose|k: int| 0 <= k < list.len() && (#[trigger] list[k]) == entry_of(d);
    assert(list[k].0 == bound_name(d)->0);
}

/// A name that a list declares has a last declaration in it.
pub proof fn lemma_last_declaration(list: Seq<Declared>, name: Seq<char>) -> (k: int)
    requires
        declares_name(list, name),
    ensures
        is_last_of_its_name(list, k),
        list[k].0 == name,
    decreases list.len(),
{
    if list.last().0 == name {
        list.len() - 1
    } else {
        let before = list.drop_last();
        let j = choose|j: int| 0 <= j < list.len() && (#[trigger] list[j]).0 == name;
        assert(before[j].0 == name);
        let k = lemma_last_declaration(before, name);
        assert forall|m: int| k < m < list.len() implies (#[trigger] list[m]).0 != list[k].0 by {
            if m < before.len() {
                assert(before[m] == list[m]);
            }
        }
        k
    }
}

/// Whether the name of a node that declares a function is found bound to
/// the function of the last declaration of that name below the root.
pub open spec fn bound_as_declared(root: NodeView, after: Seq<Bindings>, d: NodeView) -> bool {
    exists|k: int| #[trigger]
        is_last_of_its_name(declarations(root), k) && declarations(root)[k].0 == bound_name(d)->0
            && lookup(after, bound_name(d)->0) == Some(
            ValueView::Function(declarations(root)[k].1),
        )
}

/// Hoisting: once the declarations of a program are bound, the name of every
/// node below the root that declares a function, at whatever depth and
/// wherever in the program it stands, is bound in the innermost scope to a
/// function that the program declares under that name: the one that is
/// declared last. Where the node is the only one that declares its name, the
/// name is bound to the function of the node.
pub proof fn lemma_every_declaration_is_hoisted(
    root: NodeView,
    scopes: Seq<Bindings>,
    d: NodeView,
) -> (k: int)
    requires
        scopes.len() > 0,
        is_below(root, d),
        declares(d),
    ensures
        is_last_of_its_name(declarations(root), k),
        declarations(root)[k].0 == bound_name(d)->0,
        lookup(hoist(root, scopes), bound_name(d)->0) == Some(
            ValueView::Function(declarations(root)[k].1),
        ),
        hoist(root, scopes).last()[bound_name(d)->0] == ValueView::Function(
            declarations(root)[k].1,
        ),
        (forall|j: int|
            0 <= j < declarations(root).len() && (#[trigger] declarations(root)[j]).0
                == bound_name(d)->0 ==> declarations(root)[j].1 == d.children[1]) ==> lookup(
            hoist(root, scopes),
            bound_name(d)->0,
        ) == Some(ValueView::Function(d.children[1])),
        bound_as_declared(root, hoist(root, scopes), d),
{
    lemma_declared_below(root, d);
    let k = lemma_last_declaration(declarations(root), bound_name(d)->0);
    lemma_hoisted_as_declared(root, scopes);
    assert(is_last_of_its_name(declarations(root), k));
    k
}

/// A call of a declared function, evaluated once the declarations of the
/// program are bound, is a call of the function of the last declaration of
/// that name, wherever in the program the declaration is written: the
/// arguments are evaluated, and the function is applied to their values.
/// This holds where the arguments have values, do not bind the name anew, and
/// the call limit is not reached.
pub proof fn lemma_call_before_declaration(
    root: NodeView,
    machine: Machine,
    k: int,
    arguments: Seq<NodeView>,
    depth: nat,
)
    requires
        machine.scopes.len() > 0,
        0 <= k < declarations(root).len(),
        forall|j: int|
            k < j < declarations(root).len() ==> declarations(root)[j].0 != declarations(root)[k].0,
        depth > 0,
        ({
            let (name, function) = declarations(root)[k];
            let ready = with_scopes(machine, hoist(root, machine.scopes));
            let values = eval_each(arguments, 0, ready, Seq::empty(), depth);
            &&& values.result is Ok
            &&& lookup(values.machine.scopes, name) == Some(ValueView::Function(function))
        }),
    ensures
        ({
            let (name, function) = declarations(root)[k];
            let ready = with_scopes(machine, hoist(root, machine.scopes));
            let values = eval_each(arguments, 0, ready, Seq::empty(), depth);
            let call = named(
                NodeType::FunctionCall,
                name,
                seq![branch(NodeType::Parameters, arguments)],
            );
            eval(call, ready, depth) == apply(
                function,
                values.result->Ok_0,
                values.machine,
                (depth - 1) as nat,
            )
        }),
{
    let (name, function) = declarations(root)[k];
    let ready = with_scopes(machine, hoist(root, machine.scopes));
    let call = named(NodeType::FunctionCall, name, seq![branch(NodeType::Parameters, arguments)]);
    lemma_hoisting(root, machine.scopes, k);
    assert(eval(call, ready, depth) == eval_call(call, ready, depth));
}

} // verus!
