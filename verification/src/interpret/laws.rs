//! What holds of every evaluation.

use crate::interpret::scope::{
    assign, lemma_assign, lemma_resolve_fresh_frame, resolve, Frame, FunctionView, VariableView,
};
use crate::interpret::semantics::{
    bind_parameters, callee, eval, eval_arguments, eval_sequence, lookup, ErrorView,
};
use crate::interpret::value::{Arithmetic, ValueView};
use crate::parse::ast::{well_formed, NodeView, Operation, PropView};
use vstd::prelude::*;

verus! {

/// Binding parameters touches the innermost frame only, and there only the
/// parameters' names.
pub proof fn lemma_bind_parameters(
    chain: Seq<Frame>,
    params: Seq<Seq<char>>,
    values: Seq<ValueView>,
    i: int,
)
    requires
        chain.len() >= 1,
        0 <= i,
    ensures
        bind_parameters(chain, params, values, i).len() == chain.len(),
        bind_parameters(chain, params, values, i).drop_first() == chain.drop_first(),
        forall|key: Seq<char>|
            !params.contains(key) ==> resolve(bind_parameters(chain, params, values, i), key)
                == resolve(chain, key),
    decreases params.len() - i,
{
    if i < params.len() {
        let next = assign(chain, params[i], values[i], true);
        lemma_assign(chain, params[i], values[i], true);
        lemma_bind_parameters(next, params, values, i + 1);
        assert forall|key: Seq<char>| !params.contains(key) implies resolve(
            bind_parameters(chain, params, values, i),
            key,
        ) == resolve(chain, key) by {
            assert(params[i] != key);
        }
    }
}

proof fn lemma_bind_later(
    chain: Seq<Frame>,
    params: Seq<Seq<char>>,
    values: Seq<ValueView>,
    i: int,
    key: Seq<char>,
)
    requires
        chain.len() >= 1,
        0 <= i,
        forall|k: int| i <= k < params.len() ==> params[k] != key,
    ensures
        resolve(bind_parameters(chain, params, values, i), key) == resolve(chain, key),
    decreases params.len() - i,
{
    if i < params.len() {
        lemma_assign(chain, params[i], values[i], true);
        lemma_bind_later(assign(chain, params[i], values[i], true), params, values, i + 1, key);
    }
}

/// A parameter is bound to its argument's value as a constant: once the
/// parameters from `i` on are bound, the parameter at `j`, if no later one
/// has its name, is bound to the value at `j` and is a constant.
pub proof fn lemma_parameters_are_constants(
    chain: Seq<Frame>,
    params: Seq<Seq<char>>,
    values: Seq<ValueView>,
    i: int,
    j: int,
)
    requires
        chain.len() >= 1,
        0 <= i <= j < params.len(),
        forall|k: int| j < k < params.len() ==> params[k] != params[j],
    ensures
        resolve(bind_parameters(chain, params, values, i), params[j]) == Some(
            VariableView { value: values[j], is_const: true },
        ),
    decreases params.len() - i,
{
    let next = assign(chain, params[i], values[i], true);
    lemma_assign(chain, params[i], values[i], true);
    if i == j {
        lemma_bind_later(next, params, values, i + 1, params[j]);
    } else {
        lemma_parameters_are_constants(next, params, values, i + 1, j);
    }
}

/// Evaluation touches the innermost frame only: the chain keeps its length
/// and its outer frames, and the innermost frame keeps every name it had.
pub proof fn lemma_eval_frames(num: Arithmetic, node: NodeView, chain: Seq<Frame>, depth: nat)
    requires
        chain.len() >= 1,
    ensures
        eval(num, node, chain, depth).chain.len() == chain.len(),
        eval(num, node, chain, depth).chain.drop_first() == chain.drop_first(),
        chain[0].dom().subset_of(eval(num, node, chain, depth).chain[0].dom()),
    decreases depth, node, 0nat,
{
    match node {
        NodeView::Program(nodes) => {
            lemma_sequence_frames(num, nodes, 0, chain, depth, ValueView::Null);
        },
        NodeView::BinaryExpression { left, right, operation } => {
            lemma_eval_frames(num, *left, chain, depth);
            let l = eval(num, *left, chain, depth);
            match l.result {
                Err(_) => {},
                Ok(lv) => {
                    lemma_eval_frames(num, *right, l.chain, depth);
                    let r = eval(num, *right, l.chain, depth);
                    match r.result {
                        Err(_) => {},
                        Ok(rv) => {
                            if operation == Operation::Assign {
                                match lv {
                                    ValueView::AssignmentProp(PropView::Identifier(name)) => {
                                        lemma_assign(r.chain, name, rv, false);
                                    },
                                    _ => {},
                                }
                            }
                        },
                    }
                },
            }
        },
        NodeView::FunctionDefinition { name, params, body } => {
            lemma_assign(
                chain,
                name,
                ValueView::Function(FunctionView { name, params, body: *body }),
                true,
            );
        },
        NodeView::FunctionCall { name, args } => {
            lemma_call_frames(num, name, args, chain, depth);
        },
        _ => {},
    }
}

/// A call leaves the caller's chain as the evaluation of its arguments left
/// it: what the body binds is given up with the frame of the call.
pub proof fn lemma_call_frames(
    num: Arithmetic,
    name: Seq<char>,
    args: Seq<NodeView>,
    chain: Seq<Frame>,
    depth: nat,
)
    requires
        chain.len() >= 1,
    ensures
        ({
            let o = eval(num, NodeView::FunctionCall { name, args }, chain, depth);
            &&& o.chain.len() == chain.len()
            &&& o.chain.drop_first() == chain.drop_first()
            &&& chain[0].dom().subset_of(o.chain[0].dom())
            &&& (callee(chain, name) is Some && args.len() >= callee(
                chain,
                name,
            )->Some_0.params.len() && depth > 0 ==> o.chain == eval_arguments(
                num,
                args,
                callee(chain, name)->Some_0.params.len() as int,
                0,
                chain,
                depth,
                Seq::empty(),
            ).chain)
        }),
    decreases depth, args, args.len() + 1,
{
    match callee(chain, name) {
        None => {},
        Some(f) => {
            if args.len() >= f.params.len() && depth > 0 {
                lemma_arguments_frames(
                    num,
                    args,
                    f.params.len() as int,
                    0,
                    chain,
                    depth,
                    Seq::empty(),
                );
                let a = eval_arguments(
                    num,
                    args,
                    f.params.len() as int,
                    0,
                    chain,
                    depth,
                    Seq::empty(),
                );
                match a.result {
                    Err(_) => {},
                    Ok(values) => {
                        let fresh = seq![Frame::empty()] + a.chain;
                        assert(fresh.drop_first() =~= a.chain);
                        lemma_bind_parameters(fresh, f.params, values, 0);
                        let inner = bind_parameters(fresh, f.params, values, 0);
                        lemma_eval_frames(num, f.body, inner, (depth - 1) as nat);
                    },
                }
            }
        },
    }
}

/// A sequence of nodes touches the innermost frame only.
pub proof fn lemma_sequence_frames(
    num: Arithmetic,
    nodes: Seq<NodeView>,
    i: int,
    chain: Seq<Frame>,
    depth: nat,
    last: ValueView,
)
    requires
        chain.len() >= 1,
    ensures
        eval_sequence(num, nodes, i, chain, depth, last).chain.len() == chain.len(),
        eval_sequence(num, nodes, i, chain, depth, last).chain.drop_first() == chain.drop_first(),
        chain[0].dom().subset_of(eval_sequence(num, nodes, i, chain, depth, last).chain[0].dom()),
    decreases depth, nodes, nodes.len() - i,
{
    if 0 <= i < nodes.len() {
        lemma_eval_frames(num, nodes[i], chain, depth);
        let o = eval(num, nodes[i], chain, depth);
        match o.result {
            Err(_) => {},
            Ok(v) => {
                lemma_sequence_frames(num, nodes, i + 1, o.chain, depth, v);
            },
        }
    }
}

/// The arguments of a call touch the innermost frame only.
pub proof fn lemma_arguments_frames(
    num: Arithmetic,
    args: Seq<NodeView>,
    count: int,
    i: int,
    chain: Seq<Frame>,
    depth: nat,
    seen: Seq<ValueView>,
)
    requires
        chain.len() >= 1,
    ensures
        eval_arguments(num, args, count, i, chain, depth, seen).chain.len() == chain.len(),
        eval_arguments(num, args, count, i, chain, depth, seen).chain.drop_first()
            == chain.drop_first(),
        chain[0].dom().subset_of(
            eval_arguments(num, args, count, i, chain, depth, seen).chain[0].dom(),
        ),
    decreases depth, args, args.len() - i,
{
    if 0 <= i < count && i < args.len() {
        lemma_eval_frames(num, args[i], chain, depth);
        let o = eval(num, args[i], chain, depth);
        match o.result {
            Err(_) => {},
            Ok(v) => {
                lemma_arguments_frames(num, args, count, i + 1, o.chain, depth, seen.push(v));
            },
        }
    }
}

/// A name that the body of a function does not bind is looked up where the
/// call stands, not where the function was defined: the call of a function
/// whose body is the bare name `free`, which is none of its parameters,
/// yields what `free` is bound to in the caller's chain once the arguments
/// are evaluated.
pub proof fn lemma_call_site_scoping(
    num: Arithmetic,
    name: Seq<char>,
    args: Seq<NodeView>,
    chain: Seq<Frame>,
    depth: nat,
    free: Seq<char>,
)
    requires
        chain.len() >= 1,
        depth > 0,
        callee(chain, name) matches Some(f) && f.body == NodeView::Identifier(free)
            && !f.params.contains(free) && args.len() >= f.params.len(),
        eval_arguments(
            num,
            args,
            callee(chain, name)->Some_0.params.len() as int,
            0,
            chain,
            depth,
            Seq::empty(),
        ).result is Ok,
    ensures
        ({
            let f = callee(chain, name)->Some_0;
            let a = eval_arguments(num, args, f.params.len() as int, 0, chain, depth, Seq::empty());
            let o = eval(num, NodeView::FunctionCall { name, args }, chain, depth);
            o.result == lookup(a.chain, free) && o.chain == a.chain
        }),
{
    let f = callee(chain, name)->Some_0;
    let a = eval_arguments(num, args, f.params.len() as int, 0, chain, depth, Seq::empty());
    lemma_arguments_frames(num, args, f.params.len() as int, 0, chain, depth, Seq::empty());
    let values = a.result->Ok_0;
    let fresh = seq![Frame::empty()] + a.chain;
    assert(fresh.drop_first() =~= a.chain);
    lemma_bind_parameters(fresh, f.params, values, 0);
    lemma_resolve_fresh_frame(a.chain, free);
    lemma_call_frames(num, name, args, chain, depth);
    let inner = bind_parameters(fresh, f.params, values, 0);
    let b = eval(num, f.body, inner, (depth - 1) as nat);
    assert(b.result == lookup(inner, free) && b.chain == inner);
    assert(resolve(inner, free) == resolve(a.chain, free));
}

/// The evaluation ended because calls were nested too deep.
pub open spec fn ran_out<T>(result: Result<T, ErrorView>) -> bool {
    result matches Err(ErrorView::DepthExceeded(_))
}

/// The bound on the nesting of calls decides nothing but whether it is hit:
/// an evaluation that does not end with `DepthExceeded` ends the same way
/// under every greater bound.
pub proof fn lemma_depth(num: Arithmetic, node: NodeView, chain: Seq<Frame>, low: nat, high: nat)
    requires
        low <= high,
        !ran_out(eval(num, node, chain, low).result),
    ensures
        eval(num, node, chain, high) == eval(num, node, chain, low),
    decreases low, node, 0nat,
{
    match node {
        NodeView::Program(nodes) => {
            lemma_sequence_depth(num, nodes, 0, chain, low, high, ValueView::Null);
        },
        NodeView::BinaryExpression { left, right, operation } => {
            let l = eval(num, *left, chain, low);
            lemma_depth(num, *left, chain, low, high);
            match l.result {
                Err(_) => {},
                Ok(lv) => {
                    lemma_depth(num, *right, l.chain, low, high);
                },
            }
        },
        NodeView::FunctionCall { name, args } => {
            match callee(chain, name) {
                None => {},
                Some(f) => {
                    if args.len() >= f.params.len() {
                        let count = f.params.len() as int;
                        lemma_arguments_depth(num, args, count, 0, chain, low, high, Seq::empty());
                        let a = eval_arguments(num, args, count, 0, chain, low, Seq::empty());
                        match a.result {
                            Err(_) => {},
                            Ok(values) => {
                                let inner = bind_parameters(
                                    seq![Frame::empty()] + a.chain,
                                    f.params,
                                    values,
                                    0,
                                );
                                lemma_depth(
                                    num,
                                    f.body,
                                    inner,
                                    (low - 1) as nat,
                                    (high - 1) as nat,
                                );
                            },
                        }
                    }
                },
            }
        },
        _ => {},
    }
}

/// A sequence of nodes that does not end with `DepthExceeded` ends the same
/// way under every greater bound.
pub proof fn lemma_sequence_depth(
    num: Arithmetic,
    nodes: Seq<NodeView>,
    i: int,
    chain: Seq<Frame>,
    low: nat,
    high: nat,
    last: ValueView,
)
    requires
        low <= high,
        !ran_out(eval_sequence(num, nodes, i, chain, low, last).result),
    ensures
        eval_sequence(num, nodes, i, chain, high, last) == eval_sequence(
            num,
            nodes,
            i,
            chain,
            low,
            last,
        ),
    decreases low, nodes, nodes.len() - i,
{
    if 0 <= i < nodes.len() {
        lemma_depth(num, nodes[i], chain, low, high);
        let o = eval(num, nodes[i], chain, low);
        match o.result {
            Err(_) => {},
            Ok(v) => {
                lemma_sequence_depth(num, nodes, i + 1, o.chain, low, high, v);
            },
        }
    }
}

/// The arguments of a call, where their evaluation does not end with
/// `DepthExceeded`, have the same values under every greater bound.
pub proof fn lemma_arguments_depth(
    num: Arithmetic,
    args: Seq<NodeView>,
    count: int,
    i: int,
    chain: Seq<Frame>,
    low: nat,
    high: nat,
    seen: Seq<ValueView>,
)
    requires
        low <= high,
        !ran_out(eval_arguments(num, args, count, i, chain, low, seen).result),
    ensures
        eval_arguments(num, args, count, i, chain, high, seen) == eval_arguments(
            num,
            args,
            count,
            i,
            chain,
            low,
            seen,
        ),
    decreases low, args, args.len() - i,
{
    if 0 <= i < count && i < args.len() {
        lemma_depth(num, args[i], chain, low, high);
        let o = eval(num, args[i], chain, low);
        match o.result {
            Err(_) => {},
            Ok(v) => {
                lemma_arguments_depth(num, args, count, i + 1, o.chain, low, high, seen.push(v));
            },
        }
    }
}

/// A value that may be bound and handed on: no assignment target, and, if
/// it is a function, one with a well-formed body.
pub open spec fn proper_value(v: ValueView) -> bool {
    match v {
        ValueView::AssignmentProp(_) => false,
        ValueView::Function(f) => well_formed(f.body),
        _ => true,
    }
}

/// Every value is proper.
pub open spec fn proper_values(values: Seq<ValueView>) -> bool {
    forall|i: int| 0 <= i < values.len() ==> proper_value(#[trigger] values[i])
}

/// Every name of the frame is bound to a proper value.
pub open spec fn proper_frame(frame: Frame) -> bool {
    forall|key: Seq<char>| frame.dom().contains(key) ==> proper_value(#[trigger] frame[key].value)
}

/// Every frame of the chain is proper.
pub open spec fn proper_chain(chain: Seq<Frame>) -> bool {
    forall|i: int| 0 <= i < chain.len() ==> proper_frame(#[trigger] chain[i])
}

proof fn lemma_resolve_proper(chain: Seq<Frame>, key: Seq<char>)
    requires
        proper_chain(chain),
    ensures
        resolve(chain, key) matches Some(v) ==> proper_value(v.value),
    decreases chain.len(),
{
    if chain.len() > 0 {
        assert(proper_frame(chain[0]));
        if !chain[0].dom().contains(key) {
            let rest = chain.drop_first();
            assert forall|i: int| 0 <= i < rest.len() implies proper_frame(#[trigger] rest[i]) by {
                assert(rest[i] == chain[i + 1]);
            }
            lemma_resolve_proper(rest, key);
        }
    }
}

proof fn lemma_assign_proper(chain: Seq<Frame>, key: Seq<char>, value: ValueView, is_const: bool)
    requires
        chain.len() >= 1,
        proper_chain(chain),
        proper_value(value),
    ensures
        proper_chain(assign(chain, key, value, is_const)),
{
    let after = assign(chain, key, value, is_const);
    assert(proper_frame(chain[0]));
    assert forall|i: int| 0 <= i < after.len() implies proper_frame(#[trigger] after[i]) by {
        if i > 0 {
            assert(after[i] == chain[i]);
        }
    }
}

proof fn lemma_bind_proper(
    chain: Seq<Frame>,
    params: Seq<Seq<char>>,
    values: Seq<ValueView>,
    i: int,
)
    requires
        chain.len() >= 1,
        0 <= i,
        proper_chain(chain),
        proper_values(values),
        values.len() >= params.len(),
    ensures
        proper_chain(bind_parameters(chain, params, values, i)),
    decreases params.len() - i,
{
    if i < params.len() {
        lemma_assign(chain, params[i], values[i], true);
        lemma_assign_proper(chain, params[i], values[i], true);
        lemma_bind_proper(assign(chain, params[i], values[i], true), params, values, i + 1);
    }
}

/// Assignment targets stay inside the assignments they belong to: a
/// well-formed tree, evaluated against a chain that binds proper values
/// only, yields a proper value and leaves such a chain. So what a parsed
/// program yields is never a target, and neither is anything it binds.
pub proof fn lemma_targets_stay_inside(
    num: Arithmetic,
    node: NodeView,
    chain: Seq<Frame>,
    depth: nat,
)
    requires
        chain.len() >= 1,
        well_formed(node),
        proper_chain(chain),
    ensures
        proper_chain(eval(num, node, chain, depth).chain),
        eval(num, node, chain, depth).result matches Ok(v) ==> proper_value(v),
    decreases depth, node, 0nat,
{
    match node {
        NodeView::Identifier(name) => {
            lemma_resolve_proper(chain, name);
        },
        NodeView::Program(nodes) => {
            lemma_sequence_proper(num, nodes, 0, chain, depth, ValueView::Null);
        },
        NodeView::BinaryExpression { left, right, operation } => {
            if operation == Operation::Assign {
                lemma_eval_frames(num, *right, chain, depth);
                lemma_targets_stay_inside(num, *right, chain, depth);
                let r = eval(num, *right, chain, depth);
                match r.result {
                    Err(_) => {},
                    Ok(rv) => {
                        match *left {
                            NodeView::AssignmentProp(PropView::Identifier(name)) => {
                                lemma_assign_proper(r.chain, name, rv, false);
                            },
                            _ => {},
                        }
                    },
                }
            } else {
                lemma_eval_frames(num, *left, chain, depth);
                lemma_targets_stay_inside(num, *left, chain, depth);
                let l = eval(num, *left, chain, depth);
                match l.result {
                    Err(_) => {},
                    Ok(lv) => {
                        lemma_targets_stay_inside(num, *right, l.chain, depth);
                    },
                }
            }
        },
        NodeView::FunctionDefinition { name, params, body } => {
            lemma_assign_proper(
                chain,
                name,
                ValueView::Function(FunctionView { name, params, body: *body }),
                true,
            );
        },
        NodeView::FunctionCall { name, args } => {
            lemma_resolve_proper(chain, name);
            match callee(chain, name) {
                None => {},
                Some(f) => {
                    if args.len() >= f.params.len() && depth > 0 {
                        let count = f.params.len() as int;
                        lemma_arguments_frames(num, args, count, 0, chain, depth, Seq::empty());
                        lemma_arguments_proper(num, args, count, 0, chain, depth, Seq::empty());
                        let a = eval_arguments(num, args, count, 0, chain, depth, Seq::empty());
                        match a.result {
                            Err(_) => {},
                            Ok(values) => {
                                let fresh = seq![Frame::empty()] + a.chain;
                                assert forall|i: int| 0 <= i < fresh.len() implies proper_frame(
                                    #[trigger] fresh[i],
                                ) by {
                                    if i > 0 {
                                        assert(fresh[i] == a.chain[i - 1]);
                                    }
                                }
                                lemma_bind_parameters(fresh, f.params, values, 0);
                                lemma_bind_proper(fresh, f.params, values, 0);
                                let inner = bind_parameters(fresh, f.params, values, 0);
                                lemma_eval_frames(num, f.body, inner, (depth - 1) as nat);
                                lemma_targets_stay_inside(
                                    num,
                                    f.body,
                                    inner,
                                    (depth - 1) as nat,
                                );
                                let b = eval(num, f.body, inner, (depth - 1) as nat);
                                assert forall|i: int|
                                    0 <= i < b.chain.drop_first().len() implies proper_frame(
                                    #[trigger] b.chain.drop_first()[i],
                                ) by {
                                    assert(b.chain.drop_first()[i] == b.chain[i + 1]);
                                }
                            },
                        }
                    }
                },
            }
        },
        _ => {},
    }
}

proof fn lemma_sequence_proper(
    num: Arithmetic,
    nodes: Seq<NodeView>,
    i: int,
    chain: Seq<Frame>,
    depth: nat,
    last: ValueView,
)
    requires
        chain.len() >= 1,
        forall|j: int| 0 <= j < nodes.len() ==> well_formed(#[trigger] nodes[j]),
        proper_chain(chain),
        proper_value(last),
    ensures
        proper_chain(eval_sequence(num, nodes, i, chain, depth, last).chain),
        eval_sequence(num, nodes, i, chain, depth, last).result matches Ok(v) ==> proper_value(v),
    decreases depth, nodes, nodes.len() - i,
{
    if 0 <= i < nodes.len() {
        lemma_eval_frames(num, nodes[i], chain, depth);
        lemma_targets_stay_inside(num, nodes[i], chain, depth);
        let o = eval(num, nodes[i], chain, depth);
        match o.result {
            Err(_) => {},
            Ok(v) => {
                lemma_sequence_proper(num, nodes, i + 1, o.chain, depth, v);
            },
        }
    }
}

proof fn lemma_arguments_proper(
    num: Arithmetic,
    args: Seq<NodeView>,
    count: int,
    i: int,
    chain: Seq<Frame>,
    depth: nat,
    seen: Seq<ValueView>,
)
    requires
        chain.len() >= 1,
        0 <= i <= count <= args.len(),
        seen.len() == i,
        forall|j: int| 0 <= j < args.len() ==> well_formed(#[trigger] args[j]),
        proper_chain(chain),
        proper_values(seen),
    ensures
        proper_chain(eval_arguments(num, args, count, i, chain, depth, seen).chain),
        eval_arguments(num, args, count, i, chain, depth, seen).result matches Ok(values)
            ==> values.len() == count && proper_values(values),
    decreases depth, args, args.len() - i,
{
    if i < count {
        lemma_eval_frames(num, args[i], chain, depth);
        lemma_targets_stay_inside(num, args[i], chain, depth);
        let o = eval(num, args[i], chain, depth);
        match o.result {
            Err(_) => {},
            Ok(v) => {
                assert forall|j: int| 0 <= j < seen.push(v).len() implies proper_value(
                    #[trigger] seen.push(v)[j],
                ) by {
                    if j < seen.len() {
                        assert(seen.push(v)[j] == seen[j]);
                    }
                }
                lemma_arguments_proper(num, args, count, i + 1, o.chain, depth, seen.push(v));
            },
        }
    }
}

} // verus!
