//! What evaluation means.
//!
//! The meaning of a node is a function of the node, of the chain of frames
//! it is evaluated against, of the number of calls that may still be nested,
//! and of what the caller's arithmetic makes of two numbers. It yields a value or an error, and the chain as evaluation left
//! it.

use crate::interpret::scope::{assign, resolve, Frame, FunctionView, VariableErrorView};
use crate::interpret::value::{arithmetic, Arithmetic, ValueView};
use crate::parse::ast::{NodeView, Operation, PropView};
use vstd::prelude::*;

verus! {

/// Why evaluation ended early.
pub enum ErrorView {
    /// A name is bound to nothing.
    Variable(VariableErrorView),
    /// The name that is called is bound to nothing, or to no function.
    NotAFunction(Seq<char>),
    /// The function of this name has more parameters than the call has
    /// arguments.
    ArityMismatch(Seq<char>),
    /// The call of this name would be nested deeper than allowed.
    DepthExceeded(Seq<char>),
}

/// A value or an error, with the chain as evaluation left it.
pub struct Outcome {
    pub result: Result<ValueView, ErrorView>,
    pub chain: Seq<Frame>,
}

/// The values of a call's arguments or an error, with the chain as their
/// evaluation left it.
pub struct ArgumentsOutcome {
    pub result: Result<Seq<ValueView>, ErrorView>,
    pub chain: Seq<Frame>,
}

/// The value that `name` is bound to.
pub open spec fn lookup(chain: Seq<Frame>, name: Seq<char>) -> Result<ValueView, ErrorView> {
    match resolve(chain, name) {
        Some(v) => Ok(v.value),
        None => Err(ErrorView::Variable(VariableErrorView::DoesNotExist(name))),
    }
}

/// The function that `name` is bound to, if it is bound to one.
pub open spec fn callee(chain: Seq<Frame>, name: Seq<char>) -> Option<FunctionView> {
    match resolve(chain, name) {
        Some(v) => match v.value {
            ValueView::Function(f) => Some(f),
            _ => None,
        },
        None => None,
    }
}

/// A binary expression, once both sides have their values. An assignment
/// binds the name on its left in the innermost frame and is `Null`; with
/// anything else on its left it does nothing, and is `Null` too.
pub open spec fn apply(
    num: Arithmetic,
    operation: Operation,
    left: ValueView,
    right: ValueView,
    chain: Seq<Frame>,
) -> Outcome {
    if operation == Operation::Assign {
        match left {
            ValueView::AssignmentProp(PropView::Identifier(name)) => Outcome {
                result: Ok(ValueView::Null),
                chain: assign(chain, name, right, false),
            },
            _ => Outcome { result: Ok(ValueView::Null), chain },
        }
    } else {
        Outcome { result: Ok(arithmetic(num, operation, left, right)), chain }
    }
}

/// The chain after the parameters from `i` on were bound to their values,
/// in order, as constants.
pub open spec fn bind_parameters(
    chain: Seq<Frame>,
    params: Seq<Seq<char>>,
    values: Seq<ValueView>,
    i: int,
) -> Seq<Frame>
    decreases params.len() - i,
{
    if 0 <= i < params.len() {
        bind_parameters(assign(chain, params[i], values[i], true), params, values, i + 1)
    } else {
        chain
    }
}

/// The meaning of a node.
///
/// A call evaluates as many arguments as the function has parameters, left
/// to right, against the caller's chain. It then puts an empty frame before
/// that chain, binds the parameters there, and evaluates the body against
/// the new chain, so that a name that the body does not bind is looked up
/// where the call stands. The frame is given up when the body is done.
pub open spec fn eval(num: Arithmetic, node: NodeView, chain: Seq<Frame>, depth: nat) -> Outcome
    decreases depth, node, 0nat,
{
    match node {
        NodeView::NumericLiteral(bits) => Outcome { result: Ok(ValueView::Number(bits)), chain },
        NodeView::Identifier(name) => Outcome { result: lookup(chain, name), chain },
        NodeView::AssignmentProp(prop) => Outcome {
            result: Ok(ValueView::AssignmentProp(prop)),
            chain,
        },
        NodeView::Program(nodes) => eval_sequence(num, nodes, 0, chain, depth, ValueView::Null),
        NodeView::BinaryExpression { left, right, operation } => {
            let l = eval(num, *left, chain, depth);
            match l.result {
                Err(_) => l,
                Ok(lv) => {
                    let r = eval(num, *right, l.chain, depth);
                    match r.result {
                        Err(_) => r,
                        Ok(rv) => apply(num, operation, lv, rv, r.chain),
                    }
                },
            }
        },
        NodeView::FunctionDefinition { name, params, body } => Outcome {
            result: Ok(ValueView::Null),
            chain: assign(
                chain,
                name,
                ValueView::Function(FunctionView { name, params, body: *body }),
                true,
            ),
        },
        NodeView::FunctionCall { name, args } => match callee(chain, name) {
            None => Outcome { result: Err(ErrorView::NotAFunction(name)), chain },
            Some(f) => if args.len() < f.params.len() {
                Outcome { result: Err(ErrorView::ArityMismatch(name)), chain }
            } else if depth == 0 {
                Outcome { result: Err(ErrorView::DepthExceeded(name)), chain }
            } else {
                let a = eval_arguments(
                    num,
                    args,
                    f.params.len() as int,
                    0,
                    chain,
                    depth,
                    Seq::empty(),
                );
                match a.result {
                    Err(e) => Outcome { result: Err(e), chain: a.chain },
                    Ok(values) => {
                        let inner = bind_parameters(
                            seq![Frame::empty()] + a.chain,
                            f.params,
                            values,
                            0,
                        );
                        let b = eval(num, f.body, inner, (depth - 1) as nat);
                        Outcome { result: b.result, chain: b.chain.drop_first() }
                    },
                }
            },
        },
    }
}

/// The nodes from `i` on, one after the other against the same chain. The
/// value is that of the last node, or `last` if there is none.
pub open spec fn eval_sequence(
    num: Arithmetic,
    nodes: Seq<NodeView>,
    i: int,
    chain: Seq<Frame>,
    depth: nat,
    last: ValueView,
) -> Outcome
    decreases depth, nodes, nodes.len() - i,
{
    if 0 <= i < nodes.len() {
        let o = eval(num, nodes[i], chain, depth);
        match o.result {
            Err(_) => o,
            Ok(v) => eval_sequence(num, nodes, i + 1, o.chain, depth, v),
        }
    } else {
        Outcome { result: Ok(last), chain }
    }
}

/// The values of the arguments from `i` up to `count`, behind those in
/// `seen`.
pub open spec fn eval_arguments(
    num: Arithmetic,
    args: Seq<NodeView>,
    count: int,
    i: int,
    chain: Seq<Frame>,
    depth: nat,
    seen: Seq<ValueView>,
) -> ArgumentsOutcome
    decreases depth, args, args.len() - i,
{
    if 0 <= i < count && i < args.len() {
        let o = eval(num, args[i], chain, depth);
        match o.result {
            Err(e) => ArgumentsOutcome { result: Err(e), chain: o.chain },
            Ok(v) => eval_arguments(num, args, count, i + 1, o.chain, depth, seen.push(v)),
        }
    } else {
        ArgumentsOutcome { result: Ok(seen), chain }
    }
}

} // verus!
