//! The evaluator.
//!
//! An interpreter holds a program, the function that computes with numbers,
//! and the number of calls that may be nested. It walks the tree
//! and does what `semantics` says; `laws` holds what follows from that.

pub mod laws;
pub mod scope;
pub mod semantics;
pub mod value;

use crate::interpret::scope::{Function, RuntimeScope, Variable, VariableError, VariableErrorView};
use crate::interpret::semantics::{
    apply, bind_parameters, callee, eval, eval_arguments, eval_sequence, lookup, ErrorView,
    Outcome,
};
use crate::interpret::value::{
    binary_fn, binary_single_valued, binary_total, Arithmetic, RuntimeValue, ValueView,
};
use crate::parse::ast::{lemma_node_views, node_views, ASTNode, AssignmentProp, NodeView, Operation};
use vstd::prelude::*;
use vstd::string::StringExecFns;

verus! {

/// Why evaluation ended early.
#[derive(Debug, PartialEq)]
pub enum RuntimeError {
    /// A name is bound to nothing.
    Variable(VariableError),
    /// The name that is called is bound to nothing, or to no function.
    NotAFunction(String),
    /// The function of this name has more parameters than the call has
    /// arguments.
    ArityMismatch(String),
    /// The call of this name would be nested deeper than allowed.
    DepthExceeded(String),
}

impl View for RuntimeError {
    type V = ErrorView;

    open spec fn view(&self) -> ErrorView {
        match self {
            RuntimeError::Variable(e) => ErrorView::Variable(e@),
            RuntimeError::NotAFunction(name) => ErrorView::NotAFunction(name@),
            RuntimeError::ArityMismatch(name) => ErrorView::ArityMismatch(name@),
            RuntimeError::DepthExceeded(name) => ErrorView::DepthExceeded(name@),
        }
    }
}

impl RuntimeError {
    /// What went wrong, in words, with the name.
    pub fn message(&self) -> (r: String)
        ensures
            r@ == match self@ {
                ErrorView::Variable(VariableErrorView::DoesNotExist(name)) =>
                    "Variable does not exist: "@ + name,
                ErrorView::Variable(VariableErrorView::CannotAssignConstants(name)) =>
                    "Cannot assign to constant: "@ + name,
                ErrorView::Variable(VariableErrorView::VariableShadowingNotSupported(name)) =>
                    "Variable shadowing is not supported: "@ + name,
                ErrorView::NotAFunction(name) => "Not a function: "@ + name,
                ErrorView::ArityMismatch(name) => "Too few arguments for: "@ + name,
                ErrorView::DepthExceeded(name) => "Calls nested too deep at: "@ + name,
            },
    {
        match self {
            RuntimeError::Variable(e) => e.message(),
            RuntimeError::NotAFunction(name) => String::from_str("Not a function: ").concat(
                name.as_str(),
            ),
            RuntimeError::ArityMismatch(name) => String::from_str(
                "Too few arguments for: ",
            ).concat(name.as_str()),
            RuntimeError::DepthExceeded(name) => String::from_str(
                "Calls nested too deep at: ",
            ).concat(name.as_str()),
        }
    }
}

/// `r` and `chain` are what `outcome` says.
pub open spec fn agrees(
    r: Result<RuntimeValue, RuntimeError>,
    chain: Seq<scope::Frame>,
    outcome: Outcome,
) -> bool {
    &&& chain == outcome.chain
    &&& match outcome.result {
        Ok(v) => r matches Ok(x) && x@ == v,
        Err(e) => r matches Err(x) && x@ == e,
    }
}

/// The views of a sequence of values, in order.
pub open spec fn value_views(values: Seq<RuntimeValue>) -> Seq<ValueView> {
    values.map_values(|v: RuntimeValue| v@)
}

/// How many calls may be nested unless the interpreter is told otherwise.
pub const DEFAULT_DEPTH: usize = 256;

/// A program with what it takes to evaluate it.
///
/// `binary` computes the sum, difference, product or quotient of two
/// numbers, from bits to bits.
pub struct Interpreter<A: Fn(Operation, u64, u64) -> u64> {
    program: Vec<ASTNode>,
    binary: A,
    depth: usize,
}

impl<A: Fn(Operation, u64, u64) -> u64> Interpreter<A> {
    #[verifier::type_invariant]
    spec fn inv(self) -> bool {
        &&& binary_total(&self.binary)
        &&& binary_single_valued(&self.binary)
    }

    /// The numbers' part in this interpreter's evaluation: the function that
    /// `binary` computes.
    pub closed spec fn numbers(&self) -> Arithmetic {
        binary_fn(&self.binary)
    }

    /// The top-level nodes of the program.
    pub closed spec fn nodes(&self) -> Seq<NodeView> {
        node_views(self.program@)
    }

    /// How many calls may be nested.
    pub closed spec fn depth(&self) -> nat {
        self.depth as nat
    }

    /// An interpreter for `program` that nests up to `DEFAULT_DEPTH` calls.
    pub fn new(program: Vec<ASTNode>, binary: A) -> (r: Self)
        requires
            binary_total(&binary),
            binary_single_valued(&binary),
        ensures
            r.nodes() == node_views(program@),
            r.depth() == DEFAULT_DEPTH,
            r.numbers() == binary_fn(&binary),
    {
        Interpreter { program, binary, depth: DEFAULT_DEPTH }
    }

    /// The same interpreter with another bound on the nesting of calls.
    pub fn with_depth(self, depth: usize) -> (r: Self)
        ensures
            r.nodes() == self.nodes(),
            r.numbers() == self.numbers(),
            r.depth() == depth,
    {
        proof {
            use_type_invariant(&self);
        }
        Interpreter { program: self.program, binary: self.binary, depth }
    }

    /// Evaluates the program's nodes, one after the other, against `scope`.
    /// The value is that of the last node, or `Null` for an empty program.
    /// The first error ends the evaluation.
    pub fn evaluate(&self, scope: &mut RuntimeScope) -> (r: Result<RuntimeValue, RuntimeError>)
        ensures
            agrees(
                r,
                final(scope)@,
                eval_sequence(
                    self.numbers(),
                    self.nodes(),
                    0,
                    old(scope)@,
                    self.depth(),
                    ValueView::Null,
                ),
            ),
            final(scope)@.len() == old(scope)@.len(),
    {
        self.eval_nodes(&self.program, scope, self.depth)
    }

    /// Evaluates one node against `scope`.
    pub fn eval(&self, node: &ASTNode, scope: &mut RuntimeScope) -> (r: Result<
        RuntimeValue,
        RuntimeError,
    >)
        ensures
            agrees(r, final(scope)@, eval(self.numbers(), node@, old(scope)@, self.depth())),
            final(scope)@.len() == old(scope)@.len(),
    {
        self.eval_node(node, scope, self.depth)
    }

    /// The value that `ident` is bound to, seen from `scope`.
    pub fn eval_identifier(&self, ident: &String, scope: &RuntimeScope) -> (r: Result<
        RuntimeValue,
        RuntimeError,
    >)
        ensures
            match lookup(scope@, ident@) {
                Ok(v) => r matches Ok(x) && x@ == v,
                Err(e) => r matches Err(x) && x@ == e,
            },
    {
        match scope.get_var_or_const(ident) {
            Ok(v) => Ok(v.value),
            Err(e) => Err(RuntimeError::Variable(e)),
        }
    }

    fn eval_nodes(&self, nodes: &Vec<ASTNode>, scope: &mut RuntimeScope, depth: usize) -> (r:
        Result<RuntimeValue, RuntimeError>)
        ensures
            agrees(
                r,
                final(scope)@,
                eval_sequence(
                    self.numbers(),
                    node_views(nodes@),
                    0,
                    old(scope)@,
                    depth as nat,
                    ValueView::Null,
                ),
            ),
            final(scope)@.len() == old(scope)@.len(),
        decreases depth, nodes, 1nat,
    {
        let ghost views = node_views(nodes@);
        let ghost start = scope@;
        let mut last = RuntimeValue::Null;
        let mut i: usize = 0;
        while i < nodes.len()
            invariant
                i <= nodes@.len(),
                views == node_views(nodes@),
                start == old(scope)@,
                scope@.len() == start.len(),
                eval_sequence(self.numbers(), views, i as int, scope@, depth as nat, last@)
                    == eval_sequence(self.numbers(), views, 0, start, depth as nat, ValueView::Null),
            decreases nodes@.len() - i,
        {
            match self.eval_node(&nodes[i], scope, depth) {
                Ok(v) => {
                    last = v;
                },
                Err(e) => {
                    return Err(e);
                },
            }
            i += 1;
        }
        Ok(last)
    }

    fn eval_node(&self, node: &ASTNode, scope: &mut RuntimeScope, depth: usize) -> (r: Result<
        RuntimeValue,
        RuntimeError,
    >)
        ensures
            agrees(r, final(scope)@, eval(self.numbers(), node@, old(scope)@, depth as nat)),
            final(scope)@.len() == old(scope)@.len(),
        decreases depth, node, 1nat,
    {
        match node {
            ASTNode::BinaryExpression { left, right, operation } => {
                self.eval_binary_expression(left, right, *operation, scope, depth)
            },
            ASTNode::NumericLiteral(bits) => Ok(RuntimeValue::Number(*bits)),
            ASTNode::Identifier(ident) => self.eval_identifier(ident, scope),
            ASTNode::AssignmentProp(prop) => Ok(RuntimeValue::AssignmentProp(prop.clone())),
            ASTNode::Program(program) => {
                proof {
                    lemma_node_views(*node);
                }
                self.eval_nodes(program, scope, depth)
            },
            ASTNode::FunctionCall { name, args } => {
                proof {
                    lemma_node_views(*node);
                }
                self.eval_fn_call(name, args, scope, depth)
            },
            ASTNode::FunctionDefinition { name, args, body } => {
                let function = Function {
                    name: name.clone(),
                    args: crate::parse::ast::clone_names(args),
                    body: Box::new((**body).clone()),
                };
                let _ = scope.set_variable_or_const(name, RuntimeValue::Function(function), true);
                Ok(RuntimeValue::Null)
            },
        }
    }

    fn eval_binary_expression(
        &self,
        left: &ASTNode,
        right: &ASTNode,
        operation: Operation,
        scope: &mut RuntimeScope,
        depth: usize,
    ) -> (r: Result<RuntimeValue, RuntimeError>)
        ensures
            agrees(
                r,
                final(scope)@,
                eval(
                    self.numbers(),
                    crate::parse::grammar::binary(left@, right@, operation),
                    old(scope)@,
                    depth as nat,
                ),
            ),
            final(scope)@.len() == old(scope)@.len(),
        decreases
            depth,
            (ASTNode::BinaryExpression {
                left: Box::new(*left),
                right: Box::new(*right),
                operation,
            }),
            0nat,
    {
        proof {
            let parent = ASTNode::BinaryExpression {
                left: Box::new(*left),
                right: Box::new(*right),
                operation,
            };
            assert(*parent->left == *left && *parent->right == *right);
        }
        let l = match self.eval_node(left, scope, depth) {
            Ok(v) => v,
            Err(e) => {
                return Err(e);
            },
        };
        let r = match self.eval_node(right, scope, depth) {
            Ok(v) => v,
            Err(e) => {
                return Err(e);
            },
        };
        proof {
            use_type_invariant(self);
        }
        match operation {
            Operation::Add => Ok(l.add(r, &self.binary)),
            Operation::Sub => Ok(l.sub(r, &self.binary)),
            Operation::Div => Ok(l.div(r, &self.binary)),
            Operation::Mul => Ok(l.mul(r, &self.binary)),
            Operation::Assign => {
                if let RuntimeValue::AssignmentProp(prop) = l {
                    self.eval_assignment(prop, r, scope);
                }
                Ok(RuntimeValue::Null)
            },
        }
    }

    fn eval_assignment(&self, prop: AssignmentProp, value: RuntimeValue, scope: &mut RuntimeScope)
        ensures
            agrees(
                Ok(RuntimeValue::Null),
                final(scope)@,
                apply(
                    self.numbers(),
                    Operation::Assign,
                    ValueView::AssignmentProp(prop@),
                    value@,
                    old(scope)@,
                ),
            ),
            final(scope)@.len() == old(scope)@.len(),
    {
        match prop {
            AssignmentProp::Identifier(ident) => {
                let _ = scope.set_variable_or_const(&ident, value, false);
            },
            _ => {},
        }
    }

    fn eval_fn_call(
        &self,
        name: &String,
        args: &Vec<ASTNode>,
        scope: &mut RuntimeScope,
        depth: usize,
    ) -> (r: Result<RuntimeValue, RuntimeError>)
        ensures
            agrees(
                r,
                final(scope)@,
                eval(
                    self.numbers(),
                    NodeView::FunctionCall { name: name@, args: node_views(args@) },
                    old(scope)@,
                    depth as nat,
                ),
            ),
            final(scope)@.len() == old(scope)@.len(),
        decreases depth, args, 1nat,
    {
        let fun = match scope.get_variable(name) {
            Some(Variable { value: RuntimeValue::Function(fun), .. }) => fun,
            _ => {
                return Err(RuntimeError::NotAFunction(name.clone()));
            },
        };
        assert(callee(scope@, name@) == Some(fun@));
        if args.len() < fun.args.len() {
            return Err(RuntimeError::ArityMismatch(name.clone()));
        }
        if depth == 0 {
            return Err(RuntimeError::DepthExceeded(name.clone()));
        }
        let ghost start = scope@;
        let ghost views = node_views(args@);
        let ghost count = fun.args@.len() as int;
        let mut values: Vec<RuntimeValue> = Vec::new();
        assert(value_views(values@) =~= Seq::<ValueView>::empty());
        let mut i: usize = 0;
        while i < fun.args.len()
            invariant
                i <= fun.args@.len() <= args@.len(),
                count == fun.args@.len(),
                views == node_views(args@),
                start == old(scope)@,
                values@.len() == i,
                scope@.len() == start.len(),
                eval_arguments(
                    self.numbers(),
                    views,
                    count,
                    i as int,
                    scope@,
                    depth as nat,
                    value_views(values@),
                ) == eval_arguments(
                    self.numbers(),
                    views,
                    count,
                    0,
                    start,
                    depth as nat,
                    Seq::empty(),
                ),
                callee(start, name@) == Some(fun@),
                depth > 0,
            decreases fun.args@.len() - i,
        {
            let ghost seen = value_views(values@);
            match self.eval_node(&args[i], scope, depth) {
                Ok(v) => {
                    values.push(v);
                    assert(value_views(values@) =~= seen.push(v@));
                },
                Err(e) => {
                    return Err(e);
                },
            }
            i += 1;
        }
        let ghost after = scope@;
        let mut caller = RuntimeScope::new();
        std::mem::swap(scope, &mut caller);
        let mut inner = RuntimeScope::new_parent(caller);
        let ghost fresh = inner@;
        let ghost params = fun@.params;
        let ghost bound = value_views(values@);
        let mut j: usize = 0;
        while j < fun.args.len()
            invariant
                j <= fun.args@.len(),
                values@.len() == fun.args@.len(),
                params == fun@.params,
                bound == value_views(values@),
                inner@.len() == fresh.len(),
                bind_parameters(inner@, params, bound, j as int) == bind_parameters(
                    fresh,
                    params,
                    bound,
                    0,
                ),
            decreases fun.args@.len() - j,
        {
            let _ = inner.set_variable_or_const(&fun.args[j], values[j].clone(), true);
            j += 1;
        }
        let r = self.eval_node(&fun.body, &mut inner, depth - 1);
        match inner.into_parent() {
            Some(p) => {
                *scope = p;
            },
            None => {},
        }
        r
    }
}

} // verus!
