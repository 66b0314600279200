//! The syntax tree.

use vstd::prelude::*;

verus! {

/// The operation of a binary expression.
#[derive(Clone, Copy, Debug, PartialEq, Eq, Structural)]
pub enum Operation {
    Add,
    Sub,
    Div,
    Mul,
    Assign,
}

/// What stands on the left of an assignment: a name, or a function's name
/// with the names of its parameters.
#[derive(Debug, PartialEq)]
pub enum AssignmentProp {
    Identifier(String),
    Function(String, Vec<String>),
}

/// The bits of the number `-1`.
pub const MINUS_ONE: u64 = 0xBFF0_0000_0000_0000;

/// A node of the syntax tree.
///
/// A numeric literal holds its number, as the 64 bits of the number's IEEE
/// 754 binary64 form.
#[derive(Debug, PartialEq)]
#[allow(inconsistent_fields)]
pub enum ASTNode {
    BinaryExpression { left: Box<ASTNode>, right: Box<ASTNode>, operation: Operation },
    NumericLiteral(u64),
    Identifier(String),
    AssignmentProp(AssignmentProp),
    Program(Vec<ASTNode>),
    FunctionCall { name: String, args: Vec<ASTNode> },
    FunctionDefinition { name: String, args: Vec<String>, body: Box<ASTNode> },
}

/// An assignment target as a mathematical value.
pub enum PropView {
    Identifier(Seq<char>),
    Function(Seq<char>, Seq<Seq<char>>),
}

/// A syntax tree as a mathematical value.
pub enum NodeView {
    BinaryExpression { left: Box<NodeView>, right: Box<NodeView>, operation: Operation },
    NumericLiteral(u64),
    Identifier(Seq<char>),
    AssignmentProp(PropView),
    Program(Seq<NodeView>),
    FunctionCall { name: Seq<char>, args: Seq<NodeView> },
    FunctionDefinition { name: Seq<char>, params: Seq<Seq<char>>, body: Box<NodeView> },
}

/// A tree is well formed if assignment targets stand where they belong and
/// nowhere else: the left side of every assignment is a target, and no
/// target stands anywhere but on the left side of an assignment.
pub open spec fn well_formed(node: NodeView) -> bool
    decreases node,
{
    match node {
        NodeView::BinaryExpression { left, right, operation } => if operation
            == Operation::Assign {
            *left is AssignmentProp && well_formed(*right)
        } else {
            well_formed(*left) && well_formed(*right)
        },
        NodeView::NumericLiteral(_) => true,
        NodeView::Identifier(_) => true,
        NodeView::AssignmentProp(_) => false,
        NodeView::Program(nodes) => forall|i: int|
            0 <= i < nodes.len() ==> well_formed(#[trigger] nodes[i]),
        NodeView::FunctionCall { name, args } => forall|i: int|
            0 <= i < args.len() ==> well_formed(#[trigger] args[i]),
        NodeView::FunctionDefinition { name, params, body } => well_formed(*body),
    }
}

/// The texts of a sequence of names, in order.
pub open spec fn name_views(names: Seq<String>) -> Seq<Seq<char>> {
    names.map_values(|s: String| s@)
}

impl View for AssignmentProp {
    type V = PropView;

    open spec fn view(&self) -> PropView {
        match self {
            AssignmentProp::Identifier(name) => PropView::Identifier(name@),
            AssignmentProp::Function(name, args) => PropView::Function(name@, name_views(args@)),
        }
    }
}

/// The mathematical value of a node.
pub open spec fn node_view(node: ASTNode) -> NodeView
    decreases node,
{
    match node {
        ASTNode::BinaryExpression { left, right, operation } => NodeView::BinaryExpression {
            left: Box::new(node_view(*left)),
            right: Box::new(node_view(*right)),
            operation,
        },
        ASTNode::NumericLiteral(bits) => NodeView::NumericLiteral(bits),
        ASTNode::Identifier(name) => NodeView::Identifier(name@),
        ASTNode::AssignmentProp(prop) => NodeView::AssignmentProp(prop@),
        ASTNode::Program(nodes) => NodeView::Program(
            Seq::new(
                nodes.len() as nat,
                |i: int|
                    if 0 <= i < nodes.len() {
                        node_view(nodes[i])
                    } else {
                        NodeView::Program(Seq::empty())
                    },
            ),
        ),
        ASTNode::FunctionCall { name, args } => NodeView::FunctionCall {
            name: name@,
            args: Seq::new(
                args.len() as nat,
                |i: int|
                    if 0 <= i < args.len() {
                        node_view(args[i])
                    } else {
                        NodeView::Program(Seq::empty())
                    },
            ),
        },
        ASTNode::FunctionDefinition { name, args, body } => NodeView::FunctionDefinition {
            name: name@,
            params: name_views(args@),
            body: Box::new(node_view(*body)),
        },
    }
}

impl View for ASTNode {
    type V = NodeView;

    open spec fn view(&self) -> NodeView {
        node_view(*self)
    }
}

/// The views of a sequence of nodes, in order.
pub open spec fn node_views(nodes: Seq<ASTNode>) -> Seq<NodeView> {
    Seq::new(nodes.len(), |i: int| nodes[i]@)
}

/// The view of a program or of a call holds the views of the nodes below it.
pub proof fn lemma_node_views(node: ASTNode)
    ensures
        node matches ASTNode::Program(nodes) ==> node@ == NodeView::Program(node_views(nodes@)),
        node matches ASTNode::FunctionCall { name, args } ==> node@ == (NodeView::FunctionCall {
            name: name@,
            args: node_views(args@),
        }),
{
    match node {
        ASTNode::Program(nodes) => {
            assert(node@->Program_0 =~= node_views(nodes@));
        },
        ASTNode::FunctionCall { name, args } => {
            assert(node@->FunctionCall_args =~= node_views(args@));
        },
        _ => {},
    }
}

/// A copy of a list of names.
pub(crate) fn clone_names(names: &Vec<String>) -> (r: Vec<String>)
    ensures
        r@ == names@,
{
    let mut out: Vec<String> = Vec::new();
    let mut i: usize = 0;
    while i < names.len()
        invariant
            i <= names@.len(),
            out@ == names@.subrange(0, i as int),
        decreases names@.len() - i,
    {
        out.push(names[i].clone());
        i += 1;
        assert(out@ =~= names@.subrange(0, i as int));
    }
    assert(out@ =~= names@);
    out
}

impl Clone for AssignmentProp {
    fn clone(&self) -> (r: Self)
        ensures
            r@ == self@,
    {
        match self {
            AssignmentProp::Identifier(name) => AssignmentProp::Identifier(name.clone()),
            AssignmentProp::Function(name, args) => AssignmentProp::Function(
                name.clone(),
                clone_names(args),
            ),
        }
    }
}

/// A copy of a list of nodes.
pub(crate) fn clone_nodes(nodes: &Vec<ASTNode>) -> (r: Vec<ASTNode>)
    ensures
        node_views(r@) == node_views(nodes@),
    decreases nodes,
{
    let mut out: Vec<ASTNode> = Vec::new();
    let mut i: usize = 0;
    while i < nodes.len()
        invariant
            i <= nodes@.len(),
            out@.len() == i,
            forall|j: int| 0 <= j < i ==> (#[trigger] out@[j])@ == nodes@[j]@,
        decreases nodes@.len() - i,
    {
        out.push(nodes[i].clone());
        i += 1;
    }
    assert(node_views(out@) =~= node_views(nodes@));
    out
}

impl Clone for ASTNode {
    fn clone(&self) -> (r: Self)
        ensures
            r@ == self@,
        decreases self,
    {
        match self {
            ASTNode::BinaryExpression { left, right, operation } => ASTNode::BinaryExpression {
                left: Box::new((**left).clone()),
                right: Box::new((**right).clone()),
                operation: *operation,
            },
            ASTNode::NumericLiteral(bits) => ASTNode::NumericLiteral(*bits),
            ASTNode::Identifier(name) => ASTNode::Identifier(name.clone()),
            ASTNode::AssignmentProp(prop) => ASTNode::AssignmentProp(prop.clone()),
            ASTNode::Program(nodes) => {
                let r = ASTNode::Program(clone_nodes(nodes));
                proof {
                    lemma_node_views(r);
                    lemma_node_views(*self);
                }
                r
            },
            ASTNode::FunctionCall { name, args } => {
                let r = ASTNode::FunctionCall { name: name.clone(), args: clone_nodes(args) };
                proof {
                    lemma_node_views(r);
                    lemma_node_views(*self);
                }
                r
            },
            ASTNode::FunctionDefinition { name, args, body } => ASTNode::FunctionDefinition {
                name: name.clone(),
                args: clone_names(args),
                body: Box::new((**body).clone()),
            },
        }
    }
}

impl ASTNode {
    /// The name, if this node is an identifier.
    pub fn try_string(&self) -> (r: Option<String>)
        ensures
            match self@ {
                NodeView::Identifier(name) => r matches Some(s) && s@ == name,
                _ => r is None,
            },
    {
        if let ASTNode::Identifier(v) = self {
            Some(v.clone())
        } else {
            None
        }
    }

    /// The top-level nodes, if this node is a program.
    pub fn try_program(&self) -> (r: Option<Vec<ASTNode>>)
        ensures
            match self@ {
                NodeView::Program(nodes) => r matches Some(v) && node_views(v@) == nodes,
                _ => r is None,
            },
    {
        if let ASTNode::Program(v) = self {
            Some(clone_nodes(v))
        } else {
            None
        }
    }
}

} // verus!
