//! The grammar, as functions from the tokens that are left to a node and the
//! tokens behind it. What number a literal stands for is the one thing that
//! the grammar takes from outside (`Literals`).
//!
//! From the loosest tier to the tightest: `+`, `-` and `=` fold to the left;
//! `*` and `/` fold to the left and bind tighter; atoms are numbers, names,
//! calls, definitions and expressions in parentheses.

use crate::parse::ast::{well_formed, NodeView, Operation, PropView, MINUS_ONE};
use crate::parse::tokens::{tokens_from, Token, TokenView};
use vstd::prelude::*;

verus! {

/// Why a token sequence is no program.
pub enum ParseErrorView {
    UnexpectedToken(TokenView),
    ExpectedToken { expected: Token, found: TokenView, reason: Seq<char> },
    InvalidAssignmentTarget(TokenView),
}

/// A node with the tokens that are left behind it, or the error that ended
/// the parse.
pub type Parsed = Result<(NodeView, Seq<TokenView>), ParseErrorView>;

/// The arguments of a call with the tokens that are left behind them, or the
/// error that ended the parse.
pub type ParsedList = Result<(Seq<NodeView>, Seq<TokenView>), ParseErrorView>;

/// What number the text of a numeric literal stands for, by the number's
/// bits. The caller of the parser says so.
pub type Literals = spec_fn(Seq<char>) -> u64;

/// The token that stands for the end of the stream.
pub open spec fn eof_token() -> TokenView {
    TokenView { t: Token::EOF, start: 0, end: 0, text: "__EOF__"@ }
}

/// The token at `i`, or the end token behind the last one.
pub open spec fn peek_at(ts: Seq<TokenView>, i: int) -> TokenView {
    if 0 <= i < ts.len() {
        ts[i]
    } else {
        eof_token()
    }
}

/// What is said when a `)` is missing.
pub open spec fn closing_reason() -> Seq<char> {
    "Expected a ')'."@
}

pub open spec fn binary(left: NodeView, right: NodeView, operation: Operation) -> NodeView {
    NodeView::BinaryExpression { left: Box::new(left), right: Box::new(right), operation }
}

/// The operation that a token of the loosest tier stands for.
pub open spec fn additive(t: Token) -> Option<Operation> {
    match t {
        Token::Add => Some(Operation::Add),
        Token::Sub => Some(Operation::Sub),
        Token::Assign => Some(Operation::Assign),
        _ => None,
    }
}

/// The operation that a token of the tighter tier stands for.
pub open spec fn multiplicative(t: Token) -> Option<Operation> {
    match t {
        Token::Mul => Some(Operation::Mul),
        Token::Div => Some(Operation::Div),
        _ => None,
    }
}

/// Every node is a bare name.
pub open spec fn all_identifiers(nodes: Seq<NodeView>) -> bool {
    forall|i: int| 0 <= i < nodes.len() ==> #[trigger] nodes[i] is Identifier
}

/// The names of nodes that are bare names.
pub open spec fn identifier_names(nodes: Seq<NodeView>) -> Seq<Seq<char>> {
    Seq::new(nodes.len(), |i: int| nodes[i]->Identifier_0)
}

/// The left side of `=`: a bare name becomes the target of the assignment,
/// anything else is no target.
pub open spec fn assignment_target(left: NodeView) -> Option<NodeView> {
    match left {
        NodeView::Identifier(name) => Some(NodeView::AssignmentProp(PropView::Identifier(name))),
        _ => None,
    }
}

/// An atom. A line feed in the place of an atom reads as the number `-1`.
///
/// In this and the following functions a test on the number of tokens left
/// stands before each step that goes on behind an inner result. It always
/// passes (`lemma_progress`); it shows that the definitions end.
pub open spec fn atom(lit: Literals, ts: Seq<TokenView>) -> Parsed
    decreases ts.len(), 1nat,
{
    let tk = peek_at(ts, 0);
    match tk.t {
        Token::Ident => if peek_at(ts, 1).t == Token::LParen {
            call_or_definition(lit, ts)
        } else {
            Ok((NodeView::Identifier(tk.text), ts.drop_first()))
        },
        Token::Newline => Ok((NodeView::NumericLiteral(MINUS_ONE), ts.drop_first())),
        Token::Number => Ok((NodeView::NumericLiteral(lit(tk.text)), ts.drop_first())),
        Token::LParen => if ts.len() > 0 {
            match expr(lit, ts.drop_first()) {
                Err(e) => Err(e),
                Ok((inner, rest)) => if peek_at(rest, 0).t == Token::RParen {
                    Ok((inner, rest.drop_first()))
                } else {
                    Err(
                        ParseErrorView::ExpectedToken {
                            expected: Token::RParen,
                            found: peek_at(rest, 0),
                            reason: closing_reason(),
                        },
                    )
                },
            }
        } else {
            Err(ParseErrorView::UnexpectedToken(tk))
        },
        _ => Err(ParseErrorView::UnexpectedToken(tk)),
    }
}

/// A name with `(` behind it: a call, or, where every argument is a bare
/// name and `=` follows the `)`, a definition.
pub open spec fn call_or_definition(lit: Literals, ts: Seq<TokenView>) -> Parsed
    decreases ts.len(), 0nat,
{
    if ts.len() < 2 {
        Err(ParseErrorView::UnexpectedToken(peek_at(ts, 0)))
    } else {
        let name = ts[0].text;
        match arguments(lit, ts.skip(2)) {
            Err(e) => Err(e),
            Ok((args, rest)) => {
                if all_identifiers(args) && peek_at(rest, 0).t == Token::Assign && 0 < rest.len()
                    <= ts.len() {
                    match expr(lit, rest.drop_first()) {
                        Err(e) => Err(e),
                        Ok((body, after)) => Ok(
                            (
                                NodeView::FunctionDefinition {
                                    name,
                                    params: identifier_names(args),
                                    body: Box::new(body),
                                },
                                after,
                            ),
                        ),
                    }
                } else {
                    Ok((NodeView::FunctionCall { name, args }, rest))
                }
            },
        }
    }
}

/// The arguments behind a `(`, up to and with the `)`: none, or expressions
/// with `,` between them.
pub open spec fn arguments(lit: Literals, ts: Seq<TokenView>) -> ParsedList
    decreases ts.len(), 7nat,
{
    if peek_at(ts, 0).t == Token::RParen {
        Ok((Seq::empty(), ts.drop_first()))
    } else {
        argument_list(lit, ts, Seq::empty())
    }
}

/// The arguments from `ts` on, behind those in `seen`.
pub open spec fn argument_list(lit: Literals, ts: Seq<TokenView>, seen: Seq<NodeView>) -> ParsedList
    decreases ts.len(), 6nat,
{
    match expr(lit, ts) {
        Err(e) => Err(e),
        Ok((arg, rest)) => {
            let sep = peek_at(rest, 0);
            if sep.t == Token::Comma && 0 < rest.len() <= ts.len() {
                argument_list(lit, rest.drop_first(), seen.push(arg))
            } else if sep.t == Token::RParen {
                Ok((seen.push(arg), rest.drop_first()))
            } else {
                Err(
                    ParseErrorView::ExpectedToken {
                        expected: Token::RParen,
                        found: sep,
                        reason: closing_reason(),
                    },
                )
            }
        },
    }
}

/// Atoms with `*` and `/` between them.
pub open spec fn mul_expr(lit: Literals, ts: Seq<TokenView>) -> Parsed
    decreases ts.len(), 2nat,
{
    match atom(lit, ts) {
        Err(e) => Err(e),
        Ok((left, rest)) => if rest.len() < ts.len() {
            mul_tail(lit, left, rest)
        } else {
            Ok((left, rest))
        },
    }
}

/// What follows `left` on the tighter tier.
pub open spec fn mul_tail(lit: Literals, left: NodeView, ts: Seq<TokenView>) -> Parsed
    decreases ts.len(), 8nat,
{
    match multiplicative(peek_at(ts, 0).t) {
        Some(operation) if ts.len() > 0 => match atom(lit, ts.drop_first()) {
            Err(e) => Err(e),
            Ok((right, rest)) => if rest.len() < ts.len() {
                mul_tail(lit, binary(left, right, operation), rest)
            } else {
                Ok((binary(left, right, operation), rest))
            },
        },
        _ => Ok((left, ts)),
    }
}

/// Products with `+`, `-` and `=` between them.
pub open spec fn add_expr(lit: Literals, ts: Seq<TokenView>) -> Parsed
    decreases ts.len(), 3nat,
{
    match mul_expr(lit, ts) {
        Err(e) => Err(e),
        Ok((left, rest)) => if rest.len() < ts.len() {
            add_tail(lit, left, rest)
        } else {
            Ok((left, rest))
        },
    }
}

/// What follows `left` on the loosest tier. Before `=`, `left` has to be a
/// bare name.
pub open spec fn add_tail(lit: Literals, left: NodeView, ts: Seq<TokenView>) -> Parsed
    decreases ts.len(), 8nat,
{
    match additive(peek_at(ts, 0).t) {
        Some(operation) if ts.len() > 0 => {
            let target = if operation == Operation::Assign {
                assignment_target(left)
            } else {
                Some(left)
            };
            match target {
                None => Err(ParseErrorView::InvalidAssignmentTarget(ts[0])),
                Some(first) => match mul_expr(lit, ts.drop_first()) {
                    Err(e) => Err(e),
                    Ok((right, rest)) => if rest.len() < ts.len() {
                        add_tail(lit, binary(first, right, operation), rest)
                    } else {
                        Ok((binary(first, right, operation), rest))
                    },
                },
            }
        },
        _ => Ok((left, ts)),
    }
}

/// An expression.
pub open spec fn expr(lit: Literals, ts: Seq<TokenView>) -> Parsed
    decreases ts.len(), 4nat,
{
    add_expr(lit, ts)
}

/// The expressions of a whole token sequence, behind those in `seen`.
pub open spec fn statements(lit: Literals, ts: Seq<TokenView>, seen: Seq<NodeView>) -> Result<
    Seq<NodeView>,
    ParseErrorView,
>
    decreases ts.len(), 5nat,
{
    if ts.len() == 0 {
        Ok(seen)
    } else {
        match expr(lit, ts) {
            Err(e) => Err(e),
            Ok((node, rest)) => if rest.len() < ts.len() {
                statements(lit, rest, seen.push(node))
            } else {
                Ok(seen.push(node))
            },
        }
    }
}

/// The program that a token sequence stands for: its expressions, one after
/// the other, until no token is left.
pub open spec fn program(lit: Literals, ts: Seq<TokenView>) -> Result<NodeView, ParseErrorView> {
    match statements(lit, ts, Seq::empty()) {
        Ok(nodes) => Ok(NodeView::Program(nodes)),
        Err(e) => Err(e),
    }
}

proof fn lemma_atom_progress(lit: Literals, ts: Seq<TokenView>)
    ensures
        atom(lit, ts) matches Ok((_, rest)) ==> rest.len() < ts.len(),
    decreases ts.len(), 1nat,
{
    match peek_at(ts, 0).t {
        Token::Ident => {
            if peek_at(ts, 1).t == Token::LParen {
                lemma_call_progress(lit, ts);
            }
        },
        Token::LParen => {
            if ts.len() > 0 {
                lemma_expr_progress(lit, ts.drop_first());
            }
        },
        _ => {},
    }
}

proof fn lemma_call_progress(lit: Literals, ts: Seq<TokenView>)
    ensures
        call_or_definition(lit, ts) matches Ok((_, rest)) ==> rest.len() < ts.len(),
    decreases ts.len(), 0nat,
{
    if ts.len() >= 2 {
        lemma_arguments_progress(lit, ts.skip(2));
        match arguments(lit, ts.skip(2)) {
            Ok((list, rest)) => {
                if all_identifiers(list) && peek_at(rest, 0).t == Token::Assign && 0
                    < rest.len() <= ts.len() {
                    lemma_expr_progress(lit, rest.drop_first());
                }
            },
            Err(_) => {},
        }
    }
}

proof fn lemma_arguments_progress(lit: Literals, ts: Seq<TokenView>)
    ensures
        arguments(lit, ts) matches Ok((_, rest)) ==> rest.len() < ts.len(),
    decreases ts.len(), 7nat,
{
    if peek_at(ts, 0).t != Token::RParen {
        lemma_argument_list_progress(lit, ts, Seq::empty());
    }
}

proof fn lemma_argument_list_progress(lit: Literals, ts: Seq<TokenView>, seen: Seq<NodeView>)
    ensures
        argument_list(lit, ts, seen) matches Ok((_, rest)) ==> rest.len() < ts.len(),
    decreases ts.len(), 6nat,
{
    lemma_expr_progress(lit, ts);
    match expr(lit, ts) {
        Ok((arg, rest)) => {
            if peek_at(rest, 0).t == Token::Comma && 0 < rest.len() <= ts.len() {
                lemma_argument_list_progress(lit, rest.drop_first(), seen.push(arg));
            }
        },
        Err(_) => {},
    }
}

proof fn lemma_mul_expr_progress(lit: Literals, ts: Seq<TokenView>)
    ensures
        mul_expr(lit, ts) matches Ok((_, rest)) ==> rest.len() < ts.len(),
    decreases ts.len(), 2nat,
{
    lemma_atom_progress(lit, ts);
    match atom(lit, ts) {
        Ok((left, rest)) => {
            if rest.len() < ts.len() {
                lemma_mul_tail_progress(lit, left, rest);
            }
        },
        Err(_) => {},
    }
}

proof fn lemma_mul_tail_progress(lit: Literals, left: NodeView, ts: Seq<TokenView>)
    ensures
        mul_tail(lit, left, ts) matches Ok((_, rest)) ==> rest.len() <= ts.len(),
    decreases ts.len(), 8nat,
{
    match multiplicative(peek_at(ts, 0).t) {
        Some(operation) if ts.len() > 0 => {
            lemma_atom_progress(lit, ts.drop_first());
            match atom(lit, ts.drop_first()) {
                Ok((right, rest)) => {
                    if rest.len() < ts.len() {
                        lemma_mul_tail_progress(lit, binary(left, right, operation), rest);
                    }
                },
                Err(_) => {},
            }
        },
        _ => {},
    }
}

proof fn lemma_add_expr_progress(lit: Literals, ts: Seq<TokenView>)
    ensures
        add_expr(lit, ts) matches Ok((_, rest)) ==> rest.len() < ts.len(),
    decreases ts.len(), 3nat,
{
    lemma_mul_expr_progress(lit, ts);
    match mul_expr(lit, ts) {
        Ok((left, rest)) => {
            if rest.len() < ts.len() {
                lemma_add_tail_progress(lit, left, rest);
            }
        },
        Err(_) => {},
    }
}

proof fn lemma_add_tail_progress(lit: Literals, left: NodeView, ts: Seq<TokenView>)
    ensures
        add_tail(lit, left, ts) matches Ok((_, rest)) ==> rest.len() <= ts.len(),
    decreases ts.len(), 8nat,
{
    match additive(peek_at(ts, 0).t) {
        Some(operation) if ts.len() > 0 => {
            let target = if operation == Operation::Assign {
                assignment_target(left)
            } else {
                Some(left)
            };
            match target {
                Some(first) => {
                    lemma_mul_expr_progress(lit, ts.drop_first());
                    match mul_expr(lit, ts.drop_first()) {
                        Ok((right, rest)) => {
                            if rest.len() < ts.len() {
                                lemma_add_tail_progress(lit, binary(first, right, operation), rest);
                            }
                        },
                        Err(_) => {},
                    }
                },
                None => {},
            }
        },
        _ => {},
    }
}

proof fn lemma_expr_progress(lit: Literals, ts: Seq<TokenView>)
    ensures
        expr(lit, ts) matches Ok((_, rest)) ==> rest.len() < ts.len(),
    decreases ts.len(), 4nat,
{
    lemma_add_expr_progress(lit, ts);
}

/// Whatever is parsed takes at least one token: an atom, a product, a sum,
/// an expression, a call or definition and an argument list each leave
/// fewer tokens than they were given. So every test on the number of tokens
/// in the definitions above passes.
pub proof fn lemma_progress(lit: Literals, ts: Seq<TokenView>)
    ensures
        atom(lit, ts) matches Ok((_, rest)) ==> rest.len() < ts.len(),
        call_or_definition(lit, ts) matches Ok((_, rest)) ==> rest.len() < ts.len(),
        arguments(lit, ts) matches Ok((_, rest)) ==> rest.len() < ts.len(),
        mul_expr(lit, ts) matches Ok((_, rest)) ==> rest.len() < ts.len(),
        add_expr(lit, ts) matches Ok((_, rest)) ==> rest.len() < ts.len(),
        expr(lit, ts) matches Ok((_, rest)) ==> rest.len() < ts.len(),
{
    lemma_atom_progress(lit, ts);
    lemma_call_progress(lit, ts);
    lemma_arguments_progress(lit, ts);
    lemma_mul_expr_progress(lit, ts);
    lemma_add_expr_progress(lit, ts);
    lemma_expr_progress(lit, ts);
}

/// Every node of the sequence is well formed.
pub open spec fn all_well_formed(nodes: Seq<NodeView>) -> bool {
    forall|i: int| 0 <= i < nodes.len() ==> well_formed(#[trigger] nodes[i])
}

proof fn lemma_atom_well_formed(lit: Literals, ts: Seq<TokenView>)
    ensures
        atom(lit, ts) matches Ok((node, _)) ==> well_formed(node),
    decreases ts.len(), 1nat,
{
    match peek_at(ts, 0).t {
        Token::Ident => {
            if peek_at(ts, 1).t == Token::LParen {
                lemma_call_well_formed(lit, ts);
            }
        },
        Token::LParen => {
            if ts.len() > 0 {
                lemma_expr_well_formed(lit, ts.drop_first());
            }
        },
        _ => {},
    }
}

proof fn lemma_call_well_formed(lit: Literals, ts: Seq<TokenView>)
    ensures
        call_or_definition(lit, ts) matches Ok((node, _)) ==> well_formed(node),
    decreases ts.len(), 0nat,
{
    if ts.len() >= 2 {
        if peek_at(ts.skip(2), 0).t != Token::RParen {
            lemma_argument_list_well_formed(lit, ts.skip(2), Seq::empty());
        }
        match arguments(lit, ts.skip(2)) {
            Ok((list, rest)) => {
                if all_identifiers(list) && peek_at(rest, 0).t == Token::Assign && 0 < rest.len()
                    <= ts.len() {
                    lemma_expr_well_formed(lit, rest.drop_first());
                }
            },
            Err(_) => {},
        }
    }
}

proof fn lemma_argument_list_well_formed(lit: Literals, ts: Seq<TokenView>, seen: Seq<NodeView>)
    requires
        all_well_formed(seen),
    ensures
        argument_list(lit, ts, seen) matches Ok((list, _)) ==> all_well_formed(list),
    decreases ts.len(), 6nat,
{
    lemma_expr_well_formed(lit, ts);
    match expr(lit, ts) {
        Ok((arg, rest)) => {
            if peek_at(rest, 0).t == Token::Comma && 0 < rest.len() <= ts.len() {
                lemma_argument_list_well_formed(lit, rest.drop_first(), seen.push(arg));
            }
        },
        Err(_) => {},
    }
}

proof fn lemma_mul_expr_well_formed(lit: Literals, ts: Seq<TokenView>)
    ensures
        mul_expr(lit, ts) matches Ok((node, _)) ==> well_formed(node),
    decreases ts.len(), 2nat,
{
    lemma_atom_well_formed(lit, ts);
    match atom(lit, ts) {
        Ok((left, rest)) => {
            if rest.len() < ts.len() {
                lemma_mul_tail_well_formed(lit, left, rest);
            }
        },
        Err(_) => {},
    }
}

proof fn lemma_mul_tail_well_formed(lit: Literals, left: NodeView, ts: Seq<TokenView>)
    requires
        well_formed(left),
    ensures
        mul_tail(lit, left, ts) matches Ok((node, _)) ==> well_formed(node),
    decreases ts.len(), 8nat,
{
    match multiplicative(peek_at(ts, 0).t) {
        Some(operation) if ts.len() > 0 => {
            lemma_atom_well_formed(lit, ts.drop_first());
            match atom(lit, ts.drop_first()) {
                Ok((right, rest)) => {
                    if rest.len() < ts.len() {
                        lemma_mul_tail_well_formed(lit, binary(left, right, operation), rest);
                    }
                },
                Err(_) => {},
            }
        },
        _ => {},
    }
}

proof fn lemma_add_expr_well_formed(lit: Literals, ts: Seq<TokenView>)
    ensures
        add_expr(lit, ts) matches Ok((node, _)) ==> well_formed(node),
    decreases ts.len(), 3nat,
{
    lemma_mul_expr_well_formed(lit, ts);
    match mul_expr(lit, ts) {
        Ok((left, rest)) => {
            if rest.len() < ts.len() {
                lemma_add_tail_well_formed(lit, left, rest);
            }
        },
        Err(_) => {},
    }
}

proof fn lemma_add_tail_well_formed(lit: Literals, left: NodeView, ts: Seq<TokenView>)
    requires
        well_formed(left),
    ensures
        add_tail(lit, left, ts) matches Ok((node, _)) ==> well_formed(node),
    decreases ts.len(), 8nat,
{
    match additive(peek_at(ts, 0).t) {
        Some(operation) if ts.len() > 0 => {
            let target = if operation == Operation::Assign {
                assignment_target(left)
            } else {
                Some(left)
            };
            match target {
                Some(first) => {
                    lemma_mul_expr_well_formed(lit, ts.drop_first());
                    match mul_expr(lit, ts.drop_first()) {
                        Ok((right, rest)) => {
                            if rest.len() < ts.len() {
                                lemma_add_tail_well_formed(lit, binary(first, right, operation), rest);
                            }
                        },
                        Err(_) => {},
                    }
                },
                None => {},
            }
        },
        _ => {},
    }
}

proof fn lemma_expr_well_formed(lit: Literals, ts: Seq<TokenView>)
    ensures
        expr(lit, ts) matches Ok((node, _)) ==> well_formed(node),
    decreases ts.len(), 4nat,
{
    lemma_add_expr_well_formed(lit, ts);
}

proof fn lemma_statements_well_formed(lit: Literals, ts: Seq<TokenView>, seen: Seq<NodeView>)
    requires
        all_well_formed(seen),
    ensures
        statements(lit, ts, seen) matches Ok(nodes) ==> all_well_formed(nodes),
    decreases ts.len(), 5nat,
{
    if ts.len() > 0 {
        lemma_expr_well_formed(lit, ts);
        match expr(lit, ts) {
            Ok((node, rest)) => {
                if rest.len() < ts.len() {
                    lemma_statements_well_formed(lit, rest, seen.push(node));
                }
            },
            Err(_) => {},
        }
    }
}

/// What the parser yields is well formed: in a parsed program the left side
/// of every assignment is a target, and targets stand nowhere else.
pub proof fn lemma_program_well_formed(lit: Literals, ts: Seq<TokenView>)
    ensures
        program(lit, ts) matches Ok(node) ==> well_formed(node),
{
    lemma_statements_well_formed(lit, ts, Seq::empty());
}

/// What a source text is read as: its program, or the span of the first
/// character that starts no token, or the first error of the parse.
pub enum SyntaxErrorView {
    Lex(int, int),
    Parse(ParseErrorView),
}

/// The program that the bytes of a source text stand for.
pub open spec fn syntax_of(lit: Literals, bytes: Seq<u8>) -> Result<NodeView, SyntaxErrorView> {
    match tokens_from(bytes, 0) {
        Err(span) => Err(SyntaxErrorView::Lex(span.0, span.1)),
        Ok(ts) => match program(lit, ts) {
            Ok(node) => Ok(node),
            Err(e) => Err(SyntaxErrorView::Parse(e)),
        },
    }
}

} // verus!
