//! From source text to syntax tree.
//!
//! The parser holds the tokens that are left and takes them from the front.
//! Each of its functions does what the function of the same tier in
//! `grammar` says, on the tokens that were left when it was called.
//!
//! A numeric literal becomes the bits of its number where it is parsed. The
//! library does not read numbers itself: the caller hands the parser a
//! function from the literal's text to the bits.

pub mod ast;
pub mod grammar;
pub mod tokens;

use crate::parse::ast::{
    lemma_node_views, name_views, node_views, well_formed, ASTNode, AssignmentProp, NodeView,
    Operation, MINUS_ONE,
};
use crate::parse::grammar::{
    add_expr, add_tail, all_identifiers, argument_list, arguments, assignment_target, atom,
    binary, call_or_definition,
    closing_reason, eof_token, expr, identifier_names, lemma_program_well_formed, mul_expr,
    mul_tail, peek_at, program,
    statements, syntax_of, Literals, ParseErrorView, Parsed, SyntaxErrorView,
};
use crate::parse::tokens::{
    span_text, token_views, tokens_from, LexError, Span, Token, TokenData, TokenView,
};
use std::collections::VecDeque;
use vstd::prelude::*;
use vstd::string::StringExecFns;
use vstd::utf8::encode_utf8;

verus! {

/// `literal` answers every question.
pub open spec fn literal_total<L: Fn(&String) -> u64>(literal: &L) -> bool {
    forall|text: String| literal.requires((&text,))
}

/// `literal` gives one answer to one text.
pub open spec fn literal_single_valued<L: Fn(&String) -> u64>(literal: &L) -> bool {
    forall|s1: String, s2: String, r1: u64, r2: u64|
        s1@ == s2@ && literal.ensures((&s1,), r1) && literal.ensures((&s2,), r2) ==> r1 == r2
}

/// The function that `literal` computes.
pub open spec fn literal_fn<L: Fn(&String) -> u64>(literal: &L) -> Literals {
    |text: Seq<char>|
        (choose|p: (String, u64)| p.0@ == text && #[trigger] literal.ensures((&p.0,), p.1)).1
}

/// The number that `literal` makes of `text`.
fn literal_bits<L: Fn(&String) -> u64>(literal: &L, text: &String) -> (r: u64)
    requires
        literal_total(literal),
        literal_single_valued(literal),
    ensures
        r == literal_fn(literal)(text@),
{
    let r = literal(text);
    proof {
        let witness = (*text, r);
        assert(witness.0@ == text@ && literal.ensures((&witness.0,), witness.1));
        let p = choose|p: (String, u64)| p.0@ == text@ && #[trigger] literal.ensures((&p.0,), p.1);
        assert(p.0@ == text@ && literal.ensures((&p.0,), p.1));
    }
    r
}

/// Values of which a copy can be put in a box.
pub trait Boxed<T> {
    fn boxed(&self) -> Box<T>;
}

impl<T: Clone> Boxed<T> for T {
    fn boxed(&self) -> (r: Box<T>)
        ensures
            cloned::<T>(*self, *r),
    {
        Box::new(self.clone())
    }
}

/// Why a token sequence is no program.
#[derive(Debug, PartialEq)]
pub enum ParseError {
    /// A token that starts no atom stands where an atom has to start.
    UnexpectedToken(TokenData),
    /// A token of kind `expected` had to follow, and `found` stands there.
    ExpectedToken { expected: Token, found: TokenData, reason: String },
    /// The left side of this `=` is no bare name.
    InvalidAssignmentTarget(TokenData),
}

impl View for ParseError {
    type V = ParseErrorView;

    open spec fn view(&self) -> ParseErrorView {
        match self {
            ParseError::UnexpectedToken(t) => ParseErrorView::UnexpectedToken(t@),
            ParseError::ExpectedToken { expected, found, reason } => ParseErrorView::ExpectedToken {
                expected: *expected,
                found: found@,
                reason: reason@,
            },
            ParseError::InvalidAssignmentTarget(t) => ParseErrorView::InvalidAssignmentTarget(t@),
        }
    }
}

impl ParseError {
    /// What went wrong, in words, with the text and the span of the token
    /// at which it went wrong.
    pub fn message(&self) -> (r: String)
        ensures
            r@ == match self@ {
                ParseErrorView::UnexpectedToken(t) => "Unexpected token "@ + token_text(t),
                ParseErrorView::ExpectedToken { expected, found, reason } => reason + " Found "@
                    + token_text(found),
                ParseErrorView::InvalidAssignmentTarget(t) => "Nothing to assign to before "@
                    + token_text(t),
            },
    {
        match self {
            ParseError::UnexpectedToken(t) => String::from_str("Unexpected token ").concat(
                describe(t).as_str(),
            ),
            ParseError::ExpectedToken { expected, found, reason } => reason.clone().concat(
                " Found ",
            ).concat(describe(found).as_str()),
            ParseError::InvalidAssignmentTarget(t) => String::from_str(
                "Nothing to assign to before ",
            ).concat(describe(t).as_str()),
        }
    }
}

/// A token in words: its text and its span.
pub open spec fn token_text(t: TokenView) -> Seq<char> {
    t.text + " at bytes "@ + span_text(t.start, t.end)
}

fn describe(t: &TokenData) -> (r: String)
    ensures
        r@ == token_text(t@),
{
    t.slice.clone().concat(" at bytes ").concat(t.span.text().as_str())
}

/// `r` is what `expected` says, and `left` are the tokens behind it.
pub open spec fn parsed(r: Result<ASTNode, ParseError>, left: Seq<TokenView>, expected: Parsed) -> bool {
    match expected {
        Ok((node, rest)) => r matches Ok(n) && n@ == node && left == rest,
        Err(e) => r matches Err(x) && x@ == e,
    }
}

/// The names of `args`, if each of them is a bare name.
fn parameter_names(args: &Vec<ASTNode>) -> (r: Option<Vec<String>>)
    ensures
        match r {
            Some(names) => all_identifiers(node_views(args@)) && name_views(names@)
                == identifier_names(node_views(args@)),
            None => !all_identifiers(node_views(args@)),
        },
{
    let mut names: Vec<String> = Vec::new();
    let mut i: usize = 0;
    while i < args.len()
        invariant
            i <= args@.len(),
            names@.len() == i,
            forall|j: int|
                0 <= j < i ==> (#[trigger] node_views(args@)[j]) == NodeView::Identifier(
                    names@[j]@,
                ),
        decreases args@.len() - i,
    {
        match args[i].try_string() {
            Some(name) => {
                names.push(name);
            },
            None => {
                assert(!(node_views(args@)[i as int] is Identifier));
                return None;
            },
        }
        i += 1;
    }
    assert(name_views(names@) =~= identifier_names(node_views(args@)));
    Some(names)
}

/// A parser over the tokens of one source text.
pub struct Parser {
    tokens: VecDeque<TokenData>,
}

impl Parser {
    /// The tokens that are left, first to last.
    pub closed spec fn remaining(&self) -> Seq<TokenView> {
        token_views(self.tokens@)
    }

    /// A parser over the tokens of `src`, or the error for the first
    /// character of `src` that starts no token.
    pub fn new(src: String) -> (r: Result<Parser, LexError>)
        ensures
            match tokens_from(encode_utf8(src@), 0) {
                Ok(ts) => r matches Ok(p) && p.remaining() == ts,
                Err(span) => r matches Err(e) && e.span.start == span.0 && e.span.end == span.1,
            },
    {
        match TokenData::vecdeque(Token::lexer(src.as_str())) {
            Ok(tokens) => Ok(Parser { tokens }),
            Err(e) => Err(e),
        }
    }

    fn eof() -> (t: TokenData)
        ensures
            t@ == eof_token(),
    {
        TokenData {
            t: Token::EOF,
            span: Span { start: 0, end: 0 },
            slice: String::from_str("__EOF__"),
        }
    }

    /// The kind of the token `i` places ahead.
    fn kind(&self, i: usize) -> (t: Token)
        ensures
            t == peek_at(self.remaining(), i as int).t,
    {
        if i < self.tokens.len() {
            self.tokens[i].t
        } else {
            Token::EOF
        }
    }

    fn curr(&self) -> (t: TokenData)
        ensures
            t@ == peek_at(self.remaining(), 0),
    {
        if self.tokens.len() > 0 {
            self.tokens[0].clone()
        } else {
            Self::eof()
        }
    }

    fn go(&mut self) -> (t: TokenData)
        requires
            old(self).remaining().len() > 0,
        ensures
            t@ == old(self).remaining()[0],
            final(self).remaining() == old(self).remaining().drop_first(),
    {
        let t = self.tokens.pop_front().unwrap();
        assert(token_views(self.tokens@) =~= token_views(old(self).tokens@).drop_first());
        t
    }

    fn complete(&self) -> (r: bool)
        ensures
            r == (self.remaining().len() == 0),
    {
        self.tokens.len() == 0
    }

    /// The whole program: expressions are read until no token is left. The
    /// first error ends the parse. `literal` says what number the text of a
    /// numeric literal stands for.
    pub fn gen_ast<L: Fn(&String) -> u64>(&mut self, literal: &L) -> (r: Result<
        ASTNode,
        ParseError,
    >)
        requires
            literal_total(literal),
            literal_single_valued(literal),
        ensures
            match program(literal_fn(literal), old(self).remaining()) {
                Ok(node) => r matches Ok(n) && n@ == node && final(self).remaining().len() == 0,
                Err(e) => r matches Err(x) && x@ == e,
            },
            r matches Ok(n) ==> well_formed(n@),
    {
        let ghost ts = self.remaining();
        proof {
            lemma_program_well_formed(literal_fn(literal), ts);
        }
        let mut nodes: Vec<ASTNode> = Vec::new();
        assert(node_views(nodes@) =~= Seq::<NodeView>::empty());
        while !self.complete()
            invariant
                literal_total(literal),
                literal_single_valued(literal),
                ts == old(self).remaining(),
                statements(literal_fn(literal), self.remaining(), node_views(nodes@))
                    == statements(literal_fn(literal), ts, Seq::empty()),
            decreases self.remaining().len(),
        {
            let ghost seen = node_views(nodes@);
            match self.parse_expr(literal) {
                Ok(node) => {
                    nodes.push(node);
                    assert(node_views(nodes@) =~= seen.push(node@));
                },
                Err(e) => {
                    return Err(e);
                },
            }
        }
        let node = ASTNode::Program(nodes);
        proof {
            lemma_node_views(node);
        }
        Ok(node)
    }

    /// The current token, if it is of kind `token`; the error with `reason`
    /// if it is not. The token stays where it is.
    pub fn expect(&self, token: Token, reason: &str) -> (r: Result<TokenData, ParseError>)
        ensures
            match r {
                Ok(t) => t@ == peek_at(self.remaining(), 0) && t@.t == token,
                Err(e) => peek_at(self.remaining(), 0).t != token && e@
                    == (ParseErrorView::ExpectedToken {
                    expected: token,
                    found: peek_at(self.remaining(), 0),
                    reason: reason@,
                }),
            },
    {
        let c = self.curr();
        if c.t != token {
            Err(ParseError::ExpectedToken { expected: token, found: c, reason: String::from_str(reason) })
        } else {
            Ok(c)
        }
    }

    fn parse_expr<L: Fn(&String) -> u64>(&mut self, literal: &L) -> (r: Result<
        ASTNode,
        ParseError,
    >)
        requires
            literal_total(literal),
            literal_single_valued(literal),
        ensures
            parsed(r, final(self).remaining(), expr(literal_fn(literal), old(self).remaining())),
            r is Ok ==> final(self).remaining().len() < old(self).remaining().len(),
        decreases old(self).remaining().len(), 4nat,
    {
        self.parse_add_expr(literal)
    }

    fn parse_add_expr<L: Fn(&String) -> u64>(&mut self, literal: &L) -> (r: Result<
        ASTNode,
        ParseError,
    >)
        requires
            literal_total(literal),
            literal_single_valued(literal),
        ensures
            parsed(
                r,
                final(self).remaining(),
                add_expr(literal_fn(literal), old(self).remaining()),
            ),
            r is Ok ==> final(self).remaining().len() < old(self).remaining().len(),
        decreases old(self).remaining().len(), 3nat,
    {
        let ghost ts = self.remaining();
        let mut left = match self.parse_mul_expr(literal) {
            Ok(node) => node,
            Err(e) => {
                return Err(e);
            },
        };
        loop
            invariant
                literal_total(literal),
                literal_single_valued(literal),
                ts == old(self).remaining(),
                self.remaining().len() < ts.len(),
                add_tail(literal_fn(literal), left@, self.remaining()) == add_expr(
                    literal_fn(literal),
                    ts,
                ),
            decreases self.remaining().len(),
        {
            let operation = match self.kind(0) {
                Token::Add => Operation::Add,
                Token::Sub => Operation::Sub,
                Token::Assign => Operation::Assign,
                _ => {
                    return Ok(left);
                },
            };
            let ghost before = left@;
            if operation == Operation::Assign {
                left = match left {
                    ASTNode::Identifier(name) => ASTNode::AssignmentProp(
                        AssignmentProp::Identifier(name),
                    ),
                    _ => {
                        return Err(ParseError::InvalidAssignmentTarget(self.curr()));
                    },
                };
                assert(Some(left@) == assignment_target(before));
            }
            let ghost first = left@;
            self.go();
            let right = match self.parse_mul_expr(literal) {
                Ok(node) => node,
                Err(e) => {
                    return Err(e);
                },
            };
            let ghost second = right@;
            left = ASTNode::BinaryExpression {
                left: Box::new(left),
                right: Box::new(right),
                operation,
            };
            assert(left@ == binary(first, second, operation));
        }
    }

    fn parse_mul_expr<L: Fn(&String) -> u64>(&mut self, literal: &L) -> (r: Result<
        ASTNode,
        ParseError,
    >)
        requires
            literal_total(literal),
            literal_single_valued(literal),
        ensures
            parsed(
                r,
                final(self).remaining(),
                mul_expr(literal_fn(literal), old(self).remaining()),
            ),
            r is Ok ==> final(self).remaining().len() < old(self).remaining().len(),
        decreases old(self).remaining().len(), 2nat,
    {
        let ghost ts = self.remaining();
        let mut left = match self.parse_atom(literal) {
            Ok(node) => node,
            Err(e) => {
                return Err(e);
            },
        };
        loop
            invariant
                literal_total(literal),
                literal_single_valued(literal),
                ts == old(self).remaining(),
                self.remaining().len() < ts.len(),
                mul_tail(literal_fn(literal), left@, self.remaining()) == mul_expr(
                    literal_fn(literal),
                    ts,
                ),
            decreases self.remaining().len(),
        {
            let operation = match self.kind(0) {
                Token::Mul => Operation::Mul,
                Token::Div => Operation::Div,
                _ => {
                    return Ok(left);
                },
            };
            self.go();
            let right = match self.parse_atom(literal) {
                Ok(node) => node,
                Err(e) => {
                    return Err(e);
                },
            };
            left = ASTNode::BinaryExpression {
                left: Box::new(left),
                right: Box::new(right),
                operation,
            };
        }
    }

    fn parse_function_call_or_decl<L: Fn(&String) -> u64>(&mut self, literal: &L) -> (r: Result<
        ASTNode,
        ParseError,
    >)
        requires
            literal_total(literal),
            literal_single_valued(literal),
        ensures
            parsed(
                r,
                final(self).remaining(),
                call_or_definition(literal_fn(literal), old(self).remaining()),
            ),
            r is Ok ==> final(self).remaining().len() < old(self).remaining().len(),
        decreases old(self).remaining().len(), 0nat,
    {
        let ghost ts = self.remaining();
        if self.tokens.len() < 2 {
            return Err(ParseError::UnexpectedToken(self.curr()));
        }
        let ident = self.go();
        assert(self.remaining().drop_first() =~= ts.skip(2));
        let args = match self.parse_function_args(literal) {
            Ok(args) => args,
            Err(e) => {
                return Err(e);
            },
        };
        if self.kind(0) == Token::Assign {
            if let Some(params) = parameter_names(&args) {
                self.go();
                let body = match self.parse_expr(literal) {
                    Ok(node) => node,
                    Err(e) => {
                        return Err(e);
                    },
                };
                return Ok(
                    ASTNode::FunctionDefinition {
                        name: ident.slice,
                        args: params,
                        body: Box::new(body),
                    },
                );
            }
        }
        let node = ASTNode::FunctionCall { name: ident.slice, args };
        proof {
            lemma_node_views(node);
        }
        Ok(node)
    }

    /// Reads the `(` and the arguments behind it, up to and with the `)`.
    fn parse_function_args<L: Fn(&String) -> u64>(&mut self, literal: &L) -> (r: Result<
        Vec<ASTNode>,
        ParseError,
    >)
        requires
            literal_total(literal),
            literal_single_valued(literal),
            old(self).remaining().len() > 0,
        ensures
            match arguments(literal_fn(literal), old(self).remaining().drop_first()) {
                Ok((list, rest)) => r matches Ok(v) && node_views(v@) == list
                    && final(self).remaining() == rest,
                Err(e) => r matches Err(x) && x@ == e,
            },
            r is Ok ==> final(self).remaining().len() < old(self).remaining().len(),
        decreases old(self).remaining().len(), 7nat,
    {
        self.go();
        let ghost ts = self.remaining();
        let mut args: Vec<ASTNode> = Vec::new();
        assert(node_views(args@) =~= Seq::<NodeView>::empty());
        if self.kind(0) == Token::RParen {
            self.go();
            return Ok(args);
        }
        loop
            invariant
                literal_total(literal),
                literal_single_valued(literal),
                ts == old(self).remaining().drop_first(),
                old(self).remaining().len() > 0,
                self.remaining().len() <= ts.len(),
                argument_list(literal_fn(literal), self.remaining(), node_views(args@))
                    == arguments(literal_fn(literal), ts),
            decreases self.remaining().len(),
        {
            let ghost seen = node_views(args@);
            let arg = match self.parse_expr(literal) {
                Ok(node) => node,
                Err(e) => {
                    return Err(e);
                },
            };
            args.push(arg);
            assert(node_views(args@) =~= seen.push(arg@));
            if self.kind(0) == Token::Comma {
                self.go();
            } else {
                return match self.expect(Token::RParen, "Expected a ')'.") {
                    Ok(_) => {
                        self.go();
                        Ok(args)
                    },
                    Err(e) => Err(e),
                };
            }
        }
    }

    fn parse_atom<L: Fn(&String) -> u64>(&mut self, literal: &L) -> (r: Result<
        ASTNode,
        ParseError,
    >)
        requires
            literal_total(literal),
            literal_single_valued(literal),
        ensures
            parsed(r, final(self).remaining(), atom(literal_fn(literal), old(self).remaining())),
            r is Ok ==> final(self).remaining().len() < old(self).remaining().len(),
        decreases old(self).remaining().len(), 1nat,
    {
        match self.kind(0) {
            Token::Ident => {
                if self.kind(1) == Token::LParen {
                    self.parse_function_call_or_decl(literal)
                } else {
                    let tk = self.go();
                    Ok(ASTNode::Identifier(tk.slice))
                }
            },
            Token::Newline => {
                self.go();
                Ok(ASTNode::NumericLiteral(MINUS_ONE))
            },
            Token::Number => {
                let tk = self.go();
                Ok(ASTNode::NumericLiteral(literal_bits(literal, &tk.slice)))
            },
            Token::LParen => {
                self.go();
                let e = match self.parse_expr(literal) {
                    Ok(node) => node,
                    Err(x) => {
                        return Err(x);
                    },
                };
                match self.expect(Token::RParen, "Expected a ')'.") {
                    Ok(_) => {
                        self.go();
                        Ok(e)
                    },
                    Err(x) => Err(x),
                }
            },
            _ => Err(ParseError::UnexpectedToken(self.curr())),
        }
    }
}

/// Why a source text is no program.
#[derive(Debug, PartialEq)]
pub enum SyntaxError {
    /// A character starts no token.
    Lex(LexError),
    /// The tokens are no program.
    Parse(ParseError),
}

impl View for SyntaxError {
    type V = SyntaxErrorView;

    open spec fn view(&self) -> SyntaxErrorView {
        match self {
            SyntaxError::Lex(e) => SyntaxErrorView::Lex(e.span.start as int, e.span.end as int),
            SyntaxError::Parse(e) => SyntaxErrorView::Parse(e@),
        }
    }
}

/// `r` is what `expected` says.
pub open spec fn reads_as(
    r: Result<ASTNode, SyntaxError>,
    expected: Result<NodeView, SyntaxErrorView>,
) -> bool {
    match expected {
        Ok(node) => r matches Ok(n) && n@ == node,
        Err(e) => r matches Err(x) && x@ == e,
    }
}

/// Reads a source text as a program: the text is tokenized, the tokens are
/// parsed. The first error of either step ends the reading. `literal` says
/// what number the text of a numeric literal stands for.
pub fn parse<L: Fn(&String) -> u64>(src: &str, literal: &L) -> (r: Result<ASTNode, SyntaxError>)
    requires
        literal_total(literal),
        literal_single_valued(literal),
    ensures
        reads_as(r, syntax_of(literal_fn(literal), encode_utf8(src@))),
        r matches Ok(n) ==> well_formed(n@),
{
    match TokenData::vecdeque(Token::lexer(src)) {
        Err(e) => Err(SyntaxError::Lex(e)),
        Ok(tokens) => {
            let mut parser = Parser { tokens };
            match parser.gen_ast(literal) {
                Ok(node) => Ok(node),
                Err(e) => Err(SyntaxError::Parse(e)),
            }
        },
    }
}

/// Reading is a function of the text and of the numbers that literals stand
/// for: two readings of texts with the same characters end alike, both with
/// trees of one shape and content, or both with the same error.
pub proof fn lemma_parse_deterministic(
    lit: Literals,
    a: Seq<char>,
    b: Seq<char>,
    first: Result<ASTNode, SyntaxError>,
    second: Result<ASTNode, SyntaxError>,
)
    requires
        a == b,
        reads_as(first, syntax_of(lit, encode_utf8(a))),
        reads_as(second, syntax_of(lit, encode_utf8(b))),
    ensures
        first is Ok <==> second is Ok,
        first matches Ok(x) ==> second matches Ok(y) && x@ == y@,
        first matches Err(x) ==> second matches Err(y) && x@ == y@,
{
}

} // verus!
