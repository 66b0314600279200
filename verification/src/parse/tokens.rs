//! The tokenizer.
//!
//! The source is read as UTF-8 bytes. At each position spaces and tabs are
//! skipped; what follows is a line feed, an identifier, a number, one of the
//! single-character symbols, or a character the language does not know.

use std::collections::VecDeque;
use vstd::prelude::*;
use vstd::string::StringExecFns;
use vstd::utf8::*;

verus! {

broadcast use vstd::utf8::group_utf8_lib;

/// The kind of a token.
///
/// `[` is lexed as `RBracket` and `]` as `LBracket`; the grammar uses neither.
/// `EOF` never comes out of the tokenizer: the parser hands it out when it is
/// asked for a token past the end of the stream.
#[derive(Clone, Copy, Debug, PartialEq, Eq, Structural)]
pub enum Token {
    Ident,
    Number,
    Add,
    Sub,
    Mul,
    Div,
    Assign,
    RParen,
    LParen,
    RBracket,
    LBracket,
    Newline,
    Comma,
    Dot,
    EOF,
}

/// A half-open range of byte offsets into the source.
#[derive(Clone, Copy, Debug, PartialEq, Eq, Structural)]
pub struct Span {
    pub start: usize,
    pub end: usize,
}

/// A token with its place in the source and the text it was read from.
#[derive(Debug, PartialEq)]
pub struct TokenData {
    pub t: Token,
    pub span: Span,
    pub slice: String,
}

/// A character that starts no token, by the bytes it occupies.
#[derive(Clone, Copy, Debug, PartialEq, Eq, Structural)]
pub struct LexError {
    pub span: Span,
}

/// The character of a digit.
pub open spec fn digit(d: nat) -> char {
    if d == 0 {
        '0'
    } else if d == 1 {
        '1'
    } else if d == 2 {
        '2'
    } else if d == 3 {
        '3'
    } else if d == 4 {
        '4'
    } else if d == 5 {
        '5'
    } else if d == 6 {
        '6'
    } else if d == 7 {
        '7'
    } else if d == 8 {
        '8'
    } else {
        '9'
    }
}

/// A number written in decimal digits.
pub open spec fn decimal(n: nat) -> Seq<char>
    decreases n,
{
    if n < 10 {
        seq![digit(n)]
    } else {
        decimal(n / 10).push(digit(n % 10))
    }
}

/// A span written as its two offsets with `..` between them.
pub open spec fn span_text(start: int, end: int) -> Seq<char> {
    decimal(start as nat) + ".."@ + decimal(end as nat)
}

fn digit_text(d: usize) -> (r: &'static str)
    requires
        d < 10,
    ensures
        r@ == seq![digit(d as nat)],
{
    proof {
        reveal_strlit("0");
        reveal_strlit("1");
        reveal_strlit("2");
        reveal_strlit("3");
        reveal_strlit("4");
        reveal_strlit("5");
        reveal_strlit("6");
        reveal_strlit("7");
        reveal_strlit("8");
        reveal_strlit("9");
    }
    let r = if d == 0 {
        "0"
    } else if d == 1 {
        "1"
    } else if d == 2 {
        "2"
    } else if d == 3 {
        "3"
    } else if d == 4 {
        "4"
    } else if d == 5 {
        "5"
    } else if d == 6 {
        "6"
    } else if d == 7 {
        "7"
    } else if d == 8 {
        "8"
    } else {
        "9"
    };
    assert(r@ =~= seq![digit(d as nat)]);
    r
}

/// `n` in decimal digits.
pub fn decimal_string(n: usize) -> (r: String)
    ensures
        r@ == decimal(n as nat),
{
    let mut out = String::from_str(digit_text(n % 10));
    let mut rest: usize = n / 10;
    assert(decimal(n as nat) =~= if rest > 0 {
        decimal(rest as nat) + out@
    } else {
        out@
    });
    while rest > 0
        invariant
            decimal(n as nat) == if rest > 0 {
                decimal(rest as nat) + out@
            } else {
                out@
            },
        decreases rest,
    {
        let ghost before = out@;
        let ghost upper = rest;
        out = String::from_str(digit_text(rest % 10)).concat(out.as_str());
        rest = rest / 10;
        assert(decimal(upper as nat) + before =~= if rest > 0 {
            decimal(rest as nat) + out@
        } else {
            out@
        });
    }
    out
}

impl Span {
    /// The span in words: its two offsets with `..` between them.
    pub fn text(&self) -> (r: String)
        ensures
            r@ == span_text(self.start as int, self.end as int),
    {
        decimal_string(self.start).concat("..").concat(decimal_string(self.end).as_str())
    }
}

impl LexError {
    /// What went wrong, in words, with the span of the character.
    pub fn message(&self) -> (r: String)
        ensures
            r@ == "Unknown character at bytes "@ + span_text(
                self.span.start as int,
                self.span.end as int,
            ),
    {
        String::from_str("Unknown character at bytes ").concat(self.span.text().as_str())
    }
}

/// What a token is, as a mathematical value.
pub struct TokenView {
    pub t: Token,
    pub start: int,
    pub end: int,
    pub text: Seq<char>,
}

impl View for TokenData {
    type V = TokenView;

    open spec fn view(&self) -> TokenView {
        TokenView {
            t: self.t,
            start: self.span.start as int,
            end: self.span.end as int,
            text: self.slice@,
        }
    }
}

impl Clone for TokenData {
    fn clone(&self) -> (r: Self)
        ensures
            r == *self,
    {
        TokenData { t: self.t, span: self.span, slice: self.slice.clone() }
    }
}

/// The views of a sequence of tokens, in order.
pub open spec fn token_views(tokens: Seq<TokenData>) -> Seq<TokenView> {
    tokens.map_values(|t: TokenData| t@)
}

/// The classes of bytes that the tokenizer reads in runs.
#[derive(Clone, Copy, Debug, PartialEq, Eq, Structural)]
pub enum ByteClass {
    /// Space and tab.
    Blank,
    /// ASCII letters, digits and `_`.
    IdentPart,
    /// ASCII digits.
    Digit,
    /// The second and later bytes of a character's UTF-8 encoding.
    Continuation,
}

pub open spec fn is_letter(b: u8) -> bool {
    (0x41 <= b <= 0x5a) || (0x61 <= b <= 0x7a)
}

pub open spec fn is_digit(b: u8) -> bool {
    0x30 <= b <= 0x39
}

/// An identifier starts with an ASCII letter or `_`.
pub open spec fn is_ident_start(b: u8) -> bool {
    is_letter(b) || b == 0x5f
}

pub open spec fn in_class(class: ByteClass, b: u8) -> bool {
    match class {
        ByteClass::Blank => b == 0x20 || b == 0x09,
        ByteClass::IdentPart => is_letter(b) || is_digit(b) || b == 0x5f,
        ByteClass::Digit => is_digit(b),
        ByteClass::Continuation => is_continuation_byte(b),
    }
}

/// The first offset at or after `pos` whose byte is not in `class`, or the
/// length of `bytes` if there is none.
pub open spec fn run_end(bytes: Seq<u8>, pos: int, class: ByteClass) -> int
    decreases bytes.len() - pos,
{
    if 0 <= pos < bytes.len() && in_class(class, bytes[pos]) {
        run_end(bytes, pos + 1, class)
    } else {
        pos
    }
}

/// The token kind of a single-character symbol.
pub open spec fn symbol(b: u8) -> Option<Token> {
    if b == 0x0a {
        Some(Token::Newline)
    } else if b == 0x3d {
        Some(Token::Assign)
    } else if b == 0x2b {
        Some(Token::Add)
    } else if b == 0x2d {
        Some(Token::Sub)
    } else if b == 0x2a {
        Some(Token::Mul)
    } else if b == 0x2f {
        Some(Token::Div)
    } else if b == 0x28 {
        Some(Token::LParen)
    } else if b == 0x29 {
        Some(Token::RParen)
    } else if b == 0x5b {
        Some(Token::RBracket)
    } else if b == 0x5d {
        Some(Token::LBracket)
    } else if b == 0x2c {
        Some(Token::Comma)
    } else if b == 0x2e {
        Some(Token::Dot)
    } else {
        None
    }
}

/// Where a number that starts at `start` ends: a run of digits, then, if a
/// `.` with a digit behind it follows, that `.` and the digits after it.
pub open spec fn number_end(bytes: Seq<u8>, start: int) -> int {
    let whole = run_end(bytes, start, ByteClass::Digit);
    if whole + 1 < bytes.len() && bytes[whole] == 0x2e && is_digit(bytes[whole + 1]) {
        run_end(bytes, whole + 1, ByteClass::Digit)
    } else {
        whole
    }
}

/// One step of the tokenizer: a token kind, or `None` for a character that
/// starts no token, with the bytes it covers.
pub struct Lexeme {
    pub kind: Option<Token>,
    pub start: int,
    pub end: int,
}

/// The lexeme that is read at `pos`, or `None` if only spaces and tabs are
/// left.
pub open spec fn lexeme_at(bytes: Seq<u8>, pos: int) -> Option<Lexeme> {
    let start = run_end(bytes, pos, ByteClass::Blank);
    if start < 0 || start >= bytes.len() {
        None
    } else {
        let b = bytes[start];
        if is_ident_start(b) {
            Some(
                Lexeme {
                    kind: Some(Token::Ident),
                    start,
                    end: run_end(bytes, start + 1, ByteClass::IdentPart),
                },
            )
        } else if is_digit(b) {
            Some(Lexeme { kind: Some(Token::Number), start, end: number_end(bytes, start) })
        } else if symbol(b) is Some {
            Some(Lexeme { kind: symbol(b), start, end: start + 1 })
        } else {
            Some(
                Lexeme {
                    kind: None,
                    start,
                    end: run_end(bytes, start + 1, ByteClass::Continuation),
                },
            )
        }
    }
}

/// The text that the source holds between two offsets.
pub open spec fn text_between(bytes: Seq<u8>, start: int, end: int) -> Seq<char> {
    decode_utf8(bytes.subrange(start, end))
}

/// The whole token stream from `pos` on: the tokens in order, or the span of
/// the first character that starts no token.
pub open spec fn tokens_from(bytes: Seq<u8>, pos: int) -> Result<Seq<TokenView>, (int, int)>
    decreases bytes.len() - pos,
{
    match lexeme_at(bytes, pos) {
        None => Ok(Seq::empty()),
        Some(l) => {
            proof {
                if 0 <= pos {
                    lemma_lexeme_bounds(bytes, pos);
                }
            }
            match l.kind {
                None => Err((l.start, l.end)),
                Some(t) => match tokens_from(bytes, l.end) {
                    Ok(rest) => Ok(
                        seq![
                            TokenView {
                                t,
                                start: l.start,
                                end: l.end,
                                text: text_between(bytes, l.start, l.end),
                            },
                        ] + rest,
                    ),
                    Err(e) => Err(e),
                },
            }
        },
    }
}

/// A run ends inside the source, holds only bytes of its class, and stops at
/// a byte that is not of it.
pub proof fn lemma_run_end(bytes: Seq<u8>, pos: int, class: ByteClass)
    requires
        0 <= pos <= bytes.len(),
    ensures
        pos <= run_end(bytes, pos, class) <= bytes.len(),
        forall|i: int| pos <= i < run_end(bytes, pos, class) ==> in_class(class, #[trigger] bytes[i]),
        run_end(bytes, pos, class) < bytes.len() ==> !in_class(
            class,
            bytes[run_end(bytes, pos, class)],
        ),
    decreases bytes.len() - pos,
{
    if pos < bytes.len() && in_class(class, bytes[pos]) {
        lemma_run_end(bytes, pos + 1, class);
    }
}

/// A lexeme is not empty, lies inside the source and starts at or after the
/// offset it was read at.
pub proof fn lemma_lexeme_bounds(bytes: Seq<u8>, pos: int)
    requires
        0 <= pos,
    ensures
        lexeme_at(bytes, pos) matches Some(l) ==> pos <= l.start < l.end <= bytes.len(),
{
    if pos <= bytes.len() {
        lemma_run_end(bytes, pos, ByteClass::Blank);
        let start = run_end(bytes, pos, ByteClass::Blank);
        if start < bytes.len() {
            lemma_run_end(bytes, start + 1, ByteClass::IdentPart);
            lemma_run_end(bytes, start + 1, ByteClass::Continuation);
            lemma_run_end(bytes, start, ByteClass::Digit);
            let whole = run_end(bytes, start, ByteClass::Digit);
            if whole + 1 < bytes.len() {
                lemma_run_end(bytes, whole + 1, ByteClass::Digit);
            }
        }
    }
}

/// The tokens of a source lie in it one behind the other, and nothing but
/// spaces and tabs lies before, between and behind them: no token is empty,
/// each starts where the spaces and tabs behind its predecessor end (the
/// first one where those from `pos` on end), and behind the last one only
/// spaces and tabs are left.
pub proof fn lemma_token_spans(bytes: Seq<u8>, pos: int)
    requires
        0 <= pos <= bytes.len(),
    ensures
        tokens_from(bytes, pos) matches Ok(ts) ==> {
            &&& ts.len() == 0 ==> run_end(bytes, pos, ByteClass::Blank) == bytes.len()
            &&& ts.len() > 0 ==> ts[0].start == run_end(bytes, pos, ByteClass::Blank)
            &&& forall|i: int|
                0 <= i < ts.len() ==> pos <= (#[trigger] ts[i]).start < ts[i].end <= bytes.len()
            &&& forall|i: int|
                0 <= i < ts.len() - 1 ==> (#[trigger] ts[i + 1]).start == run_end(
                    bytes,
                    ts[i].end,
                    ByteClass::Blank,
                )
            &&& ts.len() > 0 ==> run_end(bytes, ts.last().end, ByteClass::Blank) == bytes.len()
        },
    decreases bytes.len() - pos,
{
    lemma_lexeme_bounds(bytes, pos);
    lemma_run_end(bytes, pos, ByteClass::Blank);
    match lexeme_at(bytes, pos) {
        None => {},
        Some(l) => {
            if l.kind is Some {
                lemma_token_spans(bytes, l.end);
                match tokens_from(bytes, l.end) {
                    Ok(rest) => {
                        let ts = tokens_from(bytes, pos)->Ok_0;
                        assert(ts.len() == rest.len() + 1);
                        assert(forall|i: int| 0 < i < ts.len() ==> ts[i] == rest[i - 1]);
                        assert forall|i: int| 0 <= i < ts.len() - 1 implies (#[trigger] ts[i
                            + 1]).start == run_end(bytes, ts[i].end, ByteClass::Blank) by {
                            if i > 0 {
                                assert(ts[i + 1] == rest[i - 1 + 1]);
                            }
                        }
                    },
                    Err(_) => {},
                }
            }
        },
    }
}

/// In well-formed UTF-8 a character starts right after every ASCII byte.
proof fn lemma_boundary_after_ascii(bytes: Seq<u8>, i: int)
    requires
        valid_utf8(bytes),
        0 <= i < bytes.len(),
        bytes[i] <= 0x7f,
    ensures
        is_char_boundary(bytes, i + 1),
    decreases bytes.len(),
{
    reveal_with_fuel(is_char_boundary, 2);
    let k = length_of_first_scalar(bytes);
    let rest = pop_first_scalar(bytes);
    if i > 0 {
        is_char_boundary_iff_not_is_continuation_byte(bytes, i);
        assert(i >= k);
        lemma_boundary_after_ascii(rest, i - k);
    }
}

fn byte_in_class(class: ByteClass, b: u8) -> (r: bool)
    ensures
        r == in_class(class, b),
{
    match class {
        ByteClass::Blank => b == 0x20 || b == 0x09,
        ByteClass::IdentPart => (0x41 <= b && b <= 0x5a) || (0x61 <= b && b <= 0x7a) || (0x30 <= b
            && b <= 0x39) || b == 0x5f,
        ByteClass::Digit => 0x30 <= b && b <= 0x39,
        ByteClass::Continuation => 0x80 <= b && b <= 0xbf,
    }
}

fn byte_symbol(b: u8) -> (r: Option<Token>)
    ensures
        r == symbol(b),
{
    if b == 0x0a {
        Some(Token::Newline)
    } else if b == 0x3d {
        Some(Token::Assign)
    } else if b == 0x2b {
        Some(Token::Add)
    } else if b == 0x2d {
        Some(Token::Sub)
    } else if b == 0x2a {
        Some(Token::Mul)
    } else if b == 0x2f {
        Some(Token::Div)
    } else if b == 0x28 {
        Some(Token::LParen)
    } else if b == 0x29 {
        Some(Token::RParen)
    } else if b == 0x5b {
        Some(Token::RBracket)
    } else if b == 0x5d {
        Some(Token::LBracket)
    } else if b == 0x2c {
        Some(Token::Comma)
    } else if b == 0x2e {
        Some(Token::Dot)
    } else {
        None
    }
}

fn scan_run(bytes: &[u8], from: usize, class: ByteClass) -> (end: usize)
    requires
        from <= bytes@.len(),
    ensures
        end == run_end(bytes@, from as int, class),
        from <= end <= bytes@.len(),
{
    let mut i: usize = from;
    while i < bytes.len() && byte_in_class(class, bytes[i])
        invariant
            from <= i <= bytes@.len(),
            run_end(bytes@, from as int, class) == run_end(bytes@, i as int, class),
        decreases bytes@.len() - i,
    {
        i += 1;
    }
    i
}

fn scan_number(bytes: &[u8], start: usize) -> (end: usize)
    requires
        start <= bytes@.len(),
    ensures
        end == number_end(bytes@, start as int),
        start <= end <= bytes@.len(),
{
    let whole = scan_run(bytes, start, ByteClass::Digit);
    if whole < bytes.len() && bytes.len() - whole > 1 && bytes[whole] == 0x2e && byte_in_class(
        ByteClass::Digit,
        bytes[whole + 1],
    ) {
        scan_run(bytes, whole + 1, ByteClass::Digit)
    } else {
        whole
    }
}

/// Copies the text of an ASCII stretch of the source.
fn copy_text(src: &str, start: usize, end: usize) -> (text: String)
    requires
        start < end <= encode_utf8(src@).len(),
        forall|i: int| start <= i < end ==> #[trigger] encode_utf8(src@)[i] <= 0x7f,
    ensures
        text@ == text_between(encode_utf8(src@), start as int, end as int),
{
    let ghost bytes = encode_utf8(src@);
    proof {
        lemma_boundary_after_ascii(bytes, end - 1);
    }
    let (head, _) = src.split_at(end);
    proof {
        assert(encode_utf8(head@)[start as int] == bytes[start as int]);
        is_char_boundary_iff_not_is_continuation_byte(encode_utf8(head@), start as int);
    }
    let (_, text) = head.split_at(start);
    proof {
        assert(encode_utf8(text@) =~= bytes.subrange(start as int, end as int));
        assert(decode_utf8(encode_utf8(text@)) == text@);
    }
    text.to_owned()
}

/// A tokenizer over a source text. It can be made anew from the same source
/// as often as wanted.
pub struct Lexer<'a> {
    src: &'a str,
    pos: usize,
}

impl<'a> Lexer<'a> {
    #[verifier::type_invariant]
    spec fn inv(self) -> bool {
        self.pos <= encode_utf8(self.src@).len()
    }

    /// The bytes of the source.
    pub closed spec fn source(&self) -> Seq<u8> {
        encode_utf8(self.src@)
    }

    /// The offset from which the next token is read.
    pub closed spec fn offset(&self) -> int {
        self.pos as int
    }

    /// A tokenizer at the start of `src`.
    pub fn new(src: &'a str) -> (lexer: Self)
        ensures
            lexer.source() == encode_utf8(src@),
            lexer.offset() == 0,
    {
        Lexer { src, pos: 0 }
    }

    /// Reads the next lexeme: a token, or the error for a character that
    /// starts no token; after such a character the tokenizer goes on behind
    /// it. `None` when only spaces and tabs are left.
    pub fn next(&mut self) -> (r: Option<Result<TokenData, LexError>>)
        ensures
            final(self).source() == old(self).source(),
            0 <= old(self).offset() <= final(self).offset() <= old(self).source().len(),
            match lexeme_at(old(self).source(), old(self).offset()) {
                None => r is None && final(self).offset() == old(self).source().len(),
                Some(l) => final(self).offset() == l.end && match l.kind {
                    Some(t) => r matches Some(Ok(tok)) && tok@ == (TokenView {
                        t,
                        start: l.start,
                        end: l.end,
                        text: text_between(old(self).source(), l.start, l.end),
                    }),
                    None => r matches Some(Err(e)) && e.span.start == l.start && e.span.end
                        == l.end,
                },
            },
    {
        proof {
            use_type_invariant(&*self);
            lemma_lexeme_bounds(self.source(), self.offset());
        }
        let src = self.src;
        let bytes = src.as_bytes();
        let start = scan_run(bytes, self.pos, ByteClass::Blank);
        if start >= bytes.len() {
            self.pos = start;
            return None;
        }
        let b = bytes[start];
        let ident = (0x41 <= b && b <= 0x5a) || (0x61 <= b && b <= 0x7a) || b == 0x5f;
        if ident || byte_in_class(ByteClass::Digit, b) || byte_symbol(b).is_some() {
            let (t, end) = if ident {
                (Token::Ident, scan_run(bytes, start + 1, ByteClass::IdentPart))
            } else if byte_in_class(ByteClass::Digit, b) {
                (Token::Number, scan_number(bytes, start))
            } else {
                (byte_symbol(b).unwrap(), start + 1)
            };
            proof {
                lemma_run_end(bytes@, start + 1, ByteClass::IdentPart);
                lemma_run_end(bytes@, start as int, ByteClass::Digit);
                let whole = run_end(bytes@, start as int, ByteClass::Digit);
                if whole + 1 < bytes@.len() {
                    lemma_run_end(bytes@, whole + 1, ByteClass::Digit);
                }
            }
            let slice = copy_text(src, start, end);
            self.pos = end;
            Some(Ok(TokenData { t, span: Span { start, end }, slice }))
        } else {
            let end = scan_run(bytes, start + 1, ByteClass::Continuation);
            self.pos = end;
            Some(Err(LexError { span: Span { start, end } }))
        }
    }
}

impl Token {
    /// A tokenizer over `src`.
    pub fn lexer<'a>(src: &'a str) -> (lexer: Lexer<'a>)
        ensures
            lexer.source() == encode_utf8(src@),
            lexer.offset() == 0,
    {
        Lexer::new(src)
    }
}

/// `prefix` put before the tokens of `rest`, if there are any.
pub open spec fn prepend_tokens(
    prefix: Seq<TokenView>,
    rest: Result<Seq<TokenView>, (int, int)>,
) -> Result<Seq<TokenView>, (int, int)> {
    match rest {
        Ok(ts) => Ok(prefix + ts),
        Err(e) => Err(e),
    }
}

impl TokenData {
    /// Runs `lexer` to its end and collects the tokens, first to last. The
    /// first character that starts no token ends the run with its error.
    pub fn vecdeque(lexer: Lexer) -> (r: Result<VecDeque<TokenData>, LexError>)
        ensures
            match tokens_from(lexer.source(), lexer.offset()) {
                Ok(ts) => r matches Ok(v) && token_views(v@) == ts,
                Err(span) => r matches Err(e) && e.span.start == span.0 && e.span.end == span.1,
            },
    {
        let mut rest = lexer;
        let ghost bytes = lexer.source();
        let ghost from = lexer.offset();
        let mut vd: VecDeque<TokenData> = VecDeque::new();
        proof {
            use_type_invariant(&rest);
            assert(token_views(vd@) =~= Seq::<TokenView>::empty());
            match tokens_from(bytes, from) {
                Ok(ts) => assert(token_views(vd@) + ts =~= ts),
                Err(_) => {},
            }
        }
        loop
            invariant
                bytes == lexer.source(),
                from == lexer.offset(),
                rest.source() == bytes,
                0 <= rest.offset() <= bytes.len(),
                prepend_tokens(token_views(vd@), tokens_from(bytes, rest.offset())) == tokens_from(
                    bytes,
                    from,
                ),
            decreases bytes.len() - rest.offset(),
        {
            let ghost seen = token_views(vd@);
            proof {
                lemma_lexeme_bounds(bytes, rest.offset());
            }
            match rest.next() {
                None => {
                    proof {
                        assert(seen + Seq::<TokenView>::empty() =~= seen);
                    }
                    return Ok(vd);
                },
                Some(Err(e)) => {
                    return Err(e);
                },
                Some(Ok(tok)) => {
                    let ghost tv = tok@;
                    vd.push_back(tok);
                    proof {
                        assert(token_views(vd@) =~= seen.push(tv));
                        match tokens_from(bytes, rest.offset()) {
                            Ok(ts) => assert(seen + (seq![tv] + ts) =~= seen.push(tv) + ts),
                            Err(_) => {},
                        }
                    }
                },
            }
        }
    }
}

/// The tokens of `src`, first to last, or the error for the first character
/// that starts no token.
pub fn tokenize(src: &str) -> (r: Result<VecDeque<TokenData>, LexError>)
    ensures
        match tokens_from(encode_utf8(src@), 0) {
            Ok(ts) => r matches Ok(v) && token_views(v@) == ts,
            Err(span) => r matches Err(e) && e.span.start == span.0 && e.span.end == span.1,
        },
{
    TokenData::vecdeque(Token::lexer(src))
}

} // verus!
