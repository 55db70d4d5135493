//! The parser: recursive descent over declarations and statements, and
//! precedence climbing over binary expressions, with one token of lookahead.
use vstd::prelude::*;
use crate::ast::{
    decls_of, errors_of, funcs_of, names_of, params_of, stmts_of, AssignStmt, BinaryExpr,
    Diagnostic, DiagnosticV, ExprNode, ExprV, FuncBody, FuncDecl, FuncV, GlobalDecl, Ident, Param,
    ParamV, ParenExpr, ProgramV, StmtNode, StmtV, UnaryExpr, ValueSepc, ValueSpecV, AST,
};
use crate::lexer::{
    lemma_lex_from_bounds, lex_from, Aides, DefaultLexer, KeyWord, LexerError, Operator, Token,
    TokenV,
};

verus! {

pub type ParseResult<T> = Result<T, ParseError>;

#[derive(Debug)]
pub enum ParseError {
    /// The input ended where more was needed.
    Eof,
    /// No type keyword, or no operand, where one was needed.
    NoFoundType,
    NoFoundIdent,
    /// No statement or declaration starts with the lookahead token.
    NoStmt,
    /// The given token was needed next.
    Expect(Token),
    /// The lexer failed; the token stream ended there.
    Lex(LexerError),
}

pub enum ParseErrorV {
    Eof,
    NoFoundType,
    NoFoundIdent,
    NoStmt,
    Expect(TokenV),
    Lex(LexerError),
}

impl View for ParseError {
    type V = ParseErrorV;

    open spec fn view(&self) -> ParseErrorV {
        match self {
            ParseError::Eof => ParseErrorV::Eof,
            ParseError::NoFoundType => ParseErrorV::NoFoundType,
            ParseError::NoFoundIdent => ParseErrorV::NoFoundIdent,
            ParseError::NoStmt => ParseErrorV::NoStmt,
            ParseError::Expect(t) => ParseErrorV::Expect(t@),
            ParseError::Lex(e) => ParseErrorV::Lex(*e),
        }
    }
}


// ---- the parser as spec functions over the input bytes ----

/// Where the parser stands: the lexer's position, the lookahead token, the
/// line breaks skipped so far, and the lexer error that ended the token
/// stream, if one did.
pub struct PState {
    pub pos: int,
    pub tok: TokenV,
    pub line: int,
    pub err: Option<LexerError>,
}

pub open spec fn valid(src: Seq<u8>, s: PState) -> bool {
    0 <= s.pos <= src.len()
}

/// Decreases with every token consumed.
pub open spec fn measure(src: Seq<u8>, s: PState) -> int {
    2 * (src.len() - s.pos) + if s.tok == TokenV::Eof {
        0int
    } else {
        1int
    }
}

/// The state after lexing at `p`. A lexer error ends the stream: the
/// lookahead becomes `Eof` and the error is kept.
pub open spec fn lexed(src: Seq<u8>, p: int, line: int, err: Option<LexerError>) -> PState {
    let r = lex_from(src, p);
    match r.0 {
        Ok(t) => PState { pos: r.1, tok: t, line: line + r.2, err },
        Err(e) => PState { pos: r.1, tok: TokenV::Eof, line: line + r.2, err: Some(e) },
    }
}

/// Consuming the lookahead token. Once `Eof` is reached, it stays.
pub open spec fn advance(src: Seq<u8>, s: PState) -> PState {
    if s.tok == TokenV::Eof {
        s
    } else {
        lexed(src, s.pos, s.line, s.err)
    }
}

/// The state before the first token is read.
pub open spec fn start(src: Seq<u8>) -> PState {
    lexed(src, 0, 0, None)
}

pub proof fn lemma_advance(src: Seq<u8>, s: PState)
    requires
        valid(src, s),
    ensures
        valid(src, advance(src, s)),
        measure(src, advance(src, s)) <= measure(src, s),
        s.tok != TokenV::Eof ==> measure(src, advance(src, s)) < measure(src, s),
{
    lemma_lex_from_bounds(src, s.pos);
}

/// `s1` is a state reached from `s` without giving tokens back. The parsing
/// functions below take a result state further only under this test, which
/// keeps their recursion well founded; the executable parser proves that it
/// always holds, so the branches where it fails are never taken.
pub open spec fn no_further(src: Seq<u8>, s1: PState, s: PState) -> bool {
    valid(src, s1) && measure(src, s1) <= measure(src, s)
}

/// The binding strength of a binary operator; 0 for every other token.
/// All binary operators associate to the left.
pub open spec fn precedence(t: TokenV) -> int {
    match t {
        TokenV::Oper(o) => match o {
            Operator::LogicOr => 1,
            Operator::LogicAnd => 2,
            Operator::BitOr => 3,
            Operator::BitAnd => 4,
            Operator::Equal | Operator::NotEqual => 5,
            Operator::Less | Operator::LessEqual | Operator::Greate | Operator::GreateEqual => 6,
            Operator::BitShiftLeft | Operator::BitShiftRight => 7,
            Operator::Add | Operator::Sub => 8,
            Operator::Star | Operator::Div | Operator::Mod => 9,
            _ => 0,
        },
        _ => 0,
    }
}

/// The error for a lookahead that does not fit: the stored lexer error when
/// the stream ended on one, else `e`.
pub open spec fn fail_err(s: PState, e: ParseErrorV) -> ParseErrorV {
    if s.tok == TokenV::Eof && s.err is Some {
        ParseErrorV::Lex(s.err->Some_0)
    } else {
        e
    }
}

/// The state after `fail_err`: a lexer error, once reported, is no longer
/// kept.
pub open spec fn fail_state(s: PState) -> PState {
    if s.tok == TokenV::Eof && s.err is Some {
        PState { pos: s.pos, tok: s.tok, line: s.line, err: None }
    } else {
        s
    }
}

/// Reading a token into the lookahead, whatever it holds.
pub open spec fn read(src: Seq<u8>, s: PState) -> PState {
    lexed(src, s.pos, s.line, s.err)
}

pub open spec fn identifier(src: Seq<u8>, s: PState) -> (Result<Seq<char>, ParseErrorV>, PState) {
    match s.tok {
        TokenV::Ident(n) => (Ok(n), advance(src, s)),
        _ => (Err(fail_err(s, ParseErrorV::NoFoundIdent)), fail_state(s)),
    }
}

pub open spec fn type_keyword(src: Seq<u8>, s: PState) -> (Result<KeyWord, ParseErrorV>, PState) {
    match s.tok {
        TokenV::KeyWord(k) => if k.spec_is_type() {
            (Ok(k), advance(src, s))
        } else {
            (Err(ParseErrorV::NoFoundType), s)
        },
        _ => (Err(fail_err(s, ParseErrorV::NoFoundType)), fail_state(s)),
    }
}

pub open spec fn expect(src: Seq<u8>, s: PState, t: TokenV) -> (Result<(), ParseErrorV>, PState) {
    if s.tok == t {
        (Ok(()), advance(src, s))
    } else {
        (Err(fail_err(s, ParseErrorV::Expect(t))), fail_state(s))
    }
}

/// `expr ::= binary(1)`
pub open spec fn expr(src: Seq<u8>, s: PState) -> (Result<ExprV, ParseErrorV>, PState)
    decreases measure(src, s), 4int,
    when valid(src, s)
{
    binary(src, s, 1)
}

/// A unary operand followed by the operators of strength `level` or more,
/// grouped by precedence climbing.
pub open spec fn binary(src: Seq<u8>, s: PState, level: int) -> (
    Result<ExprV, ParseErrorV>,
    PState,
)
    decreases measure(src, s), 3int,
    when valid(src, s)
{
    let r = unary(src, s);
    match r.0 {
        Err(e) => (Err(e), r.1),
        Ok(x) => if no_further(src, r.1, s) {
            binary_rest(src, r.1, x, level)
        } else {
            (Err(ParseErrorV::Eof), r.1)
        },
    }
}

/// With `x` parsed: while the lookahead is an operator of strength `level` or
/// more, its right side binds operators of greater strength only, so equal
/// strengths group to the left.
pub open spec fn binary_rest(src: Seq<u8>, s: PState, x: ExprV, level: int) -> (
    Result<ExprV, ParseErrorV>,
    PState,
)
    decreases measure(src, s), 2int,
    when valid(src, s)
{
    if level >= 1 && precedence(s.tok) >= level {
        let s1 = advance(src, s);
        proof {
            lemma_advance(src, s);
        }
        let r = binary(src, s1, precedence(s.tok) + 1);
        match r.0 {
            Err(e) => (Err(e), r.1),
            Ok(y) => if no_further(src, r.1, s1) {
                binary_rest(src, r.1, ExprV::Binary(Box::new(x), s.tok, Box::new(y)), level)
            } else {
                (Err(ParseErrorV::Eof), r.1)
            },
        }
    } else {
        (Ok(x), s)
    }
}

/// `unary ::= ('+' | '-') unary | operand`
pub open spec fn unary(src: Seq<u8>, s: PState) -> (Result<ExprV, ParseErrorV>, PState)
    decreases measure(src, s), 1int,
    when valid(src, s)
{
    if s.tok == TokenV::Oper(Operator::Add) || s.tok == TokenV::Oper(Operator::Sub) {
        proof {
            lemma_advance(src, s);
        }
        let r = unary(src, advance(src, s));
        match r.0 {
            Ok(x) => (Ok(ExprV::Unary(s.tok, Box::new(x))), r.1),
            Err(e) => (Err(e), r.1),
        }
    } else {
        operand(src, s)
    }
}

/// `operand ::= ident | '(' expr ')'`
pub open spec fn operand(src: Seq<u8>, s: PState) -> (Result<ExprV, ParseErrorV>, PState)
    decreases measure(src, s), 0int,
    when valid(src, s)
{
    match s.tok {
        TokenV::Ident(n) => (Ok(ExprV::Ident(n)), advance(src, s)),
        TokenV::Oper(Operator::LeftParen) => {
            proof {
                lemma_advance(src, s);
            }
            let r = expr(src, advance(src, s));
            match r.0 {
                Err(e) => (Err(e), r.1),
                Ok(x) => {
                    let c = expect(src, r.1, TokenV::Oper(Operator::RightParen));
                    match c.0 {
                        Ok(_) => (Ok(ExprV::Paren(Box::new(x))), c.1),
                        Err(e) => (Err(e), c.1),
                    }
                },
            }
        },
        _ => (Err(fail_err(s, ParseErrorV::NoFoundType)), fail_state(s)),
    }
}

/// `ident (',' ident)*`, the names appended to `acc`.
pub open spec fn var_names(src: Seq<u8>, s: PState, acc: Seq<Seq<char>>) -> (
    Result<Seq<Seq<char>>, ParseErrorV>,
    PState,
)
    decreases measure(src, s),
    when valid(src, s)
{
    let r = identifier(src, s);
    match r.0 {
        Err(e) => (Err(e), r.1),
        Ok(n) => if r.1.tok == TokenV::Aide(Aides::Comma) {
            proof {
                lemma_advance(src, s);
                lemma_advance(src, r.1);
            }
            var_names(src, advance(src, r.1), acc.push(n))
        } else {
            (Ok(acc.push(n)), r.1)
        },
    }
}

/// `type ident (',' ident)* ';'`
pub open spec fn var_define(src: Seq<u8>, s: PState) -> (Result<ValueSpecV, ParseErrorV>, PState) {
    let t = type_keyword(src, s);
    match t.0 {
        Err(e) => (Err(e), t.1),
        Ok(k) => {
            let v = var_names(src, t.1, seq![]);
            match v.0 {
                Err(e) => (Err(e), v.1),
                Ok(ns) => {
                    let c = expect(src, v.1, TokenV::Aide(Aides::Semicolon));
                    match c.0 {
                        Err(e) => (Err(e), c.1),
                        Ok(_) => (Ok(ValueSpecV { names: ns, typ: k }), c.1),
                    }
                },
            }
        },
    }
}

/// `type ident`
pub open spec fn param(src: Seq<u8>, s: PState) -> (Result<ParamV, ParseErrorV>, PState) {
    let t = type_keyword(src, s);
    match t.0 {
        Err(e) => (Err(e), t.1),
        Ok(k) => {
            let i = identifier(src, t.1);
            match i.0 {
                Err(e) => (Err(e), i.1),
                Ok(n) => (Ok(ParamV { name: n, typ: k }), i.1),
            }
        },
    }
}

/// `param (',' param)*`, the parameters appended to `acc`.
pub open spec fn params(src: Seq<u8>, s: PState, acc: Seq<ParamV>) -> (
    Result<Seq<ParamV>, ParseErrorV>,
    PState,
)
    decreases measure(src, s),
    when valid(src, s)
{
    let p = param(src, s);
    match p.0 {
        Err(e) => (Err(e), p.1),
        Ok(pv) => if p.1.tok == TokenV::Aide(Aides::Comma) {
            proof {
                lemma_advance(src, s);
                lemma_advance(src, type_keyword(src, s).1);
                lemma_advance(src, p.1);
            }
            params(src, advance(src, p.1), acc.push(pv))
        } else {
            (Ok(acc.push(pv)), p.1)
        },
    }
}

/// `lhs '=' rhs ';'`
pub open spec fn simple_stmt(src: Seq<u8>, s: PState) -> (Result<StmtV, ParseErrorV>, PState) {
    let l = expr(src, s);
    match l.0 {
        Err(e) => (Err(e), l.1),
        Ok(x) => if l.1.tok == TokenV::Oper(Operator::Assign) {
            let r = expr(src, advance(src, l.1));
            match r.0 {
                Err(e) => (Err(e), r.1),
                Ok(y) => {
                    let c = expect(src, r.1, TokenV::Aide(Aides::Semicolon));
                    match c.0 {
                        Err(e) => (Err(e), c.1),
                        Ok(_) => (Ok(StmtV::Assign(x, TokenV::Oper(Operator::Assign), y)), c.1),
                    }
                },
            }
        } else {
            (Err(fail_err(l.1, ParseErrorV::NoStmt)), fail_state(l.1))
        },
    }
}

pub open spec fn as_stmt(r: (Result<ValueSpecV, ParseErrorV>, PState)) -> (
    Result<StmtV, ParseErrorV>,
    PState,
) {
    match r.0 {
        Ok(v) => (Ok(StmtV::Value(v)), r.1),
        Err(e) => (Err(e), r.1),
    }
}

/// `'var' var_define | var_define | simple_stmt`, by the lookahead.
pub open spec fn stmt(src: Seq<u8>, s: PState) -> (Result<StmtV, ParseErrorV>, PState) {
    match s.tok {
        TokenV::KeyWord(k) => if k == KeyWord::Var {
            as_stmt(var_define(src, advance(src, s)))
        } else if k.spec_is_type() {
            as_stmt(var_define(src, s))
        } else {
            (Err(ParseErrorV::NoStmt), s)
        },
        TokenV::Ident(_) => simple_stmt(src, s),
        _ => (Err(fail_err(s, ParseErrorV::NoStmt)), fail_state(s)),
    }
}

/// Statements up to `}` or the end, appended to `acc`.
pub open spec fn stmts(src: Seq<u8>, s: PState, acc: Seq<StmtV>) -> (
    Result<Seq<StmtV>, ParseErrorV>,
    PState,
)
    decreases measure(src, s),
    when valid(src, s)
{
    if s.tok == TokenV::Oper(Operator::RightBrace) || s.tok == TokenV::Eof {
        (Ok(acc), s)
    } else {
        let r = stmt(src, s);
        match r.0 {
            Err(e) => (Err(e), r.1),
            Ok(st) => if valid(src, r.1) && measure(src, r.1) < measure(src, s) {
                stmts(src, r.1, acc.push(st))
            } else {
                (Err(ParseErrorV::NoStmt), r.1)
            },
        }
    }
}

/// The parameter list after `(`: empty when `)` follows at once.
pub open spec fn opt_params(src: Seq<u8>, s: PState) -> (Result<Seq<ParamV>, ParseErrorV>, PState) {
    if s.tok == TokenV::Oper(Operator::RightParen) {
        (Ok(seq![]), s)
    } else {
        params(src, s, seq![])
    }
}

/// `type ident '(' params? ')' '{' stmt* '}'`
pub open spec fn function_define(src: Seq<u8>, s: PState) -> (Result<FuncV, ParseErrorV>, PState) {
    let t = type_keyword(src, s);
    match t.0 {
        Err(e) => (Err(e), t.1),
        Ok(k) => {
            let i = identifier(src, t.1);
            match i.0 {
                Err(e) => (Err(e), i.1),
                Ok(n) => {
                    let a = expect(src, i.1, TokenV::Oper(Operator::LeftParen));
                    match a.0 {
                        Err(e) => (Err(e), a.1),
                        Ok(_) => {
                            let ps = opt_params(src, a.1);
                            match ps.0 {
                                Err(e) => (Err(e), ps.1),
                                Ok(pv) => function_tail(src, ps.1, k, n, pv),
                            }
                        },
                    }
                },
            }
        },
    }
}

/// `')' '{' stmt* '}'` of a function whose head is parsed.
pub open spec fn function_tail(
    src: Seq<u8>,
    s: PState,
    k: KeyWord,
    n: Seq<char>,
    pv: Seq<ParamV>,
) -> (Result<FuncV, ParseErrorV>, PState) {
    let b = expect(src, s, TokenV::Oper(Operator::RightParen));
    match b.0 {
        Err(e) => (Err(e), b.1),
        Ok(_) => {
            let c = expect(src, b.1, TokenV::Oper(Operator::LeftBrace));
            match c.0 {
                Err(e) => (Err(e), c.1),
                Ok(_) => {
                    let body = stmts(src, c.1, seq![]);
                    match body.0 {
                        Err(e) => (Err(e), body.1),
                        Ok(sts) => {
                            let d = expect(src, body.1, TokenV::Oper(Operator::RightBrace));
                            match d.0 {
                                Err(e) => (Err(e), d.1),
                                Ok(_) => (
                                    Ok(FuncV { typ: k, name: n, params: pv, body: sts }),
                                    d.1,
                                ),
                            }
                        },
                    }
                },
            }
        },
    }
}

/// After an error: skips tokens up to a `var` or `fn`, or past a `;` or `}`.
pub open spec fn resync(src: Seq<u8>, s: PState) -> PState
    decreases measure(src, s),
    when valid(src, s)
{
    match s.tok {
        TokenV::Eof => s,
        TokenV::KeyWord(KeyWord::Var) => s,
        TokenV::KeyWord(KeyWord::Fn) => s,
        TokenV::Aide(Aides::Semicolon) => advance(src, s),
        TokenV::Oper(Operator::RightBrace) => advance(src, s),
        _ => {
            proof {
                lemma_advance(src, s);
            }
            resync(src, advance(src, s))
        },
    }
}

pub open spec fn with_error(acc: ProgramV, e: ParseErrorV, line: int) -> ProgramV {
    ProgramV {
        decls: acc.decls,
        funcs: acc.funcs,
        errors: acc.errors.push(DiagnosticV { error: e, line }),
    }
}

/// Top-level declarations from `s` on, added to `acc`: `var` starts a
/// variable declaration, `fn` a function; an error is recorded and parsing
/// resumes after `resync`. A lexer error is recorded at the end. Each error
/// carries the line count of the state where it was found.
pub open spec fn program(src: Seq<u8>, s: PState, acc: ProgramV) -> ProgramV
    decreases measure(src, s),
    when valid(src, s)
{
    match s.tok {
        TokenV::Eof => match s.err {
            Some(e) => with_error(acc, ParseErrorV::Lex(e), s.line),
            None => acc,
        },
        TokenV::KeyWord(KeyWord::Var) => {
            let r = var_define(src, advance(src, s));
            let next = match r.0 {
                Ok(_) => r.1,
                Err(_) => resync(src, r.1),
            };
            let acc2 = match r.0 {
                Ok(v) => ProgramV { decls: acc.decls.push(v), funcs: acc.funcs, errors: acc.errors },
                Err(e) => with_error(acc, e, r.1.line),
            };
            if valid(src, next) && measure(src, next) < measure(src, s) {
                program(src, next, acc2)
            } else {
                acc2
            }
        },
        TokenV::KeyWord(KeyWord::Fn) => {
            let r = function_define(src, advance(src, s));
            let next = match r.0 {
                Ok(_) => r.1,
                Err(_) => resync(src, r.1),
            };
            let acc2 = match r.0 {
                Ok(f) => ProgramV { decls: acc.decls, funcs: acc.funcs.push(f), errors: acc.errors },
                Err(e) => with_error(acc, e, r.1.line),
            };
            if valid(src, next) && measure(src, next) < measure(src, s) {
                program(src, next, acc2)
            } else {
                acc2
            }
        },
        _ => {
            let next = resync(src, s);
            let acc2 = with_error(acc, ParseErrorV::NoStmt, s.line);
            if valid(src, next) && measure(src, next) < measure(src, s) {
                program(src, next, acc2)
            } else {
                acc2
            }
        },
    }
}

/// The parse of a whole input.
pub open spec fn parse_program(src: Seq<u8>) -> ProgramV {
    program(src, start(src), ProgramV { decls: seq![], funcs: seq![], errors: seq![] })
}


pub open spec fn map_res<T, U>(r: ParseResult<T>, f: spec_fn(T) -> U) -> Result<U, ParseErrorV> {
    match r {
        Ok(v) => Ok(f(v)),
        Err(e) => Err(e@),
    }
}

impl Token {
    /// The strength of the token as a binary operator, as `precedence` states.
    pub fn level(&self) -> (r: u32)
        ensures
            r as int == precedence(self@),
    {
        match self {
            Token::Oper(o) => match o {
                Operator::LogicOr => 1,
                Operator::LogicAnd => 2,
                Operator::BitOr => 3,
                Operator::BitAnd => 4,
                Operator::Equal | Operator::NotEqual => 5,
                Operator::Less | Operator::LessEqual | Operator::Greate | Operator::GreateEqual => 6,
                Operator::BitShiftLeft | Operator::BitShiftRight => 7,
                Operator::Add | Operator::Sub => 8,
                Operator::Star | Operator::Div | Operator::Mod => 9,
                _ => 0,
            },
            _ => 0,
        }
    }
}

/// A recursive-descent parser with one token of lookahead.
pub struct Parser {
    lex: DefaultLexer,
    tok: Token,
    err: Option<LexerError>,
}

impl Parser {
    /// The bytes being parsed.
    pub closed spec fn source(&self) -> Seq<u8> {
        self.lex.source()
    }

    pub closed spec fn state(&self) -> PState {
        PState { pos: self.lex.position(), tok: self.tok@, line: self.lex.line_count(), err: self.err }
    }

    pub closed spec fn wf(&self) -> bool {
        self.lex.wf() && valid(self.source(), self.state())
    }

    /// `p` is this parser later on: same input, no token given back.
    pub open spec fn follows(self, p: Parser) -> bool {
        &&& p.wf()
        &&& p.source() == self.source()
        &&& measure(self.source(), p.state()) <= measure(self.source(), self.state())
    }

    /// `p` has consumed at least one token more than this parser.
    pub open spec fn consumed(self, p: Parser) -> bool {
        measure(self.source(), p.state()) < measure(self.source(), self.state())
    }

    /// The lexer the parser reads from.
    pub closed spec fn lexer(&self) -> DefaultLexer {
        self.lex
    }

    /// A parser over `l`. Nothing is read yet: the lookahead is `Eof` until
    /// `read_token` or `parse` reads the first token.
    pub fn new(l: DefaultLexer) -> (r: Parser)
        requires
            l.wf(),
        ensures
            r.wf(),
            r.lexer() == l,
            r.source() == l.source(),
            r.state() == (PState {
                pos: l.position(),
                tok: TokenV::Eof,
                line: l.line_count(),
                err: None,
            }),
    {
        proof {
            l.lemma_position_in_bounds();
        }
        Parser { lex: l, tok: Token::Eof, err: None }
    }

    /// The lookahead token.
    pub fn lookahead(&self) -> (r: &Token)
        ensures
            r@ == self.state().tok,
    {
        &self.tok
    }

    /// Reads the next token into the lookahead, whatever the lookahead
    /// holds; this starts the parse of a single construct. A lexer error
    /// makes the lookahead `Eof` and is kept until it is reported.
    pub fn read_token(&mut self)
        requires
            old(self).wf(),
        ensures
            final(self).wf(),
            final(self).source() == old(self).source(),
            final(self).state() == read(old(self).source(), old(self).state()),
    {
        match self.lex.lex() {
            Ok(t) => {
                self.tok = t;
            },
            Err(e) => {
                self.tok = Token::Eof;
                self.err = Some(e);
            },
        }
    }

    /// Consumes the lookahead token; once it is `Eof`, it stays.
    fn next(&mut self)
        requires
            old(self).wf(),
        ensures
            old(self).follows(*final(self)),
            final(self).state() == advance(old(self).source(), old(self).state()),
            old(self).state().tok != TokenV::Eof ==> old(self).consumed(*final(self)),
    {
        proof {
            lemma_advance(self.source(), self.state());
        }
        if self.tok.is_eof() {
            return;
        }
        self.read_token();
    }

    /// Fails on a lookahead that does not fit: with the stored lexer error
    /// when the stream ended on one (which is then dropped), else with `e`.
    fn fail<T>(&mut self, e: ParseError) -> (r: ParseResult<T>)
        requires
            old(self).wf(),
        ensures
            old(self).follows(*final(self)),
            final(self).state() == fail_state(old(self).state()),
            r is Err,
            r->Err_0@ == fail_err(old(self).state(), e@),
    {
        if self.tok.is_eof() {
            match self.err {
                Some(le) => {
                    self.err = None;
                    return Err(ParseError::Lex(le));
                },
                None => {},
            }
        }
        Err(e)
    }

    fn parse_identifier(&mut self) -> (r: ParseResult<Ident>)
        requires
            old(self).wf(),
        ensures
            old(self).follows(*final(self)),
            (map_res(r, |i: Ident| i@), final(self).state()) == identifier(
                old(self).source(),
                old(self).state(),
            ),
            r is Ok ==> old(self).consumed(*final(self)),
    {
        let name = match &self.tok {
            Token::Ident(s) => Some(s.clone()),
            _ => None,
        };
        let name = match name {
            Some(n) => n,
            None => return self.fail(ParseError::NoFoundIdent),
        };
        self.next();
        Ok(Ident { name })
    }

    fn parse_type(&mut self) -> (r: ParseResult<KeyWord>)
        requires
            old(self).wf(),
        ensures
            old(self).follows(*final(self)),
            (map_res(r, |k: KeyWord| k), final(self).state()) == type_keyword(
                old(self).source(),
                old(self).state(),
            ),
            r is Ok ==> old(self).consumed(*final(self)),
    {
        let k = match &self.tok {
            Token::KeyWord(k) => Some(*k),
            _ => None,
        };
        let k = match k {
            Some(k) => k,
            None => return self.fail(ParseError::NoFoundType),
        };
        if k.is_type() {
            self.next();
            return Ok(k);
        }
        Err(ParseError::NoFoundType)
    }

    fn expect_token(&mut self, t: Token) -> (r: ParseResult<()>)
        requires
            old(self).wf(),
        ensures
            old(self).follows(*final(self)),
            (map_res(r, |u: ()| u), final(self).state()) == expect(
                old(self).source(),
                old(self).state(),
                t@,
            ),
            r is Ok && t@ != TokenV::Eof ==> old(self).consumed(*final(self)),
    {
        if self.tok == t {
            self.next();
            return Ok(());
        }
        self.fail(ParseError::Expect(t))
    }

    fn match_token(&self, t: Token) -> (r: bool)
        ensures
            r == (self.state().tok == t@),
    {
        self.tok == t
    }

    /// `expr ::= binary(1)`
    pub fn parse_expr(&mut self) -> (r: ParseResult<ExprNode>)
        requires
            old(self).wf(),
        ensures
            old(self).follows(*final(self)),
            (map_res(r, |e: ExprNode| e@), final(self).state()) == expr(
                old(self).source(),
                old(self).state(),
            ),
            r is Ok ==> old(self).consumed(*final(self)),
        decreases measure(old(self).source(), old(self).state()), 8int,
    {
        self.parse_binary_expr(1)
    }

    /// Precedence climbing: a unary operand, then each operator of strength
    /// `level` or more with its right side, grouped to the left.
    fn parse_binary_expr(&mut self, level: u32) -> (r: ParseResult<ExprNode>)
        requires
            old(self).wf(),
            1 <= level,
        ensures
            old(self).follows(*final(self)),
            (map_res(r, |e: ExprNode| e@), final(self).state()) == binary(
                old(self).source(),
                old(self).state(),
                level as int,
            ),
            r is Ok ==> old(self).consumed(*final(self)),
        decreases measure(old(self).source(), old(self).state()), 7int,
    {
        let ghost src = self.source();
        let ghost s0 = self.state();
        let mut x = match self.parse_unary_expr() {
            Ok(x) => x,
            Err(e) => return Err(e),
        };
        while self.tok.level() >= level
            invariant
                self.wf(),
                self.source() == src,
                src == old(self).source(),
                s0 == old(self).state(),
                1 <= level,
                measure(src, self.state()) < measure(src, s0),
                binary(src, s0, level as int) == binary_rest(src, self.state(), x@, level as int),
            decreases measure(src, self.state()),
        {
            let ghost sb = self.state();
            let ghost xb = x@;
            let op = self.tok.duplicate();
            let op_level = op.level();
            self.next();
            let y = match self.parse_binary_expr(op_level + 1) {
                Ok(y) => y,
                Err(e) => return Err(e),
            };
            x = ExprNode::BinaryExpr(BinaryExpr { x: Box::new(x), op, y: Box::new(y) });
            proof {
                assert(x@ == ExprV::Binary(Box::new(xb), sb.tok, Box::new(y@)));
            }
        }
        Ok(x)
    }

    /// `unary ::= ('+' | '-') unary | primary`
    fn parse_unary_expr(&mut self) -> (r: ParseResult<ExprNode>)
        requires
            old(self).wf(),
        ensures
            old(self).follows(*final(self)),
            (map_res(r, |e: ExprNode| e@), final(self).state()) == unary(
                old(self).source(),
                old(self).state(),
            ),
            r is Ok ==> old(self).consumed(*final(self)),
        decreases measure(old(self).source(), old(self).state()), 6int,
    {
        let sign = match &self.tok {
            Token::Oper(Operator::Add) => true,
            Token::Oper(Operator::Sub) => true,
            _ => false,
        };
        if sign {
            let token = self.tok.duplicate();
            self.next();
            let x = match self.parse_unary_expr() {
                Ok(x) => x,
                Err(e) => return Err(e),
            };
            Ok(ExprNode::UnaryExpr(UnaryExpr { op: token, x: Box::new(x) }))
        } else {
            self.parse_primary_expr()
        }
    }

    fn parse_primary_expr(&mut self) -> (r: ParseResult<ExprNode>)
        requires
            old(self).wf(),
        ensures
            old(self).follows(*final(self)),
            (map_res(r, |e: ExprNode| e@), final(self).state()) == operand(
                old(self).source(),
                old(self).state(),
            ),
            r is Ok ==> old(self).consumed(*final(self)),
        decreases measure(old(self).source(), old(self).state()), 5int,
    {
        self.parse_operand()
    }

    /// `operand ::= ident | '(' expr ')'`
    fn parse_operand(&mut self) -> (r: ParseResult<ExprNode>)
        requires
            old(self).wf(),
        ensures
            old(self).follows(*final(self)),
            (map_res(r, |e: ExprNode| e@), final(self).state()) == operand(
                old(self).source(),
                old(self).state(),
            ),
            r is Ok ==> old(self).consumed(*final(self)),
        decreases measure(old(self).source(), old(self).state()), 4int,
    {
        let is_ident = match &self.tok {
            Token::Ident(_) => true,
            _ => false,
        };
        if is_ident {
            return match self.parse_identifier() {
                Ok(i) => Ok(ExprNode::IdentExpr(i)),
                Err(e) => Err(e),
            };
        }
        if self.match_token(Token::Oper(Operator::LeftParen)) {
            self.next();
            let x = match self.parse_paren_expr() {
                Ok(x) => x,
                Err(e) => return Err(e),
            };
            match self.expect_token(Token::Oper(Operator::RightParen)) {
                Ok(()) => {},
                Err(e) => return Err(e),
            }
            return Ok(ExprNode::ParenExpr(ParenExpr { x: Box::new(x) }));
        }
        self.fail(ParseError::NoFoundType)
    }

    fn parse_paren_expr(&mut self) -> (r: ParseResult<ExprNode>)
        requires
            old(self).wf(),
        ensures
            old(self).follows(*final(self)),
            (map_res(r, |e: ExprNode| e@), final(self).state()) == expr(
                old(self).source(),
                old(self).state(),
            ),
            r is Ok ==> old(self).consumed(*final(self)),
        decreases measure(old(self).source(), old(self).state()), 9int,
    {
        self.parse_expr()
    }

    fn parse_lhs(&mut self) -> (r: ParseResult<ExprNode>)
        requires
            old(self).wf(),
        ensures
            old(self).follows(*final(self)),
            (map_res(r, |e: ExprNode| e@), final(self).state()) == expr(
                old(self).source(),
                old(self).state(),
            ),
            r is Ok ==> old(self).consumed(*final(self)),
    {
        self.parse_expr()
    }

    fn parse_rhs(&mut self) -> (r: ParseResult<ExprNode>)
        requires
            old(self).wf(),
        ensures
            old(self).follows(*final(self)),
            (map_res(r, |e: ExprNode| e@), final(self).state()) == expr(
                old(self).source(),
                old(self).state(),
            ),
            r is Ok ==> old(self).consumed(*final(self)),
    {
        self.parse_expr()
    }

    /// `ident (',' ident)*`, read with a loop.
    fn parse_variable_list(&mut self) -> (r: ParseResult<Vec<Ident>>)
        requires
            old(self).wf(),
        ensures
            old(self).follows(*final(self)),
            (map_res(r, |v: Vec<Ident>| names_of(v@)), final(self).state()) == var_names(
                old(self).source(),
                old(self).state(),
                seq![],
            ),
            r is Ok ==> old(self).consumed(*final(self)),
    {
        let ghost src = self.source();
        let ghost s0 = self.state();
        let mut list: Vec<Ident> = Vec::new();
        proof {
            assert(names_of(list@) =~= Seq::<Seq<char>>::empty());
        }
        loop
            invariant
                self.wf(),
                self.source() == src,
                src == old(self).source(),
                s0 == old(self).state(),
                measure(src, self.state()) <= measure(src, s0),
                list.len() > 0 ==> measure(src, self.state()) < measure(src, s0),
                var_names(src, s0, seq![]) == var_names(src, self.state(), names_of(list@)),
            decreases measure(src, self.state()),
        {
            let ghost sb = self.state();
            let ghost before = names_of(list@);
            let id = match self.parse_identifier() {
                Ok(i) => i,
                Err(e) => return Err(e),
            };
            list.push(id);
            proof {
                assert(names_of(list@) =~= before.push(list@.last()@));
            }
            if !self.match_token(Token::Aide(Aides::Comma)) {
                return Ok(list);
            }
            self.next();
        }
    }

    /// `type ident (',' ident)* ';'`
    pub fn parse_var_define(&mut self) -> (r: ParseResult<ValueSepc>)
        requires
            old(self).wf(),
        ensures
            old(self).follows(*final(self)),
            (map_res(r, |v: ValueSepc| v@), final(self).state()) == var_define(
                old(self).source(),
                old(self).state(),
            ),
            r is Ok ==> old(self).consumed(*final(self)),
    {
        let t = match self.parse_type() {
            Ok(t) => t,
            Err(e) => return Err(e),
        };
        let idents = match self.parse_variable_list() {
            Ok(v) => v,
            Err(e) => return Err(e),
        };
        match self.expect_token(Token::Aide(Aides::Semicolon)) {
            Ok(()) => {},
            Err(e) => return Err(e),
        }
        Ok(ValueSepc { names: idents, typ: t })
    }

    /// The declaration after its `var`.
    fn parse_declaration(&mut self) -> (r: ParseResult<ValueSepc>)
        requires
            old(self).wf(),
        ensures
            old(self).follows(*final(self)),
            (map_res(r, |v: ValueSepc| v@), final(self).state()) == var_define(
                old(self).source(),
                advance(old(self).source(), old(self).state()),
            ),
            old(self).state().tok != TokenV::Eof ==> old(self).consumed(*final(self)),
    {
        self.next();
        self.parse_var_define()
    }

    fn parse_global_declaration(&mut self) -> (r: ParseResult<ValueSepc>)
        requires
            old(self).wf(),
        ensures
            old(self).follows(*final(self)),
            (map_res(r, |v: ValueSepc| v@), final(self).state()) == var_define(
                old(self).source(),
                advance(old(self).source(), old(self).state()),
            ),
            old(self).state().tok != TokenV::Eof ==> old(self).consumed(*final(self)),
    {
        self.parse_declaration()
    }

    fn parse_fn_param(&mut self) -> (r: ParseResult<Param>)
        requires
            old(self).wf(),
        ensures
            old(self).follows(*final(self)),
            (map_res(r, |p: Param| p@), final(self).state()) == param(
                old(self).source(),
                old(self).state(),
            ),
            r is Ok ==> old(self).consumed(*final(self)),
    {
        let t = match self.parse_type() {
            Ok(t) => t,
            Err(e) => return Err(e),
        };
        let s = match self.parse_identifier() {
            Ok(s) => s,
            Err(e) => return Err(e),
        };
        Ok(Param { ident: s, typ: t })
    }

    /// `param (',' param)*`, read with a loop.
    fn parse_param_list(&mut self) -> (r: ParseResult<Vec<Param>>)
        requires
            old(self).wf(),
        ensures
            old(self).follows(*final(self)),
            (map_res(r, |v: Vec<Param>| params_of(v@)), final(self).state()) == params(
                old(self).source(),
                old(self).state(),
                seq![],
            ),
            r is Ok ==> old(self).consumed(*final(self)),
    {
        let ghost src = self.source();
        let ghost s0 = self.state();
        let mut list: Vec<Param> = Vec::new();
        proof {
            assert(params_of(list@) =~= Seq::<ParamV>::empty());
        }
        loop
            invariant
                self.wf(),
                self.source() == src,
                src == old(self).source(),
                s0 == old(self).state(),
                measure(src, self.state()) <= measure(src, s0),
                list.len() > 0 ==> measure(src, self.state()) < measure(src, s0),
                params(src, s0, seq![]) == params(src, self.state(), params_of(list@)),
            decreases measure(src, self.state()),
        {
            let ghost before = params_of(list@);
            let p = match self.parse_fn_param() {
                Ok(p) => p,
                Err(e) => return Err(e),
            };
            list.push(p);
            proof {
                assert(params_of(list@) =~= before.push(list@.last()@));
            }
            if !self.match_token(Token::Aide(Aides::Comma)) {
                return Ok(list);
            }
            self.next();
        }
    }

    /// `lhs '=' rhs ';'`
    fn parse_simple_stmt(&mut self) -> (r: ParseResult<StmtNode>)
        requires
            old(self).wf(),
        ensures
            old(self).follows(*final(self)),
            (map_res(r, |s: StmtNode| s@), final(self).state()) == simple_stmt(
                old(self).source(),
                old(self).state(),
            ),
            r is Ok ==> old(self).consumed(*final(self)),
    {
        let x = match self.parse_lhs() {
            Ok(x) => x,
            Err(e) => return Err(e),
        };
        if !self.match_token(Token::Oper(Operator::Assign)) {
            return self.fail(ParseError::NoStmt);
        }
        let op = self.tok.duplicate();
        self.next();
        let y = match self.parse_rhs() {
            Ok(y) => y,
            Err(e) => return Err(e),
        };
        match self.expect_token(Token::Aide(Aides::Semicolon)) {
            Ok(()) => {},
            Err(e) => return Err(e),
        }
        Ok(StmtNode::AssignStmt(AssignStmt { x, op, y }))
    }

    /// A statement, chosen by the lookahead: `var` or a type starts a
    /// declaration, an identifier an assignment.
    pub fn parse_stmt(&mut self) -> (r: ParseResult<StmtNode>)
        requires
            old(self).wf(),
        ensures
            old(self).follows(*final(self)),
            (map_res(r, |s: StmtNode| s@), final(self).state()) == stmt(
                old(self).source(),
                old(self).state(),
            ),
            r is Ok ==> old(self).consumed(*final(self)),
    {
        let kind: u8 = match &self.tok {
            Token::KeyWord(k) => {
                if *k == KeyWord::Var {
                    1
                } else if k.is_type() {
                    2
                } else {
                    0
                }
            },
            Token::Ident(_) => 3,
            _ => 0,
        };
        if kind == 1 {
            match self.parse_declaration() {
                Ok(v) => Ok(StmtNode::ValueSepc(v)),
                Err(e) => Err(e),
            }
        } else if kind == 2 {
            match self.parse_var_define() {
                Ok(v) => Ok(StmtNode::ValueSepc(v)),
                Err(e) => Err(e),
            }
        } else if kind == 3 {
            self.parse_simple_stmt()
        } else {
            self.fail(ParseError::NoStmt)
        }
    }

    /// Statements up to `}` or the end of input.
    fn parse_stmt_list(&mut self) -> (r: ParseResult<Vec<StmtNode>>)
        requires
            old(self).wf(),
        ensures
            old(self).follows(*final(self)),
            (map_res(r, |v: Vec<StmtNode>| stmts_of(v@)), final(self).state()) == stmts(
                old(self).source(),
                old(self).state(),
                seq![],
            ),
    {
        let ghost src = self.source();
        let ghost s0 = self.state();
        let mut list: Vec<StmtNode> = Vec::new();
        proof {
            assert(stmts_of(list@) =~= Seq::<StmtV>::empty());
        }
        while !self.match_token(Token::Oper(Operator::RightBrace)) && !self.tok.is_eof()
            invariant
                self.wf(),
                self.source() == src,
                src == old(self).source(),
                s0 == old(self).state(),
                measure(src, self.state()) <= measure(src, s0),
                stmts(src, s0, seq![]) == stmts(src, self.state(), stmts_of(list@)),
            decreases measure(src, self.state()),
        {
            let ghost before = stmts_of(list@);
            let st = match self.parse_stmt() {
                Ok(st) => st,
                Err(e) => return Err(e),
            };
            list.push(st);
            proof {
                assert(stmts_of(list@) =~= before.push(list@.last()@));
            }
        }
        Ok(list)
    }

    fn parse_func_body(&mut self) -> (r: ParseResult<FuncBody>)
        requires
            old(self).wf(),
        ensures
            old(self).follows(*final(self)),
            (map_res(r, |b: FuncBody| stmts_of(b.list@)), final(self).state()) == stmts(
                old(self).source(),
                old(self).state(),
                seq![],
            ),
    {
        match self.parse_stmt_list() {
            Ok(list) => Ok(FuncBody { list }),
            Err(e) => Err(e),
        }
    }

    /// `type ident '(' params? ')' '{' stmt* '}'`
    pub fn parse_function_define(&mut self) -> (r: ParseResult<FuncDecl>)
        requires
            old(self).wf(),
        ensures
            old(self).follows(*final(self)),
            (map_res(r, |f: FuncDecl| f@), final(self).state()) == function_define(
                old(self).source(),
                old(self).state(),
            ),
            r is Ok ==> old(self).consumed(*final(self)),
    {
        let t = match self.parse_type() {
            Ok(t) => t,
            Err(e) => return Err(e),
        };
        let s = match self.parse_identifier() {
            Ok(s) => s,
            Err(e) => return Err(e),
        };
        match self.expect_token(Token::Oper(Operator::LeftParen)) {
            Ok(()) => {},
            Err(e) => return Err(e),
        }
        let mut params: Vec<Param> = Vec::new();
        proof {
            assert(params_of(params@) =~= Seq::<ParamV>::empty());
        }
        if !self.match_token(Token::Oper(Operator::RightParen)) {
            params = match self.parse_param_list() {
                Ok(p) => p,
                Err(e) => return Err(e),
            };
        }
        match self.expect_token(Token::Oper(Operator::RightParen)) {
            Ok(()) => {},
            Err(e) => return Err(e),
        }
        match self.expect_token(Token::Oper(Operator::LeftBrace)) {
            Ok(()) => {},
            Err(e) => return Err(e),
        }
        let body = match self.parse_func_body() {
            Ok(b) => b,
            Err(e) => return Err(e),
        };
        match self.expect_token(Token::Oper(Operator::RightBrace)) {
            Ok(()) => {},
            Err(e) => return Err(e),
        }
        Ok(FuncDecl { typ: t, fn_name: s, params, body })
    }

    /// The function declaration after its `fn`.
    fn parse_function_declaration(&mut self) -> (r: ParseResult<FuncDecl>)
        requires
            old(self).wf(),
        ensures
            old(self).follows(*final(self)),
            (map_res(r, |f: FuncDecl| f@), final(self).state()) == function_define(
                old(self).source(),
                advance(old(self).source(), old(self).state()),
            ),
            old(self).state().tok != TokenV::Eof ==> old(self).consumed(*final(self)),
    {
        self.next();
        self.parse_function_define()
    }

    /// Skips tokens up to a `var` or `fn`, or past a `;` or `}`.
    fn synchronize(&mut self)
        requires
            old(self).wf(),
        ensures
            old(self).follows(*final(self)),
            final(self).state() == resync(old(self).source(), old(self).state()),
            !(old(self).state().tok == TokenV::Eof || old(self).state().tok == TokenV::KeyWord(
                KeyWord::Var,
            ) || old(self).state().tok == TokenV::KeyWord(KeyWord::Fn)) ==> old(self).consumed(
                *final(self),
            ),
    {
        let ghost src = self.source();
        let ghost s0 = self.state();
        loop
            invariant
                self.wf(),
                self.source() == src,
                src == old(self).source(),
                s0 == old(self).state(),
                self.state() == s0 || measure(src, self.state()) < measure(src, s0),
                resync(src, s0) == resync(src, self.state()),
            decreases measure(src, self.state()),
        {
            let action: u8 = match &self.tok {
                Token::Eof => 0,
                Token::KeyWord(KeyWord::Var) => 0,
                Token::KeyWord(KeyWord::Fn) => 0,
                Token::Aide(Aides::Semicolon) => 1,
                Token::Oper(Operator::RightBrace) => 1,
                _ => 2,
            };
            if action == 0 {
                return;
            }
            self.next();
            if action == 1 {
                return;
            }
        }
    }

    /// Reads the first token, then parses top-level declarations to the end
    /// of input. A declaration that
    /// fails is recorded in `errors` and parsing resumes after
    /// `synchronize`; a lexer error is recorded last.
    pub fn parse(&mut self) -> (r: AST)
        requires
            old(self).wf(),
        ensures
            r@ == program(
                old(self).source(),
                read(old(self).source(), old(self).state()),
                ProgramV { decls: seq![], funcs: seq![], errors: seq![] },
            ),
    {
        self.read_token();
        let ghost src = self.source();
        let ghost s0 = self.state();
        let mut list: Vec<ValueSepc> = Vec::new();
        let mut funcs: Vec<FuncDecl> = Vec::new();
        let mut errors: Vec<Diagnostic> = Vec::new();
        proof {
            assert(decls_of(list@) =~= Seq::<ValueSpecV>::empty());
            assert(funcs_of(funcs@) =~= Seq::<FuncV>::empty());
            assert(errors_of(errors@) =~= Seq::<DiagnosticV>::empty());
        }
        loop
            invariant
                self.wf(),
                self.source() == src,
                src == old(self).source(),
                s0 == read(src, old(self).state()),
                program(src, s0, ProgramV { decls: seq![], funcs: seq![], errors: seq![] })
                    == program(
                    src,
                    self.state(),
                    ProgramV {
                        decls: decls_of(list@),
                        funcs: funcs_of(funcs@),
                        errors: errors_of(errors@),
                    },
                ),
            decreases measure(src, self.state()),
        {
            let ghost sk = self.state();
            let ghost dk = decls_of(list@);
            let ghost fk = funcs_of(funcs@);
            let ghost ek = errors_of(errors@);
            let kind: u8 = match &self.tok {
                Token::Eof => 0,
                Token::KeyWord(KeyWord::Var) => 1,
                Token::KeyWord(KeyWord::Fn) => 2,
                _ => 3,
            };
            if kind == 0 {
                match self.err {
                    Some(e) => {
                        let line = self.lex.line();
                        errors.push(Diagnostic { error: ParseError::Lex(e), line });
                        proof {
                            assert(errors_of(errors@) =~= ek.push(
                                DiagnosticV { error: ParseErrorV::Lex(e), line: line as int },
                            ));
                        }
                    },
                    None => {},
                }
                return AST { decls: GlobalDecl { list, funcs }, errors };
            } else if kind == 1 {
                match self.parse_global_declaration() {
                    Ok(v) => {
                        list.push(v);
                        proof {
                            assert(decls_of(list@) =~= dk.push(list@.last()@));
                        }
                    },
                    Err(e) => {
                        let line = self.lex.line();
                        errors.push(Diagnostic { error: e, line });
                        proof {
                            assert(errors_of(errors@) =~= ek.push(errors@.last()@));
                        }
                        self.synchronize();
                    },
                }
            } else if kind == 2 {
                match self.parse_function_declaration() {
                    Ok(f) => {
                        funcs.push(f);
                        proof {
                            assert(funcs_of(funcs@) =~= fk.push(funcs@.last()@));
                        }
                    },
                    Err(e) => {
                        let line = self.lex.line();
                        errors.push(Diagnostic { error: e, line });
                        proof {
                            assert(errors_of(errors@) =~= ek.push(errors@.last()@));
                        }
                        self.synchronize();
                    },
                }
            } else {
                let line = self.lex.line();
                errors.push(Diagnostic { error: ParseError::NoStmt, line });
                proof {
                    assert(errors_of(errors@) =~= ek.push(
                        DiagnosticV { error: ParseErrorV::NoStmt, line: line as int },
                    ));
                }
                self.synchronize();
            }
        }
    }
}

proof fn lemma_var_names_grow(src: Seq<u8>, s: PState, acc: Seq<Seq<char>>)
    requires
        valid(src, s),
    ensures
        var_names(src, s, acc).0 is Ok ==> var_names(src, s, acc).0->Ok_0.len() > acc.len(),
    decreases measure(src, s),
{
    let r = identifier(src, s);
    if r.0 is Ok && r.1.tok == TokenV::Aide(Aides::Comma) {
        lemma_advance(src, s);
        lemma_advance(src, r.1);
        lemma_var_names_grow(src, advance(src, r.1), acc.push(r.0->Ok_0));
    }
}

/// A declaration that parses names at least one variable.
pub proof fn lemma_declared_names_nonempty(src: Seq<u8>, s: PState)
    requires
        valid(src, s),
    ensures
        var_define(src, s).0 is Ok ==> var_define(src, s).0->Ok_0.names.len() > 0,
{
    let t = type_keyword(src, s);
    if t.0 is Ok {
        lemma_advance(src, s);
        lemma_var_names_grow(src, t.1, seq![]);
    }
}

/// Parsing depends on the input bytes alone: parsers started afresh on equal
/// inputs produce the same declarations, functions and errors.
pub proof fn lemma_parse_deterministic(a: Seq<u8>, b: Seq<u8>)
    requires
        a == b,
    ensures
        parse_program(a) == parse_program(b),
{
}

/// Parses a whole input.
pub fn parse_bytes(src: Vec<u8>) -> (r: AST)
    ensures
        r@ == parse_program(src@),
{
    let mut p = Parser::new(DefaultLexer::new(src));
    p.parse()
}

} // verus!
