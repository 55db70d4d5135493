//! The lexer: bytes to tokens, one token per call, with one byte of lookahead.
#![verifier::loop_isolation(false)]
use vstd::prelude::*;

verus! {

/// The keywords of the language.
#[derive(Debug, Clone, Copy, PartialEq, Eq, Structural)]
pub enum KeyWord {
    Int,
    Float,
    Fn,
    Return,
    Var,
}

impl KeyWord {
    pub open spec fn spec_is_type(self) -> bool {
        self == KeyWord::Int || self == KeyWord::Float
    }

    /// Whether the keyword names a type (`int` or `float`).
    pub fn is_type(&self) -> (r: bool)
        ensures
            r == self.spec_is_type(),
    {
        match self {
            KeyWord::Int => true,
            KeyWord::Float => true,
            _ => false,
        }
    }
}

/// What a block comment or a string literal was missing its end for.
#[derive(Debug, Clone, Copy, PartialEq, Eq, Structural)]
pub enum Unclosed {
    Comment,
    Str,
}

#[derive(Debug, Clone, Copy, PartialEq, Eq, Structural)]
pub enum LexerError {
    Eof,
    /// A block comment without `*/` or a string without its closing quote.
    Unterminated(Unclosed),
    /// `/` as the last byte of the input.
    UnExpected,
    /// A decimal literal whose value does not fit in `isize`.
    TooLarge,
}

#[derive(Debug, Clone, Copy, PartialEq, Eq, Structural)]
pub enum Aides {
    Dot,
    Comma,
    Semicolon,
    Colon,
    Note,
    MultNote,
}

#[derive(Debug, Clone, Copy, PartialEq, Eq, Structural)]
pub enum Operator {
    Plus,
    Add,
    AddEqual,
    Sub,
    SubEqual,
    Minus,
    Assign,
    Star,
    Div,
    Mod,
    BitAnd,
    BitOr,
    BitNot,
    BitShiftRight,
    BitShiftLeft,
    LogicAnd,
    LogicOr,
    LogicNot,
    Equal,
    NotEqual,
    Greate,
    GreateEqual,
    Less,
    LessEqual,
    RightArrow,
    LeftArrow,
    Question,
    LeftParen,
    RightParen,
    LeftBrace,
    RightBrace,
}


#[derive(Debug)]
pub enum Token {
    Unknown,
    KeyWord(KeyWord),
    Oper(Operator),
    Aide(Aides),
    Str(String),
    Ident(String),
    Number(isize),
    Eof,
}

/// A token with its text as a sequence of characters.
pub enum TokenV {
    Unknown,
    KeyWord(KeyWord),
    Oper(Operator),
    Aide(Aides),
    Str(Seq<char>),
    Ident(Seq<char>),
    Number(isize),
    Eof,
}

impl View for Token {
    type V = TokenV;

    open spec fn view(&self) -> TokenV {
        match self {
            Token::Unknown => TokenV::Unknown,
            Token::KeyWord(k) => TokenV::KeyWord(*k),
            Token::Oper(o) => TokenV::Oper(*o),
            Token::Aide(a) => TokenV::Aide(*a),
            Token::Str(s) => TokenV::Str(s@),
            Token::Ident(s) => TokenV::Ident(s@),
            Token::Number(n) => TokenV::Number(*n),
            Token::Eof => TokenV::Eof,
        }
    }
}

impl Token {
    /// A copy of the token.
    pub fn duplicate(&self) -> (r: Token)
        ensures
            r@ == self@,
    {
        match self {
            Token::Unknown => Token::Unknown,
            Token::KeyWord(k) => Token::KeyWord(*k),
            Token::Oper(o) => Token::Oper(*o),
            Token::Aide(a) => Token::Aide(*a),
            Token::Str(s) => Token::Str(s.clone()),
            Token::Ident(s) => Token::Ident(s.clone()),
            Token::Number(n) => Token::Number(*n),
            Token::Eof => Token::Eof,
        }
    }

    pub fn is_eof(&self) -> (r: bool)
        ensures
            r == (self@ == TokenV::Eof),
    {
        match self {
            Token::Eof => true,
            _ => false,
        }
    }
}

impl PartialEq for Token {
    fn eq(&self, o: &Token) -> (r: bool) {
        match (self, o) {
            (Token::Unknown, Token::Unknown) => true,
            (Token::KeyWord(a), Token::KeyWord(b)) => *a == *b,
            (Token::Oper(a), Token::Oper(b)) => *a == *b,
            (Token::Aide(a), Token::Aide(b)) => *a == *b,
            (Token::Str(a), Token::Str(b)) => *a == *b,
            (Token::Ident(a), Token::Ident(b)) => *a == *b,
            (Token::Number(a), Token::Number(b)) => *a == *b,
            (Token::Eof, Token::Eof) => true,
            _ => false,
        }
    }
}

impl vstd::std_specs::cmp::PartialEqSpecImpl for Token {
    open spec fn obeys_eq_spec() -> bool {
        true
    }

    open spec fn eq_spec(&self, o: &Token) -> bool {
        self@ == o@
    }
}

pub type LexResult = Result<Token, LexerError>;

pub open spec fn lex_result_view(r: LexResult) -> Result<TokenV, LexerError> {
    match r {
        Ok(t) => Ok(t@),
        Err(e) => Err(e),
    }
}

// ---- the language of tokens, over the input bytes ----

pub open spec fn is_alpha(c: u8) -> bool {
    (97 <= c <= 122) || (65 <= c <= 90)
}

pub open spec fn is_digit(c: u8) -> bool {
    48 <= c <= 57
}

/// Newline, carriage return and tab: each counts as one line.
pub open spec fn is_line_break(c: u8) -> bool {
    c == 10 || c == 13 || c == 9
}

/// The bytes as characters, one each.
pub open spec fn chars_of(b: Seq<u8>) -> Seq<char> {
    b.map_values(|c: u8| c as char)
}

/// Whether byte `i` of `s` exists and is `c`.
pub open spec fn byte_is(s: Seq<u8>, i: int, c: u8) -> bool {
    0 <= i < s.len() && s[i] == c
}

/// The first index at or after `i` whose byte is not a letter, or the end.
pub open spec fn alpha_end(s: Seq<u8>, i: int) -> int
    decreases s.len() - i,
{
    if 0 <= i < s.len() && is_alpha(s[i]) {
        alpha_end(s, i + 1)
    } else {
        i
    }
}

/// The first index at or after `i` whose byte is not a digit, or the end.
pub open spec fn digit_end(s: Seq<u8>, i: int) -> int
    decreases s.len() - i,
{
    if 0 <= i < s.len() && is_digit(s[i]) {
        digit_end(s, i + 1)
    } else {
        i
    }
}

/// The first index at or after `i` whose byte is not a space, or the end.
pub open spec fn space_end(s: Seq<u8>, i: int) -> int
    decreases s.len() - i,
{
    if 0 <= i < s.len() && s[i] == 32 {
        space_end(s, i + 1)
    } else {
        i
    }
}

/// The first index at or after `i` whose byte is not a line break, or the end.
pub open spec fn break_end(s: Seq<u8>, i: int) -> int
    decreases s.len() - i,
{
    if 0 <= i < s.len() && is_line_break(s[i]) {
        break_end(s, i + 1)
    } else {
        i
    }
}

/// The first index at or after `i` that holds byte `c`, or the end.
pub open spec fn find_byte(s: Seq<u8>, i: int, c: u8) -> int
    decreases s.len() - i,
{
    if 0 <= i < s.len() && s[i] != c {
        find_byte(s, i + 1, c)
    } else {
        i
    }
}

/// The first index at or after `i` where `*/` begins, or the end.
pub open spec fn comment_close(s: Seq<u8>, i: int) -> int
    decreases s.len() - i,
{
    if 0 <= i < s.len() && !(s[i] == 42 && byte_is(s, i + 1, 47)) {
        comment_close(s, i + 1)
    } else {
        i
    }
}

/// The value of a sequence of decimal digits.
pub open spec fn digits_value(w: Seq<u8>) -> int
    decreases w.len(),
{
    if w.len() == 0 {
        0
    } else {
        digits_value(w.drop_last()) * 10 + (w.last() - 48)
    }
}

/// The keyword spelled by `w`, if any: an exact match, never a prefix.
pub open spec fn keyword_of(w: Seq<u8>) -> Option<KeyWord> {
    if w == seq![105u8, 110, 116] {
        Some(KeyWord::Int)
    } else if w == seq![102u8, 108, 111, 97, 116] {
        Some(KeyWord::Float)
    } else if w == seq![102u8, 110] {
        Some(KeyWord::Fn)
    } else if w == seq![114u8, 101, 116, 117, 114, 110] {
        Some(KeyWord::Return)
    } else if w == seq![118u8, 97, 114] {
        Some(KeyWord::Var)
    } else {
        None
    }
}

pub open spec fn oper(o: Operator, e: int) -> (Result<TokenV, LexerError>, int) {
    (Ok(TokenV::Oper(o)), e)
}

pub open spec fn aide(a: Aides, e: int) -> (Result<TokenV, LexerError>, int) {
    (Ok(TokenV::Aide(a)), e)
}

/// The token that begins at byte `p` (not a blank), with the index just after it.
/// Operators take the longest spelling that the next byte allows.
pub open spec fn token_at(s: Seq<u8>, p: int) -> (Result<TokenV, LexerError>, int) {
    let c = s[p];
    let n = p + 1;
    if c == 46 {
        aide(Aides::Dot, n)
    } else if c == 44 {
        aide(Aides::Comma, n)
    } else if c == 59 {
        aide(Aides::Semicolon, n)
    } else if c == 58 {
        aide(Aides::Colon, n)
    } else if c == 40 {
        oper(Operator::LeftParen, n)
    } else if c == 41 {
        oper(Operator::RightParen, n)
    } else if c == 123 {
        oper(Operator::LeftBrace, n)
    } else if c == 125 {
        oper(Operator::RightBrace, n)
    } else if c == 43 {
        if byte_is(s, n, 43) {
            oper(Operator::Plus, n + 1)
        } else if byte_is(s, n, 61) {
            oper(Operator::AddEqual, n + 1)
        } else {
            oper(Operator::Add, n)
        }
    } else if c == 45 {
        if byte_is(s, n, 45) {
            oper(Operator::Minus, n + 1)
        } else if byte_is(s, n, 61) {
            oper(Operator::SubEqual, n + 1)
        } else if byte_is(s, n, 62) {
            oper(Operator::RightArrow, n + 1)
        } else {
            oper(Operator::Sub, n)
        }
    } else if c == 61 {
        if byte_is(s, n, 61) {
            oper(Operator::Equal, n + 1)
        } else {
            oper(Operator::Assign, n)
        }
    } else if c == 34 {
        let q = find_byte(s, n, 34);
        if q < s.len() {
            (Ok(TokenV::Str(chars_of(s.subrange(n, q)))), q + 1)
        } else {
            (Err(LexerError::Unterminated(Unclosed::Str)), q)
        }
    } else if c == 42 {
        oper(Operator::Star, n)
    } else if c == 47 {
        if n >= s.len() {
            (Err(LexerError::UnExpected), n)
        } else if s[n] == 47 {
            aide(Aides::Note, find_byte(s, n + 1, 10))
        } else if s[n] == 42 {
            let q = comment_close(s, n + 1);
            if q < s.len() {
                aide(Aides::MultNote, q + 2)
            } else {
                (Err(LexerError::Unterminated(Unclosed::Comment)), q)
            }
        } else {
            oper(Operator::Div, n)
        }
    } else if c == 37 {
        oper(Operator::Mod, n)
    } else if c == 38 {
        if byte_is(s, n, 38) {
            oper(Operator::LogicAnd, n + 1)
        } else {
            oper(Operator::BitAnd, n)
        }
    } else if c == 124 {
        if byte_is(s, n, 124) {
            oper(Operator::LogicOr, n + 1)
        } else {
            oper(Operator::BitOr, n)
        }
    } else if c == 126 {
        oper(Operator::BitNot, n)
    } else if c == 62 {
        if byte_is(s, n, 62) {
            oper(Operator::BitShiftRight, n + 1)
        } else if byte_is(s, n, 61) {
            oper(Operator::GreateEqual, n + 1)
        } else {
            oper(Operator::Greate, n)
        }
    } else if c == 60 {
        if byte_is(s, n, 60) {
            oper(Operator::BitShiftLeft, n + 1)
        } else if byte_is(s, n, 61) {
            oper(Operator::LessEqual, n + 1)
        } else if byte_is(s, n, 45) {
            oper(Operator::LeftArrow, n + 1)
        } else {
            oper(Operator::Less, n)
        }
    } else if c == 33 {
        if byte_is(s, n, 61) {
            oper(Operator::NotEqual, n + 1)
        } else {
            oper(Operator::LogicNot, n)
        }
    } else if c == 63 {
        oper(Operator::Question, n)
    } else if is_alpha(c) || c == 95 {
        let e = alpha_end(s, n);
        let w = s.subrange(p, e);
        match keyword_of(w) {
            Some(k) => (Ok(TokenV::KeyWord(k)), e),
            None => (Ok(TokenV::Ident(chars_of(w))), e),
        }
    } else if is_digit(c) {
        let e = digit_end(s, n);
        let v = digits_value(s.subrange(p, e));
        if v <= isize::MAX {
            (Ok(TokenV::Number(v as isize)), e)
        } else {
            (Err(LexerError::TooLarge), e)
        }
    } else {
        (Ok(TokenV::Unknown), n)
    }
}

/// Lexing from byte `p`: blanks are skipped, and each line break among them
/// is counted. The result is the token (or error), the index just after it,
/// and the number of line breaks skipped.
pub open spec fn lex_from(s: Seq<u8>, p: int) -> (Result<TokenV, LexerError>, int, nat)
    decreases s.len() - p,
{
    if 0 <= p < s.len() {
        if is_line_break(s[p]) {
            let r = lex_from(s, p + 1);
            (r.0, r.1, r.2 + 1)
        } else if s[p] == 32 {
            lex_from(s, p + 1)
        } else {
            let t = token_at(s, p);
            (t.0, t.1, 0)
        }
    } else {
        (Ok(TokenV::Eof), p, 0)
    }
}


proof fn lemma_alpha_end(s: Seq<u8>, i: int)
    requires
        0 <= i <= s.len(),
    ensures
        i <= alpha_end(s, i) <= s.len(),
    decreases s.len() - i,
{
    if i < s.len() && is_alpha(s[i]) {
        lemma_alpha_end(s, i + 1);
    }
}

proof fn lemma_digit_end(s: Seq<u8>, i: int)
    requires
        0 <= i <= s.len(),
    ensures
        i <= digit_end(s, i) <= s.len(),
    decreases s.len() - i,
{
    if i < s.len() && is_digit(s[i]) {
        lemma_digit_end(s, i + 1);
    }
}

proof fn lemma_find_byte(s: Seq<u8>, i: int, c: u8)
    requires
        0 <= i <= s.len(),
    ensures
        i <= find_byte(s, i, c) <= s.len(),
    decreases s.len() - i,
{
    if i < s.len() && s[i] != c {
        lemma_find_byte(s, i + 1, c);
    }
}

proof fn lemma_comment_close(s: Seq<u8>, i: int)
    requires
        0 <= i <= s.len(),
    ensures
        i <= comment_close(s, i) <= s.len(),
        comment_close(s, i) < s.len() ==> comment_close(s, i) + 1 < s.len(),
    decreases s.len() - i,
{
    if i < s.len() && !(s[i] == 42 && byte_is(s, i + 1, 47)) {
        lemma_comment_close(s, i + 1);
    }
}

/// A token that begins at `p` ends after `p`, within the input.
pub proof fn lemma_token_at_bounds(s: Seq<u8>, p: int)
    requires
        0 <= p < s.len(),
    ensures
        p < token_at(s, p).1 <= s.len(),
{
    let n = p + 1;
    lemma_alpha_end(s, n);
    lemma_digit_end(s, n);
    lemma_find_byte(s, n, 34);
    if n < s.len() {
        lemma_find_byte(s, n + 1, 10);
        lemma_comment_close(s, n + 1);
    }
}

/// Lexing never moves back nor past the end, and a token other than `Eof`
/// moves forward.
pub proof fn lemma_lex_from_bounds(s: Seq<u8>, p: int)
    requires
        0 <= p <= s.len(),
    ensures
        p <= lex_from(s, p).1 <= s.len(),
        lex_from(s, p).0 != Ok::<TokenV, LexerError>(TokenV::Eof) ==> p < lex_from(s, p).1,
    decreases s.len() - p,
{
    if p < s.len() {
        if is_line_break(s[p]) || s[p] == 32 {
            lemma_lex_from_bounds(s, p + 1);
        } else {
            lemma_token_at_bounds(s, p);
        }
    }
}

/// The bytes at `p` and `p + 1` are `a` and `b`.
pub open spec fn pair_at(s: Seq<u8>, p: int, a: u8, b: u8) -> bool {
    s[p] == a && s[p + 1] == b
}

pub open spec fn lexes_as(s: Seq<u8>, p: int, o: Operator, end: int) -> bool {
    lex_from(s, p) == (Ok::<TokenV, LexerError>(TokenV::Oper(o)), end, 0nat)
}

/// Longest match: wherever two bytes spell a two-byte operator, lexing
/// there yields that operator and consumes both bytes, never the one-byte
/// operator of the first byte.
pub proof fn lemma_longest_match(s: Seq<u8>, p: int)
    requires
        0 <= p,
        p + 1 < s.len(),
    ensures
        pair_at(s, p, 43, 61) ==> lexes_as(s, p, Operator::AddEqual, p + 2),
        pair_at(s, p, 43, 43) ==> lexes_as(s, p, Operator::Plus, p + 2),
        pair_at(s, p, 45, 45) ==> lexes_as(s, p, Operator::Minus, p + 2),
        pair_at(s, p, 45, 61) ==> lexes_as(s, p, Operator::SubEqual, p + 2),
        pair_at(s, p, 45, 62) ==> lexes_as(s, p, Operator::RightArrow, p + 2),
        pair_at(s, p, 61, 61) ==> lexes_as(s, p, Operator::Equal, p + 2),
        pair_at(s, p, 33, 61) ==> lexes_as(s, p, Operator::NotEqual, p + 2),
        pair_at(s, p, 62, 61) ==> lexes_as(s, p, Operator::GreateEqual, p + 2),
        pair_at(s, p, 60, 61) ==> lexes_as(s, p, Operator::LessEqual, p + 2),
        pair_at(s, p, 38, 38) ==> lexes_as(s, p, Operator::LogicAnd, p + 2),
        pair_at(s, p, 124, 124) ==> lexes_as(s, p, Operator::LogicOr, p + 2),
        pair_at(s, p, 60, 60) ==> lexes_as(s, p, Operator::BitShiftLeft, p + 2),
        pair_at(s, p, 62, 62) ==> lexes_as(s, p, Operator::BitShiftRight, p + 2),
{
}

/// Relies on `String::push`: the character is appended at the end.
#[verifier::external_body]
fn push_byte(s: &mut String, c: u8)
    ensures
        final(s)@ == old(s)@.push(c as char),
{
    s.push(c as char);
}

fn same_bytes(a: &[u8], b: &[u8]) -> (r: bool)
    ensures
        r == (a@ == b@),
{
    if a.len() != b.len() {
        return false;
    }
    let mut i: usize = 0;
    while i < a.len()
        invariant
            a@.len() == b@.len(),
            0 <= i <= a@.len(),
            forall|j: int| 0 <= j < i ==> a@[j] == b@[j],
        decreases a@.len() - i,
    {
        if a[i] != b[i] {
            return false;
        }
        i = i + 1;
    }
    assert(a@ =~= b@);
    true
}

/// The keyword spelled exactly by `s`.
fn is_keyword(s: &[u8]) -> (r: Option<KeyWord>)
    ensures
        r == keyword_of(s@),
{
    let int_w: [u8; 3] = [105, 110, 116];
    let float_w: [u8; 5] = [102, 108, 111, 97, 116];
    let fn_w: [u8; 2] = [102, 110];
    let return_w: [u8; 6] = [114, 101, 116, 117, 114, 110];
    let var_w: [u8; 3] = [118, 97, 114];
    assert(int_w@ =~= seq![105u8, 110, 116]);
    assert(float_w@ =~= seq![102u8, 108, 111, 97, 116]);
    assert(fn_w@ =~= seq![102u8, 110]);
    assert(return_w@ =~= seq![114u8, 101, 116, 117, 114, 110]);
    assert(var_w@ =~= seq![118u8, 97, 114]);
    if same_bytes(s, int_w.as_slice()) {
        Some(KeyWord::Int)
    } else if same_bytes(s, float_w.as_slice()) {
        Some(KeyWord::Float)
    } else if same_bytes(s, fn_w.as_slice()) {
        Some(KeyWord::Fn)
    } else if same_bytes(s, return_w.as_slice()) {
        Some(KeyWord::Return)
    } else if same_bytes(s, var_w.as_slice()) {
        Some(KeyWord::Var)
    } else {
        None
    }
}

fn is_alpha_byte(c: u8) -> (r: bool)
    ensures
        r == is_alpha(c),
{
    (97 <= c && c <= 122) || (65 <= c && c <= 90)
}

fn is_digit_byte(c: u8) -> (r: bool)
    ensures
        r == is_digit(c),
{
    48 <= c && c <= 57
}

fn is_break_byte(c: u8) -> (r: bool)
    ensures
        r == is_line_break(c),
{
    c == 10 || c == 13 || c == 9
}

/// A lexer over a byte buffer, with a cursor and a count of the line breaks
/// it has skipped.
pub struct DefaultLexer {
    src: Vec<u8>,
    pos: usize,
    line: usize,
}

impl DefaultLexer {
    /// The bytes being lexed.
    pub closed spec fn source(&self) -> Seq<u8> {
        self.src@
    }

    /// The index of the next byte to be read.
    pub closed spec fn position(&self) -> int {
        self.pos as int
    }

    /// The number of line breaks skipped so far.
    pub closed spec fn line_count(&self) -> int {
        self.line as int
    }

    pub closed spec fn wf(&self) -> bool {
        self.line <= self.pos <= self.src.len()
    }

    pub proof fn lemma_position_in_bounds(&self)
        requires
            self.wf(),
        ensures
            0 <= self.position() <= self.source().len(),
            0 <= self.line_count(),
    {
    }

    /// After the byte at `position() - 1` was read: the state holds the token
    /// that begins there, and the line count is unchanged.
    closed spec fn scanned(old: DefaultLexer, new: DefaultLexer, r: LexResult) -> bool {
        &&& new.wf()
        &&& new.src@ == old.src@
        &&& new.line == old.line
        &&& (lex_result_view(r), new.pos as int) == token_at(old.src@, old.pos - 1)
    }

    pub fn new(src: Vec<u8>) -> (r: DefaultLexer)
        ensures
            r.wf(),
            r.source() == src@,
            r.position() == 0,
            r.line_count() == 0,
    {
        DefaultLexer { src, pos: 0, line: 0 }
    }

    /// The number of line breaks skipped so far.
    pub fn line(&self) -> (r: usize)
        ensures
            r == self.line_count(),
    {
        self.line
    }

    /// The next token: blanks are skipped and line breaks counted, as
    /// `lex_from` states.
    pub fn lex(&mut self) -> (r: LexResult)
        requires
            old(self).wf(),
        ensures
            final(self).wf(),
            final(self).source() == old(self).source(),
            0 <= final(self).position() <= final(self).source().len(),
            lex_result_view(r) == lex_from(old(self).source(), old(self).position()).0,
            final(self).position() == lex_from(old(self).source(), old(self).position()).1,
            final(self).line_count() == old(self).line_count() + lex_from(
                old(self).source(),
                old(self).position(),
            ).2,
    {
        let ghost s = self.src@;
        let ghost p0: int = self.pos as int;
        let ghost l0 = self.line as int;
        loop
            invariant
                self.wf(),
                s == old(self).src@,
                self.src@ == s,
                l0 <= self.line,
                p0 == old(self).pos,
                l0 == old(self).line,
                lex_from(s, p0) == (
                    lex_from(s, self.pos as int).0,
                    lex_from(s, self.pos as int).1,
                    (self.line - l0) as nat + lex_from(s, self.pos as int).2,
                ),
            decreases s.len() - self.pos,
        {
            let c = match self.next() {
                Some(c) => c,
                None => return Ok(Token::Eof),
            };
            if is_break_byte(c) {
                self.skip_line();
            } else if c == 32 {
                self.skip_space();
            } else {
                let r = match c {
                    46 => Ok(Token::Aide(Aides::Dot)),
                    44 => Ok(Token::Aide(Aides::Comma)),
                    59 => Ok(Token::Aide(Aides::Semicolon)),
                    58 => Ok(Token::Aide(Aides::Colon)),
                    40 => Ok(Token::Oper(Operator::LeftParen)),
                    41 => Ok(Token::Oper(Operator::RightParen)),
                    123 => Ok(Token::Oper(Operator::LeftBrace)),
                    125 => Ok(Token::Oper(Operator::RightBrace)),
                    43 => self.parse_add(),
                    45 => self.parse_sub(),
                    61 => self.parse_equal(),
                    34 => self.parse_string(),
                    42 => Ok(Token::Oper(Operator::Star)),
                    47 => self.parse_div(),
                    37 => Ok(Token::Oper(Operator::Mod)),
                    38 => self.parse_and(),
                    124 => self.parse_or(),
                    126 => Ok(Token::Oper(Operator::BitNot)),
                    62 => self.parse_greate(),
                    60 => self.parse_less(),
                    33 => self.parse_excl(),
                    63 => Ok(Token::Oper(Operator::Question)),
                    _ => {
                        if is_alpha_byte(c) || c == 95 {
                            self.parse_varorkeyword(c)
                        } else if is_digit_byte(c) {
                            self.parse_num(c)
                        } else {
                            Ok(Token::Unknown)
                        }
                    },
                };
                return r;
            }
        }
    }

    /// Skips a run of spaces.
    fn skip_space(&mut self)
        requires
            old(self).wf(),
            old(self).pos > 0,
            old(self).src@[old(self).pos - 1] == 32,
        ensures
            final(self).wf(),
            final(self).src@ == old(self).src@,
            final(self).line == old(self).line,
            final(self).pos >= old(self).pos,
            final(self).pos == space_end(old(self).src@, old(self).pos as int),
            lex_from(old(self).src@, old(self).pos - 1) == lex_from(
                final(self).src@,
                final(self).pos as int,
            ),
    {
        let ghost s = self.src@;
        while self.pos < self.src.len() && self.src[self.pos] == 32
            invariant
                self.wf(),
                s == old(self).src@,
                self.src@ == s,
                self.line == old(self).line,
                self.pos >= old(self).pos,
                space_end(s, old(self).pos as int) == space_end(s, self.pos as int),
                lex_from(s, old(self).pos - 1) == lex_from(s, self.pos as int),
            decreases s.len() - self.pos,
        {
            self.take();
        }
    }

    /// Counts the line break just read and those that follow it.
    fn skip_line(&mut self)
        requires
            old(self).wf(),
            old(self).pos > 0,
            is_line_break(old(self).src@[old(self).pos - 1]),
            old(self).line < old(self).pos,
        ensures
            final(self).wf(),
            final(self).src@ == old(self).src@,
            final(self).pos >= old(self).pos,
            final(self).pos == break_end(old(self).src@, old(self).pos as int),
            final(self).line == old(self).line + 1 + (final(self).pos - old(self).pos),
            lex_from(old(self).src@, old(self).pos - 1) == (
                lex_from(final(self).src@, final(self).pos as int).0,
                lex_from(final(self).src@, final(self).pos as int).1,
                (final(self).line - old(self).line) as nat + lex_from(
                    final(self).src@,
                    final(self).pos as int,
                ).2,
            ),
    {
        let ghost s = self.src@;
        self.line = self.line + 1;
        while self.pos < self.src.len() && is_break_byte(self.src[self.pos])
            invariant
                self.wf(),
                s == old(self).src@,
                self.src@ == s,
                self.pos >= old(self).pos,
                self.line == old(self).line + 1 + (self.pos - old(self).pos),
                break_end(s, old(self).pos as int) == break_end(s, self.pos as int),
                lex_from(s, old(self).pos - 1) == (
                    lex_from(s, self.pos as int).0,
                    lex_from(s, self.pos as int).1,
                    (self.line - old(self).line) as nat + lex_from(s, self.pos as int).2,
                ),
            decreases s.len() - self.pos,
        {
            self.take();
            self.line = self.line + 1;
        }
    }

    fn parse_add(&mut self) -> (r: LexResult)
        requires
            old(self).wf(),
            old(self).pos > 0,
            old(self).src@[old(self).pos - 1] == 43,
        ensures
            Self::scanned(*old(self), *final(self), r),
    {
        match self.peek() {
            Some(c) => {
                if c == 43 {
                    self.take_token(Token::Oper(Operator::Plus))
                } else if c == 61 {
                    self.take_token(Token::Oper(Operator::AddEqual))
                } else {
                    Ok(Token::Oper(Operator::Add))
                }
            },
            None => Ok(Token::Oper(Operator::Add)),
        }
    }

    fn parse_sub(&mut self) -> (r: LexResult)
        requires
            old(self).wf(),
            old(self).pos > 0,
            old(self).src@[old(self).pos - 1] == 45,
        ensures
            Self::scanned(*old(self), *final(self), r),
    {
        match self.peek() {
            Some(c) => {
                if c == 45 {
                    self.take_token(Token::Oper(Operator::Minus))
                } else if c == 61 {
                    self.take_token(Token::Oper(Operator::SubEqual))
                } else if c == 62 {
                    self.take_token(Token::Oper(Operator::RightArrow))
                } else {
                    Ok(Token::Oper(Operator::Sub))
                }
            },
            None => Ok(Token::Oper(Operator::Sub)),
        }
    }

    fn parse_equal(&mut self) -> (r: LexResult)
        requires
            old(self).wf(),
            old(self).pos > 0,
            old(self).src@[old(self).pos - 1] == 61,
        ensures
            Self::scanned(*old(self), *final(self), r),
    {
        match self.peek() {
            Some(61) => self.take_token(Token::Oper(Operator::Equal)),
            _ => Ok(Token::Oper(Operator::Assign)),
        }
    }

    fn parse_div(&mut self) -> (r: LexResult)
        requires
            old(self).wf(),
            old(self).pos > 0,
            old(self).src@[old(self).pos - 1] == 47,
        ensures
            Self::scanned(*old(self), *final(self), r),
    {
        match self.peek() {
            Some(c) => {
                if c == 47 {
                    self.parse_note()
                } else if c == 42 {
                    self.parse_multnote()
                } else {
                    Ok(Token::Oper(Operator::Div))
                }
            },
            None => Err(LexerError::UnExpected),
        }
    }

    fn parse_and(&mut self) -> (r: LexResult)
        requires
            old(self).wf(),
            old(self).pos > 0,
            old(self).src@[old(self).pos - 1] == 38,
        ensures
            Self::scanned(*old(self), *final(self), r),
    {
        if let Some(38) = self.peek() {
            self.take_token(Token::Oper(Operator::LogicAnd))
        } else {
            Ok(Token::Oper(Operator::BitAnd))
        }
    }

    fn parse_or(&mut self) -> (r: LexResult)
        requires
            old(self).wf(),
            old(self).pos > 0,
            old(self).src@[old(self).pos - 1] == 124,
        ensures
            Self::scanned(*old(self), *final(self), r),
    {
        if let Some(124) = self.peek() {
            self.take_token(Token::Oper(Operator::LogicOr))
        } else {
            Ok(Token::Oper(Operator::BitOr))
        }
    }

    /// A line comment: everything up to the next newline, which stays unread.
    fn parse_note(&mut self) -> (r: LexResult)
        requires
            old(self).wf(),
            old(self).pos > 0,
            old(self).src@[old(self).pos - 1] == 47,
            byte_is(old(self).src@, old(self).pos as int, 47),
        ensures
            Self::scanned(*old(self), *final(self), r),
    {
        let ghost s = self.src@;
        self.take();
        while self.pos < self.src.len() && self.src[self.pos] != 10
            invariant
                self.wf(),
                s == old(self).src@,
                self.src@ == s,
                self.line == old(self).line,
                old(self).pos + 1 <= self.pos,
                find_byte(s, old(self).pos + 1, 10) == find_byte(s, self.pos as int, 10),
            decreases s.len() - self.pos,
        {
            self.take();
        }
        Ok(Token::Aide(Aides::Note))
    }

    /// A block comment: scans for the first `*/` after the opening `/*`.
    fn parse_multnote(&mut self) -> (r: LexResult)
        requires
            old(self).wf(),
            old(self).pos > 0,
            old(self).src@[old(self).pos - 1] == 47,
            byte_is(old(self).src@, old(self).pos as int, 42),
        ensures
            Self::scanned(*old(self), *final(self), r),
    {
        let ghost s = self.src@;
        self.take();
        loop
            invariant
                self.wf(),
                s == old(self).src@,
                self.src@ == s,
                self.line == old(self).line,
                old(self).pos + 1 <= self.pos,
                comment_close(s, old(self).pos + 1) == comment_close(s, self.pos as int),
            decreases s.len() - self.pos,
        {
            let c = match self.next() {
                Some(b) => b,
                None => return Err(LexerError::Unterminated(Unclosed::Comment)),
            };
            if c == 42 {
                if let Some(47) = self.peek() {
                    return self.take_token(Token::Aide(Aides::MultNote));
                }
            }
        }
    }

    fn parse_greate(&mut self) -> (r: LexResult)
        requires
            old(self).wf(),
            old(self).pos > 0,
            old(self).src@[old(self).pos - 1] == 62,
        ensures
            Self::scanned(*old(self), *final(self), r),
    {
        match self.peek() {
            Some(c) => {
                if c == 62 {
                    self.take_token(Token::Oper(Operator::BitShiftRight))
                } else if c == 61 {
                    self.take_token(Token::Oper(Operator::GreateEqual))
                } else {
                    Ok(Token::Oper(Operator::Greate))
                }
            },
            None => Ok(Token::Oper(Operator::Greate)),
        }
    }

    fn parse_less(&mut self) -> (r: LexResult)
        requires
            old(self).wf(),
            old(self).pos > 0,
            old(self).src@[old(self).pos - 1] == 60,
        ensures
            Self::scanned(*old(self), *final(self), r),
    {
        match self.peek() {
            Some(c) => {
                if c == 60 {
                    self.take_token(Token::Oper(Operator::BitShiftLeft))
                } else if c == 61 {
                    self.take_token(Token::Oper(Operator::LessEqual))
                } else if c == 45 {
                    self.take_token(Token::Oper(Operator::LeftArrow))
                } else {
                    Ok(Token::Oper(Operator::Less))
                }
            },
            None => Ok(Token::Oper(Operator::Less)),
        }
    }

    fn parse_excl(&mut self) -> (r: LexResult)
        requires
            old(self).wf(),
            old(self).pos > 0,
            old(self).src@[old(self).pos - 1] == 33,
        ensures
            Self::scanned(*old(self), *final(self), r),
    {
        if let Some(61) = self.peek() {
            self.take_token(Token::Oper(Operator::NotEqual))
        } else {
            Ok(Token::Oper(Operator::LogicNot))
        }
    }

    /// A string literal: the bytes up to the closing quote, taken as they are.
    fn parse_string(&mut self) -> (r: LexResult)
        requires
            old(self).wf(),
            old(self).pos > 0,
            old(self).src@[old(self).pos - 1] == 34,
        ensures
            Self::scanned(*old(self), *final(self), r),
    {
        let ghost s = self.src@;
        let ghost start: int = self.pos as int;
        let mut text = String::new();
        loop
            invariant
                self.wf(),
                s == old(self).src@,
                self.src@ == s,
                self.line == old(self).line,
                start == old(self).pos,
                start <= self.pos,
                find_byte(s, start, 34) == find_byte(s, self.pos as int, 34),
                text@ == chars_of(s.subrange(start, self.pos as int)),
            decreases s.len() - self.pos,
        {
            let c = match self.next() {
                Some(b) => b,
                None => return Err(LexerError::Unterminated(Unclosed::Str)),
            };
            if c == 34 {
                assert(text@ == chars_of(s.subrange(start, self.pos - 1)));
                return Ok(Token::Str(text));
            }
            proof {
                assert(chars_of(s.subrange(start, self.pos as int)) =~= chars_of(
                    s.subrange(start, self.pos - 1),
                ).push(c as char));
            }
            push_byte(&mut text, c);
        }
    }

    /// An identifier or keyword: a letter or `_`, then letters.
    fn parse_varorkeyword(&mut self, c: u8) -> (r: LexResult)
        requires
            old(self).wf(),
            old(self).pos > 0,
            old(self).src@[old(self).pos - 1] == c,
            is_alpha(c) || c == 95,
        ensures
            Self::scanned(*old(self), *final(self), r),
    {
        let ghost s = self.src@;
        let ghost start: int = self.pos - 1;
        let mut text = String::new();
        let mut word: Vec<u8> = Vec::new();
        push_byte(&mut text, c);
        word.push(c);
        proof {
            assert(word@ =~= s.subrange(start, self.pos as int));
            assert(text@ =~= chars_of(word@));
        }
        while self.pos < self.src.len() && is_alpha_byte(self.src[self.pos])
            invariant
                self.wf(),
                s == old(self).src@,
                self.src@ == s,
                self.line == old(self).line,
                old(self).pos <= self.pos,
                start == old(self).pos - 1,
                alpha_end(s, old(self).pos as int) == alpha_end(s, self.pos as int),
                word@ == s.subrange(start, self.pos as int),
                text@ == chars_of(word@),
            decreases s.len() - self.pos,
        {
            let d = self.src[self.pos];
            push_byte(&mut text, d);
            word.push(d);
            self.take();
            proof {
                assert(word@ =~= s.subrange(start, self.pos as int));
                assert(text@ =~= chars_of(word@));
            }
        }
        match is_keyword(word.as_slice()) {
            Some(k) => Ok(Token::KeyWord(k)),
            None => Ok(Token::Ident(text)),
        }
    }

    /// A decimal literal, read into an `isize`.
    fn parse_num(&mut self, c: u8) -> (r: LexResult)
        requires
            old(self).wf(),
            old(self).pos > 0,
            old(self).src@[old(self).pos - 1] == c,
            is_digit(c),
        ensures
            Self::scanned(*old(self), *final(self), r),
    {
        let ghost s = self.src@;
        let ghost start: int = self.pos - 1;
        let mut value: isize = (c - 48) as isize;
        let mut too_large = false;
        proof {
            let w = s.subrange(start, self.pos as int);
            assert(w.drop_last() =~= Seq::<u8>::empty());
            assert(digits_value(w.drop_last()) == 0);
            assert(w.last() == c);
        }
        while self.pos < self.src.len() && is_digit_byte(self.src[self.pos])
            invariant
                self.wf(),
                s == old(self).src@,
                self.src@ == s,
                self.line == old(self).line,
                old(self).pos <= self.pos,
                start == old(self).pos - 1,
                digit_end(s, old(self).pos as int) == digit_end(s, self.pos as int),
                digits_value(s.subrange(start, self.pos as int)) >= 0,
                !too_large ==> value == digits_value(s.subrange(start, self.pos as int)),
                too_large ==> digits_value(s.subrange(start, self.pos as int)) > isize::MAX,
            decreases s.len() - self.pos,
        {
            let digit = (self.src[self.pos] - 48) as isize;
            if !too_large {
                if value <= (isize::MAX - digit) / 10 {
                    value = value * 10 + digit;
                } else {
                    too_large = true;
                }
            }
            self.take();
            proof {
                assert(s.subrange(start, self.pos as int).drop_last() =~= s.subrange(
                    start,
                    self.pos - 1,
                ));
            }
        }
        if too_large {
            Err(LexerError::TooLarge)
        } else {
            Ok(Token::Number(value))
        }
    }

    fn take_token(&mut self, t: Token) -> (r: LexResult)
        requires
            old(self).wf(),
            old(self).pos < old(self).src.len(),
        ensures
            final(self).wf(),
            final(self).src@ == old(self).src@,
            final(self).line == old(self).line,
            final(self).pos == old(self).pos + 1,
            r == Ok::<Token, LexerError>(t),
    {
        self.take();
        Ok(t)
    }

    /// Steps over the next byte, if there is one.
    fn take(&mut self)
        requires
            old(self).wf(),
        ensures
            final(self).wf(),
            final(self).src@ == old(self).src@,
            final(self).line == old(self).line,
            final(self).pos == if old(self).pos < old(self).src.len() {
                old(self).pos + 1
            } else {
                old(self).pos as int
            },
    {
        if self.pos < self.src.len() {
            self.pos = self.pos + 1;
        }
    }

    /// Reads the next byte.
    fn next(&mut self) -> (r: Option<u8>)
        requires
            old(self).wf(),
        ensures
            final(self).wf(),
            final(self).src@ == old(self).src@,
            final(self).line == old(self).line,
            old(self).pos < old(self).src.len() ==> r == Some(old(self).src@[old(self).pos as int])
                && final(self).pos == old(self).pos + 1,
            old(self).pos >= old(self).src.len() ==> r.is_none() && final(self).pos
                == old(self).pos,
    {
        if self.pos < self.src.len() {
            let c = self.src[self.pos];
            self.pos = self.pos + 1;
            Some(c)
        } else {
            None
        }
    }

    /// The next byte, left unread.
    fn peek(&self) -> (r: Option<u8>)
        ensures
            self.pos < self.src.len() ==> r == Some(self.src@[self.pos as int]),
            self.pos >= self.src.len() ==> r.is_none(),
    {
        if self.pos < self.src.len() {
            Some(self.src[self.pos])
        } else {
            None
        }
    }
}

} // verus!
