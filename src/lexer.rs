use vstd::prelude::*;

verus! {

/// Where a token lies in the source, in characters, and its text.
#[derive(Debug)]
pub struct Span {
    pub start: usize,
    pub end: usize,
    pub literal: String,
}

impl Span {
    pub fn new(start: usize, end: usize, literal: String) -> (r: Span)
        ensures
            r.start == start,
            r.end == end,
            r.literal == literal,
    {
        Span { start, end, literal }
    }
}

/// The kinds of tokens.
#[derive(Debug, Clone, Copy, PartialEq, Eq, Structural)]
pub enum TokenKind {
    // Types
    Tvoid,
    Tbool,
    Ti8,
    Ti16,
    Ti32,
    Ti64,
    Ti128,
    Tu8,
    Tu16,
    Tu32,
    Tu64,
    Tu128,
    Tf32,
    Tf64,
    Tchar,
    Tstring,
    // Keywords
    KwIf,
    KwMatch,
    KwFn,
    KwExtern,
    KwImport,
    KwStruct,
    KwEnum,
    // Punctuation
    Dot,
    At,
    Comma,
    Pipe,
    RightArrow,
    Column,
    Coleq,
    Eq,
    EqEq,
    OpenParen,
    ClosedParen,
    OpenCurly,
    ClosedCurly,
    OpenBracket,
    ClosedBracket,
    // Literals
    Integer,
    Identifier,
    String,
    // Operators
    Add,
    Min,
    Mul,
    Div,
    Caret,
    Mod,
    Not,
    // Special
    UnclosedComment,
    Comment,
    DocComment,
    Whitespace,
    NewLine,
    Unknown,
    EOF,
}

pub open spec fn is_sync_kind(k: TokenKind) -> bool {
    k == TokenKind::ClosedParen || k == TokenKind::ClosedCurly || k == TokenKind::ClosedBracket
        || k == TokenKind::EOF
}

pub open spec fn begins_stmt(k: TokenKind) -> bool {
    k == TokenKind::KwIf || k == TokenKind::KwMatch || k == TokenKind::KwFn
}

pub open spec fn is_stmt_kind(k: TokenKind) -> bool {
    k == TokenKind::KwIf || k == TokenKind::KwEnum || k == TokenKind::KwFn || k
        == TokenKind::KwMatch || k == TokenKind::KwImport || k == TokenKind::KwStruct || k
        == TokenKind::Identifier
}

pub open spec fn is_type_kind(k: TokenKind) -> bool {
    match k {
        TokenKind::Tvoid | TokenKind::Tbool | TokenKind::Ti8 | TokenKind::Ti16 | TokenKind::Ti32
        | TokenKind::Ti64 | TokenKind::Ti128 | TokenKind::Tu8 | TokenKind::Tu16
        | TokenKind::Tu32 | TokenKind::Tu64 | TokenKind::Tu128 | TokenKind::Tf32
        | TokenKind::Tf64 | TokenKind::Tstring | TokenKind::Tchar | TokenKind::Identifier => true,
        _ => false,
    }
}

pub open spec fn is_expr_kind(k: TokenKind) -> bool {
    match k {
        TokenKind::Integer | TokenKind::Identifier | TokenKind::Min | TokenKind::OpenParen
        | TokenKind::KwFn | TokenKind::KwExtern => true,
        _ => false,
    }
}

/// A token that can start an expression statement: one that starts an expression, or a
/// string literal.
pub open spec fn starts_expr_stmt(k: TokenKind) -> bool {
    is_expr_kind(k) || k == TokenKind::String
}

pub open spec fn is_operator_kind(k: TokenKind) -> bool {
    match k {
        TokenKind::Add | TokenKind::Min | TokenKind::Mul | TokenKind::Div | TokenKind::Mod
        | TokenKind::Not | TokenKind::Eq | TokenKind::EqEq => true,
        _ => false,
    }
}

impl TokenKind {
    /// A token at which error recovery may stop.
    pub fn is_sync_token(&self) -> (r: bool)
        ensures
            r == is_sync_kind(*self),
    {
        matches!(
            self,
            TokenKind::ClosedParen | TokenKind::ClosedCurly | TokenKind::ClosedBracket
                | TokenKind::EOF
        )
    }

    pub fn is_begin_new_stmt(&self) -> (r: bool)
        ensures
            r == begins_stmt(*self),
    {
        matches!(self, TokenKind::KwIf | TokenKind::KwMatch | TokenKind::KwFn)
    }

    /// A token that can start a statement.
    pub fn is_stmt(&self) -> (r: bool)
        ensures
            r == is_stmt_kind(*self),
    {
        matches!(
            self,
            TokenKind::KwIf | TokenKind::KwEnum | TokenKind::KwFn | TokenKind::KwMatch
                | TokenKind::KwImport | TokenKind::KwStruct | TokenKind::Identifier
        )
    }

    /// A token that can start a type.
    pub fn is_type(&self) -> (r: bool)
        ensures
            r == is_type_kind(*self),
    {
        matches!(
            self,
            TokenKind::Tvoid | TokenKind::Tbool | TokenKind::Ti8 | TokenKind::Ti16
                | TokenKind::Ti32 | TokenKind::Ti64 | TokenKind::Ti128 | TokenKind::Tu8
                | TokenKind::Tu16 | TokenKind::Tu32 | TokenKind::Tu64 | TokenKind::Tu128
                | TokenKind::Tf32 | TokenKind::Tf64 | TokenKind::Tstring | TokenKind::Tchar
                | TokenKind::Identifier
        )
    }

    /// A token that can start an expression.
    pub fn is_expr(&self) -> (r: bool)
        ensures
            r == is_expr_kind(*self),
    {
        matches!(
            self,
            TokenKind::Integer | TokenKind::Identifier | TokenKind::Min | TokenKind::OpenParen
                | TokenKind::KwFn | TokenKind::KwExtern
        )
    }

    /// A token that can start an expression statement, a string literal included.
    pub fn starts_expr_stmt(&self) -> (r: bool)
        ensures
            r == starts_expr_stmt(*self),
    {
        self.is_expr() || *self == TokenKind::String
    }

    pub fn is_operator(&self) -> (r: bool)
        ensures
            r == is_operator_kind(*self),
    {
        matches!(
            self,
            TokenKind::Add | TokenKind::Min | TokenKind::Mul | TokenKind::Div | TokenKind::Mod
                | TokenKind::Not | TokenKind::Eq | TokenKind::EqEq
        )
    }
}

/// A token: its kind, its span and text, and the row and column where it ends.
#[derive(Debug)]
pub struct Token {
    pub kind: TokenKind,
    pub span: Span,
    pub row: usize,
    pub col: usize,
}

impl Token {
    pub fn new(kind: TokenKind, span: Span, row: usize, col: usize) -> (r: Token)
        ensures
            r.kind == kind,
            r.span == span,
            r.row == row,
            r.col == col,
    {
        Token { kind, span, row, col }
    }

    pub fn row_col(&self) -> (r: (usize, usize))
        ensures
            r == (self.row, self.col),
    {
        (self.row, self.col)
    }

    pub fn kind(&self) -> (r: TokenKind)
        ensures
            r == self.kind,
    {
        self.kind
    }

    pub fn literal(&self) -> (r: String)
        ensures
            r@ == self.span.literal@,
    {
        self.span.literal.clone()
    }

    /// The span as a start and an end position.
    pub fn pos(&self) -> (r: (usize, usize))
        ensures
            r == (self.span.start, self.span.end),
    {
        (self.span.start, self.span.end)
    }
}

pub open spec fn is_alpha(c: char) -> bool {
    ('a' <= c && c <= 'z') || ('A' <= c && c <= 'Z')
}

pub open spec fn is_digit(c: char) -> bool {
    '0' <= c && c <= '9'
}

pub open spec fn is_ident_char(c: char) -> bool {
    is_alpha(c) || is_digit(c) || c == '_'
}

pub open spec fn is_blank(c: char) -> bool {
    c == ' ' || c == '\t' || c == '\r'
}

pub fn is_ident_cont(c: char) -> (r: bool)
    ensures
        r == is_ident_char(c),
{
    ('a' <= c && c <= 'z') || ('A' <= c && c <= 'Z') || ('0' <= c && c <= '9') || c == '_'
}

pub fn is_whitespace(c: char) -> (r: bool)
    ensures
        r == is_blank(c),
{
    c == ' ' || c == '\t' || c == '\r'
}

pub fn is_integer_cont(c: char) -> (r: bool)
    ensures
        r == is_digit(c),
{
    '0' <= c && c <= '9'
}

/// The kind of a word: a keyword, a type name, or an identifier.
pub open spec fn word_kind(w: Seq<char>) -> TokenKind {
    if w == "fn"@ {
        TokenKind::KwFn
    } else if w == "if"@ {
        TokenKind::KwIf
    } else if w == "match"@ {
        TokenKind::KwMatch
    } else if w == "import"@ {
        TokenKind::KwImport
    } else if w == "struct"@ {
        TokenKind::KwStruct
    } else if w == "enum"@ {
        TokenKind::KwEnum
    } else if w == "extern"@ {
        TokenKind::KwExtern
    } else if w == "void"@ {
        TokenKind::Tvoid
    } else if w == "bool"@ {
        TokenKind::Tbool
    } else if w == "i8"@ {
        TokenKind::Ti8
    } else if w == "i16"@ {
        TokenKind::Ti16
    } else if w == "i32"@ {
        TokenKind::Ti32
    } else if w == "i64"@ {
        TokenKind::Ti64
    } else if w == "i128"@ {
        TokenKind::Ti128
    } else if w == "u8"@ {
        TokenKind::Tu8
    } else if w == "u16"@ {
        TokenKind::Tu16
    } else if w == "u32"@ {
        TokenKind::Tu32
    } else if w == "u64"@ {
        TokenKind::Tu64
    } else if w == "u128"@ {
        TokenKind::Tu128
    } else if w == "f32"@ {
        TokenKind::Tf32
    } else if w == "f64"@ {
        TokenKind::Tf64
    } else if w == "char"@ {
        TokenKind::Tchar
    } else if w == "string"@ {
        TokenKind::Tstring
    } else if w == "not"@ {
        TokenKind::Not
    } else {
        TokenKind::Identifier
    }
}

fn word_is(w: &String, lit: &str) -> (r: bool)
    ensures
        r == (w@ == lit@),
{
    *w == String::from_str(lit)
}

/// Classifies a word.
pub fn ident_or_kw_or_type(w: &String) -> (r: TokenKind)
    ensures
        r == word_kind(w@),
{
    if word_is(w, "fn") {
        TokenKind::KwFn
    } else if word_is(w, "if") {
        TokenKind::KwIf
    } else if word_is(w, "match") {
        TokenKind::KwMatch
    } else if word_is(w, "import") {
        TokenKind::KwImport
    } else if word_is(w, "struct") {
        TokenKind::KwStruct
    } else if word_is(w, "enum") {
        TokenKind::KwEnum
    } else if word_is(w, "extern") {
        TokenKind::KwExtern
    } else if word_is(w, "void") {
        TokenKind::Tvoid
    } else if word_is(w, "bool") {
        TokenKind::Tbool
    } else if word_is(w, "i8") {
        TokenKind::Ti8
    } else if word_is(w, "i16") {
        TokenKind::Ti16
    } else if word_is(w, "i32") {
        TokenKind::Ti32
    } else if word_is(w, "i64") {
        TokenKind::Ti64
    } else if word_is(w, "i128") {
        TokenKind::Ti128
    } else if word_is(w, "u8") {
        TokenKind::Tu8
    } else if word_is(w, "u16") {
        TokenKind::Tu16
    } else if word_is(w, "u32") {
        TokenKind::Tu32
    } else if word_is(w, "u64") {
        TokenKind::Tu64
    } else if word_is(w, "u128") {
        TokenKind::Tu128
    } else if word_is(w, "f32") {
        TokenKind::Tf32
    } else if word_is(w, "f64") {
        TokenKind::Tf64
    } else if word_is(w, "char") {
        TokenKind::Tchar
    } else if word_is(w, "string") {
        TokenKind::Tstring
    } else if word_is(w, "not") {
        TokenKind::Not
    } else {
        TokenKind::Identifier
    }
}

/// A blank or a line break.
pub open spec fn is_space(c: char) -> bool {
    is_blank(c) || c == '\n'
}

/// Whether every character of `src` before `pos` that is not a space lies in one of the
/// tokens, which come in order without overlapping, none of them empty, whitespace or
/// the end marker.
pub open spec fn covers(tokens: Seq<Token>, src: Seq<char>, pos: int) -> bool {
    &&& forall|i: int|
        0 <= i < tokens.len() ==> (#[trigger] tokens[i]).kind != TokenKind::Whitespace && tokens[i].kind
            != TokenKind::EOF && tokens[i].span.start < tokens[i].span.end && tokens[i].span.end
            <= pos
    &&& forall|i: int, j: int|
        0 <= i < j < tokens.len() ==> (#[trigger] tokens[i]).span.end <= (#[trigger] tokens[j]).span.start
    &&& forall|q: int|
        0 <= q < pos ==> is_space(#[trigger] src[q]) || exists|i: int|
            0 <= i < tokens.len() && (#[trigger] tokens[i]).span.start <= q < tokens[i].span.end
}

/// The kind of a token from its text, as the lexer reads it.
pub open spec fn kind_of_text(s: Seq<char>) -> TokenKind {
    let c = s[0];
    let second = |x: char| s.len() >= 2 && s[1] == x;
    if is_alpha(c) || c == '_' {
        word_kind(s)
    } else if c == '.' {
        TokenKind::Dot
    } else if c == ',' {
        TokenKind::Comma
    } else if c == '|' {
        TokenKind::Pipe
    } else if c == '(' {
        TokenKind::OpenParen
    } else if c == ')' {
        TokenKind::ClosedParen
    } else if c == '{' {
        TokenKind::OpenCurly
    } else if c == '}' {
        TokenKind::ClosedCurly
    } else if c == ':' {
        if second('=') {
            TokenKind::Coleq
        } else {
            TokenKind::Column
        }
    } else if c == '=' {
        if second('=') {
            TokenKind::EqEq
        } else {
            TokenKind::Eq
        }
    } else if c == '+' {
        TokenKind::Add
    } else if c == '-' {
        if second('>') {
            TokenKind::RightArrow
        } else {
            TokenKind::Min
        }
    } else if c == '*' {
        TokenKind::Mul
    } else if c == '/' {
        TokenKind::Div
    } else if c == '%' {
        TokenKind::Mod
    } else if c == '^' {
        TokenKind::Caret
    } else if c == '[' {
        TokenKind::OpenBracket
    } else if c == ']' {
        TokenKind::ClosedBracket
    } else if c == '@' {
        TokenKind::At
    } else if c == '"' {
        TokenKind::String
    } else if c == ';' {
        TokenKind::DocComment
    } else if c == '\n' {
        TokenKind::Whitespace
    } else if is_digit(c) {
        TokenKind::Integer
    } else if is_blank(c) {
        TokenKind::Whitespace
    } else {
        TokenKind::Unknown
    }
}

/// Whether a token of `src` is as long as the lexer makes it: a word or a number does
/// not stop before a character that could continue it.
pub open spec fn maximal(t: Token, src: Seq<char>) -> bool {
    let s = t.span.literal@;
    let c = s[0];
    let e = t.span.end as int;
    &&& (is_alpha(c) || c == '_') ==> (e >= src.len() || !is_ident_char(src[e])) && forall|q: int|
        0 <= q < s.len() ==> is_ident_char(#[trigger] s[q])
    &&& is_digit(c) ==> (e >= src.len() || !is_digit(src[e])) && forall|q: int|
        0 <= q < s.len() ==> is_digit(#[trigger] s[q])
    &&& !(is_alpha(c) || c == '_' || is_digit(c) || c == '"' || c == ';' || is_blank(c)) ==> s.len()
        == if t.kind == TokenKind::Coleq || t.kind == TokenKind::EqEq || t.kind
        == TokenKind::RightArrow {
        2int
    } else {
        1int
    }
}

/// Whether a token lies inside the source `src`, with its text taken from there.
pub open spec fn token_in(t: Token, src: Seq<char>) -> bool {
    t.span.start <= t.span.end <= src.len() && t.span.literal@ == src.subrange(
        t.span.start as int,
        t.span.end as int,
    )
}

/// Splits source text into tokens.
pub struct Lexer {
    pub src: String,
    pub chars: Vec<char>,
    pub pos: usize,
    pub row: usize,
    pub col: usize,
}

impl Lexer {
    pub open spec fn wf(&self) -> bool {
        &&& self.chars@ == self.src@
        &&& self.pos <= self.chars@.len()
    }

    pub fn new(input: &str) -> (r: Lexer)
        ensures
            r.wf(),
            r.src@ == input@,
            r.pos == 0,
    {
        let n = input.unicode_len();
        let mut chars: Vec<char> = Vec::new();
        let mut i: usize = 0;
        while i < n
            invariant
                n == input@.len(),
                i <= n,
                chars@ == input@.subrange(0, i as int),
            decreases n - i,
        {
            chars.push(input.get_char(i));
            i = i + 1;
            proof {
                assert(chars@ =~= input@.subrange(0, i as int));
            }
        }
        proof {
            assert(chars@ =~= input@);
        }
        Lexer { src: String::from_str(input), chars, pos: 0, row: 0, col: 0 }
    }

    fn is_eof(&self) -> (r: bool)
        requires
            self.wf(),
        ensures
            r == (self.pos >= self.chars@.len()),
    {
        self.pos >= self.chars.len()
    }

    fn peek(&self) -> (r: Option<char>)
        requires
            self.wf(),
        ensures
            self.pos < self.chars@.len() ==> r == Some(self.chars@[self.pos as int]),
            self.pos >= self.chars@.len() ==> r is None,
    {
        if self.pos < self.chars.len() {
            Some(self.chars[self.pos])
        } else {
            None
        }
    }

    fn advance(&mut self)
        requires
            old(self).wf(),
            old(self).pos < old(self).chars@.len(),
        ensures
            final(self).wf(),
            final(self).pos == old(self).pos + 1,
            final(self).src == old(self).src,
            final(self).chars == old(self).chars,
    {
        let n = self.chars.len();
        assert(self.pos < n);
        self.pos = self.pos + 1;
        if self.col < usize::MAX {
            self.col = self.col + 1;
        }
    }

    fn inc_row(&mut self)
        ensures
            final(self).pos == old(self).pos,
            final(self).src == old(self).src,
            final(self).chars == old(self).chars,
    {
        if self.row < usize::MAX {
            self.row = self.row + 1;
        }
        self.col = 0;
    }

    /// Takes characters while they are identifier characters.
    fn eat_ident(&mut self)
        requires
            old(self).wf(),
        ensures
            final(self).wf(),
            final(self).pos >= old(self).pos,
            final(self).pos >= final(self).chars@.len() || !is_ident_char(
                final(self).chars@[final(self).pos as int],
            ),
            final(self).src == old(self).src,
            final(self).chars == old(self).chars,
            forall|q: int| old(self).pos <= q < final(self).pos ==> is_ident_char(#[trigger] old(self).chars@[q]),
    {
        while self.pos < self.chars.len() && is_ident_cont(self.chars[self.pos])
            invariant
                self.wf(),
                self.pos >= old(self).pos,
                self.src == old(self).src,
                self.chars == old(self).chars,
                forall|q: int| old(self).pos <= q < self.pos ==> is_ident_char(#[trigger] old(self).chars@[q]),
            decreases self.chars@.len() - self.pos,
        {
            self.advance();
        }
    }

    fn eat_digits(&mut self)
        requires
            old(self).wf(),
        ensures
            final(self).wf(),
            final(self).pos >= old(self).pos,
            final(self).pos >= final(self).chars@.len() || !is_digit(
                final(self).chars@[final(self).pos as int],
            ),
            final(self).src == old(self).src,
            final(self).chars == old(self).chars,
            forall|q: int| old(self).pos <= q < final(self).pos ==> is_digit(#[trigger] old(self).chars@[q]),
    {
        while self.pos < self.chars.len() && is_integer_cont(self.chars[self.pos])
            invariant
                self.wf(),
                self.pos >= old(self).pos,
                self.src == old(self).src,
                self.chars == old(self).chars,
                forall|q: int| old(self).pos <= q < self.pos ==> is_digit(#[trigger] old(self).chars@[q]),
            decreases self.chars@.len() - self.pos,
        {
            self.advance();
        }
    }

    fn eat_blank(&mut self)
        requires
            old(self).wf(),
        ensures
            final(self).wf(),
            final(self).pos >= old(self).pos,
            final(self).src == old(self).src,
            final(self).chars == old(self).chars,
            forall|q: int| old(self).pos <= q < final(self).pos ==> is_blank(#[trigger] old(self).src@[q]),
    {
        while self.pos < self.chars.len() && is_whitespace(self.chars[self.pos])
            invariant
                self.wf(),
                self.pos >= old(self).pos,
                self.src == old(self).src,
                self.chars == old(self).chars,
                forall|q: int| old(self).pos <= q < self.pos ==> is_blank(#[trigger] old(self).src@[q]),
            decreases self.chars@.len() - self.pos,
        {
            self.advance();
        }
    }

    /// Takes characters up to and including the next `end`, or to the end of input.
    fn eat_through(&mut self, end: char)
        requires
            old(self).wf(),
        ensures
            final(self).wf(),
            final(self).pos >= old(self).pos,
            final(self).src == old(self).src,
            final(self).chars == old(self).chars,
    {
        while self.pos < self.chars.len() && self.chars[self.pos] != end
            invariant
                self.wf(),
                self.pos >= old(self).pos,
                self.src == old(self).src,
                self.chars == old(self).chars,
            decreases self.chars@.len() - self.pos,
        {
            if self.chars[self.pos] == '\n' {
                self.inc_row();
            }
            self.advance();
        }
        if self.pos < self.chars.len() {
            self.advance();
        }
    }

    /// Reads the next token. At the end of input it is an `EOF` token.
    fn next(&mut self) -> (r: Token)
        requires
            old(self).wf(),
        ensures
            final(self).wf(),
            final(self).src == old(self).src,
            final(self).chars == old(self).chars,
            old(self).pos < old(self).chars@.len() ==> final(self).pos > old(self).pos,
            token_in(r, old(self).src@),
            old(self).pos < old(self).chars@.len() ==> r.kind != TokenKind::EOF && r.span.start
                == old(self).pos && r.span.end == final(self).pos,
            old(self).pos < old(self).chars@.len() && r.kind == TokenKind::Whitespace ==> forall|q: int|
                r.span.start <= q < r.span.end ==> is_space(#[trigger] old(self).src@[q]),
            old(self).pos < old(self).chars@.len() ==> r.kind == kind_of_text(r.span.literal@)
                && maximal(r, old(self).src@),
    {
        let start = self.pos;
        if self.is_eof() {
            proof {
                assert(self.src@.subrange(0, 0) =~= Seq::<char>::empty());
            }
            return Token::new(TokenKind::EOF, Span::new(0, 0, String::new()), self.row, self.col);
        }
        let c = self.chars[self.pos];
        self.advance();
        let kind = if ('a' <= c && c <= 'z') || ('A' <= c && c <= 'Z') || c == '_' {
            self.eat_ident();
            let word = String::from_str(self.src.as_str().substring_char(start, self.pos));
            ident_or_kw_or_type(&word)
        } else if c == '.' {
            TokenKind::Dot
        } else if c == ',' {
            TokenKind::Comma
        } else if c == '|' {
            TokenKind::Pipe
        } else if c == '(' {
            TokenKind::OpenParen
        } else if c == ')' {
            TokenKind::ClosedParen
        } else if c == '{' {
            TokenKind::OpenCurly
        } else if c == '}' {
            TokenKind::ClosedCurly
        } else if c == ':' {
            if self.peek() == Some('=') {
                self.advance();
                TokenKind::Coleq
            } else {
                TokenKind::Column
            }
        } else if c == '=' {
            if self.peek() == Some('=') {
                self.advance();
                TokenKind::EqEq
            } else {
                TokenKind::Eq
            }
        } else if c == '+' {
            TokenKind::Add
        } else if c == '-' {
            if self.peek() == Some('>') {
                self.advance();
                TokenKind::RightArrow
            } else {
                TokenKind::Min
            }
        } else if c == '*' {
            TokenKind::Mul
        } else if c == '/' {
            TokenKind::Div
        } else if c == '%' {
            TokenKind::Mod
        } else if c == '^' {
            TokenKind::Caret
        } else if c == '[' {
            TokenKind::OpenBracket
        } else if c == ']' {
            TokenKind::ClosedBracket
        } else if c == '@' {
            TokenKind::At
        } else if c == '"' {
            self.eat_through('"');
            TokenKind::String
        } else if c == ';' {
            self.eat_through(';');
            TokenKind::DocComment
        } else if c == '\n' {
            self.inc_row();
            TokenKind::Whitespace
        } else if '0' <= c && c <= '9' {
            self.eat_digits();
            TokenKind::Integer
        } else if c == ' ' || c == '\t' || c == '\r' {
            self.eat_blank();
            TokenKind::Whitespace
        } else {
            TokenKind::Unknown
        };
        let literal = String::from_str(self.src.as_str().substring_char(start, self.pos));
        Token::new(kind, Span::new(start, self.pos, literal), self.row, self.col)
    }

    /// Splits the whole input into tokens, leaving out whitespace.
    pub fn lex(&mut self) -> (r: Vec<Token>)
        requires
            old(self).wf(),
        ensures
            final(self).wf(),
            final(self).src == old(self).src,
            forall|i: int| 0 <= i < r@.len() ==> (#[trigger] r@[i]).kind != TokenKind::Whitespace,
            forall|i: int| 0 <= i < r@.len() ==> token_in(#[trigger] r@[i], old(self).src@),
            old(self).pos == 0 ==> covers(r@, old(self).src@, old(self).src@.len() as int),
            forall|i: int|
                0 <= i < r@.len() ==> (#[trigger] r@[i]).kind == kind_of_text(r@[i].span.literal@)
                    && maximal(r@[i], old(self).src@),
    {
        let mut tokens: Vec<Token> = Vec::new();
        let ghost p0 = self.pos as int;
        while !self.is_eof()
            invariant
                self.wf(),
                self.src == old(self).src,
                p0 == old(self).pos,
                p0 == 0 ==> covers(tokens@, old(self).src@, self.pos as int),
                forall|i: int|
                    0 <= i < tokens@.len() ==> (#[trigger] tokens@[i]).kind == kind_of_text(
                        tokens@[i].span.literal@,
                    ) && maximal(tokens@[i], old(self).src@),
                forall|i: int|
                    0 <= i < tokens@.len() ==> (#[trigger] tokens@[i]).kind != TokenKind::Whitespace,
                forall|i: int| 0 <= i < tokens@.len() ==> token_in(#[trigger] tokens@[i], old(self).src@),
            decreases self.chars@.len() - self.pos,
        {
            let ghost before = tokens@;
            let ghost pos0 = self.pos as int;
            let token = self.next();
            if token.kind != TokenKind::Whitespace {
                tokens.push(token);
                proof {
                    if p0 == 0 {
                        assert(forall|i: int| 0 <= i < before.len() ==> tokens@[i] == before[i]);
                        assert forall|q: int| 0 <= q < self.pos implies is_space(#[trigger] old(self).src@[q])
                            || exists|i: int|
                            0 <= i < tokens@.len() && (#[trigger] tokens@[i]).span.start <= q
                                < tokens@[i].span.end by {
                            if q >= pos0 {
                                assert(tokens@[before.len() as int].span.start <= q);
                            } else if !is_space(old(self).src@[q]) {
                                let i = choose|i: int|
                                    0 <= i < before.len() && (#[trigger] before[i]).span.start <= q
                                        < before[i].span.end;
                                assert(tokens@[i] == before[i]);
                            }
                        }
                    }
                }
            } else {
                proof {
                    if p0 == 0 {
                        assert forall|q: int| 0 <= q < self.pos implies is_space(#[trigger] old(self).src@[q])
                            || exists|i: int|
                            0 <= i < tokens@.len() && (#[trigger] tokens@[i]).span.start <= q
                                < tokens@[i].span.end by {
                            if q >= pos0 {
                                assert(is_space(old(self).src@[q]));
                            }
                        }
                    }
                }
            }
        }
        proof {
            assert(self.pos as int == old(self).src@.len());
        }
        tokens
    }
}

} // verus!
