use vstd::prelude::*;

use crate::ast::{
    named_view,
    DocComment, EnumDecl, Expr, FuncNode, ImportKey, Location, Module, Name, Stmt, Type, TypeValue,
    Var, VarLhs,
};
use crate::lexer::{Token, TokenKind};

verus! {

/// A syntax error with the place it was found.
#[derive(Debug)]
pub struct ParseError {
    pub message: String,
    pub location: Location,
}

impl ParseError {
    pub fn new(message: String, location: Location) -> (r: ParseError)
        ensures
            r.message@ == message@,
            r.location == location,
    {
        ParseError { message, location }
    }

    /// A copy of the error.
    pub fn copy(&self) -> (r: ParseError)
        ensures
            r.message@ == self.message@,
            r.location == self.location,
    {
        ParseError { message: self.message.clone(), location: self.location }
    }
}

/// What a production yields: its product, the errors found, and whether the input ended
/// before it was complete.
pub type ParseResult<P> = (P, Vec<ParseError>, bool);

/// A token stream being parsed, with the names of the files it imports.
pub struct Input {
    pub stream: Vec<Token>,
    pub pos: usize,
    pub prev_pos: (usize, usize),
    pub prev_row: usize,
    pub requests: Vec<Name>,
}

/// How a token kind is written in messages.
pub open spec fn kind_text(k: TokenKind) -> Seq<char> {
    match k {
        TokenKind::Tvoid => "Tvoid"@,
        TokenKind::Tbool => "Tbool"@,
        TokenKind::Ti8 => "Ti8"@,
        TokenKind::Ti16 => "Ti16"@,
        TokenKind::Ti32 => "Ti32"@,
        TokenKind::Ti64 => "Ti64"@,
        TokenKind::Ti128 => "Ti128"@,
        TokenKind::Tu8 => "Tu8"@,
        TokenKind::Tu16 => "Tu16"@,
        TokenKind::Tu32 => "Tu32"@,
        TokenKind::Tu64 => "Tu64"@,
        TokenKind::Tu128 => "Tu128"@,
        TokenKind::Tf32 => "Tf32"@,
        TokenKind::Tf64 => "Tf64"@,
        TokenKind::Tchar => "Tchar"@,
        TokenKind::Tstring => "Tstring"@,
        TokenKind::KwIf => "KwIf"@,
        TokenKind::KwMatch => "KwMatch"@,
        TokenKind::KwFn => "KwFn"@,
        TokenKind::KwExtern => "KwExtern"@,
        TokenKind::KwImport => "KwImport"@,
        TokenKind::KwStruct => "KwStruct"@,
        TokenKind::KwEnum => "KwEnum"@,
        TokenKind::Dot => "Dot"@,
        TokenKind::At => "At"@,
        TokenKind::Comma => "Comma"@,
        TokenKind::Pipe => "Pipe"@,
        TokenKind::RightArrow => "RightArrow"@,
        TokenKind::Column => "Column"@,
        TokenKind::Coleq => "Coleq"@,
        TokenKind::Eq => "Eq"@,
        TokenKind::EqEq => "EqEq"@,
        TokenKind::OpenParen => "OpenParen"@,
        TokenKind::ClosedParen => "ClosedParen"@,
        TokenKind::OpenCurly => "OpenCurly"@,
        TokenKind::ClosedCurly => "ClosedCurly"@,
        TokenKind::OpenBracket => "OpenBracket"@,
        TokenKind::ClosedBracket => "ClosedBracket"@,
        TokenKind::Integer => "Integer"@,
        TokenKind::Identifier => "Identifier"@,
        TokenKind::String => "String"@,
        TokenKind::Add => "Add"@,
        TokenKind::Min => "Min"@,
        TokenKind::Mul => "Mul"@,
        TokenKind::Div => "Div"@,
        TokenKind::Caret => "Caret"@,
        TokenKind::Mod => "Mod"@,
        TokenKind::Not => "Not"@,
        TokenKind::UnclosedComment => "UnclosedComment"@,
        TokenKind::Comment => "Comment"@,
        TokenKind::DocComment => "DocComment"@,
        TokenKind::Whitespace => "Whitespace"@,
        TokenKind::NewLine => "NewLine"@,
        TokenKind::Unknown => "Unknown"@,
        TokenKind::EOF => "EOF"@,
    }
}

/// How a token kind is written in messages.
pub fn kind_name(k: TokenKind) -> (r: &'static str)
    ensures
        r@ == kind_text(k),
{
    match k {
        TokenKind::Tvoid => "Tvoid",
        TokenKind::Tbool => "Tbool",
        TokenKind::Ti8 => "Ti8",
        TokenKind::Ti16 => "Ti16",
        TokenKind::Ti32 => "Ti32",
        TokenKind::Ti64 => "Ti64",
        TokenKind::Ti128 => "Ti128",
        TokenKind::Tu8 => "Tu8",
        TokenKind::Tu16 => "Tu16",
        TokenKind::Tu32 => "Tu32",
        TokenKind::Tu64 => "Tu64",
        TokenKind::Tu128 => "Tu128",
        TokenKind::Tf32 => "Tf32",
        TokenKind::Tf64 => "Tf64",
        TokenKind::Tchar => "Tchar",
        TokenKind::Tstring => "Tstring",
        TokenKind::KwIf => "KwIf",
        TokenKind::KwMatch => "KwMatch",
        TokenKind::KwFn => "KwFn",
        TokenKind::KwExtern => "KwExtern",
        TokenKind::KwImport => "KwImport",
        TokenKind::KwStruct => "KwStruct",
        TokenKind::KwEnum => "KwEnum",
        TokenKind::Dot => "Dot",
        TokenKind::At => "At",
        TokenKind::Comma => "Comma",
        TokenKind::Pipe => "Pipe",
        TokenKind::RightArrow => "RightArrow",
        TokenKind::Column => "Column",
        TokenKind::Coleq => "Coleq",
        TokenKind::Eq => "Eq",
        TokenKind::EqEq => "EqEq",
        TokenKind::OpenParen => "OpenParen",
        TokenKind::ClosedParen => "ClosedParen",
        TokenKind::OpenCurly => "OpenCurly",
        TokenKind::ClosedCurly => "ClosedCurly",
        TokenKind::OpenBracket => "OpenBracket",
        TokenKind::ClosedBracket => "ClosedBracket",
        TokenKind::Integer => "Integer",
        TokenKind::Identifier => "Identifier",
        TokenKind::String => "String",
        TokenKind::Add => "Add",
        TokenKind::Min => "Min",
        TokenKind::Mul => "Mul",
        TokenKind::Div => "Div",
        TokenKind::Caret => "Caret",
        TokenKind::Mod => "Mod",
        TokenKind::Not => "Not",
        TokenKind::UnclosedComment => "UnclosedComment",
        TokenKind::Comment => "Comment",
        TokenKind::DocComment => "DocComment",
        TokenKind::Whitespace => "Whitespace",
        TokenKind::NewLine => "NewLine",
        TokenKind::Unknown => "Unknown",
        TokenKind::EOF => "EOF",
    }
}

fn copy_token(t: &Token) -> (r: Token)
    ensures
        r.kind == t.kind,
        r.span.start == t.span.start,
        r.span.end == t.span.end,
        r.span.literal@ == t.span.literal@,
        r.row == t.row,
        r.col == t.col,
{
    Token::new(
        t.kind,
        crate::lexer::Span::new(t.span.start, t.span.end, t.span.literal.clone()),
        t.row,
        t.col,
    )
}

/// An error at a token.
fn error_at(t: &Token, message: String) -> (r: ParseError)
    ensures
        r.message@ == message@,
        token_location(r.location, *t),
{
    let (start, end) = t.pos();
    ParseError::new(message, Location::new((start, end), (t.row, t.row)))
}

/// Whether `a` is a copy of token `b`: the same kind, span, text, row and column.
pub open spec fn same_token(a: Token, b: Token) -> bool {
    &&& a.kind == b.kind
    &&& a.span.start == b.span.start
    &&& a.span.end == b.span.end
    &&& a.span.literal@ == b.span.literal@
    &&& a.row == b.row
    &&& a.col == b.col
}

/// Whether the kinds of the tokens from `p` are those of `pat`.
pub open spec fn matches_at(t: Seq<Token>, p: int, pat: Seq<TokenKind>) -> bool {
    0 <= p && p + pat.len() <= t.len() && forall|i: int| 0 <= i < pat.len() ==> #[trigger] t[p
        + i].kind == pat[i]
}

/// Whether recovery from `start` stops at pattern `k` found at `p`: no pattern is found
/// between `start` and `p`, and none listed before `k` is found at `p`.
pub open spec fn stops_at(t: Seq<Token>, start: int, pats: Seq<Seq<TokenKind>>, k: int, p: int) -> bool {
    &&& 0 <= k < pats.len()
    &&& matches_at(t, p, pats[k])
    &&& forall|k2: int| 0 <= k2 < k ==> !matches_at(t, p, #[trigger] pats[k2])
    &&& forall|q: int, k2: int|
        start <= q < p && 0 <= k2 < pats.len() ==> !#[trigger] matches_at(t, q, pats[k2])
}

/// The message of a token of the wrong kind.
pub open spec fn expect_msg(expected: TokenKind, found: TokenKind) -> Seq<char> {
    "Expected "@ + kind_text(expected) + " but found "@ + kind_text(found)
}

impl Input {
    pub open spec fn wf(&self) -> bool {
        self.pos <= self.stream@.len()
    }

    /// The number of tokens not yet consumed.
    pub open spec fn rest(&self) -> int {
        self.stream@.len() - self.pos
    }

    /// Whether the input after a step still reads the same tokens, from no earlier a
    /// position, and keeps the import requests made before.
    pub open spec fn moved_on(&self, before: &Input) -> bool {
        &&& self.read_on(before)
        &&& self.requests == before.requests
    }

    /// Whether the input after a step reads the same tokens from no earlier a position;
    /// requests may have been added.
    pub open spec fn read_on(&self, before: &Input) -> bool {
        &&& self.wf()
        &&& self.stream == before.stream
        &&& self.pos >= before.pos
    }

    pub fn new(tokens: Vec<Token>) -> (r: Input)
        ensures
            r.wf(),
            r.stream == tokens,
            r.pos == 0,
            r.requests@.len() == 0,
    {
        Input { stream: tokens, pos: 0, prev_pos: (0, 0), prev_row: 0, requests: Vec::new() }
    }

    /// Takes the next token.
    pub fn eat(&mut self) -> (r: Option<Token>)
        requires
            old(self).wf(),
        ensures
            final(self).stream == old(self).stream,
            final(self).requests == old(self).requests,
            final(self).pos == if old(self).pos < usize::MAX {
                old(self).pos + 1
            } else {
                old(self).pos as int
            },
            old(self).pos < old(self).stream@.len() ==> final(self).moved_on(old(self))
                && final(self).pos == old(self).pos + 1 && r is Some && same_token(
                r->0,
                old(self).stream@[old(self).pos as int],
            )
                && r->0.kind == old(self).stream@[old(self).pos as int].kind
                && r->0.span.literal@ == old(self).stream@[old(self).pos as int].span.literal@
                && final(self).prev_pos == (
                old(self).stream@[old(self).pos as int].span.start,
                old(self).stream@[old(self).pos as int].span.end,
            ) && final(self).prev_row == old(self).stream@[old(self).pos as int].row,
            old(self).pos >= old(self).stream@.len() ==> r is None && final(self).prev_pos
                == old(self).prev_pos && final(self).prev_row == old(self).prev_row,
    {
        if self.pos >= self.stream.len() {
            if self.pos < usize::MAX {
                self.pos = self.pos + 1;
            }
            return None;
        }
        let tok = copy_token(&self.stream[self.pos]);
        self.prev_pos = tok.pos();
        self.prev_row = tok.row;
        self.pos = self.pos + 1;
        Some(tok)
    }

    /// Skips `x` tokens and reads the token there, when at least one more token follows it.
    pub fn eat_x(&mut self, x: usize) -> (r: Option<&Token>)
        requires
            old(self).wf(),
        ensures
            final(self).moved_on(old(self)),
            final(self).requests == old(self).requests,
            old(self).pos + x + 1 < old(self).stream@.len() ==> final(self).pos == old(self).pos
                + x && r == Some(&old(self).stream@[old(self).pos + x]),
            old(self).pos + x + 1 >= old(self).stream@.len() ==> final(self).pos == old(self).pos
                && r is None,
    {
        if x >= self.stream.len() || self.pos >= self.stream.len() - x || self.pos + x + 1
            >= self.stream.len() {
            return None;
        }
        self.pos = self.pos + x;
        Some(&self.stream[self.pos])
    }

    /// The token `x` places ahead.
    pub fn peek_x(&self, x: usize) -> (r: Option<&Token>)
        ensures
            self.pos + x < self.stream@.len() ==> r == Some(&self.stream@[self.pos + x]),
            self.pos + x >= self.stream@.len() ==> r is None,
    {
        if x >= self.stream.len() || self.pos >= self.stream.len() - x {
            None
        } else {
            Some(&self.stream[self.pos + x])
        }
    }

    /// The next token.
    pub fn peek(&self) -> (r: Option<&Token>)
        ensures
            self.pos < self.stream@.len() ==> r == Some(&self.stream@[self.pos as int]),
            self.pos >= self.stream@.len() ==> r is None,
    {
        if self.pos < self.stream.len() {
            Some(&self.stream[self.pos])
        } else {
            None
        }
    }

    /// The kind of the next token.
    pub fn peek_kind(&self) -> (r: Option<TokenKind>)
        ensures
            self.pos < self.stream@.len() ==> r == Some(self.stream@[self.pos as int].kind),
            self.pos >= self.stream@.len() ==> r is None,
    {
        match self.peek() {
            Some(t) => Some(t.kind),
            None => None,
        }
    }

    /// The next `x` tokens, when that many remain.
    pub fn peek_vec(&self, x: usize) -> (r: Option<Vec<&Token>>)
        ensures
            self.pos + x <= self.stream@.len() ==> r is Some && r->0@.len() == x && forall|i: int|
                0 <= i < x ==> r->0@[i] == &self.stream@[self.pos + i],
            self.pos + x > self.stream@.len() ==> r is None,
    {
        if x > self.stream.len() || self.pos > self.stream.len() - x {
            return None;
        }
        let mut results: Vec<&Token> = Vec::new();
        let mut i: usize = 0;
        let n = self.stream.len();
        while i < x
            invariant
                i <= x,
                n == self.stream@.len(),
                self.pos + x <= n,
                results@.len() == i,
                forall|j: int| 0 <= j < i ==> results@[j] == &self.stream@[self.pos + j],
            decreases x - i,
        {
            results.push(&self.stream[self.pos + i]);
            i = i + 1;
        }
        Some(results)
    }

    /// Whether the next tokens have the kinds of `pattern`, in order.
    pub fn match_pattern(&self, pattern: Vec<TokenKind>) -> (r: bool)
        ensures
            r == (self.pos + pattern@.len() <= self.stream@.len() && forall|i: int|
                0 <= i < pattern@.len() ==> self.stream@[self.pos + i].kind == pattern@[i]),
    {
        self.match_pattern_ref(&pattern)
    }

    /// Whether the next tokens have the kinds of `pattern`, in order.
    pub fn match_pattern_ref(&self, pattern: &Vec<TokenKind>) -> (r: bool)
        ensures
            r == (self.pos + pattern@.len() <= self.stream@.len() && forall|i: int|
                0 <= i < pattern@.len() ==> self.stream@[self.pos + i].kind == pattern@[i]),
    {
        let found = match self.peek_vec(pattern.len()) {
            Some(tks) => tks,
            None => {
                return false;
            },
        };
        let mut i: usize = 0;
        while i < pattern.len()
            invariant
                i <= pattern@.len(),
                found@.len() == pattern@.len(),
                self.pos + pattern@.len() <= self.stream@.len(),
                forall|j: int| 0 <= j < pattern@.len() ==> found@[j] == &self.stream@[self.pos + j],
                forall|j: int| 0 <= j < i ==> self.stream@[self.pos + j].kind == pattern@[j],
            decreases pattern.len() - i,
        {
            if found[i].kind != pattern[i] {
                return false;
            }
            i = i + 1;
        }
        true
    }

    /// Takes the next token if it has kind `kind`. Otherwise reports what was found and
    /// whether it starts a new statement, at which the caller should give up the current
    /// construct. At the end of input it yields `Ok(None)`.
    pub fn expect(&mut self, kind: TokenKind) -> (r: Result<Option<Token>, (ParseError, bool)>)
        requires
            old(self).wf(),
        ensures
            final(self).moved_on(old(self)),
            final(self).requests == old(self).requests,
            old(self).pos >= old(self).stream@.len() ==> r == Ok::<Option<Token>, (ParseError, bool)>(None) && final(self).pos == old(self).pos,
            old(self).pos < old(self).stream@.len() && old(self).stream@[old(self).pos as int].kind
                == kind ==> r is Ok && r->Ok_0 is Some && final(self).pos == old(self).pos + 1
                && same_token(r->Ok_0->0, old(self).stream@[old(self).pos as int])
                && (r->Ok_0->0).span.literal@ == old(self).stream@[old(self).pos as int].span.literal@,
            old(self).pos < old(self).stream@.len() && old(self).stream@[old(self).pos as int].kind
                != kind ==> r is Err && final(self).pos == old(self).pos && r->Err_0.1
                == crate::lexer::is_stmt_kind(old(self).stream@[old(self).pos as int].kind)
                && token_location(r->Err_0.0.location, old(self).stream@[old(self).pos as int])
                && r->Err_0.0.message@ == expect_msg(
                kind,
                old(self).stream@[old(self).pos as int].kind,
            ),
    {
        match self.peek() {
            Some(t) => {
                if t.kind == kind {
                    Ok(self.eat())
                } else {
                    let mut message = String::new();
                    message.append("Expected ");
                    message.append(kind_name(kind));
                    message.append(" but found ");
                    message.append(kind_name(t.kind));
                    assert(message@ =~= expect_msg(kind, t.kind));
                    let error = error_at(t, message);
                    Err((error, t.kind.is_stmt()))
                }
            },
            None => Ok(None),
        }
    }

    /// Skips tokens until one of `patterns` follows, then moves past that pattern and
    /// returns the token after it, or nothing when the input ends first. A pattern must
    /// not be empty.
    pub fn recover_to_stmt_breaks(&mut self, patterns: Vec<Vec<TokenKind>>) -> (r: Option<&Token>)
        requires
            old(self).wf(),
            forall|i: int| 0 <= i < patterns@.len() ==> (#[trigger] patterns@[i])@.len() > 0,
        ensures
            final(self).moved_on(old(self)),
            final(self).requests == old(self).requests,
            r is Some ==> final(self).pos < final(self).stream@.len() && r == Some(
                &final(self).stream@[final(self).pos as int],
            ),
            r is None ==> final(self).pos >= final(self).stream@.len(),
            (forall|q: int, k: int|
                old(self).pos <= q < old(self).stream@.len() && 0 <= k < patterns@.len()
                    ==> !#[trigger] matches_at(old(self).stream@, q, patterns@[k]@)) || exists|k: int|
                0 <= k < patterns@.len() && stops_at(
                    old(self).stream@,
                    old(self).pos as int,
                    patterns@.map_values(|p: Vec<TokenKind>| p@),
                    k,
                    final(self).pos - patterns@[k]@.len(),
                ) && final(self).pos - patterns@[k]@.len() >= old(self).pos,
    {
        let ghost pats = patterns@.map_values(|p: Vec<TokenKind>| p@);
        loop
            invariant
                self.moved_on(old(self)),
                self.requests == old(self).requests,
                forall|i: int| 0 <= i < patterns@.len() ==> (#[trigger] patterns@[i])@.len() > 0,
                pats == patterns@.map_values(|p: Vec<TokenKind>| p@),
                forall|q: int, k: int|
                    old(self).pos <= q < self.pos && 0 <= k < patterns@.len() ==> !#[trigger] matches_at(
                        old(self).stream@,
                        q,
                        patterns@[k]@,
                    ),
            decreases self.rest(),
        {
            if self.pos >= self.stream.len() {
                return None;
            }
            let mut i: usize = 0;
            let mut hit: Option<usize> = None;
            while i < patterns.len()
                invariant
                    i <= patterns@.len(),
                    hit is None ==> forall|k: int| 0 <= k < i ==> !matches_at(
                        self.stream@,
                        self.pos as int,
                        #[trigger] patterns@[k]@,
                    ),
                    hit is Some ==> hit->0 > 0 && self.pos + hit->0 <= self.stream@.len() && i
                        < patterns@.len() && hit->0 == patterns@[i as int]@.len() && matches_at(
                        self.stream@,
                        self.pos as int,
                        patterns@[i as int]@,
                    ) && forall|k: int| 0 <= k < i ==> !matches_at(
                        self.stream@,
                        self.pos as int,
                        #[trigger] patterns@[k]@,
                    ),
                    forall|j: int| 0 <= j < patterns@.len() ==> (#[trigger] patterns@[j])@.len() > 0,
                ensures
                    hit is None ==> i >= patterns@.len(),
                decreases patterns.len() - i,
            {
                if self.match_pattern_ref(&patterns[i]) {
                    hit = Some(patterns[i].len());
                    break;
                }
                i = i + 1;
            }
            match hit {
                Some(n) => {
                    let at = self.pos + n;
                    let ghost p0 = self.pos as int;
                    self.pos = at;
                    proof {
                        assert(pats[i as int] == patterns@[i as int]@);
                        assert(stops_at(old(self).stream@, old(self).pos as int, pats, i as int, p0)) by {
                            assert forall|k: int| 0 <= k < i implies !matches_at(
                                old(self).stream@,
                                p0,
                                #[trigger] pats[k],
                            ) by {
                                assert(pats[k] == patterns@[k]@);
                            }
                            assert forall|q: int, k: int|
                                old(self).pos <= q < p0 && 0 <= k < pats.len() implies !#[trigger] matches_at(
                                old(self).stream@,
                                q,
                                pats[k],
                            ) by {
                                assert(pats[k] == patterns@[k]@);
                            }
                        }
                    }
                    if at < self.stream.len() {
                        return Some(&self.stream[at]);
                    }
                    return None;
                },
                None => {
                    let ghost cur = self.pos as int;
                    assert(forall|k: int| 0 <= k < patterns@.len() ==> !matches_at(
                        self.stream@,
                        cur,
                        #[trigger] patterns@[k]@,
                    ));
                    self.eat();
                    proof {
                        assert forall|q: int, k: int|
                            old(self).pos <= q < self.pos && 0 <= k < patterns@.len() implies !#[trigger] matches_at(
                            old(self).stream@,
                            q,
                            patterns@[k]@,
                        ) by {
                            if q == cur {
                                assert(!matches_at(old(self).stream@, cur, patterns@[k]@));
                            }
                        }
                    }
                },
            }
        }
    }

}

fn loc_from(input: &Input, start: usize, start_row: usize) -> (r: Location)
    ensures
        r.span == (start, input.prev_pos.1),
        r.rows == (start_row, input.prev_row),
{
    Location::new((start, input.prev_pos.1), (start_row, input.prev_row))
}

fn message(text: &str) -> (r: String)
    ensures
        r@ == text@,
{
    String::from_str(text)
}

/// The value of a string of decimal digits.
pub open spec fn digits_value(s: Seq<char>) -> int
    decreases s.len(),
{
    if s.len() == 0 {
        0
    } else {
        digits_value(s.drop_last()) * 10 + (s.last() as int - '0' as int)
    }
}

pub open spec fn all_digits(s: Seq<char>) -> bool {
    forall|i: int| 0 <= i < s.len() ==> crate::lexer::is_digit(#[trigger] s[i])
}

/// Reads a non-empty string of decimal digits; `None` when it is empty, holds another
/// character, or is too large for an `i128`.
pub fn parse_int(text: &String) -> (r: Option<i128>)
    ensures
        r is Some <==> (text@.len() > 0 && all_digits(text@) && digits_value(text@)
            <= i128::MAX),
        r is Some ==> r->0 as int == digits_value(text@),
{
    let n = text.as_str().unicode_len();
    if n == 0 {
        return None;
    }
    let mut value: i128 = 0;
    let mut i: usize = 0;
    while i < n
        invariant
            n == text@.len(),
            i <= n,
            all_digits(text@.subrange(0, i as int)),
            value as int == digits_value(text@.subrange(0, i as int)),
            0 <= value,
        decreases n - i,
    {
        let c = text.as_str().get_char(i);
        proof {
            assert(text@.subrange(0, i + 1).drop_last() =~= text@.subrange(0, i as int));
        }
        if !('0' <= c && c <= '9') {
            proof {
                assert(!crate::lexer::is_digit(text@[i as int]));
            }
            return None;
        }
        let d = (c as u32 - '0' as u32) as i128;
        if value > (i128::MAX - d) / 10 {
            proof {
                lemma_digits_grow(text@, (i + 1) as int, n as int);
                assert(digits_value(text@.subrange(0, i + 1)) > i128::MAX) by (nonlinear_arith)
                    requires
                        value > (i128::MAX - d) / 10,
                        digits_value(text@.subrange(0, i + 1)) == value * 10 + d,
                        0 <= d < 10,
                ;
                assert(text@.subrange(0, n as int) =~= text@);
            }
            return None;
        }
        value = value * 10 + d;
        i = i + 1;
        proof {
            assert(all_digits(text@.subrange(0, i as int)));
        }
    }
    proof {
        assert(text@.subrange(0, n as int) =~= text@);
    }
    Some(value)
}

proof fn lemma_digits_grow(s: Seq<char>, i: int, n: int)
    requires
        0 <= i <= n <= s.len(),
        all_digits(s.subrange(0, n)) || !all_digits(s.subrange(0, n)),
    ensures
        all_digits(s.subrange(0, n)) ==> digits_value(s.subrange(0, n)) >= digits_value(
            s.subrange(0, i),
        ),
    decreases n - i,
{
    if i < n && all_digits(s.subrange(0, n)) {
        lemma_digits_grow(s, i + 1, n);
        assert(s.subrange(0, i + 1).drop_last() =~= s.subrange(0, i));
        assert(crate::lexer::is_digit(s.subrange(0, n)[i]));
        assert(digits_value(s.subrange(0, i)) >= 0) by {
            lemma_digits_nonneg(s.subrange(0, i));
        }
        assert(digits_value(s.subrange(0, i + 1)) >= digits_value(s.subrange(0, i)));
    }
}

proof fn lemma_digits_nonneg(s: Seq<char>)
    requires
        all_digits(s),
    ensures
        digits_value(s) >= 0,
    decreases s.len(),
{
    if s.len() > 0 {
        assert(all_digits(s.drop_last()));
        lemma_digits_nonneg(s.drop_last());
    }
}

/// The decimal text of a number reads back as that number: an integer token written as
/// `decimal(n)` is parsed to `n`, which the checker writes out as `decimal(n)` again.
pub proof fn lemma_decimal_round_trip(n: nat)
    ensures
        all_digits(crate::text::decimal(n)),
        crate::text::decimal(n).len() > 0,
        digits_value(crate::text::decimal(n)) == n,
    decreases n,
{
    let d = crate::text::decimal(n);
    let last = n % 10;
    assert(crate::text::digit(last) as int - '0' as int == last && crate::lexer::is_digit(
        crate::text::digit(last),
    )) by {
        assert(last < 10);
    }
    if n < 10 {
        assert(d == seq![crate::text::digit(n)]);
        assert(d.drop_last() =~= Seq::<char>::empty());
        assert(digits_value(Seq::<char>::empty()) == 0);
        assert(digits_value(d) == digits_value(d.drop_last()) * 10 + (d.last() as int - '0' as int));
    } else {
        lemma_decimal_round_trip(n / 10);
        let prev = crate::text::decimal(n / 10);
        assert(d == prev.push(crate::text::digit(n % 10)));
        assert(d.drop_last() =~= prev);
        assert(forall|i: int| 0 <= i < prev.len() ==> d[i] == prev[i]);
        assert(n == (n / 10) * 10 + n % 10);
        assert(d.last() == crate::text::digit(last));
        assert(digits_value(d) == digits_value(prev) * 10 + (d.last() as int - '0' as int));
    }
}

/// An integer token written `decimal(n)` is read as `n`, and a statement made of it is
/// checked into the one-item stream whose literal is written `decimal(n)` again.
pub proof fn lemma_int_token_round_trip(n: nat)
    requires
        n <= i128::MAX,
    ensures
        int_value(crate::text::decimal(n)) == Some(n as int),
        crate::text::signed_decimal(n as int) == crate::text::decimal(n),
{
    lemma_decimal_round_trip(n);
}

/// Parses a dotted name such as `std.fs.open`. The next token must be an identifier.
pub fn name(input: &mut Input) -> (r: ParseResult<Name>)
    requires
        old(input).wf(),
        old(input).pos < old(input).stream@.len(),
    ensures
        final(input).moved_on(old(input)),
        final(input).requests == old(input).requests,
        final(input).pos > old(input).pos,
        r.0.name@.len() >= 1,
        r.0.name@[0]@ == old(input).stream@[old(input).pos as int].span.literal@,
        !r.2,
        (crate::ast::views(r.0.name@), final(input).pos as int) == p_name(
            old(input).stream@,
            old(input).pos as int,
        ),
        r.1@.len() == if name_dot_rest(old(input).stream@, old(input).pos + 1) {
            1int
        } else {
            0int
        },
{
    let mut errors: Vec<ParseError> = Vec::new();
    let mut names: Vec<String> = Vec::new();
    let first = match input.eat() {
        Some(t) => t,
        None => {
            return (Name::new(names, Location::default()), errors, true);
        },
    };
    let (start, _) = first.pos();
    let start_row = first.row;
    names.push(first.literal());
    proof {
        assert(crate::ast::views(names@) =~= seq![old(input).stream@[old(input).pos as int].span.literal@]);
    }
    loop
        invariant_except_break
            p_name_rest(input.stream@, input.pos as int, crate::ast::views(names@)) == p_name(
                old(input).stream@,
                old(input).pos as int,
            ),
            name_dot_rest(input.stream@, input.pos as int) == name_dot_rest(
                old(input).stream@,
                old(input).pos + 1,
            ),
            errors@.len() == 0,
        invariant
            input.moved_on(old(input)),
            input.requests == old(input).requests,
            input.pos > old(input).pos,
            names@.len() >= 1,
            names@[0]@ == old(input).stream@[old(input).pos as int].span.literal@,
        ensures
            (crate::ast::views(names@), input.pos as int) == p_name(
                old(input).stream@,
                old(input).pos as int,
            ),
            errors@.len() == if name_dot_rest(old(input).stream@, old(input).pos + 1) {
                1int
            } else {
                0int
            },
        decreases input.rest(),
    {
        let kind = match input.peek_kind() {
            Some(k) => k,
            None => break,
        };
        if pair_follows(input, TokenKind::Dot, TokenKind::Identifier) {
            let ghost acc = crate::ast::views(names@);
            input.eat();
            match input.eat() {
                Some(t) => names.push(t.literal()),
                None => {},
            }
            proof {
                assert(crate::ast::views(names@) =~= acc.push(names@.last()@));
            }
        } else if kind == TokenKind::Dot {
            input.eat();
            let location = loc_from(input, start, start_row);
            errors.push(
                ParseError::new(message("Name ended in a dot instead of an identifier."), location),
            );
            break;
        } else {
            break;
        }
    }
    let location = loc_from(input, start, start_row);
    (Name::new(names, location), errors, false)
}

/// The rest of a list of identifiers from token `j`, after the identifiers `acc`.
pub open spec fn p_ident_rest(t: Seq<Token>, j: int, acc: Seq<Seq<char>>) -> (Seq<Seq<char>>, int)
    decreases t.len() - j,
{
    if j < 0 || j >= t.len() {
        (acc, j)
    } else if t[j].kind == TokenKind::Comma && kind_at(t, j + 1) == Some(TokenKind::Identifier) {
        p_ident_rest(t, j + 2, acc.push(t[j + 1].span.literal@))
    } else if t[j].kind == TokenKind::Comma {
        (acc, j + 1)
    } else if t[j].kind == TokenKind::Identifier {
        p_ident_rest(t, j + 1, acc.push(t[j].span.literal@))
    } else {
        (acc, j)
    }
}

/// A list of identifiers separated by commas at token `i`: the identifiers and where the
/// list ends.
pub open spec fn p_idents(t: Seq<Token>, i: int) -> (Seq<Seq<char>>, int) {
    if 0 <= i < t.len() && t[i].kind == TokenKind::Identifier {
        p_ident_rest(t, i + 1, seq![t[i].span.literal@])
    } else {
        p_ident_rest(t, i, Seq::empty())
    }
}

/// Parses identifiers separated by commas.
pub fn separated_identifiers(input: &mut Input) -> (r: ParseResult<Vec<String>>)
    requires
        old(input).wf(),
    ensures
        final(input).moved_on(old(input)),
        final(input).requests == old(input).requests,
        r.2 <==> old(input).pos >= old(input).stream@.len(),
        (crate::ast::views(r.0@), final(input).pos as int) == p_idents(
            old(input).stream@,
            old(input).pos as int,
        ),
        r.1@.len() == idents_errs(old(input).stream@, old(input).pos as int),
{
    let mut product: Vec<String> = Vec::new();
    let mut errors: Vec<ParseError> = Vec::new();
    match input.peek() {
        Some(t) => {
            if t.kind == TokenKind::Identifier {
                let lit = t.literal();
                input.eat();
                product.push(lit);
            } else {
                errors.push(error_at(t, message("Expected an identifier at the start of list.")));
            }
        },
        None => {
            return (product, errors, true);
        },
    }
    proof {
        assert(crate::ast::views(product@) =~= if old(input).stream@[old(input).pos as int].kind
            == TokenKind::Identifier {
            seq![old(input).stream@[old(input).pos as int].span.literal@]
        } else {
            Seq::<Seq<char>>::empty()
        });
    }
    loop
        invariant_except_break
            p_ident_rest(input.stream@, input.pos as int, crate::ast::views(product@)) == p_idents(
                old(input).stream@,
                old(input).pos as int,
            ),
            errors@.len() + idents_err_rest(input.stream@, input.pos as int) == idents_errs(
                old(input).stream@,
                old(input).pos as int,
            ),
        invariant
            input.moved_on(old(input)),
            input.requests == old(input).requests,
        ensures
            (crate::ast::views(product@), input.pos as int) == p_idents(
                old(input).stream@,
                old(input).pos as int,
            ),
            errors@.len() == idents_errs(old(input).stream@, old(input).pos as int),
        decreases input.rest(),
    {
        let kind = match input.peek_kind() {
            Some(k) => k,
            None => break,
        };
        let ghost acc = crate::ast::views(product@);
        if pair_follows(input, TokenKind::Comma, TokenKind::Identifier) {
            input.eat();
            match input.eat() {
                Some(t) => product.push(t.literal()),
                None => {},
            }
            proof {
                assert(crate::ast::views(product@) =~= acc.push(product@.last()@));
            }
        } else if kind == TokenKind::Comma {
            match input.eat() {
                Some(comma) => {
                    errors.push(
                        error_at(
                            &comma,
                            message(
                                "Got a `,` at the end of list, expected a `,` and an `identifier`.",
                            ),
                        ),
                    );
                },
                None => {},
            }
            break;
        } else if kind == TokenKind::Identifier {
            match input.eat() {
                Some(ident) => {
                    product.push(ident.literal());
                    proof {
                        assert(crate::ast::views(product@) =~= acc.push(product@.last()@));
                    }
                    errors.push(
                        error_at(
                            &ident,
                            message("Expected a comma and an identifier, got `identifier`"),
                        ),
                    );
                },
                None => {},
            }
        } else {
            break;
        }
    }
    (product, errors, false)
}

/// Parses the left side of a variable statement: one identifier, or a list of them in
/// braces.
pub fn var_lhs(input: &mut Input) -> (r: ParseResult<VarLhs>)
    requires
        old(input).wf(),
    ensures
        final(input).moved_on(old(input)),
        final(input).requests == old(input).requests,
        old(input).pos < old(input).stream@.len() && (old(input).stream@[old(input).pos as int].kind
            == TokenKind::Identifier || old(input).stream@[old(input).pos as int].kind
            == TokenKind::OpenCurly) ==> final(input).pos > old(input).pos,
        old(input).pos < old(input).stream@.len() && old(input).stream@[old(input).pos as int].kind
            == TokenKind::Identifier ==> r.0.name@.len() == 1 && r.0.name@[0]@ == old(
            input,
        ).stream@[old(input).pos as int].span.literal@ && r.1@.len() == 0 && !r.2
            && final(input).pos == old(input).pos + 1,
        (crate::ast::views(r.0.name@), final(input).pos as int, r.2) == p_var_lhs(
            old(input).stream@,
            old(input).pos as int,
        ),
        old(input).pos < old(input).stream@.len() && old(input).stream@[old(input).pos as int].kind
            == TokenKind::Identifier ==> token_location(r.0.location, old(input).stream@[old(input).pos as int]),
{
    let (first_kind, first_pos, first_row) = match input.peek() {
        Some(t) => (t.kind, t.pos(), t.row),
        None => {
            return (VarLhs::default(), Vec::new(), true);
        },
    };
    if first_kind == TokenKind::OpenCurly {
        input.eat();
        let (product, mut errors, _) = separated_identifiers(input);
        let mut lhs = VarLhs::default();
        lhs.name = product;
        return match input.peek() {
            Some(t) => {
                if t.kind == TokenKind::ClosedCurly {
                    input.eat();
                    lhs.location = loc_from(input, first_pos.0, first_row);
                    (lhs, errors, false)
                } else {
                    let mut text = String::new();
                    text.append("Expected `}` at the end of list but found `");
                    text.append(kind_name(t.kind));
                    text.append("`.");
                    errors.push(error_at(t, text));
                    lhs.location = loc_from(input, first_pos.0, first_row);
                    (lhs, errors, false)
                }
            },
            None => (lhs, errors, true),
        };
    }
    if first_kind == TokenKind::Identifier {
        let mut lhs = VarLhs::default();
        let mut names: Vec<String> = Vec::new();
        match input.eat() {
            Some(t) => names.push(t.literal()),
            None => {},
        }
        lhs.name = names;
        lhs.location = Location::new(first_pos, (first_row, first_row));
        return (lhs, Vec::new(), false);
    }
    let mut errors: Vec<ParseError> = Vec::new();
    errors.push(
        ParseError::new(
            message("Expected an identifier at the start of list."),
            Location::new(first_pos, (first_row, first_row)),
        ),
    );
    (VarLhs::default(), errors, false)
}

/// An error at the next token, or at the last one taken when the input has ended.
fn error_here(input: &Input, text: &str) -> (r: ParseError)
    ensures
        r.message@ == text@,
{
    match input.peek() {
        Some(t) => error_at(t, message(text)),
        None => ParseError::new(
            message(text),
            Location::new(input.prev_pos, (input.prev_row, input.prev_row)),
        ),
    }
}

// Types.
/// The type a builtin type token names.
pub open spec fn builtin_ty(k: TokenKind) -> Option<crate::ast::Ty> {
    match k {
        TokenKind::Tvoid => Some(crate::ast::Ty::Void),
        TokenKind::Tbool => Some(crate::ast::Ty::Bool),
        TokenKind::Tstring => Some(crate::ast::Ty::String),
        TokenKind::Ti8 => Some(crate::ast::Ty::I8),
        TokenKind::Ti16 => Some(crate::ast::Ty::I16),
        TokenKind::Ti32 => Some(crate::ast::Ty::I32),
        TokenKind::Ti64 => Some(crate::ast::Ty::I64),
        TokenKind::Ti128 => Some(crate::ast::Ty::I128),
        TokenKind::Tu8 => Some(crate::ast::Ty::U8),
        TokenKind::Tu16 => Some(crate::ast::Ty::U16),
        TokenKind::Tu32 => Some(crate::ast::Ty::U32),
        TokenKind::Tu64 => Some(crate::ast::Ty::U64),
        TokenKind::Tu128 => Some(crate::ast::Ty::U128),
        TokenKind::Tf32 => Some(crate::ast::Ty::F32),
        TokenKind::Tf64 => Some(crate::ast::Ty::F64),
        _ => None,
    }
}

// The value of parsed statements.
/// The left side of a variable statement at token `i`: its names, where it ends, and
/// whether the input ended first.
pub open spec fn p_var_lhs(t: Seq<Token>, i: int) -> (Seq<Seq<char>>, int, bool) {
    if i < 0 || i >= t.len() {
        (Seq::empty(), i, true)
    } else if t[i].kind == TokenKind::OpenCurly {
        let ids = p_idents(t, i + 1);
        if ids.1 < 0 || ids.1 >= t.len() {
            (ids.0, ids.1, true)
        } else if t[ids.1].kind == TokenKind::ClosedCurly {
            (ids.0, ids.1 + 1, false)
        } else {
            (ids.0, ids.1, false)
        }
    } else if t[i].kind == TokenKind::Identifier {
        (seq![t[i].span.literal@], i + 1, false)
    } else {
        (Seq::empty(), i, false)
    }
}

/// A variable statement at token `i`.
pub open spec fn p_var(t: Seq<Token>, i: int) -> (SShape, int, bool)
    decreases t.len() - i, 11int,
{
    let l = p_var_lhs(t, i);
    let none = SShape::Var(Seq::empty(), false, crate::ast::Ty::Void, Shape::Void);
    if l.2 {
        (none, l.1, true)
    } else if l.1 < i {
        (none, l.1, false)
    } else {
        match kind_at(t, l.1) {
            Some(TokenKind::Column) => {
                let x = p_type(t, l.1 + 1);
                (SShape::Var(l.0, true, x.0, Shape::Void), x.1, x.2)
            },
            Some(TokenKind::Eq) => {
                let x = p_expression(t, l.1 + 1);
                (SShape::Var(l.0, false, crate::ast::Ty::Void, x.0), x.1, x.2)
            },
            Some(TokenKind::Coleq) => {
                let x = p_expression(t, l.1 + 1);
                (SShape::Var(l.0, true, crate::ast::Ty::Void, x.0), x.1, x.2)
            },
            Some(_) => (SShape::Var(l.0, false, crate::ast::Ty::Void, Shape::Void), l.1, false),
            None => (SShape::Var(l.0, false, crate::ast::Ty::Void, Shape::Void), l.1, true),
        }
    }
}

/// The parameters of a function literal from token `j`, after the names `args`: the
/// names, where they end, and how the list ended: 0 at its closing parenthesis, 1 with
/// the input, 2 at a token that starts a statement.
pub open spec fn p_fparams(t: Seq<Token>, j: int, args: Seq<Seq<char>>) -> (Seq<Seq<char>>, int, int)
    decreases t.len() - j,
{
    if j < 0 || j >= t.len() {
        (args, j, 1)
    } else if t[j].kind == TokenKind::ClosedParen {
        (args, j + 1, 0)
    } else if t[j].kind == TokenKind::Comma {
        p_fparams(t, j + 1, args)
    } else if t[j].kind == TokenKind::Identifier {
        p_fparams(t, j + 1, args.push(t[j].span.literal@))
    } else if crate::lexer::is_stmt_kind(t[j].kind) {
        (args, j, 2)
    } else {
        p_fparams(t, j + 1, args)
    }
}

/// A function literal at token `i`: its parameter names, its statements, where it ends,
/// and whether the input ended first.
pub open spec fn p_fexpr(t: Seq<Token>, i: int) -> (Seq<Seq<char>>, Seq<SShape>, int, bool)
    decreases t.len() - i, 9int,
{
    let e: Seq<Seq<char>> = Seq::empty();
    let none: Seq<SShape> = Seq::empty();
    if i < 0 || i >= t.len() {
        (e, none, i, true)
    } else {
        let j = i + 1;
        if j >= t.len() {
            (e, none, j, true)
        } else if t[j].kind != TokenKind::OpenParen && crate::lexer::is_stmt_kind(t[j].kind) {
            (e, none, j, false)
        } else {
            let ps = p_fparams(t, j + 1, e);
            if ps.2 == 1 {
                (ps.0, none, ps.1, true)
            } else if ps.2 == 2 {
                (ps.0, none, ps.1, false)
            } else {
                match kind_at(t, ps.1) {
                    Some(TokenKind::OpenCurly) => if ps.1 <= i {
                        (ps.0, none, ps.1, false)
                    } else {
                        let b = p_block(t, ps.1);
                        (ps.0, b.0, b.1, b.2)
                    },
                    Some(_) => (ps.0, none, ps.1, false),
                    None => (ps.0, none, ps.1, true),
                }
            }
        }
    }
}

/// Whether the function literal at token `i` reaches its parameter list.
pub open spec fn fexpr_head_ok(t: Seq<Token>, i: int) -> bool {
    0 <= i && i + 1 < t.len() && !(t[i + 1].kind != TokenKind::OpenParen
        && crate::lexer::is_stmt_kind(t[i + 1].kind))
}

/// An expression at token `i`: a function literal or an arithmetic expression.
pub open spec fn p_expression(t: Seq<Token>, i: int) -> (Shape, int, bool)
    decreases t.len() - i, 10int,
{
    if kind_at(t, i) == Some(TokenKind::KwFn) {
        let f = p_fexpr(t, i);
        (Shape::Func(f.0, f.1), f.2, f.3)
    } else {
        p_expr(t, i)
    }
}

/// Whether a variable statement starts at token `i`.
pub open spec fn var_starts(t: Seq<Token>, i: int) -> bool {
    i + 2 <= t.len() && ((t[i].kind == TokenKind::Identifier && (t[i + 1].kind
        == TokenKind::Coleq || t[i + 1].kind == TokenKind::Column || t[i + 1].kind
        == TokenKind::Eq)) || (t[i].kind == TokenKind::OpenCurly && t[i + 1].kind
        == TokenKind::Identifier))
}

/// A statement at token `i`, which must exist.
pub open spec fn p_stmt(t: Seq<Token>, i: int) -> (SShape, int, bool)
    decreases t.len() - i, 12int,
{
    if i < 0 || i >= t.len() {
        (SShape::Expr(Shape::Void), i, true)
    } else if var_starts(t, i) {
        p_var(t, i)
    } else if crate::lexer::starts_expr_stmt(t[i].kind) {
        let x = p_expression(t, i);
        (SShape::Expr(x.0), x.1, x.2)
    } else if t[i].kind == TokenKind::DocComment {
        (SShape::Doc(t[i].span.literal@), i + 1, false)
    } else {
        (SShape::Expr(Shape::Void), i + 1, false)
    }
}

/// The rest of a block from token `j`, after the statements `acc`.
pub open spec fn p_block_rest(t: Seq<Token>, j: int, acc: Seq<SShape>) -> (Seq<SShape>, int, bool)
    decreases t.len() - j, 13int,
{
    if j < 0 || j >= t.len() {
        (acc, j, true)
    } else if t[j].kind == TokenKind::ClosedCurly {
        (acc, j + 1, false)
    } else {
        let s = p_stmt(t, j);
        if s.2 {
            (acc.push(s.0), s.1, true)
        } else if s.1 <= j || s.1 > t.len() {
            (acc.push(s.0), s.1, false)
        } else {
            p_block_rest(t, s.1, acc.push(s.0))
        }
    }
}

/// A block at token `i`: its opening brace, statements, and closing brace.
pub open spec fn p_block(t: Seq<Token>, i: int) -> (Seq<SShape>, int, bool)
    decreases t.len() - i, 14int,
{
    if i < 0 || i >= t.len() {
        (Seq::empty(), i, true)
    } else {
        p_block_rest(t, i + 1, Seq::empty())
    }
}

// The value of parsed types.
/// The parameters of a function type from token `j`, after those read so far (`named`
/// for an extern, `plain` otherwise): the parameters, where the list ends, and whether
/// the input ended first.
pub open spec fn p_params(
    t: Seq<Token>,
    j: int,
    ext: bool,
    named: Seq<(Seq<char>, crate::ast::Ty)>,
    plain: Seq<crate::ast::Ty>,
) -> (Seq<(Seq<char>, crate::ast::Ty)>, Seq<crate::ast::Ty>, int, bool)
    decreases t.len() - j, 4int,
{
    if j < 0 || j >= t.len() {
        (named, plain, j, true)
    } else if t[j].kind == TokenKind::ClosedParen {
        (named, plain, j + 1, false)
    } else if t[j].kind == TokenKind::Comma {
        p_params(t, j + 1, ext, named, plain)
    } else {
        let has_name = ext && t[j].kind == TokenKind::Identifier;
        let nm = if has_name {
            t[j].span.literal@
        } else {
            Seq::empty()
        };
        let j1 = if has_name {
            j + 1
        } else {
            j
        };
        let j2 = if ext && kind_at(t, j1) == Some(TokenKind::Column) {
            j1 + 1
        } else {
            j1
        };
        let x = p_type(t, j2);
        let named2 = if ext {
            named.push((nm, x.0))
        } else {
            named
        };
        let plain2 = if ext {
            plain
        } else {
            plain.push(x.0)
        };
        if x.2 {
            (named2, plain2, x.1, true)
        } else {
            let j3 = if x.1 == j {
                j + 1
            } else {
                x.1
            };
            if j3 <= j || j3 > t.len() {
                (named2, plain2, j3, false)
            } else {
                p_params(t, j3, ext, named2, plain2)
            }
        }
    }
}

/// A function type at token `i`: `fn(T ...) R` or `extern fn(name: T, ...) R`.
pub open spec fn p_ftype(t: Seq<Token>, i: int) -> (crate::ast::Ty, int, bool)
    decreases t.len() - i, 2int,
{
    if i < 0 || i >= t.len() {
        (crate::ast::Ty::Void, i, true)
    } else {
        let ext = t[i].kind == TokenKind::KwExtern;
        let j0 = if ext {
            i + 1
        } else {
            i
        };
        if j0 >= t.len() {
            (crate::ast::Ty::Void, j0, true)
        } else {
            let j1 = if t[j0].kind == TokenKind::KwFn {
                j0 + 1
            } else {
                j0
            };
            if j1 >= t.len() {
                (crate::ast::Ty::Void, j1, true)
            } else if t[j1].kind != TokenKind::OpenParen {
                (crate::ast::Ty::Undefined, j1, false)
            } else {
                let ps = p_params(t, j1 + 1, ext, Seq::empty(), Seq::empty());
                if ps.3 {
                    (crate::ast::Ty::Void, ps.2, true)
                } else if ps.2 <= i || ps.2 > t.len() {
                    (crate::ast::Ty::Void, ps.2, true)
                } else {
                    let r = p_type(t, ps.2);
                    (
                        if ext {
                            crate::ast::Ty::ExFunc(ps.0, Box::new(r.0))
                        } else {
                            crate::ast::Ty::Func(ps.1, Box::new(r.0), false)
                        },
                        r.1,
                        r.2,
                    )
                }
            }
        }
    }
}

/// An array type at token `i`: `[T]`.
pub open spec fn p_array(t: Seq<Token>, i: int) -> (crate::ast::Ty, int, bool)
    decreases t.len() - i, 2int,
{
    if i < 0 || i >= t.len() {
        (crate::ast::Ty::Array(Box::new(crate::ast::Ty::Void)), i, true)
    } else if t[i].kind != TokenKind::OpenBracket {
        (crate::ast::Ty::Array(Box::new(crate::ast::Ty::Void)), i, false)
    } else {
        let x = p_type(t, i + 1);
        if x.2 {
            (crate::ast::Ty::Array(Box::new(x.0)), x.1, true)
        } else if kind_at(t, x.1) == Some(TokenKind::ClosedBracket) {
            (crate::ast::Ty::Array(Box::new(x.0)), x.1 + 1, false)
        } else {
            (crate::ast::Ty::Array(Box::new(x.0)), x.1, false)
        }
    }
}

/// A type at token `i`: its value, where it ends, and whether the input ended first.
pub open spec fn p_type(t: Seq<Token>, i: int) -> (crate::ast::Ty, int, bool)
    decreases t.len() - i, 3int,
{
    if i < 0 || i >= t.len() {
        (crate::ast::Ty::Void, i, true)
    } else {
        let k = t[i].kind;
        if k == TokenKind::Mul {
            let x = p_type(t, i + 1);
            if x.2 {
                (crate::ast::Ty::Void, x.1, true)
            } else {
                (crate::ast::Ty::Ptr(Box::new(x.0)), x.1, false)
            }
        } else if k == TokenKind::OpenBracket {
            let x = p_array(t, i);
            if x.2 {
                (crate::ast::Ty::Void, x.1, true)
            } else {
                x
            }
        } else if k == TokenKind::KwFn || k == TokenKind::KwExtern {
            let x = p_ftype(t, i);
            if x.2 {
                (crate::ast::Ty::Void, x.1, true)
            } else {
                x
            }
        } else if k == TokenKind::Identifier {
            (crate::ast::Ty::Custom(t[i].span.literal@), i + 1, false)
        } else {
            match builtin_ty(k) {
                Some(b) => (b, i + 1, false),
                None => (crate::ast::Ty::Undefined, i, false),
            }
        }
    }
}

/// The errors of the parameters of a function type from token `j`.
pub open spec fn e_params(t: Seq<Token>, j: int, ext: bool) -> nat
    decreases t.len() - j, 4int,
{
    if j < 0 || j >= t.len() {
        0
    } else if t[j].kind == TokenKind::ClosedParen {
        0
    } else if t[j].kind == TokenKind::Comma {
        e_params(t, j + 1, ext)
    } else {
        let has_name = ext && t[j].kind == TokenKind::Identifier;
        let j1 = if has_name {
            j + 1
        } else {
            j
        };
        let name_err: nat = if ext && !has_name {
            1
        } else {
            0
        };
        let col_err: nat = if ext && 0 <= j1 < t.len() && t[j1].kind != TokenKind::Column {
            1
        } else {
            0
        };
        let j2 = if ext && kind_at(t, j1) == Some(TokenKind::Column) {
            j1 + 1
        } else {
            j1
        };
        let x = p_type(t, j2);
        let here = name_err + col_err + e_type(t, j2);
        if x.2 {
            here
        } else {
            let j3 = if x.1 == j {
                j + 1
            } else {
                x.1
            };
            if j3 <= j || j3 > t.len() {
                here
            } else {
                here + e_params(t, j3, ext)
            }
        }
    }
}

/// The errors of a function type at token `i`.
pub open spec fn e_ftype(t: Seq<Token>, i: int) -> nat
    decreases t.len() - i, 2int,
{
    if i < 0 || i >= t.len() {
        0
    } else {
        let ext = t[i].kind == TokenKind::KwExtern;
        let j0 = if ext {
            i + 1
        } else {
            i
        };
        if j0 >= t.len() {
            0
        } else {
            let kw_err: nat = if t[j0].kind == TokenKind::KwFn {
                0
            } else {
                1
            };
            let j1 = if t[j0].kind == TokenKind::KwFn {
                j0 + 1
            } else {
                j0
            };
            if j1 >= t.len() {
                kw_err
            } else if t[j1].kind != TokenKind::OpenParen {
                kw_err + 1
            } else {
                let ps = p_params(t, j1 + 1, ext, Seq::empty(), Seq::empty());
                let pe = e_params(t, j1 + 1, ext);
                if ps.3 || ps.2 <= i || ps.2 > t.len() {
                    kw_err + pe
                } else {
                    kw_err + pe + e_type(t, ps.2)
                }
            }
        }
    }
}

/// The errors of an array type at token `i`.
pub open spec fn e_array(t: Seq<Token>, i: int) -> nat
    decreases t.len() - i, 2int,
{
    if i < 0 || i >= t.len() {
        0
    } else if t[i].kind != TokenKind::OpenBracket {
        1
    } else {
        let x = p_type(t, i + 1);
        let inner = e_type(t, i + 1);
        if x.2 || x.1 >= t.len() || t[x.1].kind == TokenKind::ClosedBracket {
            inner
        } else {
            inner + 1
        }
    }
}

/// The errors of a type at token `i`.
pub open spec fn e_type(t: Seq<Token>, i: int) -> nat
    decreases t.len() - i, 3int,
{
    if i < 0 || i >= t.len() {
        0
    } else {
        let k = t[i].kind;
        if k == TokenKind::Mul {
            e_type(t, i + 1)
        } else if k == TokenKind::OpenBracket {
            e_array(t, i)
        } else if k == TokenKind::KwFn || k == TokenKind::KwExtern {
            e_ftype(t, i)
        } else if k == TokenKind::Identifier || builtin_ty(k) is Some {
            0
        } else {
            1
        }
    }
}

/// Parses a type: a pointer `*T`, a builtin type, an array `[T]`, a function type, or
/// the name of a custom type.
pub fn _type(input: &mut Input) -> (r: ParseResult<Type>)
    requires
        old(input).wf(),
    ensures
        final(input).moved_on(old(input)),
        old(input).pos >= old(input).stream@.len() ==> r.2,
        old(input).pos < old(input).stream@.len() ==> ({
            let k = old(input).stream@[old(input).pos as int].kind;
            &&& builtin_ty(k) is Some ==> r.0.type_value@ == builtin_ty(k)->0 && r.1@.len() == 0
                && !r.2 && final(input).pos == old(input).pos + 1
            &&& k == TokenKind::Identifier ==> r.0.type_value is Custom && (
            r.0.type_value->Custom_0)@ == old(input).stream@[old(input).pos as int].span.literal@
                && r.1@.len() == 0 && !r.2 && final(input).pos == old(input).pos + 1
            &&& k == TokenKind::Mul && !r.2 ==> r.0.type_value is Ptr
            &&& k == TokenKind::OpenBracket && !r.2 ==> r.0.type_value is Array
            &&& (builtin_ty(k) is None && k != TokenKind::Identifier && k != TokenKind::Mul && k
                != TokenKind::OpenBracket && k != TokenKind::KwFn && k != TokenKind::KwExtern) ==> r.0.type_value@
                == crate::ast::Ty::Undefined && r.1@.len() == 1 && final(input).pos == old(input).pos
        }),
        (r.0.type_value@, final(input).pos as int, r.2) == p_type(
            old(input).stream@,
            old(input).pos as int,
        ),
        r.1@.len() == e_type(old(input).stream@, old(input).pos as int),
    decreases old(input).rest(), 3int,
{
    let mut errors: Vec<ParseError> = Vec::new();
    let (first_kind, start, start_row) = match input.peek() {
        Some(t) => (t.kind, t.span.start, t.row),
        None => {
            return (Type::default(), errors, true);
        },
    };
    let tv = match first_kind {
        TokenKind::Mul => {
            input.eat();
            let (inner, mut inner_errors, is_eof) = _type(input);
            errors.append(&mut inner_errors);
            if is_eof {
                return (Type::default(), errors, true);
            }
            TypeValue::Ptr(Box::new(inner.type_value))
        },
        TokenKind::OpenBracket => {
            let (t, mut more, is_eof) = array_type(input);
            errors.append(&mut more);
            if is_eof {
                return (Type::default(), errors, true);
            }
            t
        },
        TokenKind::KwFn | TokenKind::KwExtern => {
            let (t, mut more, is_eof) = function_type(input);
            errors.append(&mut more);
            if is_eof {
                return (Type::default(), errors, true);
            }
            t
        },
        TokenKind::Identifier => {
            let t = match input.eat() {
                Some(t) => t.literal(),
                None => String::new(),
            };
            TypeValue::Custom(t)
        },
        _ => {
            let simple = match first_kind {
                TokenKind::Tvoid => Some(TypeValue::Void),
                TokenKind::Tbool => Some(TypeValue::Bool),
                TokenKind::Tstring => Some(TypeValue::String),
                TokenKind::Ti8 => Some(TypeValue::I8),
                TokenKind::Ti16 => Some(TypeValue::I16),
                TokenKind::Ti32 => Some(TypeValue::I32),
                TokenKind::Ti64 => Some(TypeValue::I64),
                TokenKind::Ti128 => Some(TypeValue::I128),
                TokenKind::Tu8 => Some(TypeValue::U8),
                TokenKind::Tu16 => Some(TypeValue::U16),
                TokenKind::Tu32 => Some(TypeValue::U32),
                TokenKind::Tu64 => Some(TypeValue::U64),
                TokenKind::Tu128 => Some(TypeValue::U128),
                TokenKind::Tf32 => Some(TypeValue::F32),
                TokenKind::Tf64 => Some(TypeValue::F64),
                _ => None,
            };
            match simple {
                Some(t) => {
                    input.eat();
                    t
                },
                None => {
                    let mut text = String::new();
                    text.append("Expected a type but found ");
                    text.append(kind_name(first_kind));
                    errors.push(error_here(input, text.as_str()));
                    TypeValue::Undefined
                },
            }
        },
    };
    let location = loc_from(input, start, start_row);
    (Type { type_value: tv, location }, errors, false)
}

/// Parses a function type `fn(T, ...) R`, or an extern one `extern fn(name: T, ...) R`.
pub fn function_type(input: &mut Input) -> (r: ParseResult<TypeValue>)
    requires
        old(input).wf(),
    ensures
        final(input).moved_on(old(input)),
        (r.0@, final(input).pos as int, r.2) == p_ftype(old(input).stream@, old(input).pos as int),
        old(input).pos < old(input).stream@.len() && !r.2 && r.1@.len() == 0 ==> ({
            let k = old(input).stream@[old(input).pos as int].kind;
            &&& k == TokenKind::KwExtern ==> r.0 is ExFunc
            &&& k != TokenKind::KwExtern ==> r.0 is Func && !r.0->Func_2
        }),
        r.1@.len() == e_ftype(old(input).stream@, old(input).pos as int),
    decreases old(input).rest(), 2int,
{
    let mut errors: Vec<ParseError> = Vec::new();
    let mut named_params: Vec<(String, TypeValue)> = Vec::new();
    let mut params: Vec<TypeValue> = Vec::new();
    let mut is_extern = false;
    match input.peek_kind() {
        Some(TokenKind::KwExtern) => {
            input.eat();
            is_extern = true;
        },
        Some(_) => {},
        None => {
            return (TypeValue::Void, errors, true);
        },
    }
    match input.expect(TokenKind::KwFn) {
        Ok(None) => {
            return (TypeValue::Void, errors, true);
        },
        Ok(Some(_)) => {},
        Err((e, _)) => {
            errors.push(e);
        },
    }
    match input.expect(TokenKind::OpenParen) {
        Ok(None) => {
            return (TypeValue::Void, errors, true);
        },
        Ok(Some(_)) => {},
        Err((e, _)) => {
            errors.push(e);
            return (TypeValue::Undefined, errors, false);
        },
    }
    let entry = input.pos;
    let ghost base = errors@.len();
    proof {
        crate::ast::lemma_named_tys_of(named_params@, 0);
        crate::ast::lemma_tys_of(params@, 0);
        assert(named_view(named_params@) =~= Seq::<(Seq<char>, crate::ast::Ty)>::empty());
        assert(crate::ast::tys_of(params@, 0) =~= Seq::<crate::ast::Ty>::empty());
    }
    loop
        invariant_except_break
            p_params(
                input.stream@,
                input.pos as int,
                is_extern,
                named_view(named_params@),
                crate::ast::tys_of(params@, params@.len() as int),
            ) == p_params(input.stream@, entry as int, is_extern, Seq::empty(), Seq::empty()),
            errors@.len() + e_params(input.stream@, input.pos as int, is_extern) == base + e_params(
                input.stream@,
                entry as int,
                is_extern,
            ),
        invariant
            input.moved_on(old(input)),
            input.stream == old(input).stream,
            input.pos >= entry,
            entry > old(input).pos,
            is_extern == (old(input).stream@[old(input).pos as int].kind == TokenKind::KwExtern),
            (r_entry_ok(old(input).stream@, old(input).pos as int, entry as int)),
            base == (if old(input).stream@[(if is_extern {
                old(input).pos + 1
            } else {
                old(input).pos as int
            })].kind == TokenKind::KwFn {
                0nat
            } else {
                1nat
            }),
        ensures
            p_params(input.stream@, entry as int, is_extern, Seq::empty(), Seq::empty()) == (
                named_view(named_params@),
                crate::ast::tys_of(params@, params@.len() as int),
                input.pos as int,
                false,
            ),
            errors@.len() == base + e_params(input.stream@, entry as int, is_extern),
        decreases input.rest(),
    {
        match input.peek_kind() {
            Some(TokenKind::ClosedParen) => {
                input.eat();
                break;
            },
            Some(TokenKind::Comma) => {
                input.eat();
                continue;
            },
            Some(_) => {},
            None => {
                return (TypeValue::Void, errors, true);
            },
        }
        let before = input.pos;
        let mut param_name = String::new();
        if is_extern {
            match input.expect(TokenKind::Identifier) {
                Ok(Some(t)) => {
                    param_name = t.literal();
                },
                Ok(None) => {
                    return (TypeValue::Void, errors, true);
                },
                Err((e, _)) => {
                    errors.push(e);
                },
            }
            match input.expect(TokenKind::Column) {
                Ok(_) => {},
                Err((e, _)) => {
                    errors.push(e);
                },
            }
        }
        let (param_type, mut param_errors, is_eof) = _type(input);
        errors.append(&mut param_errors);
        let ghost pv = param_type.type_value@;
        let ghost nv = param_name@;
        let ghost named_before = named_params@;
        let ghost plain_before = params@;
        if is_extern {
            named_params.push((param_name, param_type.type_value));
        } else {
            params.push(param_type.type_value);
        }
        proof {
            crate::ast::lemma_named_tys_of(named_before, named_before.len() as int);
            crate::ast::lemma_named_tys_of(named_params@, named_params@.len() as int);
            crate::ast::lemma_tys_of(plain_before, plain_before.len() as int);
            crate::ast::lemma_tys_of(params@, params@.len() as int);
            if is_extern {
                assert(named_view(named_params@) =~= named_view(named_before).push((nv, pv)));
                assert(params@ == plain_before);
            } else {
                assert(crate::ast::tys_of(params@, params@.len() as int) =~= crate::ast::tys_of(
                    plain_before,
                    plain_before.len() as int,
                ).push(pv));
                assert(named_params@ == named_before);
            }
        }
        if is_eof {
            return (TypeValue::Void, errors, true);
        }
        if input.pos == before {
            // Nothing was taken: skip the token so that the list moves on.
            input.eat();
        }
    }
    let (ret, mut ret_errors, is_eof) = _type(input);
    errors.append(&mut ret_errors);
    let tv = if is_extern {
        TypeValue::ExFunc(named_params, Box::new(ret.type_value))
    } else {
        TypeValue::Func(params, Box::new(ret.type_value), false)
    };
    (tv, errors, is_eof)
}

/// Where the parameter list of a function type at `i` starts: after `extern`, `fn` and
/// the opening parenthesis, each taken only when present.
pub open spec fn r_entry_ok(t: Seq<Token>, i: int, entry: int) -> bool {
    let ext = t[i].kind == TokenKind::KwExtern;
    let j0 = if ext {
        i + 1
    } else {
        i
    };
    let j1 = if j0 < t.len() && t[j0].kind == TokenKind::KwFn {
        j0 + 1
    } else {
        j0
    };
    &&& i < t.len()
    &&& j0 < t.len()
    &&& j1 < t.len()
    &&& t[j1].kind == TokenKind::OpenParen
    &&& entry == j1 + 1
}

/// Parses an array type `[T]`.
pub fn array_type(input: &mut Input) -> (r: ParseResult<TypeValue>)
    requires
        old(input).wf(),
    ensures
        final(input).moved_on(old(input)),
        r.0 is Array,
        (r.0@, final(input).pos as int, r.2) == p_array(old(input).stream@, old(input).pos as int),
        r.1@.len() == e_array(old(input).stream@, old(input).pos as int),
    decreases old(input).rest(), 2int,
{
    let mut errors: Vec<ParseError> = Vec::new();
    let empty = TypeValue::Array(Box::new(TypeValue::Void));
    assert(crate::ast::ty_of(TypeValue::Void) == crate::ast::Ty::Void);
    assert(empty@ == crate::ast::Ty::Array(Box::new(crate::ast::Ty::Void)));
    match input.expect(TokenKind::OpenBracket) {
        Ok(None) => {
            return (empty, errors, true);
        },
        Ok(Some(_)) => {},
        Err((e, _)) => {
            errors.push(e);
            return (empty, errors, false);
        },
    }
    let (inner, mut inner_errors, is_eof) = _type(input);
    errors.append(&mut inner_errors);
    let product = TypeValue::Array(Box::new(inner.type_value));
    if is_eof {
        return (product, errors, true);
    }
    match input.expect(TokenKind::ClosedBracket) {
        Ok(_) => {},
        Err((e, _)) => {
            errors.push(e);
        },
    }
    (product, errors, false)
}

// The shape of parsed expressions.
/// An expression tree as a value, without locations.
pub enum Shape {
    Void,
    Str(Seq<char>),
    Int(int),
    Uint(int),
    Neg(Box<Shape>),
    Ident(Seq<Seq<char>>),
    Call(Seq<Seq<char>>, Seq<Shape>),
    /// A function literal: its parameter names and the statements of its body.
    Func(Seq<Seq<char>>, Seq<SShape>),
    Add(Box<Shape>, Box<Shape>),
    Min(Box<Shape>, Box<Shape>),
    Mul(Box<Shape>, Box<Shape>),
    Div(Box<Shape>, Box<Shape>),
    Power(Box<Shape>, Box<Shape>),
    Paren(Box<Shape>),
}

pub open spec fn shape_of(e: Expr) -> Shape
    decreases e, 0int,
{
    match e {
        Expr::Void => Shape::Void,
        Expr::String(s, _) => Shape::Str(s@),
        Expr::Int(v, _) => Shape::Int(v as int),
        Expr::Uint(v, _) => Shape::Uint(v as int),
        Expr::Neg(x, _) => Shape::Neg(Box::new(shape_of(*x))),
        Expr::Identifier(n, _) => Shape::Ident(crate::ast::views(n.name@)),
        Expr::FuncCall(n, args, _) => Shape::Call(
            crate::ast::views(n.name@),
            shapes_of(args@, args@.len() as int),
        ),
        Expr::Func(f) => Shape::Func(crate::ast::views(f.args@), sshapes_of(f.block@, f.block@.len() as int)),
        Expr::Add(a, b, _) => Shape::Add(Box::new(shape_of(*a)), Box::new(shape_of(*b))),
        Expr::Min(a, b, _) => Shape::Min(Box::new(shape_of(*a)), Box::new(shape_of(*b))),
        Expr::Mul(a, b, _) => Shape::Mul(Box::new(shape_of(*a)), Box::new(shape_of(*b))),
        Expr::Div(a, b, _) => Shape::Div(Box::new(shape_of(*a)), Box::new(shape_of(*b))),
        Expr::Power(a, b, _) => Shape::Power(Box::new(shape_of(*a)), Box::new(shape_of(*b))),
        Expr::Paren(x, _) => Shape::Paren(Box::new(shape_of(*x))),
    }
}

/// A statement as a value, without locations and errors.
pub enum SShape {
    Expr(Shape),
    /// The names of the left side, whether it declares, the written type, and the value.
    Var(Seq<Seq<char>>, bool, crate::ast::Ty, Shape),
    Enum,
    Doc(Seq<char>),
}

pub open spec fn sshape_of(s: Stmt) -> SShape
    decreases s, 0int,
{
    match s {
        Stmt::Expr(e, _) => SShape::Expr(shape_of(e)),
        Stmt::Var(v) => SShape::Var(
            crate::ast::views(v.lhs.name@),
            v.is_decl,
            v._type.type_value@,
            shape_of(v.rhs),
        ),
        Stmt::Enum(_) => SShape::Enum,
        Stmt::DocComment(d) => SShape::Doc(d.md@),
    }
}

/// The shapes of the first `n` statements of `s`.
pub open spec fn sshapes_of(s: Seq<Stmt>, n: int) -> Seq<SShape>
    decreases s, n,
{
    if n <= 0 || n > s.len() {
        Seq::empty()
    } else {
        sshapes_of(s, n - 1).push(sshape_of(s[n - 1]))
    }
}

pub proof fn lemma_sshapes_of(s: Seq<Stmt>, n: int)
    requires
        0 <= n <= s.len(),
    ensures
        sshapes_of(s, n).len() == n,
        forall|i: int| 0 <= i < n ==> #[trigger] sshapes_of(s, n)[i] == sshape_of(s[i]),
    decreases n,
{
    if n > 0 {
        lemma_sshapes_of(s, n - 1);
    }
}

/// The shapes of the first `n` expressions of `s`.
pub open spec fn shapes_of(s: Seq<Expr>, n: int) -> Seq<Shape>
    decreases s, n,
{
    if n <= 0 || n > s.len() {
        Seq::empty()
    } else {
        shapes_of(s, n - 1).push(shape_of(s[n - 1]))
    }
}

pub proof fn lemma_shapes_of(s: Seq<Expr>, n: int)
    requires
        0 <= n <= s.len(),
    ensures
        shapes_of(s, n).len() == n,
        forall|i: int| 0 <= i < n ==> #[trigger] shapes_of(s, n)[i] == shape_of(s[i]),
    decreases n,
{
    if n > 0 {
        lemma_shapes_of(s, n - 1);
    }
}

/// The kind of token `i`, if there is one.
pub open spec fn kind_at(t: Seq<Token>, i: int) -> Option<TokenKind> {
    if 0 <= i < t.len() {
        Some(t[i].kind)
    } else {
        None
    }
}

/// The rest of a dotted name from token `j`, after the segments `acc`: the segments and
/// where the name ends.
pub open spec fn p_name_rest(t: Seq<Token>, j: int, acc: Seq<Seq<char>>) -> (Seq<Seq<char>>, int)
    decreases t.len() - j,
{
    if j < 0 || j >= t.len() {
        (acc, j)
    } else if kind_at(t, j) == Some(TokenKind::Dot) && kind_at(t, j + 1) == Some(TokenKind::Identifier) {
        p_name_rest(t, j + 2, acc.push(t[j + 1].span.literal@))
    } else if kind_at(t, j) == Some(TokenKind::Dot) {
        (acc, j + 1)
    } else {
        (acc, j)
    }
}

/// Whether the rest of a dotted name from token `j` ends in a dot with no segment after it.
pub open spec fn name_dot_rest(t: Seq<Token>, j: int) -> bool
    decreases t.len() - j,
{
    if j < 0 || j >= t.len() {
        false
    } else if kind_at(t, j) == Some(TokenKind::Dot) && kind_at(t, j + 1) == Some(TokenKind::Identifier) {
        name_dot_rest(t, j + 2)
    } else {
        kind_at(t, j) == Some(TokenKind::Dot)
    }
}

/// The number of errors in the rest of a list of identifiers from token `j`: a pair of
/// identifiers without a comma, and a comma that ends the list.
pub open spec fn idents_err_rest(t: Seq<Token>, j: int) -> nat
    decreases t.len() - j,
{
    if j < 0 || j >= t.len() {
        0
    } else if t[j].kind == TokenKind::Comma && kind_at(t, j + 1) == Some(TokenKind::Identifier) {
        idents_err_rest(t, j + 2)
    } else if t[j].kind == TokenKind::Comma {
        1
    } else if t[j].kind == TokenKind::Identifier {
        1 + idents_err_rest(t, j + 1)
    } else {
        0
    }
}

/// The number of errors in a list of identifiers at token `i`; a list that does not start
/// with an identifier has one more.
pub open spec fn idents_errs(t: Seq<Token>, i: int) -> nat {
    if i < 0 || i >= t.len() {
        0
    } else if t[i].kind == TokenKind::Identifier {
        idents_err_rest(t, i + 1)
    } else {
        1 + idents_err_rest(t, i)
    }
}

/// A dotted name starting at token `i`: its segments and where it ends.
pub open spec fn p_name(t: Seq<Token>, i: int) -> (Seq<Seq<char>>, int) {
    p_name_rest(t, i + 1, seq![t[i].span.literal@])
}

/// Whether `l` is the location of token `t`: its span, on its row.
pub open spec fn token_location(l: Location, t: Token) -> bool {
    l.span == (t.span.start, t.span.end) && l.rows == (t.row, t.row)
}

/// The value of an integer token's text, when it is one.
pub open spec fn int_value(s: Seq<char>) -> Option<int> {
    if s.len() > 0 && all_digits(s) && digits_value(s) <= i128::MAX {
        Some(digits_value(s))
    } else {
        None
    }
}

/// A primary expression at token `i`: its shape, where it ends, and whether the input
/// ended first.
pub open spec fn p_primary(t: Seq<Token>, i: int) -> (Shape, int, bool)
    decreases t.len() - i, 1int,
{
    if i < 0 || i >= t.len() {
        (Shape::Void, i, true)
    } else {
        let k = t[i].kind;
        if k == TokenKind::Integer {
            match int_value(t[i].span.literal@) {
                Some(v) => (Shape::Int(v), i + 1, false),
                None => (Shape::Void, i + 1, false),
            }
        } else if k == TokenKind::String {
            (Shape::Str(t[i].span.literal@), i + 1, false)
        } else if k == TokenKind::Identifier {
            let (n, j) = p_name(t, i);
            if j <= i {
                (Shape::Void, i + 1, false)
            } else if kind_at(t, j) == Some(TokenKind::OpenParen) {
                let a = p_args(t, j + 1);
                (Shape::Call(n, a.0), a.1, a.2)
            } else {
                (Shape::Ident(n), j, false)
            }
        } else if k == TokenKind::OpenParen {
            let x = p_expr(t, i + 1);
            if x.2 {
                (x.0, x.1, true)
            } else if x.1 >= t.len() {
                (x.0, x.1, true)
            } else if t[x.1].kind == TokenKind::ClosedParen {
                (Shape::Paren(Box::new(x.0)), x.1 + 1, false)
            } else {
                (Shape::Paren(Box::new(x.0)), x.1, false)
            }
        } else if k == TokenKind::Min {
            let x = p_factor(t, i + 1);
            (Shape::Neg(Box::new(x.0)), x.1, x.2)
        } else {
            (Shape::Void, i + 1, false)
        }
    }
}

/// An exponentiation chain at token `i`.
pub open spec fn p_factor(t: Seq<Token>, i: int) -> (Shape, int, bool)
    decreases t.len() - i, 2int,
{
    let l = p_primary(t, i);
    if l.2 {
        l
    } else if l.1 <= i {
        (l.0, l.1, false)
    } else if kind_at(t, l.1) == Some(TokenKind::Caret) {
        let r = p_factor(t, l.1 + 1);
        (Shape::Power(Box::new(l.0), Box::new(r.0)), r.1, r.2)
    } else {
        (l.0, l.1, false)
    }
}

/// The rest of a chain of `*` and `/` from token `j`, after the operand `acc`.
pub open spec fn p_term_rest(t: Seq<Token>, j: int, acc: Shape) -> (Shape, int, bool)
    decreases t.len() - j, 3int,
{
    if j < 0 || j >= t.len() {
        (acc, j, false)
    } else if t[j].kind != TokenKind::Mul && t[j].kind != TokenKind::Div {
        (acc, j, false)
    } else {
        let r = p_factor(t, j + 1);
        let next = if t[j].kind == TokenKind::Mul {
            Shape::Mul(Box::new(acc), Box::new(r.0))
        } else {
            Shape::Div(Box::new(acc), Box::new(r.0))
        };
        if r.2 {
            (next, r.1, true)
        } else if r.1 <= j || r.1 > t.len() {
            (next, r.1, false)
        } else {
            p_term_rest(t, r.1, next)
        }
    }
}

/// A chain of `*` and `/` at token `i`.
pub open spec fn p_term(t: Seq<Token>, i: int) -> (Shape, int, bool)
    decreases t.len() - i, 4int,
{
    let f = p_factor(t, i);
    if f.2 {
        f
    } else if f.1 <= i || f.1 > t.len() {
        (f.0, f.1, false)
    } else {
        p_term_rest(t, f.1, f.0)
    }
}

/// The rest of a chain of `+` and `-` from token `j`, after the operand `acc`.
pub open spec fn p_expr_rest(t: Seq<Token>, j: int, acc: Shape) -> (Shape, int, bool)
    decreases t.len() - j, 5int,
{
    if j < 0 || j >= t.len() {
        (acc, j, false)
    } else if t[j].kind != TokenKind::Add && t[j].kind != TokenKind::Min {
        (acc, j, false)
    } else {
        let r = p_term(t, j + 1);
        let next = if t[j].kind == TokenKind::Add {
            Shape::Add(Box::new(acc), Box::new(r.0))
        } else {
            Shape::Min(Box::new(acc), Box::new(r.0))
        };
        if r.2 {
            (next, r.1, true)
        } else if r.1 <= j || r.1 > t.len() {
            (next, r.1, false)
        } else {
            p_expr_rest(t, r.1, next)
        }
    }
}

/// A chain of `+` and `-` at token `i`.
pub open spec fn p_expr(t: Seq<Token>, i: int) -> (Shape, int, bool)
    decreases t.len() - i, 6int,
{
    let f = p_term(t, i);
    if f.2 {
        f
    } else if f.1 <= i || f.1 > t.len() {
        (f.0, f.1, false)
    } else {
        p_expr_rest(t, f.1, f.0)
    }
}

/// The rest of an argument list from token `j`, after the arguments `acc`; `multi` tells
/// whether an argument has been read.
pub open spec fn p_args_rest(t: Seq<Token>, j: int, acc: Seq<Shape>, multi: bool) -> (Seq<Shape>, int, bool)
    decreases t.len() - j, 7int,
{
    if j < 0 || j >= t.len() {
        (acc, j, true)
    } else if t[j].kind == TokenKind::ClosedParen {
        (acc, j + 1, false)
    } else if t[j].kind == TokenKind::Comma && multi {
        p_args_rest(t, j + 1, acc, multi)
    } else {
        let x = p_expr(t, j);
        if x.2 {
            (acc.push(x.0), x.1, true)
        } else if x.1 <= j || x.1 > t.len() {
            (acc.push(x.0), x.1, false)
        } else {
            p_args_rest(t, x.1, acc.push(x.0), true)
        }
    }
}

/// The arguments of a call from token `i`, up to and including the closing parenthesis.
pub open spec fn p_args(t: Seq<Token>, i: int) -> (Seq<Shape>, int, bool)
    decreases t.len() - i, 8int,
{
    p_args_rest(t, i, Seq::empty(), false)
}

// The number of errors of parsed expressions.
/// The errors of a primary expression at token `i`.
pub open spec fn e_primary(t: Seq<Token>, i: int) -> nat
    decreases t.len() - i, 1int,
{
    if i < 0 || i >= t.len() {
        0
    } else {
        let k = t[i].kind;
        if k == TokenKind::Integer {
            if int_value(t[i].span.literal@) is Some {
                0
            } else {
                1
            }
        } else if k == TokenKind::String {
            0
        } else if k == TokenKind::Identifier {
            let (n, j) = p_name(t, i);
            let ne: nat = if name_dot_rest(t, i + 1) {
                1
            } else {
                0
            };
            if j <= i {
                ne
            } else if kind_at(t, j) == Some(TokenKind::OpenParen) {
                ne + e_args(t, j + 1)
            } else {
                ne
            }
        } else if k == TokenKind::OpenParen {
            let x = p_expr(t, i + 1);
            let inner = e_expr(t, i + 1);
            if x.2 || x.1 >= t.len() || t[x.1].kind == TokenKind::ClosedParen {
                inner
            } else {
                inner + 1
            }
        } else if k == TokenKind::Min {
            e_factor(t, i + 1)
        } else {
            1
        }
    }
}

/// The errors of an exponentiation chain at token `i`.
pub open spec fn e_factor(t: Seq<Token>, i: int) -> nat
    decreases t.len() - i, 2int,
{
    let l = p_primary(t, i);
    let el = e_primary(t, i);
    if l.2 || l.1 <= i {
        el
    } else if kind_at(t, l.1) == Some(TokenKind::Caret) {
        el + e_factor(t, l.1 + 1)
    } else {
        el
    }
}

/// The errors of the rest of a chain of `*` and `/` from token `j`.
pub open spec fn e_term_rest(t: Seq<Token>, j: int) -> nat
    decreases t.len() - j, 3int,
{
    if j < 0 || j >= t.len() {
        0
    } else if t[j].kind != TokenKind::Mul && t[j].kind != TokenKind::Div {
        0
    } else {
        let r = p_factor(t, j + 1);
        let er = e_factor(t, j + 1);
        if r.2 || r.1 <= j || r.1 > t.len() {
            er
        } else {
            er + e_term_rest(t, r.1)
        }
    }
}

/// The errors of a chain of `*` and `/` at token `i`.
pub open spec fn e_term(t: Seq<Token>, i: int) -> nat
    decreases t.len() - i, 4int,
{
    let f = p_factor(t, i);
    let ef = e_factor(t, i);
    if f.2 || f.1 <= i || f.1 > t.len() {
        ef
    } else {
        ef + e_term_rest(t, f.1)
    }
}

/// The errors of the rest of a chain of `+` and `-` from token `j`.
pub open spec fn e_expr_rest(t: Seq<Token>, j: int) -> nat
    decreases t.len() - j, 5int,
{
    if j < 0 || j >= t.len() {
        0
    } else if t[j].kind != TokenKind::Add && t[j].kind != TokenKind::Min {
        0
    } else {
        let r = p_term(t, j + 1);
        let er = e_term(t, j + 1);
        if r.2 || r.1 <= j || r.1 > t.len() {
            er
        } else {
            er + e_expr_rest(t, r.1)
        }
    }
}

/// The errors of a chain of `+` and `-` at token `i`.
pub open spec fn e_expr(t: Seq<Token>, i: int) -> nat
    decreases t.len() - i, 6int,
{
    let f = p_term(t, i);
    let ef = e_term(t, i);
    if f.2 || f.1 <= i || f.1 > t.len() {
        ef
    } else {
        ef + e_expr_rest(t, f.1)
    }
}

/// The errors of the rest of an argument list from token `j`; `need` tells whether a
/// comma is due before the next argument.
pub open spec fn e_args_rest(t: Seq<Token>, j: int, multi: bool, need: bool) -> nat
    decreases t.len() - j, 7int,
{
    if j < 0 || j >= t.len() {
        0
    } else if t[j].kind == TokenKind::ClosedParen {
        0
    } else if t[j].kind == TokenKind::Comma && multi {
        e_args_rest(t, j + 1, multi, false)
    } else {
        let x = p_expr(t, j);
        let here: nat = (if need {
            1nat
        } else {
            0nat
        }) + e_expr(t, j);
        if x.2 || x.1 <= j || x.1 > t.len() {
            here
        } else {
            here + e_args_rest(t, x.1, true, true)
        }
    }
}

/// The errors of the arguments of a call from token `i`.
pub open spec fn e_args(t: Seq<Token>, i: int) -> nat
    decreases t.len() - i, 8int,
{
    e_args_rest(t, i, false, false)
}

// Expressions.
/// Parses a primary expression: an integer, a string, a name or a call, a parenthesized
/// expression, or a negation. It always takes at least one token.
pub fn primary(input: &mut Input) -> (r: ParseResult<Expr>)
    requires
        old(input).wf(),
    ensures
        final(input).moved_on(old(input)),
        old(input).pos < old(input).stream@.len() ==> final(input).pos > old(input).pos,
        old(input).pos >= old(input).stream@.len() ==> r.2,
        old(input).pos < old(input).stream@.len() ==> ({
            let t = old(input).stream@[old(input).pos as int];
            &&& t.kind == TokenKind::Integer ==> final(input).pos == old(input).pos + 1 && !r.2 && (
            if all_digits(t.span.literal@) && t.span.literal@.len() > 0 && digits_value(
                t.span.literal@,
            ) <= i128::MAX {
                r.0 is Int && r.0->Int_0 as int == digits_value(t.span.literal@) && r.1@.len() == 0
            } else {
                r.0 is Void && r.1@.len() == 1
            })
            &&& t.kind == TokenKind::String ==> final(input).pos == old(input).pos + 1 && !r.2
                && r.0 is String && (r.0->String_0)@ == t.span.literal@ && r.1@.len() == 0
            &&& t.kind == TokenKind::OpenParen && !r.2 ==> r.0 is Paren
            &&& t.kind == TokenKind::Min ==> r.0 is Neg
            &&& !crate::lexer::starts_expr_stmt(t.kind) ==> r.0 is Void && r.1@.len() == 1
                && final(input).pos == old(input).pos + 1
        }),
        (shape_of(r.0), final(input).pos as int, r.2) == p_primary(
            old(input).stream@,
            old(input).pos as int,
        ),
        r.1@.len() == e_primary(old(input).stream@, old(input).pos as int),
    decreases old(input).rest(), 1int,
{
    let mut errors: Vec<ParseError> = Vec::new();
    let (first_kind, start, start_row) = match input.peek() {
        Some(t) => (t.kind, t.span.start, t.row),
        None => {
            return (Expr::Void, errors, true);
        },
    };
    match first_kind {
        TokenKind::Integer => {
            let tok = input.eat();
            let location = Location::new((start, input.prev_pos.1), (start_row, start_row));
            let text = match tok {
                Some(t) => t.literal(),
                None => String::new(),
            };
            match parse_int(&text) {
                Some(v) => (Expr::Int(v, location), errors, false),
                None => {
                    errors.push(ParseError::new(message("Integer literal is out of range."), location));
                    (Expr::Void, errors, false)
                },
            }
        },
        TokenKind::String => {
            let tok = input.eat();
            let location = Location::new((start, input.prev_pos.1), (start_row, start_row));
            let text = match tok {
                Some(t) => t.literal(),
                None => String::new(),
            };
            (Expr::String(text, location), errors, false)
        },
        TokenKind::Identifier => {
            let (n, mut name_errors, is_eof) = name(input);
            errors.append(&mut name_errors);
            let location = loc_from(input, start, start_row);
            match input.peek_kind() {
                Some(TokenKind::OpenParen) => {
                    input.eat();
                    let (args, mut arg_errors, is_eof) = separated_exprs(input);
                    errors.append(&mut arg_errors);
                    let call_location = loc_from(input, start, start_row);
                    (Expr::FuncCall(n, args, call_location), errors, is_eof)
                },
                _ => (Expr::Identifier(n, location), errors, is_eof),
            }
        },
        TokenKind::OpenParen => {
            input.eat();
            let (inner, mut inner_errors, is_eof) = expr(input);
            errors.append(&mut inner_errors);
            if is_eof {
                return (inner, errors, true);
            }
            match input.peek() {
                Some(t) => {
                    if t.kind == TokenKind::ClosedParen {
                        input.eat();
                    } else {
                        let mut text = String::new();
                        text.append("Expected closing parenthesis, found ");
                        text.append(kind_name(t.kind));
                        errors.push(error_at(t, text));
                    }
                },
                None => {
                    return (inner, errors, true);
                },
            }
            let location = loc_from(input, start, start_row);
            (Expr::Paren(Box::new(inner), location), errors, false)
        },
        TokenKind::Min => {
            input.eat();
            let (inner, mut inner_errors, is_eof) = factor(input);
            errors.append(&mut inner_errors);
            let location = loc_from(input, start, start_row);
            (Expr::Neg(Box::new(inner), location), errors, is_eof)
        },
        _ => {
            let mut text = String::new();
            text.append("Expected an expression but found ");
            text.append(kind_name(first_kind));
            errors.push(error_here(input, text.as_str()));
            input.eat();
            (Expr::Void, errors, false)
        },
    }
}

/// Parses an exponentiation chain; `^` groups to the right.
pub fn factor(input: &mut Input) -> (r: ParseResult<Expr>)
    requires
        old(input).wf(),
    ensures
        final(input).moved_on(old(input)),
        old(input).pos < old(input).stream@.len() ==> final(input).pos > old(input).pos,
        old(input).pos >= old(input).stream@.len() ==> r.2,
        (shape_of(r.0), final(input).pos as int, r.2) == p_factor(
            old(input).stream@,
            old(input).pos as int,
        ),
        r.1@.len() == e_factor(old(input).stream@, old(input).pos as int),
    decreases old(input).rest(), 2int,
{
    let start = match input.peek() {
        Some(t) => (t.span.start, t.row),
        None => (input.prev_pos.0, input.prev_row),
    };
    let (lhs, mut errors, is_eof) = primary(input);
    if is_eof {
        return (lhs, errors, true);
    }
    match input.peek_kind() {
        Some(TokenKind::Caret) => {
            input.eat();
            let (rhs, mut rhs_errors, is_eof) = factor(input);
            errors.append(&mut rhs_errors);
            let location = loc_from(input, start.0, start.1);
            (Expr::Power(Box::new(lhs), Box::new(rhs), location), errors, is_eof)
        },
        _ => (lhs, errors, false),
    }
}

/// Parses a chain of `*` and `/`, grouped to the left.
pub fn term(input: &mut Input) -> (r: ParseResult<Expr>)
    requires
        old(input).wf(),
    ensures
        final(input).moved_on(old(input)),
        old(input).pos < old(input).stream@.len() ==> final(input).pos > old(input).pos,
        old(input).pos >= old(input).stream@.len() ==> r.2,
        (shape_of(r.0), final(input).pos as int, r.2) == p_term(
            old(input).stream@,
            old(input).pos as int,
        ),
        r.1@.len() == e_term(old(input).stream@, old(input).pos as int),
    decreases old(input).rest(), 3int,
{
    let start = match input.peek() {
        Some(t) => (t.span.start, t.row),
        None => (input.prev_pos.0, input.prev_row),
    };
    let (first, mut errors, is_eof) = factor(input);
    if is_eof {
        return (first, errors, true);
    }
    let mut lhs = first;
    loop
        invariant_except_break
            p_term_rest(input.stream@, input.pos as int, shape_of(lhs)) == p_term(
                old(input).stream@,
                old(input).pos as int,
            ),
            errors@.len() + e_term_rest(input.stream@, input.pos as int) == e_term(
                old(input).stream@,
                old(input).pos as int,
            ),
        invariant
            input.moved_on(old(input)),
            input.pos > old(input).pos,
        ensures
            (shape_of(lhs), input.pos as int, false) == p_term(
                old(input).stream@,
                old(input).pos as int,
            ),
            errors@.len() == e_term(old(input).stream@, old(input).pos as int),
        decreases input.rest(),
    {
        let kind = match input.peek_kind() {
            Some(k) => k,
            None => break,
        };
        if kind != TokenKind::Mul && kind != TokenKind::Div {
            break;
        }
        input.eat();
        let (rhs, mut rhs_errors, is_eof) = factor(input);
        errors.append(&mut rhs_errors);
        let location = loc_from(input, start.0, start.1);
        lhs = if kind == TokenKind::Mul {
            Expr::Mul(Box::new(lhs), Box::new(rhs), location)
        } else {
            Expr::Div(Box::new(lhs), Box::new(rhs), location)
        };
        if is_eof {
            return (lhs, errors, true);
        }
    }
    (lhs, errors, false)
}

/// Parses a chain of `+` and `-`, grouped to the left.
pub fn expr(input: &mut Input) -> (r: ParseResult<Expr>)
    requires
        old(input).wf(),
    ensures
        final(input).moved_on(old(input)),
        old(input).pos < old(input).stream@.len() ==> final(input).pos > old(input).pos,
        old(input).pos >= old(input).stream@.len() ==> r.2,
        (shape_of(r.0), final(input).pos as int, r.2) == p_expr(
            old(input).stream@,
            old(input).pos as int,
        ),
        r.1@.len() == e_expr(old(input).stream@, old(input).pos as int),
    decreases old(input).rest(), 4int,
{
    let start = match input.peek() {
        Some(t) => (t.span.start, t.row),
        None => (input.prev_pos.0, input.prev_row),
    };
    let (first, mut errors, is_eof) = term(input);
    if is_eof {
        return (first, errors, true);
    }
    let mut lhs = first;
    loop
        invariant_except_break
            p_expr_rest(input.stream@, input.pos as int, shape_of(lhs)) == p_expr(
                old(input).stream@,
                old(input).pos as int,
            ),
            errors@.len() + e_expr_rest(input.stream@, input.pos as int) == e_expr(
                old(input).stream@,
                old(input).pos as int,
            ),
        invariant
            input.moved_on(old(input)),
            input.pos > old(input).pos,
        ensures
            (shape_of(lhs), input.pos as int, false) == p_expr(
                old(input).stream@,
                old(input).pos as int,
            ),
            errors@.len() == e_expr(old(input).stream@, old(input).pos as int),
        decreases input.rest(),
    {
        let kind = match input.peek_kind() {
            Some(k) => k,
            None => break,
        };
        if kind != TokenKind::Add && kind != TokenKind::Min {
            break;
        }
        input.eat();
        let (rhs, mut rhs_errors, is_eof) = term(input);
        errors.append(&mut rhs_errors);
        let location = loc_from(input, start.0, start.1);
        lhs = if kind == TokenKind::Add {
            Expr::Add(Box::new(lhs), Box::new(rhs), location)
        } else {
            Expr::Min(Box::new(lhs), Box::new(rhs), location)
        };
        if is_eof {
            return (lhs, errors, true);
        }
    }
    (lhs, errors, false)
}

/// Parses the arguments of a call up to and including the closing parenthesis.
pub fn separated_exprs(input: &mut Input) -> (r: ParseResult<Vec<Expr>>)
    requires
        old(input).wf(),
    ensures
        final(input).moved_on(old(input)),
        (shapes_of(r.0@, r.0@.len() as int), final(input).pos as int, r.2) == p_args(
            old(input).stream@,
            old(input).pos as int,
        ),
        r.1@.len() == e_args(old(input).stream@, old(input).pos as int),
    decreases old(input).rest(), 5int,
{
    let mut product: Vec<Expr> = Vec::new();
    let mut errors: Vec<ParseError> = Vec::new();
    let mut is_multi_expr = false;
    let mut need_comma = false;
    proof {
        lemma_shapes_of(product@, 0);
        assert(shapes_of(product@, 0) =~= Seq::<Shape>::empty());
    }
    loop
        invariant_except_break
            p_args_rest(
                input.stream@,
                input.pos as int,
                shapes_of(product@, product@.len() as int),
                is_multi_expr,
            ) == p_args(old(input).stream@, old(input).pos as int),
            errors@.len() + e_args_rest(input.stream@, input.pos as int, is_multi_expr, need_comma)
                == e_args(old(input).stream@, old(input).pos as int),
        invariant
            input.moved_on(old(input)),
            is_multi_expr ==> input.pos > old(input).pos,
        ensures
            (shapes_of(product@, product@.len() as int), input.pos as int, false) == p_args(
                old(input).stream@,
                old(input).pos as int,
            ),
            errors@.len() == e_args(old(input).stream@, old(input).pos as int),
        decreases input.rest(),
    {
        match input.peek_kind() {
            Some(TokenKind::ClosedParen) => {
                input.eat();
                break;
            },
            Some(TokenKind::Comma) => {
                if is_multi_expr {
                    input.eat();
                    need_comma = false;
                    continue;
                }
            },
            Some(_) => {},
            None => {
                return (product, errors, true);
            },
        }
        if need_comma {
            // Two arguments without a comma between them.
            let e = error_here(input, "Expected `,` or `)` in the argument list.");
            errors.push(e);
        }
        let ghost before = product@;
        let (e, mut expr_errors, is_eof) = expr(input);
        product.push(e);
        proof {
            lemma_shapes_of(before, before.len() as int);
            lemma_shapes_of(product@, product@.len() as int);
            assert(shapes_of(product@, product@.len() as int) =~= shapes_of(before, before.len() as int).push(
                shape_of(e),
            ));
        }
        errors.append(&mut expr_errors);
        if is_eof {
            return (product, errors, true);
        }
        is_multi_expr = true;
        need_comma = true;
    }
    (product, errors, false)
}

/// Parses a function literal `fn(a b ...) { ... }`. The next token must be `fn`.
pub fn function_expr(input: &mut Input) -> (r: ParseResult<FuncNode>)
    requires
        old(input).wf(),
    ensures
        final(input).moved_on(old(input)),
        old(input).pos < old(input).stream@.len() ==> final(input).pos > old(input).pos,
        (
            crate::ast::views(r.0.args@),
            sshapes_of(r.0.block@, r.0.block@.len() as int),
            final(input).pos as int,
            r.2,
        ) == p_fexpr(old(input).stream@, old(input).pos as int),
        r.1@.len() == 0,
    decreases old(input).rest(), 5int,
{
    let mut product = FuncNode::default();
    if input.peek().is_none() {
        proof {
            assert(crate::ast::views(product.args@) =~= Seq::<Seq<char>>::empty());
            assert(sshapes_of(product.block@, product.block@.len() as int) =~= Seq::<SShape>::empty());
        }
        return (product, Vec::new(), true);
    }
    let (start, start_row) = match input.eat() {
        Some(t) => (t.span.start, t.row),
        None => (0, 0),
    };
    match input.expect(TokenKind::OpenParen) {
        Err((error, is_stmt)) => {
            product.errors.push(error);
            if is_stmt {
                return (product, Vec::new(), false);
            } else {
                input.eat();
            }
        },
        Ok(None) => {
            return (product, Vec::new(), true);
        },
        Ok(Some(_)) => {},
    }
    let ghost s0 = input.pos as int;
    proof {
        assert(crate::ast::views(product.args@) =~= Seq::<Seq<char>>::empty());
        assert(sshapes_of(product.block@, product.block@.len() as int) =~= Seq::<SShape>::empty());
    }
    loop
        invariant_except_break
            p_fparams(input.stream@, input.pos as int, crate::ast::views(product.args@)) == p_fparams(
                input.stream@,
                s0,
                Seq::empty(),
            ),
        invariant
            input.moved_on(old(input)),
            input.pos > old(input).pos,
            s0 == old(input).pos + 2,
            product.block@.len() == 0,
            fexpr_head_ok(old(input).stream@, old(input).pos as int),
        ensures
            p_fparams(input.stream@, s0, Seq::empty()) == (
                crate::ast::views(product.args@),
                input.pos as int,
                0int,
            ),
        decreases input.rest(),
    {
        match input.peek_kind() {
            Some(TokenKind::ClosedParen) => {
                input.eat();
                break;
            },
            Some(TokenKind::Comma) => {
                input.eat();
                continue;
            },
            None => {
                return (product, Vec::new(), true);
            },
            _ => {},
        }
        match input.expect(TokenKind::Identifier) {
            Ok(Some(ident)) => {
                let ghost acc = crate::ast::views(product.args@);
                product.args.push(ident.literal());
                proof {
                    assert(crate::ast::views(product.args@) =~= acc.push(product.args@.last()@));
                }
            },
            Err((error, is_stmt)) => {
                product.errors.push(error);
                if is_stmt {
                    return (product, Vec::new(), false);
                } else {
                    input.eat();
                }
            },
            Ok(None) => {
                return (product, Vec::new(), true);
            },
        }
    }
    match input.peek_kind() {
        Some(TokenKind::OpenCurly) => {
            let (stmts, mut block_errors, is_eof) = block(input);
            product.block = stmts;
            product.errors.append(&mut block_errors);
            product.location = loc_from(input, start, start_row);
            if is_eof {
                return (product, Vec::new(), true);
            }
        },
        Some(_) => {
            let e = error_here(input, "Expected the body of the function.");
            product.errors.push(e);
        },
        None => {
            return (product, Vec::new(), true);
        },
    }
    (product, Vec::new(), false)
}

/// Parses an expression: a function literal or an arithmetic expression.
pub fn expression(input: &mut Input) -> (r: ParseResult<Expr>)
    requires
        old(input).wf(),
    ensures
        final(input).moved_on(old(input)),
        (shape_of(r.0), final(input).pos as int, r.2) == p_expression(
            old(input).stream@,
            old(input).pos as int,
        ),
        old(input).pos < old(input).stream@.len() ==> final(input).pos > old(input).pos,
        r.1@.len() == if kind_at(old(input).stream@, old(input).pos as int) == Some(TokenKind::KwFn) {
            0
        } else {
            e_expr(old(input).stream@, old(input).pos as int)
        },
    decreases old(input).rest(), 6int,
{
    let mut errors: Vec<ParseError> = Vec::new();
    let first_kind = match input.peek_kind() {
        Some(k) => k,
        None => {
            return (Expr::Void, errors, true);
        },
    };
    if first_kind == TokenKind::KwFn {
        let (fn_expr, mut fn_errors, is_eof) = function_expr(input);
        errors.append(&mut fn_errors);
        (Expr::Func(fn_expr), errors, is_eof)
    } else {
        let (e, mut expr_errors, is_eof) = expr(input);
        errors.append(&mut expr_errors);
        (e, errors, is_eof)
    }
}

// Statements.
/// Parses a variable statement: `x := e`, `x : T` or `x = e`.
pub fn var(input: &mut Input) -> (r: (Var, bool))
    requires
        old(input).wf(),
    ensures
        final(input).moved_on(old(input)),
        old(input).pos + 1 < old(input).stream@.len() && old(input).stream@[old(input).pos as int].kind
            == TokenKind::Identifier ==> ({
            let k = old(input).stream@[old(input).pos + 1].kind;
            &&& r.0.lhs.name@.len() == 1
            &&& r.0.lhs.name@[0]@ == old(input).stream@[old(input).pos as int].span.literal@
            &&& k == TokenKind::Column ==> r.0.is_decl && r.0.rhs is Void
                && r.0._type.type_value@ == p_type(old(input).stream@, old(input).pos + 2).0
            &&& k == TokenKind::Coleq ==> r.0.is_decl
            &&& k == TokenKind::Eq ==> !r.0.is_decl
            &&& (k == TokenKind::Coleq || k == TokenKind::Eq) && kind_at(
                old(input).stream@,
                old(input).pos + 2,
            ) != Some(TokenKind::KwFn) ==> shape_of(r.0.rhs) == p_expr(
                old(input).stream@,
                old(input).pos + 2,
            ).0
        }),
        old(input).pos < old(input).stream@.len() && (old(input).stream@[old(input).pos as int].kind
            == TokenKind::Identifier || old(input).stream@[old(input).pos as int].kind
            == TokenKind::OpenCurly) ==> final(input).pos > old(input).pos,
        (sshape_of(Stmt::Var(r.0)), final(input).pos as int, r.1) == p_var(
            old(input).stream@,
            old(input).pos as int,
        ),
    decreases old(input).rest(), 7int,
{
    let mut product = Var::default();
    let start = match input.peek() {
        Some(t) => (t.span.start, t.row),
        None => (input.prev_pos.0, input.prev_row),
    };
    let (lhs, mut lhs_errors, is_eof) = var_lhs(input);
    if is_eof {
        proof {
            assert(crate::ast::views(product.lhs.name@) =~= Seq::<Seq<char>>::empty());
        }
        return (product, true);
    }
    product.errors.append(&mut lhs_errors);
    product.lhs = lhs;
    let result = match input.peek_kind() {
        Some(TokenKind::Column) => {
            input.eat();
            product.is_decl = true;
            let (t, mut errors, is_eof) = _type(input);
            product._type = t;
            product.errors.append(&mut errors);
            is_eof
        },
        Some(TokenKind::Eq) => {
            input.eat();
            let (rhs, mut errors, is_eof) = expression(input);
            product.errors.append(&mut errors);
            product.rhs = rhs;
            is_eof
        },
        Some(TokenKind::Coleq) => {
            input.eat();
            product.is_decl = true;
            let (rhs, mut errors, is_eof) = expression(input);
            product.errors.append(&mut errors);
            product.rhs = rhs;
            is_eof
        },
        Some(_) => {
            let e = error_here(input, "Expected `:`, `:=` or `=` after the name.");
            product.errors.push(e);
            false
        },
        None => true,
    };
    product.location = loc_from(input, start.0, start.1);
    (product, result)
}

/// Whether a variable statement starts here.
pub fn is_var(input: &Input) -> (r: bool)
    ensures
        r == (input.pos + 2 <= input.stream@.len() && ((input.stream@[input.pos as int].kind
            == TokenKind::Identifier && (input.stream@[input.pos + 1].kind == TokenKind::Coleq
            || input.stream@[input.pos + 1].kind == TokenKind::Column || input.stream@[input.pos
            + 1].kind == TokenKind::Eq)) || (input.stream@[input.pos as int].kind
            == TokenKind::OpenCurly && input.stream@[input.pos + 1].kind == TokenKind::Identifier))),
{
    let ba = pair_follows(input, TokenKind::Identifier, TokenKind::Coleq);
    let bb = pair_follows(input, TokenKind::Identifier, TokenKind::Column);
    let bc = pair_follows(input, TokenKind::Identifier, TokenKind::Eq);
    let bd = pair_follows(input, TokenKind::OpenCurly, TokenKind::Identifier);
    ba || bb || bc || bd
}

/// Whether the next two tokens have kinds `x` and `y`.
fn pair_follows(input: &Input, x: TokenKind, y: TokenKind) -> (r: bool)
    ensures
        r == (input.pos + 2 <= input.stream@.len() && input.stream@[input.pos as int].kind == x
            && input.stream@[input.pos + 1].kind == y),
{
    let mut pattern: Vec<TokenKind> = Vec::new();
    pattern.push(x);
    pattern.push(y);
    let r = input.match_pattern(pattern);
    proof {
        if input.pos + 2 <= input.stream@.len() && input.stream@[input.pos as int].kind == x
            && input.stream@[input.pos + 1].kind == y {
            assert(forall|i: int| 0 <= i < 2 ==> input.stream@[input.pos + i].kind == pattern@[i]) by {
                assert(pattern@[0] == x);
                assert(pattern@[1] == y);
            }
        }
        if r {
            assert(input.stream@[input.pos + 0].kind == pattern@[0]);
            assert(input.stream@[input.pos + 1].kind == pattern@[1]);
        }
    }
    r
}

/// Parses one statement. Returns nothing at the end of input; otherwise at least one
/// token is taken.
pub fn stmt(input: &mut Input) -> (r: Option<(Stmt, bool)>)
    requires
        old(input).wf(),
    ensures
        final(input).moved_on(old(input)),
        r is Some <==> old(input).pos < old(input).stream@.len(),
        r is Some ==> final(input).pos > old(input).pos,
        old(input).pos < old(input).stream@.len() && old(input).stream@[old(input).pos as int].kind
            == TokenKind::DocComment ==> r is Some && (r->0).0 is DocComment && ((r->0).0->DocComment_0).md@
            == old(input).stream@[old(input).pos as int].span.literal@,
        old(input).pos + 1 < old(input).stream@.len() && old(input).stream@[old(input).pos as int].kind
            == TokenKind::Identifier && (old(input).stream@[old(input).pos + 1].kind
            == TokenKind::Coleq || old(input).stream@[old(input).pos + 1].kind == TokenKind::Column
            || old(input).stream@[old(input).pos + 1].kind == TokenKind::Eq) ==> r is Some && (
        r->0).0 is Var,
        old(input).pos < old(input).stream@.len() && crate::lexer::starts_expr_stmt(
            old(input).stream@[old(input).pos as int].kind,
        ) && !(old(input).pos + 1 < old(input).stream@.len() && old(input).stream@[old(input).pos as int].kind
            == TokenKind::Identifier && (old(input).stream@[old(input).pos + 1].kind
            == TokenKind::Coleq || old(input).stream@[old(input).pos + 1].kind == TokenKind::Column
            || old(input).stream@[old(input).pos + 1].kind == TokenKind::Eq)) ==> r is Some && (
        r->0).0 is Expr,
        r is Some ==> (sshape_of((r->0).0), final(input).pos as int, (r->0).1) == p_stmt(
            old(input).stream@,
            old(input).pos as int,
        ),
    decreases old(input).rest(), 8int,
{
    let first_kind = match input.peek_kind() {
        Some(k) => k,
        None => {
            return None;
        },
    };
    if is_var(input) && (first_kind == TokenKind::Identifier || first_kind == TokenKind::OpenCurly) {
        let (v, is_eof) = var(input);
        return Some((Stmt::Var(v), is_eof));
    }
    if first_kind.starts_expr_stmt() {
        let (e, errors, is_eof) = expression(input);
        return Some((Stmt::Expr(e, errors), is_eof));
    }
    if first_kind == TokenKind::DocComment {
        let md = match input.eat() {
            Some(t) => t.literal(),
            None => String::new(),
        };
        return Some((Stmt::DocComment(DocComment { md }), false));
    }
    let mut text = String::new();
    text.append("Unexpected ");
    text.append(kind_name(first_kind));
    text.append(" at the start of a statement.");
    let mut errors: Vec<ParseError> = Vec::new();
    errors.push(error_here(input, text.as_str()));
    input.eat();
    Some((Stmt::Expr(Expr::Void, errors), false))
}

fn stmt_errors(s: &Stmt, into: &mut Vec<ParseError>) {
    match s {
        Stmt::Expr(_, errors) => {
            let mut i: usize = 0;
            while i < errors.len()
                decreases errors.len() - i,
            {
                into.push(errors[i].copy());
                i = i + 1;
            }
        },
        Stmt::Var(v) => {
            let mut i: usize = 0;
            while i < v.errors.len()
                decreases v.errors.len() - i,
            {
                into.push(v.errors[i].copy());
                i = i + 1;
            }
        },
        _ => {},
    }
}

/// Parses a block `{ ... }`. The errors of its statements are collected in the result.
pub fn block(input: &mut Input) -> (r: ParseResult<Vec<Stmt>>)
    requires
        old(input).wf(),
    ensures
        final(input).moved_on(old(input)),
        old(input).pos < old(input).stream@.len() ==> final(input).pos > old(input).pos,
        (sshapes_of(r.0@, r.0@.len() as int), final(input).pos as int, r.2) == p_block(
            old(input).stream@,
            old(input).pos as int,
        ),
    decreases old(input).rest(), 9int,
{
    let mut product: Vec<Stmt> = Vec::new();
    let mut errors: Vec<ParseError> = Vec::new();
    proof {
        assert(sshapes_of(product@, 0) =~= Seq::<SShape>::empty());
    }
    if input.peek().is_none() {
        return (product, errors, true);
    }
    input.eat();
    loop
        invariant_except_break
            p_block_rest(input.stream@, input.pos as int, sshapes_of(product@, product@.len() as int))
                == p_block(old(input).stream@, old(input).pos as int),
        invariant
            input.moved_on(old(input)),
            input.pos > old(input).pos,
            old(input).pos < old(input).stream@.len(),
        ensures
            (sshapes_of(product@, product@.len() as int), input.pos as int, false) == p_block(
                old(input).stream@,
                old(input).pos as int,
            ),
        decreases input.rest(),
    {
        match input.peek_kind() {
            Some(TokenKind::ClosedCurly) => {
                input.eat();
                break;
            },
            None => {
                return (product, errors, true);
            },
            _ => {},
        }
        let (s, is_eof) = match stmt(input) {
            Some(res) => res,
            None => {
                return (product, errors, true);
            },
        };
        stmt_errors(&s, &mut errors);
        let ghost before = product@;
        let ghost sh = sshape_of(s);
        product.push(s);
        proof {
            lemma_sshapes_of(before, before.len() as int);
            lemma_sshapes_of(product@, product@.len() as int);
            assert(sshapes_of(product@, product@.len() as int) =~= sshapes_of(before, before.len() as int).push(
                sh,
            ));
        }
        if is_eof {
            return (product, errors, true);
        }
    }
    (product, errors, false)
}

/// Parses an enum declaration `enum Name | A T, U | B`.
pub fn parse_enum(input: &mut Input) -> (r: ParseResult<EnumDecl>)
    requires
        old(input).wf(),
    ensures
        final(input).moved_on(old(input)),
    decreases old(input).rest(), 7int,
{
    let mut errors: Vec<ParseError> = Vec::new();
    let mut product: Vec<(String, Vec<TypeValue>)> = Vec::new();
    match input.expect(TokenKind::KwEnum) {
        Ok(None) => {
            return (EnumDecl(product), errors, true);
        },
        Ok(Some(_)) => {},
        Err((e, _)) => {
            errors.push(e);
            return (EnumDecl(product), errors, false);
        },
    }
    match input.expect(TokenKind::Identifier) {
        Ok(None) => {
            return (EnumDecl(product), errors, true);
        },
        Ok(Some(_)) => {},
        Err((e, _)) => {
            errors.push(e);
            return (EnumDecl(product), errors, false);
        },
    }
    loop
        invariant
            input.moved_on(old(input)),
            input.pos > old(input).pos,
        decreases input.rest(),
    {
        match input.peek_kind() {
            Some(TokenKind::Pipe) => {
                input.eat();
            },
            Some(_) => break,
            None => {
                return (EnumDecl(product), errors, true);
            },
        }
        let (record, mut record_errors, is_eof) = parse_enum_record(input);
        errors.append(&mut record_errors);
        product.push(record);
        if is_eof {
            return (EnumDecl(product), errors, true);
        }
    }
    (EnumDecl(product), errors, false)
}

/// Parses one variant of an enum: its name and the types it carries, separated by
/// commas. A variant without types carries its own name.
pub fn parse_enum_record(input: &mut Input) -> (r: ParseResult<(String, Vec<TypeValue>)>)
    requires
        old(input).wf(),
    ensures
        final(input).moved_on(old(input)),
    decreases old(input).rest(), 4int,
{
    let mut errors: Vec<ParseError> = Vec::new();
    let mut types: Vec<TypeValue> = Vec::new();
    let name = match input.expect(TokenKind::Identifier) {
        Ok(Some(t)) => t.literal(),
        Ok(None) => {
            return ((String::new(), types), errors, true);
        },
        Err((e, _)) => {
            errors.push(e);
            return ((String::new(), types), errors, false);
        },
    };
    let starts_type = match input.peek() {
        Some(t) => t.kind.is_type() && t.kind != TokenKind::Identifier,
        None => false,
    };
    if !starts_type {
        types.push(TypeValue::EnumVariant(name.clone()));
        return ((name, types), errors, false);
    }
    loop
        invariant
            input.moved_on(old(input)),
        decreases input.rest(),
    {
        let before = input.pos;
        match input.peek() {
            Some(t) => {
                if t.kind == TokenKind::Comma && types.len() > 0 {
                    input.eat();
                } else if !(t.kind.is_type() && t.kind != TokenKind::Identifier) {
                    break;
                }
            },
            None => break,
        }
        let (t, mut type_errors, is_eof) = _type(input);
        errors.append(&mut type_errors);
        if is_eof {
            return ((name, types), errors, true);
        }
        types.push(t.type_value);
        if input.pos == before {
            break;
        }
    }
    ((name, types), errors, false)
}

/// A struct declaration; structs are not part of the language yet.
pub fn parse_struct() {
}

// Imports and modules.
/// A copy of a name.
pub fn copy_name(n: &Name) -> (r: Name)
    ensures
        crate::ast::views(r.name@) == crate::ast::views(n.name@),
        r.location == n.location,
{
    let mut names: Vec<String> = Vec::new();
    let mut i: usize = 0;
    while i < n.name.len()
        invariant
            i <= n.name@.len(),
            names@.len() == i,
            forall|j: int| 0 <= j < i ==> (#[trigger] names@[j])@ == n.name@[j]@,
        decreases n.name.len() - i,
    {
        names.push(n.name[i].clone());
        i = i + 1;
    }
    proof {
        assert(crate::ast::views(names@) =~= crate::ast::views(n.name@));
    }
    Name::new(names, n.location)
}

/// The names of an import list from token `j`, after the names `acc`: the names, where
/// the list ends, and whether the input ended first.
pub open spec fn p_import_list(t: Seq<Token>, j: int, acc: Seq<Seq<Seq<char>>>) -> (Seq<Seq<Seq<char>>>, int, bool)
    decreases t.len() - j,
{
    if j < 0 || j >= t.len() {
        (acc, j, true)
    } else if t[j].kind == TokenKind::ClosedCurly {
        (acc, j + 1, false)
    } else if t[j].kind == TokenKind::Identifier {
        let (n, j2) = p_name(t, j);
        if j2 <= j || j2 > t.len() {
            (acc.push(n), j2, false)
        } else {
            p_import_list(t, j2, acc.push(n))
        }
    } else if t[j].kind == TokenKind::Comma {
        p_import_list(t, j + 1, acc)
    } else if crate::lexer::is_stmt_kind(t[j].kind) {
        (acc, j, false)
    } else {
        p_import_list(t, j + 1, acc)
    }
}

/// An import block at token `i`: `import`, when `first` asks for it, then a braced list.
pub open spec fn p_imports(t: Seq<Token>, i: int, first: bool) -> (Seq<Seq<Seq<char>>>, int, bool) {
    if i < 0 || i >= t.len() {
        (Seq::empty(), i, true)
    } else {
        let j0 = if first && t[i].kind == TokenKind::KwImport {
            i + 1
        } else {
            i
        };
        if j0 >= t.len() {
            (Seq::empty(), j0, true)
        } else {
            let j1 = if t[j0].kind == TokenKind::OpenCurly {
                j0 + 1
            } else {
                j0
            };
            p_import_list(t, j1, Seq::empty())
        }
    }
}

/// The segments of each name of a list.
pub open spec fn names_view(v: Seq<Name>) -> Seq<Seq<Seq<char>>> {
    v.map_values(|n: Name| crate::ast::views(n.name@))
}

/// Parses the import block at the top of a file: `import { a.b.c d }`. The names it
/// holds are added to the input's requests, in order.
pub fn imports(input: &mut Input, is_first_import: bool) -> (r: ParseResult<Vec<Name>>)
    requires
        old(input).wf(),
    ensures
        final(input).read_on(old(input)),
        final(input).requests@.len() == old(input).requests@.len() + r.0@.len(),
        forall|j: int|
            0 <= j < r.0@.len() ==> crate::ast::views(
                (#[trigger] final(input).requests@[old(input).requests@.len() + j]).name@,
            ) == crate::ast::views(r.0@[j].name@),
        final(input).requests@.subrange(0, old(input).requests@.len() as int) == old(
            input,
        ).requests@,
        (names_view(r.0@), final(input).pos as int, r.2) == p_imports(
            old(input).stream@,
            old(input).pos as int,
            is_first_import,
        ),
{
    let mut product: Vec<Name> = Vec::new();
    let mut errors: Vec<ParseError> = Vec::new();
    if input.peek().is_none() {
        return (product, errors, true);
    }
    if is_first_import {
        match input.expect(TokenKind::KwImport) {
            Ok(_) => {},
            Err((e, _)) => {
                errors.push(e);
            },
        }
    }
    match input.expect(TokenKind::OpenCurly) {
        Ok(Some(_)) => {},
        Ok(None) => {
            return (product, errors, true);
        },
        Err((e, _)) => {
            errors.push(e);
        },
    }
    let ghost start = input.pos as int;
    proof {
        assert(names_view(product@) =~= Seq::<Seq<Seq<char>>>::empty());
    }
    loop
        invariant_except_break
            p_import_list(input.stream@, input.pos as int, names_view(product@)) == p_imports(
                old(input).stream@,
                old(input).pos as int,
                is_first_import,
            ),
        invariant
            input.read_on(old(input)),
            input.requests@.len() == old(input).requests@.len() + product@.len(),
            forall|j: int|
                0 <= j < product@.len() ==> crate::ast::views(
                    (#[trigger] input.requests@[old(input).requests@.len() + j]).name@,
                ) == crate::ast::views(product@[j].name@),
            input.requests@.subrange(0, old(input).requests@.len() as int) == old(input).requests@,
        ensures
            (names_view(product@), input.pos as int, false) == p_imports(
                old(input).stream@,
                old(input).pos as int,
                is_first_import,
            ),
        decreases input.rest(),
    {
        match input.peek_kind() {
            Some(TokenKind::ClosedCurly) => {
                input.eat();
                break;
            },
            Some(TokenKind::Identifier) => {
                let (n, mut name_errors, is_eof) = name(input);
                errors.append(&mut name_errors);
                input.requests.push(copy_name(&n));
                let ghost before = product@;
                product.push(n);
                proof {
                    assert(names_view(product@) =~= names_view(before).push(
                        crate::ast::views(n.name@),
                    ));
                }
                if is_eof {
                    return (product, errors, true);
                }
            },
            Some(TokenKind::Comma) => {
                input.eat();
            },
            Some(k) => {
                let mut text = String::new();
                text.append("Expected `ClosedCurly` or `Identifier` but found `");
                text.append(kind_name(k));
                text.append("`.");
                errors.push(error_here(input, text.as_str()));
                if k.is_stmt() {
                    break;
                }
                input.eat();
            },
            None => {
                return (product, errors, true);
            },
        }
    }
    (product, errors, false)
}

/// The segments of a name joined by `/`.
pub open spec fn joined(segs: Seq<Seq<char>>, n: int) -> Seq<char>
    decreases n,
{
    if n <= 0 || n > segs.len() {
        Seq::empty()
    } else if n == 1 {
        segs[0]
    } else {
        joined(segs, n - 1) + "/"@ + segs[n - 1]
    }
}

pub open spec fn has_ext(s: Seq<char>) -> bool {
    s.len() >= 3 && s.subrange(s.len() - 3, s.len() as int) == ".gh"@
}

pub open spec fn with_ext(s: Seq<char>) -> Seq<char> {
    if has_ext(s) {
        s
    } else {
        s + ".gh"@
    }
}

/// The file an import names, and the symbol it picks from that file, if any. With two
/// or more segments, `prefix_is_file` says whether the path made of all but the last
/// segment is an existing file: then the last segment is a symbol of that file.
/// Otherwise the whole name is a module path.
pub open spec fn seek_spec(segs: Seq<Seq<char>>, prefix_is_file: bool) -> (Seq<char>, Option<Seq<char>>) {
    if segs.len() <= 1 {
        (with_ext(joined(segs, segs.len() as int)), None)
    } else if has_ext(segs.last()) {
        (joined(segs, segs.len() as int), None)
    } else if prefix_is_file {
        (with_ext(joined(segs, segs.len() - 1)), Some(segs.last()))
    } else {
        (with_ext(joined(segs, segs.len() as int)), None)
    }
}

fn ends_with_ext(s: &String) -> (r: bool)
    ensures
        r == has_ext(s@),
{
    let n = s.as_str().unicode_len();
    if n < 3 {
        return false;
    }
    let tail = String::from_str(s.as_str().substring_char(n - 3, n));
    tail == String::from_str(".gh")
}

pub fn join_first(segs: &Vec<String>, n: usize) -> (r: String)
    requires
        n <= segs@.len(),
    ensures
        r@ == joined(crate::ast::views(segs@), n as int),
{
    let mut out = String::new();
    let mut i: usize = 0;
    proof {
        assert(out@ =~= joined(crate::ast::views(segs@), 0));
    }
    while i < n
        invariant
            i <= n,
            n <= segs@.len(),
            out@ == joined(crate::ast::views(segs@), i as int),
        decreases n - i,
    {
        if i > 0 {
            out.append("/");
        }
        out.append(segs[i].as_str());
        i = i + 1;
        proof {
            assert(out@ =~= joined(crate::ast::views(segs@), i as int));
        }
    }
    out
}

fn add_ext(s: String) -> (r: String)
    ensures
        r@ == with_ext(s@),
{
    if ends_with_ext(&s) {
        s
    } else {
        let mut t = s;
        t.append(".gh");
        t
    }
}

/// The path that must be probed to resolve an import: the file made of all segments but
/// the last. `None` when the name has fewer than two segments or already names a file.
pub fn probe_path(name: &Name) -> (r: Option<String>)
    ensures
        r is Some <==> (name.name@.len() >= 2 && !has_ext(name.name@.last()@)),
        r is Some ==> r->0@ == with_ext(
            joined(crate::ast::views(name.name@), name.name@.len() - 1),
        ),
{
    let len = name.name.len();
    if len < 2 || ends_with_ext(&name.name[len - 1]) {
        return None;
    }
    Some(add_ext(join_first(&name.name, len - 1)))
}

/// Maps an imported name to the file it lives in and the symbol it names there.
pub fn seek_file(name: &Name, prefix_is_file: bool) -> (r: (String, Option<String>))
    ensures
        (r.0@, match r.1 {
            Some(s) => Some(s@),
            None => None,
        }) == seek_spec(crate::ast::views(name.name@), prefix_is_file),
{
    let len = name.name.len();
    let segs = &name.name;
    proof {
        assert(crate::ast::views(segs@).len() == len);
    }
    if len <= 1 {
        return (add_ext(join_first(segs, len)), None);
    }
    proof {
        assert(crate::ast::views(segs@).last() == segs@.last()@);
    }
    if ends_with_ext(&segs[len - 1]) {
        return (join_first(segs, len), None);
    }
    if prefix_is_file {
        (add_ext(join_first(segs, len - 1)), Some(segs[len - 1].clone()))
    } else {
        (add_ext(join_first(segs, len)), None)
    }
}

/// Sets the import table of a module from its import requests and, for each, whether
/// its probe path (see `probe_path`) is an existing file.
pub fn link_imports(module: &mut Module, requests: &Vec<Name>, probes: &Vec<bool>)
    requires
        requests@.len() == probes@.len(),
    ensures
        final(module).imports is Some,
        final(module).imports->0@.len() == requests@.len(),
        forall|i: int|
            0 <= i < requests@.len() ==> ({
                let e = #[trigger] final(module).imports->0@[i];
                let s = seek_spec(crate::ast::views(requests@[i].name@), probes@[i]);
                match s.1 {
                    Some(sym) => e.0 is Symbol && e.0->Symbol_0@ == sym && e.1 is Some
                        && e.1->0@ == s.0,
                    None => e.0 is Module && e.0->Module_0@ == s.0 && e.1 is None,
                }
            }),
        final(module).fn_decls == old(module).fn_decls,
        final(module).fn_defns == old(module).fn_defns,
        final(module).externs == old(module).externs,
        final(module).name == old(module).name,
{
    let mut table: Vec<(ImportKey, Option<String>)> = Vec::new();
    let mut i: usize = 0;
    while i < requests.len()
        invariant
            i <= requests@.len(),
            requests@.len() == probes@.len(),
            table@.len() == i,
            forall|j: int|
                0 <= j < i ==> ({
                    let e = #[trigger] table@[j];
                    let s = seek_spec(crate::ast::views(requests@[j].name@), probes@[j]);
                    match s.1 {
                        Some(sym) => e.0 is Symbol && e.0->Symbol_0@ == sym && e.1 is Some
                            && e.1->0@ == s.0,
                        None => e.0 is Module && e.0->Module_0@ == s.0 && e.1 is None,
                    }
                }),
        decreases requests.len() - i,
    {
        let (path, symbol) = seek_file(&requests[i], probes[i]);
        match symbol {
            Some(sym) => table.push((ImportKey::Symbol(sym), Some(path))),
            None => table.push((ImportKey::Module(path), None)),
        }
        i = i + 1;
    }
    module.imports = Some(table);
}

// Tables of a module as values.
/// A table keyed by name, as a value: each key's characters with the value `f` gives.
pub open spec fn tview<X, V>(s: Seq<(String, X)>, f: spec_fn(X) -> V) -> Seq<(Seq<char>, V)> {
    s.map_values(|e: (String, X)| (e.0@, f(e.1)))
}

/// The index of the first entry with key `k`.
pub open spec fn find_m<V>(s: Seq<(Seq<char>, V)>, k: Seq<char>) -> Option<int>
    decreases s.len(),
{
    if s.len() == 0 {
        None
    } else {
        match find_m(s.drop_last(), k) {
            Some(i) => Some(i),
            None => if s.last().0 == k {
                Some(s.len() - 1)
            } else {
                None
            },
        }
    }
}

/// The table after `k` is bound to `v`, in place of an earlier binding of `k`.
pub open spec fn ins_m<V>(s: Seq<(Seq<char>, V)>, k: Seq<char>, v: V) -> Seq<(Seq<char>, V)> {
    match find_m(s, k) {
        Some(i) => s.update(i, (k, v)),
        None => s.push((k, v)),
    }
}

/// The table without its entry for `k`.
pub open spec fn del_m<V>(s: Seq<(Seq<char>, V)>, k: Seq<char>) -> Seq<(Seq<char>, V)> {
    match find_m(s, k) {
        Some(i) => s.remove(i),
        None => s,
    }
}

pub proof fn lemma_tview_find<X, V>(s: Seq<(String, X)>, f: spec_fn(X) -> V, k: Seq<char>)
    ensures
        find_m(tview(s, f), k) == crate::ast::find_key(s, k),
    decreases s.len(),
{
    if s.len() > 0 {
        lemma_tview_find(s.drop_last(), f, k);
        assert(tview(s, f).drop_last() =~= tview(s.drop_last(), f));
    }
}

pub proof fn lemma_tview_ins<X, V>(s: Seq<(String, X)>, f: spec_fn(X) -> V, k: String, v: X)
    ensures
        tview(
            match crate::ast::find_key(s, k@) {
                Some(i) => s.update(i, (k, v)),
                None => s.push((k, v)),
            },
            f,
        ) == ins_m(tview(s, f), k@, f(v)),
{
    lemma_tview_find(s, f, k@);
    crate::ast::lemma_find_key(s, k@);
    match crate::ast::find_key(s, k@) {
        Some(i) => {
            assert(tview(s.update(i, (k, v)), f) =~= tview(s, f).update(i, (k@, f(v))));
        },
        None => {
            assert(tview(s.push((k, v)), f) =~= tview(s, f).push((k@, f(v))));
        },
    }
}

pub proof fn lemma_tview_del<X, V>(s: Seq<(String, X)>, f: spec_fn(X) -> V, k: Seq<char>)
    ensures
        tview(
            match crate::ast::find_key(s, k) {
                Some(i) => s.remove(i),
                None => s,
            },
            f,
        ) == del_m(tview(s, f), k),
{
    lemma_tview_find(s, f, k);
    crate::ast::lemma_find_key(s, k);
    match crate::ast::find_key(s, k) {
        Some(i) => {
            assert(tview(s.remove(i), f) =~= tview(s, f).remove(i));
        },
        None => {},
    }
}

/// The value of a declaration: its type.
pub open spec fn decl_f() -> spec_fn((Type, Location)) -> crate::ast::Ty {
    |v: (Type, Location)| v.0.type_value@
}

/// The value of a definition: its parameter names and its statements.
pub open spec fn defn_f() -> spec_fn((FuncNode, Location)) -> (Seq<Seq<char>>, Seq<SShape>) {
    |v: (FuncNode, Location)| (crate::ast::views(v.0.args@), sshapes_of(v.0.block@, v.0.block@.len() as int))
}

/// The value of an extern: its named parameters and its return type.
pub open spec fn extern_f() -> spec_fn((Vec<(String, TypeValue)>, TypeValue)) -> (
    Seq<(Seq<char>, crate::ast::Ty)>,
    crate::ast::Ty,
) {
    |v: (Vec<(String, TypeValue)>, TypeValue)| (named_view(v.0@), v.1@)
}

/// The three tables of a module as values: declarations, definitions, externs.
pub type Tables = (
    Seq<(Seq<char>, crate::ast::Ty)>,
    Seq<(Seq<char>, (Seq<Seq<char>>, Seq<SShape>))>,
    Seq<(Seq<char>, (Seq<(Seq<char>, crate::ast::Ty)>, crate::ast::Ty))>,
);

/// The tables after one top-level statement. A definition `f = fn ...` and a
/// declaration `f : fn ...` take `f` out of the externs; an extern `f : extern fn ...`
/// takes `f` out of the declarations and definitions, so that no name is both.
pub open spec fn classify(st: Tables, s: SShape) -> Tables {
    match s {
        SShape::Var(names, _, ty, rhs) => if names.len() != 1 {
            st
        } else {
            let k = names[0];
            match rhs {
                Shape::Func(args, body) => (st.0, ins_m(st.1, k, (args, body)), del_m(st.2, k)),
                _ => match ty {
                    crate::ast::Ty::ExFunc(ps, r) => (
                        del_m(st.0, k),
                        del_m(st.1, k),
                        ins_m(st.2, k, (ps, *r)),
                    ),
                    crate::ast::Ty::Func(_, _, _) => (ins_m(st.0, k, ty), st.1, del_m(st.2, k)),
                    _ => st,
                },
            }
        },
        _ => st,
    }
}

/// The tables after the top-level statements from token `j`.
pub open spec fn p_mod_run(t: Seq<Token>, j: int, st: Tables) -> Tables
    decreases t.len() - j,
{
    if j < 0 || j >= t.len() {
        st
    } else {
        let s = p_stmt(t, j);
        let st2 = classify(st, s.0);
        if s.2 || s.1 <= j || s.1 > t.len() {
            st2
        } else {
            p_mod_run(t, s.1, st2)
        }
    }
}

/// The tables of a file starting at token `i`, after its import block if it has one.
pub open spec fn p_module(t: Seq<Token>, i: int) -> Tables {
    let e: Tables = (Seq::empty(), Seq::empty(), Seq::empty());
    if kind_at(t, i) == Some(TokenKind::KwImport) {
        let imp = p_imports(t, i, true);
        if imp.2 {
            e
        } else {
            p_mod_run(t, imp.1, e)
        }
    } else {
        p_mod_run(t, i, e)
    }
}

/// Whether no key occurs twice in a table value.
pub open spec fn keys_m<V>(s: Seq<(Seq<char>, V)>) -> bool {
    forall|i: int, j: int| 0 <= i < j < s.len() ==> (#[trigger] s[i]).0 != (#[trigger] s[j]).0
}

/// Whether a key occurs in a table value.
pub open spec fn has_key<V>(s: Seq<(Seq<char>, V)>, k: Seq<char>) -> bool {
    exists|i: int| 0 <= i < s.len() && (#[trigger] s[i]).0 == k
}

/// Whether no extern name is also declared or defined.
pub open spec fn disjoint_m(st: Tables) -> bool {
    &&& forall|k: Seq<char>| #[trigger] has_key(st.2, k) ==> !has_key(st.0, k) && !has_key(st.1, k)
}

pub proof fn lemma_find_m<V>(s: Seq<(Seq<char>, V)>, k: Seq<char>)
    ensures
        match find_m(s, k) {
            Some(i) => 0 <= i < s.len() && s[i].0 == k,
            None => !has_key(s, k),
        },
    decreases s.len(),
{
    if s.len() > 0 {
        lemma_find_m(s.drop_last(), k);
        assert(forall|j: int| 0 <= j < s.len() - 1 ==> s.drop_last()[j] == s[j]);
        if find_m(s, k) is None {
            assert forall|j: int| 0 <= j < s.len() implies (#[trigger] s[j]).0 != k by {
                if j < s.len() - 1 {
                    assert(!has_key(s.drop_last(), k));
                    assert(s.drop_last()[j] == s[j]);
                }
            }
        }
    }
}

pub proof fn lemma_ins_m<V>(s: Seq<(Seq<char>, V)>, k: Seq<char>, v: V, q: Seq<char>)
    requires
        keys_m(s),
    ensures
        keys_m(ins_m(s, k, v)),
        has_key(ins_m(s, k, v), q) <==> (q == k || has_key(s, q)),
{
    lemma_find_m(s, k);
    let r = ins_m(s, k, v);
    match find_m(s, k) {
        Some(i) => {
            assert(forall|j: int| 0 <= j < s.len() ==> (#[trigger] r[j]).0 == s[j].0);
            if has_key(s, q) {
                let j = choose|j: int| 0 <= j < s.len() && (#[trigger] s[j]).0 == q;
                assert(r[j].0 == q);
            }
            if has_key(r, q) {
                let j = choose|j: int| 0 <= j < r.len() && (#[trigger] r[j]).0 == q;
                assert(s[j].0 == q);
            }
        },
        None => {
            assert(forall|j: int| 0 <= j < s.len() ==> (#[trigger] r[j]) == s[j]);
            assert(r[s.len() as int].0 == k);
            if has_key(s, q) {
                let j = choose|j: int| 0 <= j < s.len() && (#[trigger] s[j]).0 == q;
                assert(r[j].0 == q);
            }
            if has_key(r, q) && q != k {
                let j = choose|j: int| 0 <= j < r.len() && (#[trigger] r[j]).0 == q;
                assert(s[j].0 == q);
            }
        },
    }
}

pub proof fn lemma_del_m<V>(s: Seq<(Seq<char>, V)>, k: Seq<char>, q: Seq<char>)
    requires
        keys_m(s),
    ensures
        keys_m(del_m(s, k)),
        has_key(del_m(s, k), q) <==> (q != k && has_key(s, q)),
{
    lemma_find_m(s, k);
    let r = del_m(s, k);
    match find_m(s, k) {
        Some(i) => {
            assert(forall|j: int| 0 <= j < i ==> (#[trigger] r[j]) == s[j]);
            assert(forall|j: int| i <= j < r.len() ==> (#[trigger] r[j]) == s[j + 1]);
            if has_key(r, q) {
                let j = choose|j: int| 0 <= j < r.len() && (#[trigger] r[j]).0 == q;
                if j < i {
                    assert(s[j].0 == q);
                } else {
                    assert(s[j + 1].0 == q);
                }
            }
            if q != k && has_key(s, q) {
                let j = choose|j: int| 0 <= j < s.len() && (#[trigger] s[j]).0 == q;
                if j < i {
                    assert(r[j].0 == q);
                } else if j > i {
                    assert(r[j - 1].0 == q);
                }
            }
        },
        None => {},
    }
}

/// Checked tables stay without repeated keys and without a name that is both extern and
/// local.
pub proof fn lemma_classify_ok(st: Tables, s: SShape)
    requires
        keys_m(st.0),
        keys_m(st.1),
        keys_m(st.2),
        disjoint_m(st),
    ensures
        keys_m(classify(st, s).0),
        keys_m(classify(st, s).1),
        keys_m(classify(st, s).2),
        disjoint_m(classify(st, s)),
{
    let r = classify(st, s);
    if let SShape::Var(names, _, ty, rhs) = s {
        if names.len() == 1 {
            let k = names[0];
            assert forall|q: Seq<char>| true implies #[trigger] has_key(r.2, q) ==> !has_key(r.0, q)
                && !has_key(r.1, q) by {
                lemma_ins_m(st.0, k, ty, q);
                lemma_del_m(st.0, k, q);
                lemma_ins_m(st.1, k, (Seq::<Seq<char>>::empty(), Seq::<SShape>::empty()), q);
                lemma_del_m(st.1, k, q);
                lemma_del_m(st.2, k, q);
                match rhs {
                    Shape::Func(args, body) => {
                        lemma_ins_m(st.1, k, (args, body), q);
                    },
                    _ => match ty {
                        crate::ast::Ty::ExFunc(ps, rr) => {
                            lemma_ins_m(st.2, k, (ps, *rr), q);
                        },
                        _ => {},
                    },
                }
            }
            lemma_ins_m(st.0, k, ty, k);
            lemma_del_m(st.0, k, k);
            lemma_del_m(st.1, k, k);
            lemma_del_m(st.2, k, k);
            match rhs {
                Shape::Func(args, body) => {
                    lemma_ins_m(st.1, k, (args, body), k);
                },
                _ => match ty {
                    crate::ast::Ty::ExFunc(ps, rr) => {
                        lemma_ins_m(st.2, k, (ps, *rr), k);
                    },
                    _ => {},
                },
            }
        }
    }
}

/// Whether no extern shares its name with a declaration or a definition.
pub open spec fn tables_disjoint(m: Module) -> bool {
    &&& forall|i: int, j: int|
        0 <= i < m.externs@.len() && 0 <= j < m.fn_decls@.len() ==> (#[trigger] m.externs@[i]).0@
            != (#[trigger] m.fn_decls@[j]).0@
    &&& forall|i: int, j: int|
        0 <= i < m.externs@.len() && 0 <= j < m.fn_defns@.len() ==> (#[trigger] m.externs@[i]).0@
            != (#[trigger] m.fn_defns@[j]).0@
}

/// Adds an entry to a table keyed by name, in place of an earlier entry of that key.
pub fn table_insert<X>(table: &mut Vec<(String, X)>, key: String, value: X)
    requires
        crate::ast::keys_unique(old(table)@),
    ensures
        crate::ast::keys_unique(final(table)@),
        final(table)@ == match crate::ast::find_key(old(table)@, key@) {
            Some(i) => old(table)@.update(i, (key, value)),
            None => old(table)@.push((key, value)),
        },
{
    let ghost k = key@;
    let ghost kk = key;
    let ghost vv = value;
    proof {
        crate::ast::lemma_find_key(table@, k);
    }
    match crate::ast::find_entry(table, &key) {
        Some(i) => {
            let ghost before = table@;
            table.set(i, (key, value));
            proof {
                assert(table@ =~= before.update(i as int, (kk, vv)));
                assert(forall|j: int| 0 <= j < table@.len() && j != i ==> table@[j] == before[j]);
            }
        },
        None => {
            let ghost before = table@;
            table.push((key, value));
            proof {
                assert(forall|j: int| 0 <= j < before.len() ==> table@[j] == before[j]);
            }
        },
    }
}

/// Takes the entry of a key out of a table, if there is one.
pub fn table_remove<X>(table: &mut Vec<(String, X)>, key: &String)
    requires
        crate::ast::keys_unique(old(table)@),
    ensures
        crate::ast::keys_unique(final(table)@),
        final(table)@ == match crate::ast::find_key(old(table)@, key@) {
            Some(i) => old(table)@.remove(i),
            None => old(table)@,
        },
{
    match crate::ast::find_entry(table, key) {
        Some(i) => {
            let ghost before = table@;
            table.remove(i);
            proof {
                assert(forall|j: int| 0 <= j < i ==> table@[j] == before[j]);
                assert(forall|j: int| i <= j < table@.len() ==> table@[j] == before[j + 1]);
            }
        },
        None => {},
    }
}

/// Whether a table value has its keys once each when its table does.
pub proof fn lemma_tview_keys<X, V>(s: Seq<(String, X)>, f: spec_fn(X) -> V)
    requires
        crate::ast::keys_unique(s),
    ensures
        keys_m(tview(s, f)),
        forall|k: Seq<char>| #[trigger] has_key(tview(s, f), k) <==> exists|i: int|
            0 <= i < s.len() && (#[trigger] s[i]).0@ == k,
{
    assert forall|k: Seq<char>| #[trigger] has_key(tview(s, f), k) implies exists|i: int|
        0 <= i < s.len() && (#[trigger] s[i]).0@ == k by {
        let i = choose|i: int| 0 <= i < tview(s, f).len() && (#[trigger] tview(s, f)[i]).0 == k;
        assert(s[i].0@ == k);
    }
    assert forall|k: Seq<char>| (exists|i: int| 0 <= i < s.len() && (#[trigger] s[i]).0@ == k) implies #[trigger] has_key(
        tview(s, f),
        k,
    ) by {
        let i = choose|i: int| 0 <= i < s.len() && (#[trigger] s[i]).0@ == k;
        assert(tview(s, f)[i].0 == k);
    }
}

/// The tables of a module as values.
pub open spec fn tables_of(
    d: Seq<(String, (Type, Location))>,
    f: Seq<(String, (FuncNode, Location))>,
    e: Seq<(String, (Vec<(String, TypeValue)>, TypeValue))>,
) -> Tables {
    (tview(d, decl_f()), tview(f, defn_f()), tview(e, extern_f()))
}

/// Files one top-level statement into the tables of a module.
fn classify_stmt(
    s: Stmt,
    fn_decls: &mut Vec<(String, (Type, Location))>,
    fn_defns: &mut Vec<(String, (FuncNode, Location))>,
    externs: &mut Vec<(String, (Vec<(String, TypeValue)>, TypeValue))>,
    doc_comments: &mut Vec<DocComment>,
)
    requires
        crate::ast::keys_unique(old(fn_decls)@),
        crate::ast::keys_unique(old(fn_defns)@),
        crate::ast::keys_unique(old(externs)@),
    ensures
        crate::ast::keys_unique(final(fn_decls)@),
        crate::ast::keys_unique(final(fn_defns)@),
        crate::ast::keys_unique(final(externs)@),
        tables_of(final(fn_decls)@, final(fn_defns)@, final(externs)@) == classify(
            tables_of(old(fn_decls)@, old(fn_defns)@, old(externs)@),
            sshape_of(s),
        ),
{
    let ghost sh = sshape_of(s);
    match s {
        Stmt::Var(var) => {
            let one_name = var.lhs.name.len() == 1;
            let is_defn = match &var.rhs {
                Expr::Func(_) => true,
                _ => false,
            };
            if !one_name {
                return;
            }
            let key = var.lhs.name[0].clone();
            let location = var.lhs.location;
            proof {
                assert(crate::ast::views(var.lhs.name@)[0] == key@);
            }
            if is_defn {
                if let Expr::Func(mut node) = var.rhs {
                    let ghost fv = (crate::ast::views(node.args@), sshapes_of(node.block@, node.block@.len() as int));
                    node.name = Name::new(var.lhs.name, location);
                    let mut docs: Vec<DocComment> = Vec::new();
                    docs.append(doc_comments);
                    node.doc_comments = docs;
                    let ghost old_f = fn_defns@;
                    let ghost old_e = externs@;
                    let ghost kk = key;
                    table_remove(externs, &key);
                    table_insert(fn_defns, key, (node, location));
                    proof {
                        lemma_tview_ins(old_f, defn_f(), kk, (node, location));
                        lemma_tview_del(old_e, extern_f(), kk@);
                        assert(defn_f()((node, location)) == fv);
                    }
                }
            } else {
                match var._type.type_value {
                    TypeValue::ExFunc(params, ret) => {
                        let ghost old_d = fn_decls@;
                        let ghost old_f = fn_defns@;
                        let ghost old_e = externs@;
                        let ghost kk = key;
                        let ghost vv = (params, *ret);
                        table_remove(fn_decls, &key);
                        table_remove(fn_defns, &key);
                        table_insert(externs, key, (params, *ret));
                        proof {
                            lemma_tview_del(old_d, decl_f(), kk@);
                            lemma_tview_del(old_f, defn_f(), kk@);
                            lemma_tview_ins(old_e, extern_f(), kk, vv);
                        }
                    },
                    TypeValue::Func(params, ret, is_extern) => {
                        let t = Type {
                            type_value: TypeValue::Func(params, ret, is_extern),
                            location: var._type.location,
                        };
                        let ghost old_d = fn_decls@;
                        let ghost old_e = externs@;
                        let ghost kk = key;
                        let ghost vv = (t, location);
                        table_remove(externs, &key);
                        table_insert(fn_decls, key, (t, location));
                        proof {
                            lemma_tview_ins(old_d, decl_f(), kk, vv);
                            lemma_tview_del(old_e, extern_f(), kk@);
                        }
                    },
                    _ => {},
                }
            }
        },
        Stmt::DocComment(md) => {
            doc_comments.push(md);
        },
        _ => {},
    }
}

/// The well-formedness of a module: each table has each key at most once.
pub open spec fn module_wf(m: Module) -> bool {
    &&& crate::ast::keys_unique(m.fn_decls@)
    &&& crate::ast::keys_unique(m.fn_defns@)
    &&& crate::ast::keys_unique(m.externs@)
}

/// Parses a whole file into a module named `name`. Function definitions (`f = fn...`),
/// declarations (`f : fn...`) and externs (`f : extern fn...`) go to their tables; the
/// import block's names are added to the input's requests, and the import table is
/// present, empty, until `link_imports` fills it.
pub fn module(input: &mut Input, name: String) -> (r: Module)
    requires
        old(input).wf(),
    ensures
        final(input).read_on(old(input)),
        module_wf(r),
        tables_disjoint(r),
        r.name == name,
        tables_of(r.fn_decls@, r.fn_defns@, r.externs@) == p_module(
            old(input).stream@,
            old(input).pos as int,
        ),
        r.imports is Some <==> kind_at(old(input).stream@, old(input).pos as int) == Some(
            TokenKind::KwImport,
        ),
        r.imports is Some ==> r.imports->0@.len() == 0,
        names_view(final(input).requests@) == names_view(old(input).requests@) + if kind_at(
            old(input).stream@,
            old(input).pos as int,
        ) == Some(TokenKind::KwImport) {
            p_imports(old(input).stream@, old(input).pos as int, true).0
        } else {
            Seq::empty()
        },
{
    let mut fn_decls: Vec<(String, (Type, Location))> = Vec::new();
    let mut fn_defns: Vec<(String, (FuncNode, Location))> = Vec::new();
    let mut externs: Vec<(String, (Vec<(String, TypeValue)>, TypeValue))> = Vec::new();
    let mut imports_table: Option<Vec<(ImportKey, Option<String>)>> = None;
    let mut doc_comments: Vec<DocComment> = Vec::new();
    let ghost t = input.stream@;
    let ghost e: Tables = (Seq::empty(), Seq::empty(), Seq::empty());
    proof {
        assert(tables_of(fn_decls@, fn_defns@, externs@) == e) by {
            assert(tview(fn_decls@, decl_f()) =~= e.0);
            assert(tview(fn_defns@, defn_f()) =~= e.1);
            assert(tview(externs@, extern_f()) =~= e.2);
        }
        assert(names_view(input.requests@) =~= names_view(old(input).requests@) + Seq::<Seq<Seq<char>>>::empty());
    }
    if input.peek_kind() == Some(TokenKind::KwImport) {
        let ghost before = input.requests@;
        let (names, _errors, is_eof) = imports(input, true);
        imports_table = Some(Vec::new());
        proof {
            assert forall|j: int| 0 <= j < before.len() implies input.requests@[j] == before[j] by {
                assert(input.requests@.subrange(0, before.len() as int)[j] == input.requests@[j]);
            }
            assert forall|j: int| 0 <= j < names@.len() implies names_view(input.requests@)[before.len() + j]
                == names_view(names@)[j] by {
                assert(crate::ast::views(input.requests@[before.len() + j].name@) == crate::ast::views(
                    names@[j].name@,
                ));
            }
            assert(names_view(input.requests@) =~= names_view(before) + names_view(names@));
        }
        if is_eof {
            return Module { name, imports: imports_table, fn_decls, fn_defns, externs };
        }
    }
    let ghost requests_after = input.requests@;
    loop
        invariant_except_break
            p_mod_run(t, input.pos as int, tables_of(fn_decls@, fn_defns@, externs@)) == p_module(
                t,
                old(input).pos as int,
            ),
        invariant
            input.read_on(old(input)),
            input.stream@ == t,
            t == old(input).stream@,
            input.requests@ == requests_after,
            crate::ast::keys_unique(fn_decls@),
            crate::ast::keys_unique(fn_defns@),
            crate::ast::keys_unique(externs@),
            disjoint_m(tables_of(fn_decls@, fn_defns@, externs@)),
            imports_table is Some <==> kind_at(t, old(input).pos as int) == Some(TokenKind::KwImport),
            imports_table is Some ==> imports_table->0@.len() == 0,
        ensures
            tables_of(fn_decls@, fn_defns@, externs@) == p_module(t, old(input).pos as int),
        decreases input.rest(),
    {
        let ghost st = tables_of(fn_decls@, fn_defns@, externs@);
        let ghost j = input.pos as int;
        let (s, is_eof) = match stmt(input) {
            Some(res) => res,
            None => break,
        };
        proof {
            lemma_tview_keys(fn_decls@, decl_f());
            lemma_tview_keys(fn_defns@, defn_f());
            lemma_tview_keys(externs@, extern_f());
            lemma_classify_ok(st, sshape_of(s));
        }
        classify_stmt(s, &mut fn_decls, &mut fn_defns, &mut externs, &mut doc_comments);
        if is_eof {
            break;
        }
    }
    proof {
        lemma_tview_keys(fn_decls@, decl_f());
        lemma_tview_keys(fn_defns@, defn_f());
        lemma_tview_keys(externs@, extern_f());
        let st = tables_of(fn_decls@, fn_defns@, externs@);
        assert forall|i: int, j: int|
            0 <= i < externs@.len() && 0 <= j < fn_decls@.len() implies (#[trigger] externs@[i]).0@
            != (#[trigger] fn_decls@[j]).0@ by {
            assert(has_key(st.2, externs@[i].0@));
            if externs@[i].0@ == fn_decls@[j].0@ {
                assert(has_key(st.0, fn_decls@[j].0@));
            }
        }
        assert forall|i: int, j: int|
            0 <= i < externs@.len() && 0 <= j < fn_defns@.len() implies (#[trigger] externs@[i]).0@
            != (#[trigger] fn_defns@[j]).0@ by {
            assert(has_key(st.2, externs@[i].0@));
            if externs@[i].0@ == fn_defns@[j].0@ {
                assert(has_key(st.1, fn_defns@[j].0@));
            }
        }
    }
    Module { name, imports: imports_table, fn_decls, fn_defns, externs }
}

} // verus!
