//! The token scanner: source text in, a flat stream of tokens out, each with
//! the line and the column at which it starts.

use super::error::{model_of, ErrorView, ParseError};
use super::parser::{lemma_skip_blank, skip_blank, skip_blank_in, unexpected};
use super::text::{
    col_of, copy_range, is_word_char, lemma_position_bounds, lemma_run_end_is, line_of,
    run_end, space, to_chars, word_char, CharClass,
};
use vstd::prelude::*;

verus! {

/// What a token is.
#[derive(Clone, Debug, PartialEq, Eq)]
pub enum TokenKind {
    /// `@`
    At,
    /// `{`
    OpenBrace,
    /// `}`
    CloseBrace,
    /// `(`
    OpenParen,
    /// `)`
    CloseParen,
    /// `,`
    Comma,
    /// `=`
    Equals,
    /// `#`
    Hash,
    /// `"`
    Quote,
    /// An identifier: a run of ASCII letters, digits, `-`, `:` and `_`.
    Ident(String),
    /// The end of the input.
    Eof,
}

/// A `TokenKind` as a mathematical value.
pub enum TokenKindView {
    At,
    OpenBrace,
    CloseBrace,
    OpenParen,
    CloseParen,
    Comma,
    Equals,
    Hash,
    Quote,
    Ident(Seq<char>),
    Eof,
}

impl View for TokenKind {
    type V = TokenKindView;

    open spec fn view(&self) -> TokenKindView {
        match self {
            TokenKind::At => TokenKindView::At,
            TokenKind::OpenBrace => TokenKindView::OpenBrace,
            TokenKind::CloseBrace => TokenKindView::CloseBrace,
            TokenKind::OpenParen => TokenKindView::OpenParen,
            TokenKind::CloseParen => TokenKindView::CloseParen,
            TokenKind::Comma => TokenKindView::Comma,
            TokenKind::Equals => TokenKindView::Equals,
            TokenKind::Hash => TokenKindView::Hash,
            TokenKind::Quote => TokenKindView::Quote,
            TokenKind::Ident(name) => TokenKindView::Ident(name@),
            TokenKind::Eof => TokenKindView::Eof,
        }
    }
}

impl TokenKind {
    /// Whether the token marks the end of the input.
    pub fn is_eof(&self) -> (b: bool)
        ensures
            b == (self@ is Eof),
    {
        matches!(self, TokenKind::Eof)
    }
}

/// A token and the place where it starts. Lines and columns count from 1.
#[derive(Clone, Debug, PartialEq, Eq)]
pub struct Token {
    pub kind: TokenKind,
    pub line: usize,
    pub col: usize,
}

/// A `Token` as a mathematical value.
pub struct TokenView {
    pub kind: TokenKindView,
    pub line: int,
    pub col: int,
}

impl View for Token {
    type V = TokenView;

    open spec fn view(&self) -> TokenView {
        TokenView { kind: self.kind@, line: self.line as int, col: self.col as int }
    }
}

impl DeepView for Token {
    type V = TokenView;

    open spec fn deep_view(&self) -> TokenView {
        self@
    }
}

/// The tokens of a source text, in source order.
#[derive(Clone, Debug, PartialEq, Eq)]
pub struct Tokens {
    stream: Vec<Token>,
}

impl View for Tokens {
    type V = Seq<TokenView>;

    closed spec fn view(&self) -> Seq<TokenView> {
        self.stream.deep_view()
    }
}

impl DeepView for Tokens {
    type V = Seq<TokenView>;

    open spec fn deep_view(&self) -> Seq<TokenView> {
        self@
    }
}

impl Tokens {
    /// A stream without tokens.
    pub fn new() -> (tokens: Self)
        ensures
            tokens@ == Seq::<TokenView>::empty(),
    {
        let tokens = Tokens { stream: Vec::new() };
        assert(tokens.stream.deep_view() =~= Seq::<TokenView>::empty());
        tokens
    }

    /// Adds a token at the end of the stream.
    pub fn push(&mut self, token: Token)
        ensures
            final(self)@ == old(self)@.push(token@),
    {
        self.stream.push(token);
        assert(self.stream.deep_view() =~= old(self).stream.deep_view().push(token@));
    }

    /// The number of tokens.
    pub fn len(&self) -> (n: usize)
        ensures
            n == self@.len(),
    {
        self.stream.len()
    }

    /// The token at position `i`, counted from 0, if the stream is that long.
    pub fn get(&self, i: usize) -> (token: Option<&Token>)
        ensures
            match token {
                Some(t) => i < self@.len() && t@ == self@[i as int],
                None => i >= self@.len(),
            },
    {
        if i < self.stream.len() {
            Some(&self.stream[i])
        } else {
            None
        }
    }
}

/// A line or column number as the machine holds it: the number itself, or
/// the largest machine number where it is larger than that. A number below
/// the length of the source is never cut.
pub open spec fn clip(n: int) -> int {
    if n > usize::MAX {
        usize::MAX as int
    } else {
        n
    }
}

/// The token that a single character is, if it is one.
pub open spec fn punctuation(c: char) -> Option<TokenKindView> {
    if c == '@' {
        Some(TokenKindView::At)
    } else if c == '{' {
        Some(TokenKindView::OpenBrace)
    } else if c == '}' {
        Some(TokenKindView::CloseBrace)
    } else if c == '(' {
        Some(TokenKindView::OpenParen)
    } else if c == ')' {
        Some(TokenKindView::CloseParen)
    } else if c == ',' {
        Some(TokenKindView::Comma)
    } else if c == '=' {
        Some(TokenKindView::Equals)
    } else if c == '#' {
        Some(TokenKindView::Hash)
    } else if c == '"' {
        Some(TokenKindView::Quote)
    } else {
        None
    }
}

/// The next token at or after `i`, and the position behind it. Blank text,
/// that is whitespace and `%` comments, is passed over. At the end of the
/// input the token is `Eof`. A character that starts no token is a fault.
pub open spec fn next_token_at(s: Seq<char>, i: int) -> Result<(TokenView, int), ErrorView> {
    let j = skip_blank(s, i);
    let line = clip(line_of(s, j));
    let col = clip(col_of(s, j));
    if j >= s.len() {
        Ok((TokenView { kind: TokenKindView::Eof, line, col }, j))
    } else {
        match punctuation(s[j]) {
            Some(kind) => Ok((TokenView { kind, line, col }, j + 1)),
            None => if is_word_char(s[j]) {
                let e = run_end(s, j, s.len() as int, CharClass::Word);
                Ok((TokenView { kind: TokenKindView::Ident(s.subrange(j, e)), line, col }, e))
            } else {
                Err(unexpected(s, j, '@'))
            },
        }
    }
}

/// The tokens from `i` to the end of the input. The last token is `Eof`, and
/// no other is.
pub open spec fn tokens_from(s: Seq<char>, i: int) -> Result<Seq<TokenView>, ErrorView>
    decreases s.len() - i,
    when 0 <= i <= s.len()
    via tokens_from_decreases
{
    match next_token_at(s, i) {
        Err(e) => Err(e),
        Ok((token, next)) => if token.kind is Eof {
            Ok(seq![token])
        } else {
            match tokens_from(s, next) {
                Err(e) => Err(e),
                Ok(rest) => Ok(seq![token] + rest),
            }
        },
    }
}

#[via_fn]
proof fn tokens_from_decreases(s: Seq<char>, i: int) {
    lemma_next_token_at(s, i);
}

/// Where the scanner is left when it fails: at the character that starts no
/// token.
pub open spec fn tokens_stop(s: Seq<char>, i: int) -> int
    decreases s.len() - i,
    when 0 <= i <= s.len()
    via tokens_stop_decreases
{
    match next_token_at(s, i) {
        Err(_) => skip_blank(s, i),
        Ok((token, next)) => if token.kind is Eof {
            next
        } else {
            tokens_stop(s, next)
        },
    }
}

#[via_fn]
proof fn tokens_stop_decreases(s: Seq<char>, i: int) {
    lemma_next_token_at(s, i);
}

/// A token that is not `Eof` ends after its start and within the input.
pub proof fn lemma_next_token_at(s: Seq<char>, i: int)
    requires
        0 <= i <= s.len(),
    ensures
        next_token_at(s, i) matches Ok((token, next)) ==> i <= next <= s.len() && (token.kind is Eof
            || i < next),
{
    lemma_skip_blank(s, i, false);
    let j = skip_blank(s, i);
    if j < s.len() {
        super::text::lemma_run_end(s, j, s.len() as int, CharClass::Word);
    }
}

/// Whether a stream of tokens is closed by `Eof` and holds no other `Eof`.
pub open spec fn ends_with_eof(tokens: Seq<TokenView>) -> bool {
    &&& tokens.len() > 0
    &&& tokens.last().kind is Eof
    &&& forall|k: int| 0 <= k < tokens.len() - 1 ==> !((#[trigger] tokens[k]).kind is Eof)
}

/// The stream always ends with the end-of-input token, and with that one
/// only.
pub proof fn lemma_stream_end(s: Seq<char>, i: int)
    requires
        0 <= i <= s.len(),
    ensures
        tokens_from(s, i) matches Ok(tokens) ==> ends_with_eof(tokens),
    decreases s.len() - i,
{
    lemma_next_token_at(s, i);
    if let Ok((token, next)) = next_token_at(s, i) {
        if !(token.kind is Eof) {
            lemma_stream_end(s, next);
            if let Ok(rest) = tokens_from(s, next) {
                let all = seq![token] + rest;
                assert(all.last() == rest.last());
                assert forall|k: int| 0 <= k < all.len() - 1 implies !((#[trigger] all[k]).kind
                    is Eof) by {
                    if k > 0 {
                        assert(all[k] == rest[k - 1]);
                    }
                }
            }
        }
    }
}

/// Where the scanner stands: a position, and the line and column of it.
#[derive(Clone, Copy, Debug)]
struct Place {
    index: usize,
    line: usize,
    col: usize,
}

/// The token scanner.
pub struct Lexer {
    input: Vec<char>,
    at: Place,
}

impl Lexer {
    #[verifier::type_invariant]
    spec fn placed(self) -> bool {
        &&& self.at.index <= self.input.len()
        &&& self.at.line == clip(line_of(self.input@, self.at.index as int))
        &&& self.at.col == clip(col_of(self.input@, self.at.index as int))
    }

    /// The characters of the source.
    pub closed spec fn source(&self) -> Seq<char> {
        self.input@
    }

    /// The position of the scanner: the number of characters behind it.
    pub closed spec fn position(&self) -> int {
        self.at.index as int
    }

    /// A scanner at the start of the given source.
    pub fn new(input: &str) -> (lexer: Self)
        ensures
            lexer.source() == input@,
            lexer.position() == 0,
            lexer.position() <= lexer.source().len(),
    {
        Lexer { input: to_chars(input), at: Place { index: 0, line: 1, col: 1 } }
    }

    /// Scans the source from the position of the scanner to its end. The
    /// result is the tokens in source order, closed by `Eof`, or the first
    /// fault.
    pub fn tokenize(&mut self) -> (result: Result<Tokens, ParseError>)
        ensures
            final(self).source() == old(self).source(),
            model_of(result) == tokens_from(old(self).source(), old(self).position()),
            result matches Ok(tokens) ==> ends_with_eof(tokens@),
            result is Ok ==> final(self).position() == final(self).source().len(),
            result is Err ==> final(self).position() == tokens_stop(
                old(self).source(),
                old(self).position(),
            ),
            0 <= old(self).position() <= final(self).position() <= final(self).source().len(),
    {
        let ghost s = self.input@;
        let ghost start = self.at.index as int;
        let mut tokens = Tokens::new();
        proof {
            use_type_invariant(&*self);
            assert(tokens@ + tokens_from(s, start)->Ok_0 =~= tokens_from(s, start)->Ok_0);
        }
        loop
            invariant_except_break
                tokens_stop(s, start) == tokens_stop(s, self.at.index as int),
                tokens_from(s, start) == match tokens_from(s, self.at.index as int) {
                    Ok(rest) => Ok::<Seq<TokenView>, ErrorView>(tokens@ + rest),
                    Err(e) => Err(e),
                },
            invariant
                self.input@ == s,
                old(self).source() == s,
                old(self).position() == start,
                0 <= start <= self.at.index <= s.len(),
            ensures
                self.input@ == s,
                self.at.index == s.len(),
                tokens_from(s, start) == Ok::<Seq<TokenView>, ErrorView>(tokens@),
            decreases s.len() - self.at.index,
        {
            let ghost i = self.at.index as int;
            let ghost before = tokens@;
            proof {
                lemma_next_token_at(s, i);
            }
            let token = match self.next_token() {
                Err(e) => {
                    return Err(e);
                },
                Ok(token) => token,
            };
            proof {
                use_type_invariant(&*self);
            }
            let last = token.kind.is_eof();
            tokens.push(token);
            proof {
                assert(tokens@ =~= before + seq![token@]);
                if !last {
                    match tokens_from(s, self.at.index as int) {
                        Ok(rest) => {
                            assert((before + seq![token@]) + rest =~= before + (seq![token@]
                                + rest));
                        },
                        Err(e) => {},
                    }
                }
            }
            if last {
                break ;
            }
        }
        proof {
            lemma_stream_end(s, start);
        }
        Ok(tokens)
    }

    /// Passes over one character, if the scanner is not at the end, and
    /// returns it.
    pub fn advance(&mut self) -> (c: Option<char>)
        ensures
            final(self).source() == old(self).source(),
            c == if old(self).position() < old(self).source().len() {
                Some(old(self).source()[old(self).position()])
            } else {
                None
            },
            final(self).position() == if c is Some {
                old(self).position() + 1
            } else {
                old(self).position()
            },
            0 <= old(self).position() <= final(self).position() <= final(self).source().len(),
    {
        proof {
            use_type_invariant(&*self);
        }
        let Place { index, line, col } = self.at;
        if index < self.input.len() {
            let c = self.input[index];
            if c == '\n' {
                let next: usize = if line < usize::MAX {
                    line + 1
                } else {
                    line
                };
                self.at = Place { index: index + 1, line: next, col: 1 };
            } else {
                let next: usize = if col < usize::MAX {
                    col + 1
                } else {
                    col
                };
                self.at = Place { index: index + 1, line, col: next };
            }
            Some(c)
        } else {
            None
        }
    }

    /// Scans the next token. At the end of the input every call returns
    /// `Eof`.
    pub fn next_token(&mut self) -> (result: Result<Token, ParseError>)
        ensures
            final(self).source() == old(self).source(),
            match next_token_at(old(self).source(), old(self).position()) {
                Ok((token, next)) => result matches Ok(t) && t@ == token && final(self).position()
                    == next,
                Err(e) => result matches Err(x) && x@ == e && final(self).position() == skip_blank(
                    old(self).source(),
                    old(self).position(),
                ),
            },
            0 <= old(self).position() <= final(self).position() <= final(self).source().len(),
    {
        let ghost s = self.input@;
        self.skip_whitespace();
        proof {
            use_type_invariant(&*self);
            lemma_position_bounds(s, self.at.index as int);
        }
        let Place { index, line, col } = self.at;
        if index >= self.input.len() {
            return Ok(Token { kind: TokenKind::Eof, line, col });
        }
        let c = self.input[index];
        let kind = if c == '@' {
            TokenKind::At
        } else if c == '{' {
            TokenKind::OpenBrace
        } else if c == '}' {
            TokenKind::CloseBrace
        } else if c == '(' {
            TokenKind::OpenParen
        } else if c == ')' {
            TokenKind::CloseParen
        } else if c == ',' {
            TokenKind::Comma
        } else if c == '=' {
            TokenKind::Equals
        } else if c == '#' {
            TokenKind::Hash
        } else if c == '"' {
            TokenKind::Quote
        } else if word_char(c) {
            while self.at.index < self.input.len() && word_char(self.input[self.at.index])
                invariant
                    self.input@ == s,
                    index <= self.at.index <= s.len(),
                    forall|m: int|
                        index <= m < self.at.index ==> CharClass::Word.has(#[trigger] s[m]),
                decreases s.len() - self.at.index,
            {
                self.advance();
            }
            proof {
                lemma_run_end_is(
                    s,
                    index as int,
                    s.len() as int,
                    CharClass::Word,
                    self.at.index as int,
                );
            }
            return Ok(
                Token {
                    kind: TokenKind::Ident(copy_range(&self.input, index, self.at.index)),
                    line,
                    col,
                },
            );
        } else {
            return Err(ParseError::UnexpectedCharacter { expected: '@', found: c, line, col });
        };
        self.advance();
        Ok(Token { kind, line, col })
    }

    /// Passes over blank text: whitespace, and comments from a `%` to the
    /// end of its line.
    pub fn skip_whitespace(&mut self)
        ensures
            final(self).source() == old(self).source(),
            final(self).position() == skip_blank(old(self).source(), old(self).position()),
            0 <= old(self).position() <= final(self).position() <= final(self).source().len(),
    {
        let ghost s = self.input@;
        let ghost start = self.at.index as int;
        proof {
            use_type_invariant(&*self);
        }
        let mut comment = false;
        while self.at.index < self.input.len() && (comment || self.input[self.at.index] == '%'
            || space(self.input[self.at.index]))
            invariant
                self.input@ == s,
                start <= self.at.index <= s.len(),
                skip_blank_in(s, self.at.index as int, comment) == skip_blank(s, start),
            decreases s.len() - self.at.index,
        {
            let c = self.input[self.at.index];
            if comment {
                comment = c != '\n';
            } else if c == '%' {
                comment = true;
            }
            self.advance();
        }
        proof {
            if self.at.index < s.len() {
                assert(!comment);
            } else {
                reveal_with_fuel(skip_blank_in, 2);
            }
        }
    }
}

} // verus!
