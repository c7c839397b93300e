//! The lexer: turns source text into a token sequence ending in an EOF
//! token, or reports a syntax error with its 1-based line.
//!
//! The whole lexical grammar is captured by the specification function
//! [`lex_from`]; [`Source::tokenize`] is proved to produce exactly the
//! token sequence that [`lex_from`] describes.

use vstd::prelude::*;

use crate::error::{ErrorType, RunError, RunErrorG};
use crate::token::{Token, TokenG, TokenType};

verus! {

// ---------------------------------------------------------------------------
// Character classes
// ---------------------------------------------------------------------------

/// ASCII decimal digit.
pub open spec fn is_digit_char(c: char) -> bool {
    '0' <= c && c <= '9'
}

/// ASCII letter: identifiers start with one of these.
pub open spec fn is_alpha_char(c: char) -> bool {
    ('a' <= c && c <= 'z') || ('A' <= c && c <= 'Z')
}

/// Character allowed inside an identifier after the first one.
pub open spec fn is_ident_char(c: char) -> bool {
    is_alpha_char(c) || is_digit_char(c) || c == '_'
}

/// Characters that form a one-character token on their own.
pub open spec fn is_single_char(c: char) -> bool {
    c == '+' || c == '-' || c == '*' || c == '/' || c == '%' || c == '(' || c == ')' || c == '{'
        || c == '}' || c == ',' || c == '&' || c == '|'
}

/// The kind of a one-character token.
pub open spec fn single_kind(c: char) -> TokenType {
    if c == '+' {
        TokenType::Plus
    } else if c == '-' {
        TokenType::Minus
    } else if c == '*' {
        TokenType::Star
    } else if c == '/' {
        TokenType::Slash
    } else if c == '%' {
        TokenType::Modulo
    } else if c == '(' {
        TokenType::LParen
    } else if c == ')' {
        TokenType::RParen
    } else if c == '{' {
        TokenType::LBrace
    } else if c == '}' {
        TokenType::RBrace
    } else if c == ',' {
        TokenType::Comma
    } else if c == '&' {
        TokenType::Ampersand
    } else {
        TokenType::Pipe
    }
}

/// Characters that start a one- or two-character token, the two-character
/// form being the character followed by `=`.
pub open spec fn is_pair_start(c: char) -> bool {
    c == '<' || c == '>' || c == '=' || c == '!'
}

/// The kind of `c` alone, for `c` in `< > = !`.
pub open spec fn pair_alone_kind(c: char) -> TokenType {
    if c == '<' {
        TokenType::Less
    } else if c == '>' {
        TokenType::Greater
    } else if c == '=' {
        TokenType::Equal
    } else {
        TokenType::Bang
    }
}

/// The kind of `c` followed by `=`, for `c` in `< > = !`.
pub open spec fn pair_eq_kind(c: char) -> TokenType {
    if c == '<' {
        TokenType::LessEqual
    } else if c == '>' {
        TokenType::GreaterEqual
    } else if c == '=' {
        TokenType::EqualEqual
    } else {
        TokenType::BangEqual
    }
}

// ---------------------------------------------------------------------------
// Scanners: lengths of maximal character runs
// ---------------------------------------------------------------------------

/// Length of the maximal run of decimal digits starting at `i`.
pub open spec fn digits_len(cs: Seq<char>, i: int) -> nat
    decreases cs.len() - i,
{
    if 0 <= i && i < cs.len() && is_digit_char(cs[i]) {
        1 + digits_len(cs, i + 1)
    } else {
        0
    }
}

/// Length of a numeric literal starting at `i`: one or more digits,
/// optionally followed by a dot and one or more digits. A dot without a
/// digit after it is not part of the literal, so it falls to the
/// unexpected-character case.
pub open spec fn num_len(cs: Seq<char>, i: int) -> nat {
    let d = digits_len(cs, i) as int;
    if i + d < cs.len() && cs[i + d] == '.' && i + d + 1 < cs.len() && is_digit_char(
        cs[i + d + 1],
    ) {
        (d + 1 + digits_len(cs, i + d + 1)) as nat
    } else {
        d as nat
    }
}

/// Length of the maximal run of identifier characters starting at `i`.
pub open spec fn ident_len(cs: Seq<char>, i: int) -> nat
    decreases cs.len() - i,
{
    if 0 <= i && i < cs.len() && is_ident_char(cs[i]) {
        1 + ident_len(cs, i + 1)
    } else {
        0
    }
}

/// Length of a string literal's body starting at `i`: everything up to the
/// closing quote, an unescapable newline, or the end of input.
pub open spec fn str_len(cs: Seq<char>, i: int) -> nat
    decreases cs.len() - i,
{
    if 0 <= i && i < cs.len() && cs[i] != '"' && cs[i] != '\n' {
        1 + str_len(cs, i + 1)
    } else {
        0
    }
}

/// Length of the offending character run reported by a syntax error:
/// everything up to a space, a newline, or the end of input.
pub open spec fn err_len(cs: Seq<char>, i: int) -> nat
    decreases cs.len() - i,
{
    if 0 <= i && i < cs.len() && cs[i] != ' ' && cs[i] != '\n' {
        1 + err_len(cs, i + 1)
    } else {
        0
    }
}

proof fn lemma_digits_len_bound(cs: Seq<char>, i: int)
    requires
        0 <= i <= cs.len(),
    ensures
        i + digits_len(cs, i) <= cs.len(),
    decreases cs.len() - i,
{
    if i < cs.len() && is_digit_char(cs[i]) {
        lemma_digits_len_bound(cs, i + 1);
    }
}

proof fn lemma_num_len_bound(cs: Seq<char>, i: int)
    requires
        0 <= i <= cs.len(),
    ensures
        i + num_len(cs, i) <= cs.len(),
{
    lemma_digits_len_bound(cs, i);
    let d = digits_len(cs, i) as int;
    if i + d < cs.len() && cs[i + d] == '.' && i + d + 1 < cs.len() && is_digit_char(
        cs[i + d + 1],
    ) {
        lemma_digits_len_bound(cs, i + d + 1);
    }
}

proof fn lemma_ident_len_bound(cs: Seq<char>, i: int)
    requires
        0 <= i <= cs.len(),
    ensures
        i + ident_len(cs, i) <= cs.len(),
    decreases cs.len() - i,
{
    if i < cs.len() && is_ident_char(cs[i]) {
        lemma_ident_len_bound(cs, i + 1);
    }
}

proof fn lemma_str_len_bound(cs: Seq<char>, i: int)
    requires
        0 <= i <= cs.len(),
    ensures
        i + str_len(cs, i) <= cs.len(),
    decreases cs.len() - i,
{
    if i < cs.len() && cs[i] != '"' && cs[i] != '\n' {
        lemma_str_len_bound(cs, i + 1);
    }
}

proof fn lemma_err_len_bound(cs: Seq<char>, i: int)
    requires
        0 <= i <= cs.len(),
    ensures
        i + err_len(cs, i) <= cs.len(),
    decreases cs.len() - i,
{
    if i < cs.len() && cs[i] != ' ' && cs[i] != '\n' {
        lemma_err_len_bound(cs, i + 1);
    }
}

// ---------------------------------------------------------------------------
// Keywords
// ---------------------------------------------------------------------------

/// Reclassifies an identifier's text into a keyword kind, or leaves it as a
/// generic identifier.
pub open spec fn keyword_kind(s: Seq<char>) -> TokenType {
    if s.len() == 4 && s[0] == 't' && s[1] == 'r' && s[2] == 'u' && s[3] == 'e' {
        TokenType::True
    } else if s.len() == 5 && s[0] == 'f' && s[1] == 'a' && s[2] == 'l' && s[3] == 's' && s[4]
        == 'e' {
        TokenType::False
    } else if s.len() == 3 && s[0] == 'l' && s[1] == 'e' && s[2] == 't' {
        TokenType::Let
    } else if s.len() == 5 && s[0] == 'p' && s[1] == 'r' && s[2] == 'i' && s[3] == 'n' && s[4]
        == 't' {
        TokenType::Print
    } else if s.len() == 2 && s[0] == 'i' && s[1] == 'f' {
        TokenType::If
    } else if s.len() == 4 && s[0] == 'e' && s[1] == 'l' && s[2] == 's' && s[3] == 'e' {
        TokenType::Else
    } else if s.len() == 5 && s[0] == 'i' && s[1] == 'n' && s[2] == 'p' && s[3] == 'u' && s[4]
        == 't' {
        TokenType::Input
    } else if s.len() == 3 && s[0] == 'i' && s[1] == 'n' && s[2] == 't' {
        TokenType::Int
    } else if s.len() == 5 && s[0] == 'w' && s[1] == 'h' && s[2] == 'i' && s[3] == 'l' && s[4]
        == 'e' {
        TokenType::While
    } else if s.len() == 5 && s[0] == 'b' && s[1] == 'r' && s[2] == 'e' && s[3] == 'a' && s[4]
        == 'k' {
        TokenType::Break
    } else if s.len() == 8 && s[0] == 'c' && s[1] == 'o' && s[2] == 'n' && s[3] == 't' && s[4]
        == 'i' && s[5] == 'n' && s[6] == 'u' && s[7] == 'e' {
        TokenType::Continue
    } else if s.len() == 8 && s[0] == 'f' && s[1] == 'u' && s[2] == 'n' && s[3] == 'c' && s[4]
        == 't' && s[5] == 'i' && s[6] == 'o' && s[7] == 'n' {
        TokenType::Fn
    } else if s.len() == 6 && s[0] == 'r' && s[1] == 'e' && s[2] == 't' && s[3] == 'u' && s[4]
        == 'r' && s[5] == 'n' {
        TokenType::Return
    } else {
        TokenType::Ident
    }
}

// ---------------------------------------------------------------------------
// The lexical grammar, as one specification function
// ---------------------------------------------------------------------------

/// Prepends a token to the result of lexing the rest of the input.
pub open spec fn cons_tok(t: TokenG, r: Result<Seq<TokenG>, RunErrorG>) -> Result<
    Seq<TokenG>,
    RunErrorG,
> {
    match r {
        Ok(ts) => Ok(seq![t] + ts),
        Err(e) => Err(e),
    }
}

/// The token sequence (ending in EOF) produced from `cs` starting at
/// position `i` on line `line`, or the syntax error that stops lexing.
pub open spec fn lex_from(cs: Seq<char>, i: int, line: nat) -> Result<Seq<TokenG>, RunErrorG>
    decreases cs.len() - i,
    via lex_from_dec
{
    if i < 0 || i >= cs.len() {
        Ok(seq![TokenG { kind: TokenType::EOF, lexeme: Seq::empty(), line }])
    } else {
        let c = cs[i];
        if c == ' ' {
            lex_from(cs, i + 1, line)
        } else if c == '\n' {
            cons_tok(
                TokenG { kind: TokenType::EOL, lexeme: seq!['\n'], line },
                lex_from(cs, i + 1, line + 1),
            )
        } else if c == ';' {
            cons_tok(
                TokenG { kind: TokenType::EOL, lexeme: seq![';'], line },
                lex_from(cs, i + 1, line),
            )
        } else if is_single_char(c) {
            cons_tok(
                TokenG { kind: single_kind(c), lexeme: seq![c], line },
                lex_from(cs, i + 1, line),
            )
        } else if is_pair_start(c) {
            if i + 1 < cs.len() && cs[i + 1] == '=' {
                cons_tok(
                    TokenG { kind: pair_eq_kind(c), lexeme: seq![c, '='], line },
                    lex_from(cs, i + 2, line),
                )
            } else {
                cons_tok(
                    TokenG { kind: pair_alone_kind(c), lexeme: seq![c], line },
                    lex_from(cs, i + 1, line),
                )
            }
        } else if is_digit_char(c) {
            let j = i + num_len(cs, i);
            cons_tok(
                TokenG { kind: TokenType::Number, lexeme: cs.subrange(i, j), line },
                lex_from(cs, j, line),
            )
        } else if c == '"' {
            let j = i + 1 + str_len(cs, i + 1);
            if j >= cs.len() || cs[j] == '\n' {
                Err(RunErrorG { kind: ErrorType::SyntaxError, line: Some(line as int), ctx: Seq::empty() })
            } else {
                cons_tok(
                    TokenG { kind: TokenType::String, lexeme: cs.subrange(i + 1, j), line },
                    lex_from(cs, j + 1, line),
                )
            }
        } else if is_alpha_char(c) {
            let j = i + ident_len(cs, i);
            cons_tok(
                TokenG { kind: keyword_kind(cs.subrange(i, j)), lexeme: cs.subrange(i, j), line },
                lex_from(cs, j, line),
            )
        } else {
            Err(
                RunErrorG {
                    kind: ErrorType::SyntaxError,
                    line: Some(line as int),
                    ctx: cs.subrange(i, i + err_len(cs, i)),
                },
            )
        }
    }
}

#[via_fn]
proof fn lex_from_dec(cs: Seq<char>, i: int, line: nat) {
    if 0 <= i && i < cs.len() {
        lemma_num_len_bound(cs, i);
        lemma_ident_len_bound(cs, i);
        lemma_str_len_bound(cs, i + 1);
    }
}

/// The images of a token sequence.
pub open spec fn toks_view(ts: Seq<Token>) -> Seq<TokenG> {
    ts.map_values(|t: Token| t@)
}

// ---------------------------------------------------------------------------
// The executable lexer
// ---------------------------------------------------------------------------

/// Lexer state: the input, a cursor into it (in characters), the tokens
/// produced so far, and the current 1-based line.
#[derive(Debug)]
pub struct Source {
    input: Vec<char>,
    position: usize,
    tokens: Vec<Token>,
    line: usize,
}

/// Copies `v[a..b]` into a fresh vector.
pub(crate) fn copy_range(v: &Vec<char>, a: usize, b: usize) -> (r: Vec<char>)
    requires
        a <= b <= v.len(),
    ensures
        r@ == v@.subrange(a as int, b as int),
{
    let mut r: Vec<char> = Vec::new();
    let mut k: usize = a;
    while k < b
        invariant
            a <= k <= b <= v.len(),
            r@ == v@.subrange(a as int, k as int),
        decreases b - k,
    {
        r.push(v[k]);
        assert(r@ =~= v@.subrange(a as int, k + 1 as int));
        k = k + 1;
    }
    r
}

impl Source {
    pub closed spec fn input_spec(&self) -> Seq<char> {
        self.input@
    }

    pub closed spec fn position_spec(&self) -> int {
        self.position as int
    }

    pub closed spec fn tokens_spec(&self) -> Seq<TokenG> {
        toks_view(self.tokens@)
    }

    pub closed spec fn line_spec(&self) -> nat {
        self.line as nat
    }

    /// A fresh lexer over `input`, at the start, on line 1.
    pub fn new(input: Vec<char>) -> (s: Source)
        ensures
            s.input_spec() == input@,
            s.position_spec() == 0,
            s.tokens_spec() == Seq::<TokenG>::empty(),
            s.line_spec() == 1nat,
    {
        let s = Source { input, position: 0, tokens: Vec::new(), line: 1 };
        assert(toks_view(s.tokens@) =~= Seq::<TokenG>::empty());
        s
    }

    /// The tokens produced so far.
    pub fn get_tokens(&self) -> (r: &Vec<Token>)
        ensures
            toks_view(r@) == self.tokens_spec(),
    {
        &self.tokens
    }

    /// The character under the cursor, if any.
    pub fn peek(&self) -> (r: Option<char>)
        ensures
            r == (if self.position_spec() < self.input_spec().len() {
                Some(self.input_spec()[self.position_spec()])
            } else {
                Option::<char>::None
            }),
    {
        if self.position < self.input.len() {
            Some(self.input[self.position])
        } else {
            None
        }
    }

    /// The character just after the cursor, if the cursor is in bounds and
    /// such a character exists.
    pub fn peek_next(&self) -> (r: Option<char>)
        ensures
            r == (if self.position_spec() < self.input_spec().len() && self.position_spec() + 1
                < self.input_spec().len() {
                Some(self.input_spec()[self.position_spec() + 1])
            } else {
                Option::<char>::None
            }),
    {
        if self.position < self.input.len() && self.position + 1 < self.input.len() {
            Some(self.input[self.position + 1])
        } else {
            None
        }
    }

    /// Consumes one character and returns it, or returns nothing at the end
    /// of the input.
    pub fn advance(&mut self) -> (r: Option<char>)
        ensures
            final(self).input_spec() == old(self).input_spec(),
            final(self).tokens_spec() == old(self).tokens_spec(),
            final(self).line_spec() == old(self).line_spec(),
            old(self).position_spec() < old(self).input_spec().len() ==> {
                &&& final(self).position_spec() == old(self).position_spec() + 1
                &&& r == Some(old(self).input_spec()[old(self).position_spec()])
            },
            old(self).position_spec() >= old(self).input_spec().len() ==> {
                &&& final(self).position_spec() == old(self).position_spec()
                &&& r is None
            },
    {
        if self.position < self.input.len() {
            let c = self.input[self.position];
            self.position = self.position + 1;
            Some(c)
        } else {
            None
        }
    }

    /// Appends a token with the given text and kind at the current line.
    /// The cursor does not move.
    pub fn add_token(&mut self, s: Vec<char>, token_type: TokenType) -> (r: ())
        ensures
            final(self).input_spec() == old(self).input_spec(),
            final(self).position_spec() == old(self).position_spec(),
            final(self).line_spec() == old(self).line_spec(),
            final(self).tokens_spec() == old(self).tokens_spec().push(
                TokenG { kind: token_type, lexeme: s@, line: old(self).line_spec() },
            ),
    {
        let ghost t0 = toks_view(self.tokens@);
        let tok = Token::new(s, self.line, token_type);
        let ghost tg = tok@;
        self.tokens.push(tok);
        assert(toks_view(self.tokens@) =~= t0.push(tg));
    }

    /// Consumes the maximal run of characters drawn from `chars`, counting
    /// lines and appending an end-of-line token for every newline consumed.
    pub fn eat_char(&mut self, chars: &Vec<char>)
        requires
            old(self).line_spec() as int + old(self).input_spec().len() - old(
                self,
            ).position_spec() <= usize::MAX as int,
        ensures
            final(self).input_spec() == old(self).input_spec(),
            final(self).position_spec() == old(self).position_spec() + eat_len(
                old(self).input_spec(),
                old(self).position_spec(),
                chars@,
            ),
            final(self).line_spec() == old(self).line_spec() + eat_newlines(
                old(self).input_spec(),
                old(self).position_spec(),
                chars@,
            ),
            final(self).tokens_spec() == old(self).tokens_spec() + eat_toks(
                old(self).input_spec(),
                old(self).position_spec(),
                chars@,
                old(self).line_spec(),
            ),
    {
        let ghost cs = self.input@;
        let ghost set = chars@;
        let ghost p0 = self.position as int;
        let ghost l0 = self.line as nat;
        let ghost t0 = toks_view(self.tokens@);
        if self.position >= self.input.len() {
            proof {
                assert(eat_len(cs, p0, set) == 0);
                assert(eat_newlines(cs, p0, set) == 0);
                assert(eat_toks(cs, p0, set, l0) =~= Seq::<TokenG>::empty());
                assert(t0 + eat_toks(cs, p0, set, l0) =~= t0);
            }
            return ;
        }
        while self.position < self.input.len()
            invariant
                self.input@ == cs,
                cs == old(self).input_spec(),
                set == chars@,
                p0 == old(self).position_spec(),
                l0 == old(self).line_spec(),
                t0 == old(self).tokens_spec(),
                p0 <= self.position as int <= cs.len(),
                self.line as int + cs.len() - self.position as int <= usize::MAX as int,
                p0 + eat_len(cs, p0, set) == self.position as int + eat_len(
                    cs,
                    self.position as int,
                    set,
                ),
                l0 + eat_newlines(cs, p0, set) == self.line as nat + eat_newlines(
                    cs,
                    self.position as int,
                    set,
                ),
                t0 + eat_toks(cs, p0, set, l0) =~= toks_view(self.tokens@) + eat_toks(
                    cs,
                    self.position as int,
                    set,
                    self.line as nat,
                ),
            ensures
                self.input@ == cs,
                p0 <= self.position as int <= cs.len(),
                eat_len(cs, self.position as int, set) == 0,
                p0 + eat_len(cs, p0, set) == self.position as int,
                l0 + eat_newlines(cs, p0, set) == self.line as nat + eat_newlines(
                    cs,
                    self.position as int,
                    set,
                ),
                t0 + eat_toks(cs, p0, set, l0) =~= toks_view(self.tokens@) + eat_toks(
                    cs,
                    self.position as int,
                    set,
                    self.line as nat,
                ),
            decreases cs.len() - self.position as int,
        {
            let ghost posb = self.position as int;
            let ghost lineb = self.line as nat;
            let ghost toksb = toks_view(self.tokens@);
            let c = self.input[self.position];
            if !contains_char(chars, c) {
                proof {
                    assert(!set.contains(cs[self.position as int]));
                    assert(eat_len(cs, self.position as int, set) == 0);
                }
                break ;
            }
            self.position = self.position + 1;
            proof {
                assert(set.contains(cs[posb]));
                assert(eat_len(cs, posb, set) == 1 + eat_len(cs, posb + 1, set));
                assert(eat_newlines(cs, posb, set) == (if cs[posb] == '\n' {
                    1nat
                } else {
                    0nat
                }) + eat_newlines(cs, posb + 1, set));
            }
            if c == '\n' {
                let mut lx: Vec<char> = Vec::new();
                lx.push('\n');
                assert(lx@ =~= seq!['\n']);
                self.add_token(lx, TokenType::EOL);
                self.line = self.line + 1;
                proof {
                    assert(eat_toks(cs, posb, set, lineb) =~= seq![
                        TokenG { kind: TokenType::EOL, lexeme: seq!['\n'], line: lineb },
                    ] + eat_toks(cs, posb + 1, set, lineb + 1));
                }
                proof {
                    let eolg = TokenG { kind: TokenType::EOL, lexeme: seq!['\n'], line: lineb };
                    assert(eat_toks(cs, posb, set, lineb) =~= seq![eolg] + eat_toks(
                        cs,
                        posb + 1,
                        set,
                        lineb + 1,
                    ));
                    assert(toks_view(self.tokens@) =~= toksb.push(eolg));
                    assert(toksb.push(eolg) + eat_toks(cs, posb + 1, set, lineb + 1) =~= toksb + (
                    seq![eolg] + eat_toks(cs, posb + 1, set, lineb + 1)));
                }
            } else {
                proof {
                    assert(cs[posb] != '\n');
                    assert(eat_toks(cs, posb, set, lineb) =~= eat_toks(cs, posb + 1, set, lineb));
                }
            }
        }
        proof {
            assert(eat_toks(cs, self.position as int, set, self.line as nat)
                =~= Seq::<TokenG>::empty());
            assert(toks_view(self.tokens@) + Seq::<TokenG>::empty() =~= toks_view(self.tokens@));
            assert(eat_newlines(cs, self.position as int, set) == 0) by {
                lemma_eat_newlines_of_done(cs, self.position as int, set);
            }
        }
    }

    /// Scans a numeric literal: one or more digits, optionally followed by
    /// a dot and one or more digits, become one number token.
    pub fn numbers(&mut self)
        requires
            old(self).position_spec() <= old(self).input_spec().len(),
        ensures
            final(self).input_spec() == old(self).input_spec(),
            final(self).line_spec() == old(self).line_spec(),
            final(self).position_spec() == old(self).position_spec() + num_len(
                old(self).input_spec(),
                old(self).position_spec(),
            ),
            final(self).tokens_spec() == old(self).tokens_spec().push(
                TokenG {
                    kind: TokenType::Number,
                    lexeme: old(self).input_spec().subrange(
                        old(self).position_spec(),
                        old(self).position_spec() + num_len(
                            old(self).input_spec(),
                            old(self).position_spec(),
                        ),
                    ),
                    line: old(self).line_spec(),
                },
            ),
    {
        let ghost cs = self.input@;
        let ghost p0 = self.position as int;
        let start = self.position;
        proof {
            lemma_digits_len_bound(cs, p0);
        }
        loop
            invariant
                self.input@ == cs,
                cs == old(self).input_spec(),
                self.tokens@ == old(self).tokens@,
                self.line == old(self).line,
                p0 <= self.position as int <= cs.len(),
                start as int == p0,
                self.position as int + digits_len(cs, self.position as int) == p0 + digits_len(
                    cs,
                    p0,
                ),
            ensures
                self.input@ == cs,
                self.tokens@ == old(self).tokens@,
                self.line == old(self).line,
                p0 <= self.position as int <= cs.len(),
                self.position as int == p0 + digits_len(cs, p0),
            decreases cs.len() - self.position as int,
        {
            if self.position >= self.input.len() {
                break ;
            }
            let c = self.input[self.position];
            if !('0' <= c && c <= '9') {
                break ;
            }
            self.position = self.position + 1;
        }
        let ghost d_end = self.position as int;
        if self.position < self.input.len() && self.input[self.position] == '.' && self.position
            + 1 < self.input.len() && {
            let c2 = self.input[self.position + 1];
            '0' <= c2 && c2 <= '9'
        } {
            self.position = self.position + 1;
            proof {
                lemma_digits_len_bound(cs, d_end + 1);
            }
            loop
                invariant
                    self.input@ == cs,
                    cs == old(self).input_spec(),
                    self.tokens@ == old(self).tokens@,
                    self.line == old(self).line,
                    d_end + 1 <= self.position as int <= cs.len(),
                    self.position as int + digits_len(cs, self.position as int) == d_end + 1
                        + digits_len(cs, d_end + 1),
                ensures
                    self.input@ == cs,
                    self.tokens@ == old(self).tokens@,
                    self.line == old(self).line,
                    d_end + 1 <= self.position as int <= cs.len(),
                    self.position as int == d_end + 1 + digits_len(cs, d_end + 1),
                decreases cs.len() - self.position as int,
            {
                if self.position >= self.input.len() {
                    break ;
                }
                let c = self.input[self.position];
                if !('0' <= c && c <= '9') {
                    break ;
                }
                self.position = self.position + 1;
            }
            proof {
                assert(self.position as int == p0 + num_len(cs, p0));
            }
        } else {
            proof {
                assert(self.position as int == p0 + num_len(cs, p0));
            }
        }
        let lexeme = copy_range(&self.input, start, self.position);
        self.add_token(lexeme, TokenType::Number);
    }

    /// Scans an identifier: the maximal run of identifier characters starting
    /// at the cursor becomes one token, reclassified as a keyword when its
    /// text matches one.
    pub fn identifier(&mut self)
        requires
            old(self).position_spec() <= old(self).input_spec().len(),
        ensures
            final(self).input_spec() == old(self).input_spec(),
            final(self).line_spec() == old(self).line_spec(),
            final(self).position_spec() == old(self).position_spec() + ident_len(
                old(self).input_spec(),
                old(self).position_spec(),
            ),
            final(self).tokens_spec() == old(self).tokens_spec().push(
                TokenG {
                    kind: keyword_kind(
                        old(self).input_spec().subrange(
                            old(self).position_spec(),
                            old(self).position_spec() + ident_len(
                                old(self).input_spec(),
                                old(self).position_spec(),
                            ),
                        ),
                    ),
                    lexeme: old(self).input_spec().subrange(
                        old(self).position_spec(),
                        old(self).position_spec() + ident_len(
                            old(self).input_spec(),
                            old(self).position_spec(),
                        ),
                    ),
                    line: old(self).line_spec(),
                },
            ),
    {
        let ghost cs = self.input@;
        let ghost p0 = self.position as int;
        let start = self.position;
        proof {
            lemma_ident_len_bound(cs, p0);
        }
        loop
            invariant
                self.input@ == cs,
                self.tokens@ == old(self).tokens@,
                self.line == old(self).line,
                p0 <= self.position as int <= cs.len(),
                start as int == p0,
                self.position as int + ident_len(cs, self.position as int) == p0 + ident_len(
                    cs,
                    p0,
                ),
            ensures
                self.input@ == cs,
                self.tokens@ == old(self).tokens@,
                self.line == old(self).line,
                p0 <= self.position as int <= cs.len(),
                self.position as int == p0 + ident_len(cs, p0),
            decreases cs.len() - self.position as int,
        {
            if self.position >= self.input.len() {
                break ;
            }
            let c = self.input[self.position];
            if !(('a' <= c && c <= 'z') || ('A' <= c && c <= 'Z') || ('0' <= c && c <= '9') || c
                == '_') {
                break ;
            }
            self.position = self.position + 1;
        }
        let lexeme = copy_range(&self.input, start, self.position);
        let kind = classify_ident(&lexeme);
        self.add_token(lexeme, kind);
    }

    /// Scans a string literal. The cursor must stand on the opening quote.
    /// The token's text is the body without the delimiters; a string that
    /// reaches a newline or the end of input unterminated is a syntax error.
    fn string(&mut self) -> (r: Result<(), RunError>)
        requires
            old(self).position_spec() < old(self).input_spec().len(),
            old(self).input_spec()[old(self).position_spec()] == '"',
        ensures
            final(self).input_spec() == old(self).input_spec(),
            final(self).line_spec() == old(self).line_spec(),
            ({
                let cs = old(self).input_spec();
                let i = old(self).position_spec();
                let j = i + 1 + str_len(cs, i + 1);
                if j >= cs.len() || cs[j] == '\n' {
                    &&& r matches Err(e) && e@ == (RunErrorG {
                        kind: ErrorType::SyntaxError,
                        line: Some(old(self).line_spec() as int),
                        ctx: Seq::<char>::empty(),
                    })
                    &&& final(self).tokens_spec() == old(self).tokens_spec()
                } else {
                    &&& r is Ok
                    &&& final(self).position_spec() == j + 1
                    &&& final(self).tokens_spec() == old(self).tokens_spec().push(
                        TokenG {
                            kind: TokenType::String,
                            lexeme: cs.subrange(i + 1, j),
                            line: old(self).line_spec(),
                        },
                    )
                }
            }),
    {
        let ghost cs = self.input@;
        let ghost i = self.position as int;
        assert(self.position < self.input.len());
        let start = self.position + 1;
        let mut k = start;
        proof {
            lemma_str_len_bound(cs, i + 1);
        }
        while k < self.input.len() && self.input[k] != '"' && self.input[k] != '\n'
            invariant
                self.input@ == cs,
                self == old(self),
                i + 1 <= k as int <= cs.len(),
                start as int == i + 1,
                k as int + str_len(cs, k as int) == i + 1 + str_len(cs, i + 1),
            decreases cs.len() - k as int,
        {
            k = k + 1;
        }
        proof {
            assert(str_len(cs, k as int) == 0);
        }
        if k >= self.input.len() || self.input[k] == '\n' {
            return Err(
                RunError { kind: ErrorType::SyntaxError, line: Some(self.line), ctx: Vec::new() },
            );
        }
        let lexeme = copy_range(&self.input, start, k);
        self.add_token(lexeme, TokenType::String);
        self.position = k + 1;
        Ok(())
    }

    /// Lexes the whole remaining input, appending tokens up to and including
    /// an EOF token, exactly as [`lex_from`] describes; on a syntax error the
    /// error is returned instead and the tokens already produced stay.
    pub fn tokenize(&mut self) -> (r: Result<(), RunError>)
        requires
            old(self).position_spec() <= old(self).input_spec().len(),
            old(self).line_spec() as int + old(self).input_spec().len() - old(
                self,
            ).position_spec() <= usize::MAX as int,
        ensures
            final(self).input_spec() == old(self).input_spec(),
            match lex_from(
                old(self).input_spec(),
                old(self).position_spec(),
                old(self).line_spec(),
            ) {
                Ok(ts) => r is Ok && final(self).tokens_spec() == old(self).tokens_spec() + ts,
                Err(e) => r matches Err(re) && re@ == e,
            },
    {
        let ghost cs = self.input@;
        let ghost p0 = self.position as int;
        let ghost l0 = self.line as nat;
        let ghost t0 = toks_view(self.tokens@);
        let ghost full = lex_from(cs, p0, l0);
        while self.position < self.input.len()
            invariant
                self.input@ == cs,
                cs == old(self).input_spec(),
                p0 == old(self).position_spec(),
                l0 == old(self).line_spec(),
                t0 == old(self).tokens_spec(),
                full == lex_from(cs, p0, l0),
                p0 <= self.position as int <= cs.len(),
                self.line as int + cs.len() - self.position as int <= usize::MAX as int,
                t0.len() <= toks_view(self.tokens@).len(),
                toks_view(self.tokens@).subrange(0, t0.len() as int) == t0,
                cons_all(
                    toks_view(self.tokens@).skip(t0.len() as int),
                    lex_from(cs, self.position as int, self.line as nat),
                ) == full,
            decreases cs.len() - self.position as int,
        {
            let ghost pos0 = self.position as int;
            let ghost line0 = self.line as nat;
            let ghost tv0 = toks_view(self.tokens@);
            let ghost r0 = lex_from(cs, pos0, line0);
            let c = self.input[self.position];
            if c == ' ' {
                self.position = self.position + 1;
            } else if c == '\n' {
                let ghost tg = TokenG { kind: TokenType::EOL, lexeme: seq!['\n'], line: line0 };
                let mut lx: Vec<char> = Vec::new();
                lx.push('\n');
                assert(lx@ =~= seq!['\n']);
                self.add_token(lx, TokenType::EOL);
                self.position = self.position + 1;
                self.line = self.line + 1;
                proof {
                    lemma_cons_step(
                        t0,
                        tv0,
                        toks_view(self.tokens@),
                        tg,
                        r0,
                        lex_from(cs, self.position as int, self.line as nat),
                        full,
                    );
                }
            } else if c == ';' {
                let ghost tg = TokenG { kind: TokenType::EOL, lexeme: seq![';'], line: line0 };
                let mut lx: Vec<char> = Vec::new();
                lx.push(';');
                assert(lx@ =~= seq![';']);
                self.add_token(lx, TokenType::EOL);
                self.position = self.position + 1;
                proof {
                    lemma_cons_step(
                        t0,
                        tv0,
                        toks_view(self.tokens@),
                        tg,
                        r0,
                        lex_from(cs, self.position as int, self.line as nat),
                        full,
                    );
                }
            } else if c == '+' || c == '-' || c == '*' || c == '/' || c == '%' || c == '(' || c
                == ')' || c == '{' || c == '}' || c == ',' || c == '&' || c == '|' {
                let kind = match c {
                    '+' => TokenType::Plus,
                    '-' => TokenType::Minus,
                    '*' => TokenType::Star,
                    '/' => TokenType::Slash,
                    '%' => TokenType::Modulo,
                    '(' => TokenType::LParen,
                    ')' => TokenType::RParen,
                    '{' => TokenType::LBrace,
                    '}' => TokenType::RBrace,
                    ',' => TokenType::Comma,
                    '&' => TokenType::Ampersand,
                    _ => TokenType::Pipe,
                };
                assert(kind == single_kind(c));
                let ghost tg = TokenG { kind: single_kind(c), lexeme: seq![c], line: line0 };
                let mut lx: Vec<char> = Vec::new();
                lx.push(c);
                assert(lx@ =~= seq![c]);
                self.add_token(lx, kind);
                self.position = self.position + 1;
                proof {
                    lemma_cons_step(
                        t0,
                        tv0,
                        toks_view(self.tokens@),
                        tg,
                        r0,
                        lex_from(cs, self.position as int, self.line as nat),
                        full,
                    );
                }
            } else if c == '<' || c == '>' || c == '=' || c == '!' {
                if self.position + 1 < self.input.len() && self.input[self.position + 1] == '=' {
                    let kind = match c {
                        '<' => TokenType::LessEqual,
                        '>' => TokenType::GreaterEqual,
                        '=' => TokenType::EqualEqual,
                        _ => TokenType::BangEqual,
                    };
                    assert(kind == pair_eq_kind(c));
                    let ghost tg = TokenG { kind: pair_eq_kind(c), lexeme: seq![c, '='], line: line0 };
                    let mut lx: Vec<char> = Vec::new();
                    lx.push(c);
                    lx.push('=');
                    assert(lx@ =~= seq![c, '=']);
                    self.add_token(lx, kind);
                    self.position = self.position + 2;
                    proof {
                        lemma_cons_step(
                            t0,
                            tv0,
                            toks_view(self.tokens@),
                            tg,
                            r0,
                            lex_from(cs, self.position as int, self.line as nat),
                            full,
                        );
                    }
                } else {
                    let kind = match c {
                        '<' => TokenType::Less,
                        '>' => TokenType::Greater,
                        '=' => TokenType::Equal,
                        _ => TokenType::Bang,
                    };
                    assert(kind == pair_alone_kind(c));
                    let ghost tg = TokenG { kind: pair_alone_kind(c), lexeme: seq![c], line: line0 };
                    let mut lx: Vec<char> = Vec::new();
                    lx.push(c);
                    assert(lx@ =~= seq![c]);
                    self.add_token(lx, kind);
                    self.position = self.position + 1;
                    proof {
                        lemma_cons_step(
                            t0,
                            tv0,
                            toks_view(self.tokens@),
                            tg,
                            r0,
                            lex_from(cs, self.position as int, self.line as nat),
                            full,
                        );
                    }
                }
            } else if '0' <= c && c <= '9' {
                proof {
                    lemma_num_len_bound(cs, pos0);
                }
                let ghost tg = TokenG {
                    kind: TokenType::Number,
                    lexeme: cs.subrange(pos0, pos0 + num_len(cs, pos0)),
                    line: line0,
                };
                self.numbers();
                proof {
                    lemma_cons_step(
                        t0,
                        tv0,
                        toks_view(self.tokens@),
                        tg,
                        r0,
                        lex_from(cs, self.position as int, self.line as nat),
                        full,
                    );
                }
            } else if c == '"' {
                let ghost j = pos0 + 1 + str_len(cs, pos0 + 1);
                proof {
                    lemma_str_len_bound(cs, pos0 + 1);
                }
                match self.string() {
                    Ok(()) => {
                        let ghost tg = TokenG {
                            kind: TokenType::String,
                            lexeme: cs.subrange(pos0 + 1, j),
                            line: line0,
                        };
                        proof {
                            lemma_cons_step(
                                t0,
                                tv0,
                                toks_view(self.tokens@),
                                tg,
                                r0,
                                lex_from(cs, self.position as int, self.line as nat),
                                full,
                            );
                        }
                    },
                    Err(e) => {
                        proof {
                            assert(r0 == Err::<Seq<TokenG>, RunErrorG>(e@));
                            assert(full == Err::<Seq<TokenG>, RunErrorG>(e@));
                        }
                        return Err(e);
                    },
                }
            } else if ('a' <= c && c <= 'z') || ('A' <= c && c <= 'Z') {
                proof {
                    lemma_ident_len_bound(cs, pos0);
                }
                let ghost lxg = cs.subrange(pos0, pos0 + ident_len(cs, pos0));
                let ghost tg = TokenG { kind: keyword_kind(lxg), lexeme: lxg, line: line0 };
                self.identifier();
                proof {
                    lemma_cons_step(
                        t0,
                        tv0,
                        toks_view(self.tokens@),
                        tg,
                        r0,
                        lex_from(cs, self.position as int, self.line as nat),
                        full,
                    );
                }
            } else {
                proof {
                    lemma_err_len_bound(cs, pos0);
                }
                let mut k = self.position;
                while k < self.input.len() && self.input[k] != ' ' && self.input[k] != '\n'
                    invariant
                        self.input@ == cs,
                        pos0 <= k as int <= cs.len(),
                        k as int + err_len(cs, k as int) == pos0 + err_len(cs, pos0),
                    decreases cs.len() - k as int,
                {
                    k = k + 1;
                }
                proof {
                    assert(err_len(cs, k as int) == 0);
                }
                let ctx = copy_range(&self.input, self.position, k);
                let ghost eg = RunErrorG {
                    kind: ErrorType::SyntaxError,
                    line: Some(line0 as int),
                    ctx: cs.subrange(pos0, pos0 + err_len(cs, pos0)),
                };
                proof {
                    assert(r0 == Err::<Seq<TokenG>, RunErrorG>(eg));
                    assert(full == Err::<Seq<TokenG>, RunErrorG>(eg));
                }
                return Err(
                    RunError { kind: ErrorType::SyntaxError, line: Some(self.line), ctx },
                );
            }
        }
        let ghost done0 = toks_view(self.tokens@).skip(t0.len() as int);
        let ghost tvpre = toks_view(self.tokens@);
        let eof_lex: Vec<char> = Vec::new();
        assert(eof_lex@ =~= Seq::<char>::empty());
        self.add_token(eof_lex, TokenType::EOF);
        proof {
            let eofg = TokenG {
                kind: TokenType::EOF,
                lexeme: Seq::empty(),
                line: self.line as nat,
            };
            assert(lex_from(cs, self.position as int, self.line as nat) == Ok::<_, RunErrorG>(
                seq![eofg],
            ));
            assert(full == Ok::<_, RunErrorG>(done0 + seq![eofg]));
            assert(tvpre =~= t0 + done0);
            assert(toks_view(self.tokens@) =~= tvpre.push(eofg));
            assert(toks_view(self.tokens@) =~= t0 + (done0 + seq![eofg]));
        }
        Ok(())
    }
}

/// Prepends finished tokens to the outcome of lexing the rest.
pub open spec fn cons_all(ts: Seq<TokenG>, r: Result<Seq<TokenG>, RunErrorG>) -> Result<
    Seq<TokenG>,
    RunErrorG,
> {
    match r {
        Ok(rest) => Ok(ts + rest),
        Err(e) => Err(e),
    }
}

proof fn lemma_cons_step(
    t0: Seq<TokenG>,
    oldt: Seq<TokenG>,
    newt: Seq<TokenG>,
    tg: TokenG,
    r0: Result<Seq<TokenG>, RunErrorG>,
    r1: Result<Seq<TokenG>, RunErrorG>,
    full: Result<Seq<TokenG>, RunErrorG>,
)
    requires
        newt == oldt.push(tg),
        t0.len() <= oldt.len(),
        oldt.subrange(0, t0.len() as int) == t0,
        cons_all(oldt.skip(t0.len() as int), r0) == full,
        r0 == cons_tok(tg, r1),
    ensures
        t0.len() <= newt.len(),
        newt.subrange(0, t0.len() as int) == t0,
        cons_all(newt.skip(t0.len() as int), r1) == full,
{
    let n0 = t0.len() as int;
    let done = oldt.skip(n0);
    assert(newt.subrange(0, n0) =~= t0);
    assert(newt.skip(n0) =~= done.push(tg));
    match r1 {
        Ok(ts) => {
            assert(done + (seq![tg] + ts) =~= done.push(tg) + ts);
        },
        Err(_) => {},
    }
}

/// Whether `v` holds `c`.
fn contains_char(v: &Vec<char>, c: char) -> (r: bool)
    ensures
        r == v@.contains(c),
{
    let mut k: usize = 0;
    while k < v.len()
        invariant
            0 <= k <= v.len(),
            forall|j: int| 0 <= j < k ==> v@[j] != c,
        decreases v.len() - k,
    {
        if v[k] == c {
            return true;
        }
        k = k + 1;
    }
    false
}

proof fn lemma_eat_newlines_of_done(cs: Seq<char>, i: int, set: Seq<char>)
    requires
        eat_len(cs, i, set) == 0,
    ensures
        eat_newlines(cs, i, set) == 0,
{
}

/// Number of characters `eat_char` consumes.
pub open spec fn eat_len(cs: Seq<char>, i: int, set: Seq<char>) -> nat
    decreases cs.len() - i,
{
    if 0 <= i && i < cs.len() && set.contains(cs[i]) {
        1 + eat_len(cs, i + 1, set)
    } else {
        0
    }
}

/// Number of newlines among the characters `eat_char` consumes.
pub open spec fn eat_newlines(cs: Seq<char>, i: int, set: Seq<char>) -> nat
    decreases cs.len() - i,
{
    if 0 <= i && i < cs.len() && set.contains(cs[i]) {
        (if cs[i] == '\n' {
            1nat
        } else {
            0nat
        }) + eat_newlines(cs, i + 1, set)
    } else {
        0
    }
}

/// The end-of-line tokens `eat_char` appends, one per newline consumed.
pub open spec fn eat_toks(cs: Seq<char>, i: int, set: Seq<char>, line: nat) -> Seq<TokenG>
    decreases cs.len() - i,
{
    if 0 <= i && i < cs.len() && set.contains(cs[i]) {
        if cs[i] == '\n' {
            seq![TokenG { kind: TokenType::EOL, lexeme: seq!['\n'], line }] + eat_toks(
                cs,
                i + 1,
                set,
                line + 1,
            )
        } else {
            eat_toks(cs, i + 1, set, line)
        }
    } else {
        Seq::empty()
    }
}

/// Classifies an identifier's text, matching [`keyword_kind`].
fn classify_ident(lex: &Vec<char>) -> (t: TokenType)
    ensures
        t == keyword_kind(lex@),
{
    let n = lex.len();
    if n == 4 && lex[0] == 't' && lex[1] == 'r' && lex[2] == 'u' && lex[3] == 'e' {
        TokenType::True
    } else if n == 5 && lex[0] == 'f' && lex[1] == 'a' && lex[2] == 'l' && lex[3] == 's' && lex[4]
        == 'e' {
        TokenType::False
    } else if n == 3 && lex[0] == 'l' && lex[1] == 'e' && lex[2] == 't' {
        TokenType::Let
    } else if n == 5 && lex[0] == 'p' && lex[1] == 'r' && lex[2] == 'i' && lex[3] == 'n' && lex[4]
        == 't' {
        TokenType::Print
    } else if n == 2 && lex[0] == 'i' && lex[1] == 'f' {
        TokenType::If
    } else if n == 4 && lex[0] == 'e' && lex[1] == 'l' && lex[2] == 's' && lex[3] == 'e' {
        TokenType::Else
    } else if n == 5 && lex[0] == 'i' && lex[1] == 'n' && lex[2] == 'p' && lex[3] == 'u' && lex[4]
        == 't' {
        TokenType::Input
    } else if n == 3 && lex[0] == 'i' && lex[1] == 'n' && lex[2] == 't' {
        TokenType::Int
    } else if n == 5 && lex[0] == 'w' && lex[1] == 'h' && lex[2] == 'i' && lex[3] == 'l' && lex[4]
        == 'e' {
        TokenType::While
    } else if n == 5 && lex[0] == 'b' && lex[1] == 'r' && lex[2] == 'e' && lex[3] == 'a' && lex[4]
        == 'k' {
        TokenType::Break
    } else if n == 8 && lex[0] == 'c' && lex[1] == 'o' && lex[2] == 'n' && lex[3] == 't' && lex[4]
        == 'i' && lex[5] == 'n' && lex[6] == 'u' && lex[7] == 'e' {
        TokenType::Continue
    } else if n == 8 && lex[0] == 'f' && lex[1] == 'u' && lex[2] == 'n' && lex[3] == 'c' && lex[4]
        == 't' && lex[5] == 'i' && lex[6] == 'o' && lex[7] == 'n' {
        TokenType::Fn
    } else if n == 6 && lex[0] == 'r' && lex[1] == 'e' && lex[2] == 't' && lex[3] == 'u' && lex[4]
        == 'r' && lex[5] == 'n' {
        TokenType::Return
    } else {
        TokenType::Ident
    }
}

} // verus!
