//! The lexer for the route declaration syntax.
//!
//! Tokens are identifiers, double-quoted path literals, `=>`, commas and
//! braces; space, tab and line breaks separate them. Every token carries the
//! byte offset where it starts, so later stages can point errors at the
//! offending declaration.

use vstd::prelude::*;

use crate::bytes::{is_ident_continue, is_ident_start, is_space};

verus! {

/// What kind of token was read.
pub enum TokenKind {
    Ident(Vec<u8>),
    StrLit(Vec<u8>),
    FatArrow,
    Comma,
    LBrace,
    RBrace,
}

/// A token with the byte offset of its first character.
pub struct Token {
    pub kind: TokenKind,
    pub off: usize,
}

/// Mathematical form of `TokenKind`.
pub enum TokKindView {
    Ident(Seq<u8>),
    StrLit(Seq<u8>),
    FatArrow,
    Comma,
    LBrace,
    RBrace,
}

/// Mathematical form of `Token`.
pub struct TokView {
    pub kind: TokKindView,
    pub off: int,
}

impl View for TokenKind {
    type V = TokKindView;

    open spec fn view(&self) -> TokKindView {
        match self {
            TokenKind::Ident(s) => TokKindView::Ident(s@),
            TokenKind::StrLit(s) => TokKindView::StrLit(s@),
            TokenKind::FatArrow => TokKindView::FatArrow,
            TokenKind::Comma => TokKindView::Comma,
            TokenKind::LBrace => TokKindView::LBrace,
            TokenKind::RBrace => TokKindView::RBrace,
        }
    }
}

impl View for Token {
    type V = TokView;

    open spec fn view(&self) -> TokView {
        TokView { kind: self.kind@, off: self.off as int }
    }
}

impl DeepView for Token {
    type V = TokView;

    open spec fn deep_view(&self) -> TokView {
        self.view()
    }
}

/// Why a declaration failed to parse.
#[derive(PartialEq, Eq, Structural, Clone, Copy, Debug)]
pub enum ParseErrorKind {
    /// A byte no token can start with.
    IllegalByte,
    /// A path literal without a closing quote.
    UnterminatedString,
    /// Expected `state`, `rejection`, or a path literal.
    ExpectedClause,
    /// Expected `=>`.
    ExpectedFatArrow,
    /// Expected a type, model or handler name.
    ExpectedIdent,
    /// Expected `,` between clauses or bindings.
    ExpectedComma,
    /// Expected a method keyword inside a handler block.
    ExpectedHandler,
    /// The declaration ended in the middle of a clause.
    UnexpectedEnd,
    /// A path literal is the empty string.
    EmptyPath,
    /// A path literal does not start with `/`.
    PathNoLeadingSlash,
}

/// A declaration syntax error, with the byte offset it points at.
pub struct ParseError {
    pub kind: ParseErrorKind,
    pub off: usize,
}

/// Mathematical form of `ParseError`.
pub struct ErrView {
    pub kind: ParseErrorKind,
    pub off: int,
}

impl View for ParseError {
    type V = ErrView;

    open spec fn view(&self) -> ErrView {
        ErrView { kind: self.kind, off: self.off as int }
    }
}

/// The first non-space position at or after `i`.
pub open spec fn spec_skip_ws(s: Seq<u8>, i: int) -> int
    decreases s.len() - i,
{
    if 0 <= i < s.len() && is_space(s[i]) {
        spec_skip_ws(s, i + 1)
    } else {
        i
    }
}

pub proof fn lemma_skip_ws(s: Seq<u8>, i: int)
    requires
        0 <= i <= s.len(),
    ensures
        i <= spec_skip_ws(s, i) <= s.len(),
        spec_skip_ws(s, i) < s.len() ==> !is_space(s[spec_skip_ws(s, i)]),
    decreases s.len() - i,
{
    if i < s.len() && is_space(s[i]) {
        lemma_skip_ws(s, i + 1);
    }
}

/// The first position at or after `i` that does not continue an identifier.
pub open spec fn spec_scan_ident(s: Seq<u8>, i: int) -> int
    decreases s.len() - i,
{
    if 0 <= i < s.len() && is_ident_continue(s[i]) {
        spec_scan_ident(s, i + 1)
    } else {
        i
    }
}

pub proof fn lemma_scan_ident(s: Seq<u8>, i: int)
    requires
        0 <= i <= s.len(),
    ensures
        i <= spec_scan_ident(s, i) <= s.len(),
    decreases s.len() - i,
{
    if i < s.len() && is_ident_continue(s[i]) {
        lemma_scan_ident(s, i + 1);
    }
}

/// The position of the first `"` at or after `i`, or the length if none.
pub open spec fn spec_scan_str(s: Seq<u8>, i: int) -> int
    decreases s.len() - i,
{
    if 0 <= i < s.len() {
        if s[i] == 34 {
            i
        } else {
            spec_scan_str(s, i + 1)
        }
    } else {
        s.len() as int
    }
}

pub proof fn lemma_scan_str(s: Seq<u8>, i: int)
    requires
        0 <= i <= s.len(),
    ensures
        i <= spec_scan_str(s, i) <= s.len(),
        spec_scan_str(s, i) < s.len() ==> s[spec_scan_str(s, i)] == 34,
    decreases s.len() - i,
{
    if i < s.len() && s[i] != 34 {
        lemma_scan_str(s, i + 1);
    }
}

/// The outcome of reading one token.
pub enum LexStep {
    /// Only whitespace remained.
    End,
    /// A token, and the position just past it.
    Tok(TokView, int),
    /// A lexical error.
    Fail(ErrView),
}

/// The token starting at the first non-space position at or after `i`.
pub open spec fn spec_token_at(s: Seq<u8>, i: int) -> LexStep {
    let j = spec_skip_ws(s, i);
    if j >= s.len() {
        LexStep::End
    } else {
        let b = s[j];
        if is_ident_start(b) {
            let k = spec_scan_ident(s, j + 1);
            LexStep::Tok(TokView { kind: TokKindView::Ident(s.subrange(j, k)), off: j }, k)
        } else if b == 34 {
            let k = spec_scan_str(s, j + 1);
            if k < s.len() {
                LexStep::Tok(
                    TokView { kind: TokKindView::StrLit(s.subrange(j + 1, k)), off: j },
                    k + 1,
                )
            } else {
                LexStep::Fail(ErrView { kind: ParseErrorKind::UnterminatedString, off: j })
            }
        } else if b == 61 {
            if j + 1 < s.len() && s[j + 1] == 62 {
                LexStep::Tok(TokView { kind: TokKindView::FatArrow, off: j }, j + 2)
            } else {
                LexStep::Fail(ErrView { kind: ParseErrorKind::IllegalByte, off: j })
            }
        } else if b == 44 {
            LexStep::Tok(TokView { kind: TokKindView::Comma, off: j }, j + 1)
        } else if b == 123 {
            LexStep::Tok(TokView { kind: TokKindView::LBrace, off: j }, j + 1)
        } else if b == 125 {
            LexStep::Tok(TokView { kind: TokKindView::RBrace, off: j }, j + 1)
        } else {
            LexStep::Fail(ErrView { kind: ParseErrorKind::IllegalByte, off: j })
        }
    }
}

/// A token always starts at or after `i` and ends past where it starts.
pub proof fn lemma_token_at(s: Seq<u8>, i: int)
    requires
        0 <= i <= s.len(),
    ensures
        spec_token_at(s, i) matches LexStep::Tok(t, j) ==> i < j <= s.len(),
{
    lemma_skip_ws(s, i);
    let p = spec_skip_ws(s, i);
    if p < s.len() {
        lemma_scan_ident(s, p + 1);
        lemma_scan_str(s, p + 1);
    }
}

/// The token stream from position `i` on, or the first lexical error.
pub open spec fn spec_lex_from(s: Seq<u8>, i: int) -> Result<Seq<TokView>, ErrView>
    decreases s.len() - i,
    when 0 <= i <= s.len()
{
    match spec_token_at(s, i) {
        LexStep::End => Ok(Seq::empty()),
        LexStep::Fail(e) => Err(e),
        LexStep::Tok(t, j) => {
            proof {
                lemma_token_at(s, i);
            }
            match spec_lex_from(s, j) {
                Ok(r) => Ok(seq![t] + r),
                Err(e) => Err(e),
            }
        },
    }
}

/// The token stream of a whole declaration.
pub open spec fn spec_lex(s: Seq<u8>) -> Result<Seq<TokView>, ErrView> {
    spec_lex_from(s, 0)
}

/// Read the token starting at the first non-space position at or after `pos`.
fn next_token(s: &Vec<u8>, pos: usize) -> (r: Result<Option<(Token, usize)>, ParseError>)
    requires
        pos <= s@.len(),
    ensures
        match r {
            Ok(None) => spec_token_at(s@, pos as int) is End,
            Ok(Some((t, j))) => spec_token_at(s@, pos as int) == LexStep::Tok(t@, j as int)
                && pos < j <= s@.len(),
            Err(e) => spec_token_at(s@, pos as int) == LexStep::Fail(e@),
        },
{
    let n = s.len();
    let mut j = pos;
    while j < n && crate::bytes::space(s[j])
        invariant
            pos <= j <= n,
            n == s@.len(),
            spec_skip_ws(s@, pos as int) == spec_skip_ws(s@, j as int),
        decreases n - j,
    {
        j = j + 1;
    }
    proof {
        assert(spec_skip_ws(s@, j as int) == j as int);
    }
    if j >= n {
        return Ok(None);
    }
    let b = s[j];
    if crate::bytes::ident_start(b) {
        let mut k = j + 1;
        while k < n && crate::bytes::ident_continue(s[k])
            invariant
                j + 1 <= k <= n,
                n == s@.len(),
                spec_scan_ident(s@, j + 1) == spec_scan_ident(s@, k as int),
            decreases n - k,
        {
            k = k + 1;
        }
        proof {
            assert(spec_scan_ident(s@, k as int) == k as int);
        }
        let text = crate::path::subvec(s, j, k);
        Ok(Some((Token { kind: TokenKind::Ident(text), off: j }, k)))
    } else if b == 34 {
        let mut k = j + 1;
        while k < n && s[k] != 34
            invariant
                j + 1 <= k <= n,
                n == s@.len(),
                spec_scan_str(s@, j + 1) == spec_scan_str(s@, k as int),
            decreases n - k,
        {
            k = k + 1;
        }
        if k >= n {
            proof {
                assert(spec_scan_str(s@, k as int) == s@.len() as int);
            }
            return Err(ParseError { kind: ParseErrorKind::UnterminatedString, off: j });
        }
        proof {
            assert(spec_scan_str(s@, k as int) == k as int);
        }
        let text = crate::path::subvec(s, j + 1, k);
        Ok(Some((Token { kind: TokenKind::StrLit(text), off: j }, k + 1)))
    } else if b == 61 {
        if j + 1 < n && s[j + 1] == 62 {
            Ok(Some((Token { kind: TokenKind::FatArrow, off: j }, j + 2)))
        } else {
            Err(ParseError { kind: ParseErrorKind::IllegalByte, off: j })
        }
    } else if b == 44 {
        Ok(Some((Token { kind: TokenKind::Comma, off: j }, j + 1)))
    } else if b == 123 {
        Ok(Some((Token { kind: TokenKind::LBrace, off: j }, j + 1)))
    } else if b == 125 {
        Ok(Some((Token { kind: TokenKind::RBrace, off: j }, j + 1)))
    } else {
        Err(ParseError { kind: ParseErrorKind::IllegalByte, off: j })
    }
}

/// Lex a whole declaration into tokens, or report the first lexical error.
pub fn lex(s: &Vec<u8>) -> (r: Result<Vec<Token>, ParseError>)
    ensures
        match r {
            Ok(toks) => spec_lex(s@) == Ok::<_, ErrView>(toks.deep_view()),
            Err(e) => spec_lex(s@) == Err::<Seq<TokView>, _>(e@),
        },
{
    let mut toks: Vec<Token> = Vec::new();
    let mut pos: usize = 0;
    loop
        invariant
            0 <= pos <= s@.len(),
            spec_lex(s@) == match spec_lex_from(s@, pos as int) {
                Ok(r) => Ok::<Seq<TokView>, ErrView>(toks.deep_view() + r),
                Err(e) => Err::<Seq<TokView>, ErrView>(e),
            },
        decreases s@.len() - pos,
    {
        let ghost dv_old = toks.deep_view();
        match next_token(s, pos) {
            Ok(None) => {
                proof {
                    assert(toks.deep_view() + Seq::<TokView>::empty() =~= toks.deep_view());
                }
                return Ok(toks);
            },
            Ok(Some((t, j))) => {
                toks.push(t);
                proof {
                    assert(toks.deep_view() =~= dv_old.push(t@));
                    match spec_lex_from(s@, j as int) {
                        Ok(rest) => {
                            assert(dv_old + (seq![t@] + rest) =~= dv_old.push(t@) + rest);
                        },
                        Err(_) => {},
                    }
                }
                pos = j;
            },
            Err(e) => {
                return Err(e);
            },
        }
    }
}

} // verus!
