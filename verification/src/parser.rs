//! The route declaration parser.
//!
//! The grammar, over the lexer's tokens:
//!
//! ```text
//! declaration  = [ clause { "," clause } [ "," ] ]
//! clause       = "state" "=>" ident
//!              | "rejection" "=>" ident
//!              | strlit "=>" [ "rejection" ident "=>" ] ident [ block ]
//! block        = "{" [ binding { "," binding } [ "," ] ] "}"
//! binding      = method "=>" ident
//! method       = "get" | "post" | "put" | "patch" | "delete"
//! ```
//!
//! A route clause without a block uses the implicit binding form: its
//! handlers come from the model's own handler implementations. Semantic
//! rules (duplicate globals, duplicate methods, empty handler sets) are not
//! enforced here; the validator rejects them over the parsed clauses.

use vstd::prelude::*;

use crate::ast::{
    kw_rejection, kw_state, spec_method_of_ident, Binding, BindingView, Clause, ClauseView,
    RouteClauseView,
};
use crate::lexer::{ErrView, ParseError, ParseErrorKind, TokKindView, TokView, Token, TokenKind};
use crate::path::{spec_parse_path, PathError};

verus! {

/// The offset a parse error at position `p` points at: the token there, or
/// the end of the source when the tokens ran out.
pub open spec fn tok_off(toks: Seq<TokView>, p: int, end: int) -> int {
    if 0 <= p < toks.len() {
        toks[p].off
    } else {
        end
    }
}

/// Parse the inside of a handler block, starting just after its `{`.
/// Returns the bindings in source order and the position after the `}`.
pub open spec fn spec_parse_bindings(toks: Seq<TokView>, p: int, end: int) -> Result<
    (Seq<BindingView>, int),
    ErrView,
>
    decreases toks.len() - p,
    when 0 <= p <= toks.len()
{
    if p >= toks.len() {
        Err(ErrView { kind: ParseErrorKind::UnexpectedEnd, off: end })
    } else if toks[p].kind is RBrace {
        Ok((Seq::empty(), p + 1))
    } else {
        match toks[p].kind {
            TokKindView::Ident(s) => match spec_method_of_ident(s) {
                None => Err(ErrView { kind: ParseErrorKind::ExpectedHandler, off: toks[p].off }),
                Some(m) => if p + 1 >= toks.len() || !(toks[p + 1].kind is FatArrow) {
                    Err(
                        ErrView {
                            kind: ParseErrorKind::ExpectedFatArrow,
                            off: tok_off(toks, p + 1, end),
                        },
                    )
                } else {
                    match if p + 2 < toks.len() {
                        toks[p + 2].kind
                    } else {
                        TokKindView::Comma
                    } {
                        TokKindView::Ident(h) => {
                            let b = BindingView { method: m, handler: h, off: toks[p].off };
                            if p + 3 >= toks.len() {
                                Err(ErrView { kind: ParseErrorKind::UnexpectedEnd, off: end })
                            } else if toks[p + 3].kind is RBrace {
                                Ok((seq![b], p + 4))
                            } else if toks[p + 3].kind is Comma {
                                match spec_parse_bindings(toks, p + 4, end) {
                                    Ok((bs, p2)) => Ok((seq![b] + bs, p2)),
                                    Err(e) => Err(e),
                                }
                            } else {
                                Err(
                                    ErrView {
                                        kind: ParseErrorKind::ExpectedComma,
                                        off: toks[p + 3].off,
                                    },
                                )
                            }
                        },
                        _ => Err(
                            ErrView {
                                kind: ParseErrorKind::ExpectedIdent,
                                off: tok_off(toks, p + 2, end),
                            },
                        ),
                    }
                },
            },
            _ => Err(ErrView { kind: ParseErrorKind::ExpectedHandler, off: toks[p].off }),
        }
    }
}

/// A successful block parse consumes at least the closing brace and stays
/// within the token stream.
pub proof fn lemma_bindings_advance(toks: Seq<TokView>, p: int, end: int)
    requires
        0 <= p <= toks.len(),
    ensures
        spec_parse_bindings(toks, p, end) matches Ok((bs, p2)) ==> p < p2 <= toks.len(),
    decreases toks.len() - p,
{
    if p < toks.len() && !(toks[p].kind is RBrace) {
        match toks[p].kind {
            TokKindView::Ident(s) => {
                if spec_method_of_ident(s) is Some {
                    if p + 3 < toks.len() && toks[p + 3].kind is Comma {
                        lemma_bindings_advance(toks, p + 4, end);
                    }
                }
            },
            _ => {},
        }
    }
}

/// Parse the part of a route clause after the model name, given the
/// position `q` of the model token.
pub open spec fn spec_parse_route_tail(
    toks: Seq<TokView>,
    p: int,
    path: Seq<u8>,
    rejection: Option<Seq<u8>>,
    q: int,
    end: int,
) -> Result<(ClauseView, int), ErrView>
    recommends
        0 <= p < toks.len(),
        p < q,
{
    match if 0 <= q < toks.len() {
        toks[q].kind
    } else {
        TokKindView::Comma
    } {
        TokKindView::Ident(model) => {
            match spec_parse_path(path) {
                Err(PathError::Empty) => Err(
                    ErrView { kind: ParseErrorKind::EmptyPath, off: toks[p].off },
                ),
                Err(PathError::NoLeadingSlash) => Err(
                    ErrView { kind: ParseErrorKind::PathNoLeadingSlash, off: toks[p].off },
                ),
                Ok(segments) => {
                    if q + 1 < toks.len() && toks[q + 1].kind is LBrace {
                        match spec_parse_bindings(toks, q + 2, end) {
                            Ok((bs, p2)) => Ok(
                                (
                                    ClauseView::Route(
                                        RouteClauseView {
                                            path,
                                            path_off: toks[p].off,
                                            segments,
                                            rejection,
                                            model,
                                            model_off: toks[q].off,
                                            bindings: Some(bs),
                                        },
                                    ),
                                    p2,
                                ),
                            ),
                            Err(e) => Err(e),
                        }
                    } else {
                        Ok(
                            (
                                ClauseView::Route(
                                    RouteClauseView {
                                        path,
                                        path_off: toks[p].off,
                                        segments,
                                        rejection,
                                        model,
                                        model_off: toks[q].off,
                                        bindings: None,
                                    },
                                ),
                                q + 1,
                            ),
                        )
                    }
                },
            }
        },
        _ => Err(ErrView { kind: ParseErrorKind::ExpectedIdent, off: tok_off(toks, q, end) }),
    }
}

/// Parse one clause starting at `p`.
pub open spec fn spec_parse_clause(toks: Seq<TokView>, p: int, end: int) -> Result<
    (ClauseView, int),
    ErrView,
>
    recommends
        0 <= p < toks.len(),
{
    match toks[p].kind {
        TokKindView::Ident(s) => {
            if s == kw_state() || s == kw_rejection() {
                if p + 1 >= toks.len() || !(toks[p + 1].kind is FatArrow) {
                    Err(
                        ErrView {
                            kind: ParseErrorKind::ExpectedFatArrow,
                            off: tok_off(toks, p + 1, end),
                        },
                    )
                } else {
                    match if p + 2 < toks.len() {
                        toks[p + 2].kind
                    } else {
                        TokKindView::Comma
                    } {
                        TokKindView::Ident(ty) => if s == kw_state() {
                            Ok((ClauseView::StateDecl { ty, off: toks[p].off }, p + 3))
                        } else {
                            Ok((ClauseView::RejectionDecl { ty, off: toks[p].off }, p + 3))
                        },
                        _ => Err(
                            ErrView {
                                kind: ParseErrorKind::ExpectedIdent,
                                off: tok_off(toks, p + 2, end),
                            },
                        ),
                    }
                }
            } else {
                Err(ErrView { kind: ParseErrorKind::ExpectedClause, off: toks[p].off })
            }
        },
        TokKindView::StrLit(path) => {
            if p + 1 >= toks.len() || !(toks[p + 1].kind is FatArrow) {
                Err(
                    ErrView {
                        kind: ParseErrorKind::ExpectedFatArrow,
                        off: tok_off(toks, p + 1, end),
                    },
                )
            } else {
                let has_rej = p + 2 < toks.len() && (toks[p + 2].kind matches TokKindView::Ident(s)
                    && s == kw_rejection());
                if has_rej {
                    match if p + 3 < toks.len() {
                        toks[p + 3].kind
                    } else {
                        TokKindView::Comma
                    } {
                        TokKindView::Ident(ty) => {
                            if p + 4 >= toks.len() || !(toks[p + 4].kind is FatArrow) {
                                Err(
                                    ErrView {
                                        kind: ParseErrorKind::ExpectedFatArrow,
                                        off: tok_off(toks, p + 4, end),
                                    },
                                )
                            } else {
                                spec_parse_route_tail(toks, p, path, Some(ty), p + 5, end)
                            }
                        },
                        _ => Err(
                            ErrView {
                                kind: ParseErrorKind::ExpectedIdent,
                                off: tok_off(toks, p + 3, end),
                            },
                        ),
                    }
                } else {
                    spec_parse_route_tail(toks, p, path, None, p + 2, end)
                }
            }
        },
        _ => Err(ErrView { kind: ParseErrorKind::ExpectedClause, off: toks[p].off }),
    }
}

/// A successful clause parse moves forward and stays within the stream.
pub proof fn lemma_clause_advances(toks: Seq<TokView>, p: int, end: int)
    requires
        0 <= p < toks.len(),
    ensures
        spec_parse_clause(toks, p, end) matches Ok((c, p2)) ==> p < p2 <= toks.len(),
{
    match toks[p].kind {
        TokKindView::StrLit(path) => {
            if p + 4 <= toks.len() {
                lemma_bindings_advance(toks, p + 4, end);
            }
            if p + 7 <= toks.len() {
                lemma_bindings_advance(toks, p + 7, end);
            }
        },
        _ => {},
    }
}

/// Parse a comma-separated clause list starting at `p`; a trailing comma is
/// permitted.
pub open spec fn spec_parse_clauses(toks: Seq<TokView>, p: int, end: int) -> Result<
    Seq<ClauseView>,
    ErrView,
>
    decreases toks.len() - p,
    when 0 <= p <= toks.len()
{
    if p >= toks.len() {
        Ok(Seq::empty())
    } else {
        match spec_parse_clause(toks, p, end) {
            Err(e) => Err(e),
            Ok((c, p2)) => {
                proof {
                    lemma_clause_advances(toks, p, end);
                }
                if p2 >= toks.len() {
                    Ok(seq![c])
                } else if toks[p2].kind is Comma {
                    match spec_parse_clauses(toks, p2 + 1, end) {
                        Ok(r) => Ok(seq![c] + r),
                        Err(e) => Err(e),
                    }
                } else {
                    Err(ErrView { kind: ParseErrorKind::ExpectedComma, off: toks[p2].off })
                }
            },
        }
    }
}

/// The parse of a whole declaration: lex, then parse the clause list.
pub open spec fn spec_parse_decl(src: Seq<u8>) -> Result<Seq<ClauseView>, ErrView> {
    match crate::lexer::spec_lex(src) {
        Err(e) => Err(e),
        Ok(toks) => spec_parse_clauses(toks, 0, src.len() as int),
    }
}

/// The view of an optional byte string.
pub open spec fn opt_bytes_view(o: Option<Vec<u8>>) -> Option<Seq<u8>> {
    match o {
        Some(v) => Some(v@),
        None => None,
    }
}

/// Read the inside of a handler block, starting just after its `{`.
fn parse_bindings(toks: &Vec<Token>, p0: usize, end: usize) -> (r: Result<
    (Vec<Binding>, usize),
    ParseError,
>)
    requires
        p0 <= toks@.len(),
    ensures
        match r {
            Ok((bs, p2)) => spec_parse_bindings(toks.deep_view(), p0 as int, end as int)
                == Ok::<_, ErrView>((bs.deep_view(), p2 as int)) && p0 < p2 <= toks@.len(),
            Err(e) => spec_parse_bindings(toks.deep_view(), p0 as int, end as int) == Err::<
                (Seq<BindingView>, int),
                _,
            >(e@),
        },
{
    let ghost tv = toks.deep_view();
    let n = toks.len();
    let mut acc: Vec<Binding> = Vec::new();
    let mut p = p0;
    proof {
        assert(acc.deep_view() =~= Seq::<BindingView>::empty());
        match spec_parse_bindings(tv, p0 as int, end as int) {
            Ok((rest, e)) => {
                assert(Seq::<BindingView>::empty() + rest =~= rest);
            },
            Err(_) => {},
        }
    }
    loop
        invariant
            tv == toks.deep_view(),
            n == toks@.len(),
            tv.len() == n,
            p0 <= p <= n,
            spec_parse_bindings(tv, p0 as int, end as int) == match spec_parse_bindings(
                tv,
                p as int,
                end as int,
            ) {
                Ok((rest, e)) => Ok::<_, ErrView>((acc.deep_view() + rest, e)),
                Err(er) => Err::<(Seq<BindingView>, int), _>(er),
            },
        decreases n - p,
    {
        if p >= n {
            return Err(ParseError { kind: ParseErrorKind::UnexpectedEnd, off: end });
        }
        proof {
            assert(tv[p as int] == toks@[p as int]@);
        }
        let is_rbrace = match &toks[p].kind {
            TokenKind::RBrace => true,
            _ => false,
        };
        if is_rbrace {
            proof {
                assert(acc.deep_view() + Seq::<BindingView>::empty() =~= acc.deep_view());
            }
            return Ok((acc, p + 1));
        }
        let moff = toks[p].off;
        let m = match &toks[p].kind {
            TokenKind::Ident(s) => {
                match crate::ast::method_of_ident(s) {
                    Some(m) => m,
                    None => {
                        return Err(
                            ParseError { kind: ParseErrorKind::ExpectedHandler, off: moff },
                        );
                    },
                }
            },
            _ => {
                return Err(ParseError { kind: ParseErrorKind::ExpectedHandler, off: moff });
            },
        };
        proof {
            if p + 1 < n {
                assert(tv[p as int + 1] == toks@[p as int + 1]@);
            }
        }
        let arrow_ok = p + 1 < n && (match &toks[p + 1].kind {
            TokenKind::FatArrow => true,
            _ => false,
        });
        if !arrow_ok {
            let off = if p + 1 < n {
                toks[p + 1].off
            } else {
                end
            };
            return Err(ParseError { kind: ParseErrorKind::ExpectedFatArrow, off });
        }
        if p + 2 >= n {
            return Err(ParseError { kind: ParseErrorKind::ExpectedIdent, off: end });
        }
        proof {
            assert(tv[p as int + 2] == toks@[p as int + 2]@);
        }
        let handler = match &toks[p + 2].kind {
            TokenKind::Ident(h) => crate::bytes::copy_bytes(h),
            _ => {
                return Err(
                    ParseError { kind: ParseErrorKind::ExpectedIdent, off: toks[p + 2].off },
                );
            },
        };
        let b = Binding { method: m, handler, off: moff };
        if p + 3 >= n {
            return Err(ParseError { kind: ParseErrorKind::UnexpectedEnd, off: end });
        }
        proof {
            assert(tv[p as int + 3] == toks@[p as int + 3]@);
        }
        let ghost dv_old = acc.deep_view();
        match &toks[p + 3].kind {
            TokenKind::RBrace => {
                acc.push(b);
                proof {
                    assert(acc.deep_view() =~= dv_old.push(b@));
                    assert(dv_old + seq![b@] =~= dv_old.push(b@));
                }
                return Ok((acc, p + 4));
            },
            TokenKind::Comma => {
                acc.push(b);
                proof {
                    assert(acc.deep_view() =~= dv_old.push(b@));
                    match spec_parse_bindings(tv, p + 4, end as int) {
                        Ok((bs, p2)) => {
                            assert(dv_old + (seq![b@] + bs) =~= dv_old.push(b@) + bs);
                        },
                        Err(_) => {},
                    }
                }
                p = p + 4;
            },
            _ => {
                return Err(
                    ParseError { kind: ParseErrorKind::ExpectedComma, off: toks[p + 3].off },
                );
            },
        }
    }
}

/// Read the part of a route clause after its optional rejection override,
/// with `q` at the model name.
fn parse_route_tail(
    toks: &Vec<Token>,
    p: usize,
    path: Vec<u8>,
    rejection: Option<Vec<u8>>,
    q: usize,
    end: usize,
) -> (r: Result<(Clause, usize), ParseError>)
    requires
        p < toks@.len(),
        p < q <= toks@.len(),
    ensures
        match r {
            Ok((c, p2)) => spec_parse_route_tail(
                toks.deep_view(),
                p as int,
                path@,
                opt_bytes_view(rejection),
                q as int,
                end as int,
            ) == Ok::<_, ErrView>((c@, p2 as int)) && p < p2 <= toks@.len(),
            Err(e) => spec_parse_route_tail(
                toks.deep_view(),
                p as int,
                path@,
                opt_bytes_view(rejection),
                q as int,
                end as int,
            ) == Err::<(ClauseView, int), _>(e@),
        },
{
    let ghost tv = toks.deep_view();
    let n = toks.len();
    proof {
        assert(tv[p as int] == toks@[p as int]@);
        if q < n {
            assert(tv[q as int] == toks@[q as int]@);
        }
    }
    if q >= n {
        return Err(ParseError { kind: ParseErrorKind::ExpectedIdent, off: end });
    }
    let model_off = toks[q].off;
    let model = match &toks[q].kind {
        TokenKind::Ident(m) => crate::bytes::copy_bytes(m),
        _ => {
            return Err(ParseError { kind: ParseErrorKind::ExpectedIdent, off: model_off });
        },
    };
    let path_off = toks[p].off;
    let segments = match crate::path::parse_path(&path) {
        Ok(segs) => segs,
        Err(PathError::Empty) => {
            return Err(ParseError { kind: ParseErrorKind::EmptyPath, off: path_off });
        },
        Err(PathError::NoLeadingSlash) => {
            return Err(ParseError { kind: ParseErrorKind::PathNoLeadingSlash, off: path_off });
        },
    };
    proof {
        if q + 1 < n {
            assert(tv[q as int + 1] == toks@[q as int + 1]@);
        }
    }
    let has_block = q + 1 < n && (match &toks[q + 1].kind {
        TokenKind::LBrace => true,
        _ => false,
    });
    if has_block {
        match parse_bindings(toks, q + 2, end) {
            Ok((bs, p2)) => {
                let rc = crate::ast::RouteClause {
                    path,
                    path_off,
                    segments,
                    rejection,
                    model,
                    model_off,
                    bindings: Some(bs),
                };
                Ok((Clause::Route(rc), p2))
            },
            Err(e) => Err(e),
        }
    } else {
        let rc = crate::ast::RouteClause {
            path,
            path_off,
            segments,
            rejection,
            model,
            model_off,
            bindings: None,
        };
        Ok((Clause::Route(rc), q + 1))
    }
}

/// Read one clause starting at `p`.
fn parse_clause(toks: &Vec<Token>, p: usize, end: usize) -> (r: Result<
    (Clause, usize),
    ParseError,
>)
    requires
        p < toks@.len(),
    ensures
        match r {
            Ok((c, p2)) => spec_parse_clause(toks.deep_view(), p as int, end as int)
                == Ok::<_, ErrView>((c@, p2 as int)) && p < p2 <= toks@.len(),
            Err(e) => spec_parse_clause(toks.deep_view(), p as int, end as int) == Err::<
                (ClauseView, int),
                _,
            >(e@),
        },
{
    let ghost tv = toks.deep_view();
    let n = toks.len();
    proof {
        assert(tv[p as int] == toks@[p as int]@);
        lemma_clause_advances(tv, p as int, end as int);
    }
    let off0 = toks[p].off;
    match &toks[p].kind {
        TokenKind::Ident(s) => {
            let is_state = crate::ast::is_state_kw(s);
            let is_rej = crate::ast::is_rejection_kw(s);
            if !(is_state || is_rej) {
                return Err(ParseError { kind: ParseErrorKind::ExpectedClause, off: off0 });
            }
            proof {
                if p + 1 < n {
                    assert(tv[p as int + 1] == toks@[p as int + 1]@);
                }
            }
            let arrow_ok = p + 1 < n && (match &toks[p + 1].kind {
                TokenKind::FatArrow => true,
                _ => false,
            });
            if !arrow_ok {
                let off = if p + 1 < n {
                    toks[p + 1].off
                } else {
                    end
                };
                return Err(ParseError { kind: ParseErrorKind::ExpectedFatArrow, off });
            }
            if p + 2 >= n {
                return Err(ParseError { kind: ParseErrorKind::ExpectedIdent, off: end });
            }
            proof {
                assert(tv[p as int + 2] == toks@[p as int + 2]@);
            }
            let ty = match &toks[p + 2].kind {
                TokenKind::Ident(t) => crate::bytes::copy_bytes(t),
                _ => {
                    return Err(
                        ParseError { kind: ParseErrorKind::ExpectedIdent, off: toks[p + 2].off },
                    );
                },
            };
            if is_state {
                Ok((Clause::StateDecl { ty, off: off0 }, p + 3))
            } else {
                Ok((Clause::RejectionDecl { ty, off: off0 }, p + 3))
            }
        },
        TokenKind::StrLit(path_text) => {
            let path = crate::bytes::copy_bytes(path_text);
            proof {
                if p + 1 < n {
                    assert(tv[p as int + 1] == toks@[p as int + 1]@);
                }
            }
            let arrow_ok = p + 1 < n && (match &toks[p + 1].kind {
                TokenKind::FatArrow => true,
                _ => false,
            });
            if !arrow_ok {
                let off = if p + 1 < n {
                    toks[p + 1].off
                } else {
                    end
                };
                return Err(ParseError { kind: ParseErrorKind::ExpectedFatArrow, off });
            }
            proof {
                if p + 2 < n {
                    assert(tv[p as int + 2] == toks@[p as int + 2]@);
                }
            }
            let has_rej = p + 2 < n && (match &toks[p + 2].kind {
                TokenKind::Ident(s) => crate::ast::is_rejection_kw(s),
                _ => false,
            });
            if has_rej {
                if p + 3 >= n {
                    return Err(ParseError { kind: ParseErrorKind::ExpectedIdent, off: end });
                }
                proof {
                    assert(tv[p as int + 3] == toks@[p as int + 3]@);
                }
                let ty = match &toks[p + 3].kind {
                    TokenKind::Ident(t) => crate::bytes::copy_bytes(t),
                    _ => {
                        return Err(
                            ParseError {
                                kind: ParseErrorKind::ExpectedIdent,
                                off: toks[p + 3].off,
                            },
                        );
                    },
                };
                proof {
                    if p + 4 < n {
                        assert(tv[p as int + 4] == toks@[p as int + 4]@);
                    }
                }
                let arrow2_ok = p + 4 < n && (match &toks[p + 4].kind {
                    TokenKind::FatArrow => true,
                    _ => false,
                });
                if !arrow2_ok {
                    let off = if p + 4 < n {
                        toks[p + 4].off
                    } else {
                        end
                    };
                    return Err(ParseError { kind: ParseErrorKind::ExpectedFatArrow, off });
                }
                parse_route_tail(toks, p, path, Some(ty), p + 5, end)
            } else {
                parse_route_tail(toks, p, path, None, p + 2, end)
            }
        },
        _ => Err(ParseError { kind: ParseErrorKind::ExpectedClause, off: off0 }),
    }
}

/// Read a whole clause list from the token stream.
fn parse_tokens(toks: &Vec<Token>, end: usize) -> (r: Result<Vec<Clause>, ParseError>)
    ensures
        match r {
            Ok(cs) => spec_parse_clauses(toks.deep_view(), 0, end as int) == Ok::<_, ErrView>(
                cs.deep_view(),
            ),
            Err(e) => spec_parse_clauses(toks.deep_view(), 0, end as int) == Err::<
                Seq<ClauseView>,
                _,
            >(e@),
        },
{
    let ghost tv = toks.deep_view();
    let n = toks.len();
    let mut acc: Vec<Clause> = Vec::new();
    let mut p: usize = 0;
    proof {
        assert(acc.deep_view() =~= Seq::<ClauseView>::empty());
        match spec_parse_clauses(tv, 0, end as int) {
            Ok(rest) => {
                assert(Seq::<ClauseView>::empty() + rest =~= rest);
            },
            Err(_) => {},
        }
    }
    loop
        invariant
            tv == toks.deep_view(),
            n == toks@.len(),
            tv.len() == n,
            0 <= p <= n,
            spec_parse_clauses(tv, 0, end as int) == match spec_parse_clauses(
                tv,
                p as int,
                end as int,
            ) {
                Ok(rest) => Ok::<_, ErrView>(acc.deep_view() + rest),
                Err(er) => Err::<Seq<ClauseView>, _>(er),
            },
        decreases n - p,
    {
        if p >= n {
            proof {
                assert(acc.deep_view() + Seq::<ClauseView>::empty() =~= acc.deep_view());
            }
            return Ok(acc);
        }
        let ghost dv_old = acc.deep_view();
        match parse_clause(toks, p, end) {
            Err(e) => {
                return Err(e);
            },
            Ok((c, p2)) => {
                acc.push(c);
                proof {
                    assert(acc.deep_view() =~= dv_old.push(c@));
                }
                if p2 >= n {
                    proof {
                        assert(dv_old + seq![c@] =~= dv_old.push(c@));
                    }
                    return Ok(acc);
                }
                proof {
                    assert(tv[p2 as int] == toks@[p2 as int]@);
                }
                match &toks[p2].kind {
                    TokenKind::Comma => {
                        proof {
                            match spec_parse_clauses(tv, p2 + 1, end as int) {
                                Ok(rest) => {
                                    assert(dv_old + (seq![c@] + rest) =~= dv_old.push(c@) + rest);
                                },
                                Err(_) => {},
                            }
                        }
                        p = p2 + 1;
                    },
                    _ => {
                        return Err(
                            ParseError { kind: ParseErrorKind::ExpectedComma, off: toks[p2].off },
                        );
                    },
                }
            },
        }
    }
}

/// Parse a declaration: lex the source, then read the clause list.
///
/// Succeeds exactly on the declarations of the grammar above, and reports
/// the first lexical or syntactic fault with the byte offset it points at.
pub fn parse_declaration(src: &Vec<u8>) -> (r: Result<Vec<Clause>, ParseError>)
    ensures
        match r {
            Ok(cs) => spec_parse_decl(src@) == Ok::<_, ErrView>(cs.deep_view()),
            Err(e) => spec_parse_decl(src@) == Err::<Seq<ClauseView>, _>(e@),
        },
{
    match crate::lexer::lex(src) {
        Err(e) => Err(e),
        Ok(toks) => parse_tokens(&toks, src.len()),
    }
}

} // verus!
