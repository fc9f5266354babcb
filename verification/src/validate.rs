//! The semantic validator.
//!
//! It walks the parsed clauses and rejects: a second `state` or `rejection`
//! global, wherever the two declarations stand — an ambiguous declaration —
//! a duplicate HTTP method within one route's handler block, an inline
//! handler block with no bindings, and a declaration whose globals stand
//! alone with no route at all. What survives is the validated route table.

use vstd::prelude::*;

use crate::ast::{Binding, BindingView, Clause, ClauseView, Method, RouteClause, RouteClauseView};

verus! {

/// A build-time rule violation in an otherwise well-formed declaration.
pub enum SemanticError {
    /// `state` was declared a second time; the offset points at it.
    DuplicateState { off: usize },
    /// `rejection` was declared a second time; the offset points at it.
    DuplicateRejection { off: usize },
    /// Globals were declared but the declaration has no route.
    NoRoutes { off: usize },
    /// One route declared the same method twice; names the route and method.
    DuplicateMethod { path: Vec<u8>, method: Method, off: usize },
    /// A route's model has no declared handler for any method.
    NoHandlers { model: Vec<u8>, off: usize },
    /// A model handler is not suspend-capable.
    HandlerNotAsync { model: Vec<u8>, name: Vec<u8> },
    /// A model handler's first parameter does not bind the model by value.
    HandlerDoesNotBindModel { model: Vec<u8>, name: Vec<u8> },
}

/// Mathematical form of `SemanticError`.
pub enum SemErrView {
    DuplicateState { off: int },
    DuplicateRejection { off: int },
    NoRoutes { off: int },
    DuplicateMethod { path: Seq<u8>, method: Method, off: int },
    NoHandlers { model: Seq<u8>, off: int },
    HandlerNotAsync { model: Seq<u8>, name: Seq<u8> },
    HandlerDoesNotBindModel { model: Seq<u8>, name: Seq<u8> },
}

impl View for SemanticError {
    type V = SemErrView;

    open spec fn view(&self) -> SemErrView {
        match self {
            SemanticError::DuplicateState { off } => SemErrView::DuplicateState {
                off: *off as int,
            },
            SemanticError::DuplicateRejection { off } => SemErrView::DuplicateRejection {
                off: *off as int,
            },
            SemanticError::NoRoutes { off } => SemErrView::NoRoutes { off: *off as int },
            SemanticError::DuplicateMethod { path, method, off } => SemErrView::DuplicateMethod {
                path: path@,
                method: *method,
                off: *off as int,
            },
            SemanticError::NoHandlers { model, off } => SemErrView::NoHandlers {
                model: model@,
                off: *off as int,
            },
            SemanticError::HandlerNotAsync { model, name } => SemErrView::HandlerNotAsync {
                model: model@,
                name: name@,
            },
            SemanticError::HandlerDoesNotBindModel { model, name } => {
                SemErrView::HandlerDoesNotBindModel { model: model@, name: name@ }
            },
        }
    }
}

/// The validated route table: the unambiguous globals and the route clauses
/// in declaration order.
pub struct Routes {
    pub state: Option<Vec<u8>>,
    pub rejection: Option<Vec<u8>>,
    pub routes: Vec<RouteClause>,
}

/// Mathematical form of `Routes`.
pub struct RoutesView {
    pub state: Option<Seq<u8>>,
    pub rejection: Option<Seq<u8>>,
    pub routes: Seq<RouteClauseView>,
}

impl View for Routes {
    type V = RoutesView;

    open spec fn view(&self) -> RoutesView {
        RoutesView {
            state: crate::parser::opt_bytes_view(self.state),
            rejection: crate::parser::opt_bytes_view(self.rejection),
            routes: self.routes.deep_view(),
        }
    }
}

/// Some binding among the first `upto` uses method `m`.
pub open spec fn method_in(bs: Seq<BindingView>, upto: int, m: Method) -> bool {
    exists|j: int| 0 <= j < upto && bs[j].method == m
}

/// The first binding at or after `i` whose method already occurred.
pub open spec fn first_dup(bs: Seq<BindingView>, i: int) -> Option<int>
    decreases bs.len() - i,
    when 0 <= i <= bs.len()
{
    if i >= bs.len() {
        None
    } else if method_in(bs, i, bs[i].method) {
        Some(i)
    } else {
        first_dup(bs, i + 1)
    }
}

/// If no binding repeats an earlier method, no two bindings share a method.
pub proof fn lemma_first_dup_none(bs: Seq<BindingView>, i: int)
    requires
        0 <= i <= bs.len(),
        first_dup(bs, i) is None,
        forall|j: int, k: int| 0 <= j < k < i ==> bs[j].method != bs[k].method,
    ensures
        forall|j: int, k: int| 0 <= j < k < bs.len() ==> bs[j].method != bs[k].method,
    decreases bs.len() - i,
{
    if i < bs.len() {
        assert(!method_in(bs, i, bs[i].method));
        assert forall|j: int, k: int| 0 <= j < k < i + 1 implies bs[j].method != bs[k].method by {
            if k == i {
                assert(!(exists|l: int| 0 <= l < i && bs[l].method == bs[i].method));
            }
        }
        lemma_first_dup_none(bs, i + 1);
    }
}

/// Why a single route clause is rejected, if it is.
pub open spec fn spec_check_route(rc: RouteClauseView) -> Option<SemErrView> {
    match rc.bindings {
        None => None,
        Some(bs) => match first_dup(bs, 0) {
            Some(j) => Some(
                SemErrView::DuplicateMethod {
                    path: rc.path,
                    method: bs[j].method,
                    off: bs[j].off,
                },
            ),
            None => if bs.len() == 0 {
                Some(SemErrView::NoHandlers { model: rc.model, off: rc.model_off })
            } else {
                None
            },
        },
    }
}

/// Validate the remaining clauses, carrying the globals and routes seen so
/// far.
pub open spec fn spec_validate_rest(
    cs: Seq<ClauseView>,
    state: Option<Seq<u8>>,
    rejection: Option<Seq<u8>>,
    routes: Seq<RouteClauseView>,
) -> Result<RoutesView, SemErrView>
    decreases cs.len(),
{
    if cs.len() == 0 {
        Ok(RoutesView { state, rejection, routes })
    } else {
        match cs[0] {
            ClauseView::StateDecl { ty, off } => {
                if state is Some {
                    Err(SemErrView::DuplicateState { off })
                } else {
                    spec_validate_rest(cs.drop_first(), Some(ty), rejection, routes)
                }
            },
            ClauseView::RejectionDecl { ty, off } => {
                if rejection is Some {
                    Err(SemErrView::DuplicateRejection { off })
                } else {
                    spec_validate_rest(cs.drop_first(), state, Some(ty), routes)
                }
            },
            ClauseView::Route(rc) => {
                match spec_check_route(rc) {
                    Some(e) => Err(e),
                    None => spec_validate_rest(cs.drop_first(), state, rejection, routes.push(rc)),
                }
            },
        }
    }
}

/// The offset a clause is reported at.
pub open spec fn clause_off(c: ClauseView) -> int {
    match c {
        ClauseView::StateDecl { ty, off } => off,
        ClauseView::RejectionDecl { ty, off } => off,
        ClauseView::Route(rc) => rc.path_off,
    }
}

/// Validate a parsed declaration into a route table.
pub open spec fn spec_validate(cs: Seq<ClauseView>) -> Result<RoutesView, SemErrView> {
    match spec_validate_rest(cs, None, None, Seq::empty()) {
        Err(e) => Err(e),
        Ok(rt) => {
            if (rt.state is Some || rt.rejection is Some) && rt.routes.len() == 0 {
                Err(SemErrView::NoRoutes { off: clause_off(cs[0]) })
            } else {
                Ok(rt)
            }
        },
    }
}

proof fn lemma_state_seen(
    cs: Seq<ClauseView>,
    st: Option<Seq<u8>>,
    rj: Option<Seq<u8>>,
    rts: Seq<RouteClauseView>,
    i: int,
)
    requires
        0 <= i < cs.len(),
        cs[i] is StateDecl,
        st is Some,
    ensures
        spec_validate_rest(cs, st, rj, rts) is Err,
    decreases cs.len(),
{
    if i > 0 {
        match cs[0] {
            ClauseView::StateDecl { ty, off } => {},
            ClauseView::RejectionDecl { ty, off } => {
                if rj is None {
                    lemma_state_seen(cs.drop_first(), st, Some(ty), rts, i - 1);
                }
            },
            ClauseView::Route(rc) => {
                if spec_check_route(rc) is None {
                    lemma_state_seen(cs.drop_first(), st, rj, rts.push(rc), i - 1);
                }
            },
        }
    }
}

proof fn lemma_rejection_seen(
    cs: Seq<ClauseView>,
    st: Option<Seq<u8>>,
    rj: Option<Seq<u8>>,
    rts: Seq<RouteClauseView>,
    i: int,
)
    requires
        0 <= i < cs.len(),
        cs[i] is RejectionDecl,
        rj is Some,
    ensures
        spec_validate_rest(cs, st, rj, rts) is Err,
    decreases cs.len(),
{
    if i > 0 {
        match cs[0] {
            ClauseView::RejectionDecl { ty, off } => {},
            ClauseView::StateDecl { ty, off } => {
                if st is None {
                    lemma_rejection_seen(cs.drop_first(), Some(ty), rj, rts, i - 1);
                }
            },
            ClauseView::Route(rc) => {
                if spec_check_route(rc) is None {
                    lemma_rejection_seen(cs.drop_first(), st, rj, rts.push(rc), i - 1);
                }
            },
        }
    }
}

proof fn lemma_two_states(
    cs: Seq<ClauseView>,
    st: Option<Seq<u8>>,
    rj: Option<Seq<u8>>,
    rts: Seq<RouteClauseView>,
    i: int,
    j: int,
)
    requires
        0 <= i < j < cs.len(),
        cs[i] is StateDecl,
        cs[j] is StateDecl,
    ensures
        spec_validate_rest(cs, st, rj, rts) is Err,
    decreases cs.len(),
{
    if st is Some {
        lemma_state_seen(cs, st, rj, rts, i);
    } else {
        match cs[0] {
            ClauseView::StateDecl { ty, off } => {
                if i == 0 {
                    lemma_state_seen(cs.drop_first(), Some(ty), rj, rts, j - 1);
                } else {
                    lemma_state_seen(cs.drop_first(), Some(ty), rj, rts, i - 1);
                }
            },
            ClauseView::RejectionDecl { ty, off } => {
                if rj is None {
                    lemma_two_states(cs.drop_first(), st, Some(ty), rts, i - 1, j - 1);
                }
            },
            ClauseView::Route(rc) => {
                if spec_check_route(rc) is None {
                    lemma_two_states(cs.drop_first(), st, rj, rts.push(rc), i - 1, j - 1);
                }
            },
        }
    }
}

proof fn lemma_two_rejections(
    cs: Seq<ClauseView>,
    st: Option<Seq<u8>>,
    rj: Option<Seq<u8>>,
    rts: Seq<RouteClauseView>,
    i: int,
    j: int,
)
    requires
        0 <= i < j < cs.len(),
        cs[i] is RejectionDecl,
        cs[j] is RejectionDecl,
    ensures
        spec_validate_rest(cs, st, rj, rts) is Err,
    decreases cs.len(),
{
    if rj is Some {
        lemma_rejection_seen(cs, st, rj, rts, i);
    } else {
        match cs[0] {
            ClauseView::RejectionDecl { ty, off } => {
                if i == 0 {
                    lemma_rejection_seen(cs.drop_first(), st, Some(ty), rts, j - 1);
                } else {
                    lemma_rejection_seen(cs.drop_first(), st, Some(ty), rts, i - 1);
                }
            },
            ClauseView::StateDecl { ty, off } => {
                if st is None {
                    lemma_two_rejections(cs.drop_first(), Some(ty), rj, rts, i - 1, j - 1);
                }
            },
            ClauseView::Route(rc) => {
                if spec_check_route(rc) is None {
                    lemma_two_rejections(cs.drop_first(), st, rj, rts.push(rc), i - 1, j - 1);
                }
            },
        }
    }
}

proof fn lemma_bad_route(
    cs: Seq<ClauseView>,
    st: Option<Seq<u8>>,
    rj: Option<Seq<u8>>,
    rts: Seq<RouteClauseView>,
    i: int,
)
    requires
        0 <= i < cs.len(),
        cs[i] matches ClauseView::Route(rc) && spec_check_route(rc) is Some,
    ensures
        spec_validate_rest(cs, st, rj, rts) is Err,
    decreases cs.len(),
{
    if i > 0 {
        match cs[0] {
            ClauseView::StateDecl { ty, off } => {
                if st is None {
                    lemma_bad_route(cs.drop_first(), Some(ty), rj, rts, i - 1);
                }
            },
            ClauseView::RejectionDecl { ty, off } => {
                if rj is None {
                    lemma_bad_route(cs.drop_first(), st, Some(ty), rts, i - 1);
                }
            },
            ClauseView::Route(rc) => {
                if spec_check_route(rc) is None {
                    lemma_bad_route(cs.drop_first(), st, rj, rts.push(rc), i - 1);
                }
            },
        }
    }
}

/// Declaring `state` twice is rejected, wherever the two declarations stand
/// among the clauses.
pub proof fn lemma_duplicate_state_rejected(cs: Seq<ClauseView>, i: int, j: int)
    requires
        0 <= i < j < cs.len(),
        cs[i] is StateDecl,
        cs[j] is StateDecl,
    ensures
        spec_validate(cs) is Err,
{
    lemma_two_states(cs, None, None, Seq::empty(), i, j);
}

/// Declaring `rejection` twice is rejected, wherever the two declarations
/// stand among the clauses.
pub proof fn lemma_duplicate_rejection_rejected(cs: Seq<ClauseView>, i: int, j: int)
    requires
        0 <= i < j < cs.len(),
        cs[i] is RejectionDecl,
        cs[j] is RejectionDecl,
    ensures
        spec_validate(cs) is Err,
{
    lemma_two_rejections(cs, None, None, Seq::empty(), i, j);
}

/// A route whose inline handler block declares no method handler at all is
/// rejected.
pub proof fn lemma_route_without_handlers_rejected(cs: Seq<ClauseView>, i: int)
    requires
        0 <= i < cs.len(),
        cs[i] matches ClauseView::Route(rc) && rc.bindings == Some(Seq::<BindingView>::empty()),
    ensures
        spec_validate(cs) is Err,
{
    lemma_bad_route(cs, None, None, Seq::empty(), i);
}

/// A route that declares the same HTTP method twice is rejected.
pub proof fn lemma_duplicate_method_rejected(cs: Seq<ClauseView>, i: int, j: int, k: int)
    requires
        0 <= i < cs.len(),
        cs[i] matches ClauseView::Route(rc) && rc.bindings matches Some(bs) && 0 <= j < k
            < bs.len() && bs[j].method == bs[k].method,
    ensures
        spec_validate(cs) is Err,
{
    let rc = cs[i]->Route_0;
    let bs = rc.bindings.unwrap();
    if first_dup(bs, 0) is None {
        lemma_first_dup_none(bs, 0);
        assert(false);
    }
    lemma_bad_route(cs, None, None, Seq::empty(), i);
}

/// Check one route clause; `None` means it passes.
#[verifier::loop_isolation(false)]
fn check_route(rc: &RouteClause) -> (r: Option<SemanticError>)
    ensures
        match r {
            Some(e) => spec_check_route(rc@) == Some(e@),
            None => spec_check_route(rc@) is None,
        },
{
    match &rc.bindings {
        None => None,
        Some(bs) => {
            let ghost bsv = bs.deep_view();
            let n = bs.len();
            let mut i: usize = 0;
            while i < n
                invariant
                    bsv == bs.deep_view(),
                    n == bs@.len(),
                    bsv.len() == n,
                    0 <= i <= n,
                    first_dup(bsv, 0) == first_dup(bsv, i as int),
                decreases n - i,
            {
                let m = bs[i].method;
                proof {
                    assert(bsv[i as int] == bs@[i as int]@);
                }
                let mut j: usize = 0;
                let mut found = false;
                while j < i
                    invariant
                        bsv == bs.deep_view(),
                        n == bs@.len(),
                        bsv.len() == n,
                        0 <= j <= i <= n,
                        m == bsv[i as int].method,
                        found == method_in(bsv, j as int, m),
                    decreases i - j,
                {
                    proof {
                        assert(bsv[j as int] == bs@[j as int]@);
                    }
                    if bs[j].method == m {
                        found = true;
                        proof {
                            assert(method_in(bsv, j + 1, m));
                        }
                    } else {
                        proof {
                            if method_in(bsv, j + 1, m) {
                                assert(method_in(bsv, j as int, m) || bsv[j as int].method == m);
                            }
                        }
                    }
                    j = j + 1;
                }
                if found {
                    proof {
                        assert(first_dup(bsv, i as int) == Some(i as int));
                    }
                    return Some(
                        SemanticError::DuplicateMethod {
                            path: crate::bytes::copy_bytes(&rc.path),
                            method: m,
                            off: bs[i].off,
                        },
                    );
                }
                proof {
                    assert(first_dup(bsv, i as int) == first_dup(bsv, i + 1));
                }
                i = i + 1;
            }
            if n == 0 {
                Some(
                    SemanticError::NoHandlers {
                        model: crate::bytes::copy_bytes(&rc.model),
                        off: rc.model_off,
                    },
                )
            } else {
                None
            }
        },
    }
}

impl Routes {
    /// Parse and validate a whole declaration into a route table.
    ///
    /// Succeeds exactly when the text follows the declaration grammar and
    /// breaks none of the semantic rules; the error otherwise names the
    /// first fault in source order.
    pub fn parse(src: &Vec<u8>) -> (r: Result<Routes, crate::CompileError>)
        ensures
            match r {
                Ok(rt) => spec_routes_parse(src@) == Ok::<_, crate::CompileErrView>(rt@),
                Err(e) => spec_routes_parse(src@) == Err::<RoutesView, _>(e@),
            },
    {
        let clauses = match crate::parser::parse_declaration(src) {
            Ok(cs) => cs,
            Err(e) => {
                return Err(crate::CompileError::Syntax(e));
            },
        };
        match validate(clauses) {
            Ok(rt) => Ok(rt),
            Err(e) => Err(crate::CompileError::Semantic(e)),
        }
    }
}

/// The parse and validation of a declaration, as one function.
pub open spec fn spec_routes_parse(src: Seq<u8>) -> Result<RoutesView, crate::CompileErrView> {
    match crate::parser::spec_parse_decl(src) {
        Err(e) => Err(crate::CompileErrView::Syntax(e)),
        Ok(cs) => match spec_validate(cs) {
            Err(e) => Err(crate::CompileErrView::Semantic(e)),
            Ok(rt) => Ok(rt),
        },
    }
}

/// Validate parsed clauses into a route table.
#[verifier::loop_isolation(false)]
pub fn validate(clauses: Vec<Clause>) -> (r: Result<Routes, SemanticError>)
    ensures
        match r {
            Ok(rt) => spec_validate(clauses.deep_view()) == Ok::<_, SemErrView>(rt@),
            Err(e) => spec_validate(clauses.deep_view()) == Err::<RoutesView, _>(e@),
        },
{
    let ghost cs0 = clauses.deep_view();
    let had_clauses = clauses.len() > 0;
    let first_off: usize = if clauses.len() > 0 {
        proof {
            assert(cs0[0] == clauses@[0]@);
        }
        match &clauses[0] {
            Clause::StateDecl { ty, off } => *off,
            Clause::RejectionDecl { ty, off } => *off,
            Clause::Route(rc) => rc.path_off,
        }
    } else {
        0
    };
    proof {
        if cs0.len() > 0 {
            assert(first_off as int == clause_off(cs0[0]));
        }
    }
    let mut rest = clauses;
    let mut state: Option<Vec<u8>> = None;
    let mut rejection: Option<Vec<u8>> = None;
    let mut routes: Vec<RouteClause> = Vec::new();
    proof {
        assert(rest.deep_view() =~= cs0);
        assert(routes.deep_view() =~= Seq::<RouteClauseView>::empty());
    }
    while rest.len() > 0
        invariant
            spec_validate_rest(cs0, None, None, Seq::empty()) == spec_validate_rest(
                rest.deep_view(),
                crate::parser::opt_bytes_view(state),
                crate::parser::opt_bytes_view(rejection),
                routes.deep_view(),
            ),
        decreases rest@.len(),
    {
        let ghost rv = rest.deep_view();
        let ghost routes_old = routes.deep_view();
        proof {
            assert(rv[0] == rest@[0]@);
            assert(rest@.remove(0) =~= rest@.drop_first());
        }
        let c = rest.remove(0);
        proof {
            assert(rest.deep_view() =~= rv.drop_first());
        }
        match c {
            Clause::StateDecl { ty, off } => {
                if state.is_some() {
                    return Err(SemanticError::DuplicateState { off });
                }
                state = Some(ty);
            },
            Clause::RejectionDecl { ty, off } => {
                if rejection.is_some() {
                    return Err(SemanticError::DuplicateRejection { off });
                }
                rejection = Some(ty);
            },
            Clause::Route(rc) => {
                match check_route(&rc) {
                    Some(e) => {
                        return Err(e);
                    },
                    None => {
                        routes.push(rc);
                        proof {
                            assert(routes.deep_view() =~= routes_old.push(rc@));
                        }
                    },
                }
            },
        }
    }
    proof {
        assert(rest.deep_view() =~= Seq::<ClauseView>::empty());
    }
    let no_routes = routes.len() == 0;
    if (state.is_some() || rejection.is_some()) && no_routes {
        proof {
            assert(cs0.len() > 0) by {
                if cs0.len() == 0 {
                    assert(spec_validate_rest(cs0, None, None, Seq::empty()) == Ok::<
                        _,
                        SemErrView,
                    >(
                        RoutesView {
                            state: None,
                            rejection: None,
                            routes: Seq::empty(),
                        },
                    ));
                }
            }
        }
        return Err(SemanticError::NoRoutes { off: first_off });
    }
    Ok(Routes { state, rejection, routes })
}

} // verus!
