//! Router assembly and request dispatch.
//!
//! Assembly turns a validated route table and the models' handler sets into
//! one composed router: per route, the effective rejection type is resolved
//! once, and the wired method table is taken from the inline block or from
//! the model's own handlers. Dispatch matches a request path against all
//! registered templates, preferring more specific templates (static text
//! over a capture, a capture over a wildcard); among templates of equal
//! specificity the last registration wins — that is this router's conflict
//! policy for duplicate registrations, which assembly does not deduplicate.

use vstd::prelude::*;

use crate::ast::Method;
use crate::method_helper::{MethodHelper, MethodHelperView};
use crate::path::{spec_join, spec_split, PathSegment, SegView};
use crate::table::{
    spec_table_from_bindings, table_is_empty, table_slot, MethodTable, MethodTableView,
};
use crate::validate::{Routes, RoutesView, SemanticError, SemErrView};

verus! {

/// The rejection type a route converts extraction failures into.
pub enum EffectiveRejection {
    /// The host framework's native path-extraction-failure type.
    HostDefault,
    /// A caller-declared rejection type.
    Named(Vec<u8>),
}

/// Mathematical form of `EffectiveRejection`.
pub enum EffRejView {
    HostDefault,
    Named(Seq<u8>),
}

impl View for EffectiveRejection {
    type V = EffRejView;

    open spec fn view(&self) -> EffRejView {
        match self {
            EffectiveRejection::HostDefault => EffRejView::HostDefault,
            EffectiveRejection::Named(t) => EffRejView::Named(t@),
        }
    }
}

/// The effective rejection of a route: the route's own override if
/// declared, else the global rejection if declared, else the host default.
pub open spec fn spec_resolve_rejection(
    route: Option<Seq<u8>>,
    global: Option<Seq<u8>>,
) -> EffRejView {
    match route {
        Some(t) => EffRejView::Named(t),
        None => match global {
            Some(g) => EffRejView::Named(g),
            None => EffRejView::HostDefault,
        },
    }
}

/// Resolve a route's effective rejection type. Resolved once per route at
/// table-build time, never per request.
pub fn resolve_rejection(route: &Option<Vec<u8>>, global: &Option<Vec<u8>>) -> (r:
    EffectiveRejection)
    ensures
        r@ == spec_resolve_rejection(
            crate::parser::opt_bytes_view(*route),
            crate::parser::opt_bytes_view(*global),
        ),
{
    match route {
        Some(t) => EffectiveRejection::Named(crate::bytes::copy_bytes(t)),
        None => match global {
            Some(g) => EffectiveRejection::Named(crate::bytes::copy_bytes(g)),
            None => EffectiveRejection::HostDefault,
        },
    }
}

/// The host framework's native extraction error: the capture whose value
/// failed to bind.
pub struct HostExtractError {
    pub param: Vec<u8>,
}

/// A rejection as delivered to the host: the host's extraction error
/// wrapped into the route's effective rejection type. When no rejection
/// type is declared, the wrapping is the identity on the host error.
pub struct RejectionValue {
    pub rejection: EffectiveRejection,
    pub param: Vec<u8>,
}

/// Mathematical form of `RejectionValue`.
pub struct RejectionValueView {
    pub rejection: EffRejView,
    pub param: Seq<u8>,
}

impl View for RejectionValue {
    type V = RejectionValueView;

    open spec fn view(&self) -> RejectionValueView {
        RejectionValueView { rejection: self.rejection@, param: self.param@ }
    }
}

/// Wrap the host's native extraction error into the effective rejection.
pub fn convert_rejection(eff: &EffectiveRejection, err: HostExtractError) -> (r: RejectionValue)
    ensures
        r@ == (RejectionValueView { rejection: eff@, param: err.param@ }),
{
    let rejection = match eff {
        EffectiveRejection::HostDefault => EffectiveRejection::HostDefault,
        EffectiveRejection::Named(t) => EffectiveRejection::Named(crate::bytes::copy_bytes(t)),
    };
    RejectionValue { rejection, param: err.param }
}

/// One registered route of the composed router.
pub struct RouteEntry {
    pub path: Vec<u8>,
    pub segments: Vec<PathSegment>,
    pub model: Vec<u8>,
    pub rejection: EffectiveRejection,
    /// The wired methods; an absent slot falls back on the host's
    /// method-not-allowed behaviour, never on not-found.
    pub handlers: MethodTable,
}

/// Mathematical form of `RouteEntry`.
pub struct RouteEntryView {
    pub path: Seq<u8>,
    pub segments: Seq<SegView>,
    pub model: Seq<u8>,
    pub rejection: EffRejView,
    pub handlers: MethodTableView,
}

impl View for RouteEntry {
    type V = RouteEntryView;

    open spec fn view(&self) -> RouteEntryView {
        RouteEntryView {
            path: self.path@,
            segments: self.segments.deep_view(),
            model: self.model@,
            rejection: self.rejection@,
            handlers: self.handlers@,
        }
    }
}

impl DeepView for RouteEntry {
    type V = RouteEntryView;

    open spec fn deep_view(&self) -> RouteEntryView {
        self.view()
    }
}

/// The composed router: the declared state type carried through, and the
/// registered routes in declaration order.
pub struct Router {
    pub state: Option<Vec<u8>>,
    pub entries: Vec<RouteEntry>,
}

/// Mathematical form of `Router`.
pub struct RouterView {
    pub state: Option<Seq<u8>>,
    pub entries: Seq<RouteEntryView>,
}

impl View for Router {
    type V = RouterView;

    open spec fn view(&self) -> RouterView {
        RouterView {
            state: crate::parser::opt_bytes_view(self.state),
            entries: self.entries.deep_view(),
        }
    }
}

/// The handler set of the first helper declared for a model.
pub open spec fn spec_find_helper(hs: Seq<MethodHelperView>, model: Seq<u8>) -> Option<
    MethodTableView,
>
    decreases hs.len(),
{
    if hs.len() == 0 {
        None
    } else if hs[0].model == model {
        Some(hs[0].handlers)
    } else {
        spec_find_helper(hs.drop_first(), model)
    }
}

/// The dispatch entry one validated route clause builds, or why it is
/// rejected: a route in the implicit form whose model declares no handler
/// for any method has nothing to wire.
pub open spec fn spec_route_entry(
    rc: crate::ast::RouteClauseView,
    global: Option<Seq<u8>>,
    hs: Seq<MethodHelperView>,
) -> Result<RouteEntryView, SemErrView> {
    let wired = match rc.bindings {
        Some(bs) => Ok(spec_table_from_bindings(bs)),
        None => match spec_find_helper(hs, rc.model) {
            None => Err(SemErrView::NoHandlers { model: rc.model, off: rc.model_off }),
            Some(t) => if table_is_empty(t) {
                Err(SemErrView::NoHandlers { model: rc.model, off: rc.model_off })
            } else {
                Ok(t)
            },
        },
    };
    match wired {
        Err(e) => Err(e),
        Ok(t) => Ok(
            RouteEntryView {
                path: rc.path,
                segments: rc.segments,
                model: rc.model,
                rejection: spec_resolve_rejection(rc.rejection, global),
                handlers: t,
            },
        ),
    }
}

/// The dispatch entries of the remaining route clauses, in order.
pub open spec fn spec_assemble_rest(
    routes: Seq<crate::ast::RouteClauseView>,
    global: Option<Seq<u8>>,
    hs: Seq<MethodHelperView>,
) -> Result<Seq<RouteEntryView>, SemErrView>
    decreases routes.len(),
{
    if routes.len() == 0 {
        Ok(Seq::empty())
    } else {
        match spec_route_entry(routes[0], global, hs) {
            Err(e) => Err(e),
            Ok(e) => match spec_assemble_rest(routes.drop_first(), global, hs) {
                Err(er) => Err(er),
                Ok(es) => Ok(seq![e] + es),
            },
        }
    }
}

/// The composed router a validated table assembles into, or the first
/// route-level fault.
pub open spec fn spec_assemble(rt: RoutesView, hs: Seq<MethodHelperView>) -> Result<
    RouterView,
    SemErrView,
> {
    match spec_assemble_rest(rt.routes, rt.rejection, hs) {
        Err(e) => Err(e),
        Ok(es) => Ok(RouterView { state: rt.state, entries: es }),
    }
}

/// A route of the implicit binding form whose model declares no handler at
/// all is rejected at assembly: there is nothing to wire.
pub proof fn lemma_model_without_handlers_rejected(rt: RoutesView, hs: Seq<MethodHelperView>, i: int)
    requires
        0 <= i < rt.routes.len(),
        rt.routes[i].bindings is None,
        match spec_find_helper(hs, rt.routes[i].model) {
            None => true,
            Some(t) => table_is_empty(t),
        },
    ensures
        spec_assemble(rt, hs) is Err,
{
    lemma_bad_entry_rejected(rt.routes, rt.rejection, hs, i);
}

proof fn lemma_bad_entry_rejected(
    routes: Seq<crate::ast::RouteClauseView>,
    global: Option<Seq<u8>>,
    hs: Seq<MethodHelperView>,
    i: int,
)
    requires
        0 <= i < routes.len(),
        spec_route_entry(routes[i], global, hs) is Err,
    ensures
        spec_assemble_rest(routes, global, hs) is Err,
    decreases routes.len(),
{
    if i > 0 {
        if spec_route_entry(routes[0], global, hs) is Ok {
            lemma_bad_entry_rejected(routes.drop_first(), global, hs, i - 1);
        }
    }
}

/// The handler set of the first helper declared for a model.
fn find_helper<'a>(hs: &'a Vec<MethodHelper>, model: &Vec<u8>) -> (r: Option<&'a MethodTable>)
    ensures
        match r {
            Some(t) => spec_find_helper(hs.deep_view(), model@) == Some(t@),
            None => spec_find_helper(hs.deep_view(), model@) is None,
        },
{
    let ghost hv = hs.deep_view();
    let mut i: usize = 0;
    proof {
        assert(hv.subrange(0, hv.len() as int) =~= hv);
    }
    while i < hs.len()
        invariant
            hv == hs.deep_view(),
            0 <= i <= hs@.len(),
            hv.len() == hs@.len(),
            spec_find_helper(hv, model@) == spec_find_helper(
                hv.subrange(i as int, hv.len() as int),
                model@,
            ),
        decreases hs@.len() - i,
    {
        let ghost suffix = hv.subrange(i as int, hv.len() as int);
        proof {
            assert(hv[i as int] == hs@[i as int]@);
            assert(suffix[0] == hv[i as int]);
            assert(suffix.drop_first() =~= hv.subrange(i + 1, hv.len() as int));
        }
        if crate::bytes::bytes_eq(&hs[i].model, model) {
            return Some(&hs[i].handlers);
        }
        i = i + 1;
    }
    proof {
        assert(hv.subrange(hv.len() as int, hv.len() as int) =~= Seq::<MethodHelperView>::empty());
    }
    None
}

impl Routes {
    /// Assemble the composed router from this validated table and the
    /// models' resolved handler sets.
    ///
    /// Per route: the effective rejection type is resolved once, and the
    /// wired methods come from the inline handler block, or — in the
    /// implicit form — from the model's declared handlers. Fails exactly
    /// when an implicit-form route's model declares no handler for any
    /// method. Registration order is declaration order; duplicate
    /// path-and-method registrations are not deduplicated here.
    #[verifier::loop_isolation(false)]
    pub fn assemble(&self, helpers: &Vec<MethodHelper>) -> (r: Result<Router, SemanticError>)
        ensures
            match r {
                Ok(router) => spec_assemble(self@, helpers.deep_view()) == Ok::<_, SemErrView>(
                    router@,
                ),
                Err(e) => spec_assemble(self@, helpers.deep_view()) == Err::<RouterView, _>(e@),
            },
    {
        let ghost rv = self.routes.deep_view();
        let ghost hv = helpers.deep_view();
        let ghost global = crate::parser::opt_bytes_view(self.rejection);
        let mut entries: Vec<RouteEntry> = Vec::new();
        let mut i: usize = 0;
        proof {
            assert(rv.subrange(0, rv.len() as int) =~= rv);
            assert(entries.deep_view() =~= Seq::<RouteEntryView>::empty());
            match spec_assemble_rest(rv, global, hv) {
                Ok(es) => {
                    assert(Seq::<RouteEntryView>::empty() + es =~= es);
                },
                Err(_) => {},
            }
        }
        while i < self.routes.len()
            invariant
                0 <= i <= self.routes@.len(),
                spec_assemble_rest(rv, global, hv) == match spec_assemble_rest(
                    rv.subrange(i as int, rv.len() as int),
                    global,
                    hv,
                ) {
                    Ok(es) => Ok::<_, SemErrView>(entries.deep_view() + es),
                    Err(e) => Err::<Seq<RouteEntryView>, _>(e),
                },
            decreases self.routes@.len() - i,
        {
            let ghost suffix = rv.subrange(i as int, rv.len() as int);
            let ghost entries_old = entries.deep_view();
            proof {
                assert(rv[i as int] == self.routes@[i as int]@);
                assert(suffix[0] == rv[i as int]);
                assert(suffix.drop_first() =~= rv.subrange(i + 1, rv.len() as int));
            }
            let rc = &self.routes[i];
            let wired: MethodTable = match &rc.bindings {
                Some(bs) => crate::table::table_from_bindings(bs),
                None => {
                    match find_helper(helpers, &rc.model) {
                        None => {
                            return Err(
                                SemanticError::NoHandlers {
                                    model: crate::bytes::copy_bytes(&rc.model),
                                    off: rc.model_off,
                                },
                            );
                        },
                        Some(t) => {
                            if t.is_unwired() {
                                return Err(
                                    SemanticError::NoHandlers {
                                        model: crate::bytes::copy_bytes(&rc.model),
                                        off: rc.model_off,
                                    },
                                );
                            }
                            t.duplicate()
                        },
                    }
                },
            };
            let entry = RouteEntry {
                path: crate::bytes::copy_bytes(&rc.path),
                segments: crate::path::copy_segments(&rc.segments),
                model: crate::bytes::copy_bytes(&rc.model),
                rejection: resolve_rejection(&rc.rejection, &self.rejection),
                handlers: wired,
            };
            let ghost e0 = entry@;
            proof {
                assert(spec_route_entry(rv[i as int], global, hv) == Ok::<_, SemErrView>(e0));
            }
            entries.push(entry);
            proof {
                assert(entries.deep_view() =~= entries_old.push(e0));
                match spec_assemble_rest(rv.subrange(i + 1, rv.len() as int), global, hv) {
                    Ok(es) => {
                        assert(entries_old + (seq![e0] + es) =~= entries_old.push(e0) + es);
                    },
                    Err(_) => {},
                }
            }
            i = i + 1;
        }
        proof {
            assert(rv.subrange(rv.len() as int, rv.len() as int) =~= Seq::<
                crate::ast::RouteClauseView,
            >::empty());
            assert(entries.deep_view() + Seq::<RouteEntryView>::empty() =~= entries.deep_view());
        }
        let state = match &self.state {
            Some(s) => Some(crate::bytes::copy_bytes(s)),
            None => None,
        };
        Ok(Router { state, entries })
    }
}

/// One extracted path parameter: a capture name and its value.
pub struct PathParam {
    pub name: Vec<u8>,
    pub value: Vec<u8>,
}

/// Mathematical form of `PathParam`.
pub struct ParamView {
    pub name: Seq<u8>,
    pub value: Seq<u8>,
}

impl View for PathParam {
    type V = ParamView;

    open spec fn view(&self) -> ParamView {
        ParamView { name: self.name@, value: self.value@ }
    }
}

impl DeepView for PathParam {
    type V = ParamView;

    open spec fn deep_view(&self) -> ParamView {
        self.view()
    }
}

/// Match a template's segments against a request path's components.
/// A static segment matches its exact text; a capture takes one component;
/// a greedy capture, standing last, takes the whole remainder joined back
/// with `/`. The result is the captures in segment order, raw.
pub open spec fn spec_match_comps(segs: Seq<SegView>, comps: Seq<Seq<u8>>) -> Option<
    Seq<ParamView>,
>
    decreases segs.len(),
{
    if segs.len() == 0 {
        if comps.len() == 0 {
            Some(Seq::empty())
        } else {
            None
        }
    } else {
        match segs[0] {
            SegView::Static(t) => {
                if comps.len() > 0 && comps[0] == t {
                    spec_match_comps(segs.drop_first(), comps.drop_first())
                } else {
                    None
                }
            },
            SegView::Capture { name, greedy } => {
                if greedy {
                    if segs.len() == 1 && comps.len() > 0 {
                        Some(seq![ParamView { name, value: spec_join(comps, 47) }])
                    } else {
                        None
                    }
                } else {
                    if comps.len() > 0 {
                        match spec_match_comps(segs.drop_first(), comps.drop_first()) {
                            Some(ps) => Some(seq![ParamView { name, value: comps[0] }] + ps),
                            None => None,
                        }
                    } else {
                        None
                    }
                }
            },
        }
    }
}

/// How specific one segment is: static text beats a capture, a capture
/// beats a greedy wildcard.
pub open spec fn seg_rank(s: SegView) -> int {
    match s {
        SegView::Static(t) => 2,
        SegView::Capture { name, greedy } => if greedy {
            0
        } else {
            1
        },
    }
}

/// Compare two templates by specificity: positive when the first is more
/// specific at the first position where their segment kinds differ,
/// negative when the second is, zero when neither diverges first.
pub open spec fn spec_seg_cmp(a: Seq<SegView>, b: Seq<SegView>) -> int
    decreases a.len(),
{
    if a.len() == 0 || b.len() == 0 {
        0
    } else if seg_rank(a[0]) > seg_rank(b[0]) {
        1
    } else if seg_rank(a[0]) < seg_rank(b[0]) {
        -1
    } else {
        spec_seg_cmp(a.drop_first(), b.drop_first())
    }
}

/// The best-matching route among the first `n`: the most specific one
/// whose template matches; among equally specific matches the last
/// registered wins.
pub open spec fn spec_best_upto(
    entries: Seq<RouteEntryView>,
    comps: Seq<Seq<u8>>,
    n: int,
) -> Option<int>
    decreases n,
{
    if n <= 0 {
        None
    } else {
        let prev = spec_best_upto(entries, comps, n - 1);
        if spec_match_comps(entries[n - 1].segments, comps) is Some {
            match prev {
                None => Some(n - 1),
                Some(b) => {
                    if spec_seg_cmp(entries[n - 1].segments, entries[b].segments) >= 0 {
                        Some(n - 1)
                    } else {
                        Some(b)
                    }
                },
            }
        } else {
            prev
        }
    }
}

/// The best-matching route of the whole table.
pub open spec fn spec_best_route(entries: Seq<RouteEntryView>, comps: Seq<Seq<u8>>) -> Option<
    int,
> {
    spec_best_upto(entries, comps, entries.len() as int)
}

/// A best match is a real index whose template matches.
pub proof fn lemma_best_upto_props(entries: Seq<RouteEntryView>, comps: Seq<Seq<u8>>, n: int)
    requires
        n <= entries.len(),
    ensures
        spec_best_upto(entries, comps, n) matches Some(i) ==> 0 <= i < n && spec_match_comps(
            entries[i].segments,
            comps,
        ) is Some,
    decreases n,
{
    if n > 0 {
        lemma_best_upto_props(entries, comps, n - 1);
    }
}

/// Specificity comparison is antisymmetric.
proof fn lemma_cmp_antisym(a: Seq<SegView>, b: Seq<SegView>)
    ensures
        spec_seg_cmp(a, b) == -spec_seg_cmp(b, a),
    decreases a.len(),
{
    if a.len() > 0 && b.len() > 0 && seg_rank(a[0]) == seg_rank(b[0]) {
        lemma_cmp_antisym(a.drop_first(), b.drop_first());
    }
}

/// Among templates that all match one request path, specificity is
/// transitive: the comparison walks the same component positions in each.
proof fn lemma_cmp_trans_matching(
    a: Seq<SegView>,
    b: Seq<SegView>,
    c: Seq<SegView>,
    comps: Seq<Seq<u8>>,
)
    requires
        spec_match_comps(a, comps) is Some,
        spec_match_comps(b, comps) is Some,
        spec_match_comps(c, comps) is Some,
        spec_seg_cmp(a, b) >= 0,
        spec_seg_cmp(b, c) >= 0,
    ensures
        spec_seg_cmp(a, c) >= 0,
    decreases comps.len(),
{
    if comps.len() == 0 {
        assert(a.len() == 0 && b.len() == 0 && c.len() == 0);
    } else {
        assert(a.len() > 0 && b.len() > 0 && c.len() > 0);
        let ra = seg_rank(a[0]);
        let rb = seg_rank(b[0]);
        let rc = seg_rank(c[0]);
        assert(ra >= rb && rb >= rc);
        if ra == rc {
            assert(ra == rb && rb == rc);
            if ra == 0 {
                assert(a.len() == 1 && c.len() == 1);
                assert(spec_seg_cmp(a.drop_first(), c.drop_first()) == 0);
                assert(spec_seg_cmp(a, c) == 0);
            } else {
                assert(spec_match_comps(a.drop_first(), comps.drop_first()) is Some);
                assert(spec_match_comps(b.drop_first(), comps.drop_first()) is Some);
                assert(spec_match_comps(c.drop_first(), comps.drop_first()) is Some);
                lemma_cmp_trans_matching(
                    a.drop_first(),
                    b.drop_first(),
                    c.drop_first(),
                    comps.drop_first(),
                );
            }
        } else {
            assert(ra > rc);
        }
    }
}

/// The chosen route, considering the first `n`, is at least as specific as
/// every matching route among them; and none is chosen only when none
/// matches.
proof fn lemma_best_upto_max(entries: Seq<RouteEntryView>, comps: Seq<Seq<u8>>, n: int)
    requires
        n <= entries.len(),
    ensures
        spec_best_upto(entries, comps, n) matches Some(b) ==> forall|j: int|
            0 <= j < n && spec_match_comps(#[trigger] entries[j].segments, comps) is Some
                ==> spec_seg_cmp(entries[b].segments, entries[j].segments) >= 0,
        spec_best_upto(entries, comps, n) is None ==> forall|j: int|
            0 <= j < n ==> spec_match_comps(#[trigger] entries[j].segments, comps) is None,
    decreases n,
{
    if n > 0 {
        lemma_best_upto_max(entries, comps, n - 1);
        lemma_best_upto_props(entries, comps, n - 1);
        let i = n - 1;
        let prev = spec_best_upto(entries, comps, n - 1);
        if spec_match_comps(entries[i].segments, comps) is Some {
            match prev {
                None => {
                    lemma_cmp_antisym(entries[i].segments, entries[i].segments);
                },
                Some(b0) => {
                    if spec_seg_cmp(entries[i].segments, entries[b0].segments) >= 0 {
                        assert forall|j: int|
                            0 <= j < n && spec_match_comps(
                                #[trigger] entries[j].segments,
                                comps,
                            ) is Some implies spec_seg_cmp(
                            entries[i].segments,
                            entries[j].segments,
                        ) >= 0 by {
                            if j == i {
                                lemma_cmp_antisym(entries[i].segments, entries[i].segments);
                            } else {
                                lemma_cmp_trans_matching(
                                    entries[i].segments,
                                    entries[b0].segments,
                                    entries[j].segments,
                                    comps,
                                );
                            }
                        }
                    } else {
                        lemma_cmp_antisym(entries[i].segments, entries[b0].segments);
                    }
                },
            }
        }
    }
}

/// Dispatch never settles for a less specific route: whenever a route is
/// chosen for a request path, it matches the path and is at least as
/// specific as every other route that matches it; and a request falls
/// through to not-found only when no route matches at all.
pub proof fn lemma_best_route_is_most_specific(entries: Seq<RouteEntryView>, comps: Seq<Seq<u8>>)
    ensures
        spec_best_route(entries, comps) matches Some(b) ==> 0 <= b < entries.len()
            && spec_match_comps(entries[b].segments, comps) is Some && forall|j: int|
            0 <= j < entries.len() && spec_match_comps(
                #[trigger] entries[j].segments,
                comps,
            ) is Some ==> spec_seg_cmp(entries[b].segments, entries[j].segments) >= 0,
        spec_best_route(entries, comps) is None ==> forall|j: int|
            0 <= j < entries.len() ==> spec_match_comps(
                #[trigger] entries[j].segments,
                comps,
            ) is None,
{
    lemma_best_upto_props(entries, comps, entries.len() as int);
    lemma_best_upto_max(entries, comps, entries.len() as int);
}

/// Decode the captured values of matched parameters; the error names the
/// first capture whose value is not valid percent-encoding.
pub open spec fn spec_decode_params(ps: Seq<ParamView>) -> Result<Seq<ParamView>, Seq<u8>>
    decreases ps.len(),
{
    if ps.len() == 0 {
        Ok(Seq::empty())
    } else {
        match crate::encode::spec_decode(ps[0].value) {
            None => Err(ps[0].name),
            Some(v) => match spec_decode_params(ps.drop_first()) {
                Err(n) => Err(n),
                Ok(rest) => Ok(seq![ParamView { name: ps[0].name, value: v }] + rest),
            },
        }
    }
}

/// How the router answers one request.
pub enum Outcome {
    /// No registered template matches the path.
    NotFound,
    /// A template matches, but its route does not wire this method; the
    /// host framework's method-not-allowed behaviour applies.
    MethodNotAllowed,
    /// Invoke this handler with these decoded path parameters.
    Invoke { handler: Vec<u8>, params: Vec<PathParam> },
    /// Extraction failed; the host error wrapped into the route's
    /// effective rejection must become the response.
    Rejected(RejectionValue),
}

/// Mathematical form of `Outcome`.
pub enum OutcomeView {
    NotFound,
    MethodNotAllowed,
    Invoke { handler: Seq<u8>, params: Seq<ParamView> },
    Rejected(RejectionValueView),
}

impl View for Outcome {
    type V = OutcomeView;

    open spec fn view(&self) -> OutcomeView {
        match self {
            Outcome::NotFound => OutcomeView::NotFound,
            Outcome::MethodNotAllowed => OutcomeView::MethodNotAllowed,
            Outcome::Invoke { handler, params } => OutcomeView::Invoke {
                handler: handler@,
                params: params.deep_view(),
            },
            Outcome::Rejected(rv) => OutcomeView::Rejected(rv@),
        }
    }
}

/// How a router answers a request: match the path against every template,
/// take the most specific match, consult its wired method table, and
/// extract the captures, converting an extraction failure into the route's
/// effective rejection.
pub open spec fn spec_dispatch(r: RouterView, m: Method, path: Seq<u8>) -> OutcomeView {
    let comps = spec_split(path, 47);
    match spec_best_route(r.entries, comps) {
        None => OutcomeView::NotFound,
        Some(i) => {
            let e = r.entries[i];
            match table_slot(e.handlers, m) {
                None => OutcomeView::MethodNotAllowed,
                Some(h) => match spec_match_comps(e.segments, comps) {
                    None => OutcomeView::NotFound,
                    Some(ps) => match spec_decode_params(ps) {
                        Ok(qs) => OutcomeView::Invoke { handler: h, params: qs },
                        Err(name) => OutcomeView::Rejected(
                            RejectionValueView { rejection: e.rejection, param: name },
                        ),
                    },
                },
            }
        },
    }
}

/// A trailing wildcard on the root captures the entire remainder of the
/// request path, embedded `/` included: matching any path `/x...` against
/// the template of `"/*name"` binds `name` to everything after the leading
/// slash.
pub proof fn lemma_wildcard_captures_remainder(name: Seq<u8>, path: Seq<u8>)
    requires
        path.len() >= 1,
        path[0] == 47,
    ensures
        spec_match_comps(
            seq![
                SegView::Static(Seq::<u8>::empty()),
                SegView::Capture { name, greedy: true },
            ],
            spec_split(path, 47),
        ) == Some(seq![ParamView { name, value: path.subrange(1, path.len() as int) }]),
{
    let segs = seq![
        SegView::Static(Seq::<u8>::empty()),
        SegView::Capture { name, greedy: true },
    ];
    let comps = spec_split(path, 47);
    crate::path::lemma_first_sep_char(path, 47, 0);
    let tail = path.subrange(1, path.len() as int);
    assert(comps == seq![path.subrange(0, 0)] + spec_split(tail, 47));
    crate::path::lemma_split_parts(tail, 47);
    assert(comps.len() >= 2);
    assert(comps[0] =~= Seq::<u8>::empty());
    assert(comps[0] == segs[0]->Static_0);
    let rest_segs = segs.drop_first();
    let rest_comps = comps.drop_first();
    assert(rest_comps =~= spec_split(tail, 47));
    assert(rest_segs.len() == 1 && rest_comps.len() >= 1);
    assert(rest_segs[0] == (SegView::Capture { name, greedy: true }));
    crate::path::lemma_join_split(tail, 47);
    assert(spec_join(rest_comps, 47) == tail);
    assert(spec_match_comps(rest_segs, rest_comps) == Some(
        seq![ParamView { name, value: tail }],
    ));
}

/// Every segment is static text.
pub open spec fn all_static(segs: Seq<SegView>) -> bool {
    forall|k: int| 0 <= k < segs.len() ==> segs[k] is Static
}

/// A matching template never has more segments than the path has
/// components.
pub proof fn lemma_match_len(segs: Seq<SegView>, comps: Seq<Seq<u8>>)
    requires
        spec_match_comps(segs, comps) is Some,
    ensures
        segs.len() <= comps.len(),
    decreases segs.len(),
{
    if segs.len() > 0 {
        match segs[0] {
            SegView::Static(t) => {
                lemma_match_len(segs.drop_first(), comps.drop_first());
            },
            SegView::Capture { name, greedy } => {
                if !greedy {
                    lemma_match_len(segs.drop_first(), comps.drop_first());
                }
            },
        }
    }
}

/// An all-static template matches only a path with exactly one component
/// per segment.
pub proof fn lemma_all_static_match_len(segs: Seq<SegView>, comps: Seq<Seq<u8>>)
    requires
        all_static(segs),
        spec_match_comps(segs, comps) is Some,
    ensures
        segs.len() == comps.len(),
    decreases segs.len(),
{
    if segs.len() > 0 {
        assert(segs[0] is Static);
        assert(all_static(segs.drop_first())) by {
            assert(forall|k: int|
                0 <= k < segs.drop_first().len() ==> segs.drop_first()[k] == segs[k + 1]);
        }
        lemma_all_static_match_len(segs.drop_first(), comps.drop_first());
    }
}

/// When two templates agree in segment kind up to position `k` and differ
/// there, the one whose segment at `k` ranks higher wins the comparison.
proof fn lemma_cmp_at(a: Seq<SegView>, b: Seq<SegView>, k: int)
    requires
        0 <= k < a.len(),
        k < b.len(),
        forall|l: int| 0 <= l < k ==> seg_rank(a[l]) == seg_rank(b[l]),
        seg_rank(a[k]) > seg_rank(b[k]),
    ensures
        spec_seg_cmp(a, b) == 1,
        spec_seg_cmp(b, a) == -1,
    decreases k,
{
    if k == 0 {
    } else {
        assert(seg_rank(a[0]) == seg_rank(b[0]));
        assert(forall|l: int|
            0 <= l < k - 1 ==> seg_rank(a.drop_first()[l]) == seg_rank(b.drop_first()[l])
                && a.drop_first()[l] == a[l + 1] && b.drop_first()[l] == b[l + 1]);
        assert(a.drop_first()[k - 1] == a[k] && b.drop_first()[k - 1] == b[k]);
        lemma_cmp_at(a.drop_first(), b.drop_first(), k - 1);
    }
}

/// Some segment of the template is a capture.
pub open spec fn has_capture(segs: Seq<SegView>) -> bool {
    exists|k: int| 0 <= k < segs.len() && !((#[trigger] segs[k]) is Static)
}

/// Find the first non-static segment of a template that has one.
proof fn first_capture_index(segs: Seq<SegView>) -> (k: int)
    requires
        has_capture(segs),
    ensures
        0 <= k < segs.len(),
        !(segs[k] is Static),
        forall|l: int| 0 <= l < k ==> segs[l] is Static,
    decreases segs.len(),
{
    if !(segs[0] is Static) {
        0
    } else {
        let l0 = choose|l: int| 0 <= l < segs.len() && !((#[trigger] segs[l]) is Static);
        assert(l0 >= 1);
        assert(segs.drop_first()[l0 - 1] == segs[l0]);
        assert(!(segs.drop_first()[l0 - 1] is Static));
        assert(has_capture(segs.drop_first()));
        let k = first_capture_index(segs.drop_first());
        assert(segs.drop_first()[k] == segs[k + 1]);
        assert forall|l: int| 0 <= l < k + 1 implies segs[l] is Static by {
            if l > 0 {
                assert(segs.drop_first()[l - 1] is Static);
                assert(segs.drop_first()[l - 1] == segs[l]);
            }
        }
        k + 1
    }
}

/// Two routes may share a static prefix and then diverge, one into literal
/// text and the other into a capture. A request whose path the all-static
/// route matches exactly is dispatched to that route, never to the one
/// with the capture, whichever of the two was registered first.
pub proof fn lemma_literal_route_wins(
    entries: Seq<RouteEntryView>,
    comps: Seq<Seq<u8>>,
    i: int,
)
    requires
        entries.len() == 2,
        0 <= i < 2,
        all_static(entries[i].segments),
        spec_match_comps(entries[i].segments, comps) is Some,
        spec_match_comps(entries[1 - i].segments, comps) is Some,
        has_capture(entries[1 - i].segments),
    ensures
        spec_best_route(entries, comps) == Some(i),
{
    let a = entries[i].segments;
    let b = entries[1 - i].segments;
    let k0 = first_capture_index(b);
    lemma_all_static_match_len(a, comps);
    lemma_match_len(b, comps);
    assert(k0 < a.len());
    assert(seg_rank(a[k0]) == 2);
    assert(seg_rank(b[k0]) < 2);
    assert(forall|l: int| 0 <= l < k0 ==> seg_rank(a[l]) == 2 && seg_rank(b[l]) == 2);
    lemma_cmp_at(a, b, k0);
    assert(spec_best_upto(entries, comps, 0) is None);
    if i == 0 {
        assert(spec_best_upto(entries, comps, 1) == Some(0int));
        assert(spec_seg_cmp(entries[1].segments, entries[0].segments) == -1);
        assert(spec_best_upto(entries, comps, 2) == Some(0int));
    } else {
        assert(spec_best_upto(entries, comps, 1) == Some(0int));
        assert(spec_seg_cmp(entries[1].segments, entries[0].segments) == 1);
        assert(spec_best_upto(entries, comps, 2) == Some(1int));
    }
}

/// A route wired for exactly one method answers a matching request with
/// its handler for that method — or, should a capture fail to extract,
/// with its rejection — and answers the same path under any other method
/// with method-not-allowed, never with not-found.
pub proof fn lemma_single_method_route(
    r: RouterView,
    wired: Method,
    m: Method,
    path: Seq<u8>,
    ps: Seq<ParamView>,
)
    requires
        r.entries.len() == 1,
        table_slot(r.entries[0].handlers, wired) is Some,
        forall|m2: Method| m2 != wired ==> #[trigger] table_slot(r.entries[0].handlers, m2) is None,
        spec_match_comps(r.entries[0].segments, spec_split(path, 47)) == Some(ps),
    ensures
        m != wired ==> spec_dispatch(r, m, path) == OutcomeView::MethodNotAllowed,
        spec_decode_params(ps) matches Ok(qs) ==> spec_dispatch(r, wired, path)
            == (OutcomeView::Invoke {
            handler: table_slot(r.entries[0].handlers, wired).unwrap(),
            params: qs,
        }),
        spec_decode_params(ps) matches Err(n) ==> spec_dispatch(r, wired, path)
            == OutcomeView::Rejected(
            RejectionValueView { rejection: r.entries[0].rejection, param: n },
        ),
{
    let comps = spec_split(path, 47);
    assert(spec_best_upto(r.entries, comps, 0) is None);
    assert(spec_best_upto(r.entries, comps, 1) == Some(0int));
    if m != wired {
        assert(table_slot(r.entries[0].handlers, m) is None);
    }
}

proof fn lemma_assemble_rest_entries(
    routes: Seq<crate::ast::RouteClauseView>,
    global: Option<Seq<u8>>,
    hs: Seq<MethodHelperView>,
    es: Seq<RouteEntryView>,
)
    requires
        spec_assemble_rest(routes, global, hs) == Ok::<_, SemErrView>(es),
    ensures
        es.len() == routes.len(),
        forall|i: int|
            0 <= i < routes.len() ==> (#[trigger] es[i]).rejection == spec_resolve_rejection(
                routes[i].rejection,
                global,
            ) && es[i].path == routes[i].path && es[i].segments == routes[i].segments,
    decreases routes.len(),
{
    if routes.len() > 0 {
        match spec_route_entry(routes[0], global, hs) {
            Err(_) => {},
            Ok(e0) => {
                match spec_assemble_rest(routes.drop_first(), global, hs) {
                    Err(_) => {},
                    Ok(es1) => {
                        lemma_assemble_rest_entries(routes.drop_first(), global, hs, es1);
                        assert(es == seq![e0] + es1);
                        assert forall|i: int| 0 <= i < routes.len() implies (#[trigger] es[i])
                            .rejection == spec_resolve_rejection(routes[i].rejection, global)
                            && es[i].path == routes[i].path && es[i].segments
                            == routes[i].segments by {
                            if i > 0 {
                                assert(es[i] == es1[i - 1]);
                                assert(routes.drop_first()[i - 1] == routes[i]);
                            }
                        }
                    },
                }
            },
        }
    }
}

/// Rejection resolution across assembly: every assembled entry keeps its
/// route's path and segments and carries exactly the rejection the
/// resolution rule gives it — the route's own override if declared, else
/// the global rejection if declared, else the host default.
pub proof fn lemma_assembly_resolves_rejections(
    rt: RoutesView,
    hs: Seq<MethodHelperView>,
    router: RouterView,
)
    requires
        spec_assemble(rt, hs) == Ok::<_, SemErrView>(router),
    ensures
        router.entries.len() == rt.routes.len(),
        forall|i: int|
            0 <= i < rt.routes.len() ==> (#[trigger] router.entries[i]).rejection
                == spec_resolve_rejection(rt.routes[i].rejection, rt.rejection)
                && router.entries[i].path == rt.routes[i].path && router.entries[i].segments
                == rt.routes[i].segments,
{
    match spec_assemble_rest(rt.routes, rt.rejection, hs) {
        Err(_) => {},
        Ok(es) => {
            lemma_assemble_rest_entries(rt.routes, rt.rejection, hs, es);
        },
    }
}

/// Join the components from `from` on with `/`.
fn join_suffix(comps: &Vec<Vec<u8>>, from: usize) -> (r: Vec<u8>)
    requires
        from <= comps@.len(),
    ensures
        r@ == spec_join(comps.deep_view().subrange(from as int, comps.deep_view().len() as int), 47),
{
    let ghost cv = comps.deep_view();
    let mut tail: Vec<Vec<u8>> = Vec::new();
    let mut j = from;
    proof {
        assert(tail.deep_view() =~= cv.subrange(from as int, from as int));
    }
    while j < comps.len()
        invariant
            cv == comps.deep_view(),
            from <= j <= comps@.len(),
            cv.len() == comps@.len(),
            tail.deep_view() =~= cv.subrange(from as int, j as int),
        decreases comps@.len() - j,
    {
        let ghost tv_old = tail.deep_view();
        let c = crate::bytes::copy_bytes(&comps[j]);
        proof {
            assert(cv[j as int] == comps@[j as int].deep_view());
            assert(comps@[j as int].deep_view() =~= comps@[j as int]@);
            assert(c.deep_view() =~= cv[j as int]);
        }
        tail.push(c);
        proof {
            assert(tail.deep_view() =~= tv_old.push(cv[j as int]));
            assert(tail.deep_view() =~= cv.subrange(from as int, j + 1));
        }
        j = j + 1;
    }
    crate::render::join_bytes(&tail, 47)
}

/// Match one route's template against the split request path, extracting
/// the raw captures.
#[verifier::loop_isolation(false)]
fn match_entry(segs: &Vec<PathSegment>, comps: &Vec<Vec<u8>>) -> (r: Option<Vec<PathParam>>)
    ensures
        match r {
            Some(ps) => spec_match_comps(segs.deep_view(), comps.deep_view()) == Some(
                ps.deep_view(),
            ),
            None => spec_match_comps(segs.deep_view(), comps.deep_view()) is None,
        },
{
    let ghost sv = segs.deep_view();
    let ghost cv = comps.deep_view();
    let mut params: Vec<PathParam> = Vec::new();
    let mut i: usize = 0;
    proof {
        assert(sv.subrange(0, sv.len() as int) =~= sv);
        assert(cv.subrange(0, cv.len() as int) =~= cv);
        match spec_match_comps(sv, cv) {
            Some(ps) => {
                assert(Seq::<ParamView>::empty() + ps =~= ps);
            },
            None => {},
        }
    }
    while i < segs.len()
        invariant
            0 <= i <= segs@.len(),
            i <= comps@.len() || i == 0,
            i <= cv.len(),
            spec_match_comps(sv, cv) == match spec_match_comps(
                sv.subrange(i as int, sv.len() as int),
                cv.subrange(i as int, cv.len() as int),
            ) {
                Some(ps) => Some(params.deep_view() + ps),
                None => None::<Seq<ParamView>>,
            },
        decreases segs@.len() - i,
    {
        let ghost ssuf = sv.subrange(i as int, sv.len() as int);
        let ghost csuf = cv.subrange(i as int, cv.len() as int);
        let ghost params_old = params.deep_view();
        proof {
            assert(sv[i as int] == segs@[i as int]@);
            assert(ssuf[0] == sv[i as int]);
            assert(ssuf.drop_first() =~= sv.subrange(i + 1, sv.len() as int));
            if i < cv.len() {
                assert(cv[i as int] == comps@[i as int].deep_view());
                assert(comps@[i as int].deep_view() =~= comps@[i as int]@);
                assert(csuf[0] == cv[i as int]);
                assert(csuf.drop_first() =~= cv.subrange(i + 1, cv.len() as int));
            }
        }
        match &segs[i] {
            PathSegment::Static(t) => {
                if i < comps.len() && crate::bytes::bytes_eq(&comps[i], t) {
                    i = i + 1;
                } else {
                    return None;
                }
            },
            PathSegment::Capture { name, greedy } => {
                if *greedy {
                    if i + 1 == segs.len() && i < comps.len() {
                        let value = join_suffix(comps, i);
                        let p = PathParam { name: crate::bytes::copy_bytes(name), value };
                        proof {
                            assert(ssuf.len() == 1);
                            assert(spec_match_comps(ssuf, csuf) == Some(seq![p@]));
                        }
                        params.push(p);
                        proof {
                            assert(params.deep_view() =~= params_old + seq![
                                ParamView {
                                    name: name@,
                                    value: spec_join(csuf, 47),
                                },
                            ]);
                        }
                        return Some(params);
                    } else {
                        return None;
                    }
                } else {
                    if i < comps.len() {
                        let p = PathParam {
                            name: crate::bytes::copy_bytes(name),
                            value: crate::bytes::copy_bytes(&comps[i]),
                        };
                        proof {
                            let ghost pv = p@;
                            match spec_match_comps(
                                sv.subrange(i + 1, sv.len() as int),
                                cv.subrange(i + 1, cv.len() as int),
                            ) {
                                Some(ps) => {
                                    assert(params_old + (seq![pv] + ps) =~= params_old.push(pv)
                                        + ps);
                                },
                                None => {},
                            }
                        }
                        params.push(p);
                        proof {
                            assert(params.deep_view() =~= params_old.push(
                                ParamView { name: name@, value: cv[i as int] },
                            ));
                        }
                        i = i + 1;
                    } else {
                        return None;
                    }
                }
            },
        }
    }
    proof {
        assert(sv.subrange(sv.len() as int, sv.len() as int) =~= Seq::<SegView>::empty());
    }
    if i == comps.len() {
        proof {
            assert(cv.subrange(i as int, cv.len() as int) =~= Seq::<Seq<u8>>::empty());
            assert(params.deep_view() + Seq::<ParamView>::empty() =~= params.deep_view());
        }
        Some(params)
    } else {
        proof {
            assert(cv.subrange(i as int, cv.len() as int).len() > 0);
        }
        None
    }
}

/// Compare two templates by specificity.
#[verifier::loop_isolation(false)]
fn seg_cmp(a: &Vec<PathSegment>, b: &Vec<PathSegment>) -> (r: i8)
    ensures
        r as int == spec_seg_cmp(a.deep_view(), b.deep_view()),
{
    let ghost av = a.deep_view();
    let ghost bv = b.deep_view();
    let mut k: usize = 0;
    proof {
        assert(av.subrange(0, av.len() as int) =~= av);
        assert(bv.subrange(0, bv.len() as int) =~= bv);
    }
    while k < a.len() && k < b.len()
        invariant
            0 <= k <= a@.len(),
            0 <= k <= b@.len(),
            spec_seg_cmp(av, bv) == spec_seg_cmp(
                av.subrange(k as int, av.len() as int),
                bv.subrange(k as int, bv.len() as int),
            ),
        decreases a@.len() - k,
    {
        proof {
            assert(av[k as int] == a@[k as int]@);
            assert(bv[k as int] == b@[k as int]@);
            assert(av.subrange(k as int, av.len() as int)[0] == av[k as int]);
            assert(bv.subrange(k as int, bv.len() as int)[0] == bv[k as int]);
            assert(av.subrange(k as int, av.len() as int).drop_first() =~= av.subrange(
                k + 1,
                av.len() as int,
            ));
            assert(bv.subrange(k as int, bv.len() as int).drop_first() =~= bv.subrange(
                k + 1,
                bv.len() as int,
            ));
        }
        let ra: u8 = match &a[k] {
            PathSegment::Static(t) => 2,
            PathSegment::Capture { name, greedy } => if *greedy {
                0
            } else {
                1
            },
        };
        let rb: u8 = match &b[k] {
            PathSegment::Static(t) => 2,
            PathSegment::Capture { name, greedy } => if *greedy {
                0
            } else {
                1
            },
        };
        if ra > rb {
            return 1;
        }
        if ra < rb {
            return -1;
        }
        k = k + 1;
    }
    proof {
        assert(av.subrange(k as int, av.len() as int).len() == 0 || bv.subrange(
            k as int,
            bv.len() as int,
        ).len() == 0);
    }
    0
}

/// The best-matching route of the table, if any.
#[verifier::loop_isolation(false)]
fn best_route(entries: &Vec<RouteEntry>, comps: &Vec<Vec<u8>>) -> (r: Option<usize>)
    ensures
        match r {
            Some(i) => spec_best_route(entries.deep_view(), comps.deep_view()) == Some(i as int)
                && i < entries@.len(),
            None => spec_best_route(entries.deep_view(), comps.deep_view()) is None,
        },
{
    let ghost ev = entries.deep_view();
    let ghost cv = comps.deep_view();
    let mut best: Option<usize> = None;
    let mut i: usize = 0;
    while i < entries.len()
        invariant
            0 <= i <= entries@.len(),
            match best {
                Some(b) => spec_best_upto(ev, cv, i as int) == Some(b as int) && b < i,
                None => spec_best_upto(ev, cv, i as int) is None,
            },
        decreases entries@.len() - i,
    {
        proof {
            assert(ev[i as int] == entries@[i as int]@);
        }
        let matched = match match_entry(&entries[i].segments, comps) {
            Some(_) => true,
            None => false,
        };
        if matched {
            match best {
                None => {
                    best = Some(i);
                },
                Some(b) => {
                    proof {
                        assert(ev[b as int] == entries@[b as int]@);
                    }
                    let c = seg_cmp(&entries[i].segments, &entries[b].segments);
                    if c >= 0 {
                        best = Some(i);
                    }
                },
            }
        }
        i = i + 1;
    }
    best
}

/// Decode every captured value, or name the first capture whose value is
/// not valid percent-encoding.
#[verifier::loop_isolation(false)]
fn decode_params(ps: Vec<PathParam>) -> (r: Result<Vec<PathParam>, HostExtractError>)
    ensures
        match r {
            Ok(qs) => spec_decode_params(ps.deep_view()) == Ok::<_, Seq<u8>>(qs.deep_view()),
            Err(e) => spec_decode_params(ps.deep_view()) == Err::<Seq<ParamView>, _>(e.param@),
        },
{
    let ghost pv = ps.deep_view();
    let mut out: Vec<PathParam> = Vec::new();
    let mut i: usize = 0;
    proof {
        assert(pv.subrange(0, pv.len() as int) =~= pv);
        match spec_decode_params(pv) {
            Ok(qs) => {
                assert(Seq::<ParamView>::empty() + qs =~= qs);
            },
            Err(_) => {},
        }
    }
    while i < ps.len()
        invariant
            0 <= i <= ps@.len(),
            spec_decode_params(pv) == match spec_decode_params(
                pv.subrange(i as int, pv.len() as int),
            ) {
                Ok(qs) => Ok::<_, Seq<u8>>(out.deep_view() + qs),
                Err(n) => Err::<Seq<ParamView>, _>(n),
            },
        decreases ps@.len() - i,
    {
        let ghost suffix = pv.subrange(i as int, pv.len() as int);
        let ghost out_old = out.deep_view();
        proof {
            assert(pv[i as int] == ps@[i as int]@);
            assert(suffix[0] == pv[i as int]);
            assert(suffix.drop_first() =~= pv.subrange(i + 1, pv.len() as int));
        }
        match crate::encode::percent_decode(&ps[i].value) {
            None => {
                return Err(HostExtractError { param: crate::bytes::copy_bytes(&ps[i].name) });
            },
            Some(v) => {
                let q = PathParam { name: crate::bytes::copy_bytes(&ps[i].name), value: v };
                proof {
                    let ghost qv = q@;
                    match spec_decode_params(pv.subrange(i + 1, pv.len() as int)) {
                        Ok(qs) => {
                            assert(out_old + (seq![qv] + qs) =~= out_old.push(qv) + qs);
                        },
                        Err(_) => {},
                    }
                }
                out.push(q);
                proof {
                    assert(out.deep_view() =~= out_old.push(
                        ParamView {
                            name: pv[i as int].name,
                            value: crate::encode::spec_decode(pv[i as int].value).unwrap(),
                        },
                    ));
                }
            },
        }
        i = i + 1;
    }
    proof {
        assert(pv.subrange(pv.len() as int, pv.len() as int) =~= Seq::<ParamView>::empty());
        assert(out.deep_view() + Seq::<ParamView>::empty() =~= out.deep_view());
    }
    Ok(out)
}

impl Router {
    /// Answer one request: match the path, pick the most specific route,
    /// consult its wired methods, and extract the captures, converting an
    /// extraction failure into the route's effective rejection.
    pub fn dispatch(&self, m: Method, path: &Vec<u8>) -> (r: Outcome)
        ensures
            r@ == spec_dispatch(self@, m, path@),
    {
        let comps = crate::path::split_bytes(path, 47);
        proof {
            lemma_best_upto_props(
                self@.entries,
                comps.deep_view(),
                self@.entries.len() as int,
            );
        }
        match best_route(&self.entries, &comps) {
            None => Outcome::NotFound,
            Some(i) => {
                proof {
                    assert(self.entries.deep_view()[i as int] == self.entries@[i as int]@);
                }
                let e = &self.entries[i];
                match e.handlers.slot(m) {
                    None => Outcome::MethodNotAllowed,
                    Some(h) => {
                        let handler = crate::bytes::copy_bytes(h);
                        match match_entry(&e.segments, &comps) {
                            None => Outcome::NotFound,
                            Some(ps) => match decode_params(ps) {
                                Ok(qs) => Outcome::Invoke { handler, params: qs },
                                Err(err) => Outcome::Rejected(
                                    convert_rejection(&e.rejection, err),
                                ),
                            },
                        }
                    },
                }
            },
        }
    }
}

} // verus!
