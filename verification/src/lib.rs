//! A declarative route-specification compiler.
//!
//! The crate turns a textual description of HTTP routes — path templates,
//! per-route request-model names, optional shared state and rejection types,
//! and per-method handler bindings — into a validated routing table and a
//! dispatch structure that matches request paths, extracts captures, and
//! resolves rejection types. Network I/O, response rendering and handler
//! bodies belong to the host serving framework and are out of scope.

pub mod ast;
pub mod bytes;
pub mod encode;
pub mod lexer;
pub mod method_helper;
pub mod parser;
pub mod path;
pub mod render;
pub mod router;
pub mod table;
pub mod validate;

use vstd::prelude::*;

verus! {

/// Any build-time failure: the declaration text is malformed, or it breaks
/// a semantic rule. Both carry the source location of the fault.
pub enum CompileError {
    Syntax(crate::lexer::ParseError),
    Semantic(crate::validate::SemanticError),
}

/// Mathematical form of `CompileError`.
pub enum CompileErrView {
    Syntax(crate::lexer::ErrView),
    Semantic(crate::validate::SemErrView),
}

impl View for CompileError {
    type V = CompileErrView;

    open spec fn view(&self) -> CompileErrView {
        match self {
            CompileError::Syntax(e) => CompileErrView::Syntax(e@),
            CompileError::Semantic(e) => CompileErrView::Semantic(e@),
        }
    }
}

/// Resolve each model's handler implementation block, in order, stopping
/// at the first rejected handler.
pub open spec fn spec_resolve_helpers(
    impls: Seq<crate::method_helper::ModelImplView>,
) -> Result<Seq<crate::method_helper::MethodHelperView>, crate::validate::SemErrView>
    decreases impls.len(),
{
    if impls.len() == 0 {
        Ok(Seq::empty())
    } else {
        match crate::method_helper::spec_helper_parse(impls[0]) {
            Err(e) => Err(e),
            Ok(t) => match spec_resolve_helpers(impls.drop_first()) {
                Err(e) => Err(e),
                Ok(hs) => Ok(
                    seq![
                        crate::method_helper::MethodHelperView {
                            model: impls[0].model,
                            handlers: t,
                        },
                    ] + hs,
                ),
            },
        }
    }
}

/// The whole build as one function: parse and validate the declaration,
/// resolve every model's handlers, and assemble the composed router.
pub open spec fn spec_routes(
    src: Seq<u8>,
    impls: Seq<crate::method_helper::ModelImplView>,
) -> Result<crate::router::RouterView, CompileErrView> {
    match crate::validate::spec_routes_parse(src) {
        Err(e) => Err(e),
        Ok(rt) => match spec_resolve_helpers(impls) {
            Err(e) => Err(CompileErrView::Semantic(e)),
            Ok(hs) => match crate::router::spec_assemble(rt, hs) {
                Err(e) => Err(CompileErrView::Semantic(e)),
                Ok(r) => Ok(r),
            },
        },
    }
}

/// Build the composed router from a route declaration and the models'
/// handler implementation blocks.
///
/// The build is atomic: it either returns a complete router or the first
/// fault in source order — a syntax error, a broken semantic rule, a
/// rejected handler, or a route with nothing to wire — and every fault
/// carries the location or names that point at the offending declaration.
#[verifier::loop_isolation(false)]
pub fn routes(src: &Vec<u8>, impls: &Vec<crate::method_helper::ModelImpl>) -> (r: Result<
    crate::router::Router,
    CompileError,
>)
    ensures
        match r {
            Ok(router) => spec_routes(src@, impls.deep_view()) == Ok::<_, CompileErrView>(
                router@,
            ),
            Err(e) => spec_routes(src@, impls.deep_view()) == Err::<
                crate::router::RouterView,
                _,
            >(e@),
        },
{
    let table = match crate::validate::Routes::parse(src) {
        Ok(rt) => rt,
        Err(e) => {
            return Err(e);
        },
    };
    let ghost iv = impls.deep_view();
    let mut helpers: Vec<crate::method_helper::MethodHelper> = Vec::new();
    let mut i: usize = 0;
    proof {
        assert(iv.subrange(0, iv.len() as int) =~= iv);
        assert(helpers.deep_view() =~= Seq::<crate::method_helper::MethodHelperView>::empty());
        match spec_resolve_helpers(iv) {
            Ok(hs) => {
                assert(Seq::<crate::method_helper::MethodHelperView>::empty() + hs =~= hs);
            },
            Err(_) => {},
        }
    }
    while i < impls.len()
        invariant
            0 <= i <= impls@.len(),
            spec_resolve_helpers(iv) == match spec_resolve_helpers(
                iv.subrange(i as int, iv.len() as int),
            ) {
                Ok(hs) => Ok::<_, crate::validate::SemErrView>(helpers.deep_view() + hs),
                Err(e) => Err::<Seq<crate::method_helper::MethodHelperView>, _>(e),
            },
        decreases impls@.len() - i,
    {
        let ghost suffix = iv.subrange(i as int, iv.len() as int);
        let ghost hs_old = helpers.deep_view();
        proof {
            assert(iv[i as int] == impls@[i as int]@);
            assert(suffix[0] == iv[i as int]);
            assert(suffix.drop_first() =~= iv.subrange(i + 1, iv.len() as int));
        }
        match crate::method_helper::MethodHelper::parse(&impls[i]) {
            Err(e) => {
                return Err(CompileError::Semantic(e));
            },
            Ok(h) => {
                let ghost hv = h@;
                helpers.push(h);
                proof {
                    assert(helpers.deep_view() =~= hs_old.push(hv));
                    match spec_resolve_helpers(iv.subrange(i + 1, iv.len() as int)) {
                        Ok(hs) => {
                            assert(hs_old + (seq![hv] + hs) =~= hs_old.push(hv) + hs);
                        },
                        Err(_) => {},
                    }
                }
            },
        }
        i = i + 1;
    }
    proof {
        assert(iv.subrange(iv.len() as int, iv.len() as int) =~= Seq::<
            crate::method_helper::ModelImplView,
        >::empty());
        assert(helpers.deep_view() + Seq::<crate::method_helper::MethodHelperView>::empty()
            =~= helpers.deep_view());
    }
    match table.assemble(&helpers) {
        Ok(router) => Ok(router),
        Err(e) => Err(CompileError::Semantic(e)),
    }
}

} // verus!
