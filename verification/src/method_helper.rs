//! The implicit binding form: a request model owns its handlers.
//!
//! A model's handler implementation is described as a list of functions,
//! each with its marker attributes, whether it can suspend, and whether its
//! first parameter binds the model instance by value. `MethodHelper::parse`
//! resolves that description into the model's wired method table, rejecting
//! any marked handler that cannot suspend or does not bind the model.
//! Unrecognised markers are ignored, so the marker set can grow later.

use vstd::prelude::*;

use crate::ast::{spec_method_of_ident, Method};
use crate::table::{
    empty_table, spec_declared_methods, table_set, FullTable, MethodTable, MethodTableView,
};
use crate::validate::{SemanticError, SemErrView};

verus! {

/// One function of a model's handler implementation block.
pub struct HandlerFn {
    /// The function's name: the handler reference dispatch will carry.
    pub name: Vec<u8>,
    /// Whether the function is suspend-capable. Dispatch always awaits a
    /// handler, so a handler that cannot suspend is rejected.
    pub is_async: bool,
    /// Whether the function's first parameter binds the model instance by
    /// value.
    pub binds_model: bool,
    /// The function's marker attributes, in order.
    pub markers: Vec<Vec<u8>>,
}

/// Mathematical form of `HandlerFn`.
pub struct HandlerFnView {
    pub name: Seq<u8>,
    pub is_async: bool,
    pub binds_model: bool,
    pub markers: Seq<Seq<u8>>,
}

impl View for HandlerFn {
    type V = HandlerFnView;

    open spec fn view(&self) -> HandlerFnView {
        HandlerFnView {
            name: self.name@,
            is_async: self.is_async,
            binds_model: self.binds_model,
            markers: self.markers.deep_view(),
        }
    }
}

impl DeepView for HandlerFn {
    type V = HandlerFnView;

    open spec fn deep_view(&self) -> HandlerFnView {
        self.view()
    }
}

/// A model's handler implementation block.
pub struct ModelImpl {
    /// The request-model type name.
    pub model: Vec<u8>,
    /// Its functions, in declaration order.
    pub fns: Vec<HandlerFn>,
}

/// Mathematical form of `ModelImpl`.
pub struct ModelImplView {
    pub model: Seq<u8>,
    pub fns: Seq<HandlerFnView>,
}

impl View for ModelImpl {
    type V = ModelImplView;

    open spec fn view(&self) -> ModelImplView {
        ModelImplView { model: self.model@, fns: self.fns.deep_view() }
    }
}

impl DeepView for ModelImpl {
    type V = ModelImplView;

    open spec fn deep_view(&self) -> ModelImplView {
        self.view()
    }
}

/// The first recognised method marker of a function, if any; unrecognised
/// markers are skipped.
pub open spec fn spec_first_marker(markers: Seq<Seq<u8>>) -> Option<Method>
    decreases markers.len(),
{
    if markers.len() == 0 {
        None
    } else {
        match spec_method_of_ident(markers[0]) {
            Some(m) => Some(m),
            None => spec_first_marker(markers.drop_first()),
        }
    }
}

/// Resolve the remaining functions into the table built so far. A later
/// function marked with an already-wired method replaces the earlier one.
pub open spec fn spec_helper_rest(
    model: Seq<u8>,
    fns: Seq<HandlerFnView>,
    t: MethodTableView,
) -> Result<MethodTableView, SemErrView>
    decreases fns.len(),
{
    if fns.len() == 0 {
        Ok(t)
    } else {
        let f = fns[0];
        match spec_first_marker(f.markers) {
            None => spec_helper_rest(model, fns.drop_first(), t),
            Some(m) => {
                if !f.is_async {
                    Err(SemErrView::HandlerNotAsync { model, name: f.name })
                } else if !f.binds_model {
                    Err(SemErrView::HandlerDoesNotBindModel { model, name: f.name })
                } else {
                    spec_helper_rest(model, fns.drop_first(), table_set(t, m, f.name))
                }
            },
        }
    }
}

/// The wired method table of a model's implementation block, or why one of
/// its marked handlers is rejected.
pub open spec fn spec_helper_parse(mi: ModelImplView) -> Result<MethodTableView, SemErrView> {
    spec_helper_rest(mi.model, mi.fns, empty_table())
}

/// A model's resolved handler set: the model name and the methods its
/// implementation block declares, each wired to that function.
pub struct MethodHelper {
    pub model: Vec<u8>,
    pub handlers: MethodTable,
}

/// Mathematical form of `MethodHelper`.
pub struct MethodHelperView {
    pub model: Seq<u8>,
    pub handlers: MethodTableView,
}

impl View for MethodHelper {
    type V = MethodHelperView;

    open spec fn view(&self) -> MethodHelperView {
        MethodHelperView { model: self.model@, handlers: self.handlers@ }
    }
}

impl DeepView for MethodHelper {
    type V = MethodHelperView;

    open spec fn deep_view(&self) -> MethodHelperView {
        self.view()
    }
}

/// The first recognised marker of a function, if any.
fn first_marker(markers: &Vec<Vec<u8>>) -> (r: Option<Method>)
    ensures
        r == spec_first_marker(markers.deep_view()),
{
    let ghost mv = markers.deep_view();
    let mut i: usize = 0;
    proof {
        assert(mv.subrange(0, mv.len() as int) =~= mv);
    }
    while i < markers.len()
        invariant
            mv == markers.deep_view(),
            0 <= i <= markers@.len(),
            mv.len() == markers@.len(),
            spec_first_marker(mv) == spec_first_marker(mv.subrange(i as int, mv.len() as int)),
        decreases markers@.len() - i,
    {
        let ghost suffix = mv.subrange(i as int, mv.len() as int);
        proof {
            assert(mv[i as int] == markers@[i as int].deep_view());
            assert(markers@[i as int].deep_view() =~= markers@[i as int]@);
            assert(suffix[0] == mv[i as int]);
            assert(suffix.drop_first() =~= mv.subrange(i + 1, mv.len() as int));
        }
        match crate::ast::method_of_ident(&markers[i]) {
            Some(m) => {
                return Some(m);
            },
            None => {},
        }
        i = i + 1;
    }
    proof {
        assert(mv.subrange(mv.len() as int, mv.len() as int) =~= Seq::<Seq<u8>>::empty());
    }
    None
}

impl MethodHelper {
    /// Resolve a model's implementation block into its handler set.
    ///
    /// Fails exactly when some function carrying a recognised marker is not
    /// suspend-capable, or does not bind the model as its first parameter;
    /// the error names the model and the function.
    #[verifier::loop_isolation(false)]
    pub fn parse(input: &ModelImpl) -> (r: Result<MethodHelper, SemanticError>)
        ensures
            match r {
                Ok(h) => spec_helper_parse(input@) == Ok::<_, SemErrView>(h@.handlers) && h@.model
                    == input@.model,
                Err(e) => spec_helper_parse(input@) == Err::<MethodTableView, _>(e@),
            },
    {
        let ghost fv = input.fns.deep_view();
        let mut t = MethodTable::new();
        let mut i: usize = 0;
        proof {
            assert(fv.subrange(0, fv.len() as int) =~= fv);
        }
        while i < input.fns.len()
            invariant
                0 <= i <= input.fns@.len(),
                spec_helper_rest(input@.model, fv, empty_table()) == spec_helper_rest(
                    input@.model,
                    fv.subrange(i as int, fv.len() as int),
                    t@,
                ),
            decreases input.fns@.len() - i,
        {
            let ghost suffix = fv.subrange(i as int, fv.len() as int);
            proof {
                assert(fv[i as int] == input.fns@[i as int]@);
                assert(suffix[0] == fv[i as int]);
                assert(suffix.drop_first() =~= fv.subrange(i + 1, fv.len() as int));
            }
            let f = &input.fns[i];
            match first_marker(&f.markers) {
                None => {},
                Some(m) => {
                    if !f.is_async {
                        return Err(
                            SemanticError::HandlerNotAsync {
                                model: crate::bytes::copy_bytes(&input.model),
                                name: crate::bytes::copy_bytes(&f.name),
                            },
                        );
                    }
                    if !f.binds_model {
                        return Err(
                            SemanticError::HandlerDoesNotBindModel {
                                model: crate::bytes::copy_bytes(&input.model),
                                name: crate::bytes::copy_bytes(&f.name),
                            },
                        );
                    }
                    t.set(m, crate::bytes::copy_bytes(&f.name));
                },
            }
            i = i + 1;
        }
        proof {
            assert(fv.subrange(fv.len() as int, fv.len() as int) =~= Seq::<HandlerFnView>::empty());
        }
        Ok(MethodHelper { model: crate::bytes::copy_bytes(&input.model), handlers: t })
    }

    /// The methods this model declares, in canonical order: what the host
    /// framework wires for its routes.
    pub fn methods(&self) -> (r: Vec<Method>)
        ensures
            r@ == spec_declared_methods(self@.handlers),
    {
        crate::table::declared_methods(&self.handlers)
    }

    /// The uniform five-method surface of this model: declared methods keep
    /// their handler, the rest get a synthesized no-op entry. Only the
    /// declared table is ever wired into dispatch.
    pub fn surface(&self) -> (r: FullTable)
        ensures
            r@ == crate::table::spec_surface(self@.handlers),
    {
        crate::table::surface(&self.handlers)
    }
}

/// A marked handler that cannot suspend is rejected, wherever it stands in
/// the implementation block.
pub proof fn lemma_handler_not_async_rejected(mi: ModelImplView, i: int)
    requires
        0 <= i < mi.fns.len(),
        spec_first_marker(mi.fns[i].markers) is Some,
        !mi.fns[i].is_async,
    ensures
        spec_helper_parse(mi) is Err,
{
    lemma_bad_fn_rejected(mi.model, mi.fns, empty_table(), i);
}

/// A marked handler whose first parameter does not bind the model is
/// rejected, wherever it stands in the implementation block.
pub proof fn lemma_handler_not_binding_rejected(mi: ModelImplView, i: int)
    requires
        0 <= i < mi.fns.len(),
        spec_first_marker(mi.fns[i].markers) is Some,
        !mi.fns[i].binds_model,
    ensures
        spec_helper_parse(mi) is Err,
{
    lemma_bad_fn_rejected(mi.model, mi.fns, empty_table(), i);
}

proof fn lemma_bad_fn_rejected(
    model: Seq<u8>,
    fns: Seq<HandlerFnView>,
    t: MethodTableView,
    i: int,
)
    requires
        0 <= i < fns.len(),
        spec_first_marker(fns[i].markers) is Some,
        !fns[i].is_async || !fns[i].binds_model,
    ensures
        spec_helper_rest(model, fns, t) is Err,
    decreases fns.len(),
{
    if i > 0 {
        let f = fns[0];
        match spec_first_marker(f.markers) {
            None => {
                lemma_bad_fn_rejected(model, fns.drop_first(), t, i - 1);
            },
            Some(m) => {
                if f.is_async && f.binds_model {
                    lemma_bad_fn_rejected(
                        model,
                        fns.drop_first(),
                        table_set(t, m, f.name),
                        i - 1,
                    );
                }
            },
        }
    }
}

} // verus!
