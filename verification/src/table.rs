//! The per-route method table.
//!
//! A route's dispatch surface is a fixed five-slot table, one slot per
//! recognised HTTP method. Only the methods a route declares are wired; the
//! uniform five-slot surface with synthesized no-op entries exists solely so
//! a model exposes all five operations, and is tracked separately from the
//! wired table so an undeclared method can never be reached.

use vstd::prelude::*;

use crate::ast::{Binding, BindingView, Method};

verus! {

/// The wired handlers of one route: one optional handler name per method.
pub struct MethodTable {
    pub get: Option<Vec<u8>>,
    pub post: Option<Vec<u8>>,
    pub put: Option<Vec<u8>>,
    pub patch: Option<Vec<u8>>,
    pub delete: Option<Vec<u8>>,
}

/// Mathematical form of `MethodTable`.
pub struct MethodTableView {
    pub get: Option<Seq<u8>>,
    pub post: Option<Seq<u8>>,
    pub put: Option<Seq<u8>>,
    pub patch: Option<Seq<u8>>,
    pub delete: Option<Seq<u8>>,
}

impl View for MethodTable {
    type V = MethodTableView;

    open spec fn view(&self) -> MethodTableView {
        MethodTableView {
            get: crate::parser::opt_bytes_view(self.get),
            post: crate::parser::opt_bytes_view(self.post),
            put: crate::parser::opt_bytes_view(self.put),
            patch: crate::parser::opt_bytes_view(self.patch),
            delete: crate::parser::opt_bytes_view(self.delete),
        }
    }
}

impl DeepView for MethodTable {
    type V = MethodTableView;

    open spec fn deep_view(&self) -> MethodTableView {
        self.view()
    }
}

/// The slot of one method.
pub open spec fn table_slot(t: MethodTableView, m: Method) -> Option<Seq<u8>> {
    match m {
        Method::Get => t.get,
        Method::Post => t.post,
        Method::Put => t.put,
        Method::Patch => t.patch,
        Method::Delete => t.delete,
    }
}

/// The table with every slot empty.
pub open spec fn empty_table() -> MethodTableView {
    MethodTableView { get: None, post: None, put: None, patch: None, delete: None }
}

/// The table with one slot replaced.
pub open spec fn table_set(t: MethodTableView, m: Method, h: Seq<u8>) -> MethodTableView {
    match m {
        Method::Get => MethodTableView { get: Some(h), ..t },
        Method::Post => MethodTableView { post: Some(h), ..t },
        Method::Put => MethodTableView { put: Some(h), ..t },
        Method::Patch => MethodTableView { patch: Some(h), ..t },
        Method::Delete => MethodTableView { delete: Some(h), ..t },
    }
}

/// The table the bindings of an inline handler block wire up, in order;
/// only methods that occur are wired.
pub open spec fn spec_table_from_bindings(bs: Seq<BindingView>) -> MethodTableView
    decreases bs.len(),
{
    if bs.len() == 0 {
        empty_table()
    } else {
        table_set(
            spec_table_from_bindings(bs.drop_last()),
            bs.last().method,
            bs.last().handler,
        )
    }
}

impl MethodTable {
    /// A table with every slot empty.
    pub fn new() -> (r: MethodTable)
        ensures
            r@ == empty_table(),
    {
        MethodTable { get: None, post: None, put: None, patch: None, delete: None }
    }

    /// Replace one slot.
    pub fn set(&mut self, m: Method, h: Vec<u8>)
        ensures
            final(self)@ == table_set(old(self)@, m, h@),
    {
        match m {
            Method::Get => {
                self.get = Some(h);
            },
            Method::Post => {
                self.post = Some(h);
            },
            Method::Put => {
                self.put = Some(h);
            },
            Method::Patch => {
                self.patch = Some(h);
            },
            Method::Delete => {
                self.delete = Some(h);
            },
        }
    }

    /// The handler wired for a method, if any.
    pub fn slot(&self, m: Method) -> (r: Option<&Vec<u8>>)
        ensures
            match r {
                Some(h) => table_slot(self@, m) == Some(h@),
                None => table_slot(self@, m) is None,
            },
    {
        match m {
            Method::Get => self.get.as_ref(),
            Method::Post => self.post.as_ref(),
            Method::Put => self.put.as_ref(),
            Method::Patch => self.patch.as_ref(),
            Method::Delete => self.delete.as_ref(),
        }
    }

    /// A fresh table with the same slots.
    pub fn duplicate(&self) -> (r: MethodTable)
        ensures
            r@ == self@,
    {
        MethodTable {
            get: match &self.get {
                Some(h) => Some(crate::bytes::copy_bytes(h)),
                None => None,
            },
            post: match &self.post {
                Some(h) => Some(crate::bytes::copy_bytes(h)),
                None => None,
            },
            put: match &self.put {
                Some(h) => Some(crate::bytes::copy_bytes(h)),
                None => None,
            },
            patch: match &self.patch {
                Some(h) => Some(crate::bytes::copy_bytes(h)),
                None => None,
            },
            delete: match &self.delete {
                Some(h) => Some(crate::bytes::copy_bytes(h)),
                None => None,
            },
        }
    }

    /// True when no method is wired.
    pub fn is_unwired(&self) -> (r: bool)
        ensures
            r == table_is_empty(self@),
    {
        self.get.is_none() && self.post.is_none() && self.put.is_none() && self.patch.is_none()
            && self.delete.is_none()
    }
}

/// No method is wired.
pub open spec fn table_is_empty(t: MethodTableView) -> bool {
    t.get is None && t.post is None && t.put is None && t.patch is None && t.delete is None
}

/// Build the wired method table of an inline handler block.
pub fn table_from_bindings(bs: &Vec<Binding>) -> (r: MethodTable)
    ensures
        r@ == spec_table_from_bindings(bs.deep_view()),
{
    let ghost bsv = bs.deep_view();
    let mut t = MethodTable::new();
    let mut i: usize = 0;
    proof {
        assert(bsv.subrange(0, 0) =~= Seq::<BindingView>::empty());
    }
    while i < bs.len()
        invariant
            bsv == bs.deep_view(),
            0 <= i <= bs@.len(),
            bsv.len() == bs@.len(),
            t@ == spec_table_from_bindings(bsv.subrange(0, i as int)),
        decreases bs@.len() - i,
    {
        proof {
            assert(bsv[i as int] == bs@[i as int]@);
        }
        let h = crate::bytes::copy_bytes(&bs[i].handler);
        t.set(bs[i].method, h);
        proof {
            assert(bsv.subrange(0, i + 1).drop_last() =~= bsv.subrange(0, i as int));
            assert(bsv.subrange(0, i + 1).last() == bsv[i as int]);
        }
        i = i + 1;
    }
    proof {
        assert(bsv.subrange(0, bsv.len() as int) =~= bsv);
    }
    t
}

/// The declared methods of a table, in canonical order: the route's live
/// method list, as the host framework sees it.
pub open spec fn spec_declared_methods(t: MethodTableView) -> Seq<Method> {
    (if t.get is Some {
        seq![Method::Get]
    } else {
        Seq::empty()
    }) + (if t.post is Some {
        seq![Method::Post]
    } else {
        Seq::empty()
    }) + (if t.put is Some {
        seq![Method::Put]
    } else {
        Seq::empty()
    }) + (if t.patch is Some {
        seq![Method::Patch]
    } else {
        Seq::empty()
    }) + (if t.delete is Some {
        seq![Method::Delete]
    } else {
        Seq::empty()
    })
}

/// List the declared methods of a table in canonical order.
pub fn declared_methods(t: &MethodTable) -> (r: Vec<Method>)
    ensures
        r@ == spec_declared_methods(t@),
{
    let mut out: Vec<Method> = Vec::new();
    if t.get.is_some() {
        out.push(Method::Get);
    }
    if t.post.is_some() {
        out.push(Method::Post);
    }
    if t.put.is_some() {
        out.push(Method::Put);
    }
    if t.patch.is_some() {
        out.push(Method::Patch);
    }
    if t.delete.is_some() {
        out.push(Method::Delete);
    }
    proof {
        assert(out@ =~= spec_declared_methods(t@));
    }
    out
}

/// One slot of the uniform five-method surface.
pub enum HandlerSlot {
    /// A handler the model declares.
    Declared(Vec<u8>),
    /// A synthesized no-op, present only for surface uniformity; never
    /// wired into dispatch.
    Synthesized,
}

/// Mathematical form of `HandlerSlot`.
pub enum HandlerSlotView {
    Declared(Seq<u8>),
    Synthesized,
}

impl View for HandlerSlot {
    type V = HandlerSlotView;

    open spec fn view(&self) -> HandlerSlotView {
        match self {
            HandlerSlot::Declared(h) => HandlerSlotView::Declared(h@),
            HandlerSlot::Synthesized => HandlerSlotView::Synthesized,
        }
    }
}

/// The uniform five-method surface of a model: every method has an entry,
/// synthesized where the model declares none.
pub struct FullTable {
    pub get: HandlerSlot,
    pub post: HandlerSlot,
    pub put: HandlerSlot,
    pub patch: HandlerSlot,
    pub delete: HandlerSlot,
}

/// Mathematical form of `FullTable`.
pub struct FullTableView {
    pub get: HandlerSlotView,
    pub post: HandlerSlotView,
    pub put: HandlerSlotView,
    pub patch: HandlerSlotView,
    pub delete: HandlerSlotView,
}

impl View for FullTable {
    type V = FullTableView;

    open spec fn view(&self) -> FullTableView {
        FullTableView {
            get: self.get@,
            post: self.post@,
            put: self.put@,
            patch: self.patch@,
            delete: self.delete@,
        }
    }
}

/// One slot of the surface.
pub open spec fn surface_slot(t: FullTableView, m: Method) -> HandlerSlotView {
    match m {
        Method::Get => t.get,
        Method::Post => t.post,
        Method::Put => t.put,
        Method::Patch => t.patch,
        Method::Delete => t.delete,
    }
}

/// The surface a wired table presents: declared methods keep their handler,
/// all others get a synthesized no-op entry.
pub open spec fn spec_surface(t: MethodTableView) -> FullTableView {
    FullTableView {
        get: slot_surface(t.get),
        post: slot_surface(t.post),
        put: slot_surface(t.put),
        patch: slot_surface(t.patch),
        delete: slot_surface(t.delete),
    }
}

/// The surface entry of one slot.
pub open spec fn slot_surface(s: Option<Seq<u8>>) -> HandlerSlotView {
    match s {
        Some(h) => HandlerSlotView::Declared(h),
        None => HandlerSlotView::Synthesized,
    }
}

/// Build the uniform five-method surface of a wired table.
pub fn surface(t: &MethodTable) -> (r: FullTable)
    ensures
        r@ == spec_surface(t@),
{
    FullTable {
        get: match &t.get {
            Some(h) => HandlerSlot::Declared(crate::bytes::copy_bytes(h)),
            None => HandlerSlot::Synthesized,
        },
        post: match &t.post {
            Some(h) => HandlerSlot::Declared(crate::bytes::copy_bytes(h)),
            None => HandlerSlot::Synthesized,
        },
        put: match &t.put {
            Some(h) => HandlerSlot::Declared(crate::bytes::copy_bytes(h)),
            None => HandlerSlot::Synthesized,
        },
        patch: match &t.patch {
            Some(h) => HandlerSlot::Declared(crate::bytes::copy_bytes(h)),
            None => HandlerSlot::Synthesized,
        },
        delete: match &t.delete {
            Some(h) => HandlerSlot::Declared(crate::bytes::copy_bytes(h)),
            None => HandlerSlot::Synthesized,
        },
    }
}

/// The surface and the wired table run in parallel: a method's surface
/// entry is synthesized exactly when the method is not wired, and a
/// declared surface entry carries exactly the wired handler. Dispatch reads
/// only the wired table, so a synthesized entry is never reachable.
pub proof fn lemma_surface_tracks_wiring(t: MethodTableView, m: Method)
    ensures
        (surface_slot(spec_surface(t), m) is Synthesized) <==> (table_slot(t, m) is None),
        forall|h: Seq<u8>|
            surface_slot(spec_surface(t), m) == HandlerSlotView::Declared(h) <==> table_slot(t, m)
                == Some(h),
{
}

} // verus!
