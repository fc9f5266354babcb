//! The abstract syntax of a route declaration, as the declaration parser
//! produces it and the semantic validator consumes it.

use vstd::prelude::*;

use crate::path::{PathSegment, SegView};

verus! {

/// An HTTP method the compiler recognises.
#[derive(PartialEq, Eq, Structural, Clone, Copy, Debug)]
pub enum Method {
    Get,
    Post,
    Put,
    Patch,
    Delete,
}

/// One `method => handler` pair of an inline handler block.
pub struct Binding {
    pub method: Method,
    pub handler: Vec<u8>,
    /// Byte offset of the method keyword.
    pub off: usize,
}

/// Mathematical form of `Binding`.
pub struct BindingView {
    pub method: Method,
    pub handler: Seq<u8>,
    pub off: int,
}

impl View for Binding {
    type V = BindingView;

    open spec fn view(&self) -> BindingView {
        BindingView { method: self.method, handler: self.handler@, off: self.off as int }
    }
}

impl DeepView for Binding {
    type V = BindingView;

    open spec fn deep_view(&self) -> BindingView {
        self.view()
    }
}

/// One route clause: a path template, an optional route-specific rejection
/// type, a request-model name, and either an inline handler block or the
/// implicit model-owned binding form.
pub struct RouteClause {
    pub path: Vec<u8>,
    /// Byte offset of the path literal.
    pub path_off: usize,
    pub segments: Vec<PathSegment>,
    pub rejection: Option<Vec<u8>>,
    pub model: Vec<u8>,
    /// Byte offset of the model name.
    pub model_off: usize,
    /// `Some` holds the inline handler block, in source order;
    /// `None` is the implicit form bound through the model's own handlers.
    pub bindings: Option<Vec<Binding>>,
}

/// Mathematical form of `RouteClause`.
pub struct RouteClauseView {
    pub path: Seq<u8>,
    pub path_off: int,
    pub segments: Seq<SegView>,
    pub rejection: Option<Seq<u8>>,
    pub model: Seq<u8>,
    pub model_off: int,
    pub bindings: Option<Seq<BindingView>>,
}

impl View for RouteClause {
    type V = RouteClauseView;

    open spec fn view(&self) -> RouteClauseView {
        RouteClauseView {
            path: self.path@,
            path_off: self.path_off as int,
            segments: self.segments.deep_view(),
            rejection: match self.rejection {
                Some(ref t) => Some(t@),
                None => None,
            },
            model: self.model@,
            model_off: self.model_off as int,
            bindings: match self.bindings {
                Some(ref bs) => Some(bs.deep_view()),
                None => None,
            },
        }
    }
}

impl DeepView for RouteClause {
    type V = RouteClauseView;

    open spec fn deep_view(&self) -> RouteClauseView {
        self.view()
    }
}

/// One clause of a declaration.
pub enum Clause {
    /// `state => Type`: the shared application state type.
    StateDecl { ty: Vec<u8>, off: usize },
    /// `rejection => Type`: the global rejection type.
    RejectionDecl { ty: Vec<u8>, off: usize },
    /// A route clause.
    Route(RouteClause),
}

/// Mathematical form of `Clause`.
pub enum ClauseView {
    StateDecl { ty: Seq<u8>, off: int },
    RejectionDecl { ty: Seq<u8>, off: int },
    Route(RouteClauseView),
}

impl View for Clause {
    type V = ClauseView;

    open spec fn view(&self) -> ClauseView {
        match self {
            Clause::StateDecl { ty, off } => ClauseView::StateDecl { ty: ty@, off: *off as int },
            Clause::RejectionDecl { ty, off } => ClauseView::RejectionDecl {
                ty: ty@,
                off: *off as int,
            },
            Clause::Route(rc) => ClauseView::Route(rc@),
        }
    }
}

impl DeepView for Clause {
    type V = ClauseView;

    open spec fn deep_view(&self) -> ClauseView {
        self.view()
    }
}

/// The text of the `state` keyword.
pub open spec fn kw_state() -> Seq<u8> {
    seq![115u8, 116u8, 97u8, 116u8, 101u8]
}

/// The text of the `rejection` keyword.
pub open spec fn kw_rejection() -> Seq<u8> {
    seq![114u8, 101u8, 106u8, 101u8, 99u8, 116u8, 105u8, 111u8, 110u8]
}

/// The method a marker or method keyword names, if it is one of the five
/// recognised markers: `get`, `post`, `put`, `patch`, `delete`.
pub open spec fn spec_method_of_ident(s: Seq<u8>) -> Option<Method> {
    if s == seq![103u8, 101u8, 116u8] {
        Some(Method::Get)
    } else if s == seq![112u8, 111u8, 115u8, 116u8] {
        Some(Method::Post)
    } else if s == seq![112u8, 117u8, 116u8] {
        Some(Method::Put)
    } else if s == seq![112u8, 97u8, 116u8, 99u8, 104u8] {
        Some(Method::Patch)
    } else if s == seq![100u8, 101u8, 108u8, 101u8, 116u8, 101u8] {
        Some(Method::Delete)
    } else {
        None
    }
}

/// Does `v` spell `state`?
pub fn is_state_kw(v: &Vec<u8>) -> (r: bool)
    ensures
        r == (v@ == kw_state()),
{
    let r = v.len() == 5 && v[0] == 115 && v[1] == 116 && v[2] == 97 && v[3] == 116 && v[4]
        == 101;
    proof {
        if r {
            assert(v@ =~= kw_state());
        }
    }
    r
}

/// Does `v` spell `rejection`?
pub fn is_rejection_kw(v: &Vec<u8>) -> (r: bool)
    ensures
        r == (v@ == kw_rejection()),
{
    let r = v.len() == 9 && v[0] == 114 && v[1] == 101 && v[2] == 106 && v[3] == 101 && v[4]
        == 99 && v[5] == 116 && v[6] == 105 && v[7] == 111 && v[8] == 110;
    proof {
        if r {
            assert(v@ =~= kw_rejection());
        }
    }
    r
}

/// The method a marker names, or `None` for an unrecognised marker.
pub fn method_of_ident(v: &Vec<u8>) -> (r: Option<Method>)
    ensures
        r == spec_method_of_ident(v@),
{
    if v.len() == 3 && v[0] == 103 && v[1] == 101 && v[2] == 116 {
        proof {
            assert(v@ =~= seq![103u8, 101u8, 116u8]);
        }
        Some(Method::Get)
    } else if v.len() == 4 && v[0] == 112 && v[1] == 111 && v[2] == 115 && v[3] == 116 {
        proof {
            assert(v@ =~= seq![112u8, 111u8, 115u8, 116u8]);
        }
        Some(Method::Post)
    } else if v.len() == 3 && v[0] == 112 && v[1] == 117 && v[2] == 116 {
        proof {
            assert(v@ =~= seq![112u8, 117u8, 116u8]);
        }
        Some(Method::Put)
    } else if v.len() == 5 && v[0] == 112 && v[1] == 97 && v[2] == 116 && v[3] == 99 && v[4]
        == 104 {
        proof {
            assert(v@ =~= seq![112u8, 97u8, 116u8, 99u8, 104u8]);
        }
        Some(Method::Patch)
    } else if v.len() == 6 && v[0] == 100 && v[1] == 101 && v[2] == 108 && v[3] == 101 && v[4]
        == 116 && v[5] == 101 {
        proof {
            assert(v@ =~= seq![100u8, 101u8, 108u8, 101u8, 116u8, 101u8]);
        }
        Some(Method::Delete)
    } else {
        None
    }
}

} // verus!
