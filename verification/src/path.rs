//! The path-template parser.
//!
//! A path template is a byte string that starts with `/`. Splitting it on `/`
//! yields one component per slash-delimited stretch, including an empty
//! leading component for the root. A component starting with `:` is a
//! single-segment capture, one starting with `*` is a greedy trailing
//! capture, and every other component is literal static text.

use vstd::prelude::*;

verus! {

/// One segment of a path template.
pub enum PathSegment {
    /// Literal text, matched exactly.
    Static(Vec<u8>),
    /// A named capture; `greedy` marks the trailing wildcard form.
    Capture { name: Vec<u8>, greedy: bool },
}

/// The mathematical form of a `PathSegment`.
pub enum SegView {
    Static(Seq<u8>),
    Capture { name: Seq<u8>, greedy: bool },
}

impl View for PathSegment {
    type V = SegView;

    open spec fn view(&self) -> SegView {
        match self {
            PathSegment::Static(t) => SegView::Static(t@),
            PathSegment::Capture { name, greedy } => SegView::Capture {
                name: name@,
                greedy: *greedy,
            },
        }
    }
}

impl DeepView for PathSegment {
    type V = SegView;

    open spec fn deep_view(&self) -> SegView {
        self.view()
    }
}

/// A malformed path template.
#[derive(PartialEq, Eq, Structural, Clone, Copy, Debug)]
pub enum PathError {
    /// The template is the empty string.
    Empty,
    /// The template does not start with `/`.
    NoLeadingSlash,
}

/// No byte of `s` equals `sep`.
pub open spec fn sep_free(s: Seq<u8>, sep: u8) -> bool {
    forall|i: int| 0 <= i < s.len() ==> s[i] != sep
}

/// Index of the first occurrence of `sep` in `s`, or `s.len()` if none.
pub open spec fn first_sep(s: Seq<u8>, sep: u8) -> int
    decreases s.len(),
{
    if s.len() == 0 {
        0
    } else if s[0] == sep {
        0
    } else {
        1 + first_sep(s.subrange(1, s.len() as int), sep)
    }
}

/// `first_sep` is in range, points at a separator when short of the end,
/// and nothing before it is a separator.
pub proof fn lemma_first_sep(s: Seq<u8>, sep: u8)
    ensures
        0 <= first_sep(s, sep) <= s.len(),
        first_sep(s, sep) < s.len() ==> s[first_sep(s, sep)] == sep,
        forall|i: int| 0 <= i < first_sep(s, sep) ==> s[i] != sep,
    decreases s.len(),
{
    if s.len() > 0 && s[0] != sep {
        let t = s.subrange(1, s.len() as int);
        lemma_first_sep(t, sep);
        assert forall|i: int| 0 <= i < first_sep(s, sep) implies s[i] != sep by {
            if i > 0 {
                assert(t[i - 1] != sep);
            }
        }
    }
}

/// Any index with the properties of `lemma_first_sep` is `first_sep`.
pub proof fn lemma_first_sep_char(s: Seq<u8>, sep: u8, k: int)
    requires
        0 <= k <= s.len(),
        k < s.len() ==> s[k] == sep,
        forall|i: int| 0 <= i < k ==> s[i] != sep,
    ensures
        first_sep(s, sep) == k,
    decreases s.len(),
{
    if s.len() == 0 {
    } else if s[0] == sep {
        assert(k == 0);
    } else {
        lemma_first_sep_char(s.subrange(1, s.len() as int), sep, k - 1);
    }
}

/// The components of `s`, split on `sep`. Always at least one component;
/// a separator at either end yields an empty component there.
pub open spec fn spec_split(s: Seq<u8>, sep: u8) -> Seq<Seq<u8>>
    decreases s.len(),
{
    let k = first_sep(s, sep);
    if k >= s.len() {
        seq![s]
    } else {
        proof {
            lemma_first_sep(s, sep);
        }
        seq![s.subrange(0, k)] + spec_split(s.subrange(k + 1, s.len() as int), sep)
    }
}

/// The components joined with `sep` between each pair.
pub open spec fn spec_join(cs: Seq<Seq<u8>>, sep: u8) -> Seq<u8>
    decreases cs.len(),
{
    if cs.len() == 0 {
        Seq::empty()
    } else if cs.len() == 1 {
        cs[0]
    } else {
        cs[0] + seq![sep] + spec_join(cs.subrange(1, cs.len() as int), sep)
    }
}

/// Splitting yields at least one component, and each is free of `sep`.
pub proof fn lemma_split_parts(s: Seq<u8>, sep: u8)
    ensures
        spec_split(s, sep).len() >= 1,
        forall|i: int|
            0 <= i < spec_split(s, sep).len() ==> sep_free(#[trigger] spec_split(s, sep)[i], sep),
    decreases s.len(),
{
    lemma_first_sep(s, sep);
    let k = first_sep(s, sep);
    if k < s.len() {
        lemma_split_parts(s.subrange(k + 1, s.len() as int), sep);
        let head = s.subrange(0, k);
        let rest = spec_split(s.subrange(k + 1, s.len() as int), sep);
        assert forall|i: int| 0 <= i < spec_split(s, sep).len() implies sep_free(
            #[trigger] spec_split(s, sep)[i],
            sep,
        ) by {
            if i == 0 {
                assert(spec_split(s, sep)[0] == head);
            } else {
                assert(spec_split(s, sep)[i] == rest[i - 1]);
            }
        }
    }
}

/// Joining then splitting returns the original components, provided each
/// component is free of the separator.
pub proof fn lemma_split_join(cs: Seq<Seq<u8>>, sep: u8)
    requires
        cs.len() >= 1,
        forall|i: int| 0 <= i < cs.len() ==> sep_free(#[trigger] cs[i], sep),
    ensures
        spec_split(spec_join(cs, sep), sep) == cs,
    decreases cs.len(),
{
    let s = spec_join(cs, sep);
    if cs.len() == 1 {
        assert(sep_free(cs[0], sep));
        lemma_first_sep_char(s, sep, s.len() as int);
        assert(spec_split(s, sep) =~= cs);
    } else {
        let rest = cs.subrange(1, cs.len() as int);
        assert(forall|i: int| 0 <= i < rest.len() ==> sep_free(#[trigger] rest[i], sep));
        lemma_split_join(rest, sep);
        let head = cs[0];
        let tail = spec_join(rest, sep);
        assert(s == head + seq![sep] + tail);
        assert(forall|i: int| 0 <= i < head.len() ==> s[i] == head[i]);
        assert(s[head.len() as int] == sep);
        lemma_first_sep_char(s, sep, head.len() as int);
        assert(s.subrange(0, head.len() as int) =~= head);
        assert(s.subrange(head.len() as int + 1, s.len() as int) =~= tail);
        assert(spec_split(s, sep) =~= cs);
    }
}

/// Splitting then joining returns the original string.
pub proof fn lemma_join_split(s: Seq<u8>, sep: u8)
    ensures
        spec_join(spec_split(s, sep), sep) == s,
    decreases s.len(),
{
    lemma_first_sep(s, sep);
    let k = first_sep(s, sep);
    if k >= s.len() {
        assert(spec_join(seq![s], sep) == s);
    } else {
        let tail = s.subrange(k + 1, s.len() as int);
        lemma_join_split(tail, sep);
        lemma_split_parts(tail, sep);
        let cs = spec_split(s, sep);
        assert(cs == seq![s.subrange(0, k)] + spec_split(tail, sep));
        assert(cs.len() >= 2);
        assert(cs.subrange(1, cs.len() as int) =~= spec_split(tail, sep));
        assert(s.subrange(0, k) + seq![sep] + tail =~= s);
    }
}

/// The segment a single component denotes.
pub open spec fn seg_of_component(c: Seq<u8>) -> SegView {
    if c.len() > 0 && c[0] == 58 {
        SegView::Capture { name: c.subrange(1, c.len() as int), greedy: false }
    } else if c.len() > 0 && c[0] == 42 {
        SegView::Capture { name: c.subrange(1, c.len() as int), greedy: true }
    } else {
        SegView::Static(c)
    }
}

/// The parse of a path template: its segments, or why it is malformed.
pub open spec fn spec_parse_path(s: Seq<u8>) -> Result<Seq<SegView>, PathError> {
    if s.len() == 0 {
        Err(PathError::Empty)
    } else if s[0] != 47 {
        Err(PathError::NoLeadingSlash)
    } else {
        Ok(spec_split(s, 47).map_values(|c: Seq<u8>| seg_of_component(c)))
    }
}

/// Copy `s[from..to]` into a fresh vector.
pub fn subvec(s: &Vec<u8>, from: usize, to: usize) -> (r: Vec<u8>)
    requires
        from <= to <= s@.len(),
    ensures
        r@ == s@.subrange(from as int, to as int),
{
    let mut out: Vec<u8> = Vec::new();
    let mut i: usize = from;
    while i < to
        invariant
            from <= i <= to <= s@.len(),
            out@ == s@.subrange(from as int, i as int),
        decreases to - i,
    {
        out.push(s[i]);
        proof {
            assert(s@.subrange(from as int, i + 1) =~= s@.subrange(from as int, i as int).push(
                s@[i as int],
            ));
        }
        i = i + 1;
    }
    out
}

/// Split a byte string on a separator.
pub fn split_bytes(s: &Vec<u8>, sep: u8) -> (r: Vec<Vec<u8>>)
    ensures
        r.deep_view() == spec_split(s@, sep),
{
    let n = s.len();
    let mut out: Vec<Vec<u8>> = Vec::new();
    let mut start: usize = 0;
    let mut i: usize = 0;
    proof {
        assert(out.deep_view() =~= Seq::<Seq<u8>>::empty());
        assert(s@.subrange(0, n as int) =~= s@);
        assert(Seq::<Seq<u8>>::empty() + spec_split(s@, sep) =~= spec_split(s@, sep));
    }
    loop
        invariant
            n == s@.len(),
            0 <= start <= i <= n,
            forall|j: int| start <= j < i ==> s@[j] != sep,
            spec_split(s@, sep) == out.deep_view() + spec_split(
                s@.subrange(start as int, n as int),
                sep,
            ),
        decreases n - i,
    {
        let ghost tail = s@.subrange(start as int, n as int);
        let ghost dv_old = out.deep_view();
        if i == n {
            let comp = subvec(s, start, n);
            proof {
                assert(comp.deep_view() =~= tail);
            }
            out.push(comp);
            proof {
                lemma_first_sep_char(tail, sep, tail.len() as int);
                assert(spec_split(tail, sep) == seq![tail]);
                assert(out.deep_view() =~= dv_old.push(tail));
                assert(dv_old + seq![tail] =~= dv_old.push(tail));
                assert(spec_split(s@, sep) == out.deep_view());
            }
            return out;
        }
        if s[i] == sep {
            let comp = subvec(s, start, i);
            let ghost head = s@.subrange(start as int, i as int);
            proof {
                assert(comp.deep_view() =~= head);
            }
            out.push(comp);
            proof {
                lemma_first_sep_char(tail, sep, i - start);
                assert(tail.subrange(0, i - start) =~= head);
                assert(tail.subrange(i - start + 1, tail.len() as int) =~= s@.subrange(
                    i + 1,
                    n as int,
                ));
                assert(spec_split(tail, sep) == seq![head] + spec_split(
                    s@.subrange(i + 1, n as int),
                    sep,
                ));
                assert(out.deep_view() =~= dv_old.push(head));
                assert(dv_old + (seq![head] + spec_split(s@.subrange(i + 1, n as int), sep))
                    =~= dv_old.push(head) + spec_split(s@.subrange(i + 1, n as int), sep));
            }
            start = i + 1;
            i = i + 1;
        } else {
            i = i + 1;
        }
    }
}

/// A fresh segment list with the same segments.
pub fn copy_segments(segs: &Vec<PathSegment>) -> (r: Vec<PathSegment>)
    ensures
        r.deep_view() == segs.deep_view(),
{
    let ghost dv = segs.deep_view();
    let mut out: Vec<PathSegment> = Vec::new();
    let mut i: usize = 0;
    while i < segs.len()
        invariant
            dv == segs.deep_view(),
            0 <= i <= segs@.len(),
            dv.len() == segs@.len(),
            out.deep_view() =~= dv.subrange(0, i as int),
        decreases segs@.len() - i,
    {
        let ghost out_old = out.deep_view();
        proof {
            assert(dv[i as int] == segs@[i as int]@);
        }
        match &segs[i] {
            PathSegment::Static(t) => {
                out.push(PathSegment::Static(crate::bytes::copy_bytes(t)));
            },
            PathSegment::Capture { name, greedy } => {
                out.push(
                    PathSegment::Capture { name: crate::bytes::copy_bytes(name), greedy: *greedy },
                );
            },
        }
        proof {
            assert(out.deep_view() =~= out_old.push(dv[i as int]));
            assert(out.deep_view() =~= dv.subrange(0, i + 1));
        }
        i = i + 1;
    }
    proof {
        assert(dv.subrange(0, dv.len() as int) =~= dv);
    }
    out
}

/// Parse a path template into segments.
///
/// Fails exactly when the template is empty or does not start with `/`.
pub fn parse_path(s: &Vec<u8>) -> (r: Result<Vec<PathSegment>, PathError>)
    ensures
        match r {
            Ok(segs) => spec_parse_path(s@) == Ok::<_, PathError>(segs.deep_view()),
            Err(e) => spec_parse_path(s@) == Err::<Seq<SegView>, _>(e),
        },
{
    if s.len() == 0 {
        return Err(PathError::Empty);
    }
    if s[0] != 47 {
        return Err(PathError::NoLeadingSlash);
    }
    let comps = split_bytes(s, 47);
    let ghost target = spec_split(s@, 47).map_values(|c: Seq<u8>| seg_of_component(c));
    let mut segs: Vec<PathSegment> = Vec::new();
    let mut i: usize = 0;
    while i < comps.len()
        invariant
            comps.deep_view() == spec_split(s@, 47),
            target == spec_split(s@, 47).map_values(|c: Seq<u8>| seg_of_component(c)),
            0 <= i <= comps@.len(),
            segs.deep_view() =~= target.subrange(0, i as int),
        decreases comps@.len() - i,
    {
        let c = &comps[i];
        proof {
            assert(comps.deep_view()[i as int] == comps@[i as int].deep_view());
            assert(comps@[i as int].deep_view() =~= c@);
            assert(target[i as int] == seg_of_component(c@));
        }
        let ghost sv_old = segs.deep_view();
        if c.len() > 0 && c[0] == 58 {
            let name = subvec(c, 1, c.len());
            segs.push(PathSegment::Capture { name, greedy: false });
        } else if c.len() > 0 && c[0] == 42 {
            let name = subvec(c, 1, c.len());
            segs.push(PathSegment::Capture { name, greedy: true });
        } else {
            let t = subvec(c, 0, c.len());
            proof {
                assert(c@.subrange(0, c@.len() as int) =~= c@);
            }
            segs.push(PathSegment::Static(t));
        }
        proof {
            assert(segs.deep_view() =~= sv_old.push(target[i as int]));
            assert(segs.deep_view() =~= target.subrange(0, i + 1));
        }
        i = i + 1;
    }
    proof {
        assert(segs.deep_view() =~= target);
    }
    Ok(segs)
}

} // verus!
