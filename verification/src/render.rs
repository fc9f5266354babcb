//! Artifacts derived from a segment list: the reconstruction format string,
//! the ordered capture names, and the rendering of a concrete path from
//! capture values.

use vstd::prelude::*;

use crate::encode::{is_encoded_byte, lemma_encode_bytes, spec_encode};
use crate::path::{
    first_sep, lemma_first_sep, lemma_split_join, seg_of_component, sep_free, spec_join,
    spec_parse_path, spec_split, subvec, PathSegment, SegView,
};

verus! {

/// The format fragment of one segment: static text verbatim, a capture as a
/// named placeholder in braces.
pub open spec fn fmt_of_seg(sv: SegView) -> Seq<u8> {
    match sv {
        SegView::Static(t) => t,
        SegView::Capture { name, greedy } => seq![123u8] + name + seq![125u8],
    }
}

/// The format string of a template: one fragment per segment, joined by `/`.
pub open spec fn spec_format_str(segs: Seq<SegView>) -> Seq<u8> {
    spec_join(segs.map_values(|sv: SegView| fmt_of_seg(sv)), 47)
}

/// The capture names of a template, in segment order.
pub open spec fn spec_capture_names(segs: Seq<SegView>) -> Seq<Seq<u8>>
    decreases segs.len(),
{
    if segs.len() == 0 {
        Seq::empty()
    } else {
        (match segs[0] {
            SegView::Capture { name, greedy } => seq![name],
            SegView::Static(_) => Seq::empty(),
        }) + spec_capture_names(segs.subrange(1, segs.len() as int))
    }
}

/// How many captures a template has.
pub open spec fn count_captures(segs: Seq<SegView>) -> nat {
    spec_capture_names(segs).len()
}

/// Appending one component to a non-empty list appends a separator and the
/// component to the joined string.
pub proof fn lemma_join_push(cs: Seq<Seq<u8>>, c: Seq<u8>, sep: u8)
    requires
        cs.len() >= 1,
    ensures
        spec_join(cs.push(c), sep) == spec_join(cs, sep) + seq![sep] + c,
    decreases cs.len(),
{
    let e = cs.push(c);
    if cs.len() == 1 {
        assert(e.subrange(1, e.len() as int) =~= seq![c]);
        assert(spec_join(seq![c], sep) == c);
    } else {
        lemma_join_push(cs.subrange(1, cs.len() as int), c, sep);
        assert(e.subrange(1, e.len() as int) =~= cs.subrange(1, cs.len() as int).push(c));
        assert(cs[0] + seq![sep] + (spec_join(cs.subrange(1, cs.len() as int), sep) + seq![sep]
            + c) =~= (cs[0] + seq![sep] + spec_join(cs.subrange(1, cs.len() as int), sep))
            + seq![sep] + c);
    }
}

/// The format fragment of one segment.
fn fmt_seg(seg: &PathSegment) -> (r: Vec<u8>)
    ensures
        r@ == fmt_of_seg(seg@),
{
    match seg {
        PathSegment::Static(t) => {
            let r = subvec(t, 0, t.len());
            proof {
                assert(t@.subrange(0, t@.len() as int) =~= t@);
            }
            r
        },
        PathSegment::Capture { name, greedy } => {
            let mut out: Vec<u8> = Vec::new();
            out.push(123);
            crate::bytes::append_bytes(&mut out, name);
            out.push(125);
            proof {
                assert(out@ =~= seq![123u8] + name@ + seq![125u8]);
            }
            out
        },
    }
}

/// The format string for reconstructing a concrete path from capture values:
/// each capture becomes a `{name}` placeholder, static segments stand
/// verbatim, all joined by `/`.
pub fn format_str_from_path(segs: &Vec<PathSegment>) -> (r: Vec<u8>)
    ensures
        r@ == spec_format_str(segs.deep_view()),
{
    let ghost dv = segs.deep_view();
    let ghost mapped = dv.map_values(|sv: SegView| fmt_of_seg(sv));
    if segs.len() == 0 {
        let out: Vec<u8> = Vec::new();
        proof {
            assert(mapped.len() == 0);
            assert(out@ =~= spec_join(mapped, 47));
        }
        return out;
    }
    let mut out = fmt_seg(&segs[0]);
    proof {
        assert(dv[0] == segs@[0].deep_view());
        assert(mapped.subrange(0, 1) =~= seq![fmt_of_seg(dv[0])]);
        assert(out@ == spec_join(mapped.subrange(0, 1), 47));
    }
    let mut i: usize = 1;
    while i < segs.len()
        invariant
            dv == segs.deep_view(),
            mapped == dv.map_values(|sv: SegView| fmt_of_seg(sv)),
            1 <= i <= segs@.len(),
            segs@.len() == dv.len(),
            out@ == spec_join(mapped.subrange(0, i as int), 47),
        decreases segs@.len() - i,
    {
        out.push(47);
        let frag = fmt_seg(&segs[i]);
        crate::bytes::append_bytes(&mut out, &frag);
        proof {
            assert(dv[i as int] == segs@[i as int].deep_view());
            lemma_join_push(mapped.subrange(0, i as int), fmt_of_seg(dv[i as int]), 47);
            assert(mapped.subrange(0, i + 1) =~= mapped.subrange(0, i as int).push(
                fmt_of_seg(dv[i as int]),
            ));
            assert(out@ =~= spec_join(mapped.subrange(0, i as int), 47) + seq![47u8] + frag@);
        }
        i = i + 1;
    }
    proof {
        assert(mapped.subrange(0, mapped.len() as int) =~= mapped);
    }
    out
}

/// The ordered capture names of a template, used to bind request-model
/// fields by name.
pub fn captures_from_path(segs: &Vec<PathSegment>) -> (r: Vec<Vec<u8>>)
    ensures
        r.deep_view() == spec_capture_names(segs.deep_view()),
{
    let ghost dv = segs.deep_view();
    let mut out: Vec<Vec<u8>> = Vec::new();
    let mut i: usize = 0;
    proof {
        assert(dv.subrange(0, dv.len() as int) =~= dv);
        assert(out.deep_view() =~= Seq::<Seq<u8>>::empty());
        assert(Seq::<Seq<u8>>::empty() + spec_capture_names(dv) =~= spec_capture_names(dv));
    }
    while i < segs.len()
        invariant
            dv == segs.deep_view(),
            0 <= i <= segs@.len(),
            segs@.len() == dv.len(),
            spec_capture_names(dv) == out.deep_view() + spec_capture_names(
                dv.subrange(i as int, dv.len() as int),
            ),
        decreases segs@.len() - i,
    {
        let ghost suffix = dv.subrange(i as int, dv.len() as int);
        let ghost dv_old = out.deep_view();
        proof {
            assert(suffix[0] == dv[i as int]);
            assert(suffix.subrange(1, suffix.len() as int) =~= dv.subrange(
                i + 1,
                dv.len() as int,
            ));
            assert(dv[i as int] == segs@[i as int].deep_view());
        }
        match &segs[i] {
            PathSegment::Capture { name, greedy } => {
                let n = subvec(name, 0, name.len());
                proof {
                    assert(n.deep_view() =~= name@);
                    assert(name@.subrange(0, name@.len() as int) =~= name@);
                }
                out.push(n);
                proof {
                    assert(out.deep_view() =~= dv_old.push(name@));
                    assert(dv_old + (seq![name@] + spec_capture_names(
                        dv.subrange(i + 1, dv.len() as int),
                    )) =~= dv_old.push(name@) + spec_capture_names(
                        dv.subrange(i + 1, dv.len() as int),
                    ));
                }
            },
            PathSegment::Static(_) => {
                proof {
                    assert(Seq::<Seq<u8>>::empty() + spec_capture_names(
                        dv.subrange(i + 1, dv.len() as int),
                    ) =~= spec_capture_names(dv.subrange(i + 1, dv.len() as int)));
                }
            },
        }
        i = i + 1;
    }
    proof {
        assert(dv.subrange(dv.len() as int, dv.len() as int) =~= Seq::<SegView>::empty());
        assert(out.deep_view() + Seq::<Seq<u8>>::empty() =~= out.deep_view());
    }
    out
}

/// The component list of a rendered path: static text verbatim, each capture
/// replaced by the percent-encoding of its value, in order.
pub open spec fn spec_render_comps(segs: Seq<SegView>, vals: Seq<Seq<u8>>) -> Seq<Seq<u8>>
    recommends
        vals.len() == count_captures(segs),
    decreases segs.len(),
{
    if segs.len() == 0 {
        Seq::empty()
    } else {
        match segs[0] {
            SegView::Static(t) => seq![t] + spec_render_comps(
                segs.subrange(1, segs.len() as int),
                vals,
            ),
            SegView::Capture { name, greedy } => seq![spec_encode(vals[0])] + spec_render_comps(
                segs.subrange(1, segs.len() as int),
                vals.subrange(1, vals.len() as int),
            ),
        }
    }
}

/// A rendered concrete path: the components joined by `/`.
pub open spec fn spec_render(segs: Seq<SegView>, vals: Seq<Seq<u8>>) -> Seq<u8>
    recommends
        vals.len() == count_captures(segs),
{
    spec_join(spec_render_comps(segs, vals), 47)
}

/// The template with each capture replaced by the static text of its
/// encoded value.
pub open spec fn spec_subst(segs: Seq<SegView>, vals: Seq<Seq<u8>>) -> Seq<SegView>
    recommends
        vals.len() == count_captures(segs),
    decreases segs.len(),
{
    if segs.len() == 0 {
        Seq::empty()
    } else {
        match segs[0] {
            SegView::Static(t) => seq![SegView::Static(t)] + spec_subst(
                segs.subrange(1, segs.len() as int),
                vals,
            ),
            SegView::Capture { name, greedy } => seq![SegView::Static(spec_encode(vals[0]))]
                + spec_subst(
                segs.subrange(1, segs.len() as int),
                vals.subrange(1, vals.len() as int),
            ),
        }
    }
}

/// Join components with a separator byte.
pub fn join_bytes(comps: &Vec<Vec<u8>>, sep: u8) -> (r: Vec<u8>)
    ensures
        r@ == spec_join(comps.deep_view(), sep),
{
    let ghost dv = comps.deep_view();
    if comps.len() == 0 {
        let out: Vec<u8> = Vec::new();
        proof {
            assert(out@ =~= spec_join(dv, sep));
        }
        return out;
    }
    let mut out = subvec(&comps[0], 0, comps[0].len());
    proof {
        assert(comps@[0].deep_view() =~= comps@[0]@);
        assert(comps@[0]@.subrange(0, comps@[0]@.len() as int) =~= comps@[0]@);
        assert(dv.subrange(0, 1) =~= seq![dv[0]]);
        assert(out@ == spec_join(dv.subrange(0, 1), sep));
    }
    let mut i: usize = 1;
    while i < comps.len()
        invariant
            dv == comps.deep_view(),
            1 <= i <= comps@.len(),
            comps@.len() == dv.len(),
            out@ == spec_join(dv.subrange(0, i as int), sep),
        decreases comps@.len() - i,
    {
        out.push(sep);
        crate::bytes::append_bytes(&mut out, &comps[i]);
        proof {
            assert(comps@[i as int].deep_view() =~= comps@[i as int]@);
            lemma_join_push(dv.subrange(0, i as int), dv[i as int], sep);
            assert(dv.subrange(0, i + 1) =~= dv.subrange(0, i as int).push(dv[i as int]));
            assert(out@ =~= spec_join(dv.subrange(0, i as int), sep) + seq![sep] + dv[i as int]);
        }
        i = i + 1;
    }
    proof {
        assert(dv.subrange(0, dv.len() as int) =~= dv);
    }
    out
}

/// Render a concrete path from a template and one value per capture:
/// static segments verbatim, captures replaced by their percent-encoded
/// values, joined by `/`. Returns `None` exactly when the number of values
/// does not match the number of captures.
pub fn render_path(segs: &Vec<PathSegment>, vals: &Vec<Vec<u8>>) -> (r: Option<Vec<u8>>)
    ensures
        r is Some <==> vals.deep_view().len() == count_captures(segs.deep_view()),
        r matches Some(p) ==> p@ == spec_render(segs.deep_view(), vals.deep_view()),
{
    let ghost dv = segs.deep_view();
    let ghost vv = vals.deep_view();
    let names = captures_from_path(segs);
    if names.len() != vals.len() {
        return None;
    }
    let mut comps: Vec<Vec<u8>> = Vec::new();
    let mut i: usize = 0;
    let mut ci: usize = 0;
    proof {
        assert(dv.subrange(0, dv.len() as int) =~= dv);
        assert(vv.subrange(0, vv.len() as int) =~= vv);
        assert(comps.deep_view() =~= Seq::<Seq<u8>>::empty());
        assert(Seq::<Seq<u8>>::empty() + spec_render_comps(dv, vv) =~= spec_render_comps(
            dv,
            vv,
        ));
    }
    while i < segs.len()
        invariant
            dv == segs.deep_view(),
            vv == vals.deep_view(),
            0 <= i <= segs@.len(),
            0 <= ci <= vals@.len(),
            segs@.len() == dv.len(),
            vals@.len() == vv.len(),
            vv.len() <= usize::MAX,
            count_captures(dv.subrange(i as int, dv.len() as int)) == vv.len() - ci,
            spec_render_comps(dv, vv) == comps.deep_view() + spec_render_comps(
                dv.subrange(i as int, dv.len() as int),
                vv.subrange(ci as int, vv.len() as int),
            ),
        decreases segs@.len() - i,
    {
        let ghost suffix = dv.subrange(i as int, dv.len() as int);
        let ghost vsuffix = vv.subrange(ci as int, vv.len() as int);
        let ghost dv_old = comps.deep_view();
        proof {
            assert(suffix[0] == dv[i as int]);
            assert(suffix.subrange(1, suffix.len() as int) =~= dv.subrange(
                i + 1,
                dv.len() as int,
            ));
            assert(dv[i as int] == segs@[i as int].deep_view());
        }
        match &segs[i] {
            PathSegment::Static(t) => {
                let c = subvec(t, 0, t.len());
                proof {
                    assert(c.deep_view() =~= t@);
                    assert(t@.subrange(0, t@.len() as int) =~= t@);
                }
                comps.push(c);
                proof {
                    assert(comps.deep_view() =~= dv_old.push(t@));
                    assert(dv_old + (seq![t@] + spec_render_comps(
                        dv.subrange(i + 1, dv.len() as int),
                        vsuffix,
                    )) =~= dv_old.push(t@) + spec_render_comps(
                        dv.subrange(i + 1, dv.len() as int),
                        vsuffix,
                    ));
                }
            },
            PathSegment::Capture { name, greedy } => {
                proof {
                    assert(count_captures(suffix) >= 1) by {
                        assert(spec_capture_names(suffix).len() >= 1);
                    }
                    assert(vsuffix[0] == vv[ci as int]);
                    assert(vv[ci as int] == vals@[ci as int].deep_view());
                    assert(vals@[ci as int].deep_view() =~= vals@[ci as int]@);
                }
                let c = crate::encode::percent_encode(&vals[ci]);
                proof {
                    assert(c.deep_view() =~= c@);
                }
                comps.push(c);
                proof {
                    assert(comps.deep_view() =~= dv_old.push(spec_encode(vsuffix[0])));
                    assert(vsuffix.subrange(1, vsuffix.len() as int) =~= vv.subrange(
                        ci + 1,
                        vv.len() as int,
                    ));
                    assert(dv_old + (seq![spec_encode(vsuffix[0])] + spec_render_comps(
                        dv.subrange(i + 1, dv.len() as int),
                        vv.subrange(ci + 1, vv.len() as int),
                    )) =~= dv_old.push(spec_encode(vsuffix[0])) + spec_render_comps(
                        dv.subrange(i + 1, dv.len() as int),
                        vv.subrange(ci + 1, vv.len() as int),
                    ));
                }
                ci = ci + 1;
            },
        }
        i = i + 1;
    }
    proof {
        assert(dv.subrange(dv.len() as int, dv.len() as int) =~= Seq::<SegView>::empty());
        assert(ci == vv.len());
        assert(comps.deep_view() + Seq::<Seq<u8>>::empty() =~= comps.deep_view());
    }
    let out = join_bytes(&comps, 47);
    Some(out)
}

/// Every static segment is free of `/` and does not begin with a capture
/// marker, so it reads back as the same static segment.
pub open spec fn statics_ok(segs: Seq<SegView>) -> bool {
    forall|i: int|
        0 <= i < segs.len() ==> (#[trigger] segs[i] matches SegView::Static(t) ==> sep_free(t, 47)
            && (t.len() > 0 ==> t[0] != 58 && t[0] != 42))
}

/// A well-formed template: what `parse_path` produces from any valid path
/// string. It has the empty root component first, at least two segments, and
/// well-behaved static text.
pub open spec fn wf_template(segs: Seq<SegView>) -> bool {
    &&& segs.len() >= 2
    &&& segs[0] == SegView::Static(Seq::<u8>::empty())
    &&& statics_ok(segs)
}

/// Parsing any accepted path template yields a well-formed template.
pub proof fn lemma_parse_wf(s: Seq<u8>, segs: Seq<SegView>)
    requires
        spec_parse_path(s) == Ok::<Seq<SegView>, crate::path::PathError>(segs),
    ensures
        wf_template(segs),
{
    let cs = spec_split(s, 47);
    crate::path::lemma_split_parts(s, 47);
    assert(segs == cs.map_values(|c: Seq<u8>| seg_of_component(c)));
    assert(s.len() > 0 && s[0] == 47);
    lemma_first_sep(s, 47);
    crate::path::lemma_first_sep_char(s, 47, 0);
    assert(cs.len() >= 2) by {
        assert(cs == seq![s.subrange(0, 0)] + spec_split(s.subrange(1, s.len() as int), 47));
        crate::path::lemma_split_parts(s.subrange(1, s.len() as int), 47);
    }
    assert(segs[0] == seg_of_component(cs[0]));
    assert(cs[0] =~= Seq::<u8>::empty()) by {
        assert(cs[0] == s.subrange(0, 0));
    }
    assert forall|i: int| 0 <= i < segs.len() implies (#[trigger] segs[i] matches
        SegView::Static(t) ==> sep_free(t, 47) && (t.len() > 0 ==> t[0] != 58 && t[0] != 42)) by {
        assert(segs[i] == seg_of_component(cs[i]));
        assert(sep_free(cs[i], 47));
    }
}

/// The heart of the round trip: rendered components read back, one per
/// segment, as exactly the substituted segment list.
pub proof fn lemma_render_comps(segs: Seq<SegView>, vals: Seq<Seq<u8>>)
    requires
        statics_ok(segs),
        vals.len() == count_captures(segs),
    ensures
        spec_render_comps(segs, vals).len() == segs.len(),
        spec_subst(segs, vals).len() == segs.len(),
        forall|i: int|
            0 <= i < segs.len() ==> sep_free(#[trigger] spec_render_comps(segs, vals)[i], 47),
        forall|i: int|
            0 <= i < segs.len() ==> seg_of_component(#[trigger] spec_render_comps(segs, vals)[i])
                == spec_subst(segs, vals)[i],
    decreases segs.len(),
{
    if segs.len() == 0 {
    } else {
        let rest = segs.subrange(1, segs.len() as int);
        let comps = spec_render_comps(segs, vals);
        let subst = spec_subst(segs, vals);
        assert(statics_ok(rest)) by {
            assert(forall|i: int| 0 <= i < rest.len() ==> rest[i] == segs[i + 1]);
        }
        let head = comps[0];
        match segs[0] {
            SegView::Static(t) => {
                lemma_render_comps(rest, vals);
                assert(head == t);
                assert(segs[0] matches SegView::Static(t2) && t2 == t);
                assert(sep_free(t, 47) && (t.len() > 0 ==> t[0] != 58 && t[0] != 42));
                assert(seg_of_component(t) == SegView::Static(t));
                assert(forall|i: int|
                    1 <= i < segs.len() ==> comps[i] == spec_render_comps(rest, vals)[i - 1]);
                assert(forall|i: int|
                    1 <= i < segs.len() ==> subst[i] == spec_subst(rest, vals)[i - 1]);
            },
            SegView::Capture { name, greedy } => {
                let vrest = vals.subrange(1, vals.len() as int);
                lemma_render_comps(rest, vrest);
                let e = spec_encode(vals[0]);
                assert(head == e);
                lemma_encode_bytes(vals[0]);
                assert(sep_free(e, 47)) by {
                    assert(forall|i: int|
                        0 <= i < e.len() ==> is_encoded_byte(#[trigger] e[i]) && e[i] != 47);
                }
                assert(e.len() > 0 ==> e[0] != 58 && e[0] != 42) by {
                    if e.len() > 0 {
                        assert(is_encoded_byte(e[0]));
                    }
                }
                assert(seg_of_component(e) == SegView::Static(e));
                assert(forall|i: int|
                    1 <= i < segs.len() ==> comps[i] == spec_render_comps(rest, vrest)[i - 1]);
                assert(forall|i: int|
                    1 <= i < segs.len() ==> subst[i] == spec_subst(rest, vrest)[i - 1]);
            },
        }
    }
}

/// Round trip of a path template: parsing a path rendered from a well-formed
/// template with one value per capture succeeds and yields the template with
/// every capture replaced by the static text of its percent-encoded value.
/// Together with `lemma_decode_encode`, the original capture values are
/// recovered from the rendered path, so reconstruction loses nothing.
pub proof fn lemma_render_round_trip(segs: Seq<SegView>, vals: Seq<Seq<u8>>)
    requires
        wf_template(segs),
        vals.len() == count_captures(segs),
    ensures
        spec_parse_path(spec_render(segs, vals)) == Ok::<_, crate::path::PathError>(
            spec_subst(segs, vals),
        ),
{
    let comps = spec_render_comps(segs, vals);
    let subst = spec_subst(segs, vals);
    lemma_render_comps(segs, vals);
    let p = spec_render(segs, vals);
    assert(comps[0] == Seq::<u8>::empty());
    assert(p == spec_join(comps, 47));
    assert(p.len() > 0 && p[0] == 47) by {
        assert(comps.len() >= 2);
        assert(p == comps[0] + seq![47u8] + spec_join(comps.subrange(1, comps.len() as int), 47));
        assert(p[0] == 47);
    }
    lemma_split_join(comps, 47);
    assert(spec_split(p, 47) == comps);
    assert(spec_parse_path(p) == Ok::<_, crate::path::PathError>(
        comps.map_values(|c: Seq<u8>| seg_of_component(c)),
    ));
    assert(comps.map_values(|c: Seq<u8>| seg_of_component(c)) =~= subst);
}

} // verus!
