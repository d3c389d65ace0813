//! Laws that relate the constructors and joins of the path types, stated over
//! the segment model of [`crate::components`].
//!
//! The accessors state what each value's segments satisfy: `as_path` of an
//! absolute path gives `clean(self@)`, and `as_path` of an owned relative path
//! gives `normal_form(self@, false) == Some(self@)`. The laws below take those
//! facts as their premises.
use vstd::prelude::*;

use crate::components::{
    all_plain, clean, has_root, joined, lemma_all_plain_append, lemma_append_marker,
    lemma_collapse_append, lemma_collapse_marker_free, lemma_joined_segments,
    lemma_render_round_trip, lemma_rooted_normal_form_clean, lemma_segments_plain, normal_form,
    render, rooted_normal_form, segments,
};

verus! {

/// Normalizing an absolute path that is already normalized gives it back: for
/// any text, building an absolute path from the text of its normal form gives
/// that normal form again.
pub proof fn law_normalize_idempotent(p: Seq<char>)
    ensures
        rooted_normal_form(segments(p)) matches Some(n) ==> has_root(render(n, true))
            && rooted_normal_form(segments(render(n, true))) == Some(n),
{
    lemma_segments_plain(p);
    lemma_rooted_normal_form_clean(segments(p));
    if let Some(n) = rooted_normal_form(segments(p)) {
        lemma_render_round_trip(n, true);
    }
}

/// An absolute path rendered as text and built again from that text is the same
/// path: the text is rooted, and normalizing its segments changes nothing.
pub proof fn law_absolute_round_trip(segs: Seq<Seq<char>>)
    requires
        clean(segs),
    ensures
        has_root(render(segs, true)),
        rooted_normal_form(segments(render(segs, true))) == Some(segs),
{
    lemma_render_round_trip(segs, true);
}

/// An owned relative path rendered as text and built again from that text is
/// the same path: the text is not rooted, and collapsing its segments changes
/// nothing.
pub proof fn law_relative_round_trip(segs: Seq<Seq<char>>)
    requires
        all_plain(segs),
        normal_form(segs, false) == Some(segs),
    ensures
        !has_root(render(segs, false)),
        normal_form(segments(render(segs, false)), false) == Some(segs),
{
    lemma_render_round_trip(segs, false);
}

/// Joining a relative path onto an absolute one either fails, or gives an
/// absolute path: plain segments with no `.` or `..`, whose text is rooted.
pub proof fn law_join_stays_absolute(base: Seq<Seq<char>>, rel: Seq<char>)
    requires
        clean(base),
        !has_root(rel),
    ensures
        rooted_normal_form(base + segments(rel)) matches Some(n) ==> clean(n) && has_root(
            render(n, true),
        ) && segments(render(n, true)) == n,
{
    lemma_segments_plain(rel);
    lemma_append_marker(base, segments(rel));
    lemma_rooted_normal_form_clean(base + segments(rel));
    if let Some(n) = rooted_normal_form(base + segments(rel)) {
        lemma_render_round_trip(n, true);
    }
}

/// Joining `r1` and then `r2` onto an absolute path gives what joining the text
/// of `r2` appended to `r1` gives, where both succeed.
pub proof fn law_join_associative(base: Seq<Seq<char>>, r1: Seq<char>, r2: Seq<char>)
    requires
        clean(base),
        !has_root(r1),
        !has_root(r2),
        rooted_normal_form(base + segments(r1)) is Some,
        rooted_normal_form(rooted_normal_form(base + segments(r1))->0 + segments(r2)) is Some,
        rooted_normal_form(base + segments(joined(r1, r2))) is Some,
    ensures
        rooted_normal_form(rooted_normal_form(base + segments(r1))->0 + segments(r2))
            == rooted_normal_form(base + segments(joined(r1, r2))),
{
    let y1 = segments(r1);
    let y2 = segments(r2);
    let x = base + y1;
    lemma_segments_plain(r1);
    lemma_segments_plain(r2);
    lemma_append_marker(base, y1);
    lemma_rooted_normal_form_clean(x);
    let n1 = rooted_normal_form(x)->0;
    // the second join, collapsed from the first one's result
    lemma_append_marker(n1, y2);
    lemma_rooted_normal_form_clean(n1 + y2);
    lemma_collapse_append(n1, y2, Seq::empty(), true);
    lemma_collapse_marker_free(n1, Seq::empty(), true);
    assert(Seq::<Seq<char>>::empty() + n1 =~= n1);
    // the single join, collapsed from the same point
    lemma_joined_segments(r1, r2);
    assert(base + segments(joined(r1, r2)) =~= x + y2);
    lemma_all_plain_append(x, y2);
    lemma_rooted_normal_form_clean(x + y2);
    lemma_collapse_append(x, y2, Seq::empty(), true);
}

} // verus!
