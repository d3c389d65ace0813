//! The lexical model of a path: a root flag and the ordered sequence of its
//! segments, the pieces between `/` separators. Empty pieces (from a doubled or
//! trailing separator) are no segments; `.` and `..` are segments until a path is
//! normalized.
use vstd::prelude::*;

verus! {

broadcast use vstd::string::group_string_axioms;

// ---------------------------------------------------------------------------
// Splitting text into segments
// ---------------------------------------------------------------------------

/// The path separator.
pub open spec fn is_sep(c: char) -> bool {
    c == '/'
}

/// A path is rooted when its text starts with the separator.
pub open spec fn has_root(p: Seq<char>) -> bool {
    p.len() > 0 && is_sep(p[0])
}

/// The piece gathered so far, as a list of zero or one segments.
pub open spec fn piece(cur: Seq<char>) -> Seq<Seq<char>> {
    if cur.len() == 0 {
        Seq::empty()
    } else {
        seq![cur]
    }
}

/// The segments of `p`, given that `cur` is the unfinished segment before it.
pub open spec fn split_from(p: Seq<char>, cur: Seq<char>) -> Seq<Seq<char>>
    decreases p.len(),
{
    if p.len() == 0 {
        piece(cur)
    } else if is_sep(p[0]) {
        piece(cur) + split_from(p.drop_first(), Seq::empty())
    } else {
        split_from(p.drop_first(), cur.push(p[0]))
    }
}

/// The segments of the path text `p`, in order.
pub open spec fn segments(p: Seq<char>) -> Seq<Seq<char>> {
    split_from(p, Seq::empty())
}

/// Text without a separator in it.
pub open spec fn sep_free(s: Seq<char>) -> bool {
    forall|k: int| 0 <= k < s.len() ==> !is_sep(#[trigger] s[k])
}

/// A segment as splitting produces it: not empty, and without a separator.
pub open spec fn is_plain(s: Seq<char>) -> bool {
    s.len() > 0 && sep_free(s)
}

pub open spec fn all_plain(segs: Seq<Seq<char>>) -> bool {
    forall|i: int| 0 <= i < segs.len() ==> is_plain(#[trigger] segs[i])
}

/// The views of a list of string slices.
pub open spec fn seg_views<'a>(v: Seq<&'a str>) -> Seq<Seq<char>> {
    v.map_values(|s: &'a str| s@)
}

// ---------------------------------------------------------------------------
// The `.` and `..` markers, and lexical collapsing
// ---------------------------------------------------------------------------

/// The segment `.`.
pub open spec fn cur_dir() -> Seq<char> {
    seq!['.']
}

/// The segment `..`.
pub open spec fn parent_dir() -> Seq<char> {
    seq!['.', '.']
}

pub open spec fn is_marker(s: Seq<char>) -> bool {
    s == cur_dir() || s == parent_dir()
}

/// Some segment of `segs` is `.` or `..`.
pub open spec fn has_marker(segs: Seq<Seq<char>>) -> bool {
    exists|i: int| 0 <= i < segs.len() && is_marker(#[trigger] segs[i])
}

/// Collapses `segs` onto the retained segments `stack`, front to back: `.` is
/// dropped, a regular segment is pushed, and `..` cancels the last retained
/// regular segment. A `..` with no regular segment to cancel makes a bounded
/// collapse fail (`None`) and is itself retained by an unbounded one.
pub open spec fn collapse(segs: Seq<Seq<char>>, stack: Seq<Seq<char>>, bounded: bool) -> Option<
    Seq<Seq<char>>,
>
    decreases segs.len(),
{
    if segs.len() == 0 {
        Some(stack)
    } else if segs[0] == cur_dir() {
        collapse(segs.drop_first(), stack, bounded)
    } else if segs[0] == parent_dir() {
        if stack.len() > 0 && stack.last() != parent_dir() {
            collapse(segs.drop_first(), stack.drop_last(), bounded)
        } else if bounded {
            None
        } else {
            collapse(segs.drop_first(), stack.push(segs[0]), bounded)
        }
    } else {
        collapse(segs.drop_first(), stack.push(segs[0]), bounded)
    }
}

/// The lexical normal form of a segment sequence.
pub open spec fn normal_form(segs: Seq<Seq<char>>, bounded: bool) -> Option<Seq<Seq<char>>> {
    collapse(segs, Seq::empty(), bounded)
}

/// The segments of an absolute path as its normalizing constructor makes them:
/// unchanged where no marker occurs; otherwise the bounded normal form, which
/// must keep at least one segment.
pub open spec fn rooted_normal_form(segs: Seq<Seq<char>>) -> Option<Seq<Seq<char>>> {
    if !has_marker(segs) {
        Some(segs)
    } else {
        match normal_form(segs, true) {
            Some(n) => if n.len() > 0 {
                Some(n)
            } else {
                None
            },
            None => None,
        }
    }
}

// ---------------------------------------------------------------------------
// Rendering segments as text, and joining texts
// ---------------------------------------------------------------------------

/// Each segment preceded by a separator: `/a/b` for `a`, `b`.
pub open spec fn slashed(segs: Seq<Seq<char>>) -> Seq<char>
    decreases segs.len(),
{
    if segs.len() == 0 {
        Seq::empty()
    } else {
        slashed(segs.drop_last()) + seq!['/'] + segs.last()
    }
}

/// The text of a path with the given segments: `/` alone for the root, and
/// the empty text for an empty relative path.
pub open spec fn render(segs: Seq<Seq<char>>, root: bool) -> Seq<char> {
    if segs.len() == 0 {
        if root {
            seq!['/']
        } else {
            Seq::empty()
        }
    } else if root {
        slashed(segs)
    } else {
        slashed(segs).drop_first()
    }
}

/// The text of `rel` appended to `base`, with a separator between the two
/// unless `base` is empty or already ends with one.
pub open spec fn joined(base: Seq<char>, rel: Seq<char>) -> Seq<char> {
    if base.len() > 0 && !is_sep(base.last()) {
        base + seq!['/'] + rel
    } else {
        base + rel
    }
}

// ---------------------------------------------------------------------------
// Lemmas
// ---------------------------------------------------------------------------

/// Splitting at a separator splits the segments.
pub proof fn lemma_split_at_sep(a: Seq<char>, b: Seq<char>, cur: Seq<char>)
    ensures
        split_from(a + seq!['/'] + b, cur) == split_from(a, cur) + split_from(
            b,
            Seq::empty(),
        ),
    decreases a.len(),
{
    let t = a + seq!['/'] + b;
    if a.len() == 0 {
        assert(t.drop_first() =~= b);
        assert(split_from(a, cur) == piece(cur));
    } else {
        assert(t.drop_first() =~= a.drop_first() + seq!['/'] + b);
        lemma_split_at_sep(a.drop_first(), b, if is_sep(a[0]) {
            Seq::empty()
        } else {
            cur.push(a[0])
        });
        if is_sep(a[0]) {
            assert(split_from(t, cur) == piece(cur) + split_from(t.drop_first(), Seq::empty()));
            assert(split_from(t, cur) =~= split_from(a, cur) + split_from(b, Seq::empty()));
        }
    }
}

/// A separator-free prefix joins the unfinished segment.
pub proof fn lemma_split_sep_free(s: Seq<char>, q: Seq<char>, cur: Seq<char>)
    requires
        sep_free(s),
    ensures
        split_from(s + q, cur) == split_from(q, cur + s),
    decreases s.len(),
{
    if s.len() == 0 {
        assert(s + q =~= q);
        assert(cur + s =~= cur);
    } else {
        assert((s + q).drop_first() =~= s.drop_first() + q);
        assert(cur.push(s[0]) + s.drop_first() =~= cur + s);
        lemma_split_sep_free(s.drop_first(), q, cur.push(s[0]));
    }
}

/// The segments of a text are plain.
pub proof fn lemma_split_plain(p: Seq<char>, cur: Seq<char>)
    requires
        sep_free(cur),
    ensures
        all_plain(split_from(p, cur)),
    decreases p.len(),
{
    if p.len() == 0 {
    } else if is_sep(p[0]) {
        lemma_split_plain(p.drop_first(), Seq::empty());
        let l = piece(cur);
        let r = split_from(p.drop_first(), Seq::empty());
        assert forall|i: int| 0 <= i < (l + r).len() implies is_plain(#[trigger] (l + r)[i]) by {
            if i >= l.len() {
                assert((l + r)[i] == r[i - l.len()]);
            }
        }
    } else {
        let c2 = cur.push(p[0]);
        assert forall|k: int| 0 <= k < c2.len() implies !is_sep(#[trigger] c2[k]) by {
            if k < cur.len() {
                assert(c2[k] == cur[k]);
            }
        }
        lemma_split_plain(p.drop_first(), c2);
    }
}

pub proof fn lemma_segments_plain(p: Seq<char>)
    ensures
        all_plain(segments(p)),
{
    lemma_split_plain(p, Seq::empty());
}

/// A path joined onto a base has the segments of the base, then those of the path.
pub proof fn lemma_joined_segments(base: Seq<char>, rel: Seq<char>)
    ensures
        segments(joined(base, rel)) == segments(base) + segments(rel),
        base.len() > 0 ==> has_root(joined(base, rel)) == has_root(base),
{
    if base.len() > 0 && !is_sep(base.last()) {
        lemma_split_at_sep(base, rel, Seq::empty());
    } else if base.len() == 0 {
        assert(base + rel =~= rel);
        assert(segments(base) =~= Seq::empty());
        assert(segments(base) + segments(rel) =~= segments(rel));
    } else {
        let a = base.drop_last();
        assert(base =~= a + seq!['/'] + Seq::empty());
        assert(base + rel =~= a + seq!['/'] + rel);
        lemma_split_at_sep(a, rel, Seq::empty());
        lemma_split_at_sep(a, Seq::empty(), Seq::empty());
        assert(split_from(Seq::<char>::empty(), Seq::empty()) =~= Seq::empty());
        assert(segments(base) =~= segments(a));
    }
    if base.len() > 0 {
        assert(joined(base, rel)[0] == base[0]);
    }
}

/// `slashed` read from the front.
pub proof fn lemma_slashed_front(segs: Seq<Seq<char>>)
    requires
        segs.len() > 0,
    ensures
        slashed(segs) == seq!['/'] + segs[0] + slashed(segs.drop_first()),
    decreases segs.len(),
{
    if segs.len() == 1 {
        assert(segs.drop_last() =~= Seq::empty());
        assert(segs.drop_first() =~= Seq::empty());
        assert(slashed(segs) =~= seq!['/'] + segs[0] + slashed(segs.drop_first()));
    } else {
        let init = segs.drop_last();
        lemma_slashed_front(init);
        assert(segs.drop_first().drop_last() =~= init.drop_first());
        assert(init[0] == segs[0]);
        assert(segs.drop_first().last() == segs.last());
        assert(slashed(segs) =~= seq!['/'] + segs[0] + slashed(segs.drop_first()));
    }
}

/// The segments of `slashed(segs)` are `segs`.
pub proof fn lemma_slashed_segments(segs: Seq<Seq<char>>)
    requires
        all_plain(segs),
    ensures
        segments(slashed(segs)) == segs,
    decreases segs.len(),
{
    if segs.len() == 0 {
        assert(segments(slashed(segs)) =~= segs);
    } else {
        let init = segs.drop_last();
        let last = segs.last();
        assert(is_plain(segs[segs.len() - 1]));
        lemma_slashed_segments(init);
        lemma_split_at_sep(slashed(init), last, Seq::empty());
        lemma_split_sep_free(last, Seq::empty(), Seq::empty());
        assert(last + Seq::<char>::empty() =~= last);
        assert(Seq::<char>::empty() + last =~= last);
        assert(split_from(last, Seq::empty()) =~= seq![last]);
        assert(segs =~= init + seq![last]);
    }
}

/// Rendering, then splitting, gives back the segments and the root flag.
pub proof fn lemma_render_round_trip(segs: Seq<Seq<char>>, root: bool)
    requires
        all_plain(segs),
    ensures
        segments(render(segs, root)) == segs,
        has_root(render(segs, root)) == root,
{
    if segs.len() == 0 {
        if root {
            lemma_split_at_sep(Seq::empty(), Seq::empty(), Seq::empty());
            assert(Seq::<char>::empty() + seq!['/'] + Seq::<char>::empty() =~= seq!['/']);
        }
        assert(segments(render(segs, root)) =~= segs);
    } else {
        lemma_slashed_segments(segs);
        lemma_slashed_front(segs);
        let rest = slashed(segs).drop_first();
        assert(slashed(segs) =~= Seq::<char>::empty() + seq!['/'] + rest);
        lemma_split_at_sep(Seq::empty(), rest, Seq::empty());
        assert(split_from(Seq::<char>::empty(), Seq::empty()) =~= Seq::empty());
        assert(segments(rest) =~= segments(slashed(segs)));
        assert(is_plain(segs[0]));
        assert(rest =~= segs[0] + slashed(segs.drop_first()));
        assert(rest[0] == segs[0][0]);
    }
}

/// The segments that a collapse retains and fails on do not depend on how the
/// input is cut: collapsing `x + y` is collapsing `x`, then `y` onto the result.
pub proof fn lemma_collapse_append(
    x: Seq<Seq<char>>,
    y: Seq<Seq<char>>,
    stack: Seq<Seq<char>>,
    bounded: bool,
)
    ensures
        collapse(x + y, stack, bounded) == match collapse(x, stack, bounded) {
            Some(s) => collapse(y, s, bounded),
            None => None,
        },
    decreases x.len(),
{
    if x.len() == 0 {
        assert(x + y =~= y);
    } else {
        assert((x + y).drop_first() =~= x.drop_first() + y);
        assert((x + y)[0] == x[0]);
        if x[0] == cur_dir() {
            lemma_collapse_append(x.drop_first(), y, stack, bounded);
        } else if x[0] == parent_dir() {
            if stack.len() > 0 && stack.last() != parent_dir() {
                lemma_collapse_append(x.drop_first(), y, stack.drop_last(), bounded);
            } else if !bounded {
                lemma_collapse_append(x.drop_first(), y, stack.push(x[0]), bounded);
            }
        } else {
            lemma_collapse_append(x.drop_first(), y, stack.push(x[0]), bounded);
        }
    }
}

/// A collapse over segments without markers appends them to the stack.
pub proof fn lemma_collapse_marker_free(segs: Seq<Seq<char>>, stack: Seq<Seq<char>>, bounded: bool)
    requires
        !has_marker(segs),
    ensures
        collapse(segs, stack, bounded) == Some(stack + segs),
    decreases segs.len(),
{
    if segs.len() == 0 {
        assert(stack + segs =~= stack);
    } else {
        assert(!is_marker(segs[0]));
        assert(!has_marker(segs.drop_first())) by {
            if has_marker(segs.drop_first()) {
                let i = choose|i: int|
                    0 <= i < segs.drop_first().len() && is_marker(#[trigger] segs.drop_first()[i]);
                assert(is_marker(segs[i + 1]));
            }
        }
        lemma_collapse_marker_free(segs.drop_first(), stack.push(segs[0]), bounded);
        assert(stack.push(segs[0]) + segs.drop_first() =~= stack + segs);
    }
}

/// Plain, marker-free segments: those of a normalized absolute path.
pub open spec fn clean(segs: Seq<Seq<char>>) -> bool {
    all_plain(segs) && !has_marker(segs)
}

/// A bounded collapse of plain segments onto a clean stack retains a clean
/// sequence.
pub proof fn lemma_collapse_bounded_clean(segs: Seq<Seq<char>>, stack: Seq<Seq<char>>)
    requires
        all_plain(segs),
        clean(stack),
    ensures
        collapse(segs, stack, true) matches Some(n) ==> clean(n),
    decreases segs.len(),
{
    if segs.len() > 0 {
        let rest = segs.drop_first();
        assert(all_plain(rest)) by {
            assert forall|i: int| 0 <= i < rest.len() implies is_plain(#[trigger] rest[i]) by {
                assert(rest[i] == segs[i + 1]);
            }
        }
        if segs[0] == cur_dir() {
            lemma_collapse_bounded_clean(rest, stack);
        } else if segs[0] == parent_dir() {
            if stack.len() > 0 && stack.last() != parent_dir() {
                let s2 = stack.drop_last();
                assert(clean(s2)) by {
                    assert forall|i: int| 0 <= i < s2.len() implies is_plain(#[trigger] s2[i]) by {
                        assert(s2[i] == stack[i]);
                    }
                    if has_marker(s2) {
                        let i = choose|i: int| 0 <= i < s2.len() && is_marker(#[trigger] s2[i]);
                        assert(is_marker(stack[i]));
                    }
                }
                lemma_collapse_bounded_clean(rest, s2);
            }
        } else {
            let s2 = stack.push(segs[0]);
            assert(is_plain(segs[0]));
            assert(clean(s2)) by {
                assert forall|i: int| 0 <= i < s2.len() implies is_plain(#[trigger] s2[i]) by {
                    if i < stack.len() {
                        assert(s2[i] == stack[i]);
                    }
                }
                if has_marker(s2) {
                    let i = choose|i: int| 0 <= i < s2.len() && is_marker(#[trigger] s2[i]);
                    if i < stack.len() {
                        assert(is_marker(stack[i]));
                    }
                }
            }
            lemma_collapse_bounded_clean(rest, s2);
        }
    }
}

/// What `rooted_normal_form` gives for plain segments is clean, and is also
/// what the bounded normal form gives.
pub proof fn lemma_rooted_normal_form_clean(segs: Seq<Seq<char>>)
    requires
        all_plain(segs),
    ensures
        rooted_normal_form(segs) matches Some(n) ==> clean(n) && normal_form(segs, true) == Some(
            n,
        ),
{
    lemma_collapse_bounded_clean(segs, Seq::empty());
    if !has_marker(segs) {
        lemma_collapse_marker_free(segs, Seq::empty(), true);
        assert(Seq::<Seq<char>>::empty() + segs =~= segs);
    }
}

/// A collapse of plain segments onto a plain stack retains plain segments, and
/// an unbounded one never fails.
pub proof fn lemma_collapse_plain(segs: Seq<Seq<char>>, stack: Seq<Seq<char>>, bounded: bool)
    requires
        all_plain(segs),
        all_plain(stack),
    ensures
        collapse(segs, stack, bounded) matches Some(n) ==> all_plain(n),
        !bounded ==> collapse(segs, stack, bounded) is Some,
    decreases segs.len(),
{
    if segs.len() > 0 {
        let rest = segs.drop_first();
        assert(all_plain(rest)) by {
            assert forall|i: int| 0 <= i < rest.len() implies is_plain(#[trigger] rest[i]) by {
                assert(rest[i] == segs[i + 1]);
            }
        }
        let s2 = stack.push(segs[0]);
        assert(is_plain(segs[0]));
        assert(all_plain(s2)) by {
            assert forall|i: int| 0 <= i < s2.len() implies is_plain(#[trigger] s2[i]) by {
                if i < stack.len() {
                    assert(s2[i] == stack[i]);
                }
            }
        }
        lemma_collapse_plain(rest, stack, bounded);
        lemma_collapse_plain(rest, s2, bounded);
        if stack.len() > 0 {
            let s3 = stack.drop_last();
            assert(all_plain(s3)) by {
                assert forall|i: int| 0 <= i < s3.len() implies is_plain(#[trigger] s3[i]) by {
                    assert(s3[i] == stack[i]);
                }
            }
            lemma_collapse_plain(rest, s3, bounded);
        }
    }
}

/// The shape of an unbounded normal form: no `.`, and every `..` comes before
/// every other segment.
pub open spec fn rel_normal(segs: Seq<Seq<char>>) -> bool {
    &&& forall|i: int| 0 <= i < segs.len() ==> #[trigger] segs[i] != cur_dir()
    &&& forall|i: int, j: int|
        0 <= j < i < segs.len() && #[trigger] segs[i] == parent_dir() ==> #[trigger] segs[j]
            == parent_dir()
}

/// An unbounded collapse onto a stack in normal form retains a normal form.
pub proof fn lemma_collapse_rel_normal(segs: Seq<Seq<char>>, stack: Seq<Seq<char>>)
    requires
        rel_normal(stack),
    ensures
        collapse(segs, stack, false) matches Some(n) ==> rel_normal(n),
    decreases segs.len(),
{
    if segs.len() > 0 {
        let rest = segs.drop_first();
        if segs[0] == cur_dir() {
            lemma_collapse_rel_normal(rest, stack);
        } else if segs[0] == parent_dir() {
            if stack.len() > 0 && stack.last() != parent_dir() {
                let s3 = stack.drop_last();
                assert(rel_normal(s3)) by {
                    assert forall|i: int| 0 <= i < s3.len() implies #[trigger] s3[i] != cur_dir() by {
                        assert(s3[i] == stack[i]);
                    }
                    assert forall|i: int, j: int|
                        0 <= j < i < s3.len() && #[trigger] s3[i] == parent_dir() implies #[trigger] s3[j]
                            == parent_dir() by {
                        assert(s3[i] == stack[i] && s3[j] == stack[j]);
                    }
                }
                lemma_collapse_rel_normal(rest, s3);
            } else {
                let s2 = stack.push(segs[0]);
                assert(rel_normal(s2)) by {
                    assert forall|i: int| 0 <= i < s2.len() implies #[trigger] s2[i] != cur_dir() by {
                        if i < stack.len() {
                            assert(s2[i] == stack[i]);
                        }
                    }
                    assert forall|i: int, j: int|
                        0 <= j < i < s2.len() && #[trigger] s2[i] == parent_dir() implies #[trigger] s2[j]
                            == parent_dir() by {
                        assert(s2[j] == stack[j]);
                        if i < stack.len() {
                            assert(s2[i] == stack[i]);
                        } else {
                            assert(stack.last() == parent_dir());
                            assert(stack[stack.len() - 1] == parent_dir());
                            if j < stack.len() - 1 {
                                assert(stack[j] == parent_dir());
                            }
                        }
                    }
                }
                lemma_collapse_rel_normal(rest, s2);
            }
        } else {
            let s2 = stack.push(segs[0]);
            assert(rel_normal(s2)) by {
                assert forall|i: int| 0 <= i < s2.len() implies #[trigger] s2[i] != cur_dir() by {
                    if i < stack.len() {
                        assert(s2[i] == stack[i]);
                    }
                }
                assert forall|i: int, j: int|
                    0 <= j < i < s2.len() && #[trigger] s2[i] == parent_dir() implies #[trigger] s2[j]
                        == parent_dir() by {
                    assert(s2[j] == stack[j]);
                    assert(s2[i] == stack[i]);
                }
            }
            lemma_collapse_rel_normal(rest, s2);
        }
    }
}

/// A normal form collapses onto a stack by being appended to it, when the two
/// together are in normal form.
pub proof fn lemma_collapse_of_rel_normal(segs: Seq<Seq<char>>, stack: Seq<Seq<char>>)
    requires
        rel_normal(stack + segs),
    ensures
        collapse(segs, stack, false) == Some(stack + segs),
    decreases segs.len(),
{
    let all = stack + segs;
    if segs.len() == 0 {
        assert(all =~= stack);
    } else {
        assert(all[stack.len() as int] == segs[0]);
        assert(segs[0] != cur_dir());
        let s2 = stack.push(segs[0]);
        assert(s2 + segs.drop_first() =~= all);
        if segs[0] == parent_dir() && stack.len() > 0 {
            assert(all[stack.len() - 1] == parent_dir());
            assert(stack.last() == parent_dir());
        }
        lemma_collapse_of_rel_normal(segs.drop_first(), s2);
    }
}

/// The unbounded normal form is a fixed point of itself.
pub proof fn lemma_rel_normal_form_idempotent(segs: Seq<Seq<char>>)
    requires
        all_plain(segs),
    ensures
        normal_form(segs, false) is Some,
        all_plain(normal_form(segs, false)->0),
        rel_normal(normal_form(segs, false)->0),
        normal_form(normal_form(segs, false)->0, false) == normal_form(segs, false),
{
    let e = Seq::<Seq<char>>::empty();
    lemma_collapse_plain(segs, e, false);
    lemma_collapse_rel_normal(segs, e);
    let n = normal_form(segs, false)->0;
    assert(e + n =~= n);
    lemma_collapse_of_rel_normal(n, e);
}

/// Dropping the last segment keeps a sequence clean.
pub proof fn lemma_drop_last_clean(segs: Seq<Seq<char>>)
    requires
        clean(segs),
        segs.len() > 0,
    ensures
        clean(segs.drop_last()),
{
    let d = segs.drop_last();
    assert forall|i: int| 0 <= i < d.len() implies is_plain(#[trigger] d[i]) by {
        assert(d[i] == segs[i]);
    }
    if has_marker(d) {
        let i = choose|i: int| 0 <= i < d.len() && is_marker(#[trigger] d[i]);
        assert(is_marker(segs[i]));
    }
}

/// Plain segments followed by plain segments are plain.
pub proof fn lemma_all_plain_append(x: Seq<Seq<char>>, y: Seq<Seq<char>>)
    requires
        all_plain(x),
        all_plain(y),
    ensures
        all_plain(x + y),
{
    let s = x + y;
    assert forall|i: int| 0 <= i < s.len() implies is_plain(#[trigger] s[i]) by {
        if i < x.len() {
            assert(s[i] == x[i]);
        } else {
            assert(s[i] == y[i - x.len()]);
        }
    }
}

/// Clean segments followed by plain ones: a marker of the whole is one of the
/// latter.
pub proof fn lemma_append_marker(x: Seq<Seq<char>>, y: Seq<Seq<char>>)
    requires
        clean(x),
        all_plain(y),
    ensures
        all_plain(x + y),
        has_marker(x + y) == has_marker(y),
{
    let s = x + y;
    assert forall|i: int| 0 <= i < s.len() implies is_plain(#[trigger] s[i]) by {
        if i < x.len() {
            assert(s[i] == x[i]);
        } else {
            assert(s[i] == y[i - x.len()]);
        }
    }
    if has_marker(s) {
        let i = choose|i: int| 0 <= i < s.len() && is_marker(#[trigger] s[i]);
        if i < x.len() {
            assert(s[i] == x[i]);
        } else {
            assert(s[i] == y[i - x.len()]);
        }
    }
    if has_marker(y) {
        let i = choose|i: int| 0 <= i < y.len() && is_marker(#[trigger] y[i]);
        assert(s[i + x.len()] == y[i]);
    }
}

// ---------------------------------------------------------------------------
// Executable parts
// ---------------------------------------------------------------------------

/// The characters of `p`, in order.
pub fn text_chars(p: &str) -> (r: Vec<char>)
    ensures
        r@ == p@,
{
    let mut out: Vec<char> = Vec::new();
    for c in it: p.chars()
        invariant
            out@ == it.seq().take(it.index() as int),
    {
        out.push(c);
    }
    assert(out@ =~= p@);
    out
}

/// Whether the text `p` is rooted.
pub fn starts_with_root(p: &str) -> (r: bool)
    ensures
        r == has_root(p@),
{
    p.unicode_len() > 0 && p.get_char(0) == '/'
}

/// Whether the text `s` is exactly `.`.
pub fn is_cur_dir(s: &str) -> (r: bool)
    ensures
        r == (s@ == cur_dir()),
{
    let r = s.unicode_len() == 1 && s.get_char(0) == '.';
    if r {
        assert(s@ =~= cur_dir());
    }
    r
}

/// Whether the text `s` is exactly `..`.
pub fn is_parent_dir(s: &str) -> (r: bool)
    ensures
        r == (s@ == parent_dir()),
{
    let r = s.unicode_len() == 2 && s.get_char(0) == '.' && s.get_char(1) == '.';
    if r {
        assert(s@ =~= parent_dir());
    }
    r
}

/// The segments of the path text `p`, as slices of it.
pub fn split_segments<'a>(p: &'a str) -> (r: Vec<&'a str>)
    ensures
        seg_views(r@) == segments(p@),
{
    let cs = text_chars(p);
    let n = cs.len();
    let mut out: Vec<&'a str> = Vec::new();
    let mut start: usize = 0;
    let mut i: usize = 0;
    assert(p@.subrange(0, n as int) =~= p@);
    assert(p@.subrange(0, 0) =~= Seq::<char>::empty());
    assert(seg_views(out@) =~= Seq::empty());
    while i < n
        invariant
            cs@ == p@,
            n == cs.len(),
            start <= i <= n,
            seg_views(out@) + split_from(p@.subrange(i as int, n as int), p@.subrange(start as int, i as int))
                == segments(p@),
        decreases n - i,
    {
        let ghost rest = p@.subrange(i as int, n as int);
        let ghost cur = p@.subrange(start as int, i as int);
        assert(rest.drop_first() =~= p@.subrange(i + 1, n as int));
        assert(rest[0] == p@[i as int]);
        if cs[i] == '/' {
            let ghost before = seg_views(out@);
            if start < i {
                let s = p.substring_char(start, i);
                out.push(s);
                assert(seg_views(out@) =~= before + piece(cur));
            } else {
                assert(seg_views(out@) =~= before + piece(cur));
            }
            start = i + 1;
            assert(p@.subrange(start as int, i + 1) =~= Seq::<char>::empty());
        } else {
            assert(cur.push(p@[i as int]) =~= p@.subrange(start as int, i + 1));
        }
        i += 1;
    }
    let ghost cur = p@.subrange(start as int, n as int);
    assert(p@.subrange(n as int, n as int) =~= Seq::<char>::empty());
    let ghost before = seg_views(out@);
    if start < n {
        let s = p.substring_char(start, n);
        out.push(s);
    }
    assert(seg_views(out@) =~= before + piece(cur));
    out
}

/// Whether any of `segs` is `.` or `..`.
pub fn contains_marker(segs: &Vec<&str>) -> (r: bool)
    ensures
        r == has_marker(seg_views(segs@)),
{
    let mut i: usize = 0;
    while i < segs.len()
        invariant
            i <= segs.len(),
            forall|j: int| 0 <= j < i ==> !is_marker(#[trigger] seg_views(segs@)[j]),
        decreases segs.len() - i,
    {
        if is_cur_dir(segs[i]) || is_parent_dir(segs[i]) {
            assert(is_marker(seg_views(segs@)[i as int]));
            return true;
        }
        i += 1;
    }
    false
}

/// Collapses `segs` to their normal form, bounded or not (see `collapse`).
pub fn normalize<'a>(segs: &Vec<&'a str>, bounded: bool) -> (r: Option<Vec<&'a str>>)
    ensures
        normal_form(seg_views(segs@), bounded) == match r {
            Some(v) => Some(seg_views(v@)),
            None => None,
        },
{
    let ghost all = seg_views(segs@);
    let mut stack: Vec<&'a str> = Vec::new();
    let mut i: usize = 0;
    assert(all.skip(0) =~= all);
    assert(seg_views(stack@) =~= Seq::empty());
    while i < segs.len()
        invariant
            i <= segs.len(),
            all == seg_views(segs@),
            normal_form(all, bounded) == collapse(all.skip(i as int), seg_views(stack@), bounded),
        decreases segs.len() - i,
    {
        let ghost rest = all.skip(i as int);
        let ghost st = seg_views(stack@);
        assert(rest.drop_first() =~= all.skip(i + 1));
        assert(rest[0] == segs[i as int]@);
        let s = segs[i];
        if is_cur_dir(s) {
        } else if is_parent_dir(s) {
            let top_regular = if stack.len() > 0 {
                !is_parent_dir(stack[stack.len() - 1])
            } else {
                false
            };
            if top_regular {
                stack.pop();
                assert(seg_views(stack@) =~= st.drop_last());
            } else if bounded {
                return None;
            } else {
                stack.push(s);
                assert(seg_views(stack@) =~= st.push(s@));
            }
        } else {
            stack.push(s);
            assert(seg_views(stack@) =~= st.push(s@));
        }
        i += 1;
    }
    assert(all.skip(i as int) =~= Seq::empty());
    Some(stack)
}

/// The text of a path with segments `segs` (see `render`).
pub fn render_segments(segs: &Vec<&str>, root: bool) -> (r: String)
    ensures
        r@ == render(seg_views(segs@), root),
{
    let ghost all = seg_views(segs@);
    let mut out = String::new();
    let mut i: usize = 0;
    proof {
        reveal_strlit("/");
    }
    while i < segs.len()
        invariant
            i <= segs.len(),
            all == seg_views(segs@),
            root ==> out@ == slashed(all.take(i as int)),
            !root && i == 0 ==> out@ == Seq::<char>::empty(),
            !root && i > 0 ==> seq!['/'] + out@ == slashed(all.take(i as int)),
        decreases segs.len() - i,
    {
        assert(all.take(i + 1).drop_last() =~= all.take(i as int));
        assert(all.take(i + 1).last() == segs[i as int]@);
        let ghost prev = out@;
        proof {
            reveal_strlit("/");
        }
        if root || i > 0 {
            out.append("/");
        }
        out.append(segs[i]);
        if !root && i == 0 {
            assert(all.take(0) =~= Seq::empty());
            assert(seq!['/'] + out@ =~= slashed(all.take(i + 1)));
        } else if !root {
            assert(seq!['/'] + out@ =~= (seq!['/'] + prev) + seq!['/'] + segs[i as int]@);
        } else {
            assert(out@ =~= prev + seq!['/'] + segs[i as int]@);
        }
        i += 1;
    }
    assert(all.take(i as int) =~= all);
    if segs.len() == 0 {
        if root {
            out.append("/");
        }
        assert(out@ =~= render(all, root));
    } else if !root {
        assert((seq!['/'] + out@).drop_first() =~= out@);
    }
    out
}

/// The text of `rel` appended to `base` (see `joined`).
pub fn join_text(base: &str, rel: &str) -> (r: String)
    ensures
        r@ == joined(base@, rel@),
{
    let n = base.unicode_len();
    let mut out = String::from_str(base);
    proof {
        reveal_strlit("/");
    }
    if n > 0 && base.get_char(n - 1) != '/' {
        out.append("/");
    }
    out.append(rel);
    out
}

/// For a rooted text with at least one segment, the end of the text of its
/// parent: the position of the separator before its last segment, or `1` when
/// that is the leading one.
pub fn parent_end(p: &str) -> (r: Option<usize>)
    requires
        has_root(p@),
    ensures
        r is None <==> segments(p@).len() == 0,
        r matches Some(e) ==> 0 < e <= p@.len() && has_root(p@.take(e as int)) && segments(
            p@.take(e as int),
        ) == segments(p@).drop_last(),
{
    let cs = text_chars(p);
    let n = cs.len();
    // skip the trailing separators
    let mut j: usize = n;
    while j > 0 && cs[j - 1] == '/'
        invariant
            j <= n,
            cs@ == p@,
            n == cs.len(),
            forall|k: int| j <= k < n ==> is_sep(#[trigger] p@[k]),
        decreases j,
    {
        j -= 1;
    }
    if j == 0 {
        // nothing but separators
        proof {
            lemma_all_sep_no_segments(p@, Seq::empty());
        }
        return None;
    }
    // skip the last segment
    let mut k: usize = j;
    while k > 0 && cs[k - 1] != '/'
        invariant
            k <= j,
            j <= n,
            cs@ == p@,
            n == cs.len(),
            forall|m: int| k <= m < j ==> !is_sep(#[trigger] p@[m]),
        decreases k,
    {
        k -= 1;
    }
    // p[0] is a separator, so the scan stopped at one
    assert(k > 0);
    let i = k - 1;
    proof {
        let a = p@.take(i as int);
        let last = p@.subrange(k as int, j as int);
        let tail = p@.subrange(j as int, n as int);
        assert(p@ =~= a + seq!['/'] + (last + tail));
        lemma_split_at_sep(a, last + tail, Seq::empty());
        assert(sep_free(last));
        lemma_split_sep_free(last, tail, Seq::empty());
        lemma_all_sep_no_segments(tail, Seq::empty() + last);
        assert(Seq::<char>::empty() + last =~= last);
        assert(split_from(last + tail, Seq::empty()) =~= seq![last]);
        assert(segments(p@).drop_last() =~= segments(a));
        if i == 0 {
            lemma_split_at_sep(Seq::empty(), Seq::empty(), Seq::empty());
            assert(Seq::<char>::empty() + seq!['/'] + Seq::<char>::empty() =~= p@.take(1));
            assert(segments(a) =~= Seq::empty());
            assert(segments(p@.take(1)) =~= Seq::empty());
        } else {
            assert(a[0] == p@[0]);
        }
    }
    if i == 0 {
        Some(1)
    } else {
        Some(i)
    }
}

/// A text of separators only adds no segment but the unfinished one.
pub proof fn lemma_all_sep_no_segments(p: Seq<char>, cur: Seq<char>)
    requires
        forall|k: int| 0 <= k < p.len() ==> is_sep(#[trigger] p[k]),
    ensures
        split_from(p, cur) == piece(cur),
    decreases p.len(),
{
    if p.len() > 0 {
        assert(is_sep(p[0]));
        let rest = p.drop_first();
        assert forall|k: int| 0 <= k < rest.len() implies is_sep(#[trigger] rest[k]) by {
            assert(rest[k] == p[k + 1]);
        }
        lemma_all_sep_no_segments(rest, Seq::empty());
        assert(piece(Seq::<char>::empty()) =~= Seq::empty());
        assert(piece(cur) + Seq::<Seq<char>>::empty() =~= piece(cur));
    }
}

} // verus!
