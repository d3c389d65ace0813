//! Relative paths: not rooted. The borrowed form keeps its text as given; the
//! owned form collapses `.` and `..` lexically, with no root to bound it.
use vstd::prelude::*;

use crate::absolute::{AbsolutePath, AbsolutePathBuf};
use crate::components::{
    has_root, join_text, joined, lemma_joined_segments, lemma_rel_normal_form_idempotent,
    lemma_render_round_trip, lemma_segments_plain, normal_form, normalize, render,
    render_segments, rooted_normal_form, seg_views, segments, split_segments, starts_with_root,
};
use crate::errors::{JoinedAbsolute, NormalizationFailed, NotRelative};

verus! {

broadcast use vstd::string::group_string_axioms;

/// A borrowed relative path. Its text is kept as given, `.` and `..` included:
/// they are collapsed once it is joined onto an absolute path.
#[derive(Clone, Copy, Debug, PartialEq, Eq, Hash)]
pub struct RelativePath<'a> {
    path: &'a str,
}

impl<'a> RelativePath<'a> {
    #[verifier::type_invariant]
    spec fn inv(self) -> bool {
        !has_root(self.path@)
    }

    /// The text this path refers to.
    pub closed spec fn text(self) -> Seq<char> {
        self.path@
    }

    /// Checks that `path` is not rooted, and borrows it as it is.
    pub fn try_new(path: &'a str) -> (r: Result<Self, NotRelative>)
        ensures
            match r {
                Ok(p) => !has_root(path@) && p.text() == path@ && p@ == segments(path@),
                Err(e) => has_root(path@) && e.0@ == path@,
            },
    {
        if starts_with_root(path) {
            Err(NotRelative(path.to_owned()))
        } else {
            Ok(RelativePath { path })
        }
    }

    /// Wraps text already known not to be rooted.
    pub(crate) fn new_unchecked(path: &'a str) -> (r: Self)
        requires
            !has_root(path@),
        ensures
            r.text() == path@,
            r@ == segments(path@),
    {
        RelativePath { path }
    }

    /// The text of this path, as it was given.
    pub fn as_path(&self) -> (r: &'a str)
        ensures
            r@ == self.text(),
            !has_root(r@),
            segments(r@) == self@,
    {
        proof {
            use_type_invariant(self);
        }
        self.path
    }

    /// Joins `path` onto this path, collapsing `.` and `..` in the result.
    /// `path` must be relative.
    pub fn join(&self, path: &str) -> (r: Result<RelativePathBuf, JoinedAbsolute>)
        ensures
            match r {
                Ok(b) => !has_root(path@) && normal_form(self@ + segments(path@), false) == Some(
                    b@,
                ),
                Err(e) => has_root(path@) && e.0@ == self.text() && e.1@ == path@,
            },
    {
        let base = self.as_path();
        join_relative_texts(base, path)
    }

    /// Joins this path onto `abs` and normalizes the result; fails where its
    /// `..` segments climb above the root.
    pub fn try_into_absolute(&self, abs: &AbsolutePath) -> (r: Result<
        AbsolutePathBuf,
        NormalizationFailed,
    >)
        ensures
            match r {
                Ok(b) => rooted_normal_form(abs@ + self@) == Some(b@),
                Err(e) => rooted_normal_form(abs@ + self@) is None && e.0@ == joined(
                    abs.text(),
                    self.text(),
                ),
            },
    {
        abs.join_relative(self)
    }

    /// An owned copy of this path, collapsed.
    pub fn to_path_buf(&self) -> (r: RelativePathBuf)
        ensures
            normal_form(self@, false) == Some(r@),
    {
        collapsed(self.as_path())
    }
}

/// The relative path text `path`, with its `.` and `..` segments collapsed.
fn collapsed(path: &str) -> (r: RelativePathBuf)
    requires
        !has_root(path@),
    ensures
        normal_form(segments(path@), false) == Some(r@),
{
    let segs = split_segments(path);
    proof {
        lemma_segments_plain(path@);
        lemma_rel_normal_form_idempotent(seg_views(segs@));
    }
    match normalize(&segs, false) {
        Some(n) => {
            proof {
                lemma_render_round_trip(seg_views(n@), false);
            }
            RelativePathBuf { path: render_segments(&n, false) }
        },
        None => {
            // an unbounded collapse does not fail
            proof {
                assert(false);
            }
            RelativePathBuf { path: String::new() }
        },
    }
}

impl<'a> View for RelativePath<'a> {
    type V = Seq<Seq<char>>;

    /// The segments of the path, `.` and `..` included.
    closed spec fn view(&self) -> Seq<Seq<char>> {
        segments(self.path@)
    }
}

/// Joins the text `rel` onto the relative path text `base`, refusing a rooted
/// `rel`, and collapses the result.
fn join_relative_texts(base: &str, rel: &str) -> (r: Result<RelativePathBuf, JoinedAbsolute>)
    requires
        !has_root(base@),
    ensures
        match r {
            Ok(b) => !has_root(rel@) && normal_form(segments(base@) + segments(rel@), false)
                == Some(b@),
            Err(e) => has_root(rel@) && e.0@ == base@ && e.1@ == rel@,
        },
{
    if starts_with_root(rel) {
        return Err(JoinedAbsolute(base.to_owned(), rel.to_owned()));
    }
    let text = join_text(base, rel);
    proof {
        lemma_joined_segments(base@, rel@);
        if base@.len() == 0 {
            assert(joined(base@, rel@) =~= rel@);
        } else {
            assert(joined(base@, rel@)[0] == base@[0]);
        }
    }
    match RelativePathBuf::try_new(text.as_str()) {
        Ok(b) => Ok(b),
        Err(e) => {
            // neither part is rooted, so neither is the joined text
            proof {
                assert(false);
            }
            Err(JoinedAbsolute(e.0, rel.to_owned()))
        },
    }
}

/// An owned relative path, kept collapsed and in canonical text: its segments
/// with a `/` between each two, and the empty text for no segment.
#[derive(Debug, PartialEq, Eq, Hash)]
pub struct RelativePathBuf {
    path: String,
}

impl RelativePathBuf {
    #[verifier::type_invariant]
    spec fn inv(self) -> bool {
        &&& !has_root(self.path@)
        &&& self.path@ == render(segments(self.path@), false)
        &&& normal_form(segments(self.path@), false) == Some(segments(self.path@))
    }

    /// Makes a relative path of `path`, collapsing its `.` and `..` segments.
    /// Fails where `path` is rooted.
    pub fn try_new(path: &str) -> (r: Result<Self, NotRelative>)
        ensures
            match r {
                Ok(b) => !has_root(path@) && normal_form(segments(path@), false) == Some(b@),
                Err(e) => has_root(path@) && e.0@ == path@,
            },
    {
        if starts_with_root(path) {
            return Err(NotRelative(path.to_owned()));
        }
        Ok(collapsed(path))
    }

    /// The canonical text of this path.
    pub fn as_path(&self) -> (r: &str)
        ensures
            r@ == render(self@, false),
            !has_root(r@),
            segments(r@) == self@,
            normal_form(self@, false) == Some(self@),
    {
        proof {
            use_type_invariant(self);
        }
        self.path.as_str()
    }

    /// This path, borrowed.
    pub fn as_relative_path(&self) -> (r: RelativePath<'_>)
        ensures
            r@ == self@,
            r.text() == render(self@, false),
    {
        let p = self.as_path();
        RelativePath::new_unchecked(p)
    }

    /// Joins `path` onto this path, collapsing `.` and `..` in the result.
    /// `path` must be relative.
    pub fn join(&self, path: &str) -> (r: Result<Self, JoinedAbsolute>)
        ensures
            match r {
                Ok(b) => !has_root(path@) && normal_form(self@ + segments(path@), false) == Some(
                    b@,
                ),
                Err(e) => has_root(path@) && e.0@ == render(self@, false) && e.1@ == path@,
            },
    {
        let base = self.as_path();
        join_relative_texts(base, path)
    }

    /// Joins this path onto `abs` and normalizes the result; fails where its
    /// `..` segments climb above the root.
    pub fn try_into_absolute(&self, abs: &AbsolutePath) -> (r: Result<
        AbsolutePathBuf,
        NormalizationFailed,
    >)
        ensures
            match r {
                Ok(b) => rooted_normal_form(abs@ + self@) == Some(b@),
                Err(e) => rooted_normal_form(abs@ + self@) is None && e.0@ == joined(
                    abs.text(),
                    render(self@, false),
                ),
            },
    {
        let rel = self.as_relative_path();
        abs.join_relative(&rel)
    }
}

impl Clone for RelativePathBuf {
    fn clone(&self) -> (r: Self)
        ensures
            r@ == self@,
    {
        proof {
            use_type_invariant(self);
        }
        RelativePathBuf { path: self.path.clone() }
    }
}

impl View for RelativePathBuf {
    type V = Seq<Seq<char>>;

    /// The segments of the path, collapsed.
    closed spec fn view(&self) -> Seq<Seq<char>> {
        segments(self.path@)
    }
}

} // verus!
