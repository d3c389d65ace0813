//! Absolute paths: rooted, and free of `.` and `..` segments.
use vstd::prelude::*;

use crate::components::{
    clean, contains_marker, has_marker, has_root, join_text, joined, lemma_drop_last_clean,
    lemma_joined_segments, lemma_render_round_trip, lemma_rooted_normal_form_clean,
    lemma_segments_plain, normalize, parent_end, render, render_segments, rooted_normal_form,
    seg_views, segments, split_segments, starts_with_root,
};
use crate::errors::{
    AbsoluteJoinError, AbsolutePathBufNewError, AbsolutePathNewError, JoinedAbsolute,
    NormalizationFailed, NotAbsolute, WasNotNormalized,
};
use crate::relative::RelativePath;

verus! {

broadcast use vstd::string::group_string_axioms;

/// The text of an absolute path: rooted, and without `.` or `..` segments.
pub open spec fn is_absolute_text(p: Seq<char>) -> bool {
    has_root(p) && !has_marker(segments(p))
}

/// A borrowed absolute path. It refers to text that some other value owns, and
/// keeps that text as it was given.
#[derive(Clone, Copy, Debug, PartialEq, Eq, Hash)]
pub struct AbsolutePath<'a> {
    path: &'a str,
}

impl<'a> AbsolutePath<'a> {
    #[verifier::type_invariant]
    spec fn inv(self) -> bool {
        is_absolute_text(self.path@)
    }

    /// The text this path refers to.
    pub closed spec fn text(self) -> Seq<char> {
        self.path@
    }

    /// Wraps text already known to be an absolute path.
    pub(crate) fn new_unchecked(path: &'a str) -> (r: Self)
        requires
            is_absolute_text(path@),
        ensures
            r.text() == path@,
            r@ == segments(path@),
    {
        AbsolutePath { path }
    }

    /// Checks that `path` is absolute and holds no `.` or `..` segment, and
    /// borrows it as it is.
    pub fn try_new(path: &'a str) -> (r: Result<Self, AbsolutePathNewError>)
        ensures
            match r {
                Ok(a) => is_absolute_text(path@) && a.text() == path@ && a@ == segments(path@),
                Err(AbsolutePathNewError::NotAbsolute(e)) => !has_root(path@) && e.0@ == path@,
                Err(AbsolutePathNewError::WasNotNormalized(e)) => has_root(path@) && has_marker(
                    segments(path@),
                ) && e.0@ == path@,
            },
    {
        if !starts_with_root(path) {
            return Err(AbsolutePathNewError::NotAbsolute(NotAbsolute(path.to_owned())));
        }
        let segs = split_segments(path);
        if contains_marker(&segs) {
            return Err(AbsolutePathNewError::WasNotNormalized(WasNotNormalized(path.to_owned())));
        }
        Ok(AbsolutePath { path })
    }

    /// The text of this path, as it was given.
    pub fn as_path(&self) -> (r: &'a str)
        ensures
            r@ == self.text(),
            is_absolute_text(r@),
            segments(r@) == self@,
            clean(self@),
    {
        proof {
            use_type_invariant(self);
            lemma_segments_plain(self.path@);
        }
        self.path
    }

    /// Joins `path` onto this path and normalizes the result. `path` must be
    /// relative, and its `..` segments must not climb above the root.
    pub fn join(&self, path: &str) -> (r: Result<AbsolutePathBuf, AbsoluteJoinError>)
        ensures
            match r {
                Ok(b) => !has_root(path@) && rooted_normal_form(self@ + segments(path@)) == Some(
                    b@,
                ),
                Err(AbsoluteJoinError::JoinedAbsolute(e)) => has_root(path@) && e.0@ == self.text()
                    && e.1@ == path@,
                Err(AbsoluteJoinError::NormalizationFailed(e)) => !has_root(path@)
                    && rooted_normal_form(self@ + segments(path@)) is None && e.0@ == joined(
                    self.text(),
                    path@,
                ),
            },
    {
        let base = self.as_path();
        join_checked(base, path)
    }

    /// Joins a relative path onto this path and normalizes the result; fails
    /// where its `..` segments climb above the root.
    pub fn join_relative(&self, path: &RelativePath) -> (r: Result<
        AbsolutePathBuf,
        NormalizationFailed,
    >)
        ensures
            match r {
                Ok(b) => rooted_normal_form(self@ + path@) == Some(b@),
                Err(e) => rooted_normal_form(self@ + path@) is None && e.0@ == joined(
                    self.text(),
                    path.text(),
                ),
            },
    {
        let base = self.as_path();
        let rel = path.as_path();
        join_normalized(base, rel)
    }

    /// This path without its last segment; `None` for the root.
    pub fn parent(&self) -> (r: Option<AbsolutePath<'a>>)
        ensures
            r is None <==> self@.len() == 0,
            r matches Some(p) ==> p@ == self@.drop_last(),
    {
        let base = self.as_path();
        parent_of(base)
    }

    /// An owned copy of this path, in its canonical text.
    pub fn to_path_buf(&self) -> (r: AbsolutePathBuf)
        ensures
            r@ == self@,
    {
        let base = self.as_path();
        let segs = split_segments(base);
        proof {
            lemma_render_round_trip(seg_views(segs@), true);
        }
        AbsolutePathBuf { path: render_segments(&segs, true) }
    }
}

impl<'a> View for AbsolutePath<'a> {
    type V = Seq<Seq<char>>;

    /// The segments of the path.
    closed spec fn view(&self) -> Seq<Seq<char>> {
        segments(self.path@)
    }
}

/// The parent of the absolute path text `base`, as a part of it.
fn parent_of<'a>(base: &'a str) -> (r: Option<AbsolutePath<'a>>)
    requires
        is_absolute_text(base@),
    ensures
        r is None <==> segments(base@).len() == 0,
        r matches Some(p) ==> p@ == segments(base@).drop_last(),
{
    match parent_end(base) {
        None => None,
        Some(e) => {
            let p = base.substring_char(0, e);
            proof {
                assert(p@ =~= base@.take(e as int));
                lemma_segments_plain(base@);
                lemma_drop_last_clean(segments(base@));
            }
            Some(AbsolutePath::new_unchecked(p))
        },
    }
}

/// Joins `rel` onto the absolute path text `base`, refusing a rooted `rel`.
fn join_checked(base: &str, rel: &str) -> (r: Result<AbsolutePathBuf, AbsoluteJoinError>)
    requires
        is_absolute_text(base@),
    ensures
        match r {
            Ok(b) => !has_root(rel@) && rooted_normal_form(segments(base@) + segments(rel@))
                == Some(b@),
            Err(AbsoluteJoinError::JoinedAbsolute(e)) => has_root(rel@) && e.0@ == base@ && e.1@
                == rel@,
            Err(AbsoluteJoinError::NormalizationFailed(e)) => !has_root(rel@) && rooted_normal_form(
                segments(base@) + segments(rel@),
            ) is None && e.0@ == joined(base@, rel@),
        },
{
    if starts_with_root(rel) {
        return Err(
            AbsoluteJoinError::JoinedAbsolute(JoinedAbsolute(base.to_owned(), rel.to_owned())),
        );
    }
    match join_normalized(base, rel) {
        Ok(b) => Ok(b),
        Err(e) => Err(AbsoluteJoinError::NormalizationFailed(e)),
    }
}

/// Joins `rel` onto the absolute path text `base` and normalizes the result.
fn join_normalized(base: &str, rel: &str) -> (r: Result<AbsolutePathBuf, NormalizationFailed>)
    requires
        is_absolute_text(base@),
    ensures
        match r {
            Ok(b) => rooted_normal_form(segments(base@) + segments(rel@)) == Some(b@),
            Err(e) => rooted_normal_form(segments(base@) + segments(rel@)) is None && e.0@ == joined(
                base@,
                rel@,
            ),
        },
{
    let text = join_text(base, rel);
    proof {
        lemma_joined_segments(base@, rel@);
    }
    match AbsolutePathBuf::try_new(text.as_str()) {
        Ok(b) => Ok(b),
        Err(AbsolutePathBufNewError::NormalizationFailed(e)) => Err(e),
        Err(AbsolutePathBufNewError::NotAbsolute(e)) => {
            // the joined text starts with the base's root
            proof {
                assert(false);
            }
            Err(NormalizationFailed(e.0))
        },
    }
}

/// An owned absolute path, kept in canonical text: a `/` before each segment,
/// or `/` alone for the root.
#[derive(Debug, PartialEq, Eq, Hash)]
pub struct AbsolutePathBuf {
    path: String,
}

impl AbsolutePathBuf {
    #[verifier::type_invariant]
    spec fn inv(self) -> bool {
        &&& clean(segments(self.path@))
        &&& self.path@ == render(segments(self.path@), true)
    }

    /// Normalizes `path` into an absolute path. Fails where `path` is not
    /// rooted, or where it holds `.` or `..` and collapsing them climbs above the
    /// root or leaves nothing but the root.
    pub fn try_new(path: &str) -> (r: Result<Self, AbsolutePathBufNewError>)
        ensures
            match r {
                Ok(b) => has_root(path@) && rooted_normal_form(segments(path@)) == Some(b@),
                Err(AbsolutePathBufNewError::NotAbsolute(e)) => !has_root(path@) && e.0@ == path@,
                Err(AbsolutePathBufNewError::NormalizationFailed(e)) => has_root(path@)
                    && rooted_normal_form(segments(path@)) is None && e.0@ == path@,
            },
    {
        if !starts_with_root(path) {
            return Err(AbsolutePathBufNewError::NotAbsolute(NotAbsolute(path.to_owned())));
        }
        let segs = split_segments(path);
        proof {
            lemma_segments_plain(path@);
            lemma_rooted_normal_form_clean(seg_views(segs@));
        }
        let kept = if !contains_marker(&segs) {
            segs
        } else {
            match normalize(&segs, true) {
                Some(n) => {
                    if n.len() == 0 {
                        return Err(
                            AbsolutePathBufNewError::NormalizationFailed(
                                NormalizationFailed(path.to_owned()),
                            ),
                        );
                    }
                    n
                },
                None => {
                    return Err(
                        AbsolutePathBufNewError::NormalizationFailed(
                            NormalizationFailed(path.to_owned()),
                        ),
                    );
                },
            }
        };
        proof {
            lemma_render_round_trip(seg_views(kept@), true);
        }
        Ok(AbsolutePathBuf { path: render_segments(&kept, true) })
    }

    /// The canonical text of this path.
    pub fn as_path(&self) -> (r: &str)
        ensures
            r@ == render(self@, true),
            is_absolute_text(r@),
            segments(r@) == self@,
            clean(self@),
    {
        proof {
            use_type_invariant(self);
            lemma_render_round_trip(segments(self.path@), true);
        }
        self.path.as_str()
    }

    /// This path, borrowed.
    pub fn as_absolute_path(&self) -> (r: AbsolutePath<'_>)
        ensures
            r@ == self@,
            r.text() == render(self@, true),
    {
        let p = self.as_path();
        AbsolutePath::new_unchecked(p)
    }

    /// Joins `path` onto this path and normalizes the result. `path` must be
    /// relative, and its `..` segments must not climb above the root.
    pub fn join(&self, path: &str) -> (r: Result<Self, AbsoluteJoinError>)
        ensures
            match r {
                Ok(b) => !has_root(path@) && rooted_normal_form(self@ + segments(path@)) == Some(
                    b@,
                ),
                Err(AbsoluteJoinError::JoinedAbsolute(e)) => has_root(path@) && e.0@ == render(
                    self@,
                    true,
                ) && e.1@ == path@,
                Err(AbsoluteJoinError::NormalizationFailed(e)) => !has_root(path@)
                    && rooted_normal_form(self@ + segments(path@)) is None && e.0@ == joined(
                    render(self@, true),
                    path@,
                ),
            },
    {
        let base = self.as_path();
        join_checked(base, path)
    }

    /// Joins a relative path onto this path and normalizes the result; fails
    /// where its `..` segments climb above the root.
    pub fn join_relative(&self, path: &RelativePath) -> (r: Result<Self, NormalizationFailed>)
        ensures
            match r {
                Ok(b) => rooted_normal_form(self@ + path@) == Some(b@),
                Err(e) => rooted_normal_form(self@ + path@) is None && e.0@ == joined(
                    render(self@, true),
                    path.text(),
                ),
            },
    {
        let base = self.as_path();
        let rel = path.as_path();
        join_normalized(base, rel)
    }

    /// This path without its last segment; `None` for the root.
    pub fn parent(&self) -> (r: Option<AbsolutePath<'_>>)
        ensures
            r is None <==> self@.len() == 0,
            r matches Some(p) ==> p@ == self@.drop_last(),
    {
        let base = self.as_path();
        parent_of(base)
    }
}

impl View for AbsolutePathBuf {
    type V = Seq<Seq<char>>;

    /// The segments of the path.
    closed spec fn view(&self) -> Seq<Seq<char>> {
        segments(self.path@)
    }
}

impl Clone for AbsolutePathBuf {
    fn clone(&self) -> (r: Self)
        ensures
            r@ == self@,
    {
        proof {
            use_type_invariant(self);
        }
        AbsolutePathBuf { path: self.path.clone() }
    }
}

impl core::str::FromStr for AbsolutePathBuf {
    type Err = AbsolutePathBufNewError;

    fn from_str(s: &str) -> Result<Self, AbsolutePathBufNewError> {
        AbsolutePathBuf::try_new(s)
    }
}

} // verus!
