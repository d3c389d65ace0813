//! Combined paths: either a relative or an absolute path, told apart once, at
//! construction, by whether the text is rooted.
use vstd::prelude::*;

use crate::absolute::{is_absolute_text, AbsolutePath, AbsolutePathBuf};
use crate::components::{
    has_marker, has_root, joined, normal_form, render, rooted_normal_form, segments,
    starts_with_root,
};
use crate::errors::{
    AbsolutePathBufNewError, AbsolutePathNewError, CombinedJoinError, NormalizationFailed,
    WasNotNormalized,
};
use crate::relative::{RelativePath, RelativePathBuf};

verus! {

/// A borrowed path that is relative or absolute.
#[derive(Clone, Copy, Debug, PartialEq, Eq, Hash)]
pub enum CombinedPath<'a> {
    Relative(RelativePath<'a>),
    Absolute(AbsolutePath<'a>),
}

impl<'a> CombinedPath<'a> {
    /// The text this path refers to.
    pub open spec fn text(self) -> Seq<char> {
        match self {
            CombinedPath::Relative(p) => p.text(),
            CombinedPath::Absolute(a) => a.text(),
        }
    }

    /// Borrows `path` as an absolute path where it is rooted, and as a relative
    /// one where it is not. A rooted `path` must hold no `.` or `..` segment.
    pub fn try_new(path: &'a str) -> (r: Result<Self, WasNotNormalized>)
        ensures
            match r {
                Ok(CombinedPath::Absolute(a)) => is_absolute_text(path@) && a.text() == path@
                    && a@ == segments(path@),
                Ok(CombinedPath::Relative(p)) => !has_root(path@) && p.text() == path@ && p@
                    == segments(path@),
                Err(e) => has_root(path@) && has_marker(segments(path@)) && e.0@ == path@,
            },
    {
        if starts_with_root(path) {
            match AbsolutePath::try_new(path) {
                Ok(a) => Ok(CombinedPath::Absolute(a)),
                Err(AbsolutePathNewError::WasNotNormalized(e)) => Err(e),
                Err(AbsolutePathNewError::NotAbsolute(e)) => {
                    // `path` was found rooted above
                    proof {
                        assert(false);
                    }
                    Err(WasNotNormalized(e.0))
                },
            }
        } else {
            match RelativePath::try_new(path) {
                Ok(p) => Ok(CombinedPath::Relative(p)),
                Err(e) => {
                    // `path` was found not rooted above
                    proof {
                        assert(false);
                    }
                    Err(WasNotNormalized(e.0))
                },
            }
        }
    }

    /// The text of this path, as it was given.
    pub fn as_path(&self) -> (r: &'a str)
        ensures
            r@ == self.text(),
    {
        match self {
            CombinedPath::Relative(p) => p.as_path(),
            CombinedPath::Absolute(a) => a.as_path(),
        }
    }

    /// This path as an owned absolute path: a copy where it is absolute, and
    /// otherwise the relative path joined onto `resolve_against` and normalized.
    pub fn try_into_absolute(&self, resolve_against: &AbsolutePath) -> (r: Result<
        AbsolutePathBuf,
        NormalizationFailed,
    >)
        ensures
            match self {
                CombinedPath::Absolute(a) => r matches Ok(b) && b@ == a@,
                CombinedPath::Relative(p) => match r {
                    Ok(b) => rooted_normal_form(resolve_against@ + p@) == Some(b@),
                    Err(e) => rooted_normal_form(resolve_against@ + p@) is None && e.0@ == joined(
                        resolve_against.text(),
                        p.text(),
                    ),
                },
            },
    {
        match self {
            CombinedPath::Relative(p) => p.try_into_absolute(resolve_against),
            CombinedPath::Absolute(a) => Ok(a.to_path_buf()),
        }
    }

    /// Joins `path` onto this path: onto an absolute one with normalization,
    /// onto a relative one with lexical collapsing. `path` must be relative.
    pub fn join(&self, path: &str) -> (r: Result<CombinedPathBuf, CombinedJoinError>)
        ensures
            match self {
                CombinedPath::Absolute(a) => match r {
                    Ok(CombinedPathBuf::Absolute(b)) => !has_root(path@) && rooted_normal_form(
                        a@ + segments(path@),
                    ) == Some(b@),
                    Ok(CombinedPathBuf::Relative(_)) => false,
                    Err(CombinedJoinError::JoinedAbsolute(e)) => has_root(path@) && e.0@
                        == a.text() && e.1@ == path@,
                    Err(CombinedJoinError::NormalizationFailed(e)) => !has_root(path@)
                        && rooted_normal_form(a@ + segments(path@)) is None && e.0@ == joined(
                        a.text(),
                        path@,
                    ),
                },
                CombinedPath::Relative(p) => match r {
                    Ok(CombinedPathBuf::Relative(b)) => !has_root(path@) && normal_form(
                        p@ + segments(path@),
                        false,
                    ) == Some(b@),
                    Ok(CombinedPathBuf::Absolute(_)) => false,
                    Err(CombinedJoinError::JoinedAbsolute(e)) => has_root(path@) && e.0@
                        == p.text() && e.1@ == path@,
                    Err(CombinedJoinError::NormalizationFailed(_)) => false,
                },
            },
    {
        match self {
            CombinedPath::Absolute(a) => match a.join(path) {
                Ok(b) => Ok(CombinedPathBuf::Absolute(b)),
                Err(e) => Err(CombinedJoinError::from(e)),
            },
            CombinedPath::Relative(p) => match p.join(path) {
                Ok(b) => Ok(CombinedPathBuf::Relative(b)),
                Err(e) => Err(CombinedJoinError::JoinedAbsolute(e)),
            },
        }
    }

    pub fn is_relative(&self) -> (r: bool)
        ensures
            r == (self is Relative),
    {
        match self {
            CombinedPath::Relative(_) => true,
            CombinedPath::Absolute(_) => false,
        }
    }

    pub fn is_absolute(&self) -> (r: bool)
        ensures
            r == (self is Absolute),
    {
        match self {
            CombinedPath::Relative(_) => false,
            CombinedPath::Absolute(_) => true,
        }
    }

    /// An owned copy of this path: the absolute one in canonical text, the
    /// relative one collapsed.
    pub fn to_path_buf(&self) -> (r: CombinedPathBuf)
        ensures
            match (*self, r) {
                (CombinedPath::Absolute(a), CombinedPathBuf::Absolute(b)) => b@ == a@,
                (CombinedPath::Relative(p), CombinedPathBuf::Relative(b)) => normal_form(
                    p@,
                    false,
                ) == Some(b@),
                _ => false,
            },
    {
        match self {
            CombinedPath::Absolute(a) => CombinedPathBuf::Absolute(a.to_path_buf()),
            CombinedPath::Relative(p) => CombinedPathBuf::Relative(p.to_path_buf()),
        }
    }
}

/// An owned path that is relative or absolute.
#[derive(Clone, Debug, PartialEq, Eq, Hash)]
pub enum CombinedPathBuf {
    Relative(RelativePathBuf),
    Absolute(AbsolutePathBuf),
}

impl CombinedPathBuf {
    /// Makes an absolute path of `path` where it is rooted, normalizing it, and
    /// a collapsed relative path where it is not. Fails where `path` is rooted
    /// and normalizing it climbs above the root or leaves nothing but the root.
    pub fn try_new(path: &str) -> (r: Result<Self, NormalizationFailed>)
        ensures
            match r {
                Ok(CombinedPathBuf::Absolute(b)) => has_root(path@) && rooted_normal_form(
                    segments(path@),
                ) == Some(b@),
                Ok(CombinedPathBuf::Relative(b)) => !has_root(path@) && normal_form(
                    segments(path@),
                    false,
                ) == Some(b@),
                Err(e) => has_root(path@) && rooted_normal_form(segments(path@)) is None && e.0@
                    == path@,
            },
    {
        if starts_with_root(path) {
            match AbsolutePathBuf::try_new(path) {
                Ok(b) => Ok(CombinedPathBuf::Absolute(b)),
                Err(AbsolutePathBufNewError::NormalizationFailed(e)) => Err(e),
                Err(AbsolutePathBufNewError::NotAbsolute(e)) => {
                    // `path` was found rooted above
                    proof {
                        assert(false);
                    }
                    Err(NormalizationFailed(e.0))
                },
            }
        } else {
            match RelativePathBuf::try_new(path) {
                Ok(b) => Ok(CombinedPathBuf::Relative(b)),
                Err(e) => {
                    // `path` was found not rooted above
                    proof {
                        assert(false);
                    }
                    Err(NormalizationFailed(e.0))
                },
            }
        }
    }

    /// The canonical text of this path.
    pub fn as_path(&self) -> (r: &str)
        ensures
            r@ == match self {
                CombinedPathBuf::Relative(b) => render(b@, false),
                CombinedPathBuf::Absolute(b) => render(b@, true),
            },
    {
        match self {
            CombinedPathBuf::Relative(b) => b.as_path(),
            CombinedPathBuf::Absolute(b) => b.as_path(),
        }
    }

    /// This path as an owned absolute path: a copy where it is absolute, and
    /// otherwise the relative path joined onto `resolve_against` and normalized.
    pub fn try_into_absolute(&self, resolve_against: &AbsolutePath) -> (r: Result<
        AbsolutePathBuf,
        NormalizationFailed,
    >)
        ensures
            match self {
                CombinedPathBuf::Absolute(a) => r matches Ok(b) && b@ == a@,
                CombinedPathBuf::Relative(p) => match r {
                    Ok(b) => rooted_normal_form(resolve_against@ + p@) == Some(b@),
                    Err(e) => rooted_normal_form(resolve_against@ + p@) is None && e.0@ == joined(
                        resolve_against.text(),
                        render(p@, false),
                    ),
                },
            },
    {
        match self {
            CombinedPathBuf::Relative(p) => p.try_into_absolute(resolve_against),
            CombinedPathBuf::Absolute(a) => Ok(a.clone()),
        }
    }

    /// Joins `path` onto this path: onto an absolute one with normalization,
    /// onto a relative one with lexical collapsing. `path` must be relative.
    pub fn join(&self, path: &str) -> (r: Result<CombinedPathBuf, CombinedJoinError>)
        ensures
            match self {
                CombinedPathBuf::Absolute(a) => match r {
                    Ok(CombinedPathBuf::Absolute(b)) => !has_root(path@) && rooted_normal_form(
                        a@ + segments(path@),
                    ) == Some(b@),
                    Ok(CombinedPathBuf::Relative(_)) => false,
                    Err(CombinedJoinError::JoinedAbsolute(e)) => has_root(path@) && e.0@
                        == render(a@, true) && e.1@ == path@,
                    Err(CombinedJoinError::NormalizationFailed(e)) => !has_root(path@)
                        && rooted_normal_form(a@ + segments(path@)) is None && e.0@ == joined(
                        render(a@, true),
                        path@,
                    ),
                },
                CombinedPathBuf::Relative(p) => match r {
                    Ok(CombinedPathBuf::Relative(b)) => !has_root(path@) && normal_form(
                        p@ + segments(path@),
                        false,
                    ) == Some(b@),
                    Ok(CombinedPathBuf::Absolute(_)) => false,
                    Err(CombinedJoinError::JoinedAbsolute(e)) => has_root(path@) && e.0@
                        == render(p@, false) && e.1@ == path@,
                    Err(CombinedJoinError::NormalizationFailed(_)) => false,
                },
            },
    {
        match self {
            CombinedPathBuf::Absolute(a) => match a.join(path) {
                Ok(b) => Ok(CombinedPathBuf::Absolute(b)),
                Err(e) => Err(CombinedJoinError::from(e)),
            },
            CombinedPathBuf::Relative(p) => match p.join(path) {
                Ok(b) => Ok(CombinedPathBuf::Relative(b)),
                Err(e) => Err(CombinedJoinError::JoinedAbsolute(e)),
            },
        }
    }

    pub fn is_relative(&self) -> (r: bool)
        ensures
            r == (self is Relative),
    {
        match self {
            CombinedPathBuf::Relative(_) => true,
            CombinedPathBuf::Absolute(_) => false,
        }
    }

    pub fn is_absolute(&self) -> (r: bool)
        ensures
            r == (self is Absolute),
    {
        match self {
            CombinedPathBuf::Relative(_) => false,
            CombinedPathBuf::Absolute(_) => true,
        }
    }
}

impl core::str::FromStr for CombinedPathBuf {
    type Err = NormalizationFailed;

    fn from_str(s: &str) -> Result<Self, NormalizationFailed> {
        CombinedPathBuf::try_new(s)
    }
}

} // verus!
