//! The failures of path construction and joining. Each carries the text of
//! the offending path, as it was given.
use vstd::prelude::*;

verus! {

/// A path was joined onto a base although it is itself rooted: the base's
/// text, then the text of the path joined.
#[derive(Clone, Debug, Eq, PartialEq)]
pub struct JoinedAbsolute(pub String, pub String);

/// A path that had to be normalized already held `.` or `..`.
#[derive(Clone, Debug, Eq, PartialEq)]
pub struct WasNotNormalized(pub String);

/// Collapsing `..` would have gone above the root, or left nothing but the root.
#[derive(Clone, Debug, Eq, PartialEq)]
pub struct NormalizationFailed(pub String);

/// A path had to be absolute, and was not.
#[derive(Clone, Debug, Eq, PartialEq)]
pub struct NotAbsolute(pub String);

/// A path had to be relative, and was not.
#[derive(Clone, Debug, Eq, PartialEq)]
pub struct NotRelative(pub String);

/// Why a borrowed absolute path could not be made.
#[derive(Clone, Debug, Eq, PartialEq)]
pub enum AbsolutePathNewError {
    WasNotNormalized(WasNotNormalized),
    NotAbsolute(NotAbsolute),
}

impl From<WasNotNormalized> for AbsolutePathNewError {
    fn from(e: WasNotNormalized) -> (r: Self)
        ensures
            r == AbsolutePathNewError::WasNotNormalized(e),
    {
        AbsolutePathNewError::WasNotNormalized(e)
    }
}

impl vstd::std_specs::convert::FromSpecImpl<WasNotNormalized> for AbsolutePathNewError {
    open spec fn obeys_from_spec() -> bool {
        true
    }

    open spec fn from_spec(e: WasNotNormalized) -> Self {
        AbsolutePathNewError::WasNotNormalized(e)
    }
}

impl From<NotAbsolute> for AbsolutePathNewError {
    fn from(e: NotAbsolute) -> (r: Self)
        ensures
            r == AbsolutePathNewError::NotAbsolute(e),
    {
        AbsolutePathNewError::NotAbsolute(e)
    }
}

impl vstd::std_specs::convert::FromSpecImpl<NotAbsolute> for AbsolutePathNewError {
    open spec fn obeys_from_spec() -> bool {
        true
    }

    open spec fn from_spec(e: NotAbsolute) -> Self {
        AbsolutePathNewError::NotAbsolute(e)
    }
}

/// Why an owned absolute path could not be made.
#[derive(Clone, Debug, Eq, PartialEq)]
pub enum AbsolutePathBufNewError {
    NormalizationFailed(NormalizationFailed),
    NotAbsolute(NotAbsolute),
}

impl From<NormalizationFailed> for AbsolutePathBufNewError {
    fn from(e: NormalizationFailed) -> (r: Self)
        ensures
            r == AbsolutePathBufNewError::NormalizationFailed(e),
    {
        AbsolutePathBufNewError::NormalizationFailed(e)
    }
}

impl vstd::std_specs::convert::FromSpecImpl<NormalizationFailed> for AbsolutePathBufNewError {
    open spec fn obeys_from_spec() -> bool {
        true
    }

    open spec fn from_spec(e: NormalizationFailed) -> Self {
        AbsolutePathBufNewError::NormalizationFailed(e)
    }
}

impl From<NotAbsolute> for AbsolutePathBufNewError {
    fn from(e: NotAbsolute) -> (r: Self)
        ensures
            r == AbsolutePathBufNewError::NotAbsolute(e),
    {
        AbsolutePathBufNewError::NotAbsolute(e)
    }
}

impl vstd::std_specs::convert::FromSpecImpl<NotAbsolute> for AbsolutePathBufNewError {
    open spec fn obeys_from_spec() -> bool {
        true
    }

    open spec fn from_spec(e: NotAbsolute) -> Self {
        AbsolutePathBufNewError::NotAbsolute(e)
    }
}

/// Why a path could not be joined onto an absolute path.
#[derive(Clone, Debug, Eq, PartialEq)]
pub enum AbsoluteJoinError {
    NormalizationFailed(NormalizationFailed),
    JoinedAbsolute(JoinedAbsolute),
}

impl From<NormalizationFailed> for AbsoluteJoinError {
    fn from(e: NormalizationFailed) -> (r: Self)
        ensures
            r == AbsoluteJoinError::NormalizationFailed(e),
    {
        AbsoluteJoinError::NormalizationFailed(e)
    }
}

impl vstd::std_specs::convert::FromSpecImpl<NormalizationFailed> for AbsoluteJoinError {
    open spec fn obeys_from_spec() -> bool {
        true
    }

    open spec fn from_spec(e: NormalizationFailed) -> Self {
        AbsoluteJoinError::NormalizationFailed(e)
    }
}

impl From<JoinedAbsolute> for AbsoluteJoinError {
    fn from(e: JoinedAbsolute) -> (r: Self)
        ensures
            r == AbsoluteJoinError::JoinedAbsolute(e),
    {
        AbsoluteJoinError::JoinedAbsolute(e)
    }
}

impl vstd::std_specs::convert::FromSpecImpl<JoinedAbsolute> for AbsoluteJoinError {
    open spec fn obeys_from_spec() -> bool {
        true
    }

    open spec fn from_spec(e: JoinedAbsolute) -> Self {
        AbsoluteJoinError::JoinedAbsolute(e)
    }
}

/// Why a path could not be joined onto a combined path.
#[derive(Clone, Debug, Eq, PartialEq)]
pub enum CombinedJoinError {
    NormalizationFailed(NormalizationFailed),
    JoinedAbsolute(JoinedAbsolute),
}

impl From<NormalizationFailed> for CombinedJoinError {
    fn from(e: NormalizationFailed) -> (r: Self)
        ensures
            r == CombinedJoinError::NormalizationFailed(e),
    {
        CombinedJoinError::NormalizationFailed(e)
    }
}

impl vstd::std_specs::convert::FromSpecImpl<NormalizationFailed> for CombinedJoinError {
    open spec fn obeys_from_spec() -> bool {
        true
    }

    open spec fn from_spec(e: NormalizationFailed) -> Self {
        CombinedJoinError::NormalizationFailed(e)
    }
}

impl From<JoinedAbsolute> for CombinedJoinError {
    fn from(e: JoinedAbsolute) -> (r: Self)
        ensures
            r == CombinedJoinError::JoinedAbsolute(e),
    {
        CombinedJoinError::JoinedAbsolute(e)
    }
}

impl vstd::std_specs::convert::FromSpecImpl<JoinedAbsolute> for CombinedJoinError {
    open spec fn obeys_from_spec() -> bool {
        true
    }

    open spec fn from_spec(e: JoinedAbsolute) -> Self {
        CombinedJoinError::JoinedAbsolute(e)
    }
}

impl From<AbsoluteJoinError> for CombinedJoinError {
    fn from(e: AbsoluteJoinError) -> (r: Self)
        ensures
            r == match e {
                AbsoluteJoinError::NormalizationFailed(e) => CombinedJoinError::NormalizationFailed(e),
                AbsoluteJoinError::JoinedAbsolute(e) => CombinedJoinError::JoinedAbsolute(e),
            },
    {
        match e {
            AbsoluteJoinError::NormalizationFailed(e) => CombinedJoinError::NormalizationFailed(e),
            AbsoluteJoinError::JoinedAbsolute(e) => CombinedJoinError::JoinedAbsolute(e),
        }
    }
}

impl vstd::std_specs::convert::FromSpecImpl<AbsoluteJoinError> for CombinedJoinError {
    open spec fn obeys_from_spec() -> bool {
        true
    }

    open spec fn from_spec(e: AbsoluteJoinError) -> Self {
        match e {
            AbsoluteJoinError::NormalizationFailed(e) => CombinedJoinError::NormalizationFailed(e),
            AbsoluteJoinError::JoinedAbsolute(e) => CombinedJoinError::JoinedAbsolute(e),
        }
    }
}

/// Why one absolute path could not be expressed relative to another.
#[derive(Clone, Debug, Eq, PartialEq)]
pub enum RelativeToError {
    PathsAreIdentical,
}

} // verus!
