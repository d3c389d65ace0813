//! Strongly typed file-system paths.
//!
//! Three kinds of path are told apart by their type: absolute paths, which are
//! always rooted and free of `.` and `..` segments; relative paths, which carry
//! no root; and combined paths, which hold one of the two. Every path is modelled
//! as a root flag and a sequence of segments (see [`components`]), and each
//! constructor and join is specified over that model.
pub mod absolute;
pub mod combined;
pub mod components;
pub mod errors;
pub mod laws;
pub mod relative;

pub use absolute::{AbsolutePath, AbsolutePathBuf};
pub use combined::{CombinedPath, CombinedPathBuf};
pub use errors::{
    AbsoluteJoinError, AbsolutePathBufNewError, AbsolutePathNewError, CombinedJoinError,
    JoinedAbsolute, NormalizationFailed, NotAbsolute, NotRelative, RelativeToError,
    WasNotNormalized,
};
pub use relative::{RelativePath, RelativePathBuf};
