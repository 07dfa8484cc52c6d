//! Documentation packages, published through a repository's own version
//! control.
//!
//! A package is a chosen set of files of a repository. Publishing copies
//! them into a worktree of the package's distribution branch, commits them
//! there and pushes the branch; nothing but the repository stores or
//! carries a package.
//!
//! The library runs no program and touches no file. Whatever goes on
//! outside is asked for and answered in values: an operation is called with
//! the replies that it has had so far, and gives back either the next
//! [`tracking::Request`] for its caller to carry out or, once the replies
//! suffice, its result. Its caller runs the loop. What an operation asks
//! for and what it makes of each reply is stated in its contract, and the
//! functions here are verified against their contracts; the few that call
//! into another crate say so, and say what is taken on trust.
//!
//! - [`tracking`]: the version-control operations, one working directory at
//!   a time.
//! - [`packaging`]: the manifest of a package, and the service that opens a
//!   package, publishes it and is closed.
//! - [`compliance`]: the compliance matrix that a manifest declares, and
//!   its table.
//! - [`transclusion`]: documents that take in other documents.
//! - [`pattern`], [`text`]: regular expressions and text.

pub mod compliance;
pub mod packaging;
pub mod pattern;
pub mod text;
pub mod tracking;
pub mod transclusion;
