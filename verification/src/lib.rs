//! A style-value transformation core.
//!
//! Declarative visual-styling properties (shadow effects, filter chains)
//! carry each of their values through three representational stages: the
//! author-specified form, the cascade-resolved computed form, and the final
//! resolved form consumed by rendering.  This crate defines the generic
//! value shapes for those properties once, and gives every stage of every
//! shape the same capability set: structural equality, a squared-distance
//! metric, animation interpolation and additive composition, stage
//! conversion against an explicit per-element context, human-readable
//! serialization, a compact pointer-free byte encoding for sharing values
//! across isolated execution contexts, and size accounting for that
//! encoding.
//!
//! All operations are pure functions of their arguments; nothing reads or
//! mutates state outside them.

use vstd::prelude::*;

pub mod animate;
pub mod axis;
pub mod css;
pub mod effects;
pub mod encoding;
pub mod pipeline;

verus! {

/// Signalled by the animation capabilities (interpolation, additive
/// composition, distance) when the two endpoint values are not animatably
/// compatible: their variants or discrete flags differ, or a variant is
/// excluded from animation altogether.  The animation engine recovers from
/// it locally with a discrete switch; it is never a user-visible failure.
#[derive(Clone, Copy, Debug, PartialEq, Eq, Structural)]
pub struct Incompatible {}

/// Signalled by a stage conversion whose resolution context is missing a
/// datum the value requires.  A correct cascade engine never triggers this;
/// it is surfaced rather than silently defaulted.
#[derive(Clone, Copy, Debug, PartialEq, Eq, Structural)]
pub enum StageError {
    /// A percentage length occurred but the context supplied no basis.
    MissingPercentBasis,
    /// A font-relative length occurred but the context supplied no font size.
    MissingFontSize,
}

/// Signalled by the shared-encoding layer when a byte sequence cannot be
/// decoded.  Always surfaced to the caller, never guessed at.
#[derive(Clone, Copy, Debug, PartialEq, Eq, Structural)]
pub enum DecodeError {
    /// The leading schema-version byte differs from the decoder's version.
    VersionMismatch,
    /// The bytes after the version byte do not form exactly one value.
    Malformed,
}

} // verus!
