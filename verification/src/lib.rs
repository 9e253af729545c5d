//! Closed-interval arithmetic over exact extended-rational bounds.
//!
//! An interval is either the empty set or a closed set `[lo, hi]` of real
//! numbers whose endpoints are exact rationals or infinities.  Every
//! operation returns an interval that encloses the image of the point
//! function over its operands; operations whose exact result has no
//! representable endpoint widen that endpoint outward, so enclosure is
//! never lost.
//!
//! The heart of the library is a classification-driven case dispatch:
//! [`classify`] sorts every interval into one of seven sign classes and
//! every pair into one of the 49 pair classes, and the piecewise
//! operations — multiplication and division ([`arith`]), the power
//! functions and the periodic-function branch tables ([`elementary`]) —
//! are each one exhaustive match over that alphabet.  The order and set
//! relations live in [`boolean`], [`absmax`] and [`set_op`], rounding to
//! integers and the sign function in [`integer`], and the sixteen-state
//! overlap classifier in [`overlap`].  The laws the whole crate answers
//! for — that each table encloses the pointwise image, that the empty
//! set absorbs, and how the order relations interlock — are stated and
//! proved in [`enclosure`], [`arith`], [`boolean`] and [`overlap`].

pub mod absmax;
pub mod arith;
pub mod boolean;
pub mod bound;
pub mod classify;
pub mod constants;
pub mod elementary;
pub mod enclosure;
pub mod integer;
pub mod overlap;
pub mod set_op;
pub mod interval;

pub use bound::Bound;
pub use classify::{IntervalClass, IntervalClass2};
pub use interval::{Interval, IntervalError, IntervalErrorKind};
pub use overlap::OverlappingState;
