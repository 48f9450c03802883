//! Combinatorial and control core of a dice maker: points are spread over
//! the unit sphere by gradient descent, each point becomes a tangent face,
//! and the faces are shrunk in lockstep until neighbouring faces meet inside
//! the sphere. The numeric geometry lives with the program; this library holds
//! the parts whose behaviour is exact: copying fixed-size arrays, the
//! interleaved parameter layout, the enumeration of unordered pairs, and the
//! drivers of the descent and shrink loops.
use vstd::prelude::*;

pub mod arrays;
pub mod control;
pub mod layout;
pub mod pairs;

pub use arrays::copy;

verus! {

} // verus!
