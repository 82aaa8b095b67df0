//! Symbolic core of a calculator: expression trees over exact rationals and
//! named constants, their algebraic reduction to a canonical form, the
//! display-base hint they carry, and their rendering as text.

pub mod base;
pub mod collapse;
pub mod exact;
pub mod expr;
pub mod flatten;
pub mod laws;
pub mod node;
pub mod pi;
pub mod rational;
pub mod reduce;
pub mod render;
pub mod shape;

pub use crate::expr::{ConstKind, TrigKind, VarOpKind};
pub use crate::node::Node;
pub use crate::rational::Rational;
pub use crate::reduce::ReduceError;
pub use crate::render::NodePriority;
