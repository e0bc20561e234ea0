//! Sequence-form zero-sum game solvers over a fixed-point scalar domain.
//!
//! Two-player zero-sum extensive-form games are represented in sequence form:
//! a tree-shaped strategy polytope per player plus a sparse bilinear payoff
//! operator. Approximate Nash equilibria are computed by regret matching
//! (CFR and CFR+) and by Nesterov's excessive gap technique with a
//! gap-preserving backtracking line search.
//!
//! All numeric work is done on a Q32.32 fixed-point scalar (see `fx`), so the
//! whole computation is plain integer arithmetic with an exactly stated
//! semantics.

pub mod cfr;
pub mod egt;
pub mod fx;
pub mod game;
pub mod prox_func;
pub mod vecfx;
