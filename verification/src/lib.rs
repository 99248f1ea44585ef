//! A deterministic pseudo-random number generator in the Mersenne twister
//! family, together with a von Neumann debiasing filter for its rendered
//! bit stream.
//!
//! The engine lives in [`twister`]; the filter lives in [`debias`].

pub mod debias;
pub mod twister;
