//! A fixed-capacity slot pool with constant-time allocation, constant-time
//! release by handle, and iteration over the live slots in allocation order.
//!
//! Slots are addressed by [`ptr::Ptr`] handles. The pool keeps two intrusive
//! lists over one index space, a live list and a free list, and the contract
//! of every operation is a transition of the pool's [`pool_model::PoolView`].

pub mod cell_pool;
pub mod clear;
pub mod error;
pub mod fixed_vec;
pub mod game;
pub mod pool_laws;
pub mod pool_model;
pub mod ptr;
pub mod ref_set;
pub mod utils;
