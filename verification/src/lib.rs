//! Query layer of a node of a multi-threaded block DAG.
//!
//! The node's consensus state changes all the time. A query is answered from
//! one immutable snapshot of it, so that no answer mixes two instants:
//!
//! - [`slot`] converts between timestamps and slots;
//! - [`snapshot`] holds the checked, point-in-time view of the graph;
//! - [`status`], [`block`], [`interval`], [`lookup`] and [`stakers`] answer
//!   the read queries;
//! - [`operation`] checks submitted operations and walks a batch through the pool;
//! - [`api`] gathers the endpoints.

pub mod api;
pub mod block;
pub mod error;
pub mod ident;
pub mod interval;
pub mod lookup;
pub mod model;
pub mod operation;
pub mod order;
pub mod slot;
pub mod snapshot;
pub mod stakers;
pub mod status;
