//! A verified codec for a line-oriented chat protocol: lines of text are
//! parsed into a structured command model and serialized back to wire form.

pub mod messages;
pub mod numbers;
pub mod replys;
pub mod state;
pub mod tokens;
pub mod users;
