//! Price alerts: the rules users set, how a market tick is judged against
//! them, where subscriptions are kept, and the manager that ties it together.

pub mod error;
pub mod model;
pub mod parser;
pub mod evaluator;
pub mod repository;
pub mod window;
pub mod manager;
pub mod laws;
pub mod codec;
pub mod source;
