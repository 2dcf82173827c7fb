pub mod ast;
pub mod balance;
pub mod block;
pub mod expr;
pub mod merge_block;
pub mod query;
pub mod query_laws;
pub mod token;
pub mod util;
pub mod credits;
