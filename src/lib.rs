//! A trading assistant for a brokerage account: it keeps stop-loss
//! orders in line with the positions they protect.
pub mod decimal;
pub mod order;
pub mod position;
pub mod guard;
pub mod text;
pub mod args;
pub mod format;
