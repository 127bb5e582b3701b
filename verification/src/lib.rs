//! A small payments engine: client accounts that deposits, withdrawals,
//! disputes, resolutions and chargebacks are applied to, with the rules
//! of application stated as contracts and proved.

pub mod amount;
pub mod output;
pub mod transaction;
