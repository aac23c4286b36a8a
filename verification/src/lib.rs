//! A stake-weighted poll among the validators of a NEAR network: validators vote for
//! unlocking transfers, votes are re-weighted by current stake whenever the epoch
//! changes, and the poll closes, recording the block timestamp, once more than two
//! thirds of the total validator stake has voted for it.
pub mod host;
pub mod model;
pub mod lemmas;
pub mod laws;
pub mod contract;
