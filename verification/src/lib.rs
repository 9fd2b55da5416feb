//! Host-side logic of the Qualcomm download protocols: the Firehose settings
//! and channel state, and the tables of Validated Image Programming (VIP).
pub mod digest;
pub mod text;
pub mod types;
pub mod vip;
