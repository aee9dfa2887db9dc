//! Validation and commit decisions for records put to a storage node:
//! typed record framing, payment admission, spend-set merging, register
//! reconciliation and the choice of what to write and replicate.

pub mod error;
pub mod external;
pub mod order;
pub mod payment;
pub mod record;
pub mod register;
pub mod router;
pub mod spends;
