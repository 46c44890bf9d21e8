//! Verified core of a client for the placement driver (PD) of a TiKV cluster:
//! endpoint lists, cluster-membership validation, leader discovery order,
//! request retry bookkeeping, response checking and the mock PD service.

pub mod error;
pub mod response;
pub mod text;
pub mod members;
pub mod endpoints;
pub mod validate;
pub mod leader;
pub mod retry;
pub mod address;
pub mod mock;
