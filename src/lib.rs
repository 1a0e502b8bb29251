//! Normalisation of a venue's order-book and trade feed into fixed-width,
//! fixed-point records, and the cursor discipline of the single-producer,
//! single-consumer ring that carries those records to other processes.

pub mod channels;
pub mod classify;
pub mod decimal;
pub mod json;
pub mod layout;
pub mod normalize;
pub mod record;
pub mod ring;
