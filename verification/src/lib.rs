//! Delivery prices and monthly promotional discounts for an ordered log of
//! shipment records.
//!
//! Amounts are whole cents. Each calendar month of the log shares one discount
//! allowance, drawn down by one rule per size class in input order.

pub mod amount;
pub mod discount;
pub mod laws;
pub mod repository;
pub mod shipment;
pub mod shipments;
pub mod text;
