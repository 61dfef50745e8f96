//! Verified core of the PayMonero administration and payment pages.

pub mod outside;

pub mod amount;
pub mod decimal;
pub mod filters;
pub mod laws;
pub mod models;
pub mod pages;
pub mod pagination;
pub mod qr;
pub mod text;
