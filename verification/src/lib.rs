//! Core logic of a client-side object-storage browser: directory-path
//! navigation, breadcrumb derivation, listing-URL construction, parsing of
//! the listing endpoint's response, and the view-state transitions that a
//! load cycle goes through.

pub mod listing;
pub mod models;
pub mod nav;
pub mod state;
pub mod url;
