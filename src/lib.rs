//! Essential oils: scent families on a wheel, perception notes, and blends.
pub mod family;
pub mod note;
pub mod oil;
pub mod db;
pub mod search;
