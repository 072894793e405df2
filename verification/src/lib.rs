//! Ranking of Warsaw Stock Exchange companies: verified text extraction,
//! link construction and selection logic.

pub mod text;
pub mod patterns;
pub mod errors;
pub mod urls;
pub mod shared_types;
pub mod tables;
pub mod ranked_companies;
pub mod frontend;
pub mod cli;
