//! Stock analysis service logic: sector universes, screening, fundamentals
//! alignment, portfolio bookkeeping and validation rules, with their contracts.

pub mod text;
pub mod sectors;
pub mod sorting;
pub mod error;
pub mod sp500;
pub mod screener;
pub mod ai_portfolio;
pub mod xbrl;
pub mod statements;
pub mod cik;
pub mod fmp;
pub mod fundamentals;
pub mod models;
pub mod crypto;
pub mod auth;
pub mod portfolio;
pub mod import;
pub mod yahoo;
pub mod discovery;
