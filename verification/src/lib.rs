pub mod config;
pub mod error;
pub mod models;
pub mod parsers;
pub mod reports;
pub mod services;
pub mod utils;

pub use error::{AppError, Result};
pub use models::common::{EstacaoInfo, Regional, Status, TipoEstacao};
