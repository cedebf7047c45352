pub mod models;
pub mod categories;
pub mod traits;
