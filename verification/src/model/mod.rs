pub mod chat;
pub mod embedding;
pub mod generate;
pub mod models;
pub mod parameter;
