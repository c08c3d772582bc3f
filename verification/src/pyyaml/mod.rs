pub mod error;
pub mod tokens;
pub mod pyrepr;
pub mod resolver;
pub mod scanner;
pub mod parser;
pub mod value;
pub mod loader;
