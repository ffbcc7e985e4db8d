pub mod yaml;
pub mod text;
pub mod reference;
pub mod includes;
pub mod models;
pub mod gitlab;
pub mod workflow;
pub mod reading;
pub mod schema;
pub mod schema_refs;
