pub mod doc;
pub mod laws;
pub mod scan;
pub mod store;
