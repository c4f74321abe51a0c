pub mod headers;
pub mod url;
pub mod model;
pub mod client;
