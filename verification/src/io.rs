pub mod cookies;
pub mod header_data;
pub mod headers;
pub mod io;
pub mod mime;
pub mod request_data;
pub mod response_data;
