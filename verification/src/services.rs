pub mod endpoint_executor;
pub mod error;
pub mod main_service;
pub mod middleware;
pub mod multipart;
pub mod service_request;
pub mod service_response;
