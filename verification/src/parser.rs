pub mod from_value;
pub mod json_parser;
pub mod text_parser;
pub mod value;
