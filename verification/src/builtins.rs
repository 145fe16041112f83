pub mod bool_;
pub mod exceptions;
pub mod float;
pub mod function;
pub mod integer;
pub mod method;
pub mod none;
pub mod string;
pub mod types;
