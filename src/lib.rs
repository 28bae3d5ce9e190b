pub mod domain;
pub mod form;
pub mod intake;
pub mod harness;
