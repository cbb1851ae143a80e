pub mod docker;
pub mod status;
pub mod traces;
