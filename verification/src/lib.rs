//! A templated HTTP attack engine: request templates with marked positions,
//! payload substitution, hit classification and campaign scheduling.

pub mod cli;
pub mod intruder;
pub mod marker;
pub mod request_template;
pub mod text;
pub mod wire;
