
pub mod contest;
pub mod laws;
pub mod page;
pub mod samples;
pub mod text;
