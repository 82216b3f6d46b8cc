pub mod normalizer;
pub mod text;
