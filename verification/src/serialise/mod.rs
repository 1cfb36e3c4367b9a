pub mod s_stream;
pub mod serialise;

pub use s_stream::SStream;
pub use serialise::Serialise;
