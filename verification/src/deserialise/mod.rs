pub mod d_stream;
pub mod deserialise;

pub use d_stream::DStream;
pub use deserialise::Deserialise;
