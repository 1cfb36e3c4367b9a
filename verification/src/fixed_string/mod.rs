pub mod fixed_string;
pub mod iter;

pub use fixed_string::FixedString;
pub use iter::Iter;
