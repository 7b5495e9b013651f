//! The built-in containers: a horizontal row, a vertical column, a
//! size-limiting wrapper and an absolute-position wrapper.

pub mod abs;
pub mod column;
pub mod max_size;
pub mod row;

pub use abs::Abs;
pub use column::Column;
pub use max_size::MaxSize;
pub use row::Row;
