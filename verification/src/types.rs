//! The value types that the codec knows.

pub mod aligned;
pub mod array;
pub mod collections;
pub mod numerics;
pub mod option;
pub mod range;
pub mod smart_ptr;
pub mod string;
pub mod tuple;
pub mod uuid;
pub mod vec;
