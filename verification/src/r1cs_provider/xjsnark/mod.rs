//! The generator that writes its files as text.

pub mod libsnark;
