//! Reading a generator's output and assembling it into a constraint system.

pub mod builder;
pub mod convert;
pub mod deserialize;
pub mod document;
pub mod gnark;
pub mod xjsnark;
