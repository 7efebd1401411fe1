//! Analysis behind two derives: a fluent builder and a `Debug` implementation
//! whose generic bounds are inferred from how each parameter is used.

pub mod ty;
pub mod bounds;
pub mod schema;
pub mod builder;
pub mod builder_state;
pub mod debug;
