//! A typed description layer for HTTP API endpoints: path templates built
//! from literal segments and interpolated parameters, a validated key-value
//! parameter container with pluggable validation and serialization hooks,
//! and a pluggable response deserializer, composed into one immutable
//! endpoint descriptor. The library never performs I/O itself: it prepares
//! a path string, a validated parameter set, or a parsed value for a caller
//! that owns the transport.

pub mod parameter_spec;
pub mod parameters_spec;
pub mod formats;
pub mod endpoint_spec;
