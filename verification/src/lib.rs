//! A hierarchical name service and pub/sub transport core: a typed value
//! codec with a total cast lattice, a length-prefixed framed channel, the
//! resolver server's per-connection session logic, and the subscriber's
//! connection multiplexer.

pub mod arith;
pub mod cast;
pub mod channel;
pub mod codec;
pub mod convert;
pub mod numstr;
pub mod pack;
pub mod path;
pub mod resolver;
pub mod subscriber;
pub mod text;
pub mod value;
