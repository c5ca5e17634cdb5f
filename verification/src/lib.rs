//! Standard-library primitives for code running inside an enclave:
//! C strings, environment access and networking helpers, together with
//! the marshalling layer that carries their requests to the host.

pub mod ascii;
pub mod boundary;
pub mod c_str;
pub mod decimal;
pub mod env;
pub mod io;
pub mod memchr;
pub mod net;
pub mod utf8;
