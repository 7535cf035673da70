pub mod version;
pub mod model;
pub mod bytes;
pub mod codec;
pub mod decode;
pub mod encode;
pub mod laws;
pub mod sniff;
pub mod names;
pub mod sink;
pub mod convert;
