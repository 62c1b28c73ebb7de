//! A small IRC-family chat server core: wire codec, line framing and
//! write coalescing, the nickname directory, and the decision logic of the
//! user and room actors.

pub mod cancel;
pub mod directory;
mod channels;
pub mod protocol;
pub mod room;
pub mod parse;
pub mod slots;
pub mod sock;
pub mod user;
