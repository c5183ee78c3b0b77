pub mod codec;
pub mod keys;
pub mod message;
pub mod state;
pub mod stream;
pub mod timestamp;
pub mod wire;
