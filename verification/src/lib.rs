//! Pseudo-terminal session engine: a byte-oriented escape-sequence decoder,
//! the output-pump and render-consumer step logic around it, and the key
//! relay that translates key events into the bytes written to the terminal.

pub mod decoder;
pub mod event;
pub mod pump;
pub mod relay;
pub mod render;
pub mod session;

pub use decoder::Decoder;
pub use event::RenderEvent;
pub use relay::{KeyEvent, RelayAction};
pub use render::SinkOp;
pub use session::{EngineConfig, SessionError};
