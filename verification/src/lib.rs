//! kou — virtual terminal automation: a VT100/ANSI screen emulator, readers
//! that describe a screen for humans and language models, key and text input
//! encoding, colour themes, and the kitty / iTerm2 inline graphics protocols.

pub mod font;
pub mod graphics;
pub mod grid;
pub mod keys;
pub mod paint;
pub mod read;
pub mod readback;
pub mod text;
pub mod theme;
pub mod width;
pub mod screen;
pub mod session;
pub mod vt;

pub use font::{FontFamily, FontSet};
pub use graphics::GraphicsProtocol;
pub use keys::{encode_input, parse_keys};
pub use read::{read, read_default, ReadStyle};
pub use screen::Screen;
pub use session::SessionInfo;
pub use theme::{theme_by_name, Theme};
