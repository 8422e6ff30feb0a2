//! Verified core of two pieces of a UI toolkit: the single-touch to mouse
//! emulator of the platform layer, and the decision logic behind the markdown
//! widget (heading slugs, fragment lookup, the block layout state machine and
//! the widget handles).

pub mod touch_emu;
pub mod text;
pub mod slug;
pub mod events;
pub mod layout;
pub mod markdown;
