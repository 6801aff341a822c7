//! Verified core of a Wayland screen locker: password entry, session
//! decisions, option parsing and pixel effects.

pub mod auth;
pub mod effects;
pub mod pixels;

pub mod frame;
pub mod secret;
pub mod clock;
pub mod input;
pub mod timer;
pub mod util;
pub mod session;
pub mod system;
pub mod surface;
pub mod theme;
pub mod display;
pub mod lock;
