//! A lightweight UI library for native Windows apps.
//!
//! The crate exposes a minimal virtual UI tree and starter widgets, together
//! with the layout and control planning that a native backend executes.
pub mod attrs;
pub mod digits;
pub mod element;
pub mod error;
pub mod laws;
pub mod layout;
pub mod prelude;
pub mod relayout;
pub mod style;
pub mod style_laws;
pub mod widget;
pub mod widgets;
pub mod window;

pub use element::{Attribute, Element};
pub use error::{Error, Result};
pub use widget::Widget;
pub use window::Window;
