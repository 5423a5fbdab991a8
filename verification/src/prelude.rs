//! The items most programs use.
pub use crate::element::{Attribute, Element};
pub use crate::error::{Error, Result};
pub use crate::style::{Align, Color, FontWeight, Style};
pub use crate::widget::Widget;
pub use crate::widgets::{Button, Column, Text};
pub use crate::window::Window;
