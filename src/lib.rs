//! Status-line templates for a media-control applet: two template compilers,
//! the composition of song tags into text, and a ping-pong text scroller.

pub mod config;
pub mod content;
pub mod display_format;
pub mod meta_format;
pub mod scroller;
pub mod text;

pub use config::{has_metadata_block, init_scrollers};
pub use content::{build_content, TagSnapshot};
pub use display_format::{
    process_display_format, ArgValue, DisplayFormat, DisplayFormatError, DEFAULT_DISPLAY_FORMAT,
};
pub use meta_format::{process_meta_format, MetaFormat, MetaFormatError, DEFAULT_META_FORMAT};
pub use scroller::{Scroller, SENTINEL};
