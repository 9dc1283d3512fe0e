//! Parser and renderer for Microsoft Agent character (`.acs`) files.
//!
//! The crate decodes the block-structured ACS container, the LZ77-style
//! bit-stream image compression, and the palette-indexed pixel layout, and
//! composites animation frames into RGBA bitmaps.
//!
//! Every decoding function is specified against a mathematical description of
//! the file format and verified against it.

use vstd::prelude::*;

pub mod acs;
pub mod bit_reader;
pub mod compression;
pub mod format;
pub mod reader;
pub mod utf16;

pub use crate::acs::{Acs, AcsError, Animation, Branch, CharacterInfo, Frame, FrameImage, Image,
    Overlay, OverlayType, Sound, State, TransitionType};
pub use crate::reader::{VoiceExtraData, VoiceInfo};
