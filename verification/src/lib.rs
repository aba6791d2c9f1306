//! Verified command logic for the RM67162 AMOLED panel of the LilyGo
//! T-Display-S3 AMOLED board.
//!
//! The library decides what goes over the wire: which pins change level,
//! which bytes are written and which pauses are taken. The program that owns
//! the hardware carries those steps out.
pub mod bus;
pub mod color;
pub mod rm67162;
pub mod morph;
pub mod timing;
pub mod image;
