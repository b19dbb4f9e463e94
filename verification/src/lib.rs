//! The logic of a driver for the segmented LCD of the VEVOR AIO CPU cooler
//! (USB HID 5131:2007, product string "FBB").
//!
//! The display shows two temperatures and a clock. It is driven by one kind of
//! report, of which it renders four bytes ([`frame`]), and blanks itself after
//! about a second of silence. One loop writes reports ([`writer`]), and another
//! reads the temperatures ([`reader`]). Each says what to do outside, and takes in
//! what came of it. The program around this library only does as it is told.

pub mod cli;
pub mod decimal;
pub mod frame;
pub mod gpu;
pub mod hwmon;
pub mod io;
pub mod names;
pub mod reader;
pub mod search;
pub mod temps;
pub mod text;
pub mod writer;
