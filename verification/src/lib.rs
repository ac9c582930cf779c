//! A terminal calendar in the manner of the classic `cal` utility: it
//! resolves a requested span of months, renders each month as a fixed
//! 8-line block of 22 display columns with the current day highlighted,
//! and tiles the blocks three abreast. Every function is specified and
//! verified; printing and argument handling stay outside the library.

pub mod date;
pub mod layout;
pub mod parse;
pub mod render;
pub mod text;
