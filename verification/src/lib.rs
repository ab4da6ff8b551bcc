//! Fixes up the boot header of a raw GBA cartridge image.
//!
//! A cartridge image begins with a fixed-layout 0xC0-byte boot header; the
//! loader checks a handful of constant bytes and a complement checksum in the
//! region `[0xA0, 0xC0)` before it runs the cartridge. This crate places the
//! caller's title, game code, maker code and version at their exact offsets,
//! rewrites the constant and reserved bytes, preserves the debug bit of the
//! device-type byte, and derives the checksum from the bytes it just wrote,
//! all without touching a single byte outside that region.
//!
//! The fixup works on the image as an in-memory byte vector; opening files,
//! extracting the raw image from an object file and command-line handling are
//! left to the surrounding program.

pub mod fields;
pub mod fix_header;
