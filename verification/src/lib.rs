//! The screen model of a terminal: what a stream of bytes from a program makes of a grid of
//! cells, its scrollback, its cursor and modes, and what is said back to the program.
//!
//! A [`screen::Screen`] takes the actions a parser reads out of the stream, through
//! [`vt::Perform`], and holds two [`buffer::Buffer`]s of [`row::Row`]s. Every operation is
//! stated over the view of the screen, and every one keeps the screen well-formed: no half
//! of a wide character stands alone, every row is as wide as its buffer, and the cursor is
//! on the screen.
pub mod attrs;
pub mod buffer;
pub mod buffer_resize;
pub mod cell;
pub mod codec;
pub mod coding_laws;
pub mod collect;
pub mod color;
pub mod dispatch;
pub mod dispatch_laws;
pub mod dump_laws;
pub mod edit;
pub mod edit_laws;
pub mod fields;
pub mod grapheme;
pub mod ids;
pub mod input;
pub mod laws;
pub mod line_laws;
pub mod link;
pub mod links;
pub mod mode_laws;
pub mod modes;
pub mod motion_laws;
pub mod mouse;
pub mod osc;
pub mod osc_laws;
pub mod print;
pub mod print_laws;
pub mod query;
pub mod reading_laws;
pub mod reflow;
pub mod reflow_laws;
pub mod rejoin;
pub mod report;
pub mod resize_laws;
pub mod restore;
pub mod row;
pub mod screen;
pub mod screen_resize;
pub mod select;
pub mod sgr;
pub mod sgr_laws;
pub mod snapshot;
pub mod style;
pub mod text;
pub mod viewport;
pub mod vt;
pub mod width;
