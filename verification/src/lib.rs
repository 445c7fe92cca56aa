//! A small display of the buses that are expected at a stop.
//!
//! The heart of the library paints widgets onto a canvas of 64 by 32 pixels: texts in a
//! bitmap font and bar charts as leaves, horizontal and vertical stacks around them. A
//! tree of widgets measures itself, says how many frames it needs, and paints each frame
//! on a clear canvas. What a render does is stated as mathematics, a sequence of dots and
//! the failure that ended it, and every painting function is proved to do exactly that.
//!
//! Around it stands what feeds the display: the request to the feed of arrivals, the
//! reading of its answer, the choice of the arrivals to show, and the body of the push
//! that sends a picture to the device.
//!
//! - [`geometry`], [`color`], [`canvas`], [`font`]: points, colours, the pixel buffer and
//!   the glyphs.
//! - [`text`], [`chart`], [`layout`], [`widget`]: the widgets and the spreading of a
//!   horizontal stack.
//! - [`frames`]: the board of rows and its frames.
//! - [`arrival`], [`xml`], [`next_buses`]: arrivals and the feed.
//! - [`pusher`], [`args`]: the push and the settings of a run.

pub mod args;
pub mod arith;
pub mod arrival;
pub mod canvas;
pub mod chart;
pub mod color;
pub mod error;
pub mod font;
pub mod frames;
pub mod geometry;
pub mod layout;
pub mod next_buses;
pub mod pusher;
pub mod text;
pub mod widget;
pub mod xml;
