//! Escape-time rendering of the Mandelbrot set in fixed-point arithmetic.
//!
//! A point of the complex plane is a pair of fixed-point numbers whose
//! precision is chosen when the point is made. [`evaluator`] iterates
//! `z ← z² + c` on such a point and says when the orbit leaves the disc of
//! radius two; [`palette`] turns that into a colour. [`viewport`] maps the
//! pixels of a square image to points, [`builder`] renders an image row by
//! row, in any order, and [`driver`] keeps the state of an interactive
//! session: it turns input into viewports, asks for builds, and shows the
//! image of the latest one only.

pub mod arith;
pub mod builder;
pub mod driver;
pub mod evaluator;
pub mod image;
pub mod palette;
pub mod point;
pub mod viewport;
