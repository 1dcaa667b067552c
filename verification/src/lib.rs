//! A command interpreter for a small two-dimensional pixel display.
//!
//! A display is a rectangular grid of coloured cells together with a cursor.
//! A flat stream of integers is parsed into a queue of tasks, and the tasks
//! are applied to the display in order. Every function states its behaviour
//! over a mathematical model of the values it works on, and every failure is
//! reported as a [`error::DisplayError`].

pub mod color;
pub mod display;
pub mod error;
pub mod input;
pub mod matrix;
pub mod task;
