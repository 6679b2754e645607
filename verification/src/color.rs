//! The color value type and its direct constructors.

use vstd::prelude::*;

verus! {

/// Relies on `rand::random`: a value drawn from the thread-local generator.
/// Any value of the type can come back, so nothing is promised of the result.
pub assume_specification<T>[ rand::random::<T> ]() -> (r: T)
    where
        rand::distributions::Standard: rand::distributions::Distribution<T>,
;

/// An RGB color: three independent 8-bit channels (red, green, blue).
#[derive(Debug, Clone, Copy, PartialEq, Eq, Structural)]
pub struct Color(pub u8, pub u8, pub u8);

impl Color {
    /// Builds a color directly from three channel values.
    pub fn new(r: u8, g: u8, b: u8) -> (c: Color)
        ensures
            c == Color(r, g, b),
    {
        Color(r, g, b)
    }

    /// Draws a fresh color, each channel independently from the process-wide
    /// uniform random source. Always succeeds; no two calls need agree.
    pub fn random() -> Color {
        Color(rand::random::<u8>(), rand::random::<u8>(), rand::random::<u8>())
    }

    /// Returns the red channel.
    pub fn r(&self) -> (v: u8)
        ensures
            v == self.0,
    {
        self.0
    }

    /// Returns the green channel.
    pub fn g(&self) -> (v: u8)
        ensures
            v == self.1,
    {
        self.1
    }

    /// Returns the blue channel.
    pub fn b(&self) -> (v: u8)
        ensures
            v == self.2,
    {
        self.2
    }
}

} // verus!
