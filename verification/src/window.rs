use vstd::prelude::*;

verus! {

/// What a window is opened with, seen abstractly.
pub struct WindowSpecsView {
    pub name: Seq<char>,
    pub width: u32,
    pub height: u32,
    pub centered: bool,
    pub fullscreen: bool,
}

/// The title, size and placement of the window the interpreter draws in.
pub struct WindowSpecs {
    name: String,
    width: u32,
    height: u32,
    centered: bool,
    fullscreen: bool,
}

impl View for WindowSpecs {
    type V = WindowSpecsView;

    closed spec fn view(&self) -> WindowSpecsView {
        WindowSpecsView {
            name: self.name@,
            width: self.width,
            height: self.height,
            centered: self.centered,
            fullscreen: self.fullscreen,
        }
    }
}

impl WindowSpecs {
    /// Specs for a window titled `name` of `width` by `height` pixels.
    pub fn new(name: String, width: u32, height: u32, centered: bool, fullscreen: bool) -> (specs: Self)
        ensures
            specs@ == (WindowSpecsView { name: name@, width, height, centered, fullscreen }),
    {
        WindowSpecs { name, width, height, centered, fullscreen }
    }

    /// The window's title.
    pub fn name(&self) -> (name: &str)
        ensures
            name@ == self@.name,
    {
        self.name.as_str()
    }

    /// The window's width in pixels.
    pub fn width(&self) -> (width: u32)
        ensures
            width == self@.width,
    {
        self.width
    }

    /// The window's height in pixels.
    pub fn height(&self) -> (height: u32)
        ensures
            height == self@.height,
    {
        self.height
    }

    /// Whether the window is centered on the screen.
    pub fn centered(&self) -> (centered: bool)
        ensures
            centered == self@.centered,
    {
        self.centered
    }

    /// Whether the window fills the screen.
    pub fn fullscreen(&self) -> (fullscreen: bool)
        ensures
            fullscreen == self@.fullscreen,
    {
        self.fullscreen
    }
}

} // verus!
