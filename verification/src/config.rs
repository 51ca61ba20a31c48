use vstd::prelude::*;

verus! {

/// Options for opening a window: its title, its initial size in pixels,
/// and an optional frame-rate cap.
#[derive(Debug, Clone, Copy)]
pub struct Config<'a> {
    pub title: &'a str,
    pub width: u32,
    pub height: u32,
    pub target_fps: Option<u32>,
}

impl<'a> Default for Config<'a> {
    /// A 640 by 480 window titled "Soft2D Window", capped at 60 frames per
    /// second.
    fn default() -> (c: Self)
        ensures
            c.title@ == "Soft2D Window"@,
            c.width == 640,
            c.height == 480,
            c.target_fps == Some(60u32),
    {
        Config { title: "Soft2D Window", width: 640, height: 480, target_fps: Some(60) }
    }
}

} // verus!
