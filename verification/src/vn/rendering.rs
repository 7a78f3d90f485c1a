//! The renderer's window state.
use vstd::prelude::*;

verus! {

/// Window size, title and whether rendering is set up.
pub struct RenderEngine {
    width: u32,
    height: u32,
    title: String,
    initialized: bool,
}

impl RenderEngine {
    /// Window width.
    pub closed spec fn width_view(&self) -> u32 {
        self.width
    }

    /// Window height.
    pub closed spec fn height_view(&self) -> u32 {
        self.height
    }

    /// Window title.
    pub closed spec fn title_view(&self) -> Seq<char> {
        self.title@
    }

    /// Whether rendering is set up.
    pub closed spec fn initialized_view(&self) -> bool {
        self.initialized
    }

    /// A 1280x720 window titled "Visual Novel", not yet set up.
    pub fn new() -> (r: Self)
        ensures
            r.width_view() == 1280,
            r.height_view() == 720,
            r.title_view() == "Visual Novel"@,
            !r.initialized_view(),
    {
        RenderEngine { width: 1280, height: 720, title: "Visual Novel".to_string(), initialized: false }
    }

    /// Sets up rendering for a window of the given size and title; always
    /// succeeds.  (Vertical sync is not used.)
    pub fn initialize(&mut self, width: u32, height: u32, title: &str, vsync: bool) -> (r: Result<(), String>)
        ensures
            r is Ok,
            final(self).width_view() == width,
            final(self).height_view() == height,
            final(self).title_view() == title@,
            final(self).initialized_view(),
    {
        self.width = width;
        self.height = height;
        self.title = title.to_string();
        self.initialized = true;
        Ok(())
    }

    /// Tears rendering down; the window settings stay.
    pub fn shutdown(&mut self)
        ensures
            !final(self).initialized_view(),
            final(self).width_view() == old(self).width_view(),
            final(self).height_view() == old(self).height_view(),
            final(self).title_view() == old(self).title_view(),
    {
        self.initialized = false;
    }

    /// Clears the frame; changes no state.
    pub fn clear(&mut self)
        ensures
            final(self).width_view() == old(self).width_view(),
            final(self).height_view() == old(self).height_view(),
            final(self).title_view() == old(self).title_view(),
            final(self).initialized_view() == old(self).initialized_view(),
    {
    }

    /// Presents the frame; always succeeds and changes no state.
    pub fn present(&mut self) -> (r: Result<(), String>)
        ensures
            r is Ok,
            final(self).width_view() == old(self).width_view(),
            final(self).height_view() == old(self).height_view(),
            final(self).title_view() == old(self).title_view(),
            final(self).initialized_view() == old(self).initialized_view(),
    {
        Ok(())
    }

    /// Window width.
    pub fn width(&self) -> (r: u32)
        ensures
            r == self.width_view(),
    {
        self.width
    }

    /// Window height.
    pub fn height(&self) -> (r: u32)
        ensures
            r == self.height_view(),
    {
        self.height
    }

    /// Window title.
    pub fn title(&self) -> (r: &str)
        ensures
            r@ == self.title_view(),
    {
        self.title.as_str()
    }

    /// Whether rendering is set up.
    pub fn is_initialized(&self) -> (r: bool)
        ensures
            r == self.initialized_view(),
    {
        self.initialized
    }
}

impl Default for RenderEngine {
    /// Same as `RenderEngine::new`.
    fn default() -> (r: Self)
        ensures
            r.width_view() == 1280,
            r.height_view() == 720,
            r.title_view() == "Visual Novel"@,
            !r.initialized_view(),
    {
        RenderEngine::new()
    }
}

} // verus!
