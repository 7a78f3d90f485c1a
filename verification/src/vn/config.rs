//! Game settings.
use vstd::prelude::*;

verus! {

/// Window and timing settings of a game.
#[derive(Debug, Clone)]
pub struct GameConfig {
    pub title: String,
    pub width: u32,
    pub height: u32,
    pub fullscreen: bool,
    pub vsync: bool,
    pub target_fps: u32,
}

impl Default for GameConfig {
    /// "Visual Novel", 1280x720, windowed, vsync on, 60 frames per second.
    fn default() -> (r: Self)
        ensures
            r.title@ == "Visual Novel"@,
            r.width == 1280,
            r.height == 720,
            !r.fullscreen,
            r.vsync,
            r.target_fps == 60,
    {
        GameConfig {
            title: "Visual Novel".to_string(),
            width: 1280,
            height: 720,
            fullscreen: false,
            vsync: true,
            target_fps: 60,
        }
    }
}

} // verus!
