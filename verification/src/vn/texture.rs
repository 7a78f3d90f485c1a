//! Decoded images and where assets are found.
use vstd::prelude::*;
use crate::text::concat_strings;

verus! {

/// An image decoded to RGBA bytes, four per pixel, row by row.
pub struct Texture {
    path: String,
    width: u32,
    height: u32,
    data: Vec<u8>,
}

impl Texture {
    /// The file it was loaded from.
    pub closed spec fn path_view(&self) -> Seq<char> {
        self.path@
    }

    /// Width in pixels.
    pub closed spec fn width_view(&self) -> u32 {
        self.width
    }

    /// Height in pixels.
    pub closed spec fn height_view(&self) -> u32 {
        self.height
    }

    /// The RGBA bytes.
    pub closed spec fn data_view(&self) -> Seq<u8> {
        self.data@
    }

    /// A texture from decoded RGBA pixels.
    pub fn from_parts(path: String, width: u32, height: u32, data: Vec<u8>) -> (r: Self)
        requires
            data@.len() == 4 * width * height,
        ensures
            r.path_view() == path@,
            r.width_view() == width,
            r.height_view() == height,
            r.data_view() == data@,
            r.data_view().len() == 4 * r.width_view() * r.height_view(),
    {
        Texture { path, width, height, data }
    }

    /// Width in pixels.
    pub fn width(&self) -> (r: u32)
        ensures
            r == self.width_view(),
    {
        self.width
    }

    /// Height in pixels.
    pub fn height(&self) -> (r: u32)
        ensures
            r == self.height_view(),
    {
        self.height
    }

    /// The RGBA bytes.
    pub fn data(&self) -> (r: &[u8])
        ensures
            r@ == self.data_view(),
    {
        self.data.as_slice()
    }

    /// The file it was loaded from.
    pub fn path(&self) -> (r: &str)
        ensures
            r@ == self.path_view(),
    {
        self.path.as_str()
    }
}

/// The directory assets are looked up in unless set otherwise.
pub open spec fn default_asset_base() -> Seq<char> {
    "assets/"@
}

/// The default asset directory.
pub fn default_base_path() -> (r: String)
    ensures
        r@ == default_asset_base(),
{
    "assets/".to_string()
}

/// Where the asset `path` is found: the base path followed by `path`.
pub fn asset_path(base_path: &str, path: &str) -> (r: String)
    ensures
        r@ == base_path@ + path@,
{
    concat_strings(base_path, path)
}

} // verus!
