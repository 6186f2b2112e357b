//! Resolved image assets as plain values: the base name an image is stored
//! under, its pixel size, and the site paths derived from them.  Decoding and
//! converting image files is outside work; whoever does it hands the results
//! to these types.
use vstd::prelude::*;
use vstd::view::DeepView;
use crate::text::push_str;

verus! {

/// The base name (without extension) an image's converted files are stored
/// under.
#[derive(Debug, PartialEq, Eq)]
pub struct ImageName {
    name: String,
}

/// A pixel size.
#[derive(Clone, Copy, Debug, PartialEq, Eq, Structural)]
pub struct ImageSize {
    width: u32,
    height: u32,
}

/// A fully resolved image: its stored name and its size.
#[derive(Debug, PartialEq, Eq)]
pub struct ImagePath {
    image_name: ImageName,
    size: ImageSize,
}

/// Mathematical model of an [`ImagePath`].
pub struct SpecImagePath {
    pub name: Seq<char>,
    pub width: u32,
    pub height: u32,
}

impl ImageName {
    /// The stored base name.
    pub closed spec fn spec_name(&self) -> Seq<char> {
        self.name@
    }

    pub fn new(name: String) -> (r: Self)
        ensures
            r.spec_name() == name@,
    {
        ImageName { name }
    }

    /// The file name of the thumbnail rendering.
    pub fn thumbnail_name(&self) -> (r: String)
        ensures
            r@ == self.spec_name() + "-thumb.jpeg"@,
    {
        let mut out = String::new();
        push_str(&mut out, self.name.as_str());
        push_str(&mut out, "-thumb.jpeg");
        out
    }

    /// The file name of the full-size rendering.
    pub fn actual_name(&self) -> (r: String)
        ensures
            r@ == self.spec_name() + ".webp"@,
    {
        let mut out = String::new();
        push_str(&mut out, self.name.as_str());
        push_str(&mut out, ".webp");
        out
    }

    /// The file name the content hash is cached under.
    pub fn hash_name(&self) -> (r: String)
        ensures
            r@ == self.spec_name() + ".xxh3"@,
    {
        let mut out = String::new();
        push_str(&mut out, self.name.as_str());
        push_str(&mut out, ".xxh3");
        out
    }
}

impl ImageSize {
    pub closed spec fn spec_width(&self) -> u32 {
        self.width
    }

    pub closed spec fn spec_height(&self) -> u32 {
        self.height
    }

    pub fn new(width: u32, height: u32) -> (r: Self)
        ensures
            r.spec_width() == width && r.spec_height() == height,
    {
        ImageSize { width, height }
    }
}

impl DeepView for ImagePath {
    type V = SpecImagePath;

    closed spec fn deep_view(&self) -> SpecImagePath {
        SpecImagePath {
            name: self.image_name.name@,
            width: self.size.width,
            height: self.size.height,
        }
    }
}

impl ImagePath {
    pub fn new(image_name: ImageName, size: ImageSize) -> (r: Self)
        ensures
            r.deep_view().name == image_name.spec_name(),
            r.deep_view().width == size.spec_width(),
            r.deep_view().height == size.spec_height(),
    {
        ImagePath { image_name, size }
    }

    pub fn height(&self) -> (r: u32)
        ensures
            r == self.deep_view().height,
    {
        self.size.height
    }

    pub fn width(&self) -> (r: u32)
        ensures
            r == self.deep_view().width,
    {
        self.size.width
    }

    /// The site path of the thumbnail rendering.
    pub fn thumbnail_path(&self) -> (r: String)
        ensures
            r@ == "/img/"@ + self.deep_view().name + "-thumb.jpeg"@,
    {
        let mut out = String::new();
        push_str(&mut out, "/img/");
        let n = self.image_name.thumbnail_name();
        push_str(&mut out, n.as_str());
        proof {
            assert(out@ =~= "/img/"@ + self.deep_view().name + "-thumb.jpeg"@);
        }
        out
    }

    /// The site path of the full-size rendering.
    pub fn actual_path(&self) -> (r: String)
        ensures
            r@ == "/img/"@ + self.deep_view().name + ".webp"@,
    {
        let mut out = String::new();
        push_str(&mut out, "/img/");
        let n = self.image_name.actual_name();
        push_str(&mut out, n.as_str());
        proof {
            assert(out@ =~= "/img/"@ + self.deep_view().name + ".webp"@);
        }
        out
    }
}

} // verus!
