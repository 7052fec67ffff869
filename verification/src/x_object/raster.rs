//! Images that are handed to a device.

use crate::image::dictionary::{alpha_mode, embedded_alpha_mode, ImageKind, ImageXObject};
use crate::object::{Document, Stream};
use crate::types::{EmbeddedImageAlphaMode, ImageColorSpaceProperties};
use vstd::prelude::*;

verus! {

/// A stencil image, with the paint that shines through it.
#[derive(Debug)]
pub struct StencilImage<C> {
    pub paint: C,
    pub image: ImageXObject,
}

impl<C> StencilImage<C> {
    /// The width that the dictionary gives.
    pub fn width(&self) -> (width: u32)
        ensures
            width == self.image.width,
    {
        self.image.width
    }

    /// The height that the dictionary gives.
    pub fn height(&self) -> (height: u32)
        ensures
            height == self.image.height,
    {
        self.image.height
    }
}

/// A raster image.
#[derive(Debug)]
pub struct RasterImage<'a> {
    pub doc: &'a Document,
    pub stream: &'a Stream,
    pub image: ImageXObject,
}

impl<'a> RasterImage<'a> {
    /// How a JPEG 2000 opacity channel is associated with its color samples.
    ///
    /// `None` means that the image does not have an active embedded opacity channel. In
    /// particular, `/SMaskInData` is ignored for images that are not in JPEG 2000.
    pub fn embedded_alpha_mode(&self) -> (mode: Option<EmbeddedImageAlphaMode>)
        ensures
            mode == alpha_mode(*self.doc, self.stream.dict),
    {
        embedded_alpha_mode(self.doc, &self.stream.dict)
    }

    /// Typed source/effective color-space properties of the image.
    pub fn color_space_properties(&self) -> (properties: ImageColorSpaceProperties)
        ensures
            properties == self.image.color_space_properties,
    {
        self.image.color_space_properties
    }

    /// The underlying stream object.
    pub fn stream(&self) -> (stream: &'a Stream)
        ensures
            stream == self.stream,
    {
        self.stream
    }

    /// The width that the dictionary gives.
    pub fn width(&self) -> (width: u32)
        ensures
            width == self.image.width,
    {
        self.image.width
    }

    /// The height that the dictionary gives.
    pub fn height(&self) -> (height: u32)
        ensures
            height == self.image.height,
    {
        self.image.height
    }
}

/// A type of image.
#[derive(Debug)]
pub enum Image<'a, C> {
    /// A stencil image.
    Stencil(StencilImage<C>),
    /// A normal raster image.
    Raster(RasterImage<'a>),
}

impl<'a, C> Image<'a, C> {
    /// What the dictionary of the image describes.
    pub open spec fn described(&self) -> ImageXObject {
        match *self {
            Image::Stencil(stencil) => stencil.image,
            Image::Raster(raster) => raster.image,
        }
    }

    /// An image that is drawn: a mask is a stencil for the paint.
    pub fn new(doc: &'a Document, stream: &'a Stream, image: ImageXObject, paint: C) -> (drawn: Self)
        ensures
            drawn == (if image.kind != ImageKind::Image {
                Image::Stencil(StencilImage { paint, image })
            } else {
                Image::Raster(RasterImage { doc, stream, image })
            }),
    {
        if image.kind.is_mask() {
            Image::Stencil(StencilImage { paint, image })
        } else {
            Image::Raster(RasterImage { doc, stream, image })
        }
    }

    /// The width that the dictionary gives.
    pub fn width(&self) -> (width: u32)
        ensures
            width == self.described().width,
    {
        match self {
            Image::Stencil(stencil) => stencil.width(),
            Image::Raster(raster) => raster.width(),
        }
    }

    /// The height that the dictionary gives.
    pub fn height(&self) -> (height: u32)
        ensures
            height == self.described().height,
    {
        match self {
            Image::Stencil(stencil) => stencil.height(),
            Image::Raster(raster) => raster.height(),
        }
    }
}

} // verus!
