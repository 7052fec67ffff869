//! The components that samples stand for.

use crate::image::embedded::EmbeddedPixel;
use crate::image::output::OutputSpace;
use crate::image::palette::{Palette, PaletteModel};
use crate::image::samples::SampleContext;
use vstd::prelude::*;

verus! {

/// How a host maps samples to components. Components are given by their bits in double precision.
pub struct Sampling<D, X, Y, W, O, R, M> {
    /// The components of the samples of a pixel.
    pub decode: D,
    /// The index that is nearest to a component.
    pub index: X,
    /// The components of an entry of the palette.
    pub entry: Y,
    /// The components of a matte, given by their bits in single precision.
    pub widen: W,
    /// The opacity that a sample of a mask stands for, and its byte.
    pub opacity: O,
    /// Undo the preblending of components with those of a matte, by an opacity.
    pub recover: R,
    /// The components of a pixel with an opacity channel. It is told whether they are still
    /// associated with the opacity.
    pub embedded: M,
}

/// What a host makes of samples.
pub struct Sampled {
    pub decode: spec_fn(Seq<u32>) -> Seq<u64>,
    pub index: spec_fn(u64) -> u8,
    pub entry: spec_fn(Seq<u8>) -> Seq<u64>,
    pub widen: spec_fn(Seq<u32>) -> Seq<u64>,
    pub opacity: spec_fn(SampleContext, u32) -> (u64, u8),
    pub recover: spec_fn(Seq<u64>, Seq<u64>, u64) -> Seq<u64>,
    pub embedded: spec_fn(u32, Seq<u32>, bool) -> Seq<u64>,
}

impl<
    D: Fn(&Vec<u32>) -> Vec<u64>,
    X: Fn(u64) -> u8,
    Y: Fn(&Vec<u8>) -> Vec<u64>,
    W: Fn(&Vec<u32>) -> Vec<u64>,
    O: Fn(&SampleContext, u32) -> (u64, u8),
    R: Fn(&Vec<u64>, &Vec<u64>, u64) -> Vec<u64>,
    M: Fn(&EmbeddedPixel, bool) -> Vec<u64>,
> Sampling<D, X, Y, W, O, R, M> {
    /// Everything can be mapped.
    pub open spec fn is_total(&self) -> bool {
        &&& forall|samples: &Vec<u32>| call_requires(self.decode, (samples,))
        &&& forall|value: u64| call_requires(self.index, (value,))
        &&& forall|entry: &Vec<u8>| call_requires(self.entry, (entry,))
        &&& forall|matte: &Vec<u32>| call_requires(self.widen, (matte,))
        &&& forall|context: &SampleContext, sample: u32|
            call_requires(self.opacity, (context, sample))
        &&& forall|values: &Vec<u64>, matte: &Vec<u64>, opacity: u64|
            call_requires(self.recover, (values, matte, opacity))
        &&& forall|pixel: &EmbeddedPixel, premultiplied: bool|
            call_requires(self.embedded, (pixel, premultiplied))
    }

    /// Samples are mapped in a given way.
    pub open spec fn gives(&self, to: Sampled) -> bool {
        &&& forall|samples: &Vec<u32>, result: Vec<u64>| #[trigger]
            call_ensures(self.decode, (samples,), result) ==> result@ == (to.decode)(samples@)
        &&& forall|value: u64, result: u8| #[trigger]
            call_ensures(self.index, (value,), result) ==> result == (to.index)(value)
        &&& forall|entry: &Vec<u8>, result: Vec<u64>| #[trigger]
            call_ensures(self.entry, (entry,), result) ==> result@ == (to.entry)(entry@)
        &&& forall|matte: &Vec<u32>, result: Vec<u64>| #[trigger]
            call_ensures(self.widen, (matte,), result) ==> result@ == (to.widen)(matte@)
        &&& forall|context: &SampleContext, sample: u32, result: (u64, u8)| #[trigger]
            call_ensures(self.opacity, (context, sample), result) ==> result == (to.opacity)(
                *context,
                sample,
            )
        &&& forall|values: &Vec<u64>, matte: &Vec<u64>, opacity: u64, result: Vec<u64>| #[trigger]
            call_ensures(self.recover, (values, matte, opacity), result) ==> result@ == (
            to.recover)(values@, matte@, opacity)
        &&& forall|pixel: &EmbeddedPixel, premultiplied: bool, result: Vec<u64>| #[trigger]
            call_ensures(self.embedded, (pixel, premultiplied), result) ==> result@ == (
            to.embedded)(pixel.alpha, pixel.colors@, premultiplied)
    }
}

/// What is known of an indexed color space.
#[derive(Debug)]
pub struct IndexedSpace {
    pub base: OutputSpace,
    pub palette: Palette,
}

/// An optional palette with sequences.
pub open spec fn palette_model(indexed: Option<IndexedSpace>) -> Option<PaletteModel> {
    match indexed {
        Some(indexed) => Some(indexed.palette@),
        None => None,
    }
}

/// The components of the entry with an index, or of the last one if there is none.
pub open spec fn entry_of(palette: PaletteModel, index: u8) -> Seq<u8> {
    let place = if index <= palette.last {
        index
    } else {
        palette.last
    };
    palette.table.subrange(place * palette.components, (place + 1) * palette.components)
}

/// The components of a color: an index stands for those of the nearest entry.
pub open spec fn base_values(palette: Option<PaletteModel>, values: Seq<u64>, to: Sampled) -> Seq<
    u64,
> {
    match palette {
        Some(palette) => if values.len() == 0 {
            values
        } else {
            (to.entry)(entry_of(palette, (to.index)(values[0])))
        },
        None => values,
    }
}

impl IndexedSpace {
    /// The palette is complete.
    pub open spec fn wf(&self) -> bool {
        self.palette.wf()
    }
}

/// Look up the components of a color.
pub fn look_up<
    D: Fn(&Vec<u32>) -> Vec<u64>,
    X: Fn(u64) -> u8,
    Y: Fn(&Vec<u8>) -> Vec<u64>,
    W: Fn(&Vec<u32>) -> Vec<u64>,
    O: Fn(&SampleContext, u32) -> (u64, u8),
    R: Fn(&Vec<u64>, &Vec<u64>, u64) -> Vec<u64>,
    M: Fn(&EmbeddedPixel, bool) -> Vec<u64>,
>(
    indexed: &Option<IndexedSpace>,
    values: Vec<u64>,
    sampling: &Sampling<D, X, Y, W, O, R, M>,
) -> (result: Vec<u64>)
    requires
        sampling.is_total(),
        indexed matches Some(indexed) ==> indexed.wf(),
    ensures
        forall|to: Sampled| #[trigger]
            sampling.gives(to) ==> result@ == base_values(palette_model(*indexed), values@, to),
{
    match indexed {
        None => values,
        Some(indexed) => {
            if values.len() == 0 {
                return values;
            }
            let nearest: u8 = (sampling.index)(values[0]);
            let place: u8 = if nearest <= indexed.palette.last {
                nearest
            } else {
                indexed.palette.last
            };
            let entry = indexed.palette.entry(place);
            (sampling.entry)(&entry)
        },
    }
}

} // verus!
