//! Undoing preblending with a matte before source color conversion.

use crate::function::numeric::Interval;
use crate::function::single::{finite, is_finite, rank, rank_of};
use crate::image::dictionary::{
    byte_of, image_with, kind_of, mask_properties, read_byte, uses_jpx, uses_jpx_decode, ImageKind,
    ImageXObject,
};
use crate::image::embedded::EmbeddedPixel;
use crate::image::output::{with_color, ColorOutput, Conversion, Conversions, OutputModel};
use crate::image::palette::PaletteModel;
use crate::image::rgb::{decode_fits, validate_decode};
use crate::image::samples::{SampleContext, Samples};
use crate::image::sampling::{base_values, look_up, palette_model, IndexedSpace, Sampled, Sampling};
use crate::object::{
    has_name, is_named, spelled, spells, Array, Dict, Document, MaybeRef, Object, Stream,
};
use vstd::prelude::*;

verus! {

/// A component of a matte lies in the range of the component.
pub open spec fn matte_component(doc: Document, item: MaybeRef, range: Interval) -> Option<u32> {
    match doc.resolved(item) {
        Some(Object::Number(number)) => if finite(number.narrowed) && rank(range.low) <= rank(
            number.narrowed,
        ) <= rank(range.high) {
            Some(number.narrowed)
        } else {
            None
        },
        _ => None,
    }
}

/// The components of a matte, if there is one for each component, within its range.
pub open spec fn matte_of(doc: Document, items: Seq<MaybeRef>, ranges: Seq<Interval>) -> Option<
    Seq<u32>,
> {
    if items.len() == ranges.len() && forall|i: int|
        0 <= i < items.len() ==> matte_component(doc, #[trigger] items[i], ranges[i]) is Some {
        Some(Seq::new(items.len(), |i: int| matte_component(doc, items[i], ranges[i])->0))
    } else {
        None
    }
}

/// The name of one of two keys is the given one. The first key counts if it has a name.
pub open spec fn names(
    doc: Document,
    dict: Dict,
    first: Seq<char>,
    second: Seq<char>,
    text: Seq<char>,
) -> bool {
    match doc.value(dict, first) {
        Some(Object::Name(name)) => spelled(name@, text),
        _ => is_named(doc.value(dict, second), text),
    }
}

/// An entry does not make an image a stencil mask.
pub open spec fn is_not_stencil(doc: Document, dict: Dict, key: Seq<char>) -> bool {
    match doc.value(dict, key) {
        None | Some(Object::Null) | Some(Object::Boolean(false)) => true,
        _ => false,
    }
}

/// A dictionary is that of a soft mask whose matte can be undone.
pub open spec fn is_matte_dict(doc: Document, dict: Dict) -> bool {
    &&& is_named(doc.value(dict, "Subtype"@), "Image"@)
    &&& names(doc, dict, "ColorSpace"@, "CS"@, "DeviceGray"@)
    &&& !dict.has("Mask"@)
    &&& !dict.has("SMask"@)
    &&& dict.has("Type"@) ==> is_named(doc.value(dict, "Type"@), "XObject"@)
    &&& is_not_stencil(doc, dict, "IM"@)
    &&& is_not_stencil(doc, dict, "ImageMask"@)
    &&& uses_jpx(doc, dict) || byte_of(doc, dict, "BitsPerComponent"@) is Some || byte_of(
        doc,
        dict,
        "BPC"@,
    ) is Some
}

/// A soft mask with a matte, as its dictionary describes it.
pub struct MatteModel {
    pub mask: Stream,
    pub matte: Seq<u32>,
    pub image: ImageXObject,
}

/// The soft mask of an image, if its matte can be undone.
pub open spec fn matte_mask_of(
    doc: Document,
    dict: Dict,
    image: ImageXObject,
    ranges: Seq<Interval>,
) -> Option<MatteModel> {
    match doc.value(dict, "SMask"@) {
        Some(Object::Stream(mask)) => match doc.value(mask.dict, "Matte"@) {
            Some(Object::Array(array)) => match (
                matte_of(doc, array.items@, ranges),
                image_with(
                    doc,
                    mask.dict,
                    kind_of(doc, mask.dict, ImageKind::Mask),
                    mask_properties(),
                ),
            ) {
                (Some(matte), Some(opacity)) => if is_matte_dict(doc, mask.dict) && opacity.width
                    == image.width && opacity.height == image.height && decode_fits(
                    doc,
                    dict,
                    ranges.len() as usize,
                ) && decode_fits(doc, mask.dict, 1) {
                    Some(MatteModel { mask, matte, image: opacity })
                } else {
                    None
                },
                _ => None,
            },
            _ => None,
        },
        _ => None,
    }
}

/// A soft mask with a matte.
#[derive(Debug)]
pub struct MatteMask<'a> {
    pub mask: &'a Stream,
    /// The components of the matte, given by their bits in single precision.
    pub matte: Vec<u32>,
    pub image: ImageXObject,
}

fn read_matte(doc: &Document, array: &Array, ranges: &Vec<Interval>) -> (matte: Option<Vec<u32>>)
    ensures
        match matte_of(*doc, array.items@, ranges@) {
            Some(expected) => matte matches Some(matte) && matte@ == expected,
            None => matte is None,
        },
{
    if array.items.len() != ranges.len() {
        return None;
    }
    let mut matte: Vec<u32> = Vec::new();
    let mut i: usize = 0;
    while i < array.items.len()
        invariant
            i <= array.items@.len() == ranges@.len(),
            matte@.len() == i,
            forall|k: int|
                0 <= k < i ==> matte_component(*doc, #[trigger] array.items@[k], ranges@[k])
                    == Some(matte@[k]),
        decreases array.items@.len() - i,
    {
        let range = ranges[i];
        match doc.resolve(&array.items[i]) {
            Some(Object::Number(number)) => {
                let value: u32 = number.narrowed;
                if !is_finite(value) || rank_of(value) < rank_of(range.low) || rank_of(value)
                    > rank_of(range.high) {
                    assert(matte_component(*doc, array.items@[i as int], ranges@[i as int])
                        is None);
                    return None;
                }
                matte.push(value);
            },
            _ => {
                assert(matte_component(*doc, array.items@[i as int], ranges@[i as int]) is None);
                return None;
            },
        }
        i = i + 1;
    }
    proof {
        let expected = Seq::new(
            array.items@.len(),
            |k: int| matte_component(*doc, array.items@[k], ranges@[k])->0,
        );
        assert forall|k: int| 0 <= k < matte@.len() implies matte@[k] == expected[k] by {
            assert(matte_component(*doc, array.items@[k], ranges@[k]) == Some(matte@[k]));
        }
        assert(matte@ =~= expected);
    }
    Some(matte)
}

fn is_no_stencil(doc: &Document, dict: &Dict, key: &str) -> (result: bool)
    ensures
        result == is_not_stencil(*doc, *dict, key@),
{
    match doc.lookup(dict, key) {
        None => true,
        Some(Object::Null) => true,
        Some(Object::Boolean(value)) => !*value,
        _ => false,
    }
}

fn can_be_matte_dict(doc: &Document, dict: &Dict) -> (result: bool)
    ensures
        result == is_matte_dict(*doc, *dict),
{
    let gray = match doc.lookup(dict, "ColorSpace") {
        Some(Object::Name(name)) => spells(name.as_slice(), "DeviceGray"),
        _ => has_name(doc.lookup(dict, "CS"), "DeviceGray"),
    };
    has_name(doc.lookup(dict, "Subtype"), "Image") && gray && !dict.contains_key("Mask")
        && !dict.contains_key("SMask") && (!dict.contains_key("Type") || has_name(
        doc.lookup(dict, "Type"),
        "XObject",
    )) && is_no_stencil(doc, dict, "IM") && is_no_stencil(doc, dict, "ImageMask") && (
    uses_jpx_decode(doc, dict) || read_byte(doc, dict, "BitsPerComponent").is_some() || read_byte(
        doc,
        dict,
        "BPC",
    ).is_some())
}

/// The soft mask of an image, if its matte can be undone.
///
/// `ranges` are the ranges of the components of the image.
pub fn matte_mask<'a>(
    doc: &'a Document,
    dict: &'a Dict,
    image: &ImageXObject,
    ranges: &Vec<Interval>,
) -> (result: Option<MatteMask<'a>>)
    ensures
        match matte_mask_of(*doc, *dict, *image, ranges@) {
            Some(expected) => {
                &&& result matches Some(found)
                &&& *found.mask == expected.mask
                &&& found.matte@ == expected.matte
                &&& found.image == expected.image
            },
            None => result is None,
        },
{
    let mask = match doc.lookup(dict, "SMask") {
        Some(Object::Stream(mask)) => mask,
        _ => {
            return None;
        },
    };
    let array = match doc.lookup(&mask.dict, "Matte") {
        Some(Object::Array(array)) => array,
        _ => {
            return None;
        },
    };
    let matte = match read_matte(doc, array, ranges) {
        Some(matte) => matte,
        None => {
            return None;
        },
    };
    let opacity = match ImageXObject::new_mask(doc, &mask.dict) {
        Some(opacity) => opacity,
        None => {
            return None;
        },
    };
    let components: usize = ranges.len();
    if !can_be_matte_dict(doc, &mask.dict) || opacity.width != image.width || opacity.height
        != image.height {
        return None;
    }
    if validate_decode(doc, dict, components).is_err() || validate_decode(
        doc,
        &mask.dict,
        1,
    ).is_err() {
        return None;
    }
    Some(MatteMask { mask, matte, image: opacity })
}

/// The output and the opacities of pixels.
pub struct RecoveredModel {
    pub output: OutputModel,
    pub alpha: Seq<u8>,
}

/// The components of a pixel with its preblending undone, and the byte of its opacity.
///
/// Both the color and the matte are looked up in the palette before, if there is one.
pub open spec fn recovered_pixel(
    palette: Option<PaletteModel>,
    matte: Seq<u32>,
    mask: SampleContext,
    samples: Seq<u32>,
    sample: u32,
    of: Sampled,
) -> (Seq<u64>, u8) {
    let (opacity, alpha) = (of.opacity)(mask, sample);
    (
        (of.recover)(
            base_values(palette, (of.decode)(samples), of),
            base_values(palette, (of.widen)(matte), of),
            opacity,
        ),
        alpha,
    )
}

/// The output and the opacities after the first `count` pixels, row by row.
pub open spec fn recovered_output(
    output: OutputModel,
    source: SampleContext,
    mask: SampleContext,
    palette: Option<PaletteModel>,
    matte: Seq<u32>,
    of: Sampled,
    to: Conversions,
    count: nat,
) -> Option<RecoveredModel>
    decreases count,
{
    if count == 0 {
        Some(RecoveredModel { output, alpha: Seq::empty() })
    } else {
        let i = count - 1;
        let width = source.width as int;
        match recovered_output(
            output,
            source,
            mask,
            palette,
            matte,
            of,
            to,
            (count - 1) as nat,
        ) {
            None => None,
            Some(before) => {
                let (values, alpha) = recovered_pixel(
                    palette,
                    matte,
                    mask,
                    source.pixel(i / width, i % width),
                    mask.pixel(i / width, i % width)[0],
                    of,
                );
                match with_color(before.output, values, to) {
                    None => None,
                    Some(output) => Some(RecoveredModel { output, alpha: before.alpha.push(alpha) }),
                }
            },
        }
    }
}

proof fn lemma_failed_recovery(
    output: OutputModel,
    source: SampleContext,
    mask: SampleContext,
    palette: Option<PaletteModel>,
    matte: Seq<u32>,
    of: Sampled,
    to: Conversions,
    count: nat,
    more: nat,
)
    requires
        count <= more,
        recovered_output(output, source, mask, palette, matte, of, to, count) is None,
    ensures
        recovered_output(output, source, mask, palette, matte, of, to, more) is None,
    decreases more,
{
    if count < more {
        lemma_failed_recovery(
            output,
            source,
            mask,
            palette,
            matte,
            of,
            to,
            count,
            (more - 1) as nat,
        );
    }
}

/// Samples of an image, and what else was decoded with them.
#[derive(Debug)]
pub struct Decoded<'a> {
    pub context: &'a SampleContext,
    /// Whether the image is in JPEG 2000.
    pub jpx: bool,
    /// Whether the samples come with an opacity channel.
    pub has_alpha: bool,
}

/// The samples of an image and of its soft mask belong together.
pub open spec fn belong_together(source: Decoded, opacity: Decoded) -> bool {
    &&& source.context.width == opacity.context.width
    &&& source.context.height == opacity.context.height
    &&& !source.has_alpha
    &&& !opacity.has_alpha
    &&& source.context.error(source.jpx) is None
    &&& opacity.context.error(opacity.jpx) is None
    &&& source.context.width * source.context.height <= usize::MAX
}

/// Undo the preblending of a pixel.
fn recover_pixel<
    D: Fn(&Vec<u32>) -> Vec<u64>,
    X: Fn(u64) -> u8,
    Y: Fn(&Vec<u8>) -> Vec<u64>,
    W: Fn(&Vec<u32>) -> Vec<u64>,
    O: Fn(&SampleContext, u32) -> (u64, u8),
    R: Fn(&Vec<u64>, &Vec<u64>, u64) -> Vec<u64>,
    M: Fn(&EmbeddedPixel, bool) -> Vec<u64>,
>(
    indexed: &Option<IndexedSpace>,
    matte: &Vec<u32>,
    mask: &SampleContext,
    samples: &Vec<u32>,
    sample: u32,
    sampling: &Sampling<D, X, Y, W, O, R, M>,
) -> (result: (Vec<u64>, u8))
    requires
        sampling.is_total(),
        indexed matches Some(indexed) ==> indexed.wf(),
    ensures
        forall|of: Sampled| #[trigger]
            sampling.gives(of) ==> (result.0@, result.1) == recovered_pixel(
                palette_model(*indexed),
                matte@,
                *mask,
                samples@,
                sample,
                of,
            ),
{
    let values = look_up(indexed, (sampling.decode)(samples), sampling);
    let matte = look_up(indexed, (sampling.widen)(matte), sampling);
    let (opacity, alpha) = (sampling.opacity)(mask, sample);
    ((sampling.recover)(&values, &matte, opacity), alpha)
}

/// Put out the colors of an image, with its preblending undone. The opacities follow.
#[verifier::rlimit(40)]
pub fn recover_colors<
    D: Fn(&Vec<u32>) -> Vec<u64>,
    X: Fn(u64) -> u8,
    Y: Fn(&Vec<u8>) -> Vec<u64>,
    W: Fn(&Vec<u32>) -> Vec<u64>,
    O: Fn(&SampleContext, u32) -> (u64, u8),
    R: Fn(&Vec<u64>, &Vec<u64>, u64) -> Vec<u64>,
    M: Fn(&EmbeddedPixel, bool) -> Vec<u64>,
    T: Fn(u64) -> u8,
    A: Fn(&Vec<u64>) -> Option<[u8; 4]>,
    I: Fn(&Vec<u64>) -> Option<Vec<u64>>,
    J: Fn(&Vec<u64>) -> Option<Vec<u8>>,
    N: Fn(&Vec<u64>) -> Option<[u8; 3]>,
    E: Fn(&Vec<u64>) -> Vec<u8>,
    C: Fn(&Vec<u8>) -> Option<Vec<u8>>,
>(
    output: &mut ColorOutput,
    source: &Decoded,
    mask: &Decoded,
    indexed: &Option<IndexedSpace>,
    matte: &Vec<u32>,
    sampling: &Sampling<D, X, Y, W, O, R, M>,
    conversion: &Conversion<T, A, I, J, N, E, C>,
) -> (result: Option<Vec<u8>>)
    requires
        old(output).wf(),
        sampling.is_total(),
        conversion.is_total(),
        indexed matches Some(indexed) ==> indexed.wf(),
    ensures
        final(output).wf(),
        !belong_together(*source, *mask) ==> result is None,
        forall|of: Sampled, to: Conversions|
            #[trigger] sampling.gives(of) && #[trigger] conversion.gives(to) && belong_together(
                *source,
                *mask,
            ) ==> match recovered_output(
                old(output)@,
                *source.context,
                *mask.context,
                palette_model(*indexed),
                matte@,
                of,
                to,
                (source.context.width * source.context.height) as nat,
            ) {
                Some(expected) => {
                    &&& result matches Some(alpha)
                    &&& alpha@ == expected.alpha
                    &&& final(output)@ == expected.output
                },
                None => result is None,
            },
{
    if source.context.width != mask.context.width || source.context.height != mask.context.height
        || source.has_alpha || mask.has_alpha {
        return None;
    }
    let mut source_samples = match Samples::new(source.context, source.jpx) {
        Ok(samples) => samples,
        Err(_) => {
            return None;
        },
    };
    let mut mask_samples = match Samples::new(mask.context, mask.jpx) {
        Ok(samples) => samples,
        Err(_) => {
            return None;
        },
    };
    assert(source.context.width * source.context.height <= 0xFFFF_FFFF * 0xFFFF_FFFF && 0
        <= source.context.width * source.context.height) by (nonlinear_arith)
        requires
            source.context.width <= 0xFFFF_FFFF,
            source.context.height <= 0xFFFF_FFFF,
    ;
    let count: u64 = source.context.width as u64 * source.context.height as u64;
    if count > usize::MAX as u64 {
        return None;
    }
    let ghost width = source.context.width as int;
    let ghost height = source.context.height as int;
    let ghost palette = palette_model(*indexed);
    let ghost start = output@;
    let mut alpha: Vec<u8> = Vec::new();
    let mut index: u64 = 0;
    assert(source_samples.index() == 0 && mask_samples.index() == 0);
    assert(alpha@ =~= Seq::empty());
    while index < count
        invariant
            index <= count == width * height,
            width == source.context.width == mask.context.width,
            height == source.context.height == mask.context.height,
            width > 0,
            palette == palette_model(*indexed),
            indexed matches Some(indexed) ==> indexed.wf(),
            source_samples.wf(),
            mask_samples.wf(),
            source_samples.context == source.context,
            mask_samples.context == mask.context,
            source_samples.row == mask_samples.row,
            source_samples.column == mask_samples.column,
            source_samples.index() == index,
            belong_together(*source, *mask),
            sampling.is_total(),
            conversion.is_total(),
            output.wf(),
            start == old(output)@,
            forall|of: Sampled, to: Conversions|
                #[trigger] sampling.gives(of) && #[trigger] conversion.gives(to)
                    ==> recovered_output(
                    start,
                    *source.context,
                    *mask.context,
                    palette,
                    matte@,
                    of,
                    to,
                    index as nat,
                ) == Some(RecoveredModel { output: output@, alpha: alpha@ }),
        decreases count - index,
    {
        let ghost row = source_samples.row as int;
        let ghost column = source_samples.column as int;
        proof {
            vstd::arithmetic::div_mod::lemma_fundamental_div_mod_converse(
                row * width + column,
                width,
                row,
                column,
            );
            assert(row < height) by (nonlinear_arith)
                requires
                    row * width + column < width * height,
                    0 <= column,
                    0 < width,
            ;
        }
        let samples = match source_samples.read() {
            Ok(samples) => samples,
            Err(_) => {
                assert(false);
                return None;
            },
        };
        let opacities = match mask_samples.read() {
            Ok(samples) => samples,
            Err(_) => {
                assert(false);
                return None;
            },
        };
        let ghost before = output@;
        let (values, byte) = recover_pixel(
            indexed,
            matte,
            mask.context,
            &samples,
            opacities[0],
            sampling,
        );
        let pushed = output.push(&values, conversion);
        let ghost earlier = alpha@;
        alpha.push(byte);
        proof {
            let next = (index + 1) as nat;
            assert forall|of: Sampled, to: Conversions|
                #[trigger] sampling.gives(of) && #[trigger] conversion.gives(
                    to,
                ) implies recovered_output(
                start,
                *source.context,
                *mask.context,
                palette,
                matte@,
                of,
                to,
                next,
            ) == match pushed {
                Some(_) => Some(RecoveredModel { output: output@, alpha: alpha@ }),
                None => None,
            } by {
                assert(recovered_output(
                    start,
                    *source.context,
                    *mask.context,
                    palette,
                    matte@,
                    of,
                    to,
                    index as nat,
                ) == Some(RecoveredModel { output: before, alpha: earlier }));
                assert((next - 1) as nat == index as nat);
                assert((values@, byte) == recovered_pixel(
                    palette,
                    matte@,
                    *mask.context,
                    source.context.pixel(row, column),
                    mask.context.pixel(row, column)[0],
                    of,
                ));
            }
            if pushed is None {
                assert forall|of: Sampled, to: Conversions|
                    #[trigger] sampling.gives(of) && #[trigger] conversion.gives(
                        to,
                    ) implies recovered_output(
                    start,
                    *source.context,
                    *mask.context,
                    palette,
                    matte@,
                    of,
                    to,
                    count as nat,
                ) is None by {
                    lemma_failed_recovery(
                        start,
                        *source.context,
                        *mask.context,
                        palette,
                        matte@,
                        of,
                        to,
                        next,
                        count as nat,
                    );
                }
            }
        }
        if pushed.is_none() {
            return None;
        }
        index = index + 1;
    }
    Some(alpha)
}

/// There is one opacity for each pixel.
pub proof fn lemma_one_opacity_each(
    output: OutputModel,
    source: SampleContext,
    mask: SampleContext,
    palette: Option<PaletteModel>,
    matte: Seq<u32>,
    of: Sampled,
    to: Conversions,
    count: nat,
)
    ensures
        recovered_output(output, source, mask, palette, matte, of, to, count) matches Some(result)
            ==> result.alpha.len() == count,
    decreases count,
{
    if count > 0 {
        lemma_one_opacity_each(
            output,
            source,
            mask,
            palette,
            matte,
            of,
            to,
            (count - 1) as nat,
        );
    }
}

} // verus!
