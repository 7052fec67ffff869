//! What holds of decoded images.

use crate::image::alpha::keyed_pixels;
use crate::image::decoder::{
    is_valid_mode, ImageDecoder, OpenedMask, Prepared, Remains, Rendered, RowsModel,
};
use crate::image::dictionary::{
    alpha_mode, has_matte, image_with, kind_of, mask_properties, uses_jpx, ImageKind, ImageXObject,
};
use crate::image::embedded::{encoded_pixels, JpxSamples};
use crate::image::matte::{recovered_output, MatteModel};
use crate::image::output::{
    has_output, is_gray, output_after, tripled, ColorTarget, Conversions, OutputModel,
};
use crate::image::rgb::{decode_fits, decoded_colors, direct_components};
use crate::image::sampling::Sampled;
use crate::image::tint::{empty_output, needs_native};
use crate::object::{Object, Stream};
use crate::types::{EmbeddedImageAlphaMode, ImageModel, PlaneModel};
use vstd::prelude::*;

verus! {

/// The bytes of colors, whether gray or not.
pub open spec fn plane_in(image: ImageModel) -> PlaneModel {
    match image {
        ImageModel::Rgb(plane) => plane,
        ImageModel::Luma(plane) => plane,
    }
}

/// All bytes that are decoded of an image have its width, its interpolation and its scale.
pub proof fn lemma_plane_of_image(decoder: ImageDecoder, data: Seq<u8>, height: u32)
    ensures
        decoder.plane_of(data, height).data == data,
        decoder.plane_of(data, height).width == decoder.context.width,
        decoder.plane_of(data, height).height == height,
        decoder.plane_of(data, height).interpolate == decoder.image.interpolate,
        decoder.plane_of(data, height).scale_factors == decoder.scale_factors,
{
}

/// Colors are gray where the components convert to gray, unless the transfer function treats
/// channels apart; otherwise they are RGB, converted in place where that is possible. A transfer
/// function comes last.
pub proof fn lemma_components_colored(decoder: ImageDecoder, rows: RowsModel, by: Rendered)
    ensures
        ({
            let after = |data: Seq<u8>| if decoder.has_transfer_function {
                (by.transfer)(data)
            } else {
                data
            };
            let colored = decoder.colored(rows, by);
            &&& colored matches Some(image) ==> plane_in(image).height == rows.height && plane_in(
                image,
            ).width == decoder.context.width
            &&& decoder.transfers_channels ==> !(colored matches Some(ImageModel::Luma(_)))
            &&& !decoder.transfers_channels && (by.luma)(rows.data) is Some ==> (colored matches Some(
                ImageModel::Luma(plane),
            ) && plane.data == after((by.luma)(rows.data)->0))
            &&& decoder.transfers_channels || (by.luma)(rows.data) is None ==> {
                &&& (by.in_place)(rows.data) is Some ==> (colored matches Some(
                    ImageModel::Rgb(plane),
                ) && plane.data == after((by.in_place)(rows.data)->0))
                &&& (by.in_place)(rows.data) is None ==> match (by.convert)(
                    rows.data,
                    decoder.context.width,
                    rows.height,
                ) {
                    Some(rgb) => colored matches Some(ImageModel::Rgb(plane)) && plane.data
                        == after(rgb),
                    None => colored is None,
                }
            }
        }),
{
}

/// Stored samples that are components already are taken as they are, or inverted byte by byte;
/// others are mapped first. Rows are completed in any case.
pub proof fn lemma_stored_components(decoder: ImageDecoder, to: Prepared)
    ensures
        ({
            let c = decoder.context;
            let stored = decoder.stored_components(to);
            &&& c.components == 0 ==> stored is None
            &&& c.components > 0 && decoder.direct() is Some ==> match (to.fix)(
                c.data@,
                c.width,
                c.height,
                c.components,
            ) {
                Some((data, height)) => {
                    &&& stored matches Some(rows)
                    &&& rows.height == height
                    &&& rows.data.len() == data.len()
                    &&& forall|i: int|
                        0 <= i < data.len() ==> if decoder.direct() == Some(true) {
                            #[trigger] rows.data[i] + data[i] == 255
                        } else {
                            rows.data[i] == data[i]
                        }
                },
                None => stored is None,
            }
            &&& c.components > 0 && decoder.direct() is None ==> match (to.narrow)(c) {
                Some(bytes) => match (to.fix)(bytes, c.width, c.height, c.components) {
                    Some((data, height)) => stored matches Some(rows) && rows.data == data
                        && rows.height == height,
                    None => stored is None,
                },
                None => stored is None,
            }
        }),
{
}

/// The colors of an image with an opacity channel are still associated with it if the dictionary
/// says so and the decoder has not undone it.
pub proof fn lemma_association(decoder: ImageDecoder, source: JpxSamples)
    ensures
        decoder.is_premultiplied(source) ==> alpha_mode(*decoder.doc, *decoder.dict) == Some(
            EmbeddedImageAlphaMode::Premultiplied,
        ),
        source.premultiplication_removed ==> !decoder.is_premultiplied(source),
        alpha_mode(*decoder.doc, *decoder.dict) == Some(EmbeddedImageAlphaMode::Premultiplied)
            && !source.premultiplication_removed ==> decoder.is_premultiplied(source),
{
}

/// An image in JPEG 2000 whose opacity channel counts takes its components from its channels, and
/// any other image from its samples.
pub proof fn lemma_component_source(decoder: ImageDecoder, to: Prepared)
    ensures
        alpha_mode(*decoder.doc, *decoder.dict) is None ==> decoder.components(to)
            == decoder.stored_components(to),
        alpha_mode(*decoder.doc, *decoder.dict) is Some ==> (decoder.components(to) matches Some(
            rows,
        ) ==> {
            &&& decoder.jpx_samples matches Some(source)
            &&& source.components@.len() == decoder.context.components + 1
            &&& rows.height == decoder.context.height
            &&& rows.data == encoded_pixels(
                source.components@,
                |alpha: u32, colors: Seq<u32>|
                    (to.embedded)(alpha, colors, decoder.is_premultiplied(source)),
                (decoder.context.width * decoder.context.height) as nat,
            )
        }),
{
}

/// An image with an opacity channel that counts has it as its opacity, whatever masks there are.
pub proof fn lemma_channel_opacity(
    decoder: ImageDecoder,
    left: Remains,
    to: Prepared,
    masks: spec_fn(Stream, ImageXObject) -> Option<PlaneModel>,
)
    requires
        alpha_mode(*decoder.doc, *decoder.dict) is Some,
    ensures
        decoder.alpha is None ==> decoder.opacity(left, to, masks) is None,
        decoder.alpha matches Some(alpha) ==> match (to.fix)(
            alpha@,
            decoder.context.width,
            left.height,
            1,
        ) {
            Some((data, height)) => decoder.opacity(left, to, masks) matches Some(plane)
                && plane.data == data && plane.height == height && plane.width
                == decoder.context.width,
            None => decoder.opacity(left, to, masks) is None,
        },
{
}

/// The opacity of an image is its soft mask, or else its mask, decoded as the mask that its
/// dictionary describes.
pub proof fn lemma_mask_opacity(
    decoder: ImageDecoder,
    mask: Stream,
    left: Remains,
    to: Prepared,
    masks: spec_fn(Stream, ImageXObject) -> Option<PlaneModel>,
)
    requires
        alpha_mode(*decoder.doc, *decoder.dict) is None,
        decoder.doc.value(*decoder.dict, "SMask"@) == Some(Object::Stream(mask)) || (!(
        decoder.doc.value(*decoder.dict, "SMask"@) matches Some(Object::Stream(_)))
            && decoder.doc.value(*decoder.dict, "Mask"@) == Some(Object::Stream(mask))),
    ensures
        match image_with(
            *decoder.doc,
            mask.dict,
            kind_of(*decoder.doc, mask.dict, ImageKind::Mask),
            mask_properties(),
        ) {
            Some(image) => decoder.opacity(left, to, masks) == masks(mask, image)
                && !(image.kind is Image),
            None => decoder.opacity(left, to, masks) is None,
        },
{
}

/// Without a mask in a stream the opacity is that of the color key, and without a key the image is
/// opaque.
pub proof fn lemma_key_opacity(
    decoder: ImageDecoder,
    left: Remains,
    to: Prepared,
    masks: spec_fn(Stream, ImageXObject) -> Option<PlaneModel>,
)
    requires
        alpha_mode(*decoder.doc, *decoder.dict) is None,
        !(decoder.doc.value(*decoder.dict, "SMask"@) matches Some(Object::Stream(_))),
        !(decoder.doc.value(*decoder.dict, "Mask"@) matches Some(Object::Stream(_))),
    ensures
        decoder.color_key is None ==> decoder.opacity(left, to, masks) is None,
        decoder.color_key matches Some(key) ==> {
            &&& left.keyed is Some ==> decoder.opacity(left, to, masks) == left.keyed
            &&& left.keyed is None ==> match (to.unpack)(
                left.data,
                decoder.context.width,
                left.height,
                decoder.context.components,
                decoder.context.bits_per_component,
            ) {
                Some(samples) => match (to.fix)(
                    keyed_pixels(samples, decoder.context.components as int, key@),
                    decoder.context.width,
                    left.height,
                    1,
                ) {
                    Some((data, height)) => decoder.opacity(left, to, masks) matches Some(plane)
                        && plane.data == data && plane.height == height && plane.width
                        == decoder.context.width,
                    None => decoder.opacity(left, to, masks) is None,
                },
                None => decoder.opacity(left, to, masks) is None,
            }
        },
{
}

/// Moving samples out does not lose the color key: it is applied to them before.
pub proof fn lemma_key_applied_before_move(decoder: ImageDecoder, to: Prepared)
    requires
        alpha_mode(*decoder.doc, *decoder.dict) is None,
        (to.fix)(
            decoder.context.data@,
            decoder.context.width,
            decoder.context.height,
            decoder.context.components,
        ) is Some,
    ensures
        decoder.direct() is Some && decoder.color_key is Some ==> decoder.remains(to).keyed
            == decoder.keyed_from(
            ((to.fix)(
                decoder.context.data@,
                decoder.context.width,
                decoder.context.height,
                decoder.context.components,
            )->0).0,
            decoder.remains(to).height,
            to,
        ),
        decoder.direct() is None ==> decoder.remains(to).data == decoder.context.data@
            && decoder.remains(to).keyed == decoder.keyed(),
        decoder.direct() is Some && decoder.color_key is None ==> decoder.remains(to).keyed
            == decoder.keyed(),
{
}

/// Lab images without masks are decoded exactly, and tints that bytes do not stand for as tints;
/// all others by their components.
pub proof fn lemma_color_paths(
    decoder: ImageDecoder,
    to: Prepared,
    by: Rendered,
    of: Sampled,
    conv: Conversions,
)
    ensures
        ({
            let bare = decoder.space.output.kind is Lab && decoder.dict.raw("Mask"@) is None
                && decoder.dict.raw("SMask"@) is None && alpha_mode(
                *decoder.doc,
                *decoder.dict,
            ) is None;
            let tint = decoder.space.output.uses_tint_transform && needs_native(
                decoder.context.bits_per_component,
                decoder.context.decode@,
                match decoder.space.index_decode {
                    Some(maps) => maps@,
                    None => decoder.space.ranges@,
                },
            );
            let colors = decoder.colors(to, by, of, conv);
            &&& bare ==> colors == decoder.exact_colors(by) && decoder.left(to)
                == decoder.untouched()
            &&& !bare && tint ==> colors == decoder.finished(
                decoder.tint_output(of, conv, ColorTarget::Rgb),
                by,
            ) && decoder.left(to) == decoder.untouched()
            &&& !bare && !tint ==> colors == (match decoder.components(to) {
                Some(rows) => decoder.colored(rows, by),
                None => None,
            }) && decoder.left(to) == decoder.remains(to)
        }),
{
}

/// Colors that are decoded exactly are the colors of all pixels, with the transfer function
/// applied, in full height.
pub proof fn lemma_exact_colors(decoder: ImageDecoder, by: Rendered)
    ensures
        decoder.exact_colors(by) matches Some(image) ==> {
            &&& image is Rgb
            &&& plane_in(image).height == decoder.context.height
            &&& plane_in(image).width == decoder.context.width
            &&& decoded_colors(decoder.context, by.pixel) matches Ok(data) && plane_in(image).data
                == if decoder.has_transfer_function {
                (by.transfer)(data)
            } else {
                data
            }
            &&& decode_fits(*decoder.doc, *decoder.dict, 3)
            &&& decoder.alpha is None
            &&& direct_components(decoder.space.output.kind) == Some(decoder.context.components)
        },
{
}

/// Tints are put out for all pixels in reading order. Colors of byte tints are kept only for inks
/// of one component that bytes stand for.
pub proof fn lemma_tint_output(
    decoder: ImageDecoder,
    of: Sampled,
    conv: Conversions,
    target: ColorTarget,
)
    ensures
        decoder.tint_output(of, conv, target) matches Some(output) ==> {
            let space = decoder.space.output;
            let count = decoder.context.width * decoder.context.height;
            &&& space.components == decoder.context.components
            &&& decode_fits(*decoder.doc, *decoder.dict, decoder.context.components)
            &&& decoder.context.error(uses_jpx(*decoder.doc, *decoder.dict)) is None
            &&& has_output(space, count as usize, target)
            &&& exists|keeps: bool|
                output_after(
                    #[trigger] empty_output(space, count as usize, target, keeps),
                    decoder.context,
                    of.decode,
                    conv,
                    count as nat,
                ) == Some(output) && (keeps ==> target is Cmyk && decoder.context.components == 1)
        },
        target is Cmyk && decoder.space.output.device_alternate != Some(
            crate::types::ColorSpaceKind::DeviceCmyk,
        ) ==> decoder.tint_output(of, conv, target) is None,
{
    if decoder.tint_output(of, conv, target) is Some {
        let keeps = target == ColorTarget::Cmyk && decoder.context.components == 1 && !needs_native(
            decoder.context.bits_per_component,
            decoder.context.decode@,
            decoder.plain_maps(),
        );
        let start = empty_output(
            decoder.space.output,
            decoder.pixels() as usize,
            target,
            keeps,
        );
        assert(start.space == decoder.space.output);
    }
}

/// An output starts with nothing put out, nothing waiting, and all pixels still to come.
pub proof fn lemma_output_start(
    space: crate::image::output::OutputSpace,
    count: usize,
    target: ColorTarget,
    keeps: bool,
)
    ensures
        ({
            let start = empty_output(space, count, target, keeps);
            &&& start.space == space
            &&& start.target == target
            &&& start.remaining == count
            &&& start.data.len() == 0
            &&& start.batch.len() == 0
            &&& start.native_batch.len() == 0
            &&& start.byte_tints.len() == if keeps {
                256nat
            } else {
                0nat
            }
            &&& forall|i: int|
                0 <= i < start.byte_tints.len() ==> (#[trigger] start.byte_tints[i]) is None
        }),
{
}

/// The colors of an output are the image in full height once all pixels have come: gray if the
/// space is, unless the transfer function treats channels apart.
pub proof fn lemma_output_finished(decoder: ImageDecoder, output: OutputModel, by: Rendered)
    ensures
        decoder.finished(None, by) is None,
        decoder.finished(Some(output), by) is Some <==> output.remaining == 0
            && output.target is Rgb,
        decoder.finished(Some(output), by) matches Some(image) ==> {
            let data = if is_gray(output.space) && decoder.transfers_channels {
                tripled(output.data)
            } else {
                output.data
            };
            &&& image is Luma <==> is_gray(output.space) && !decoder.transfers_channels
            &&& plane_in(image).height == decoder.context.height
            &&& plane_in(image).data == if decoder.has_transfer_function {
                (by.transfer)(data)
            } else {
                data
            }
        },
{
}

/// An image is decoded if its colors are; its opacity is that of what they leave.
pub proof fn lemma_decoded(
    decoder: ImageDecoder,
    to: Prepared,
    by: Rendered,
    of: Sampled,
    conv: Conversions,
    masks: spec_fn(Stream, ImageXObject) -> Option<PlaneModel>,
)
    ensures
        match decoder.colors(to, by, of, conv) {
            Some(image) => decoder.decoded(to, by, of, conv, masks) matches Some(decoded)
                && decoded.image == image && decoded.alpha == decoder.opacity(
                decoder.left(to),
                to,
                masks,
            ),
            None => decoder.decoded(to, by, of, conv, masks) is None,
        },
{
}

/// The mode of an opacity channel is valid if it is absent or one of the three; it does not matter
/// outside JPEG 2000.
pub proof fn lemma_valid_mode(decoder: ImageDecoder)
    ensures
        !uses_jpx(*decoder.doc, *decoder.dict) ==> is_valid_mode(*decoder.doc, *decoder.dict),
        uses_jpx(*decoder.doc, *decoder.dict) ==> (is_valid_mode(*decoder.doc, *decoder.dict)
            <==> match decoder.doc.value(*decoder.dict, "SMaskInData"@) {
            None => true,
            Some(Object::Null) => true,
            Some(Object::Number(number)) => number.integer == Some(0i64) || number.integer == Some(
                1i64,
            ) || number.integer == Some(2i64),
            _ => false,
        }),
{
}

/// Device colors come from one source only, and from none if anything modifies them.
pub proof fn lemma_device_sources(decoder: ImageDecoder, output: OutputModel)
    ensures
        decoder.can_be_device_cmyk() <==> decoder.image.kind is Image && is_valid_mode(
            *decoder.doc,
            *decoder.dict,
        ) && !decoder.has_transfer_function,
        !(decoder.is_device_cmyk() && decoder.is_plain_tint()),
        !(decoder.is_device_cmyk() && decoder.is_matted_tint()),
        !(decoder.is_plain_tint() && decoder.is_matted_tint()),
        decoder.is_device_cmyk() <==> decoder.space.output.kind is DeviceCmyk && !has_matte(
            *decoder.doc,
            *decoder.dict,
        ),
        !(decoder.space.output.kind is DeviceCmyk) && has_matte(*decoder.doc, *decoder.dict)
            ==> decoder.is_matted_tint(),
        !(decoder.space.output.kind is DeviceCmyk) && !has_matte(*decoder.doc, *decoder.dict)
            && alpha_mode(*decoder.doc, *decoder.dict) is None ==> decoder.is_plain_tint(),
        decoder.device_plane(output) is Some <==> output.remaining == 0 && output.target is Cmyk
            && !decoder.has_transfer_function,
        decoder.device_plane(output) matches Some(plane) ==> plane.data == output.data
            && plane.height == decoder.context.height && plane.width == decoder.context.width,
{
}

/// The tints of an image in its alternate device space come with its opacity.
pub proof fn lemma_plain_tints(
    decoder: ImageDecoder,
    to: Prepared,
    of: Sampled,
    conv: Conversions,
    masks: spec_fn(Stream, ImageXObject) -> Option<PlaneModel>,
)
    ensures
        decoder.plain_tints(to, of, conv, masks) matches Some(planes) ==> {
            &&& decoder.tint_output(of, conv, ColorTarget::Cmyk) matches Some(output)
            &&& planes.image.data == output.data
            &&& output.remaining == 0
            &&& planes.alpha == decoder.opacity(decoder.untouched(), to, masks)
        },
{
}

/// A matte is undone with a mask that can be opened and belongs to the image, in the base of a
/// palette. The opacities have the size and the scale of the mask.
pub proof fn lemma_unmatted(
    decoder: ImageDecoder,
    found: MatteModel,
    opened: OpenedMask,
    of: Sampled,
    conv: Conversions,
    target: ColorTarget,
    alpha: Seq<u8>,
)
    ensures
        decoder.unmatted(found, None, of, conv, target) is None,
        decoder.unmatted(found, Some(opened), of, conv, target) matches Some(recovered) ==> {
            let space = match decoder.space.indexed {
                Some(indexed) => indexed.base,
                None => decoder.space.output,
            };
            let count = decoder.context.width * decoder.context.height;
            &&& opened.context.width == decoder.context.width
            &&& opened.context.height == decoder.context.height
            &&& !opened.has_alpha
            &&& decoder.alpha is None
            &&& recovered_output(
                empty_output(space, count as usize, target, false),
                decoder.context,
                opened.context,
                match decoder.space.indexed {
                    Some(indexed) => Some(indexed.palette@),
                    None => None,
                },
                found.matte,
                of,
                conv,
                count as nat,
            ) == Some(recovered)
        },
        ({
            let plane = decoder.recovered_plane(found, opened, alpha);
            &&& plane.data == alpha
            &&& plane.width == opened.context.width
            &&& plane.height == opened.context.height
            &&& plane.interpolate == found.image.interpolate
            &&& plane.scale_factors == opened.scale_factors
        }),
{
}

/// An image with an opacity channel has the channel as its opacity, in full height.
pub proof fn lemma_embedded_image(
    decoder: ImageDecoder,
    by: Rendered,
    of: Sampled,
    conv: Conversions,
)
    ensures
        decoder.embedded_image(by, of, conv) matches Some(decoded) ==> {
            &&& decoder.alpha matches Some(alpha) && (decoded.alpha matches Some(plane)
                && plane.data == alpha@ && plane.height == decoder.context.height)
            &&& decoder.jpx_samples matches Some(source) && source.components@.len()
                == decoder.context.components + 1
            &&& plane_in(decoded.image).height == decoder.context.height
        },
        decoder.alpha is None || decoder.jpx_samples is None ==> decoder.embedded_image(
            by,
            of,
            conv,
        ) is None,
{
}

} // verus!
