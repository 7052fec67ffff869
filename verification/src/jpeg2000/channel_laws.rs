//! What holds of the channels of images in JPEG 2000 and of the boxes around them.

use crate::jpeg2000::cdef::{
    association_of, defines, entry_at, half_at, type_of, valid_box, ChannelAssociation,
    ChannelDefinition, ChannelType,
};
use crate::jpeg2000::channels::{
    channel_mappings, channel_order, color_request, compatible, counted_from_one, covered,
    declared_colors, definitions, expanded_layout, has_opacity, is_color, is_opacity, layout_for,
    layout_of, lemma_channel_order, mapping_ok, orderable, signed_opacity, stated_components,
    ChannelLayout, ColorSpace, LayoutModel,
};
use crate::jpeg2000::container::{
    is_laid_out, no_boxes, unfinished, with_child, with_children, BoxesModel, ChildBox,
    ColorSpecificationBox, ComponentMappingBox, ComponentMappingEntry, ComponentMappingType,
    DecodeSettings, Header, ImageBoxes, PaletteBox,
};
use crate::jpeg2000::error::{DecodeError, FormatError, ValidationError};
use vstd::prelude::*;

verus! {

/// Channel types are numbered from zero to two. An association is with the whole image, which is
/// numbered zero, or with a color.
pub proof fn lemma_definition_numbers(value: int)
    requires
        0 <= value <= 0xFFFF,
    ensures
        type_of(value) is Some <==> value <= 2,
        type_of(value) == Some(ChannelType::Colour) <==> value == 0,
        type_of(value) == Some(ChannelType::Opacity) <==> value == 1,
        type_of(value) == Some(ChannelType::PremultipliedOpacity) <==> value == 2,
        association_of(value) == Some(ChannelAssociation::WholeImage) <==> value == 0,
        association_of(value) is None <==> value == 0xFFFF,
        0 < value < 0xFFFF ==> association_of(value) == Some(
            ChannelAssociation::Colour(value as u16),
        ),
{
}

/// A box starts with the number of its definitions. Each has a channel, a type and an association
/// of two bytes, the greater one first, and stands at the place of its channel; no channel is left
/// out.
pub proof fn lemma_box_read(data: Seq<u8>, defs: Seq<ChannelDefinition>, i: int)
    requires
        valid_box(data),
        defines(data, defs),
        0 <= i < defs.len(),
    ensures
        defs.len() == 256 * data[0] + data[1],
        data.len() >= 2 + 6 * defs.len(),
        defs[i].channel_index == i,
        ({
            let channel = 256 * data[6 * i + 2] + data[6 * i + 3];
            let kind = 256 * data[6 * i + 4] + data[6 * i + 5];
            let association = 256 * data[6 * i + 6] + data[6 * i + 7];
            &&& 0 <= channel < defs.len()
            &&& kind <= 2
            &&& association != 0xFFFF
            &&& defs[channel].channel_type is Colour <==> kind == 0
            &&& defs[channel].channel_type is Opacity <==> kind == 1
            &&& defs[channel].association is WholeImage <==> association == 0
            &&& association > 0 ==> defs[channel].association == ChannelAssociation::Colour(
                association as u16,
            )
        }),
{
    let entry = entry_at(data, i);
    assert(entry is Some);
    assert(half_at(data, 6 * i + 2) == 256 * data[6 * i + 2] + data[6 * i + 3]);
    assert((entry->0).channel_index == half_at(data, 6 * i + 2));
    assert(defs[(entry->0).channel_index as int] == entry->0);
}

/// Two definitions of a valid box are for different channels.
pub proof fn lemma_channels_distinct(data: Seq<u8>, i: int, j: int)
    requires
        valid_box(data),
        0 <= i < j < half_at(data, 0),
    ensures
        half_at(data, 6 * i + 2) != half_at(data, 6 * j + 2),
{
    assert(entry_at(data, i) is Some);
    assert(entry_at(data, j) is Some);
    assert((entry_at(data, i)->0).channel_index == half_at(data, 6 * i + 2));
    assert((entry_at(data, j)->0).channel_index == half_at(data, 6 * j + 2));
}

/// Gray images have one channel, RGB images three and CMYK images four; others say how many.
pub proof fn lemma_channel_counts(num_channels: u8)
    ensures
        ColorSpace::Gray.channels() == 1,
        ColorSpace::RGB.channels() == 3,
        ColorSpace::CMYK.channels() == 4,
        (ColorSpace::Unknown { num_channels }).channels() == num_channels,
        (ColorSpace::Icc { num_channels }).channels() == num_channels,
{
}

/// In the order of channels each color has the channel of its definition, the first color first,
/// and opacity comes last.
pub proof fn lemma_ordered(
    defs: Seq<ChannelDefinition>,
    channel_count: int,
    color_count: int,
    i: int,
)
    requires
        orderable(defs, channel_count, color_count),
        counted_from_one(defs),
        0 <= i < defs.len(),
    ensures
        ({
            let order = channel_order(defs, color_count);
            &&& defs[i].channel_index < channel_count
            &&& defs[i].channel_type is Colour ==> (defs[i].association
                matches ChannelAssociation::Colour(color) ==> 1 <= color <= color_count
                && order[color - 1] == defs[i].channel_index)
            &&& !(defs[i].channel_type is Colour) && !(defs[i].association is Unspecified)
                ==> order.len() == color_count + 1 && order[color_count] == defs[i].channel_index
            &&& order.len() == color_count || order.len() == color_count + 1
            &&& order.len() == color_count + 1 ==> exists|j: int|
                0 <= j < defs.len() && !((#[trigger] defs[j]).channel_type is Colour)
        }),
{
    lemma_channel_order(defs, channel_count, color_count);
    assert(crate::jpeg2000::channels::admissible(defs[i], channel_count, color_count));
    match defs[i].association {
        ChannelAssociation::Colour(color) => {
            if defs[i].channel_type is Colour {
                assert(is_color(defs[i], color as int));
            }
        },
        _ => {},
    }
    if !(defs[i].channel_type is Colour) && !(defs[i].association is Unspecified) {
        assert(is_opacity(defs[i]));
    }
    if has_opacity(defs) {
        let j = choose|j: int| 0 <= j < defs.len() && is_opacity(#[trigger] defs[j]);
        assert(!(defs[j].channel_type is Colour));
    }
}

/// Definitions order channels if every channel has one, every color has exactly one, and opacity
/// is in one channel, for the whole image or for all colors.
pub proof fn lemma_orderable(
    defs: Seq<ChannelDefinition>,
    channel_count: int,
    color_count: int,
    i: int,
    j: int,
    channel: int,
)
    requires
        orderable(defs, channel_count, color_count),
        0 <= i < j < defs.len(),
    ensures
        channel_count > 0 && color_count > 0,
        defs[i].channel_index == defs[j].channel_index ==> defs[i].channel_type
            == defs[j].channel_type,
        defs[i].channel_type is Colour && defs[j].channel_type is Colour && defs[i].association is
            Colour ==> defs[i].association != defs[j].association,
        !(defs[i].channel_type is Colour) && !(defs[j].channel_type is Colour) && !(
        defs[i].association is Unspecified) && !(defs[j].association is Unspecified)
            ==> defs[i].channel_index == defs[j].channel_index,
        defs[i].channel_type is Colour ==> !(defs[i].association is WholeImage),
        0 <= channel < channel_count ==> exists|k: int|
            0 <= k < defs.len() && (#[trigger] defs[k]).channel_index == channel,
{
    assert(crate::jpeg2000::channels::compatible(defs[i], defs[j]));
    assert(crate::jpeg2000::channels::admissible(defs[i], channel_count, color_count));
    if 0 <= channel < channel_count {
        assert(crate::jpeg2000::channels::defined(defs, channel));
    }
}

/// The declared number of colors is the greatest color that a definition names.
pub proof fn lemma_declared_colors(defs: Seq<ChannelDefinition>)
    ensures
        match declared_colors(defs) {
            Some(count) => {
                &&& forall|i: int|
                    0 <= i < defs.len() && (#[trigger] defs[i]).channel_type is Colour ==> (
                    defs[i].association matches ChannelAssociation::Colour(color) ==> color
                        <= count)
                &&& exists|i: int|
                    0 <= i < defs.len() && (#[trigger] defs[i]).channel_type is Colour && (
                    defs[i].association matches ChannelAssociation::Colour(color) && color == count)
            },
            None => forall|i: int|
                0 <= i < defs.len() && (#[trigger] defs[i]).channel_type is Colour ==> !(
                defs[i].association is Colour),
        },
    decreases defs.len(),
{
    if defs.len() > 0 {
        let rest = defs.drop_last();
        lemma_declared_colors(rest);
        assert forall|i: int| 0 <= i < rest.len() implies #[trigger] defs[i] == rest[i] by {}
        assert(defs[defs.len() - 1] == defs.last());
        if declared_colors(defs) is Some && declared_colors(defs) == declared_colors(rest) {
            let count = declared_colors(rest)->0;
            let i = choose|i: int|
                0 <= i < rest.len() && (#[trigger] rest[i]).channel_type is Colour && (
                rest[i].association matches ChannelAssociation::Colour(color) && color == count);
            assert(defs[i] == rest[i]);
        }
    }
}

/// As many colors are asked for as are declared, or else as there are channels.
pub proof fn lemma_colors_requested(boxes: ImageBoxes, mappings: Seq<ComponentMappingEntry>)
    ensures
        boxes.channel_definition is None ==> color_request(boxes, mappings) == mappings.len(),
        boxes.channel_definition matches Some(given) ==> (declared_colors(
            given.channel_definitions@,
        ) matches Some(count) ==> color_request(boxes, mappings) == count),
{
}

/// Without a palette the channels are the components, in order; with one they are those of the
/// mapping, which has to be there. Every channel is made from what exists.
pub proof fn lemma_channels_mapped(
    boxes: ImageBoxes,
    raw_count: nat,
    entry: ComponentMappingEntry,
    i: int,
)
    requires
        0 <= i < raw_count <= 0x1_0000,
    ensures
        boxes.palette is None ==> (channel_mappings(boxes, raw_count) matches Some(mappings)
            && mappings.len() == raw_count && mappings[i].component_index == i
            && mappings[i].mapping_type is Direct),
        boxes.palette is Some ==> match boxes.component_mapping {
            Some(mapping) => channel_mappings(boxes, raw_count) == Some(mapping.entries@),
            None => channel_mappings(boxes, raw_count) is None,
        },
        mapping_ok(entry, raw_count as int, boxes.palette) ==> entry.component_index < raw_count,
        mapping_ok(entry, raw_count as int, boxes.palette) ==> (entry.mapping_type
            matches ComponentMappingType::Palette { column } ==> (boxes.palette matches Some(palette)
            && column < palette.column_count)),
{
}

/// The number of colors that a caller states counts where the palette is resolved or absent.
pub proof fn lemma_stated(boxes: ImageBoxes, settings: DecodeSettings, stated: Option<u8>)
    ensures
        boxes.palette is None ==> stated_components(boxes, settings, stated) == stated,
        settings.resolve_palette_indices ==> stated_components(boxes, settings, stated) == stated,
        boxes.palette is Some && !settings.resolve_palette_indices ==> stated_components(
            boxes,
            settings,
            stated,
        ) is None,
{
}

/// Without definitions an image has the channels of its space, and one more for opacity unless it
/// is read strictly. Where they do not fit, one, three or four channels are gray, RGB or CMYK, and
/// other numbers are refused.
pub proof fn lemma_layout_without_definitions(
    boxes: ImageBoxes,
    header: Header,
    strict: bool,
    mappings: Seq<ComponentMappingEntry>,
    space: ColorSpace,
)
    requires
        boxes.channel_definition is None,
    ensures
        ({
            let layout = layout_for(boxes, header, strict, mappings, space);
            let n = mappings.len() as int;
            let c = space.channels();
            &&& layout matches Ok(found) ==> found.mappings == mappings
            &&& n == c ==> (layout matches Ok(found) && found.color_space == space
                && !found.has_alpha)
            &&& n == c + 1 && !strict ==> (layout matches Ok(found) && found.color_space == space
                && found.has_alpha)
            &&& n != c && (strict || n != c + 1) ==> {
                &&& n == 1 ==> (layout matches Ok(found) && found.color_space is Gray
                    && !found.has_alpha)
                &&& n == 3 ==> (layout matches Ok(found) && found.color_space is RGB
                    && !found.has_alpha)
                &&& n == 4 ==> (layout matches Ok(found) && found.color_space is CMYK
                    && !found.has_alpha)
                &&& n != 1 && n != 3 && n != 4 ==> layout == Err::<LayoutModel, DecodeError>(
                    DecodeError::Validation(ValidationError::TooManyChannels),
                )
            }
        }),
{
}

/// With definitions an image has its channels in their order, and opacity if they define it. They
/// are refused if they contradict each other, or if opacity is signed.
pub proof fn lemma_layout_with_definitions(
    boxes: ImageBoxes,
    header: Header,
    strict: bool,
    mappings: Seq<ComponentMappingEntry>,
    space: ColorSpace,
)
    requires
        boxes.channel_definition is Some,
    ensures
        ({
            let defs = (boxes.channel_definition->0).channel_definitions@;
            let layout = layout_for(boxes, header, strict, mappings, space);
            let order = channel_order(defs, space.channels());
            &&& layout matches Ok(found) ==> {
                &&& orderable(defs, mappings.len() as int, space.channels())
                &&& found.color_space == space
                &&& found.has_alpha == has_opacity(defs)
                &&& found.mappings.len() == order.len()
                &&& forall|i: int|
                    0 <= i < order.len() ==> #[trigger] found.mappings[i]
                        == mappings[order[i] as int]
                &&& forall|i: int|
                    0 <= i < defs.len() && !((#[trigger] defs[i]).channel_type is Colour)
                        && mappings[defs[i].channel_index as int].mapping_type is Direct
                        ==> !header.component_infos@[mappings[defs[i].channel_index as int].component_index as int].is_signed
            }
            &&& !orderable(defs, mappings.len() as int, space.channels()) ==> layout is Err
        }),
{
    let defs = (boxes.channel_definition->0).channel_definitions@;
    assert(definitions(boxes) == defs);
    if layout_for(boxes, header, strict, mappings, space) is Ok {
        assert forall|i: int|
            0 <= i < defs.len() && !((#[trigger] defs[i]).channel_type is Colour)
                && mappings[defs[i].channel_index as int].mapping_type is Direct implies !header.component_infos@[mappings[defs[i].channel_index as int].component_index as int].is_signed by {
            assert(!signed_opacity(defs[i], mappings, header));
        }
    }
}

/// Palette indices that are not to be resolved are gray channels, one for every component.
pub proof fn lemma_unresolved_palette(
    boxes: ImageBoxes,
    header: Header,
    settings: DecodeSettings,
    stated: Option<u8>,
    named: Result<ColorSpace, DecodeError>,
)
    ensures
        boxes.palette is None || settings.resolve_palette_indices ==> layout_of(
            boxes,
            header,
            settings,
            stated,
            named,
        ) == expanded_layout(boxes, header, settings, stated, named),
        boxes.palette is Some && !settings.resolve_palette_indices ==> (layout_of(
            boxes,
            header,
            settings,
            stated,
            named,
        ) matches Ok(layout) ==> layout.color_space is Gray && !layout.has_alpha
            && layout.mappings.len() == header.component_infos@.len() && forall|i: int|
            0 <= i < layout.mappings.len() ==> (
            #[trigger] layout.mappings[i]).mapping_type is Direct),
        layout_of(boxes, header, settings, stated, named) is Ok <==> expanded_layout(
            boxes,
            header,
            settings,
            stated,
            named,
        ) is Ok,
{
}

/// A space that the caller states is used in place of the one that the host names.
pub proof fn lemma_space_chosen(
    boxes: ImageBoxes,
    header: Header,
    settings: DecodeSettings,
    stated: Option<u8>,
    named: Result<ColorSpace, DecodeError>,
)
    ensures
        expanded_layout(boxes, header, settings, stated, named) matches Ok(layout) ==> {
            &&& channel_mappings(boxes, header.component_infos@.len()) matches Some(mappings)
            &&& forall|i: int|
                0 <= i < mappings.len() ==> mapping_ok(
                    #[trigger] mappings[i],
                    header.component_infos@.len() as int,
                    boxes.palette,
                )
            &&& match stated_components(boxes, settings, stated) {
                Some(num_channels) => layout_for(
                    boxes,
                    header,
                    settings.strict,
                    mappings,
                    ColorSpace::Unknown { num_channels },
                ) == Ok::<LayoutModel, DecodeError>(layout),
                None => named matches Ok(space) && layout_for(
                    boxes,
                    header,
                    settings.strict,
                    mappings,
                    space,
                ) == Ok::<LayoutModel, DecodeError>(layout),
            }
        },
{
}

/// Channel definitions, a palette and a component mapping stand at most once.
pub proof fn lemma_boxes_once(
    m: BoxesModel,
    stated: bool,
    data: Vec<u8>,
    palette: Result<PaletteBox, DecodeError>,
    mapping: Result<ComponentMappingBox, DecodeError>,
)
    ensures
        m.channel_definition is Some ==> with_child(
            m,
            stated,
            ChildBox::ChannelDefinition(data),
        ) is Err,
        m.palette is Some ==> with_child(m, stated, ChildBox::Palette(palette)) is Err,
        m.component_mapping is Some ==> with_child(
            m,
            stated,
            ChildBox::ComponentMapping(mapping),
        ) is Err,
        with_child(m, stated, ChildBox::Unreadable) is Err,
        with_child(m, stated, ChildBox::Other) == Ok::<BoxesModel, DecodeError>(m),
{
}

/// A box that is read is kept, and changes nothing else.
pub proof fn lemma_box_kept(
    m: BoxesModel,
    data: Vec<u8>,
    palette: PaletteBox,
    mapping: ComponentMappingBox,
    specification: ColorSpecificationBox,
    error: DecodeError,
)
    ensures
        m.palette is None ==> (with_child(m, true, ChildBox::Palette(Ok(palette))) matches Ok(after)
            && after.palette == Some(palette) && after.component_mapping == m.component_mapping
            && after.channel_definition == m.channel_definition && after.color_specification
            == m.color_specification),
        m.component_mapping is None ==> (with_child(
            m,
            true,
            ChildBox::ComponentMapping(Ok(mapping)),
        ) matches Ok(after) && after.component_mapping == Some(mapping.entries@) && after.palette
            == m.palette && after.channel_definition == m.channel_definition),
        with_child(m, true, ChildBox::ColorSpecification(Ok(specification))) == Ok::<
            BoxesModel,
            DecodeError,
        >(m),
        with_child(m, true, ChildBox::ColorSpecification(Err(error))) == Ok::<
            BoxesModel,
            DecodeError,
        >(m),
        with_child(m, false, ChildBox::ColorSpecification(Ok(specification))) matches Ok(after)
            && after.color_specification == Some(specification) && after.palette == m.palette
            && after.channel_definition == m.channel_definition,
        with_child(m, false, ChildBox::ColorSpecification(Err(error))) is Err,
        with_child(m, false, ChildBox::ChannelDefinition(data)) matches Ok(after) ==> valid_box(
            data@,
        ) && after.channel_definition is Some && after.palette == m.palette,
        m.channel_definition is None && valid_box(data@) ==> with_child(
            m,
            false,
            ChildBox::ChannelDefinition(data),
        ) is Ok,
{
}

/// The boxes of a header are read in order, starting from none.
pub proof fn lemma_boxes_in_order(children: Seq<ChildBox>, stated: bool, count: nat)
    ensures
        with_children(children, stated, 0) == Ok::<BoxesModel, DecodeError>(no_boxes()),
        no_boxes().palette is None && no_boxes().component_mapping is None
            && no_boxes().channel_definition is None && no_boxes().color_specification is None,
        with_children(children, stated, count + 1) == match with_children(
            children,
            stated,
            count,
        ) {
            Ok(m) => with_child(m, stated, children[count as int]),
            Err(error) => Err(error),
        },
{
    reveal_with_fuel(with_children, 2);
}

/// A file needs a header and a codestream, and a palette needs a mapping as a mapping needs a
/// palette.
pub proof fn lemma_finished(m: BoxesModel, header: Header, codestream: Option<Header>)
    ensures
        unfinished(None, codestream) is Some,
        unfinished(Some(m), None) == Some(DecodeError::Format(FormatError::MissingCodestream)),
        unfinished(Some(m), Some(header)) is None <==> (m.palette is Some
            <==> m.component_mapping is Some),
{
}

/// Where definitions order channels, opacity is that of the whole image or of each color.
pub proof fn lemma_opacity_complete(
    defs: Seq<ChannelDefinition>,
    channel_count: int,
    color_count: int,
    i: int,
    color: int,
)
    requires
        orderable(defs, channel_count, color_count),
        0 <= i < defs.len(),
        !(defs[i].channel_type is Colour),
        !(defs[i].association is Unspecified),
        1 <= color <= color_count,
    ensures
        exists|j: int|
            0 <= j < defs.len() && !((#[trigger] defs[j]).channel_type is Colour) && (
            defs[j].association is WholeImage || defs[j].association == ChannelAssociation::Colour(
                color as u16,
            )),
{
    assert(is_opacity(defs[i]));
    assert(has_opacity(defs));
    if !covered(defs, ChannelAssociation::WholeImage) {
        assert(covered(defs, ChannelAssociation::Colour(color as u16)));
    }
}

/// Reading channel definitions keeps the other boxes.
pub proof fn lemma_other_boxes(a: ImageBoxes, b: ImageBoxes)
    requires
        a.channel_definition == b.channel_definition,
    ensures
        a.same_but_channels(&b) <==> a == b,
{
}

/// The channels are those that some name of the color space leads to, which the host gives if the
/// channels are in order.
pub proof fn lemma_laid_out<
    N: Fn(Option<ColorSpecificationBox>, usize) -> Result<ColorSpace, DecodeError>,
>(
    layout: ChannelLayout,
    boxes: ImageBoxes,
    header: Header,
    settings: DecodeSettings,
    stated: Option<u8>,
    name: N,
)
    requires
        is_laid_out(Ok(layout), boxes, header, settings, stated, name),
    ensures
        exists|named: Result<ColorSpace, DecodeError>| #[trigger]
            layout_of(boxes, header, settings, stated, named) == Ok::<LayoutModel, DecodeError>(
                layout@,
            ),
{
}

/// Definitions of different channels for different things do not contradict each other, unless
/// both are of opacity. Definitions of opacity for different things share a channel.
pub proof fn lemma_definitions_apart(a: ChannelDefinition, b: ChannelDefinition)
    requires
        a.association != b.association,
    ensures
        a.channel_index != b.channel_index && (a.channel_type is Colour || b.channel_type is Colour)
            ==> compatible(a, b),
        a.channel_index == b.channel_index && a.channel_type == b.channel_type ==> compatible(a, b),
{
}

} // verus!
