use hayro_core::jpeg2000::cdef::{parse, ChannelAssociation, ChannelDefinitionBox, ChannelType};
use hayro_core::jpeg2000::channels::{map_channels, requested_colors, resolve, ColorSpace};
use hayro_core::jpeg2000::container::{
    ChildBox, ColorSpecificationBox, ComponentInfo, ComponentMappingBox, ComponentMappingEntry,
    ComponentMappingType, ContainerReader, DecodeSettings, Header, ImageBoxes, PaletteBox,
    Progress, TopBox, FILE_TYPE, JP2_SIGNATURE,
};
use hayro_core::jpeg2000::error::{DecodeError, FormatError, ValidationError};

#[test]
fn parses_premultiplied_opacity_channel_definition() {
    let mut boxes = ImageBoxes::default();
    parse(
        &mut boxes,
        &[
            0, 2, // channel count
            0, 0, 0, 0, 0, 1, // color channel 0, association 1
            0, 1, 0, 2, 0, 0, // channel 1, premultiplied opacity, whole image
        ],
    )
    .expect("premultiplied cdef");

    let definitions = &boxes
        .channel_definition
        .expect("channel definition")
        .channel_definitions;
    assert_eq!(
        definitions[1].channel_type,
        ChannelType::PremultipliedOpacity
    );
    assert_eq!(definitions[1].association, ChannelAssociation::WholeImage);
    assert!(definitions[1].channel_type.is_opacity());
}

const INVALID_BOX: DecodeError = DecodeError::Format(FormatError::InvalidBox);
const INVALID_METADATA: DecodeError =
    DecodeError::Validation(ValidationError::InvalidComponentMetadata);

fn settings() -> DecodeSettings {
    DecodeSettings {
        resolve_palette_indices: true,
        strict: false,
        target_resolution: Some((8, 8)),
    }
}

fn header(components: usize) -> Header {
    Header {
        component_infos: vec![ComponentInfo { is_signed: false }; components],
    }
}

fn definitions(data: &[u8]) -> ChannelDefinitionBox {
    let mut boxes = ImageBoxes::default();
    parse(&mut boxes, data).expect("cdef");
    boxes.channel_definition.expect("channel definition")
}

#[test]
fn malformed_channel_definitions_are_refused() {
    for data in [
        // No channels, or a truncated entry.
        &[0, 0][..],
        &[0, 1, 0, 0, 0, 0, 0],
        // A channel of an unknown type.
        &[0, 1, 0, 0, 0, 7, 0, 1],
    ] {
        let mut boxes = ImageBoxes::default();
        assert_eq!(parse(&mut boxes, data), Err(INVALID_BOX), "{data:?}");
    }
}

#[test]
fn channels_are_ordered_by_color_with_opacity_last() {
    // Opacity, then blue, green and red.
    let cdef = definitions(&[
        0, 4, 0, 0, 0, 1, 0, 0, 0, 1, 0, 0, 0, 3, 0, 2, 0, 0, 0, 2, 0, 3, 0, 0, 0, 1,
    ]);
    assert_eq!(cdef.order(4, 3), Ok((vec![3, 2, 1, 0], true)));
    // A colour is missing, or a channel does not exist.
    assert_eq!(cdef.order(4, 4), Err(INVALID_METADATA));
    assert_eq!(cdef.order(0, 3), Err(INVALID_METADATA));
    assert_eq!(cdef.order(3, 3), Err(INVALID_METADATA));
}

#[test]
fn channels_without_definitions_follow_the_color_space() {
    let boxes = ImageBoxes::default();
    let layout = resolve(&boxes, &header(4), &settings(), None, Ok(ColorSpace::RGB)).unwrap();
    assert_eq!((layout.color_space, layout.has_alpha), (ColorSpace::RGB, true));
    assert_eq!(layout.mappings.len(), 4);
    for (index, mapping) in layout.mappings.iter().enumerate() {
        assert_eq!(usize::from(mapping.component_index), index);
        assert_eq!(mapping.mapping_type, ComponentMappingType::Direct);
    }
    let strict = DecodeSettings { strict: true, ..settings() };
    let layout = resolve(&boxes, &header(4), &strict, None, Ok(ColorSpace::RGB)).unwrap();
    assert_eq!((layout.color_space, layout.has_alpha), (ColorSpace::CMYK, false));
    assert_eq!(
        resolve(&boxes, &header(2), &strict, None, Ok(ColorSpace::RGB)).unwrap_err(),
        DecodeError::Validation(ValidationError::TooManyChannels)
    );
    assert_eq!(
        resolve(&boxes, &header(3), &settings(), None, Err(INVALID_BOX)).unwrap_err(),
        INVALID_BOX
    );
    let layout = resolve(&boxes, &header(3), &settings(), Some(3), Err(INVALID_BOX)).unwrap();
    assert_eq!(layout.color_space, ColorSpace::Unknown { num_channels: 3 });
    assert_eq!(requested_colors(&boxes, &layout.mappings), 3);
}

#[test]
fn palette_mappings_stay_within_components_and_columns() {
    let mut boxes = ImageBoxes {
        palette: Some(PaletteBox { column_count: 3 }),
        ..ImageBoxes::default()
    };
    let entry = |component_index, column| ComponentMappingEntry {
        component_index,
        mapping_type: ComponentMappingType::Palette { column },
    };
    boxes.component_mapping = Some(ComponentMappingBox {
        entries: vec![entry(0, 2), entry(0, 1), entry(0, 0)],
    });
    let mappings = map_channels(&boxes, &header(1)).unwrap();
    assert_eq!(mappings, [entry(0, 2), entry(0, 1), entry(0, 0)]);
    let layout = resolve(&boxes, &header(1), &settings(), None, Ok(ColorSpace::RGB)).unwrap();
    assert_eq!(layout.mappings, mappings);
    let indices = DecodeSettings { resolve_palette_indices: false, ..settings() };
    let layout = resolve(&boxes, &header(1), &indices, None, Ok(ColorSpace::RGB)).unwrap();
    assert_eq!(layout.color_space, ColorSpace::Gray);
    assert_eq!(layout.mappings[0].mapping_type, ComponentMappingType::Direct);
    for invalid in [entry(1, 0), entry(0, 3)] {
        boxes.component_mapping = Some(ComponentMappingBox { entries: vec![invalid] });
        assert_eq!(map_channels(&boxes, &header(1)).unwrap_err(), INVALID_METADATA);
    }
}

#[test]
fn a_file_needs_its_signature_header_and_codestream() {
    let open = |signature, file_type| {
        ContainerReader::new(signature, file_type, settings(), None).map(|_| ())
    };
    assert_eq!(open(None, Some(FILE_TYPE)), Err(INVALID_BOX));
    assert_eq!(
        open(Some(1), Some(FILE_TYPE)),
        Err(DecodeError::Format(FormatError::InvalidSignature))
    );
    assert_eq!(open(Some(JP2_SIGNATURE), None), Err(INVALID_BOX));
    assert_eq!(
        open(Some(JP2_SIGNATURE), Some(1)),
        Err(DecodeError::Format(FormatError::InvalidFileType))
    );
    let reader = || {
        ContainerReader::new(Some(JP2_SIGNATURE), Some(FILE_TYPE), settings(), None).unwrap()
    };
    assert_eq!(reader().finish().unwrap_err(), INVALID_BOX);

    let mut headed = reader();
    assert_eq!(
        headed.take(TopBox::Header(vec![ChildBox::ColorSpecification(Ok(
            ColorSpecificationBox { enumerated: Some(16) }
        ))])),
        Ok(Progress::Continue)
    );
    assert_eq!(headed.take(TopBox::Header(Vec::new())), Err(INVALID_BOX));
    let mut headed = reader();
    assert_eq!(headed.take(TopBox::Header(Vec::new())), Ok(Progress::Continue));
    assert_eq!(
        headed.finish().unwrap_err(),
        DecodeError::Format(FormatError::MissingCodestream)
    );
    let mut whole = reader();
    assert_eq!(whole.take(TopBox::Header(Vec::new())), Ok(Progress::Continue));
    assert_eq!(whole.take(TopBox::Other), Ok(Progress::Continue));
    assert_eq!(whole.take(TopBox::Codestream(Ok(header(3)))), Ok(Progress::Continue));
    assert_eq!(whole.take(TopBox::Unreadable), Ok(Progress::Stop));
    assert_eq!(whole.finish().unwrap().header.component_infos.len(), 3);
    // A palette stands with a component mapping only.
    let mut alone = reader();
    assert_eq!(
        alone.take(TopBox::Header(vec![ChildBox::Palette(Ok(PaletteBox { column_count: 1 }))])),
        Ok(Progress::Continue)
    );
    assert_eq!(alone.current_settings().target_resolution, None);
    assert_eq!(alone.take(TopBox::Codestream(Ok(header(1)))), Ok(Progress::Continue));
    assert_eq!(alone.finish().unwrap_err(), INVALID_BOX);
}

#[test]
fn a_file_that_was_read_is_laid_out() {
    let reader = |children: Vec<ChildBox>, components: usize| {
        let mut reader =
            ContainerReader::new(Some(JP2_SIGNATURE), Some(FILE_TYPE), settings(), None).unwrap();
        assert_eq!(reader.take(TopBox::Header(children)), Ok(Progress::Continue));
        assert_eq!(reader.take(TopBox::Codestream(Ok(header(components)))), Ok(Progress::Continue));
        reader
    };
    // The opacity channel comes first, and leaves three colours.
    let opacity = vec![
        0, 4, 0, 0, 0, 1, 0, 0, 0, 1, 0, 0, 0, 1, 0, 2, 0, 0, 0, 2, 0, 3, 0, 0, 0, 3,
    ];
    let children = vec![
        ChildBox::ColorSpecification(Ok(ColorSpecificationBox { enumerated: Some(16) })),
        ChildBox::ChannelDefinition(opacity),
    ];
    let name = |specification: Option<ColorSpecificationBox>, colors: usize| {
        assert_eq!(specification, Some(ColorSpecificationBox { enumerated: Some(16) }));
        assert_eq!(colors, 3);
        Ok(ColorSpace::RGB)
    };
    let layout = reader(children, 4).finish_layout(&name).unwrap();
    assert_eq!(layout.container.header.component_infos.len(), 4);
    assert_eq!(layout.channels.color_space, ColorSpace::RGB);
    assert!(layout.channels.has_alpha);
    let order: Vec<u16> =
        layout.channels.mappings.iter().map(|mapping| mapping.component_index).collect();
    assert_eq!(order, [1, 2, 3, 0]);
    // A space that cannot be named fails the file.
    let unnamed = |_: Option<ColorSpecificationBox>, _: usize| Err(INVALID_BOX);
    assert_eq!(reader(Vec::new(), 3).finish_layout(&unnamed).unwrap_err(), INVALID_BOX);
    // So does a file that is not finished.
    let alone = vec![ChildBox::Palette(Ok(PaletteBox { column_count: 1 }))];
    assert_eq!(reader(alone, 1).finish_layout(&unnamed).unwrap_err(), INVALID_BOX);
}

#[test]
fn more_colors_than_channels_can_name_are_refused() {
    let definition = definitions(&[0, 1, 0, 0, 0, 0, 0, 1]);
    assert_eq!(definition.order(1, 0x1_0000).unwrap_err(), INVALID_METADATA);
}
