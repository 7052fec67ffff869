//! The boxes of a JP2 file, defined in Annex I.

use crate::jpeg2000::cdef::{
    self, box_definitions, defines, lemma_defines_unique, lemma_no_color_zero, valid_box,
    ChannelDefinition, ChannelDefinitionBox,
};
use crate::jpeg2000::channels::{
    channel_mappings, color_request, counted_from_one, layout_of, layout_result, map_channels,
    mapping_ok, requested_colors, resolve, ChannelLayout, ColorSpace,
};
use crate::jpeg2000::error::{invalid_box, DecodeError, FormatError, Result};
use vstd::prelude::*;

verus! {

/// The boxes of the JP2 header.
#[derive(Debug, Clone, Default)]
pub struct ImageBoxes {
    pub color_specification: Option<ColorSpecificationBox>,
    pub channel_definition: Option<ChannelDefinitionBox>,
    pub palette: Option<PaletteBox>,
    pub component_mapping: Option<ComponentMappingBox>,
}

/// A colour specification.
#[derive(Debug, Clone, Copy, PartialEq, Eq, Structural)]
pub struct ColorSpecificationBox {
    /// The number of the enumerated colour space, unless the box holds a profile.
    pub enumerated: Option<u32>,
}

/// A palette.
#[derive(Debug, Clone, Copy, PartialEq, Eq, Structural)]
pub struct PaletteBox {
    /// The number of columns that a component can be mapped to.
    pub column_count: usize,
}

/// How the channels are made from the components.
#[derive(Debug, Clone)]
pub struct ComponentMappingBox {
    pub entries: Vec<ComponentMappingEntry>,
}

/// How a channel is made from a component.
#[derive(Debug, Clone, Copy, PartialEq, Eq, Structural)]
pub struct ComponentMappingEntry {
    pub component_index: u16,
    pub mapping_type: ComponentMappingType,
}

#[derive(Debug, Clone, Copy, PartialEq, Eq, Structural)]
pub enum ComponentMappingType {
    /// The channel is the component.
    Direct,
    /// The component holds places in a column of the palette.
    Palette { column: u8 },
}

/// What is read of the header of a codestream.
#[derive(Debug, Clone)]
pub struct Header {
    pub component_infos: Vec<ComponentInfo>,
}

#[derive(Debug, Clone, Copy, PartialEq, Eq, Structural)]
pub struct ComponentInfo {
    /// Whether the samples of the component are signed.
    pub is_signed: bool,
}

/// Settings to apply during decoding.
#[derive(Debug, Clone, Copy, PartialEq, Eq)]
pub struct DecodeSettings {
    /// Whether palette indices should be resolved.
    pub resolve_palette_indices: bool,
    /// Whether strict mode should be enabled when decoding.
    pub strict: bool,
    /// A resolution to aim for, if the image may be decoded at a lower one.
    pub target_resolution: Option<(u32, u32)>,
}

impl ImageBoxes {
    /// Only the channel definitions may differ.
    pub open spec fn same_but_channels(&self, other: &Self) -> bool {
        &&& self.color_specification == other.color_specification
        &&& self.palette == other.palette
        &&& self.component_mapping == other.component_mapping
    }
}

/// The type of the box that a file starts with.
pub const JP2_SIGNATURE: u32 = 0x6A50_2020;

/// The type of the file type box.
pub const FILE_TYPE: u32 = 0x6674_7970;

/// A box within the header box.
#[derive(Debug)]
pub enum ChildBox {
    /// The header box ends within a box.
    Unreadable,
    /// The contents of a channel definition box.
    ChannelDefinition(Vec<u8>),
    /// A colour specification.
    ColorSpecification(Result<ColorSpecificationBox>),
    /// A palette.
    Palette(Result<PaletteBox>),
    /// A component mapping.
    ComponentMapping(Result<ComponentMappingBox>),
    /// Any other box.
    Other,
}

/// A box of the file.
#[derive(Debug)]
pub enum TopBox {
    /// The file ends within a box.
    Unreadable,
    /// The boxes of a header box.
    Header(Vec<ChildBox>),
    /// A codestream.
    Codestream(Result<Header>),
    /// Any other box.
    Other,
}

/// The boxes of the header as sequences.
#[verifier::ext_equal]
pub struct BoxesModel {
    pub color_specification: Option<ColorSpecificationBox>,
    pub channel_definition: Option<Seq<ChannelDefinition>>,
    pub palette: Option<PaletteBox>,
    pub component_mapping: Option<Seq<ComponentMappingEntry>>,
}

impl View for ImageBoxes {
    type V = BoxesModel;

    open spec fn view(&self) -> BoxesModel {
        BoxesModel {
            color_specification: self.color_specification,
            channel_definition: match self.channel_definition {
                Some(definition) => Some(definition.channel_definitions@),
                None => None,
            },
            palette: self.palette,
            component_mapping: match self.component_mapping {
                Some(mapping) => Some(mapping.entries@),
                None => None,
            },
        }
    }
}

/// No boxes.
pub open spec fn no_boxes() -> BoxesModel {
    BoxesModel {
        color_specification: None,
        channel_definition: None,
        palette: None,
        component_mapping: None,
    }
}

/// The boxes after another box of the header.
///
/// Channel definitions, palette and component mapping stand at most once. Colour specifications
/// are not read if the caller states the number of colour components; of several the last
/// counts.
pub open spec fn with_child(m: BoxesModel, colors_stated: bool, child: ChildBox) -> Result<
    BoxesModel,
> {
    match child {
        ChildBox::Unreadable => Err(invalid_box()),
        ChildBox::ChannelDefinition(data) => if m.channel_definition is Some || !valid_box(data@) {
            Err(invalid_box())
        } else {
            Ok(BoxesModel { channel_definition: Some(box_definitions(data@)), ..m })
        },
        ChildBox::ColorSpecification(parsed) => if colors_stated {
            Ok(m)
        } else {
            match parsed {
                Err(error) => Err(error),
                Ok(specification) => Ok(
                    BoxesModel { color_specification: Some(specification), ..m },
                ),
            }
        },
        ChildBox::Palette(parsed) => if m.palette is Some {
            Err(invalid_box())
        } else {
            match parsed {
                Err(error) => Err(error),
                Ok(palette) => Ok(BoxesModel { palette: Some(palette), ..m }),
            }
        },
        ChildBox::ComponentMapping(parsed) => if m.component_mapping is Some {
            Err(invalid_box())
        } else {
            match parsed {
                Err(error) => Err(error),
                Ok(mapping) => Ok(BoxesModel { component_mapping: Some(mapping.entries@), ..m }),
            }
        },
        ChildBox::Other => Ok(m),
    }
}

/// The boxes after the first `count` boxes of the header.
pub open spec fn with_children(children: Seq<ChildBox>, colors_stated: bool, count: nat) -> Result<
    BoxesModel,
>
    decreases count,
{
    if count == 0 {
        Ok(no_boxes())
    } else {
        match with_children(children, colors_stated, (count - 1) as nat) {
            Err(error) => Err(error),
            Ok(m) => with_child(m, colors_stated, children[count - 1]),
        }
    }
}

/// Once reading the boxes fails, it stays failed.
proof fn lemma_failed_child(children: Seq<ChildBox>, colors_stated: bool, count: nat, more: nat)
    requires
        count <= more,
        with_children(children, colors_stated, count) is Err,
    ensures
        with_children(children, colors_stated, more) == with_children(
            children,
            colors_stated,
            count,
        ),
    decreases more,
{
    if count < more {
        lemma_failed_child(children, colors_stated, count, (more - 1) as nat);
    }
}

/// Read another box of the header.
fn read_child(boxes: &mut ImageBoxes, colors_stated: bool, child: ChildBox) -> (result: Result<()>)
    requires
        old(boxes)@.channel_definition matches Some(defs) ==> counted_from_one(defs),
    ensures
        match with_child(old(boxes)@, colors_stated, child) {
            Ok(m) => {
                &&& result == Ok::<(), DecodeError>(())
                &&& final(boxes)@ == m
                &&& m.channel_definition matches Some(defs) ==> counted_from_one(defs)
            },
            Err(error) => result == Err::<(), DecodeError>(error),
        },
{
    match child {
        ChildBox::Unreadable => Err(DecodeError::Format(FormatError::InvalidBox)),
        ChildBox::ChannelDefinition(data) => {
            if boxes.channel_definition.is_some() {
                return Err(DecodeError::Format(FormatError::InvalidBox));
            }
            let result = cdef::parse(boxes, data.as_slice());
            proof {
                if valid_box(data@) {
                    let defs = boxes.channel_definition->0.channel_definitions@;
                    assert(defines(data@, box_definitions(data@)));
                    lemma_defines_unique(data@, defs, box_definitions(data@));
                    lemma_no_color_zero(data@, defs);
                }
            }
            result
        },
        ChildBox::ColorSpecification(parsed) => {
            if colors_stated {
                return Ok(());
            }
            match parsed {
                Err(error) => Err(error),
                Ok(specification) => {
                    boxes.color_specification = Some(specification);
                    Ok(())
                },
            }
        },
        ChildBox::Palette(parsed) => {
            if boxes.palette.is_some() {
                return Err(DecodeError::Format(FormatError::InvalidBox));
            }
            match parsed {
                Err(error) => Err(error),
                Ok(palette) => {
                    boxes.palette = Some(palette);
                    Ok(())
                },
            }
        },
        ChildBox::ComponentMapping(parsed) => {
            if boxes.component_mapping.is_some() {
                return Err(DecodeError::Format(FormatError::InvalidBox));
            }
            match parsed {
                Err(error) => Err(error),
                Ok(mapping) => {
                    boxes.component_mapping = Some(mapping);
                    Ok(())
                },
            }
        },
        ChildBox::Other => Ok(()),
    }
}

/// Read the boxes of the header.
fn read_children(children: Vec<ChildBox>, colors_stated: bool) -> (result: Result<ImageBoxes>)
    ensures
        match with_children(children@, colors_stated, children@.len()) {
            Ok(m) => {
                &&& result matches Ok(boxes)
                &&& boxes@ == m
                &&& m.channel_definition matches Some(defs) ==> counted_from_one(defs)
            },
            Err(error) => result == Err::<ImageBoxes, DecodeError>(error),
        },
{
    let mut boxes = ImageBoxes {
        color_specification: None,
        channel_definition: None,
        palette: None,
        component_mapping: None,
    };
    let ghost all = children@;
    let mut rest = children;
    let mut i: usize = 0;
    let count: usize = rest.len();
    while i < count
        invariant
            i <= count == all.len(),
            all == children@,
            rest@ == all.skip(i as int),
            with_children(all, colors_stated, i as nat) == Ok::<BoxesModel, DecodeError>(boxes@),
            boxes@.channel_definition matches Some(defs) ==> counted_from_one(defs),
        decreases count - i,
    {
        let child = rest.remove(0);
        assert(child == all[i as int]);
        assert(rest@ =~= all.skip(i + 1));
        match read_child(&mut boxes, colors_stated, child) {
            Err(error) => {
                proof {
                    lemma_failed_child(all, colors_stated, (i + 1) as nat, count as nat);
                }
                return Err(error);
            },
            Ok(()) => {},
        }
        i = i + 1;
    }
    Ok(boxes)
}

/// The state of reading a file box by box.
#[derive(Debug)]
pub struct ContainerReader {
    settings: DecodeSettings,
    color_components: Option<u8>,
    boxes: Option<ImageBoxes>,
    header: Option<Header>,
}

/// What has to be done after a box.
#[derive(Debug, Clone, Copy, PartialEq, Eq, Structural)]
pub enum Progress {
    /// The next box is to be read.
    Continue,
    /// No more boxes are to be read.
    Stop,
}

/// A file that was read.
#[derive(Debug, Clone)]
pub struct Container {
    pub settings: DecodeSettings,
    pub boxes: ImageBoxes,
    pub header: Header,
}

impl ContainerReader {
    /// The settings; a file with a palette is not decoded at a lower resolution, which would
    /// corrupt it.
    pub closed spec fn settings(&self) -> DecodeSettings {
        self.settings
    }

    pub closed spec fn color_components(&self) -> Option<u8> {
        self.color_components
    }

    /// The boxes of the header, once it was read.
    pub closed spec fn boxes(&self) -> Option<BoxesModel> {
        match self.boxes {
            Some(boxes) => Some(boxes@),
            None => None,
        }
    }

    /// The codestream header, once it was read.
    pub closed spec fn header(&self) -> Option<Header> {
        self.header
    }

    #[verifier::type_invariant]
    spec fn wf(&self) -> bool {
        self.boxes() matches Some(m) ==> (m.channel_definition matches Some(defs)
            ==> counted_from_one(defs))
    }

    /// Start with the types of the first two boxes of a file.
    pub fn new(
        signature: Option<u32>,
        file_type: Option<u32>,
        settings: DecodeSettings,
        color_components: Option<u8>,
    ) -> (result: Result<Self>)
        ensures
            if signature is None {
                result == Err::<Self, DecodeError>(invalid_box())
            } else if signature != Some(JP2_SIGNATURE) {
                result == Err::<Self, DecodeError>(
                    DecodeError::Format(FormatError::InvalidSignature),
                )
            } else if file_type is None {
                result == Err::<Self, DecodeError>(invalid_box())
            } else if file_type != Some(FILE_TYPE) {
                result == Err::<Self, DecodeError>(
                    DecodeError::Format(FormatError::InvalidFileType),
                )
            } else {
                &&& result matches Ok(reader)
                &&& reader.settings() == settings
                &&& reader.color_components() == color_components
                &&& reader.boxes() is None
                &&& reader.header() is None
            },
    {
        match signature {
            None => {
                return Err(DecodeError::Format(FormatError::InvalidBox));
            },
            Some(box_type) => {
                if box_type != JP2_SIGNATURE {
                    return Err(DecodeError::Format(FormatError::InvalidSignature));
                }
            },
        }
        match file_type {
            None => {
                return Err(DecodeError::Format(FormatError::InvalidBox));
            },
            Some(box_type) => {
                if box_type != FILE_TYPE {
                    return Err(DecodeError::Format(FormatError::InvalidFileType));
                }
            },
        }
        Ok(ContainerReader { settings, color_components, boxes: None, header: None })
    }

    /// The settings that the next codestream is to be read with.
    pub fn current_settings(&self) -> (settings: DecodeSettings)
        ensures
            settings == self.settings(),
    {
        self.settings
    }

    /// Take in the next box of the file.
    ///
    /// The header box and the codestream stand at most once each. A file that ends within a box
    /// is refused in strict mode; otherwise what was read counts.
    pub fn take(&mut self, top: TopBox) -> (result: Result<Progress>)
        ensures
            final(self).color_components() == old(self).color_components(),
            match top {
                TopBox::Unreadable => {
                    &&& *final(self) == *old(self)
                    &&& result == if old(self).settings().strict {
                        Err::<Progress, DecodeError>(invalid_box())
                    } else {
                        Ok(Progress::Stop)
                    }
                },
                TopBox::Header(children) => {
                    let read = with_children(
                        children@,
                        old(self).color_components() is Some,
                        children@.len(),
                    );
                    if old(self).boxes() is Some {
                        result == Err::<Progress, DecodeError>(invalid_box())
                    } else {
                        match read {
                            Err(error) => result == Err::<Progress, DecodeError>(error),
                            Ok(m) => {
                                &&& result == Ok::<Progress, DecodeError>(Progress::Continue)
                                &&& final(self).boxes() == Some(m)
                                &&& final(self).header() == old(self).header()
                                &&& final(self).settings() == if m.palette is Some {
                                    DecodeSettings {
                                        target_resolution: None,
                                        ..old(self).settings()
                                    }
                                } else {
                                    old(self).settings()
                                }
                            },
                        }
                    }
                },
                TopBox::Codestream(parsed) => {
                    if old(self).header() is Some {
                        result == Err::<Progress, DecodeError>(
                            DecodeError::Format(FormatError::Unsupported),
                        )
                    } else {
                        match parsed {
                            Err(error) => result == Err::<Progress, DecodeError>(error),
                            Ok(header) => {
                                &&& result == Ok::<Progress, DecodeError>(Progress::Continue)
                                &&& final(self).boxes() == old(self).boxes()
                                &&& final(self).header() == Some(header)
                                &&& final(self).settings() == old(self).settings()
                            },
                        }
                    }
                },
                TopBox::Other => {
                    &&& *final(self) == *old(self)
                    &&& result == Ok::<Progress, DecodeError>(Progress::Continue)
                },
            },
    {
        proof {
            use_type_invariant(&*self);
        }
        match top {
            TopBox::Unreadable => {
                if self.settings.strict {
                    return Err(DecodeError::Format(FormatError::InvalidBox));
                }
                Ok(Progress::Stop)
            },
            TopBox::Header(children) => {
                if self.boxes.is_some() {
                    return Err(DecodeError::Format(FormatError::InvalidBox));
                }
                match read_children(children, self.color_components.is_some()) {
                    Err(error) => Err(error),
                    Ok(boxes) => {
                        if boxes.palette.is_some() {
                            self.settings.target_resolution = None;
                        }
                        self.boxes = Some(boxes);
                        Ok(Progress::Continue)
                    },
                }
            },
            TopBox::Codestream(parsed) => {
                if self.header.is_some() {
                    return Err(DecodeError::Format(FormatError::Unsupported));
                }
                match parsed {
                    Err(error) => Err(error),
                    Ok(header) => {
                        self.header = Some(header);
                        Ok(Progress::Continue)
                    },
                }
            },
            TopBox::Other => Ok(Progress::Continue),
        }
    }

    /// Finish reading: the header and the codestream are required, and a palette and a component
    /// mapping stand together.
    pub fn finish(self) -> (result: Result<Container>)
        ensures
            match (self.boxes(), self.header()) {
                (None, _) => result == Err::<Container, DecodeError>(invalid_box()),
                (Some(_), None) => result == Err::<Container, DecodeError>(
                    DecodeError::Format(FormatError::MissingCodestream),
                ),
                (Some(m), Some(header)) => if (m.palette is Some) != (m.component_mapping is Some) {
                    result == Err::<Container, DecodeError>(invalid_box())
                } else {
                    &&& result matches Ok(container)
                    &&& container.settings == self.settings()
                    &&& container.boxes@ == m
                    &&& container.header == header
                    &&& m.channel_definition matches Some(defs) ==> counted_from_one(defs)
                },
            },
    {
        proof {
            use_type_invariant(&self);
        }
        let settings = self.settings;
        let boxes = match self.boxes {
            None => {
                return Err(DecodeError::Format(FormatError::InvalidBox));
            },
            Some(boxes) => boxes,
        };
        let header = match self.header {
            None => {
                return Err(DecodeError::Format(FormatError::MissingCodestream));
            },
            Some(header) => header,
        };
        if boxes.palette.is_some() != boxes.component_mapping.is_some() {
            return Err(DecodeError::Format(FormatError::InvalidBox));
        }
        Ok(Container { settings, boxes, header })
    }
}

/// A file that was read: its boxes, and how its channels are laid out.
#[derive(Debug)]
pub struct Layout {
    pub container: Container,
    pub channels: ChannelLayout,
}

/// Why reading a file cannot be finished, once its boxes and its codestream were read.
pub open spec fn unfinished(boxes: Option<BoxesModel>, header: Option<Header>) -> Option<
    DecodeError,
> {
    match (boxes, header) {
        (None, _) => Some(invalid_box()),
        (Some(_), None) => Some(DecodeError::Format(FormatError::MissingCodestream)),
        (Some(m), Some(_)) => if (m.palette is Some) != (m.component_mapping is Some) {
            Some(invalid_box())
        } else {
            None
        },
    }
}

/// All channels are made from components and columns that exist.
pub open spec fn mappings_ok(
    mappings: Seq<ComponentMappingEntry>,
    header: Header,
    boxes: ImageBoxes,
) -> bool {
    forall|i: int|
        0 <= i < mappings.len() ==> mapping_ok(
            #[trigger] mappings[i],
            header.component_infos@.len() as int,
            boxes.palette,
        )
}

/// A result for the channels is what their colour space, as the host names it, leads to.
///
/// The host is asked for the number of colours that the boxes lead to.
pub open spec fn is_laid_out<N: Fn(Option<ColorSpecificationBox>, usize) -> Result<ColorSpace>>(
    result: Result<ChannelLayout>,
    boxes: ImageBoxes,
    header: Header,
    settings: DecodeSettings,
    color_components: Option<u8>,
    name: N,
) -> bool {
    exists|named: Result<ColorSpace>|
        {
            &&& channel_mappings(boxes, header.component_infos@.len()) matches Some(mappings) ==> (
            mappings_ok(mappings, header, boxes) ==> call_ensures(
                name,
                (boxes.color_specification, color_request(boxes, mappings) as usize),
                named,
            ))
            &&& layout_result(result) == #[trigger] layout_of(
                boxes,
                header,
                settings,
                color_components,
                named,
            )
        }
}

impl ContainerReader {
    /// Finish reading, and lay out the channels.
    ///
    /// `name` gives the colour space that a colour specification stands for, with a number of
    /// colours.
    pub fn finish_layout<N: Fn(Option<ColorSpecificationBox>, usize) -> Result<ColorSpace>>(
        self,
        name: &N,
    ) -> (result: Result<Layout>)
        requires
            self.header() matches Some(header) ==> header.component_infos@.len() <= 0x1_0000,
            forall|specification: Option<ColorSpecificationBox>, colors: usize|
                call_requires(*name, (specification, colors)),
        ensures
            match unfinished(self.boxes(), self.header()) {
                Some(error) => result == Err::<Layout, DecodeError>(error),
                None => match result {
                    Ok(layout) => {
                        &&& layout.container.boxes@ == self.boxes()->0
                        &&& layout.container.header == self.header()->0
                        &&& layout.container.settings == self.settings()
                        &&& is_laid_out(
                            Ok(layout.channels),
                            layout.container.boxes,
                            layout.container.header,
                            self.settings(),
                            self.color_components(),
                            *name,
                        )
                    },
                    Err(error) => exists|boxes: ImageBoxes|
                        {
                            &&& boxes@ == self.boxes()->0
                            &&& #[trigger] is_laid_out(
                                Err(error),
                                boxes,
                                self.header()->0,
                                self.settings(),
                                self.color_components(),
                                *name,
                            )
                        },
                },
            },
    {
        let color_components = self.color_components;
        let container = match self.finish() {
            Err(error) => {
                return Err(error);
            },
            Ok(container) => container,
        };
        let mappings = match map_channels(&container.boxes, &container.header) {
            Err(error) => {
                assert(layout_result(Err(error)) == layout_of(
                    container.boxes,
                    container.header,
                    container.settings,
                    color_components,
                    Err(error),
                ));
                assert(is_laid_out(
                    Err(error),
                    container.boxes,
                    container.header,
                    container.settings,
                    color_components,
                    *name,
                ));
                return Err(error);
            },
            Ok(mappings) => mappings,
        };
        let count: usize = requested_colors(&container.boxes, &mappings);
        let named = name(container.boxes.color_specification, count);
        let ghost known = named;
        let channels = resolve(
            &container.boxes,
            &container.header,
            &container.settings,
            color_components,
            named,
        );
        assert(layout_result(channels) == layout_of(
            container.boxes,
            container.header,
            container.settings,
            color_components,
            known,
        ));
        assert(is_laid_out(
            channels,
            container.boxes,
            container.header,
            container.settings,
            color_components,
            *name,
        ));
        match channels {
            Err(error) => Err(error),
            Ok(channels) => Ok(Layout { container, channels }),
        }
    }
}

} // verus!
