//! Resolve codestream components, mapped channels, and colour associations.

use crate::jpeg2000::cdef::{
    ChannelAssociation, ChannelDefinition, ChannelDefinitionBox, ChannelType,
};
use crate::jpeg2000::container::{
    ComponentMappingEntry, ComponentMappingType, DecodeSettings, Header, ImageBoxes, PaletteBox,
};
use crate::jpeg2000::error::{invalid_metadata, DecodeError, Result, ValidationError};
use vstd::prelude::*;

verus! {

/// The colour space of an image.
#[derive(Debug, Clone, Copy, PartialEq, Eq, Structural)]
pub enum ColorSpace {
    /// A greyscale image.
    Gray,
    /// An RGB image.
    RGB,
    /// A CMYK image.
    CMYK,
    /// An image whose colour space is not known.
    Unknown { num_channels: u8 },
    /// An image with an ICC profile.
    Icc { num_channels: u8 },
}

impl ColorSpace {
    /// The number of colour channels.
    pub open spec fn channels(&self) -> int {
        match *self {
            ColorSpace::Gray => 1,
            ColorSpace::RGB => 3,
            ColorSpace::CMYK => 4,
            ColorSpace::Unknown { num_channels } => num_channels as int,
            ColorSpace::Icc { num_channels } => num_channels as int,
        }
    }

    /// The number of colour channels.
    pub fn num_channels(&self) -> (count: u8)
        ensures
            count == self.channels(),
    {
        match *self {
            ColorSpace::Gray => 1,
            ColorSpace::RGB => 3,
            ColorSpace::CMYK => 4,
            ColorSpace::Unknown { num_channels } => num_channels,
            ColorSpace::Icc { num_channels } => num_channels,
        }
    }
}

/// The channels that make up an image.
#[derive(Debug)]
pub struct ChannelLayout {
    pub color_space: ColorSpace,
    /// Whether the last channel is opacity.
    pub has_alpha: bool,
    pub mappings: Vec<ComponentMappingEntry>,
}

/// A channel layout with its mappings as a sequence.
#[verifier::ext_equal]
pub struct LayoutModel {
    pub color_space: ColorSpace,
    pub has_alpha: bool,
    pub mappings: Seq<ComponentMappingEntry>,
}

impl View for ChannelLayout {
    type V = LayoutModel;

    open spec fn view(&self) -> LayoutModel {
        LayoutModel {
            color_space: self.color_space,
            has_alpha: self.has_alpha,
            mappings: self.mappings@,
        }
    }
}

/// A definition makes a channel the given colour.
pub open spec fn is_color(d: ChannelDefinition, color: int) -> bool {
    d.channel_type == ChannelType::Colour && d.association == ChannelAssociation::Colour(
        color as u16,
    ) && 0 <= color <= 0xFFFF
}

/// A definition makes a channel opacity of something.
pub open spec fn is_opacity(d: ChannelDefinition) -> bool {
    d.channel_type != ChannelType::Colour && d.association != ChannelAssociation::Unspecified
}

/// A definition makes a channel opacity of the given thing.
pub open spec fn covers(d: ChannelDefinition, association: ChannelAssociation) -> bool {
    is_opacity(d) && d.association == association
}

/// Colours are counted from one.
pub open spec fn counted_from_one(defs: Seq<ChannelDefinition>) -> bool {
    forall|i: int|
        0 <= i < defs.len() ==> (#[trigger] defs[i]).association != ChannelAssociation::Colour(0)
}

/// Some definition is for the given channel.
pub open spec fn defined(defs: Seq<ChannelDefinition>, channel: int) -> bool {
    exists|i: int| 0 <= i < defs.len() && (#[trigger] defs[i]).channel_index == channel
}

/// Some channel is the given colour.
pub open spec fn colored(defs: Seq<ChannelDefinition>, color: int) -> bool {
    exists|i: int| 0 <= i < defs.len() && is_color(#[trigger] defs[i], color)
}

/// Some channel is opacity of the given thing.
pub open spec fn covered(defs: Seq<ChannelDefinition>, association: ChannelAssociation) -> bool {
    exists|i: int| 0 <= i < defs.len() && covers(#[trigger] defs[i], association)
}

/// Some channel is opacity.
pub open spec fn has_opacity(defs: Seq<ChannelDefinition>) -> bool {
    exists|i: int| 0 <= i < defs.len() && is_opacity(#[trigger] defs[i])
}

/// A definition is admissible by itself.
pub open spec fn admissible(d: ChannelDefinition, channel_count: int, color_count: int) -> bool {
    &&& d.channel_index < channel_count
    &&& d.channel_type == ChannelType::Colour ==> d.association != ChannelAssociation::WholeImage
    &&& d.association matches ChannelAssociation::Colour(color) ==> color <= color_count
}

/// Two definitions do not contradict each other: a channel has one type, a colour has one channel,
/// all opacity is in one channel and is declared once.
pub open spec fn compatible(a: ChannelDefinition, b: ChannelDefinition) -> bool {
    &&& a.channel_index == b.channel_index ==> a.channel_type == b.channel_type
    &&& a.channel_type == ChannelType::Colour && b.channel_type == ChannelType::Colour && (
    a.association is Colour) ==> a.association != b.association
    &&& is_opacity(a) && is_opacity(b) ==> a.channel_index == b.channel_index && a.association
        != b.association
}

/// The definitions order the channels of an image.
pub open spec fn orderable(
    defs: Seq<ChannelDefinition>,
    channel_count: int,
    color_count: int,
) -> bool {
    &&& channel_count > 0
    &&& color_count > 0
    &&& forall|i: int|
        0 <= i < defs.len() ==> admissible(#[trigger] defs[i], channel_count, color_count)
    &&& forall|i: int, j: int|
        0 <= i < j < defs.len() ==> compatible(#[trigger] defs[i], #[trigger] defs[j])
    &&& forall|channel: int| 0 <= channel < channel_count ==> #[trigger] defined(defs, channel)
    &&& forall|color: int| 1 <= color <= color_count ==> #[trigger] colored(defs, color)
    &&& has_opacity(defs) ==> covered(defs, ChannelAssociation::WholeImage) || forall|color: int|
        1 <= color <= color_count ==> #[trigger] covered(
            defs,
            ChannelAssociation::Colour(color as u16),
        )
}

/// The channel of a colour.
pub open spec fn color_channel(defs: Seq<ChannelDefinition>, color: int) -> usize {
    let i = choose|i: int| 0 <= i < defs.len() && is_color(#[trigger] defs[i], color);
    defs[i].channel_index as usize
}

/// The channel of all opacity.
pub open spec fn opacity_channel(defs: Seq<ChannelDefinition>) -> usize {
    let i = choose|i: int| 0 <= i < defs.len() && is_opacity(#[trigger] defs[i]);
    defs[i].channel_index as usize
}

/// The channels in the order of the colours, then the opacity channel.
pub open spec fn channel_order(defs: Seq<ChannelDefinition>, color_count: int) -> Seq<usize> {
    let colors = Seq::new(color_count as nat, |c: int| color_channel(defs, c + 1));
    if has_opacity(defs) {
        colors.push(opacity_channel(defs))
    } else {
        colors
    }
}

/// In the order of the channels, every colour definition finds its channel at the place of its
/// colour, and every opacity definition finds its channel behind the colours.
pub proof fn lemma_channel_order(
    defs: Seq<ChannelDefinition>,
    channel_count: int,
    color_count: int,
)
    requires
        orderable(defs, channel_count, color_count),
        counted_from_one(defs),
    ensures
        ordered(defs, color_count, channel_order(defs, color_count), has_opacity(defs)),
        forall|i: int|
            0 <= i < channel_order(defs, color_count).len() ==> (#[trigger] channel_order(
                defs,
                color_count,
            )[i]) < channel_count,
{
    let order = channel_order(defs, color_count);
    assert forall|i: int, color: int|
        0 <= i < defs.len() && 1 <= color <= color_count && #[trigger] is_color(
            defs[i],
            color,
        ) implies order[color - 1] == defs[i].channel_index by {
        let j = choose|j: int| 0 <= j < defs.len() && is_color(#[trigger] defs[j], color);
        assert(is_color(defs[j], color));
        if i < j {
            assert(compatible(defs[i], defs[j]));
        } else if j < i {
            assert(compatible(defs[j], defs[i]));
        }
    }
    assert forall|i: int| 0 <= i < defs.len() && is_opacity(#[trigger] defs[i]) implies order[color_count]
        == defs[i].channel_index by {
        let j = choose|j: int| 0 <= j < defs.len() && is_opacity(#[trigger] defs[j]);
        if i < j {
            assert(compatible(defs[i], defs[j]));
        } else if j < i {
            assert(compatible(defs[j], defs[i]));
        }
    }
    assert forall|c: int| 0 <= c < order.len() implies (#[trigger] order[c]) < channel_count by {
        if c < color_count {
            assert(colored(defs, c + 1));
            let j = choose|j: int| 0 <= j < defs.len() && is_color(#[trigger] defs[j], c + 1);
            assert(admissible(defs[j], channel_count, color_count));
        } else {
            let j = choose|j: int| 0 <= j < defs.len() && is_opacity(#[trigger] defs[j]);
            assert(admissible(defs[j], channel_count, color_count));
        }
    }
}

/// The channels in the order of the colours, then the opacity channel.
pub open spec fn ordered(
    defs: Seq<ChannelDefinition>,
    color_count: int,
    order: Seq<usize>,
    has_alpha: bool,
) -> bool {
    &&& has_alpha == has_opacity(defs)
    &&& order.len() == color_count + if has_alpha { 1int } else { 0int }
    &&& forall|i: int, color: int|
        0 <= i < defs.len() && 1 <= color <= color_count && #[trigger] is_color(defs[i], color)
            ==> order[color - 1] == defs[i].channel_index
    &&& forall|i: int|
        0 <= i < defs.len() && is_opacity(#[trigger] defs[i]) ==> order[color_count]
            == defs[i].channel_index
}

/// What is known of the definitions read so far.
struct Tally {
    colors: Vec<Option<usize>>,
    types: Vec<Option<ChannelType>>,
    opacity: Option<usize>,
    whole_image: bool,
    opacity_colors: Vec<bool>,
}

impl Tally {
    /// The definitions read so far are admissible, compatible and noted.
    spec fn holds(
        &self,
        defs: Seq<ChannelDefinition>,
        channel_count: int,
        color_count: int,
    ) -> bool {
        &&& color_count <= 0xFFFF
        &&& self.colors@.len() == color_count
        &&& self.types@.len() == channel_count
        &&& self.opacity_colors@.len() == color_count
        &&& forall|i: int|
            0 <= i < defs.len() ==> admissible(#[trigger] defs[i], channel_count, color_count)
        &&& forall|i: int, j: int|
            0 <= i < j < defs.len() ==> compatible(#[trigger] defs[i], #[trigger] defs[j])
        &&& forall|i: int|
            0 <= i < defs.len() ==> self.types@[(#[trigger] defs[i]).channel_index as int] == Some(
                defs[i].channel_type,
            )
        &&& forall|channel: int|
            0 <= channel < channel_count && (#[trigger] self.types@[channel]) is Some ==> defined(
                defs,
                channel,
            )
        &&& forall|i: int, color: int|
            0 <= i < defs.len() && 1 <= color <= color_count && #[trigger] is_color(defs[i], color)
                ==> self.colors@[color - 1] == Some(defs[i].channel_index as usize)
        &&& forall|c: int|
            0 <= c < color_count && (#[trigger] self.colors@[c]) is Some ==> colored(defs, c + 1)
        &&& forall|i: int|
            0 <= i < defs.len() && is_opacity(#[trigger] defs[i]) ==> self.opacity == Some(
                defs[i].channel_index as usize,
            )
        &&& self.opacity is Some ==> has_opacity(defs)
        &&& self.whole_image == covered(defs, ChannelAssociation::WholeImage)
        &&& forall|c: int|
            0 <= c < color_count ==> (#[trigger] self.opacity_colors@[c]) == covered(
                defs,
                ChannelAssociation::Colour((c + 1) as u16),
            )
    }
}

/// What a prefix shows of a sequence of definitions.
proof fn lemma_next(defs: Seq<ChannelDefinition>, d: ChannelDefinition)
    ensures
        forall|channel: int| #[trigger]
            defined(defs.push(d), channel) == (defined(defs, channel) || d.channel_index
                == channel),
        forall|color: int| #[trigger]
            colored(defs.push(d), color) == (colored(defs, color) || is_color(d, color)),
        forall|association: ChannelAssociation| #[trigger]
            covered(defs.push(d), association) == (covered(defs, association) || covers(
                d,
                association,
            )),
        has_opacity(defs.push(d)) == (has_opacity(defs) || is_opacity(d)),
{
    let next = defs.push(d);
    assert(next[defs.len() as int] == d);
    assert forall|channel: int| #[trigger]
        defined(next, channel) == (defined(defs, channel) || d.channel_index == channel) by {
        if defined(defs, channel) {
            let i = choose|i: int|
                0 <= i < defs.len() && (#[trigger] defs[i]).channel_index == channel;
            assert(next[i] == defs[i]);
        }
        if defined(next, channel) {
            let i = choose|i: int|
                0 <= i < next.len() && (#[trigger] next[i]).channel_index == channel;
            if i < defs.len() {
                assert(defs[i] == next[i]);
            }
        }
    }
    assert forall|color: int| #[trigger]
        colored(next, color) == (colored(defs, color) || is_color(d, color)) by {
        if colored(defs, color) {
            let i = choose|i: int| 0 <= i < defs.len() && is_color(#[trigger] defs[i], color);
            assert(next[i] == defs[i]);
        }
        if colored(next, color) {
            let i = choose|i: int| 0 <= i < next.len() && is_color(#[trigger] next[i], color);
            if i < defs.len() {
                assert(defs[i] == next[i]);
            }
        }
    }
    assert forall|association: ChannelAssociation| #[trigger]
        covered(next, association) == (covered(defs, association) || covers(d, association)) by {
        if covered(defs, association) {
            let i = choose|i: int| 0 <= i < defs.len() && covers(#[trigger] defs[i], association);
            assert(next[i] == defs[i]);
        }
        if covered(next, association) {
            let i = choose|i: int| 0 <= i < next.len() && covers(#[trigger] next[i], association);
            if i < defs.len() {
                assert(defs[i] == next[i]);
            }
        }
    }
    if has_opacity(defs) {
        let i = choose|i: int| 0 <= i < defs.len() && is_opacity(#[trigger] defs[i]);
        assert(next[i] == defs[i]);
    }
    if has_opacity(next) {
        let i = choose|i: int| 0 <= i < next.len() && is_opacity(#[trigger] next[i]);
        if i < defs.len() {
            assert(defs[i] == next[i]);
        }
    }
}

/// Note another definition.
#[verifier::rlimit(60)]
#[verifier::spinoff_prover]
fn note(tally: &mut Tally, d: &ChannelDefinition, Ghost(defs): Ghost<Seq<ChannelDefinition>>, Ghost(
    channel_count,
): Ghost<int>, Ghost(color_count): Ghost<int>) -> (ok: bool)
    requires
        old(tally).holds(defs, channel_count, color_count),
        d.association != ChannelAssociation::Colour(0),
    ensures
        ok ==> final(tally).holds(defs.push(*d), channel_count, color_count),
        !ok ==> !admissible(*d, channel_count, color_count) || exists|i: int|
            0 <= i < defs.len() && !compatible(#[trigger] defs[i], *d),
{
    let index: usize = d.channel_index as usize;
    if index >= tally.types.len() {
        return false;
    }
    match tally.types[index] {
        Some(prior) => {
            if prior != d.channel_type {
                proof {
                    assert(defined(defs, index as int));
                    let i = choose|i: int|
                        0 <= i < defs.len() && (#[trigger] defs[i]).channel_index == index;
                    assert(!compatible(defs[i], *d));
                }
                return false;
            }
        },
        None => {},
    }
    let ghost before = *tally;
    proof {
        lemma_next(defs, *d);
    }
    tally.types.set(index, Some(d.channel_type));
    match (d.channel_type, d.association) {
        (ChannelType::Colour, ChannelAssociation::Colour(color)) => {
            let c: usize = color as usize - 1;
            if c >= tally.colors.len() {
                return false;
            }
            if tally.colors[c].is_some() {
                proof {
                    assert(colored(defs, c + 1));
                    let i = choose|i: int|
                        0 <= i < defs.len() && is_color(#[trigger] defs[i], c + 1);
                    assert(!compatible(defs[i], *d));
                }
                return false;
            }
            tally.colors.set(c, Some(index));
            proof {
                assert forall|i: int| 0 <= i < defs.len() implies compatible(
                    #[trigger] defs[i],
                    *d,
                ) by {
                    if is_color(defs[i], c + 1) {
                        assert(before.colors@[c as int] is Some);
                    }
                }
            }
        },
        (ChannelType::Colour, ChannelAssociation::WholeImage) => {
            return false;
        },
        (ChannelType::Colour, ChannelAssociation::Unspecified) => {},
        (_, ChannelAssociation::Unspecified) => {},
        (_, association) => {
            match tally.opacity {
                Some(prior) => {
                    if prior != index {
                        proof {
                            let i = choose|i: int|
                                0 <= i < defs.len() && is_opacity(#[trigger] defs[i]);
                            assert(!compatible(defs[i], *d));
                        }
                        return false;
                    }
                },
                None => {},
            }
            tally.opacity = Some(index);
            match association {
                ChannelAssociation::Colour(color) => {
                    let c: usize = color as usize - 1;
                    if c >= tally.opacity_colors.len() {
                        return false;
                    }
                    if tally.opacity_colors[c] {
                        proof {
                            assert(covered(defs, association));
                            let i = choose|i: int|
                                0 <= i < defs.len() && covers(#[trigger] defs[i], association);
                            assert(!compatible(defs[i], *d));
                        }
                        return false;
                    }
                    tally.opacity_colors.set(c, true);
                },
                _ => {
                    if tally.whole_image {
                        proof {
                            let i = choose|i: int|
                                0 <= i < defs.len() && covers(#[trigger] defs[i], association);
                            assert(!compatible(defs[i], *d));
                        }
                        return false;
                    }
                    tally.whole_image = true;
                },
            }
            proof {
                assert(!covered(defs, association));
                assert forall|i: int| 0 <= i < defs.len() implies compatible(
                    #[trigger] defs[i],
                    *d,
                ) by {
                    if is_opacity(defs[i]) {
                        assert(!covers(defs[i], association));
                    }
                }
            }
        },
    }
    proof {
        let next = defs.push(*d);
        assert forall|i: int| 0 <= i < defs.len() implies compatible(#[trigger] defs[i], *d) by {
            if defs[i].channel_index == index {
                assert(before.types@[index as int] == Some(defs[i].channel_type));
            }
        }
        assert(forall|i: int| 0 <= i < defs.len() ==> next[i] == defs[i]);
        assert(next[defs.len() as int] == *d);
        assert forall|i: int, color: int|
            0 <= i < next.len() && 1 <= color <= color_count && #[trigger] is_color(
                next[i],
                color,
            ) implies tally.colors@[color - 1] == Some(next[i].channel_index as usize) by {
            if i < defs.len() {
                assert(is_color(defs[i], color));
            }
        }
        assert forall|c: int| 0 <= c < color_count && (#[trigger] tally.colors@[c]) is Some implies
            colored(next, c + 1) by {
            assert(colored(next, c + 1) == (colored(defs, c + 1) || is_color(*d, c + 1)));
        }
        assert forall|c: int| 0 <= c < color_count implies (#[trigger] tally.opacity_colors@[c])
            == covered(next, ChannelAssociation::Colour((c + 1) as u16)) by {
            let a = ChannelAssociation::Colour((c + 1) as u16);
            assert(covered(next, a) == (covered(defs, a) || covers(*d, a)));
            assert(before.opacity_colors@[c] == covered(defs, a));
        }
    }
    true
}

/// Whether any of the flags is not set.
fn some_unset(flags: &Vec<bool>) -> (unset: bool)
    ensures
        unset == exists|i: int| 0 <= i < flags@.len() && !#[trigger] flags@[i],
{
    let mut i: usize = 0;
    while i < flags.len()
        invariant
            i <= flags@.len(),
            forall|k: int| 0 <= k < i ==> #[trigger] flags@[k],
        decreases flags@.len() - i,
    {
        if !flags[i] {
            return true;
        }
        i = i + 1;
    }
    false
}

/// Whether any channel has no type.
fn some_untyped(types: &Vec<Option<ChannelType>>) -> (untyped: bool)
    ensures
        untyped == exists|i: int| 0 <= i < types@.len() && (#[trigger] types@[i]) is None,
{
    let mut i: usize = 0;
    while i < types.len()
        invariant
            i <= types@.len(),
            forall|k: int| 0 <= k < i ==> (#[trigger] types@[k]) is Some,
        decreases types@.len() - i,
    {
        if types[i].is_none() {
            return true;
        }
        i = i + 1;
    }
    false
}

fn empty_tally(channel_count: usize, color_count: usize) -> (tally: Tally)
    requires
        color_count <= 0xFFFF,
    ensures
        tally.holds(Seq::empty(), channel_count as int, color_count as int),
{
    let mut colors: Vec<Option<usize>> = Vec::new();
    let mut opacity_colors: Vec<bool> = Vec::new();
    let mut i: usize = 0;
    while i < color_count
        invariant
            i <= color_count,
            colors@.len() == i,
            opacity_colors@.len() == i,
            forall|k: int| 0 <= k < i ==> (#[trigger] colors@[k]) is None,
            forall|k: int| 0 <= k < i ==> !#[trigger] opacity_colors@[k],
        decreases color_count - i,
    {
        colors.push(None);
        opacity_colors.push(false);
        i = i + 1;
    }
    let mut types: Vec<Option<ChannelType>> = Vec::new();
    i = 0;
    while i < channel_count
        invariant
            i <= channel_count,
            types@.len() == i,
            forall|k: int| 0 <= k < i ==> (#[trigger] types@[k]) is None,
        decreases channel_count - i,
    {
        types.push(None);
        i = i + 1;
    }
    Tally { colors, types, opacity: None, whole_image: false, opacity_colors }
}

impl ChannelDefinitionBox {
    /// The channels in the order of the colours, then the opacity channel, and whether there is
    /// one.
    ///
    /// Distinct opacity per colour would need a different output, so it is refused.
    pub fn order(&self, channel_count: usize, color_count: usize) -> (result: Result<
        (Vec<usize>, bool),
    >)
        requires
            counted_from_one(self.channel_definitions@),
        ensures
            match result {
                Ok((order, has_alpha)) => {
                    &&& orderable(
                        self.channel_definitions@,
                        channel_count as int,
                        color_count as int,
                    )
                    &&& order@ == channel_order(self.channel_definitions@, color_count as int)
                    &&& has_alpha == has_opacity(self.channel_definitions@)
                },
                Err(error) => {
                    &&& !orderable(
                        self.channel_definitions@,
                        channel_count as int,
                        color_count as int,
                    )
                    &&& error == invalid_metadata()
                },
            },
    {
        if color_count == 0 || channel_count == 0 {
            return Err(DecodeError::Validation(ValidationError::InvalidComponentMetadata));
        }
        let ghost defs = self.channel_definitions@;
        // No association names a colour beyond these.
        if color_count > 0xFFFF {
            assert(!colored(defs, 0x1_0000));
            return Err(DecodeError::Validation(ValidationError::InvalidComponentMetadata));
        }
        let mut tally = empty_tally(channel_count, color_count);
        let mut n: usize = 0;
        assert(defs.take(0) =~= Seq::empty());
        while n < self.channel_definitions.len()
            invariant
                n <= defs.len(),
                defs == self.channel_definitions@,
                counted_from_one(defs),
                tally.holds(defs.take(n as int), channel_count as int, color_count as int),
            decreases defs.len() - n,
        {
            let ghost seen = defs.take(n as int);
            let noted = note(
                &mut tally,
                &self.channel_definitions[n],
                Ghost(seen),
                Ghost(channel_count as int),
                Ghost(color_count as int),
            );
            if !noted {
                proof {
                    if admissible(defs[n as int], channel_count as int, color_count as int) {
                        let i = choose|i: int|
                            0 <= i < seen.len() && !compatible(#[trigger] seen[i], defs[n as int]);
                        assert(!compatible(defs[i], defs[n as int]));
                    }
                }
                return Err(DecodeError::Validation(ValidationError::InvalidComponentMetadata));
            }
            assert(seen.push(defs[n as int]) =~= defs.take(n + 1));
            n = n + 1;
        }
        assert(defs.take(n as int) =~= defs);
        if some_untyped(&tally.types) {
            proof {
                let channel = choose|i: int|
                    0 <= i < channel_count && (#[trigger] tally.types@[i]) is None;
                if defined(defs, channel) {
                    let i = choose|i: int|
                        0 <= i < defs.len() && (#[trigger] defs[i]).channel_index == channel;
                    assert(tally.types@[defs[i].channel_index as int] is Some);
                }
                assert(!defined(defs, channel));
            }
            return Err(DecodeError::Validation(ValidationError::InvalidComponentMetadata));
        }
        assert(forall|channel: int|
            0 <= channel < channel_count ==> #[trigger] defined(defs, channel)) by {
            assert forall|channel: int| 0 <= channel < channel_count implies #[trigger] defined(
                defs,
                channel,
            ) by {
                assert(tally.types@[channel] is Some);
            }
        }
        proof {
            assert(tally.opacity is Some == has_opacity(defs));
        }
        if tally.opacity.is_some() && !tally.whole_image && some_unset(&tally.opacity_colors) {
            proof {
                let c = choose|c: int| 0 <= c < color_count && !#[trigger] tally.opacity_colors@[c];
                assert(!covered(defs, ChannelAssociation::Colour((c + 1) as u16)));
            }
            return Err(DecodeError::Validation(ValidationError::InvalidComponentMetadata));
        }
        proof {
            if has_opacity(defs) && !covered(defs, ChannelAssociation::WholeImage) {
                assert forall|color: int| 1 <= color <= color_count implies #[trigger] covered(
                    defs,
                    ChannelAssociation::Colour(color as u16),
                ) by {
                    assert(tally.opacity_colors@[color - 1]);
                }
            }
        }
        let mut order: Vec<usize> = Vec::new();
        let mut c: usize = 0;
        while c < color_count
            invariant
                c <= color_count <= 0xFFFF,
                tally.holds(defs, channel_count as int, color_count as int),
                order@.len() == c,
                forall|k: int| 0 <= k < c ==> #[trigger] colored(defs, k + 1),
                forall|k: int| 0 <= k < c ==> Some(#[trigger] order@[k]) == tally.colors@[k],
                defs == self.channel_definitions@,
            decreases color_count - c,
        {
            match tally.colors[c] {
                Some(index) => {
                    assert(colored(defs, c + 1));
                    order.push(index);
                },
                None => {
                    proof {
                        if colored(defs, c + 1) {
                            let i = choose|i: int|
                                0 <= i < defs.len() && is_color(#[trigger] defs[i], c + 1);
                            assert(is_color(defs[i], c + 1));
                            assert(tally.colors@[c + 1 - 1] is Some);
                        }
                    }
                    return Err(DecodeError::Validation(ValidationError::InvalidComponentMetadata));
                },
            }
            c = c + 1;
        }
        proof {
            assert forall|color: int| 1 <= color <= color_count implies #[trigger] colored(
                defs,
                color,
            ) by {
                assert(colored(defs, (color - 1) + 1));
            }
            assert(orderable(defs, channel_count as int, color_count as int));
            assert forall|k: int| 0 <= k < color_count implies order@[k] == color_channel(
                defs,
                k + 1,
            ) by {
                assert(colored(defs, k + 1));
                let i = choose|i: int| 0 <= i < defs.len() && is_color(#[trigger] defs[i], k + 1);
                assert(is_color(defs[i], k + 1));
                assert(tally.colors@[k + 1 - 1] == Some(defs[i].channel_index as usize));
                assert(Some(order@[k]) == tally.colors@[k]);
            }
        }
        let has_alpha = tally.opacity.is_some();
        match tally.opacity {
            Some(index) => {
                order.push(index);
            },
            None => {},
        }
        assert(order@ =~= channel_order(defs, color_count as int));
        Ok((order, has_alpha))
    }
}

/// A channel that is the component at a place.
pub open spec fn direct(index: int) -> ComponentMappingEntry {
    ComponentMappingEntry {
        component_index: index as u16,
        mapping_type: ComponentMappingType::Direct,
    }
}

/// One channel for every component.
pub open spec fn direct_mappings(count: nat) -> Seq<ComponentMappingEntry> {
    Seq::new(count, |i: int| direct(i))
}

/// The channels of the image: those of the component mapping if there is a palette, otherwise the
/// components.
pub open spec fn channel_mappings(boxes: ImageBoxes, raw_count: nat) -> Option<
    Seq<ComponentMappingEntry>,
> {
    if boxes.palette is Some {
        match boxes.component_mapping {
            Some(mapping) => Some(mapping.entries@),
            None => None,
        }
    } else {
        Some(direct_mappings(raw_count))
    }
}

/// A channel is made from a component that exists, and from a palette column that exists.
pub open spec fn mapping_ok(
    entry: ComponentMappingEntry,
    raw_count: int,
    palette: Option<PaletteBox>,
) -> bool {
    &&& entry.component_index < raw_count
    &&& entry.mapping_type matches ComponentMappingType::Palette { column } ==> {
        &&& palette matches Some(palette)
        &&& column < palette.column_count
    }
}

/// The definitions of the channels.
pub open spec fn definitions(boxes: ImageBoxes) -> Seq<ChannelDefinition> {
    match boxes.channel_definition {
        Some(definition) => definition.channel_definitions@,
        None => Seq::empty(),
    }
}

/// The highest colour that is defined.
pub open spec fn declared_colors(defs: Seq<ChannelDefinition>) -> Option<int>
    decreases defs.len(),
{
    if defs.len() == 0 {
        None
    } else {
        let before = declared_colors(defs.drop_last());
        match (defs.last().channel_type, defs.last().association) {
            (ChannelType::Colour, ChannelAssociation::Colour(color)) => match before {
                Some(highest) if highest > color => before,
                _ => Some(color as int),
            },
            _ => before,
        }
    }
}

/// The number of colours to look up a colour space for.
pub open spec fn color_request(boxes: ImageBoxes, mappings: Seq<ComponentMappingEntry>) -> int {
    match declared_colors(definitions(boxes)) {
        Some(count) => count,
        None => mappings.len() as int,
    }
}

/// The caller states the number of colour components, and the palette does not have to stay
/// unresolved.
pub open spec fn stated_components(
    boxes: ImageBoxes,
    settings: DecodeSettings,
    color_components: Option<u8>,
) -> Option<u8> {
    if settings.resolve_palette_indices || boxes.palette is None {
        color_components
    } else {
        None
    }
}

/// An opacity channel is a signed component.
pub open spec fn signed_opacity(
    d: ChannelDefinition,
    mappings: Seq<ComponentMappingEntry>,
    header: Header,
) -> bool {
    let mapping = mappings[d.channel_index as int];
    d.channel_type != ChannelType::Colour && mapping.mapping_type == ComponentMappingType::Direct
        && header.component_infos@[mapping.component_index as int].is_signed
}

/// The layout for a colour space.
pub open spec fn layout_for(
    boxes: ImageBoxes,
    header: Header,
    strict: bool,
    mappings: Seq<ComponentMappingEntry>,
    color_space: ColorSpace,
) -> Result<LayoutModel> {
    let count = color_space.channels();
    if boxes.channel_definition is Some {
        let defs = definitions(boxes);
        if !orderable(defs, mappings.len() as int, count) || exists|i: int|
            0 <= i < defs.len() && signed_opacity(#[trigger] defs[i], mappings, header) {
            Err(invalid_metadata())
        } else {
            let order = channel_order(defs, count);
            Ok(
                LayoutModel {
                    color_space,
                    has_alpha: has_opacity(defs),
                    mappings: Seq::new(order.len(), |i: int| mappings[order[i] as int]),
                },
            )
        }
    } else if mappings.len() == count {
        Ok(LayoutModel { color_space, has_alpha: false, mappings })
    } else if !strict && mappings.len() == count + 1 {
        Ok(LayoutModel { color_space, has_alpha: true, mappings })
    } else if mappings.len() == 1 {
        Ok(LayoutModel { color_space: ColorSpace::Gray, has_alpha: false, mappings })
    } else if mappings.len() == 3 {
        Ok(LayoutModel { color_space: ColorSpace::RGB, has_alpha: false, mappings })
    } else if mappings.len() == 4 {
        Ok(LayoutModel { color_space: ColorSpace::CMYK, has_alpha: false, mappings })
    } else {
        Err(DecodeError::Validation(ValidationError::TooManyChannels))
    }
}

/// The layout with the palette applied.
pub open spec fn expanded_layout(
    boxes: ImageBoxes,
    header: Header,
    settings: DecodeSettings,
    color_components: Option<u8>,
    named: Result<ColorSpace>,
) -> Result<LayoutModel> {
    match channel_mappings(boxes, header.component_infos@.len()) {
        None => Err(invalid_metadata()),
        Some(mappings) => {
            if exists|i: int|
                0 <= i < mappings.len() && !mapping_ok(
                    #[trigger] mappings[i],
                    header.component_infos@.len() as int,
                    boxes.palette,
                ) {
                Err(invalid_metadata())
            } else {
                match stated_components(boxes, settings, color_components) {
                    Some(num_channels) => layout_for(
                        boxes,
                        header,
                        settings.strict,
                        mappings,
                        ColorSpace::Unknown { num_channels },
                    ),
                    None => match named {
                        Err(error) => Err(error),
                        Ok(color_space) => layout_for(
                            boxes,
                            header,
                            settings.strict,
                            mappings,
                            color_space,
                        ),
                    },
                }
            }
        },
    }
}

/// The layout of an image: palette indices that are not to be resolved stay as they are, as grey
/// channels.
pub open spec fn layout_of(
    boxes: ImageBoxes,
    header: Header,
    settings: DecodeSettings,
    color_components: Option<u8>,
    named: Result<ColorSpace>,
) -> Result<LayoutModel> {
    match expanded_layout(boxes, header, settings, color_components, named) {
        Err(error) => Err(error),
        Ok(layout) => if !settings.resolve_palette_indices && boxes.palette is Some {
            Ok(
                LayoutModel {
                    color_space: ColorSpace::Gray,
                    has_alpha: false,
                    mappings: direct_mappings(header.component_infos@.len()),
                },
            )
        } else {
            Ok(layout)
        },
    }
}

fn build_direct(count: usize) -> (mappings: Vec<ComponentMappingEntry>)
    requires
        count <= 0x1_0000,
    ensures
        mappings@ == direct_mappings(count as nat),
{
    let mut mappings: Vec<ComponentMappingEntry> = Vec::new();
    let mut i: usize = 0;
    while i < count
        invariant
            i <= count <= 0x1_0000,
            mappings@.len() == i,
            forall|k: int| 0 <= k < i ==> mappings@[k] == direct(k),
        decreases count - i,
    {
        mappings.push(
            ComponentMappingEntry {
                component_index: i as u16,
                mapping_type: ComponentMappingType::Direct,
            },
        );
        i = i + 1;
    }
    assert(mappings@ =~= direct_mappings(count as nat));
    mappings
}

fn copy_entries(entries: &Vec<ComponentMappingEntry>) -> (copy: Vec<ComponentMappingEntry>)
    ensures
        copy@ == entries@,
{
    let mut copy: Vec<ComponentMappingEntry> = Vec::new();
    let mut i: usize = 0;
    while i < entries.len()
        invariant
            i <= entries@.len(),
            copy@ == entries@.take(i as int),
        decreases entries@.len() - i,
    {
        copy.push(entries[i]);
        assert(entries@.take(i + 1) =~= entries@.take(i as int).push(entries@[i as int]));
        i = i + 1;
    }
    assert(entries@.take(i as int) =~= entries@);
    copy
}

/// The channels of the image, if all of them can be made.
pub fn map_channels(boxes: &ImageBoxes, header: &Header) -> (result: Result<
    Vec<ComponentMappingEntry>,
>)
    requires
        header.component_infos@.len() <= 0x1_0000,
    ensures
        match result {
            Ok(mappings) => {
                &&& channel_mappings(*boxes, header.component_infos@.len()) == Some(mappings@)
                &&& forall|i: int|
                    0 <= i < mappings@.len() ==> mapping_ok(
                        #[trigger] mappings@[i],
                        header.component_infos@.len() as int,
                        boxes.palette,
                    )
            },
            Err(error) => {
                &&& error == invalid_metadata()
                &&& match channel_mappings(*boxes, header.component_infos@.len()) {
                    None => true,
                    Some(mappings) => exists|i: int|
                        0 <= i < mappings.len() && !mapping_ok(
                            #[trigger] mappings[i],
                            header.component_infos@.len() as int,
                            boxes.palette,
                        ),
                }
            },
        },
{
    let raw_count: usize = header.component_infos.len();
    let mappings = if boxes.palette.is_some() {
        match &boxes.component_mapping {
            None => {
                return Err(DecodeError::Validation(ValidationError::InvalidComponentMetadata));
            },
            Some(mapping) => copy_entries(&mapping.entries),
        }
    } else {
        build_direct(raw_count)
    };
    let mut i: usize = 0;
    while i < mappings.len()
        invariant
            i <= mappings@.len(),
            raw_count == header.component_infos@.len(),
            channel_mappings(*boxes, header.component_infos@.len()) == Some(mappings@),
            forall|k: int|
                0 <= k < i ==> mapping_ok(
                    #[trigger] mappings@[k],
                    raw_count as int,
                    boxes.palette,
                ),
        decreases mappings@.len() - i,
    {
        let entry = mappings[i];
        let column_ok = match entry.mapping_type {
            ComponentMappingType::Direct => true,
            ComponentMappingType::Palette { column } => match boxes.palette {
                Some(palette) => (column as usize) < palette.column_count,
                None => false,
            },
        };
        if entry.component_index as usize >= raw_count || !column_ok {
            proof {
                let all = mappings@;
                assert(!mapping_ok(
                    all[i as int],
                    header.component_infos@.len() as int,
                    boxes.palette,
                ));
                assert(channel_mappings(*boxes, header.component_infos@.len())->0[i as int]
                    == all[i as int]);
            }
            return Err(DecodeError::Validation(ValidationError::InvalidComponentMetadata));
        }
        i = i + 1;
    }
    Ok(mappings)
}

/// The number of colours to look up a colour space for.
pub fn requested_colors(boxes: &ImageBoxes, mappings: &Vec<ComponentMappingEntry>) -> (count: usize)
    ensures
        count == color_request(*boxes, mappings@),
{
    match &boxes.channel_definition {
        None => mappings.len(),
        Some(definition) => {
            let defs = &definition.channel_definitions;
            let mut highest: Option<u16> = None;
            let mut i: usize = 0;
            while i < defs.len()
                invariant
                    i <= defs@.len(),
                    match highest {
                        Some(color) => declared_colors(defs@.take(i as int)) == Some(color as int),
                        None => declared_colors(defs@.take(i as int)) is None,
                    },
                decreases defs@.len() - i,
            {
                assert(defs@.take(i + 1).drop_last() =~= defs@.take(i as int));
                match (defs[i].channel_type, defs[i].association) {
                    (ChannelType::Colour, ChannelAssociation::Colour(color)) => {
                        highest = match highest {
                            Some(before) if before > color => Some(before),
                            _ => Some(color),
                        };
                    },
                    _ => {},
                }
                i = i + 1;
            }
            assert(defs@.take(i as int) =~= defs@);
            match highest {
                Some(color) => color as usize,
                None => mappings.len(),
            }
        },
    }
}

/// Order the channels for a colour space.
fn lay_out(
    boxes: &ImageBoxes,
    header: &Header,
    strict: bool,
    mappings: Vec<ComponentMappingEntry>,
    color_space: ColorSpace,
) -> (result: Result<ChannelLayout>)
    requires
        counted_from_one(definitions(*boxes)),
        forall|i: int|
            0 <= i < mappings@.len() ==> mapping_ok(
                #[trigger] mappings@[i],
                header.component_infos@.len() as int,
                boxes.palette,
            ),
    ensures
        layout_result(result) == layout_for(*boxes, *header, strict, mappings@, color_space),
{
    let count: usize = color_space.num_channels() as usize;
    match &boxes.channel_definition {
        Some(definition) => {
            let defs = &definition.channel_definitions;
            assert(defs@ == definitions(*boxes));
            match definition.order(mappings.len(), count) {
                Err(error) => Err(error),
                Ok((order, has_alpha)) => {
                    let mut i: usize = 0;
                    while i < defs.len()
                        invariant
                            i <= defs@.len(),
                            defs@ == definitions(*boxes),
                            boxes.channel_definition is Some,
                            count == color_space.channels(),
                            orderable(defs@, mappings@.len() as int, count as int),
                            forall|k: int|
                                0 <= k < mappings@.len() ==> mapping_ok(
                                    #[trigger] mappings@[k],
                                    header.component_infos@.len() as int,
                                    boxes.palette,
                                ),
                            forall|k: int|
                                0 <= k < i ==> !signed_opacity(
                                    #[trigger] defs@[k],
                                    mappings@,
                                    *header,
                                ),
                        decreases defs@.len() - i,
                    {
                        assert(admissible(defs@[i as int], mappings@.len() as int, count as int));
                        if defs[i].channel_type.is_opacity() {
                            let mapping = mappings[defs[i].channel_index as usize];
                            assert(mapping_ok(
                                mapping,
                                header.component_infos@.len() as int,
                                boxes.palette,
                            ));
                            if mapping.mapping_type == ComponentMappingType::Direct
                                && header.component_infos[mapping.component_index as usize].is_signed {
                                assert(signed_opacity(defs@[i as int], mappings@, *header));
                                return Err(
                                    DecodeError::Validation(
                                        ValidationError::InvalidComponentMetadata,
                                    ),
                                );
                            }
                        }
                        i = i + 1;
                    }
                    proof {
                        lemma_channel_order(defs@, mappings@.len() as int, count as int);
                    }
                    let mut ordered_mappings: Vec<ComponentMappingEntry> = Vec::new();
                    i = 0;
                    while i < order.len()
                        invariant
                            i <= order@.len(),
                            ordered_mappings@.len() == i,
                            order@ == channel_order(defs@, count as int),
                            forall|k: int|
                                0 <= k < order@.len() ==> (#[trigger] channel_order(
                                    defs@,
                                    count as int,
                                )[k]) < mappings@.len(),
                            forall|k: int|
                                0 <= k < i ==> #[trigger] ordered_mappings@[k]
                                    == mappings@[order@[k] as int],
                        decreases order@.len() - i,
                    {
                        assert(channel_order(defs@, count as int)[i as int] < mappings@.len());
                        ordered_mappings.push(mappings[order[i]]);
                        i = i + 1;
                    }
                    assert(ordered_mappings@ =~= Seq::new(
                        order@.len(),
                        |i: int| mappings@[order@[i] as int],
                    ));
                    Ok(ChannelLayout { color_space, has_alpha, mappings: ordered_mappings })
                },
            }
        },
        None => {
            if mappings.len() == count {
                return Ok(ChannelLayout { color_space, has_alpha: false, mappings });
            }
            if !strict && mappings.len() == count + 1 {
                return Ok(ChannelLayout { color_space, has_alpha: true, mappings });
            }
            let color_space = match mappings.len() {
                1 => ColorSpace::Gray,
                3 => ColorSpace::RGB,
                4 => ColorSpace::CMYK,
                _ => {
                    return Err(DecodeError::Validation(ValidationError::TooManyChannels));
                },
            };
            Ok(ChannelLayout { color_space, has_alpha: false, mappings })
        },
    }
}

/// A result with the layout as a model.
pub open spec fn layout_result(result: Result<ChannelLayout>) -> Result<LayoutModel> {
    match result {
        Ok(layout) => Ok(layout@),
        Err(error) => Err(error),
    }
}

/// Resolve the channels with the palette applied.
///
/// `named` is the colour space that the colour specification gives for the number of colours
/// that [`requested_colors`] returns.
fn resolve_expanded(
    boxes: &ImageBoxes,
    header: &Header,
    settings: &DecodeSettings,
    color_components: Option<u8>,
    named: Result<ColorSpace>,
) -> (result: Result<ChannelLayout>)
    requires
        header.component_infos@.len() <= 0x1_0000,
        counted_from_one(definitions(*boxes)),
    ensures
        layout_result(result) == expanded_layout(
            *boxes,
            *header,
            *settings,
            color_components,
            named,
        ),
{
    let mappings = match map_channels(boxes, header) {
        Err(error) => {
            return Err(error);
        },
        Ok(mappings) => mappings,
    };
    let stated = if settings.resolve_palette_indices || boxes.palette.is_none() {
        color_components
    } else {
        None
    };
    let color_space = match stated {
        Some(num_channels) => ColorSpace::Unknown { num_channels },
        None => match named {
            Err(error) => {
                return Err(error);
            },
            Ok(color_space) => color_space,
        },
    };
    lay_out(boxes, header, settings.strict, mappings, color_space)
}

/// Resolve the channels of an image.
///
/// `named` is the colour space that the colour specification gives for the number of colours
/// that [`requested_colors`] returns. A caller with a palette of its own uses the original index
/// samples; the mappings that the container declares are still validated.
pub fn resolve(
    boxes: &ImageBoxes,
    header: &Header,
    settings: &DecodeSettings,
    color_components: Option<u8>,
    named: Result<ColorSpace>,
) -> (result: Result<ChannelLayout>)
    requires
        header.component_infos@.len() <= 0x1_0000,
        counted_from_one(definitions(*boxes)),
    ensures
        layout_result(result) == layout_of(*boxes, *header, *settings, color_components, named),
{
    let layout = match resolve_expanded(boxes, header, settings, color_components, named) {
        Err(error) => {
            return Err(error);
        },
        Ok(layout) => layout,
    };
    if !settings.resolve_palette_indices && boxes.palette.is_some() {
        return Ok(
            ChannelLayout {
                color_space: ColorSpace::Gray,
                has_alpha: false,
                mappings: build_direct(header.component_infos.len()),
            },
        );
    }
    Ok(layout)
}

/// Every channel of a layout is made from a component, and from a palette column, that exist.
pub proof fn lemma_layout_mappings(
    boxes: ImageBoxes,
    header: Header,
    settings: DecodeSettings,
    color_components: Option<u8>,
    named: Result<ColorSpace>,
)
    requires
        header.component_infos@.len() <= 0x1_0000,
        counted_from_one(definitions(boxes)),
        layout_of(boxes, header, settings, color_components, named) is Ok,
    ensures
        ({
            let layout = layout_of(boxes, header, settings, color_components, named)->Ok_0;
            forall|i: int|
                0 <= i < layout.mappings.len() ==> mapping_ok(
                    #[trigger] layout.mappings[i],
                    header.component_infos@.len() as int,
                    boxes.palette,
                )
        }),
{
    let raw = header.component_infos@.len();
    let layout = layout_of(boxes, header, settings, color_components, named)->Ok_0;
    let mappings = channel_mappings(boxes, raw)->0;
    let color_space = match stated_components(boxes, settings, color_components) {
        Some(num_channels) => ColorSpace::Unknown { num_channels },
        None => named->Ok_0,
    };
    assert(layout_for(boxes, header, settings.strict, mappings, color_space) is Ok);
    let expanded = layout_for(boxes, header, settings.strict, mappings, color_space)->Ok_0;
    assert forall|i: int| 0 <= i < layout.mappings.len() implies mapping_ok(
        #[trigger] layout.mappings[i],
        raw as int,
        boxes.palette,
    ) by {
        if boxes.channel_definition is Some {
            lemma_channel_order(
                definitions(boxes),
                mappings.len() as int,
                color_space.channels(),
            );
            let order = channel_order(definitions(boxes), color_space.channels());
            if i < order.len() {
                assert(order[i] < mappings.len());
                assert(mapping_ok(mappings[order[i] as int], raw as int, boxes.palette));
            }
        }
    }
}

} // verus!
