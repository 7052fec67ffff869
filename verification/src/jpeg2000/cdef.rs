//! The channel definition box (cdef), defined in I.5.3.6.

use crate::jpeg2000::container::ImageBoxes;
use crate::jpeg2000::error::{invalid_box, DecodeError, FormatError, Result};
use vstd::prelude::*;

verus! {

/// The definitions of all channels, in the order of the channels.
#[derive(Debug, Clone)]
pub struct ChannelDefinitionBox {
    pub channel_definitions: Vec<ChannelDefinition>,
}

/// What a channel is for.
#[derive(Debug, Clone, Copy, PartialEq, Eq, Structural)]
pub struct ChannelDefinition {
    pub channel_index: u16,
    pub channel_type: ChannelType,
    pub association: ChannelAssociation,
}

/// The type of a channel (Table I.16).
#[derive(Debug, Clone, Copy, PartialEq, Eq, Structural)]
pub enum ChannelType {
    Colour,
    Opacity,
    PremultipliedOpacity,
}

/// The type with a number.
pub open spec fn type_of(value: int) -> Option<ChannelType> {
    if value == 0 {
        Some(ChannelType::Colour)
    } else if value == 1 {
        Some(ChannelType::Opacity)
    } else if value == 2 {
        Some(ChannelType::PremultipliedOpacity)
    } else {
        None
    }
}

impl ChannelType {
    /// The type with a number.
    pub fn from_raw(value: u16) -> (result: Option<Self>)
        ensures
            result == type_of(value as int),
    {
        match value {
            0 => Some(ChannelType::Colour),
            1 => Some(ChannelType::Opacity),
            2 => Some(ChannelType::PremultipliedOpacity),
            _ => None,
        }
    }

    /// Whether the channel holds opacity.
    pub fn is_opacity(self) -> (opacity: bool)
        ensures
            opacity == (self != ChannelType::Colour),
    {
        matches!(self, ChannelType::Opacity | ChannelType::PremultipliedOpacity)
    }
}

/// What a channel belongs to (Table I.17).
#[derive(Debug, Clone, Copy, PartialEq, Eq, Structural)]
pub enum ChannelAssociation {
    WholeImage,
    /// A colour, counted from one.
    Colour(u16),
    /// Nothing.
    Unspecified,
}

/// The association with a number.
pub open spec fn association_of(value: int) -> Option<ChannelAssociation> {
    if value == 0 {
        Some(ChannelAssociation::WholeImage)
    } else if value == 0xFFFF {
        None
    } else {
        Some(ChannelAssociation::Colour(value as u16))
    }
}

impl ChannelAssociation {
    /// The association with a number; an unspecified one is refused.
    pub fn from_raw(value: u16) -> (result: Option<Self>)
        ensures
            result == association_of(value as int),
    {
        match value {
            0 => Some(ChannelAssociation::WholeImage),
            0xFFFF => None,
            value => Some(ChannelAssociation::Colour(value)),
        }
    }
}

/// The big-endian 16-bit number that starts at a byte.
pub open spec fn half_at(data: Seq<u8>, at: int) -> int {
    data[at] * 0x100 + data[at + 1]
}

/// The definition at a place of the box, if its fields are valid.
pub open spec fn entry_at(data: Seq<u8>, i: int) -> Option<ChannelDefinition> {
    match (type_of(half_at(data, 6 * i + 4)), association_of(half_at(data, 6 * i + 6))) {
        (Some(channel_type), Some(association)) => Some(
            ChannelDefinition {
                channel_index: half_at(data, 6 * i + 2) as u16,
                channel_type,
                association,
            },
        ),
        _ => None,
    }
}

/// The box holds as many valid definitions as it says, and defines every channel up to that
/// number once.
pub open spec fn valid_box(data: Seq<u8>) -> bool {
    &&& data.len() >= 2
    &&& half_at(data, 0) > 0
    &&& data.len() >= 2 + 6 * half_at(data, 0)
    &&& forall|i: int| 0 <= i < half_at(data, 0) ==> #[trigger] entry_at(data, i) is Some
    &&& forall|i: int|
        0 <= i < half_at(data, 0) ==> (#[trigger] entry_at(data, i))->0.channel_index < half_at(
            data,
            0,
        )
    &&& forall|i: int, j: int|
        0 <= i < j < half_at(data, 0) ==> (#[trigger] entry_at(data, i))->0.channel_index != (
        #[trigger] entry_at(data, j))->0.channel_index
}

/// The definitions of a valid box, each at the place of its channel.
pub open spec fn defines(data: Seq<u8>, definitions: Seq<ChannelDefinition>) -> bool {
    &&& definitions.len() == half_at(data, 0)
    &&& forall|i: int|
        0 <= i < definitions.len() ==> (#[trigger] definitions[i]).channel_index == i
    &&& forall|i: int|
        0 <= i < half_at(data, 0) ==> definitions[(#[trigger] entry_at(
            data,
            i,
        ))->0.channel_index as int] == entry_at(data, i)->0
}

/// Read the definition at a place of the box.
fn read_entry(data: &[u8], i: usize) -> (entry: Option<ChannelDefinition>)
    requires
        data@.len() >= 6 * i + 8,
        i < 0x1_0000,
    ensures
        entry == entry_at(data@, i as int),
{
    let at: usize = 6 * i + 2;
    let channel_index: u16 = data[at] as u16 * 0x100 + data[at + 1] as u16;
    let channel_type: u16 = data[at + 2] as u16 * 0x100 + data[at + 3] as u16;
    let association: u16 = data[at + 4] as u16 * 0x100 + data[at + 5] as u16;
    match (ChannelType::from_raw(channel_type), ChannelAssociation::from_raw(association)) {
        (Some(channel_type), Some(association)) => Some(
            ChannelDefinition { channel_index, channel_type, association },
        ),
        _ => None,
    }
}

/// If every one of as many places as there are channels is taken, the places are a permutation.
proof fn lemma_filled(data: Seq<u8>, slots: Seq<Option<ChannelDefinition>>)
    requires
        half_at(data, 0) == slots.len(),
        forall|i: int|
            0 <= i < slots.len() ==> {
                &&& #[trigger] entry_at(data, i) is Some
                &&& entry_at(data, i)->0.channel_index < slots.len()
                &&& slots[entry_at(data, i)->0.channel_index as int] == entry_at(data, i)
            },
        forall|i: int, j: int|
            0 <= i < j < slots.len() ==> (#[trigger] entry_at(data, i))->0.channel_index != (
            #[trigger] entry_at(data, j))->0.channel_index,
    ensures
        forall|k: int| 0 <= k < slots.len() ==> #[trigger] slots[k] is Some,
{
    let places = Seq::new(slots.len(), |i: int| entry_at(data, i)->0.channel_index as int);
    assert(places.no_duplicates()) by {
        assert forall|i: int, j: int|
            0 <= i < places.len() && 0 <= j < places.len() && i != j implies places[i]
            != places[j] by {
            let a = entry_at(data, i);
            let b = entry_at(data, j);
        }
    }
    let all = vstd::set_lib::set_int_range(0, slots.len() as int);
    vstd::set_lib::lemma_int_range(0, slots.len() as int);
    places.unique_seq_to_set();
    assert(places.to_set().subset_of(all)) by {
        assert forall|p: int| places.to_set().contains(p) implies all.contains(p) by {
            let i = choose|i: int| 0 <= i < places.len() && places[i] == p;
            let a = entry_at(data, i);
        }
    }
    vstd::set_lib::lemma_subset_equality(places.to_set(), all);
    assert forall|k: int| 0 <= k < slots.len() implies #[trigger] slots[k] is Some by {
        assert(all.contains(k));
        assert(places.to_set().contains(k));
        let i = choose|i: int| 0 <= i < places.len() && places[i] == k;
        let a = entry_at(data, i);
    }
}

/// Parse the definitions of a channel definition box.
fn parse_definitions(data: &[u8]) -> (result: Option<Vec<ChannelDefinition>>)
    ensures
        result is Some <==> valid_box(data@),
        result matches Some(definitions) ==> defines(data@, definitions@),
{
    if data.len() < 2 {
        return None;
    }
    let count: usize = data[0] as usize * 0x100 + data[1] as usize;
    if count == 0 || data.len() < 2 + 6 * count {
        return None;
    }
    let mut slots: Vec<Option<ChannelDefinition>> = Vec::new();
    let mut i: usize = 0;
    while i < count
        invariant
            i <= count,
            slots@.len() == i,
            forall|k: int| 0 <= k < i ==> slots@[k] is None,
        decreases count - i,
    {
        slots.push(None);
        i = i + 1;
    }
    i = 0;
    while i < count
        invariant
            i <= count < 0x1_0000,
            slots@.len() == count,
            count > 0,
            count == half_at(data@, 0),
            data@.len() >= 2 + 6 * count,
            forall|k: int|
                0 <= k < i ==> {
                    &&& #[trigger] entry_at(data@, k) is Some
                    &&& entry_at(data@, k)->0.channel_index < count
                    &&& slots@[entry_at(data@, k)->0.channel_index as int] == entry_at(data@, k)
                },
            forall|k: int, l: int|
                0 <= k < l < i ==> (#[trigger] entry_at(data@, k))->0.channel_index != (
                #[trigger] entry_at(data@, l))->0.channel_index,
            forall|p: int|
                0 <= p < count && (#[trigger] slots@[p]) is Some ==> exists|k: int|
                    0 <= k < i && (#[trigger] entry_at(data@, k))->0.channel_index == p
                        && entry_at(data@, k) == slots@[p],
        decreases count - i,
    {
        let entry = read_entry(data, i);
        match entry {
            None => {
                assert(entry_at(data@, i as int) is None);
                return None;
            },
            Some(definition) => {
                let index: usize = definition.channel_index as usize;
                if index >= count {
                    assert(entry_at(data@, i as int)->0.channel_index >= count);
                    return None;
                }
                if slots[index].is_some() {
                    proof {
                        let k = choose|k: int|
                            0 <= k < i && (#[trigger] entry_at(data@, k))->0.channel_index == index
                                && entry_at(data@, k) == slots@[index as int];
                        assert(entry_at(data@, k)->0.channel_index == entry_at(
                            data@,
                            i as int,
                        )->0.channel_index);
                    }
                    return None;
                }
                let ghost before = slots@;
                slots.set(index, Some(definition));
                proof {
                    assert forall|k: int| 0 <= k < i implies (#[trigger] entry_at(
                        data@,
                        k,
                    ))->0.channel_index != index by {
                        if entry_at(data@, k)->0.channel_index == index {
                            assert(before[index as int] == entry_at(data@, k));
                        }
                    }
                    assert forall|p: int|
                        0 <= p < count && (#[trigger] slots@[p]) is Some implies exists|k: int|
                        0 <= k < i + 1 && (#[trigger] entry_at(data@, k))->0.channel_index == p
                            && entry_at(data@, k) == slots@[p] by {
                        if p == index {
                            let e = entry_at(data@, i as int);
                        } else {
                            assert(before[p] is Some);
                            let k = choose|k: int|
                                0 <= k < i && (#[trigger] entry_at(data@, k))->0.channel_index == p
                                    && entry_at(data@, k) == before[p];
                            let e = entry_at(data@, k);
                        }
                    }
                }
            },
        }
        i = i + 1;
    }
    proof {
        lemma_filled(data@, slots@);
    }
    let mut definitions: Vec<ChannelDefinition> = Vec::new();
    i = 0;
    while i < count
        invariant
            i <= count,
            slots@.len() == count,
            definitions@.len() == i,
            forall|k: int| 0 <= k < count ==> #[trigger] slots@[k] is Some,
            forall|k: int| 0 <= k < i ==> Some(#[trigger] definitions@[k]) == slots@[k],
        decreases count - i,
    {
        match slots[i] {
            Some(definition) => {
                definitions.push(definition);
            },
            None => {},
        }
        i = i + 1;
    }
    proof {
        assert forall|p: int| 0 <= p < count implies (
        #[trigger] definitions@[p]).channel_index == p by {
            assert(slots@[p] is Some);
            let k = choose|k: int|
                0 <= k < count && (#[trigger] entry_at(data@, k))->0.channel_index == p && entry_at(
                    data@,
                    k,
                ) == slots@[p];
        }
        assert forall|k: int| 0 <= k < count implies definitions@[(#[trigger] entry_at(
            data@,
            k,
        ))->0.channel_index as int] == entry_at(data@, k)->0 by {
            let p = entry_at(data@, k)->0.channel_index as int;
            assert(Some(definitions@[p]) == slots@[p]);
        }
    }
    Some(definitions)
}

/// Parse a channel definition box.
///
/// The channel indices have to increase in steps of one, starting from zero, once the definitions
/// are sorted by them.
pub fn parse(boxes: &mut ImageBoxes, data: &[u8]) -> (result: Result<()>)
    ensures
        if valid_box(data@) {
            &&& result == Ok::<(), DecodeError>(())
            &&& final(boxes).channel_definition matches Some(definition)
            &&& defines(data@, definition.channel_definitions@)
            &&& final(boxes).same_but_channels(old(boxes))
        } else {
            &&& result == Err::<(), DecodeError>(invalid_box())
            &&& *final(boxes) == *old(boxes)
        },
{
    match parse_definitions(data) {
        None => Err(DecodeError::Format(FormatError::InvalidBox)),
        Some(channel_definitions) => {
            boxes.channel_definition = Some(ChannelDefinitionBox { channel_definitions });
            Ok(())
        },
    }
}

/// The definitions of a valid box.
pub open spec fn box_definitions(data: Seq<u8>) -> Seq<ChannelDefinition> {
    choose|definitions: Seq<ChannelDefinition>| defines(data, definitions)
}

/// Colours are counted from one in the definitions of a valid box.
pub proof fn lemma_no_color_zero(data: Seq<u8>, definitions: Seq<ChannelDefinition>)
    requires
        valid_box(data),
        defines(data, definitions),
    ensures
        forall|p: int|
            0 <= p < definitions.len() ==> (#[trigger] definitions[p]).association
                != ChannelAssociation::Colour(0),
{
    let slots = Seq::new(
        definitions.len(),
        |p: int|
            if exists|k: int|
                0 <= k < definitions.len() && (#[trigger] entry_at(data, k))->0.channel_index
                    == p {
                Some(definitions[p])
            } else {
                None
            },
    );
    lemma_filled(data, slots);
    assert forall|p: int| 0 <= p < definitions.len() implies (
    #[trigger] definitions[p]).association != ChannelAssociation::Colour(0) by {
        assert(slots[p] is Some);
        let k = choose|k: int|
            0 <= k < definitions.len() && (#[trigger] entry_at(data, k))->0.channel_index == p;
        assert(definitions[p] == entry_at(data, k)->0);
        assert(association_of(half_at(data, 6 * k + 6)) is Some);
    }
}

/// The definitions that a valid box gives are the only ones.
pub proof fn lemma_defines_unique(
    data: Seq<u8>,
    a: Seq<ChannelDefinition>,
    b: Seq<ChannelDefinition>,
)
    requires
        valid_box(data),
        defines(data, a),
        defines(data, b),
    ensures
        a == b,
{
    let slots = Seq::new(
        a.len(),
        |p: int|
            if exists|k: int|
                0 <= k < a.len() && (#[trigger] entry_at(data, k))->0.channel_index == p {
                Some(a[p])
            } else {
                None
            },
    );
    assert forall|i: int| 0 <= i < slots.len() implies {
        &&& #[trigger] entry_at(data, i) is Some
        &&& entry_at(data, i)->0.channel_index < slots.len()
        &&& slots[entry_at(data, i)->0.channel_index as int] == entry_at(data, i)
    } by {}
    lemma_filled(data, slots);
    assert forall|p: int| 0 <= p < a.len() implies a[p] == b[p] by {
        assert(slots[p] is Some);
        let k = choose|k: int|
            0 <= k < a.len() && (#[trigger] entry_at(data, k))->0.channel_index == p;
    }
    assert(a =~= b);
}

} // verus!
