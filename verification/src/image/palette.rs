//! Palettes of indexed color spaces.

use crate::list::copied;
use crate::object::{Array, Document, MaybeRef, Object};
use crate::types::ColorSpaceKind;
use vstd::prelude::*;

verus! {

/// A palette of an indexed color space.
#[derive(Debug)]
pub struct Palette {
    /// The components of an entry.
    pub components: usize,
    /// The greatest index.
    pub last: u8,
    /// The components of all entries.
    pub table: Vec<u8>,
}

/// The bytes of a lookup table.
pub open spec fn table_of(doc: Document, item: MaybeRef) -> Option<Seq<u8>> {
    match doc.resolved(item) {
        Some(Object::String(text)) => Some(text@),
        Some(Object::Stream(stream)) => match stream.data {
            Some(data) => Some(data@),
            None => None,
        },
        _ => None,
    }
}

/// The greatest index of a palette.
pub open spec fn last_index(doc: Document, item: MaybeRef) -> Option<u8> {
    match doc.resolved(item) {
        Some(Object::Number(number)) => match number.integer {
            Some(value) => if 0 <= value <= 255 {
                Some(value as u8)
            } else {
                None
            },
            None => None,
        },
        _ => None,
    }
}

/// A palette with sequences.
pub struct PaletteModel {
    pub components: usize,
    pub last: u8,
    pub table: Seq<u8>,
}

/// The palette of an indexed color space. It is complete, and nothing is left over.
pub open spec fn palette_of(
    doc: Document,
    items: Seq<MaybeRef>,
    base: ColorSpaceKind,
    components: usize,
) -> Option<PaletteModel> {
    if items.len() != 4 || base == ColorSpaceKind::Indexed || base == ColorSpaceKind::Pattern {
        None
    } else {
        match (last_index(doc, items[2]), table_of(doc, items[3])) {
            (Some(last), Some(table)) => if table.len() == (last + 1) * components {
                Some(PaletteModel { components, last, table })
            } else {
                None
            },
            _ => None,
        }
    }
}

impl View for Palette {
    type V = PaletteModel;

    open spec fn view(&self) -> PaletteModel {
        PaletteModel { components: self.components, last: self.last, table: self.table@ }
    }
}

fn read_table(doc: &Document, item: &MaybeRef) -> (table: Option<Vec<u8>>)
    ensures
        match table_of(*doc, *item) {
            Some(expected) => table matches Some(table) && table@ == expected,
            None => table is None,
        },
{
    match doc.resolve(item) {
        Some(Object::String(text)) => Some(copied(text.as_slice())),
        Some(Object::Stream(stream)) => match &stream.data {
            Some(data) => Some(copied(data.as_slice())),
            None => None,
        },
        _ => None,
    }
}

impl Palette {
    /// All entries of the palette are there.
    pub open spec fn wf(&self) -> bool {
        self.table@.len() == (self.last + 1) * self.components
    }

    /// The palette of an indexed color space over a base with so many components.
    pub fn new(doc: &Document, array: &Array, base: ColorSpaceKind, components: usize) -> (palette:
        Option<Self>)
        ensures
            match palette_of(*doc, array.items@, base, components) {
                Some(expected) => {
                    &&& palette matches Some(palette)
                    &&& palette@ == expected
                    &&& palette.wf()
                },
                None => palette is None,
            },
    {
        if array.items.len() != 4 || base == ColorSpaceKind::Indexed || base
            == ColorSpaceKind::Pattern {
            return None;
        }
        let last: u8 = match doc.resolve(&array.items[2]) {
            Some(Object::Number(number)) => match number.integer {
                Some(value) => if value >= 0 && value <= 255 {
                    value as u8
                } else {
                    return None;
                },
                None => {
                    return None;
                },
            },
            _ => {
                return None;
            },
        };
        let table = match read_table(doc, &array.items[3]) {
            Some(table) => table,
            None => {
                return None;
            },
        };
        assert((last + 1) * components <= 256 * usize::MAX && 0 <= (last + 1) * components)
            by (nonlinear_arith)
            requires
                last <= 255,
                components <= usize::MAX,
        ;
        if table.len() as u128 != (last as u128 + 1) * components as u128 {
            return None;
        }
        Some(Palette { components, last, table })
    }

    /// The components of an entry.
    pub fn entry(&self, index: u8) -> (entry: Vec<u8>)
        requires
            self.wf(),
            index <= self.last,
        ensures
            entry@ == self.table@.subrange(
                index * self.components,
                (index + 1) * self.components,
            ),
    {
        let ghost n = self.components as int;
        let mut entry: Vec<u8> = Vec::new();
        let total: usize = self.table.len();
        proof {
            assert(0 <= index * n && (index + 1) * n == index * n + n && (index + 1) * n <= (
            self.last + 1) * n) by (nonlinear_arith)
                requires
                    0 <= index <= self.last,
                    n >= 0,
            ;
        }
        assert(index * n <= total);
        let start: usize = index as usize * self.components;
        let mut i: usize = 0;
        while i < self.components
            invariant
                i <= self.components,
                n == self.components,
                start == index * n,
                start + n <= self.table@.len() == total,
                entry@ == self.table@.subrange(start as int, start + i),
            decreases self.components - i,
        {
            entry.push(self.table[start + i]);
            assert(entry@ =~= self.table@.subrange(start as int, start + i + 1));
            i = i + 1;
        }
        entry
    }
}

} // verus!
