//! The opacity of images.

use crate::image::dictionary::{alpha_mode, embedded_alpha_mode};
use crate::object::{Dict, Document, MaybeRef, Object, Stream};
use vstd::prelude::*;

verus! {

/// The number of leading items of an array that are unsigned numbers of two bytes.
pub open spec fn leading_words(doc: Document, items: Seq<MaybeRef>, from: int) -> int
    decreases items.len() - from,
{
    if from < items.len() && word_at(doc, items, from) is Some {
        leading_words(doc, items, from + 1)
    } else {
        from
    }
}

/// The item at a place, if it is an unsigned number of two bytes.
pub open spec fn word_at(doc: Document, items: Seq<MaybeRef>, i: int) -> Option<u16> {
    match doc.resolved(items[i]) {
        Some(Object::Number(number)) => if 0 <= number.truncated <= 0xFFFF {
            Some(number.truncated as u16)
        } else {
            None
        },
        _ => None,
    }
}

/// The color-key mask of an image: for each component, the least and the greatest sample that
/// is masked out.
pub open spec fn color_key_of(doc: Document, dict: Dict) -> Option<Seq<u16>> {
    match doc.value(dict, "Mask"@) {
        Some(Object::Array(array)) => {
            let count = leading_words(doc, array.items@, 0);
            Some(
                Seq::new(
                    if count > 0 {
                        count as nat
                    } else {
                        0
                    },
                    |i: int| word_at(doc, array.items@, i)->0,
                ),
            )
        },
        _ => None,
    }
}

/// The color-key mask of an image.
pub fn color_key(doc: &Document, dict: &Dict) -> (key: Option<Vec<u16>>)
    ensures
        match color_key_of(*doc, *dict) {
            Some(expected) => key matches Some(key) && key@ == expected,
            None => key is None,
        },
{
    match doc.lookup(dict, "Mask") {
        Some(Object::Array(array)) => {
            let mut key: Vec<u16> = Vec::new();
            let mut i: usize = 0;
            let mut reading = true;
            while reading && i < array.items.len()
                invariant
                    i <= array.items@.len(),
                    key@.len() == i,
                    reading ==> leading_words(*doc, array.items@, 0) == leading_words(
                        *doc,
                        array.items@,
                        i as int,
                    ),
                    !reading ==> leading_words(*doc, array.items@, 0) == i,
                    forall|k: int|
                        0 <= k < i ==> Some(#[trigger] key@[k]) == word_at(*doc, array.items@, k),
                decreases array.items@.len() - i, (if reading { 1int } else { 0int }),
            {
                match doc.resolve(&array.items[i]) {
                    Some(Object::Number(number)) => {
                        if number.truncated >= 0 && number.truncated <= 0xFFFF {
                            key.push(number.truncated as u16);
                            i = i + 1;
                        } else {
                            reading = false;
                        }
                    },
                    _ => {
                        reading = false;
                    },
                }
            }
            assert(key@ =~= color_key_of(*doc, *dict)->0);
            Some(key)
        },
        _ => None,
    }
}

/// A component lies beyond what is masked out.
pub open spec fn is_beyond(sample: u16, key: Seq<u16>, component: int) -> bool {
    sample < key[2 * component] || sample > key[2 * component + 1]
}

/// The opacity of a pixel: it is masked out if all its components lie within the key.
pub open spec fn keyed(pixel: Seq<u16>, key: Seq<u16>) -> u8 {
    if exists|c: int| 0 <= c < pixel.len() && c < key.len() / 2 && #[trigger] is_beyond(
        pixel[c],
        key,
        c,
    ) {
        255
    } else {
        0
    }
}

/// The opacities of all whole pixels.
pub open spec fn keyed_pixels(samples: Seq<u16>, components: int, key: Seq<u16>) -> Seq<u8> {
    Seq::new(
        (samples.len() as int / components) as nat,
        |i: int| keyed(samples.subrange(i * components, (i + 1) * components), key),
    )
}

fn key_pixel(samples: &Vec<u16>, start: usize, components: usize, key: &Vec<u16>) -> (alpha: u8)
    requires
        start + components <= samples@.len(),
    ensures
        alpha == keyed(samples@.subrange(start as int, start + components), key@),
{
    let ghost pixel = samples@.subrange(start as int, start + components);
    let total: usize = samples.len();
    let key_length: usize = key.len();
    let pairs: usize = key_length / 2;
    let mut c: usize = 0;
    while c < components && c < pairs
        invariant
            c <= components,
            c <= pairs,
            key_length == key@.len(),
            total == samples@.len(),
            pairs == key_length / 2,
            start + components <= samples@.len(),
            pixel == samples@.subrange(start as int, start + components),
            forall|k: int| 0 <= k < c ==> !#[trigger] is_beyond(pixel[k], key@, k),
        decreases components - c,
    {
        let sample: u16 = samples[start + c];
        assert(pixel[c as int] == sample);
        if sample < key[2 * c] || sample > key[2 * c + 1] {
            assert(is_beyond(pixel[c as int], key@, c as int));
            return 255;
        }
        c = c + 1;
    }
    0
}

/// The opacities that a color key gives.
pub fn key_alpha(samples: &Vec<u16>, components: usize, key: &Vec<u16>) -> (alpha: Vec<u8>)
    requires
        components > 0,
    ensures
        alpha@ == keyed_pixels(samples@, components as int, key@),
{
    let count: usize = samples.len() / components;
    let mut alpha: Vec<u8> = Vec::new();
    let mut i: usize = 0;
    while i < count
        invariant
            i <= count,
            components > 0,
            count == samples@.len() / components as nat,
            alpha@.len() == i,
            forall|k: int|
                0 <= k < i ==> #[trigger] alpha@[k] == keyed_pixels(
                    samples@,
                    components as int,
                    key@,
                )[k],
        decreases count - i,
    {
        let ghost n = components as int;
        assert((i + 1) * n <= samples@.len() && 0 <= i * n && (i + 1) * n == i * n + n) by {
            vstd::arithmetic::div_mod::lemma_fundamental_div_mod(samples@.len() as int, n);
            assert((i + 1) * n <= count * n) by (nonlinear_arith)
                requires
                    i + 1 <= count,
                    n > 0,
            ;
            assert((i + 1) * n == i * n + n) by (nonlinear_arith);
            assert(0 <= i * n) by (nonlinear_arith)
                requires
                    0 <= i,
                    n > 0,
            ;
            assert(n * (samples@.len() as int / n) == count * n) by (nonlinear_arith)
                requires
                    count == samples@.len() as int / n,
            ;
        }
        let length: usize = samples.len();
        assert(i * n <= length);
        let start: usize = i * components;
        alpha.push(key_pixel(samples, start, components, key));
        i = i + 1;
    }
    assert(alpha@ =~= keyed_pixels(samples@, components as int, key@));
    alpha
}

/// Where the opacity of an image comes from.
#[derive(Debug)]
pub enum AlphaSource<'a> {
    /// The opacity channel in JPEG 2000.
    Embedded,
    /// A soft mask or a mask.
    Mask(&'a Stream),
    /// A color key.
    ColorKey(Vec<u16>),
    /// The image is opaque.
    Opaque,
}

/// The mask of an image. A soft mask goes before a mask.
pub open spec fn mask_stream(doc: Document, dict: Dict) -> Option<Stream> {
    match doc.value(dict, "SMask"@) {
        Some(Object::Stream(stream)) => Some(stream),
        _ => match doc.value(dict, "Mask"@) {
            Some(Object::Stream(stream)) => Some(stream),
            _ => None,
        },
    }
}

/// The mask of an image. A soft mask goes before a mask.
pub fn find_mask<'a>(doc: &'a Document, dict: &'a Dict) -> (mask: Option<&'a Stream>)
    ensures
        match mask_stream(*doc, *dict) {
            Some(expected) => mask matches Some(mask) && *mask == expected,
            None => mask is None,
        },
{
    match doc.lookup(dict, "SMask") {
        Some(Object::Stream(stream)) => Some(stream),
        _ => match doc.lookup(dict, "Mask") {
            Some(Object::Stream(stream)) => Some(stream),
            _ => None,
        },
    }
}

/// Where the opacity of an image comes from.
pub fn alpha_source<'a>(doc: &'a Document, dict: &'a Dict) -> (source: AlphaSource<'a>)
    ensures
        if alpha_mode(*doc, *dict) is Some {
            source matches AlphaSource::Embedded
        } else {
            match mask_stream(*doc, *dict) {
                Some(expected) => source matches AlphaSource::Mask(mask) && *mask == expected,
                None => match color_key_of(*doc, *dict) {
                    Some(expected) => source matches AlphaSource::ColorKey(key) && key@
                        == expected,
                    None => source matches AlphaSource::Opaque,
                },
            }
        },
{
    if embedded_alpha_mode(doc, dict).is_some() {
        return AlphaSource::Embedded;
    }
    match find_mask(doc, dict) {
        Some(mask) => AlphaSource::Mask(mask),
        None => match color_key(doc, dict) {
            Some(key) => AlphaSource::ColorKey(key),
            None => AlphaSource::Opaque,
        },
    }
}

/// A host undoes the preblending of components in a given way: from a component, its matte and
/// the opacity.
pub open spec fn undoes<F: Fn(u8, u8, u8) -> u8>(undo: F, undone: spec_fn(u8, u8, u8) -> u8) -> bool {
    forall|component: u8, matte: u8, alpha: u8, result: u8| #[trigger]
        call_ensures(undo, (component, matte, alpha), result) ==> result == undone(
            component,
            matte,
            alpha,
        )
}

/// A host undoes the preblending of all components.
pub open spec fn undoes_all<F: Fn(u8, u8, u8) -> u8>(undo: F) -> bool {
    forall|component: u8, matte: u8, alpha: u8| call_requires(undo, (component, matte, alpha))
}

/// A component after the preblending was undone.
///
/// At zero opacity the color is not recoverable and has no contribution.
pub open spec fn unpremultiplied(
    component: u8,
    matte: u8,
    alpha: u8,
    undone: spec_fn(u8, u8, u8) -> u8,
) -> u8 {
    if alpha == 0 {
        component
    } else {
        undone(component, matte, alpha)
    }
}

/// Components, opacities and a matte belong together.
pub open spec fn planes_match(components: Seq<u8>, alpha: Seq<u8>, matte: Seq<u8>) -> bool {
    matte.len() > 0 && components.len() == alpha.len() * matte.len()
}

/// Undo the preblending of components with a matte.
pub fn unpremultiply_components<F: Fn(u8, u8, u8) -> u8>(
    components: &mut Vec<u8>,
    alpha: &Vec<u8>,
    matte: &Vec<u8>,
    undo: &F,
) -> (result: Option<()>)
    requires
        undoes_all(*undo),
    ensures
        result is Some == planes_match(old(components)@, alpha@, matte@),
        result is None ==> final(components)@ == old(components)@,
        final(components)@.len() == old(components)@.len(),
        forall|undone: spec_fn(u8, u8, u8) -> u8| #[trigger]
            undoes(*undo, undone) && result is Some ==> forall|i: int|
                0 <= i < old(components)@.len() ==> #[trigger] final(components)@[i]
                    == unpremultiplied(
                    old(components)@[i],
                    matte@[i % (matte@.len() as int)],
                    alpha@[i / (matte@.len() as int)],
                    undone,
                ),
{
    if matte.len() == 0 || components.len() % matte.len() != 0 {
        assert(!planes_match(components@, alpha@, matte@)) by {
            if matte@.len() > 0 && components@.len() == alpha@.len() * matte@.len() {
                vstd::arithmetic::div_mod::lemma_mod_multiples_basic(
                    alpha@.len() as int,
                    matte@.len() as int,
                );
            }
        }
        return None;
    }
    let ghost n = matte@.len() as int;
    let ghost total = components@.len() as int;
    proof {
        vstd::arithmetic::div_mod::lemma_fundamental_div_mod(total, n);
        assert(n * (total / n) == (total / n) * n) by (nonlinear_arith);
    }
    if components.len() / matte.len() != alpha.len() {
        assert(!planes_match(components@, alpha@, matte@)) by {
            if components@.len() == alpha@.len() * matte@.len() {
                vstd::arithmetic::div_mod::lemma_div_by_multiple(alpha@.len() as int, n);
            }
        }
        return None;
    }
    let count: usize = components.len();
    let mut i: usize = 0;
    let mut pixel: usize = 0;
    let mut channel: usize = 0;
    while i < count
        invariant
            n == matte@.len(),
            n > 0,
            i <= count == components@.len() == old(components)@.len(),
            count == alpha@.len() * n,
            channel < n,
            i == pixel * n + channel,
            undoes_all(*undo),
            forall|k: int|
                i <= k < count ==> #[trigger] components@[k] == old(components)@[k],
            forall|undone: spec_fn(u8, u8, u8) -> u8| #[trigger]
                undoes(*undo, undone) ==> forall|k: int|
                    0 <= k < i ==> #[trigger] components@[k] == unpremultiplied(
                        old(components)@[k],
                        matte@[k % n],
                        alpha@[k / n],
                        undone,
                    ),
        decreases count - i,
    {
        proof {
            assert(pixel < alpha@.len()) by (nonlinear_arith)
                requires
                    pixel * n + channel < alpha@.len() * n,
                    0 <= channel,
                    n > 0,
            ;
            vstd::arithmetic::div_mod::lemma_fundamental_div_mod_converse(
                i as int,
                n,
                pixel as int,
                channel as int,
            );
            assert((pixel + 1) * n == pixel * n + n) by (nonlinear_arith);
        }
        let opacity: u8 = alpha[pixel];
        let ghost before = components@;
        if opacity != 0 {
            let value: u8 = undo(components[i], matte[channel], opacity);
            components.set(i, value);
        }
        channel = channel + 1;
        if channel == matte.len() {
            channel = 0;
            pixel = pixel + 1;
        }
        i = i + 1;
    }
    Some(())
}

} // verus!
