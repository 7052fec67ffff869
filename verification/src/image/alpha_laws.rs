//! What masks do to the opacity of images.

use crate::image::alpha::{
    color_key_of, keyed, keyed_pixels, leading_words, mask_stream, planes_match, unpremultiplied,
    word_at,
};
use crate::object::{Dict, Document, Object};
use vstd::prelude::*;

verus! {

/// A pixel is masked out if and only if each of its components lies within its own pair of the
/// key. A component outside its pair is enough to paint the pixel.
pub proof fn lemma_pixel_masked_out(pixel: Seq<u16>, key: Seq<u16>)
    requires
        key.len() == 2 * pixel.len(),
    ensures
        keyed(pixel, key) == 0 <==> forall|c: int|
            0 <= c < pixel.len() ==> key[2 * c] <= #[trigger] pixel[c] <= key[2 * c + 1],
        keyed(pixel, key) == 255 <==> exists|c: int|
            0 <= c < pixel.len() && (#[trigger] pixel[c] < key[2 * c] || key[2 * c + 1]
                < pixel[c]),
{
    if keyed(pixel, key) == 0 {
        assert forall|c: int| 0 <= c < pixel.len() implies key[2 * c] <= #[trigger] pixel[c]
            <= key[2 * c + 1] by {
            assert(!crate::image::alpha::is_beyond(pixel[c], key, c));
        }
    }
    if exists|c: int|
        0 <= c < pixel.len() && (#[trigger] pixel[c] < key[2 * c] || key[2 * c + 1] < pixel[c]) {
        let c = choose|c: int|
            0 <= c < pixel.len() && (#[trigger] pixel[c] < key[2 * c] || key[2 * c + 1]
                < pixel[c]);
        assert(crate::image::alpha::is_beyond(pixel[c], key, c));
    }
}

/// Each pixel of an image has one opacity, by its own components: it is zero if and only if they
/// all lie within the key, and else it is full.
pub proof fn lemma_image_keyed(samples: Seq<u16>, components: int, key: Seq<u16>, i: int)
    requires
        components > 0,
        key.len() == 2 * components,
        0 <= i < samples.len() as int / components,
    ensures
        keyed_pixels(samples, components, key).len() == samples.len() as int / components,
        ({
            let pixel = samples.subrange(i * components, (i + 1) * components);
            let alpha = keyed_pixels(samples, components, key)[i];
            &&& alpha == 0 || alpha == 255
            &&& alpha == 0 <==> forall|c: int|
                0 <= c < components ==> key[2 * c] <= #[trigger] pixel[c] <= key[2 * c + 1]
        }),
{
    let pixel = samples.subrange(i * components, (i + 1) * components);
    vstd::arithmetic::div_mod::lemma_fundamental_div_mod(samples.len() as int, components);
    let count = samples.len() as int / components;
    assert(0 <= i * components && (i + 1) * components == i * components + components
        && (i + 1) * components <= components * count) by (nonlinear_arith)
        requires
            components > 0,
            0 <= i,
            i + 1 <= count,
    ;
    assert(pixel.len() == components);
    lemma_pixel_masked_out(pixel, key);
}

/// Widening an interval of a key masks out no fewer pixels.
pub proof fn lemma_wider_key(pixel: Seq<u16>, key: Seq<u16>, wider: Seq<u16>)
    requires
        key.len() == 2 * pixel.len(),
        wider.len() == key.len(),
        forall|c: int|
            0 <= c < pixel.len() ==> wider[2 * c] <= key[2 * c] && key[2 * c + 1] <= wider[2 * c
                + 1] && #[trigger] pixel[c] >= 0,
    ensures
        keyed(pixel, key) == 0 ==> keyed(pixel, wider) == 0,
{
    lemma_pixel_masked_out(pixel, key);
    lemma_pixel_masked_out(pixel, wider);
}

proof fn lemma_leading(doc: Document, items: Seq<crate::object::MaybeRef>, from: int)
    requires
        0 <= from <= items.len(),
    ensures
        from <= leading_words(doc, items, from) <= items.len(),
        forall|i: int|
            from <= i < leading_words(doc, items, from) ==> #[trigger] word_at(doc, items, i)
                is Some,
        leading_words(doc, items, from) < items.len() ==> word_at(
            doc,
            items,
            leading_words(doc, items, from),
        ) is None,
    decreases items.len() - from,
{
    if from < items.len() && word_at(doc, items, from) is Some {
        lemma_leading(doc, items, from + 1);
    }
}

/// A color key holds the numbers of the mask array in order, up to the first item that is none of
/// two bytes.
pub proof fn lemma_color_key_read(doc: Document, dict: Dict)
    ensures
        match doc.value(dict, "Mask"@) {
            Some(Object::Array(array)) => {
                &&& color_key_of(doc, dict) matches Some(key)
                &&& key.len() <= array.items@.len()
                &&& forall|i: int|
                    0 <= i < key.len() ==> (doc.resolved(#[trigger] array.items@[i]) matches Some(
                        Object::Number(number),
                    ) && number.truncated == key[i])
                &&& key.len() < array.items@.len() ==> !(doc.resolved(
                    array.items@[key.len() as int],
                ) matches Some(Object::Number(number)) && 0 <= number.truncated <= 0xFFFF)
            },
            _ => color_key_of(doc, dict) is None,
        },
{
    match doc.value(dict, "Mask"@) {
        Some(Object::Array(array)) => {
            let items = array.items@;
            lemma_leading(doc, items, 0);
            let key = color_key_of(doc, dict)->0;
            assert forall|i: int| 0 <= i < key.len() implies (doc.resolved(#[trigger] items[i])
                matches Some(Object::Number(number)) && number.truncated == key[i]) by {
                assert(word_at(doc, items, i) is Some);
            }
        },
        _ => {},
    }
}

/// The stream of a soft mask is the mask of an image, whatever else masks it. Without one it is
/// the stream of its mask.
pub proof fn lemma_mask_precedence(doc: Document, dict: Dict)
    ensures
        doc.value(dict, "SMask"@) matches Some(Object::Stream(soft)) ==> mask_stream(doc, dict)
            == Some(soft),
        !(doc.value(dict, "SMask"@) matches Some(Object::Stream(_))) ==> {
            match doc.value(dict, "Mask"@) {
                Some(Object::Stream(mask)) => mask_stream(doc, dict) == Some(mask),
                _ => mask_stream(doc, dict) is None,
            }
        },
{
}

/// A component that is not seen is left as it is, and one that is seen is undone.
pub proof fn lemma_unseen_component(
    component: u8,
    matte: u8,
    alpha: u8,
    undone: spec_fn(u8, u8, u8) -> u8,
)
    ensures
        alpha == 0 ==> unpremultiplied(component, matte, alpha, undone) == component,
        alpha > 0 ==> unpremultiplied(component, matte, alpha, undone) == undone(
            component,
            matte,
            alpha,
        ),
{
}

/// Components belong to opacities if there are as many for each opacity as the matte has.
pub proof fn lemma_planes(components: Seq<u8>, alpha: Seq<u8>, matte: Seq<u8>)
    ensures
        planes_match(components, alpha, matte) <==> matte.len() > 0 && components.len() % matte.len()
            == 0 && components.len() / matte.len() == alpha.len(),
{
    if matte.len() > 0 {
        let n = matte.len() as int;
        vstd::arithmetic::div_mod::lemma_fundamental_div_mod(components.len() as int, n);
        if components.len() == alpha.len() * matte.len() {
            vstd::arithmetic::div_mod::lemma_mod_multiples_basic(alpha.len() as int, n);
            vstd::arithmetic::div_mod::lemma_div_by_multiple(alpha.len() as int, n);
        }
        assert(n * (components.len() as int / n) == (components.len() as int / n) * n)
            by (nonlinear_arith);
    }
}

} // verus!
