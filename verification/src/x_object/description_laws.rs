//! What holds of the forms, soft masks and patterns that dictionaries describe.

use crate::function::definition::Judgements;
use crate::function::eval::Results;
use crate::function::single::{lemma_rank, scaled};
use crate::function::transfer::{QuantizationResults, TransferFunction};
use crate::image::dictionary::byte_of;
use crate::object::{Dict, Document, MaybeRef, Object, Stream};
use crate::types::ColorSpaceKind;
use crate::x_object::form::{
    declared_group, describes_form, device_space, doubles_of, form_actions, form_group,
    invoked_group, invoked_space, matrix_of, number_at, singles_of, FormAction, FormGroupProperties,
    FormXObject, Matrix,
};
use crate::x_object::pattern::{
    cell_content, describes_shading, rectangle_of, tiling_pattern, transfer_effect, Degeneracy,
    ShadingPattern,
};
use crate::x_object::resources::{
    inherited_space, is_default_overridden, named_space, own_spaces, space_kind,
};
use crate::x_object::soft_mask::{describes_mask, is_mask_transfer, is_soft_mask, SoftMask};
use vstd::prelude::*;

verus! {

/// What an object is named, if it is a name.
pub open spec fn name_in(object: Option<Object>) -> Option<Seq<u8>> {
    match object {
        Some(Object::Name(name)) => Some(name@),
        _ => None,
    }
}

/// The name with the given text.
pub open spec fn name_of(text: Seq<char>) -> Option<Seq<u8>> {
    Some(vstd::utf8::encode_utf8(text))
}

/// The items that a key leads to, if it leads to an array.
pub open spec fn items_in(object: Option<Object>) -> Option<Seq<MaybeRef>> {
    match object {
        Some(Object::Array(array)) => Some(array.items@),
        _ => None,
    }
}

/// A luminosity mask is one whose subtype says so, and so is an alpha mask. Its source is the
/// stream that `/G` refers to. The background counts for luminosity only.
pub proof fn lemma_mask_described(
    mask: SoftMask,
    doc: Document,
    dict: Dict,
    parent: Seq<&Dict>,
    resolved: spec_fn(Object) -> Option<ColorSpaceKind>,
)
    requires
        describes_mask(mask, doc, dict, parent, resolved),
    ensures
        mask.mask_type is Luminosity ==> name_in(doc.value(dict, "S"@)) == name_of("Luminosity"@)
            && mask.has_background,
        mask.mask_type is Alpha ==> name_in(doc.value(dict, "S"@)) == name_of("Alpha"@)
            && !mask.has_background,
        dict.raw("G"@) == Some(MaybeRef::Ref(mask.id)),
        doc.object(mask.id) matches Some(Object::Stream(source)) && describes_form(
            mask.group,
            doc,
            source.dict,
        ),
{
}

/// The blending color space of a mask is that of its group, by itself or through the resources of
/// the source before those around it. It may be missing in an alpha mask only.
pub proof fn lemma_mask_space(
    mask: SoftMask,
    doc: Document,
    dict: Dict,
    source: Stream,
    group: Dict,
    parent: Seq<&Dict>,
    resolved: spec_fn(Object) -> Option<ColorSpaceKind>,
)
    requires
        describes_mask(mask, doc, dict, parent, resolved),
        doc.object(mask.id) == Some(Object::Stream(source)),
        doc.value(source.dict, "Group"@) == Some(Object::Dict(group)),
    ensures
        doc.value(group, "CS"@) matches Some(space) ==> !(space is Null) ==> match resolved(space) {
            Some(kind) => mask.group_color_space_kind == kind,
            None => space matches Object::Name(name) && (inherited_space(
                doc,
                own_spaces(&doc, &source.dict) + parent,
                name@,
            ) matches Some(resource) && resolved(resource) == Some(mask.group_color_space_kind)),
        },
        mask.mask_type is Luminosity ==> doc.value(group, "CS"@) is Some,
        mask.group_color_space_default_overridden ==> mask.group_color_space_kind is DeviceGray
            || mask.group_color_space_kind is DeviceRgb || mask.group_color_space_kind is DeviceCmyk,
{
}

/// A mask with a source, a subtype and a color space of its group is read.
pub proof fn lemma_mask_owed(
    doc: Document,
    dict: Dict,
    source: Stream,
    group: Dict,
    parent: Seq<&Dict>,
    resolved: spec_fn(Object) -> Option<ColorSpaceKind>,
)
    requires
        dict.raw("G"@) matches Some(MaybeRef::Ref(id)) && doc.object(id) == Some(
            Object::Stream(source),
        ),
        source.data is Some,
        items_in(doc.value(source.dict, "BBox"@)) matches Some(items) && items.len() == 4 && (
        forall|i: int|
            0 <= i < 4 ==> #[trigger] doc.resolved(items[i]) matches Some(Object::Number(_))),
        doc.value(source.dict, "Group"@) == Some(Object::Dict(group)),
        ({
            ||| name_in(doc.value(dict, "S"@)) == name_of("Alpha"@) && doc.value(
                group,
                "CS"@,
            ) is None
            ||| (name_in(doc.value(dict, "S"@)) == name_of("Alpha"@) || name_in(
                doc.value(dict, "S"@),
            ) == name_of("Luminosity"@)) && (doc.value(group, "CS"@) matches Some(space)
                && resolved(space) is Some)
        }),
    ensures
        is_soft_mask(doc, dict, parent, resolved),
{
    lemma_numbers(doc, source.dict, "BBox"@, 4);
    reveal_strlit("Luminosity");
    reveal_strlit("Alpha");
    vstd::utf8::encode_utf8_decode_utf8("Luminosity"@);
    vstd::utf8::encode_utf8_decode_utf8("Alpha"@);
    assert("Luminosity"@.len() != "Alpha"@.len());
}

/// A mask without a transfer function, or with that of the identity, has none; any other one
/// brings its outputs to the unit interval.
pub proof fn lemma_mask_transfer(
    transfer: Option<Option<TransferFunction>>,
    doc: Document,
    dict: Dict,
    host: Judgements,
    results: Results,
    quantized: QuantizationResults,
)
    requires
        is_mask_transfer(transfer, doc, dict, host, results, quantized),
    ensures
        (doc.value(dict, "TR"@) is None || doc.value(dict, "TR"@) == Some(Object::Null) || name_in(
            doc.value(dict, "TR"@),
        ) == name_of("Identity"@)) ==> transfer == Some(None::<TransferFunction>),
        doc.value(dict, "TR"@) matches Some(object) && !(object is Null) && name_in(Some(object))
            != name_of("Identity"@) ==> (transfer matches Some(read) ==> read matches Some(read)
            && read.clamp_output && read.function is Some && read.samples@.len() == 256),
{
}

/// What a name leads to in a dictionary.
pub open spec fn found(doc: Document, dict: Dict, name: Seq<u8>) -> Option<Object> {
    match dict.raw_named(name) {
        Some(MaybeRef::Ref(id)) => doc.object(id),
        Some(MaybeRef::NotRef(object)) => Some(object),
        None => None,
    }
}

/// A name of a color space leads to what the innermost resources say that lead to anything.
pub proof fn lemma_innermost_space(doc: Document, dicts: Seq<&Dict>, name: Seq<u8>)
    ensures
        match inherited_space(doc, dicts, name) {
            Some(object) => exists|i: int|
                0 <= i < dicts.len() && found(doc, *(#[trigger] dicts[i]), name) == Some(object)
                    && (forall|j: int|
                    0 <= j < i ==> found(doc, *(#[trigger] dicts[j]), name) is None),
            None => forall|i: int|
                0 <= i < dicts.len() ==> found(doc, *(#[trigger] dicts[i]), name) is None,
        },
    decreases dicts.len(),
{
    if dicts.len() > 0 {
        let rest = dicts.skip(1);
        lemma_innermost_space(doc, rest, name);
        assert forall|i: int| 1 <= i < dicts.len() implies #[trigger] dicts[i] == rest[i - 1] by {}
        if named_space(doc, *dicts[0], name) is None {
            if inherited_space(doc, rest, name) is Some {
                let object = inherited_space(doc, rest, name)->0;
                let k = choose|i: int|
                    0 <= i < rest.len() && found(doc, *(#[trigger] rest[i]), name) == Some(object)
                        && (forall|j: int|
                        0 <= j < i ==> found(doc, *(#[trigger] rest[j]), name) is None);
                assert(dicts[k + 1] == rest[k]);
                assert forall|j: int| 0 <= j < k + 1 implies found(
                    doc,
                    *(#[trigger] dicts[j]),
                    name,
                ) is None by {
                    if j > 0 {
                        assert(dicts[j] == rest[j - 1]);
                    }
                }
            }
        } else {
            assert(found(doc, *dicts[0], name) is Some);
        }
    }
}

/// A color space is what it is by itself; only a name that is nothing by itself is looked up.
pub proof fn lemma_space_kind(
    doc: Document,
    dicts: Seq<&Dict>,
    object: Object,
    resolved: spec_fn(Object) -> Option<ColorSpaceKind>,
)
    ensures
        resolved(object) is Some ==> space_kind(doc, dicts, object, resolved) == resolved(object),
        resolved(object) is None && !(object is Name) ==> space_kind(
            doc,
            dicts,
            object,
            resolved,
        ) is None,
        resolved(object) is None ==> (object matches Object::Name(name) ==> match inherited_space(
            doc,
            dicts,
            name@,
        ) {
            Some(resource) => space_kind(doc, dicts, object, resolved) == resolved(resource),
            None => space_kind(doc, dicts, object, resolved) is None,
        }),
{
}

/// Default resources replace the device color space of their name, and no other.
pub proof fn lemma_defaults(dicts: Seq<&Dict>, kind: Option<ColorSpaceKind>)
    ensures
        is_default_overridden(dicts, kind) <==> exists|i: int|
            0 <= i < dicts.len() && match kind {
                Some(ColorSpaceKind::DeviceGray) => (#[trigger] dicts[i]).has("DefaultGray"@),
                Some(ColorSpaceKind::DeviceRgb) => dicts[i].has("DefaultRGB"@),
                Some(ColorSpaceKind::DeviceCmyk) => dicts[i].has("DefaultCMYK"@),
                _ => false,
            },
{
    if is_default_overridden(dicts, kind) {
        let key = match kind {
            Some(ColorSpaceKind::DeviceGray) => "DefaultGray"@,
            Some(ColorSpaceKind::DeviceRgb) => "DefaultRGB"@,
            _ => "DefaultCMYK"@,
        };
        let i = choose|i: int| 0 <= i < dicts.len() && (#[trigger] dicts[i]).has(key);
        assert(dicts[i].has(key));
    }
}

/// The color spaces of a stream's own resources.
pub proof fn lemma_own_spaces(doc: &Document, dict: &Dict, resources: Dict, spaces: Dict)
    requires
        doc.value(*dict, "Resources"@) == Some(Object::Dict(resources)),
        doc.value(resources, "ColorSpace"@) == Some(Object::Dict(spaces)),
    ensures
        own_spaces(doc, dict).len() == 1,
        *own_spaces(doc, dict)[0] == spaces,
{
}

/// Device color spaces have a full and an abbreviated name each.
pub proof fn lemma_device_names(name: Seq<u8>)
    ensures
        device_space(name) is Some ==> device_space(name) == Some(ColorSpaceKind::DeviceGray)
            || device_space(name) == Some(ColorSpaceKind::DeviceRgb) || device_space(name) == Some(
            ColorSpaceKind::DeviceCmyk,
        ),
        device_space(vstd::utf8::encode_utf8("DeviceGray"@)) == Some(ColorSpaceKind::DeviceGray),
        device_space(vstd::utf8::encode_utf8("G"@)) == Some(ColorSpaceKind::DeviceGray),
        device_space(vstd::utf8::encode_utf8("DeviceRGB"@)) == Some(ColorSpaceKind::DeviceRgb),
        device_space(vstd::utf8::encode_utf8("RGB"@)) == Some(ColorSpaceKind::DeviceRgb),
        device_space(vstd::utf8::encode_utf8("DeviceCMYK"@)) == Some(ColorSpaceKind::DeviceCmyk),
        device_space(vstd::utf8::encode_utf8("CMYK"@)) == Some(ColorSpaceKind::DeviceCmyk),
        device_space(name) is Some ==> name == vstd::utf8::encode_utf8("DeviceGray"@) || name
            == vstd::utf8::encode_utf8("G"@) || name == vstd::utf8::encode_utf8("DeviceRGB"@)
            || name == vstd::utf8::encode_utf8("RGB"@) || name == vstd::utf8::encode_utf8(
            "DeviceCMYK"@,
        ) || name == vstd::utf8::encode_utf8("CMYK"@),
{
    reveal_strlit("DeviceGray");
    reveal_strlit("G");
    reveal_strlit("DeviceRGB");
    reveal_strlit("RGB");
    reveal_strlit("DeviceCMYK");
    reveal_strlit("CMYK");
    vstd::utf8::encode_utf8_decode_utf8("DeviceGray"@);
    vstd::utf8::encode_utf8_decode_utf8("G"@);
    vstd::utf8::encode_utf8_decode_utf8("DeviceRGB"@);
    vstd::utf8::encode_utf8_decode_utf8("RGB"@);
    vstd::utf8::encode_utf8_decode_utf8("DeviceCMYK"@);
    vstd::utf8::encode_utf8_decode_utf8("CMYK"@);
    assert("DeviceRGB"@[6] == 'R');
    assert("DeviceGray"@[6] == 'G');
    assert("DeviceCMYK"@[6] == 'C');
}

/// What a group declares stands under its own keys; what is no `true` is false.
pub proof fn lemma_group_declared(doc: Document, dict: Dict, group: Dict)
    ensures
        doc.value(dict, "Group"@) == Some(Object::Dict(group)) ==> form_group(doc, dict) == Some(
            declared_group(doc, group),
        ),
        !(doc.value(dict, "Group"@) matches Some(Object::Dict(_))) ==> form_group(doc, dict) is None,
        declared_group(doc, group).is_transparency <==> name_in(doc.value(group, "S"@)) == name_of(
            "Transparency"@,
        ),
        declared_group(doc, group).isolated <==> doc.value(group, "I"@) == Some(
            Object::Boolean(true),
        ),
        declared_group(doc, group).knockout <==> doc.value(group, "K"@) == Some(
            Object::Boolean(true),
        ),
        declared_group(doc, group).has_color_space <==> group.raw("CS"@) is Some,
        declared_group(doc, group).declared_color_space_kind == match name_in(
            doc.value(group, "CS"@),
        ) {
            Some(name) => device_space(name),
            None => None,
        },
        declared_group(doc, group).color_space_kind == declared_group(
            doc,
            group,
        ).declared_color_space_kind,
        !declared_group(doc, group).color_space_default_overridden,
{
}

/// The group of an invocation is remapped if and only if a default resource replaces the device
/// color space that it declares.
pub proof fn lemma_group_invoked(
    declared: FormGroupProperties,
    resolved: Option<ColorSpaceKind>,
    dicts: Seq<&Dict>,
)
    requires
        !declared.color_space_default_overridden,
    ensures
        invoked_group(None, resolved, dicts) is None,
        invoked_group(Some(declared), resolved, dicts) matches Some(invoked) && {
            &&& invoked.color_space_default_overridden <==> is_default_overridden(
                dicts,
                declared.declared_color_space_kind,
            )
            &&& invoked.color_space_kind == if invoked.color_space_default_overridden {
                None
            } else {
                resolved
            }
            &&& invoked.has_color_space == declared.has_color_space
            &&& invoked.isolated == declared.isolated
            &&& invoked.knockout == declared.knockout
            &&& invoked.is_transparency == declared.is_transparency
        },
{
}

/// The color space of an invoked group is the one that its group names.
pub proof fn lemma_space_invoked(
    doc: Document,
    dict: Dict,
    group: Dict,
    dicts: Seq<&Dict>,
    resolved: spec_fn(Object) -> Option<ColorSpaceKind>,
)
    requires
        doc.value(dict, "Group"@) == Some(Object::Dict(group)),
    ensures
        invoked_space(doc, dict, dicts, resolved) == match doc.value(group, "CS"@) {
            Some(object) => match resolved(object) {
                Some(kind) => Some(kind),
                None => space_kind(doc, dicts, object, resolved),
            },
            None => None,
        },
{
}

/// Numbers are read from an array of exactly so many; they are its numbers in order. What follows
/// the last of them, if anything, is no number.
pub proof fn lemma_numbers(doc: Document, dict: Dict, key: Seq<char>, count: int)
    requires
        0 <= count,
    ensures
        singles_of(doc, dict, key, count) is Some <==> doubles_of(doc, dict, key, count) is Some,
        singles_of(doc, dict, key, count) matches Some(values) ==> {
            &&& values.len() == count
            &&& items_in(doc.value(dict, key)) matches Some(items)
            &&& items.len() >= count
            &&& forall|i: int|
                0 <= i < count ==> (doc.resolved(items[i]) matches Some(Object::Number(number))
                    && #[trigger] values[i] == number.narrowed)
        },
        doubles_of(doc, dict, key, count) matches Some(values) ==> {
            &&& values.len() == count
            &&& items_in(doc.value(dict, key)) matches Some(items)
            &&& items.len() >= count
            &&& forall|i: int|
                0 <= i < count ==> (doc.resolved(items[i]) matches Some(Object::Number(number))
                    && #[trigger] values[i] == number.double)
        },
        items_in(doc.value(dict, key)) matches Some(items) ==> {
            &&& items.len() == count && (forall|i: int|
                0 <= i < count ==> (#[trigger] doc.resolved(items[i]) matches Some(
                    Object::Number(_),
                ))) ==> singles_of(doc, dict, key, count) is Some
            &&& items.len() > count && (doc.resolved(items[count]) matches Some(Object::Number(_)))
                ==> singles_of(doc, dict, key, count) is None
            &&& items.len() < count ==> singles_of(doc, dict, key, count) is None
        },
        items_in(doc.value(dict, key)) is None ==> singles_of(doc, dict, key, count) is None,
{
    if items_in(doc.value(dict, key)) is Some {
        let items = items_in(doc.value(dict, key))->0;
        if singles_of(doc, dict, key, count) is Some {
            assert forall|i: int| 0 <= i < count implies (#[trigger] doc.resolved(
                items[i],
            ) matches Some(Object::Number(_))) && i < items.len() by {
                assert(number_at(doc, items, i) is Some);
            }
            if count > 0 {
                assert(count - 1 < items.len());
            }
        }
        if items.len() == count && (forall|i: int|
            0 <= i < count ==> (#[trigger] doc.resolved(items[i]) matches Some(
                Object::Number(_),
            ))) {
            assert forall|i: int| 0 <= i < count implies #[trigger] number_at(
                doc,
                items,
                i,
            ) is Some by {
                assert(doc.resolved(items[i]) matches Some(Object::Number(_)));
            }
        }
        if items.len() < count {
            assert(number_at(doc, items, items.len() as int) is None);
        }
        if items.len() > count && doc.resolved(items[count]) matches Some(Object::Number(_)) {
            assert(number_at(doc, items, count) is Some);
        }
    }
}

/// The six numbers of a matrix are its coefficients in order.
pub proof fn lemma_matrix(doc: Document, dict: Dict)
    ensures
        matrix_of(doc, dict) matches Some(m) ==> doubles_of(doc, dict, "Matrix"@, 6) == Some(
            seq![m.a, m.b, m.c, m.d, m.e, m.f],
        ),
        matrix_of(doc, dict) is None <==> doubles_of(doc, dict, "Matrix"@, 6) is None,
{
    if doubles_of(doc, dict, "Matrix"@, 6) is Some {
        let values = doubles_of(doc, dict, "Matrix"@, 6)->0;
        assert(values =~= seq![values[0], values[1], values[2], values[3], values[4], values[5]]);
    }
}

/// The parts of a form stand under its own keys.
pub proof fn lemma_form_described(form: FormXObject, doc: Document, dict: Dict)
    requires
        describes_form(form, doc, dict),
    ensures
        form.bbox@.len() == 4,
        singles_of(doc, dict, "BBox"@, 4) == Some(form.bbox@),
        form.matrix is Some <==> doubles_of(doc, dict, "Matrix"@, 6) is Some,
        form.group_properties is Some <==> (doc.value(dict, "Group"@) matches Some(
            Object::Dict(_),
        )),
{
}

/// The content of a form is interpreted once, within its clip. A group goes around the clip, and
/// its alpha counts for the group as a whole.
pub proof fn lemma_form_bracketed()
    ensures
        form_actions(true) == seq![FormAction::PushGroup, FormAction::ResetAlpha] + form_actions(
            false,
        ) + seq![FormAction::PopGroup],
        form_actions(false) == seq![FormAction::PushClip, FormAction::Interpret] + seq![
            FormAction::PopClip,
        ],
{
    assert(form_actions(false) =~= seq![FormAction::PushClip, FormAction::Interpret] + seq![
        FormAction::PopClip,
    ]);
    assert(form_actions(true) =~= seq![FormAction::PushGroup, FormAction::ResetAlpha]
        + form_actions(false) + seq![FormAction::PopGroup]);
}

/// A rectangle spans its two corners, in whatever order they are given.
pub proof fn lemma_rectangle_spans(
    doc: Document,
    dict: Dict,
    key: Seq<char>,
    items: Seq<MaybeRef>,
)
    requires
        items_in(doc.value(dict, key)) == Some(items),
        items.len() >= 4,
        forall|i: int|
            0 <= i < 4 ==> (#[trigger] doc.resolved(items[i]) matches Some(Object::Number(_))),
    ensures
        ({
            let a = doc.resolved(items[0])->0->Number_0.narrowed;
            let b = doc.resolved(items[1])->0->Number_0.narrowed;
            let c = doc.resolved(items[2])->0->Number_0.narrowed;
            let d = doc.resolved(items[3])->0->Number_0.narrowed;
            &&& rectangle_of(doc, dict, key) matches Some(r)
            &&& r.x0 == a || r.x0 == c
            &&& r.x1 == a || r.x1 == c
            &&& r.y0 == b || r.y0 == d
            &&& r.y1 == b || r.y1 == d
            &&& scaled(r.x0) <= scaled(a) <= scaled(r.x1)
            &&& scaled(r.x0) <= scaled(c) <= scaled(r.x1)
            &&& scaled(r.y0) <= scaled(b) <= scaled(r.y1)
            &&& scaled(r.y0) <= scaled(d) <= scaled(r.y1)
        }),
{
    assert(doc.resolved(items[0]) is Some);
    assert(doc.resolved(items[1]) is Some);
    assert(doc.resolved(items[2]) is Some);
    assert(doc.resolved(items[3]) is Some);
    let a = doc.resolved(items[0])->0->Number_0.narrowed;
    let b = doc.resolved(items[1])->0->Number_0.narrowed;
    let c = doc.resolved(items[2])->0->Number_0.narrowed;
    let d = doc.resolved(items[3])->0->Number_0.narrowed;
    assert(number_at(doc, items, 0) matches Some((x, _)) && x == a);
    assert(number_at(doc, items, 1) matches Some((x, _)) && x == b);
    assert(number_at(doc, items, 2) matches Some((x, _)) && x == c);
    assert(number_at(doc, items, 3) matches Some((x, _)) && x == d);
    lemma_rank(a, c);
    lemma_rank(c, a);
    lemma_rank(b, d);
    lemma_rank(d, b);
}

/// A tiling pattern has its entries under their own keys. Its cell has an area and its steps are
/// not zero; it is colored if and only if its paint type is 1.
pub proof fn lemma_tiling_described(doc: Document, dict: Dict, judged: Degeneracy)
    ensures
        tiling_pattern(doc, dict, judged) matches Some(pattern) ==> {
            &&& rectangle_of(doc, dict, "BBox"@) == Some(pattern.bbox)
            &&& doc.value(dict, "XStep"@) matches Some(Object::Number(x)) && x.narrowed
                == pattern.x_step
            &&& doc.value(dict, "YStep"@) matches Some(Object::Number(y)) && y.narrowed
                == pattern.y_step
            &&& !(judged.step)(pattern.x_step)
            &&& !(judged.step)(pattern.y_step)
            &&& !(judged.area)(pattern.bbox)
            &&& byte_of(doc, dict, "PaintType"@) == Some(
                if pattern.is_color {
                    1u8
                } else {
                    2u8
                },
            )
            &&& byte_of(doc, dict, "TilingType"@) == Some(pattern.tiling_type)
            &&& pattern.tiling_type == 1 || pattern.tiling_type == 2 || pattern.tiling_type == 3
            &&& pattern.matrix == matrix_of(doc, dict)
        },
        forall|bbox: crate::x_object::pattern::Rectangle|
            ({
                &&& #[trigger] (judged.area)(bbox) == false
                &&& rectangle_of(doc, dict, "BBox"@) == Some(bbox)
                &&& doc.value(dict, "XStep"@) matches Some(Object::Number(x)) && !(judged.step)(
                    x.narrowed,
                )
                &&& doc.value(dict, "YStep"@) matches Some(Object::Number(y)) && !(judged.step)(
                    y.narrowed,
                )
                &&& byte_of(doc, dict, "PaintType"@) == Some(1u8) || byte_of(
                    doc,
                    dict,
                    "PaintType"@,
                ) == Some(2u8)
                &&& byte_of(doc, dict, "TilingType"@) == Some(1u8) || byte_of(
                    doc,
                    dict,
                    "TilingType"@,
                ) == Some(2u8) || byte_of(doc, dict, "TilingType"@) == Some(3u8)
            }) ==> tiling_pattern(doc, dict, judged) is Some,
{
}

/// The content of a colored cell has its own colors, whatever it is painted with; that of an
/// uncolored one has the color of the selection.
pub proof fn lemma_cell_colors(is_stroke: bool)
    ensures
        cell_content(true, is_stroke) is Interpret,
        cell_content(false, is_stroke) is InterpretWithStroke <==> is_stroke,
        cell_content(false, is_stroke) is InterpretWithFill <==> !is_stroke,
{
}

/// A transfer function never changes a colored pattern. For an uncolored one it is deferred, or
/// applied to the paints at once.
pub proof fn lemma_pattern_transfer(defers: bool, has_transfer: bool)
    ensures
        transfer_effect(true, defers, has_transfer) is ForgetDeferred <==> defers,
        transfer_effect(true, defers, has_transfer) is Nothing <==> !defers,
        transfer_effect(false, defers, has_transfer) is Defer <==> defers,
        transfer_effect(false, defers, has_transfer) is ApplyToPaints <==> !defers && has_transfer,
        transfer_effect(false, defers, has_transfer) is Nothing <==> !defers && !has_transfer,
{
}

/// A shading pattern has the shading of its dictionary, a dictionary or a stream, with its
/// background. The transfer function of its own graphics state is the newer entry, if there is
/// one that is not null.
pub proof fn lemma_shading_described<'a>(
    pattern: Option<ShadingPattern<'a>>,
    doc: Document,
    dict: Dict,
)
    requires
        describes_shading(pattern, doc, dict),
    ensures
        pattern is Some <==> (doc.value(dict, "Shading"@) matches Some(object) && (object is Dict
            || object is Stream)),
        pattern matches Some(pattern) ==> {
            &&& doc.value(dict, "Shading"@) == Some(*pattern.shading)
            &&& pattern.background_applies
            &&& pattern.matrix == matrix_of(doc, dict)
            &&& pattern.transfer is Some ==> (doc.value(dict, "ExtGState"@) matches Some(
                Object::Dict(state),
            ) && pattern.transfer matches Some((key, value)) && doc.value(state, key@) == Some(
                *value,
            ) && !(*value is Null) && (key@ == "TR2"@ || key@ == "TR"@ && (doc.value(
                state,
                "TR2"@,
            ) is None || doc.value(state, "TR2"@) == Some(Object::Null))))
            &&& pattern.transfer is None ==> (doc.value(dict, "ExtGState"@) matches Some(
                Object::Dict(state),
            ) ==> (doc.value(state, "TR"@) matches Some(object) ==> object is Null) && (doc.value(
                state,
                "TR2"@,
            ) matches Some(object) ==> object is Null))
        },
{
}

} // verus!
