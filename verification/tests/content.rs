use hayro_core::function::argument::RealCall;
use hayro_core::function::eval::{Affine, Arithmetic};
use hayro_core::function::transfer::Quantization;
use hayro_core::function::type0::{SampledCheck, Type0};
use hayro_core::function::type2::Type2;
use hayro_core::interpret::begin_content::{glyph_steps, GlyphStep, PropertyLimits};
use hayro_core::interpret::instruction::{
    select_font, Action, DeviceSpace, FontChoice, Instruction, Point, Target, TextRenderingMode,
};
use hayro_core::interpret::marked_content::MarkedContentProperties;
use hayro_core::interpret::page::{
    annotations, AnnotationGeometryBudget, AnnotationPass, AnnotationStart, Finding,
    InterpreterSettings, Reaction, Stage,
};
use hayro_core::interpret::property_value::{MarkedContentProperty, MarkedContentPropertyValue};
use hayro_core::interpret::scope::{Facts, Scope};
use hayro_core::interpret::stroke::{dash_operands, DashPattern, StrokeParameter, StrokeProps};
use hayro_core::interpret::warning::{
    AnnotationError, ColorConversionError, InterpreterWarning,
};
use hayro_core::image::dictionary::ImageKind;
use hayro_core::object::{
    Array, Dict, Document, Entry, IndirectObject, MaybeRef, Number, Object, ObjectIdentifier,
    Stream,
};
use hayro_core::ocg::expression::{
    expression_is_visible, OptionalContentExpression, OptionalContentGroup,
};
use hayro_core::ocg::resolve::{
    resolve_optional_content, OptionalContentBudget, OptionalContentError,
};
use hayro_core::ocg::state::OcgState;
use hayro_core::polled::Polled;
use hayro_core::types::{BlendMode, Cap, ColorSpaceKind, FillRule, Join};
use hayro_core::x_object::draw::{
    draw_form, draw_image, intent_warning, select_intent, start_image, DrawAction, IntentOutcome,
};
use hayro_core::x_object::form::{FormAction, FormGroupProperties, FormInvocation, FormXObject};
use hayro_core::x_object::pattern::{
    stencil_passage, CellAction, Degenerate, DeviceCall, Passage, Rectangle, ShadingPattern,
    TilingPattern, TransferEffect,
};
use hayro_core::x_object::resources::{lookup_space, Resources};
use hayro_core::x_object::soft_mask::{MaskIdentity, MaskType, SoftMask};
use hayro_syntax::object as syntax;
use hayro_syntax::object::FromBytes;
use hayro_syntax::Pdf;

fn number(number: syntax::Number) -> Number {
    Number {
        integer: number.to_string().parse().ok(),
        truncated: number.as_i64(),
        single: number.as_f32().to_bits(),
        narrowed: (number.as_f64() as f32).to_bits(),
        double: number.as_f64().to_bits(),
    }
}

fn dict(dict: &syntax::Dict<'_>) -> Dict {
    Dict {
        entries: dict
            .entries()
            .map(|(key, value)| Entry {
                key: key.to_vec(),
                value: maybe_ref(value),
            })
            .collect(),
    }
}

fn maybe_ref(value: syntax::MaybeRef<syntax::Object<'_>>) -> MaybeRef {
    match value {
        syntax::MaybeRef::Ref(reference) => MaybeRef::Ref(ObjectIdentifier {
            obj_number: i32::try_from(reference.obj_number).unwrap(),
            gen_number: reference.gen_number,
        }),
        syntax::MaybeRef::NotRef(value) => MaybeRef::NotRef(object(value)),
    }
}

fn stream(stream: &syntax::Stream<'_>) -> Stream {
    Stream {
        dict: dict(stream.dict()),
        data: stream.decoded().ok().map(|data| data.into_owned()),
    }
}

fn object(value: syntax::Object<'_>) -> Object {
    match value {
        syntax::Object::Null(_) => Object::Null,
        syntax::Object::Boolean(value) => Object::Boolean(value),
        syntax::Object::Number(value) => Object::Number(number(value)),
        syntax::Object::String(value) => Object::String(value.as_bytes().to_vec()),
        syntax::Object::Name(value) => Object::Name(value.to_vec()),
        syntax::Object::Dict(value) => Object::Dict(dict(&value)),
        syntax::Object::Array(value) => Object::Array(Array {
            items: value.raw_iter().map(maybe_ref).collect(),
        }),
        syntax::Object::Stream(value) => Object::Stream(stream(&value)),
    }
}

/// A document without indirect objects.
fn no_objects() -> Document {
    Document {
        objects: Vec::new(),
        root: ObjectIdentifier { obj_number: 0, gen_number: 0 },
    }
}

fn read_object(source: &[u8]) -> Object {
    object(syntax::Object::from_bytes(source).unwrap())
}

fn document(pdf: &Pdf) -> Document {
    let mut document = no_objects();
    for obj_number in 1..16 {
        let id = syntax::ObjectIdentifier::new(obj_number, 0);
        if let Some(value) = pdf.xref().get::<syntax::Object<'_>>(id) {
            document.objects.push(IndirectObject {
                id: identifier(obj_number as i32),
                object: object(value),
            });
        }
    }
    document.root = identifier(pdf.xref().root_id().obj_number as i32);
    document
}

fn identifier(obj_number: i32) -> ObjectIdentifier {
    ObjectIdentifier { obj_number, gen_number: 0 }
}

fn indirect_dict(document: &Document, obj_number: i32) -> &Dict {
    match document.get(identifier(obj_number)) {
        Some(Object::Dict(dict)) => dict,
        Some(Object::Stream(stream)) => &stream.dict,
        _ => panic!("dictionary"),
    }
}

fn inner_dict<'a>(document: &'a Document, dict: &'a Dict, key: &str) -> &'a Dict {
    match document.lookup(dict, key) {
        Some(Object::Dict(dict)) => dict,
        _ => panic!("dictionary"),
    }
}

fn read_array(source: &[u8]) -> Array {
    match read_object(source) {
        Object::Array(array) => array,
        _ => panic!("array"),
    }
}

fn read_dict(source: &[u8]) -> Dict {
    match read_object(source) {
        Object::Dict(dict) => dict,
        _ => panic!("dictionary"),
    }
}

fn membership_pdf(entry: &str, properties: bool) -> Pdf {
    let catalog = if properties {
        "/OCProperties<</OCGs[4 0 R 5 0 R]/D<<>>>>"
    } else {
        ""
    };
    let objects = [
        format!("<</Type/Catalog/Pages 2 0 R{catalog}>>"),
        "<</Type/Pages/Kids[3 0 R]/Count 1>>".into(),
        format!("<</Type/Page/Parent 2 0 R/MediaBox[0 0 100 100]{entry}>>"),
        "<</Type/OCG/Name(A)>>".into(),
        "<</Type/OCG/Name(B)>>".into(),
        "<</Type/OCMD/VE[/Not 6 0 R]>>".into(),
    ];
    let mut bytes = b"%PDF-1.7\n".to_vec();
    let mut offsets = vec![0];
    for (i, object) in objects.iter().enumerate() {
        offsets.push(bytes.len());
        bytes.extend_from_slice(format!("{} 0 obj\n{object}\nendobj\n", i + 1).as_bytes());
    }
    let start = bytes.len();
    bytes.extend_from_slice(format!("xref\n0 {}\n0000000000 65535 f \n", offsets.len()).as_bytes());
    for offset in &offsets[1..] {
        bytes.extend_from_slice(format!("{offset:010} 00000 n \n").as_bytes());
    }
    bytes.extend_from_slice(
        format!(
            "trailer\n<</Size {}/Root 1 0 R>>\nstartxref\n{start}\n%%EOF\n",
            offsets.len()
        )
        .as_bytes(),
    );
    Pdf::new(bytes).unwrap()
}

fn resolve(
    entry: &str,
) -> Result<Option<OptionalContentExpression>, OptionalContentError> {
    let document = document(&membership_pdf(entry, true));
    resolve_optional_content(
        indirect_dict(&document, 3),
        &document,
        &mut OptionalContentBudget::default(),
        &mut Polled::new(|| false),
    )
}

fn visible(expression: &OptionalContentExpression, a: bool, b: bool) -> bool {
    match expression {
        OptionalContentExpression::Group(group) => {
            if group.object_number == 4 {
                a
            } else {
                b
            }
        }
        OptionalContentExpression::All(operands) => operands.iter().all(|e| visible(e, a, b)),
        OptionalContentExpression::Any(operands) => operands.iter().any(|e| visible(e, a, b)),
        OptionalContentExpression::Not(operand) => !visible(operand, a, b),
    }
}

#[test]
fn membership_policies_and_visibility_precedence_are_exact() {
    for a in [false, true] {
        for b in [false, true] {
            for (policy, expected) in [
                ("AnyOn", a || b),
                ("AllOn", a && b),
                ("AnyOff", !a || !b),
                ("AllOff", !a && !b),
            ] {
                let expression =
                    resolve(&format!("/OC<</Type/OCMD/OCGs[4 0 R 5 0 R]/P/{policy}>>"))
                        .unwrap()
                        .unwrap();
                assert_eq!(visible(&expression, a, b), expected);
            }
            let expression = resolve("/OC<</Type/OCMD/P/Unknown/VE[/And 4 0 R [/Not 5 0 R]]>>")
                .unwrap()
                .unwrap();
            assert_eq!(visible(&expression, a, b), a && !b);
        }
    }
    assert!(matches!(
        resolve("/OC 4 0 R"),
        Ok(Some(OptionalContentExpression::Group(_)))
    ));
    assert!(visible(
        &resolve("/OC<</Type/OCMD/OCGs[]/P/AnyOff>>")
            .unwrap()
            .unwrap(),
        false,
        false
    ));
    assert!(resolve("").unwrap().is_none());
}

#[test]
fn malformed_membership_never_uses_a_policy_or_partial_expression() {
    for entry in [
        "/OC false",
        "/OC 99 0 R",
        "/OC<<>>",
        "/OC<</Type/OCG>>",
        "/OC<</Type/OCMD/OCGs[4 0 R true]>>",
        "/OC<</Type/OCMD/OCGs false>>",
        "/OC<</Type/OCMD/P/Unknown>>",
        "/OC<</Type/OCMD/P false>>",
        "/OC<</Type/OCMD/VE false/P/AnyOn>>",
        "/OC<</Type/OCMD/VE[/And]>>",
        "/OC<</Type/OCMD/VE[/Not 4 0 R 5 0 R]>>",
        "/OC<</Type/OCMD/VE[/Or 4 0 R false]>>",
        "/OC 6 0 R",
    ] {
        assert!(resolve(entry).is_err(), "{entry}");
    }
    let document = document(&membership_pdf("/OC false", false));
    assert!(
        resolve_optional_content(
            indirect_dict(&document, 3),
            &document,
            &mut OptionalContentBudget {
                nodes: 0,
                bytes: 0,
                max_depth: 0
            },
            &mut Polled::new(|| false)
        )
        .unwrap()
        .is_none()
    );
}

#[test]
fn annotation_membership_limits_are_aggregate_and_cancellable() {
    let document = document(&membership_pdf("/OC<</Type/OCMD/VE[/And 4 0 R 5 0 R]>>", true));
    let resolve = |budget: &mut OptionalContentBudget, cancelled: &dyn Fn() -> bool| {
        let mut polled = Polled::new(|| cancelled());
        resolve_optional_content(indirect_dict(&document, 3), &document, budget, &mut polled)
    };
    let mut budget = OptionalContentBudget {
        nodes: 3,
        ..OptionalContentBudget::default()
    };
    assert!(resolve(&mut budget, &|| false).is_ok());
    assert_eq!(resolve(&mut budget, &|| false), Err(OptionalContentError::NodeLimit));
    assert_eq!(
        resolve(
            &mut OptionalContentBudget {
                bytes: 0,
                ..OptionalContentBudget::default()
            },
            &|| false
        ),
        Err(OptionalContentError::ByteLimit)
    );
    assert_eq!(
        resolve(
            &mut OptionalContentBudget {
                max_depth: 1,
                ..OptionalContentBudget::default()
            },
            &|| false
        ),
        Err(OptionalContentError::DepthLimit)
    );
    let calls = std::cell::Cell::new(0);
    assert_eq!(
        resolve(&mut OptionalContentBudget::default(), &|| {
            calls.set(calls.get() + 1);
            calls.get() > 3
        }),
        Err(OptionalContentError::Cancelled)
    );
}

#[test]
fn resolution_stops_where_the_host_does_with_what_is_left() {
    let document = document(&membership_pdf("/OC<</Type/OCMD/VE[/And 4 0 R 5 0 R]>>", true));
    // At the start, for the expression, and for each reference and its group.
    let left = [65_536, 65_536, 65_535, 65_535, 65_534, 65_534];
    for allowed in 0..=left.len() {
        let calls = std::cell::Cell::new(0);
        let mut polled = Polled::new(|| {
            calls.set(calls.get() + 1);
            calls.get() > allowed
        });
        let mut budget = OptionalContentBudget::default();
        let result = resolve_optional_content(
            indirect_dict(&document, 3),
            &document,
            &mut budget,
            &mut polled,
        );
        if allowed < left.len() {
            assert_eq!(result, Err(OptionalContentError::Cancelled));
            assert_eq!((calls.get(), budget.nodes), (allowed + 1, left[allowed]));
        } else {
            assert!(matches!(result, Ok(Some(_))));
            assert_eq!((calls.get(), budget.nodes), (left.len(), 65_533));
        }
    }
}

fn group(number: i32) -> OptionalContentExpression {
    OptionalContentExpression::Group(OptionalContentGroup {
        object_number: number,
        generation_number: 0,
        initially_visible: true,
    })
}

#[test]
fn retained_mode_emits_hidden_groups_without_losing_the_default() {
    let mut filtered = OcgState::dummy(false);
    filtered.inactive_ocgs.push(identifier(7));
    let filtered_expression = filtered.begin_resolved(group(7));
    assert!(!filtered.is_visible());
    assert!(!expression_is_visible(&filtered_expression));

    let mut retained = OcgState::dummy(true);
    retained.inactive_ocgs.push(identifier(7));
    let retained_expression = retained.begin_resolved(group(7));
    assert!(retained.is_visible());
    assert!(!expression_is_visible(&retained_expression));
    assert!(retained.end_marked_content());
}

#[test]
fn dash_declarations_are_complete_and_keep_zero_lengths() {
    for bytes in [b"[[0 2] 0]".as_slice(), b"[[2 0 3] -7]", b"[[] 0]"] {
        assert!(DashPattern::from_ext_g_state(&no_objects(), &read_array(bytes)).is_some());
    }
    let pattern =
        DashPattern::from_ext_g_state(&no_objects(), &read_array(b"[[0 2] 0]")).unwrap();
    assert_eq!(pattern.array.as_slice(), [0.0_f32.to_bits(), 2.0_f32.to_bits()]);
    for bytes in [
        b"[[2 /Bad 3] 0]".as_slice(),
        b"[[2 /Bad] 0]",
        b"[[2 null] 0]",
        b"[[2 -1] 0]",
        b"[[0 0] 0]",
        b"[[2] 0 /Bad]",
        b"[[2] null]",
        b"[[2]]",
        b"[[2 999 0 R] 0]",
        b"[[2] 999 0 R]",
    ] {
        assert!(
            DashPattern::from_ext_g_state(&no_objects(), &read_array(bytes)).is_none(),
            "{bytes:?}"
        );
    }
}

fn read_number(source: &[u8]) -> Number {
    number(syntax::Number::from_bytes(source).expect("authored number"))
}

#[test]
fn scalar_ranges_are_normalized_before_narrowing() {
    for source in [
        b"-8".as_slice(),
        b"-99999999999999999999999999999999999999999999999999",
    ] {
        assert_eq!(StrokeProps::read_line_width(read_number(source)), Some(f32::to_bits(0.0)));
        assert_eq!(StrokeProps::read_miter_limit(read_number(source)), Some(f32::to_bits(1.0)));
    }
    for source in [b"0".as_slice(), b"0.99999999999999999"] {
        assert_eq!(StrokeProps::read_miter_limit(read_number(source)), Some(f32::to_bits(1.0)));
    }
    for source in [b"8".as_slice(), b"8.0"] {
        assert_eq!(StrokeProps::read_line_width(read_number(source)), Some(f32::to_bits(8.0)));
        assert_eq!(StrokeProps::read_miter_limit(read_number(source)), Some(f32::to_bits(8.0)));
    }
    let tiny = read_number(b"0.00000000000000000000000000000000000000000000000001");
    assert!(f64::from_bits(tiny.double) > 0.0 && f32::from_bits(tiny.single) == 0.0);
    assert_eq!(StrokeProps::read_line_width(tiny), None);
    let huge = read_number(b"99999999999999999999999999999999999999999999999999");
    assert_eq!(StrokeProps::read_line_width(huge), None);
    assert_eq!(StrokeProps::read_miter_limit(huge), None);
    for source in [f32::INFINITY, f32::NEG_INFINITY, f32::NAN] {
        assert_eq!(StrokeProps::read_line_width(number(syntax::Number::from_f32(source))), None);
        assert_eq!(
            StrokeProps::read_miter_limit(number(syntax::Number::from_f32(source))),
            None
        );
    }
}

#[test]
fn integer_styles_clamp_without_accepting_real_objects() {
    for (source, cap, join) in [
        (i32::MIN, Cap::Butt, Join::Miter),
        (0, Cap::Butt, Join::Miter),
        (1, Cap::Round, Join::Round),
        (2, Cap::Square, Join::Bevel),
        (i32::MAX, Cap::Square, Join::Bevel),
    ] {
        assert_eq!(
            StrokeProps::read_line_cap(number(syntax::Number::from_i32(source))),
            Some(cap)
        );
        assert_eq!(
            StrokeProps::read_line_join(number(syntax::Number::from_i32(source))),
            Some(join)
        );
    }
    for source in [b"1.0".as_slice(), b"1.5", b"2.", b"-.5"] {
        assert_eq!(StrokeProps::read_line_cap(read_number(source)), None);
        assert_eq!(StrokeProps::read_line_join(read_number(source)), None);
    }
}

/// Runs instructions as a host does, and notes what reaches the device.
#[derive(Default)]
struct Recording {
    events: Vec<&'static str>,
    warnings: Vec<InterpreterWarning>,
    path_is_empty: bool,
}

impl Recording {
    fn facts(&self) -> Facts {
        Facts {
            cancelled: false,
            path_is_empty: self.path_is_empty,
            last_point: Point { x: 0, y: 0 },
            clip: None,
            has_text_outline: false,
            has_font: true,
            font_is_cached: false,
            font_in_resources: true,
        }
    }

    fn perform(&mut self, actions: &[Action]) {
        for action in actions {
            match action {
                Action::Warn(warning) => self.warnings.push(*warning),
                Action::AppendRect(..) => self.path_is_empty = false,
                Action::TruncatePath => self.path_is_empty = true,
                Action::FillPath(_) => self.events.push("path"),
                Action::BeginTextObject => self.events.push("begin-text"),
                Action::EndTextObject => self.events.push("end-text"),
                Action::BeginMarkedContent => self.events.push("begin-marked"),
                Action::EndMarkedContent => self.events.push("end-marked"),
                _ => {}
            }
        }
    }

    fn run(instructions: &[Instruction]) -> Self {
        let mut recording = Self { path_is_empty: true, ..Self::default() };
        let mut ocg_state = OcgState::dummy(false);
        let mut scope = Scope::new(1, &ocg_state);
        for instruction in instructions {
            let facts = recording.facts();
            let actions = scope.interpret(&mut ocg_state, *instruction, facts).unwrap();
            recording.perform(&actions);
        }
        let facts = recording.facts();
        let actions = scope.finish(&mut ocg_state, facts, 1);
        recording.perform(&actions);
        recording
    }
}

fn rectangle() -> Instruction {
    let bits = |value: f64| value.to_bits();
    Instruction::RectPath(
        Point { x: bits(0.0), y: bits(0.0) },
        Point { x: bits(10.0), y: bits(10.0) },
    )
}

#[test]
fn malformed_text_object_boundaries_are_repaired_and_reported_once() {
    // ET BT BT ET BT 0 0 10 10 re f
    let device = Recording::run(&[
        Instruction::EndText,
        Instruction::BeginText,
        Instruction::BeginText,
        Instruction::EndText,
        Instruction::BeginText,
        rectangle(),
        Instruction::FillPath(FillRule::NonZero),
    ]);

    assert_eq!(
        device.events,
        [
            "begin-text",
            "end-text",
            "begin-text",
            "end-text",
            "begin-text",
            "end-text",
            "path",
        ]
    );
    let warnings = &device.warnings;
    assert!(
        warnings
            .iter()
            .any(|warning| matches!(warning, InterpreterWarning::UnmatchedTextObjectEnd))
    );
    assert!(
        warnings
            .iter()
            .any(|warning| matches!(warning, InterpreterWarning::NestedTextObject))
    );
    assert!(
        warnings
            .iter()
            .any(|warning| matches!(warning, InterpreterWarning::UnterminatedTextObject))
    );
}

#[test]
fn malformed_marked_content_boundaries_are_repaired_and_reported_once() {
    // EMC EMC /Span BMC /Inner BMC 0 0 10 10 re f EMC
    let device = Recording::run(&[
        Instruction::EndMarkedContent,
        Instruction::EndMarkedContent,
        Instruction::BeginMarkedContent,
        Instruction::BeginMarkedContent,
        rectangle(),
        Instruction::FillPath(FillRule::NonZero),
        Instruction::EndMarkedContent,
    ]);

    assert_eq!(
        device.events,
        [
            "begin-marked",
            "begin-marked",
            "path",
            "end-marked",
            "end-marked",
        ]
    );
    let warnings = &device.warnings;
    assert_eq!(
        warnings
            .iter()
            .filter(|warning| matches!(warning, InterpreterWarning::UnmatchedMarkedContentEnd))
            .count(),
        1
    );
    assert_eq!(
        warnings
            .iter()
            .filter(|warning| matches!(warning, InterpreterWarning::UnterminatedMarkedContent))
            .count(),
        1
    );
}

fn marked_content_metadata_pdf() -> Vec<u8> {
    marked_content_metadata_pdf_with_stream("", b"<x/>")
}

fn marked_content_metadata_pdf_with_stream(stream_entries: &str, metadata: &[u8]) -> Vec<u8> {
    let page_stream = b"/Artifact /Layout BDC 0 0 10 10 re f EMC";
    let mut pdf = format!(
        "%PDF-1.7\n\
         1 0 obj <</Type/Catalog/Pages 2 0 R>> endobj\n\
         2 0 obj <</Type/Pages/Kids[3 0 R]/Count 1>> endobj\n\
         3 0 obj <</Type/Page/Parent 2 0 R/MediaBox[0 0 100 100]/Resources<</Properties<</Layout 5 0 R>>>>/Contents 4 0 R>> endobj\n\
         4 0 obj <</Length {}>> stream\n{}\nendstream endobj\n\
         5 0 obj <</O/Layout/Subtype/Glyphst/BBox[-0.25 1.5 20 30]/Metadata 6 0 R>> endobj\n\
         6 0 obj <</Type/Metadata/Subtype/XML{stream_entries}/Length {}>> stream\n",
        page_stream.len(),
        String::from_utf8_lossy(page_stream),
        metadata.len(),
    )
    .into_bytes();
    pdf.extend_from_slice(metadata);
    pdf.extend_from_slice(b"\nendstream endobj\ntrailer <</Root 1 0 R>>\n%%EOF");
    pdf
}

fn marked_content_private_properties_pdf(entries: &str) -> Vec<u8> {
    let page_stream = b"/Artifact /Layout BDC 0 0 10 10 re f EMC";
    format!(
        "%PDF-1.7\n\
         1 0 obj <</Type/Catalog/Pages 2 0 R>> endobj\n\
         2 0 obj <</Type/Pages/Kids[3 0 R]/Count 1>> endobj\n\
         3 0 obj <</Type/Page/Parent 2 0 R/MediaBox[0 0 100 100]/Resources<</Properties<</Layout 5 0 R>>>>/Contents 4 0 R>> endobj\n\
         4 0 obj <</Length {}>> stream\n{}\nendstream endobj\n\
         5 0 obj <<{entries}>> endobj\n\
         trailer <</Root 1 0 R>>\n%%EOF",
        page_stream.len(),
        String::from_utf8_lossy(page_stream),
    )
    .into_bytes()
}

fn missing_marked_content_properties_pdf() -> Vec<u8> {
    let page_stream = b"/Figure /Missing BDC 0 0 10 10 re f EMC";
    format!(
        "%PDF-1.7\n\
         1 0 obj <</Type/Catalog/Pages 2 0 R>> endobj\n\
         2 0 obj <</Type/Pages/Kids[3 0 R]/Count 1>> endobj\n\
         3 0 obj <</Type/Page/Parent 2 0 R/MediaBox[0 0 100 100]/Resources<<>>/Contents 4 0 R>> endobj\n\
         4 0 obj <</Length {}>> stream\n{}\nendstream endobj\n\
         trailer <</Root 1 0 R>>\n%%EOF",
        page_stream.len(),
        String::from_utf8_lossy(page_stream),
    )
    .into_bytes()
}

/// The data of a stream, if it is at most filtered once, by deflate.
fn decode_metadata(stream: &Stream, limit: usize) -> Option<Vec<u8>> {
    let filtered = match stream.dict.get_raw("Filter") {
        None => true,
        Some(MaybeRef::NotRef(Object::Name(name))) => name == b"FlateDecode",
        _ => false,
    };
    let data = stream.data.as_ref()?.as_slice();
    (filtered && data.len() <= limit).then_some(data.to_vec())
}

fn marked_properties(bytes: Vec<u8>, name: &str, limits: PropertyLimits) -> MarkedContentProperties {
    let document = document(&Pdf::new(bytes).expect("parse fixture"));
    let resources = inner_dict(&document, indirect_dict(&document, 3), "Resources");
    let no_properties = Dict { entries: Vec::new() };
    let properties = match document.lookup(resources, "Properties") {
        Some(Object::Dict(properties)) => properties,
        _ => &no_properties,
    };
    OcgState::dummy(false)
        .begin_marked_content_with_properties(
            &document,
            properties,
            &Object::Name(name.as_bytes().to_vec()),
            limits,
            &decode_metadata,
        )
        .properties
}

fn default_limits() -> PropertyLimits {
    InterpreterSettings::default().marked_content
}

#[test]
fn marked_content_exposes_layout_bounds_owner_and_decoded_metadata() {
    let device = marked_properties(
        marked_content_metadata_pdf(),
        "Layout",
        default_limits(),
    );
    let properties = &device;
    assert_eq!(properties.owner.as_deref(), Some(b"Layout".as_slice()));
    assert_eq!(
        properties.property_subtype.as_deref(),
        Some(b"Glyphst".as_slice())
    );
    assert_eq!(properties.bounding_box, Some([-0.25, 1.5, 20.0, 30.0].map(f64::to_bits)));
    let metadata = properties.metadata.as_ref().expect("metadata");
    assert_eq!(metadata.subtype, b"XML");
    assert_eq!(metadata.data, b"<x/>");
    assert!(properties.unavailable_keys.is_empty());

    let filtered = marked_properties(
        marked_content_metadata_pdf_with_stream(
            "/Filter/FlateDecode",
            b"\x78\x9c\xb3\xa9\xd0\xb7\x03\x00\x02\xf8\x01\x22",
        ),
        "Layout",
        default_limits(),
    );
    let properties = &filtered;
    let metadata = properties.metadata.as_ref().expect("filtered metadata");
    assert_eq!(metadata.data, b"<x/>");
    assert!(properties.unavailable_keys.is_empty());

    let unsupported_filter = marked_properties(
        marked_content_metadata_pdf_with_stream("/Filter/ASCIIHexDecode", b"3c782f3e>"),
        "Layout",
        default_limits(),
    );
    let properties = &unsupported_filter;
    assert!(properties.metadata.is_none());
    assert_eq!(properties.unavailable_keys, [b"Metadata".to_vec()]);

    let limited = marked_properties(
        marked_content_metadata_pdf(),
        "Layout",
        PropertyLimits { max_metadata_bytes: 3, ..default_limits() },
    );
    let properties = &limited;
    assert!(properties.metadata.is_none());
    assert_eq!(properties.unavailable_keys, [b"Metadata".to_vec()]);

    let filtered_limited = marked_properties(
        marked_content_metadata_pdf_with_stream(
            "/Filter/FlateDecode",
            b"\x78\x9c\xb3\xa9\xd0\xb7\x03\x00\x02\xf8\x01\x22",
        ),
        "Layout",
        PropertyLimits { max_metadata_bytes: 3, ..default_limits() },
    );
    let properties = &filtered_limited;
    assert!(properties.metadata.is_none());
    assert_eq!(properties.unavailable_keys, [b"Metadata".to_vec()]);
}

#[test]
fn marked_content_exposes_bounded_producer_defined_values() {
    let device = marked_properties(
        marked_content_private_properties_pdf(
            "/PRECISION 5/UNITS(inches)/VP[0.5 -2.25 true null/Glyphst (bytes)]\
             /Nested<</Count 9007199254740993/Values[1 2 3]>>",
        ),
        "Layout",
        default_limits(),
    );
    let properties = &device;
    assert_eq!(
        properties.additional_properties,
        [
            MarkedContentProperty {
                key: b"Nested".to_vec(),
                value: MarkedContentPropertyValue::Dictionary(vec![
                    MarkedContentProperty {
                        key: b"Count".to_vec(),
                        value: MarkedContentPropertyValue::Integer(9_007_199_254_740_993),
                    },
                    MarkedContentProperty {
                        key: b"Values".to_vec(),
                        value: MarkedContentPropertyValue::Array(vec![
                            MarkedContentPropertyValue::Integer(1),
                            MarkedContentPropertyValue::Integer(2),
                            MarkedContentPropertyValue::Integer(3),
                        ]),
                    },
                ]),
            },
            MarkedContentProperty {
                key: b"PRECISION".to_vec(),
                value: MarkedContentPropertyValue::Integer(5),
            },
            MarkedContentProperty {
                key: b"UNITS".to_vec(),
                value: MarkedContentPropertyValue::String(b"inches".to_vec()),
            },
            MarkedContentProperty {
                key: b"VP".to_vec(),
                value: MarkedContentPropertyValue::Array(vec![
                    MarkedContentPropertyValue::Real(f64::to_bits(0.5)),
                    MarkedContentPropertyValue::Real(f64::to_bits(-2.25)),
                    MarkedContentPropertyValue::Boolean(true),
                    MarkedContentPropertyValue::Null,
                    MarkedContentPropertyValue::Name(b"Glyphst".to_vec()),
                    MarkedContentPropertyValue::String(b"bytes".to_vec()),
                ]),
            },
        ]
    );
    assert!(properties.unavailable_keys.is_empty());

    let limited = marked_properties(
        marked_content_private_properties_pdf("/PRECISION 5/UNITS(inches)"),
        "Layout",
        PropertyLimits { max_property_bytes: 1, ..default_limits() },
    );
    let properties = &limited;
    assert!(properties.additional_properties.is_empty());
    assert_eq!(
        properties.unavailable_keys,
        [b"PRECISION".to_vec(), b"UNITS".to_vec()]
    );
}

#[test]
fn marked_content_exposes_unresolved_named_property_list_identity() {
    let device = marked_properties(
        missing_marked_content_properties_pdf(),
        "Missing",
        default_limits(),
    );
    let properties = &device;
    assert_eq!(
        properties.property_list_name.as_deref(),
        Some(b"Missing".as_slice())
    );
    assert!(!properties.property_list_resolved);
    assert!(properties.additional_properties.is_empty());
    assert!(properties.unavailable_keys.is_empty());

    let resolved = marked_properties(
        marked_content_metadata_pdf(),
        "Layout",
        default_limits(),
    );
    let properties = &resolved;
    assert_eq!(
        properties.property_list_name.as_deref(),
        Some(b"Layout".as_slice())
    );
    assert!(properties.property_list_resolved);
}

fn form_pdf_with_group(group: &str) -> Vec<u8> {
    form_pdf_with_group_and_resources(group, "")
}

fn form_pdf_with_group_and_resources(group: &str, resources: &str) -> Vec<u8> {
    let page_stream = b"q 2 0 0 2 10 20 cm /Fm0 Do Q q 3 0 0 3 30 40 cm /Fm0 Do Q";
    let form_stream = b"0 0 10 10 re f";
    format!(
        "%PDF-1.4\n\
         1 0 obj <</Type/Catalog/Pages 2 0 R>> endobj\n\
         2 0 obj <</Type/Pages/Kids[3 0 R]/Count 1>> endobj\n\
         3 0 obj <</Type/Page/Parent 2 0 R/MediaBox[0 0 100 100]/Resources<</XObject<</Fm0 5 0 R>>>>/Contents 4 0 R>> endobj\n\
         4 0 obj <</Length {}>> stream\n{}\nendstream endobj\n\
         5 0 obj <</Type/XObject/Subtype/Form/FormType 1/BBox[0 0 10 10]/Matrix[1 0 0 1 3 4]{group}/Resources<<{resources}>>/Length {}>> stream\n{}\nendstream endobj\n\
         trailer <</Root 1 0 R>>\n%%EOF",
        page_stream.len(),
        String::from_utf8_lossy(page_stream),
        form_stream.len(),
        String::from_utf8_lossy(form_stream),
    )
    .into_bytes()
}

/// The kind of a color space, as a host resolves it.
fn space_kind(space: &Object) -> Option<ColorSpaceKind> {
    let name = match space {
        Object::Name(name) => name,
        Object::Array(array) => match array.items.first()? {
            MaybeRef::NotRef(Object::Name(name)) => name,
            _ => return None,
        },
        _ => return None,
    };
    match name.as_slice() {
        b"DeviceGray" => Some(ColorSpaceKind::DeviceGray),
        b"DeviceRGB" => Some(ColorSpaceKind::DeviceRgb),
        b"DeviceCMYK" => Some(ColorSpaceKind::DeviceCmyk),
        b"CalRGB" => Some(ColorSpaceKind::CalRgb),
        _ => None,
    }
}

/// Typed group properties of each form that a page has.
fn group_properties(bytes: Vec<u8>) -> Vec<Option<FormGroupProperties>> {
    groups(bytes).into_iter().map(|(properties, _)| properties).collect()
}

/// Typed group properties and the group color space of each form that a page has.
fn groups(bytes: Vec<u8>) -> Vec<(Option<FormGroupProperties>, Option<ColorSpaceKind>)> {
    let document = document(&Pdf::new(bytes).expect("parse form fixture"));
    let mut properties = Vec::new();
    for indirect in &document.objects {
        let Object::Stream(stream) = &indirect.object else {
            continue;
        };
        let Some(form) = FormXObject::new(&document, stream) else {
            continue;
        };
        let around = Resources { color_spaces: Vec::new() };
        // The page invokes the form twice.
        for _ in 0..2 {
            let invocation = FormInvocation::new(
                &document,
                &stream.dict,
                &form,
                &around,
                false,
                &space_kind,
            );
            properties.push((invocation.group_properties(), invocation.group_color_space()));
        }
    }
    properties
}

#[test]
fn form_invocations_expose_typed_transparency_group_properties() {
    let group_properties = group_properties(form_pdf_with_group("/Group<</S/Transparency/I true/K false/CS/DeviceRGB>>"));
    assert_eq!(group_properties.len(), 2);
    let properties = group_properties[0].expect("group properties");
    assert!(properties.is_transparency());
    assert!(properties.isolated());
    assert!(!properties.knockout());
    assert!(properties.has_color_space());
    assert_eq!(
        properties.color_space_kind(),
        Some(ColorSpaceKind::DeviceRgb)
    );
    assert!(!properties.color_space_is_default_overridden());
    assert!(
        group_properties
            .iter()
            .all(|candidate| *candidate == Some(properties))
    );
}

#[test]
fn form_group_device_space_reports_default_resource_remapping() {
    let group_properties = group_properties(form_pdf_with_group_and_resources(
            "/Group<</S/Transparency/I true/K false/CS/DeviceRGB>>",
            "/ColorSpace<</DefaultRGB/DeviceGray>>",
        ));
    let properties = group_properties[0].expect("group properties");
    assert!(properties.has_color_space());
    assert_eq!(
        properties.declared_color_space_kind(),
        Some(ColorSpaceKind::DeviceRgb)
    );
    assert_eq!(properties.color_space_kind(), None);
    assert!(properties.color_space_is_default_overridden());
}

#[test]
fn form_invocations_expose_parsed_non_device_group_color_spaces() {
    let groups = groups(form_pdf_with_group(
            "/Group<</S/Transparency/I true/K false/CS[/CalRGB<</WhitePoint[0.9505 1 1.089]>>]>>",
        ));
    let properties = groups[0].0.expect("group properties");
    assert_eq!(groups[0].1, Some(ColorSpaceKind::CalRgb));
    assert_eq!(properties.declared_color_space_kind(), None);
    assert_eq!(properties.color_space_kind(), Some(ColorSpaceKind::CalRgb));
    assert!(!properties.color_space_is_default_overridden());
}

#[test]
fn soft_masks_keep_the_source_form_and_need_a_blending_space_for_luminosity() {
    let pdf = Pdf::new(
        b"%PDF-1.7
1 0 obj << /Type /Catalog /Pages 2 0 R >> endobj
2 0 obj << /Type /Pages /Kids [3 0 R] /Count 1 >> endobj
3 0 obj << /Type /Page /Parent 2 0 R /MediaBox [0 0 100 100]
/A << /S /Alpha /G 4 0 R >> /L << /S /Luminosity /G 4 0 R /TR /Identity >>
/P << /S /Alpha /G 5 0 R /TR << /FunctionType 2 /Domain [0 1] /N 1 >> >>
/Q << /S /Luminosity /G 5 0 R >> /T << /S /Alpha /G 5 0 R /TR << >> >>
/B << /S /Luminosity /G 7 0 R >>
/R << /S /Other /G 4 0 R >> /D << /S /Alpha /G 6 0 R >> >> endobj
4 0 obj << /Type /XObject /Subtype /Form /BBox [0 0 100 50] /Matrix [1 0 0 1 3 4]
/Group << /S /Transparency /CS /DeviceGray >> /Length 0 >> stream

endstream endobj
5 0 obj << /Type /XObject /Subtype /Form /BBox [0 0 100 100]
/Group << /S /Transparency >> /Length 0 >> stream

endstream endobj
6 0 obj << /Type /XObject /Subtype /Form /BBox [0 0 100 100] /Length 0 >> stream

endstream endobj
7 0 obj << /Type /XObject /Subtype /Form /BBox [0 0 100 100]
/Resources << /ColorSpace << /Blend /DeviceRGB >> >>
/Group << /S /Transparency /CS /Blend >> /Length 0 >> stream

endstream endobj
trailer << /Root 1 0 R >>
%%EOF"
            .to_vec(),
    )
    .expect("PDF");
    let document = document(&pdf);
    let page = indirect_dict(&document, 3);
    let defaults = read_dict(b"<< /DefaultRGB /DeviceGray /Blend /DeviceCMYK >>");
    let around = Resources { color_spaces: vec![&defaults] };
    let arithmetic = Arithmetic {
        sampled: |_: &Type0, _: &Vec<u32>| None,
        // An exponential function with an exponent of one.
        exponential: |_: &Type2, input: u32| Some(vec![input]),
        affine: |map: Affine| map.x,
        compute: |_: RealCall| 0,
    };
    let quantization = Quantization {
        unit: |byte: u8| (f32::from(byte) / 255.0).to_bits(),
        byte: |bits: u32| (f32::from_bits(bits) * 255.0 + 0.5) as u8,
    };
    let identified = |key: &str, identity: MaskIdentity| {
        SoftMask::new(
            &document,
            inner_dict(&document, page, key),
            identity,
            &around,
            &space_kind,
            &|_: SampledCheck| true,
            &|_: &Type2| true,
            &arithmetic,
            &quantization,
        )
    };
    let identity = MaskIdentity {
        dict: 1,
        resources: 2,
        transform: 3,
        bbox: 4,
        defers_transfer_functions: false,
    };
    let mask = |key: &str| identified(key, identity);
    let alpha = mask("A").unwrap();
    assert_eq!(alpha.id(), identifier(4));
    // The source form alone does not identify a mask.
    assert_eq!(alpha, mask("A").unwrap());
    for other in [
        MaskIdentity { dict: 9, ..identity },
        MaskIdentity { resources: 9, ..identity },
        MaskIdentity { transform: 9, ..identity },
        MaskIdentity { bbox: 9, ..identity },
        MaskIdentity { defers_transfer_functions: true, ..identity },
    ] {
        let different = identified("A", other).unwrap();
        assert_eq!(different.id(), alpha.id());
        assert_eq!(different.identity(), other);
        assert_ne!(different, alpha);
    }
    assert_eq!(alpha.mask_type(), MaskType::Alpha);
    assert_eq!(
        alpha.group_properties().unwrap().color_space_kind(),
        Some(ColorSpaceKind::DeviceGray)
    );
    assert_eq!(alpha.group.bbox, [0.0, 0.0, 100.0, 50.0].map(f32::to_bits));
    let matrix = alpha.group.matrix.unwrap();
    assert_eq!(
        [matrix.a, matrix.b, matrix.c, matrix.d, matrix.e, matrix.f],
        [1.0, 0.0, 0.0, 1.0, 3.0, 4.0].map(f64::to_bits)
    );
    assert!(!alpha.has_background && alpha.transfer_function().is_none());
    let luminosity = mask("L").unwrap();
    assert_eq!(luminosity.mask_type(), MaskType::Luminosity);
    assert!(luminosity.has_background && luminosity.transfer_function().is_none());
    assert_eq!(luminosity.group_color_space_kind(), ColorSpaceKind::DeviceGray);
    assert!(!luminosity.group_color_space_is_default_overridden());
    let plain = mask("P").unwrap();
    let transfer = plain.transfer_function().unwrap();
    assert!(transfer.samples.iter().enumerate().all(|(i, sample)| usize::from(*sample) == i));
    // A resource of the form itself goes before those around it.
    let named = mask("B").unwrap();
    assert_eq!(named.group_color_space_kind(), ColorSpaceKind::DeviceRgb);
    assert!(named.group_color_space_is_default_overridden());
    for key in ["Q", "R", "D", "T"] {
        assert!(mask(key).is_none(), "{key}");
    }
}

#[test]
fn forms_in_groups_are_bracketed_and_default_spaces_are_inherited() {
    let document = no_objects();
    let source = b"<< /BBox [0 0 1 1] /Group << /S /Transparency /CS /RGB >> /Length 0 >> stream\n\nendstream";
    let Object::Stream(stream) = read_object(source) else {
        panic!("stream")
    };
    let form = FormXObject::new(&document, &stream).unwrap();
    assert!(form.matrix.is_none());
    let inner = read_dict(b"<< /Own /DeviceGray >>");
    let outer = read_dict(b"<< /DefaultRGB /DeviceGray >>");
    let resources = Resources { color_spaces: vec![&inner, &outer] };
    let invocation = FormInvocation::new(
        &document,
        &stream.dict,
        &form,
        &resources,
        true,
        &space_kind,
    );
    assert!(invocation.group_color_space().is_none());
    assert!(invocation.is_transparency_group() && invocation.has_inherited_soft_mask());
    // Only a subtype makes a group a transparency group.
    for (subtype, expected) in [("/S /Transparency", true), ("/S /Other", false), ("", false)] {
        let source = format!(
            "<< /BBox [0 0 1 1] /Group << {subtype} >> /Length 0 >> stream\n\nendstream"
        );
        let Object::Stream(stream) = read_object(source.as_bytes()) else {
            panic!("stream")
        };
        let form = FormXObject::new(&document, &stream).unwrap();
        let other = FormInvocation::new(
            &document,
            &stream.dict,
            &form,
            &resources,
            true,
            &space_kind,
        );
        assert_eq!(other.is_transparency_group(), expected, "{subtype}");
        assert!(other.group_properties().is_some());
    }
    assert!(invocation.group_properties().unwrap().color_space_is_default_overridden());
    assert_eq!(
        invocation.interpret_with_root(),
        [
            FormAction::PushGroup,
            FormAction::ResetAlpha,
            FormAction::PushClip,
            FormAction::Interpret,
            FormAction::PopClip,
            FormAction::PopGroup,
        ]
    );
    assert!(!resources.override_default(Some(ColorSpaceKind::DeviceGray)));
    assert!(resources.contain_color_space("Own"));
    assert!(matches!(
        lookup_space(&document, &outer, b"DefaultRGB"),
        Some(Object::Name(_))
    ));
    assert!(lookup_space(&document, &inner, b"DefaultRGB").is_none());
    assert!(resources.get_color_space(&document, b"DefaultRGB").is_some());
    let name = Object::Name(b"DefaultRGB".to_vec());
    assert_eq!(
        resources.resolve_space(&document, &name, &space_kind),
        Some(ColorSpaceKind::DeviceGray)
    );
}

#[test]
fn drawing_restores_the_state_and_closes_optional_content() {
    let mut visible = OcgState::dummy(true);
    visible.begin_resolved(group(7));
    assert_eq!(
        draw_image(&mut visible, ImageKind::Image, true, true),
        [
            DrawAction::SaveState,
            DrawAction::ConcatPixels,
            DrawAction::PushGroupWithoutMask,
            DrawAction::DrawRaster,
            DrawAction::PopGroup,
            DrawAction::RestoreState,
            DrawAction::EndOptionalContent,
        ]
    );
    assert_eq!(visible.marked_content_depth(), 0);
    let mut hidden = OcgState::dummy(false);
    hidden.inactive_ocgs.push(identifier(7));
    hidden.begin_resolved(group(7));
    assert_eq!(draw_form(&mut hidden, true), [DrawAction::EndNesting]);
    assert_eq!(hidden.marked_content_depth(), 0);
    assert_eq!(
        draw_form(&mut hidden, false),
        [DrawAction::TruncatePath, DrawAction::DrawForm, DrawAction::EndNesting]
    );
}

#[test]
fn images_take_their_own_intent_unless_they_are_stencils() {
    let failed = Some(Err(ColorConversionError::InvalidIntent));
    for (kind, declared, outcome) in [
        (ImageKind::Image, Some(Ok(false)), IntentOutcome::Own),
        (ImageKind::Image, Some(Ok(true)), IntentOutcome::Unknown),
        (ImageKind::Image, None, IntentOutcome::Inherited),
        (
            ImageKind::Image,
            failed,
            IntentOutcome::Failed(ColorConversionError::InvalidIntent),
        ),
        (ImageKind::StencilMask, failed, IntentOutcome::Inherited),
    ] {
        assert_eq!(select_intent(kind, declared), outcome);
    }
    assert_eq!(intent_warning(IntentOutcome::Own), None);
    assert_eq!(
        intent_warning(IntentOutcome::Unknown),
        Some(InterpreterWarning::RenderingIntentUnknown)
    );
}

fn tiling(entries: &str) -> Option<TilingPattern> {
    let source = format!("<< {entries} /Length 0 >> stream\n\nendstream");
    let Object::Stream(stream) = read_object(source.as_bytes()) else {
        panic!("stream")
    };
    let degenerate = Degenerate {
        step: |bits: u32| f32::from_bits(bits).abs() < f32::EPSILON,
        area: |area: Rectangle| {
            f32::from_bits(area.x0) == f32::from_bits(area.x1)
                || f32::from_bits(area.y0) == f32::from_bits(area.y1)
        },
    };
    TilingPattern::new(&no_objects(), &stream, &degenerate)
}

#[test]
fn tiling_patterns_are_validated_and_normalized() {
    let entries = "/BBox [10 20 0 5] /XStep 3 /YStep -4 /PaintType 2 /TilingType 3";
    let pattern = tiling(entries).unwrap();
    let [x0, y0, x1, y1] = [0.0, 5.0, 10.0, 20.0].map(f32::to_bits);
    assert_eq!(pattern.bbox, Rectangle { x0, y0, x1, y1 });
    assert_eq!(pattern.tiling_type(), 3);
    assert!(!pattern.is_colored());
    assert_eq!(pattern.uncolored_base_color(true, &1, &2), Some(&1));
    assert_eq!(pattern.uncolored_base_color(false, &1, &2), Some(&2));
    assert_eq!(
        pattern.interpret_with_bbox_clip(true, true),
        [CellAction::PushClip, CellAction::InterpretWithStroke, CellAction::PopClip]
    );
    assert_eq!(pattern.select_transfer(true, true), TransferEffect::Defer);
    assert_eq!(pattern.select_transfer(false, true), TransferEffect::ApplyToPaints);
    let colored = tiling(&entries.replace("/PaintType 2", "/PaintType 1")).unwrap();
    assert_eq!(colored.uncolored_base_color(true, &1, &2), None);
    assert_eq!(colored.interpret_with_bbox_clip(true, false), [CellAction::Interpret]);
    assert_eq!(colored.select_transfer(true, true), TransferEffect::ForgetDeferred);
    assert_eq!(colored.select_transfer(false, true), TransferEffect::Nothing);
    for (old, new) in [
        ("/XStep 3", "/XStep 0"),
        ("/YStep -4", ""),
        ("/PaintType 2", "/PaintType 3"),
        ("/TilingType 3", "/TilingType 4"),
        ("[10 20 0 5]", "[10 20 10 5]"),
    ] {
        assert!(tiling(&entries.replace(old, new)).is_none(), "{new}");
    }
}

#[test]
fn cells_of_uncolored_patterns_paint_paths_and_stencils_only() {
    for (call, passage) in [
        (DeviceCall::DrawPath, Passage::Repainted),
        (DeviceCall::DrawStencil, Passage::Repainted),
        (DeviceCall::DrawRaster, Passage::Dropped),
        (DeviceCall::PushTransparencyGroup, Passage::Dropped),
        (DeviceCall::PopTransparencyGroup, Passage::Dropped),
        (DeviceCall::DrawGlyphRun, Passage::Unchanged),
        (DeviceCall::Structure, Passage::Unchanged),
    ] {
        assert_eq!(stencil_passage(call), passage);
    }
}

#[test]
fn shading_patterns_take_the_transfer_of_their_own_state() {
    let document = no_objects();
    let dict = read_dict(b"<< /Shading << >> /ExtGState << /TR /Identity >> >>");
    let pattern = ShadingPattern::new(&document, &dict).unwrap();
    assert!(pattern.background_applies);
    assert_eq!(pattern.transfer.unwrap().0, "TR");
    let dict = read_dict(b"<< /Shading 5 >>");
    assert!(ShadingPattern::new(&document, &dict).is_none());
}

#[test]
fn stroke_parameters_change_only_what_they_name() {
    let mut props = StrokeProps::default();
    let width = StrokeParameter::from_key(b"LW").unwrap();
    assert!(props.set_stroke_parameter(width, Some(read_number(b"2.5"))));
    assert_eq!(props.line_width, f32::to_bits(2.5));
    let cap = StrokeParameter::from_key(b"LC").unwrap();
    assert!(!props.set_stroke_parameter(cap, Some(read_number(b"1.0"))));
    assert!(!props.set_stroke_parameter(cap, None));
    assert_eq!((props.line_cap, props.line_join), (Cap::Butt, Join::Miter));
    assert_eq!(props.miter_limit, f32::to_bits(10.0));
    assert!(StrokeParameter::from_key(b"XX").is_none());
    let lengths = dash_operands(&no_objects(), &read_array(b"[0 3 /Bad 5]"));
    assert_eq!(lengths.as_slice().len(), 2);
    assert!(f32::from_bits(lengths.as_slice()[0]) > 0.0);
    assert_eq!(lengths.as_slice()[1], f32::to_bits(3.0));
    let many = dash_operands(&no_objects(), &read_array(b"[1 2 3 4 5 6]"));
    assert_eq!(many.as_slice(), [1.0, 2.0, 3.0, 4.0, 5.0, 6.0].map(f32::to_bits));
    assert_eq!(many.clone().as_slice(), many.as_slice());
}

#[test]
fn glyph_runs_alternate_strings_and_adjustments() {
    let steps = glyph_steps(&no_objects(), &read_array(b"[(a) -120 /Skip (b) 9 0 R (c)]"));
    assert_eq!(
        steps,
        [
            GlyphStep::Append(0),
            GlyphStep::Adjust(f32::to_bits(-120.0)),
            GlyphStep::Append(3),
        ]
    );
}

#[test]
fn rendering_modes_and_blend_modes_have_defaults() {
    assert_eq!(TextRenderingMode::from_code(2), TextRenderingMode::FillStroke);
    assert_eq!(TextRenderingMode::from_code(7), TextRenderingMode::Clip);
    assert_eq!(TextRenderingMode::from_code(8), TextRenderingMode::Fill);
    assert_eq!(TextRenderingMode::from_code(-1), TextRenderingMode::Fill);
    assert_eq!(BlendMode::default(), BlendMode::Normal);
}

#[test]
fn cancelled_scopes_do_nothing_and_close_their_states() {
    let mut ocg_state = OcgState::dummy(false);
    let mut scope = Scope::new(1, &ocg_state);
    let facts = Facts { cancelled: true, ..Recording::default().facts() };
    assert!(scope.interpret(&mut ocg_state, Instruction::SaveState, facts).is_none());
    let facts = Facts { cancelled: false, ..facts };
    let actions = scope
        .interpret(&mut ocg_state, Instruction::DeviceColor(Target::Stroke, DeviceSpace::Rgb), facts)
        .unwrap();
    assert!(actions.contains(&Action::SetDeviceColor(Target::Stroke, DeviceSpace::Rgb)));
    let actions = scope.finish(&mut ocg_state, facts, 3);
    let restored = actions.iter().filter(|action| **action == Action::RestoreState).count();
    assert_eq!(restored, 2);
}

#[test]
fn runs_leave_things_as_they_found_them_wherever_they_stop() {
    let document = no_objects();
    let resources = read_dict(b"<< >>");
    let instructions = [
        Instruction::BeginMarkedContent,
        Instruction::BeginText,
        Instruction::BeginMarkedContentWithProperties,
        Instruction::EndText,
        Instruction::EndMarkedContent,
        Instruction::EndMarkedContent,
        Instruction::EndMarkedContent,
        Instruction::BeginText,
        Instruction::BeginText,
        Instruction::BeginMarkedContentWithProperties,
        rectangle(),
        Instruction::BeginMarkedContent,
    ];
    for stop in 0..=instructions.len() {
        for cancelled in [false, true] {
            let mut ocg_state = OcgState::dummy(false);
            ocg_state.begin_marked_content();
            let depth = ocg_state.marked_content_depth();
            let mut scope = Scope::new(2, &ocg_state);
            let mut actions = Vec::new();
            let facts = Recording::default().facts();
            for instruction in &instructions[..stop] {
                actions.extend(scope.interpret(&mut ocg_state, *instruction, facts).unwrap());
                if *instruction == Instruction::BeginMarkedContentWithProperties {
                    ocg_state.begin_marked_content_with_properties(
                        &document,
                        &resources,
                        &Object::Name(b"Missing".to_vec()),
                        default_limits(),
                        &decode_metadata,
                    );
                }
            }
            actions.extend(scope.finish(&mut ocg_state, Facts { cancelled, ..facts }, 5));
            let times = |action: Action| actions.iter().filter(|other| **other == action).count();
            assert_eq!(times(Action::BeginTextObject), times(Action::EndTextObject));
            assert_eq!(
                times(Action::BeginMarkedContent)
                    + times(Action::BeginMarkedContentWithProperties),
                times(Action::EndMarkedContent)
            );
            assert_eq!(times(Action::RestoreState), 3);
            assert_eq!(ocg_state.marked_content_depth(), depth);
        }
    }
}

fn geometry(draws: u64) -> AnnotationGeometryBudget {
    AnnotationGeometryBudget { verbs: 9, draws, bytes: 9, intersections: 9 }
}

#[test]
fn annotations_start_by_visibility_and_fall_back_in_order() {
    let document = document(&membership_pdf("/Annots[<</OC 4 0 R>> 5 0 R 7 <<>>]", true));
    let page = indirect_dict(&document, 3);
    let settings = InterpreterSettings::default();
    let list = annotations(&document, page, &settings);
    assert_eq!(list.len(), 2);
    let off = InterpreterSettings { render_annotations: false, ..settings };
    assert!(annotations(&document, page, &off).is_empty());

    let mut pass = AnnotationPass::new(&settings, geometry(5));
    let mut ocg_state = OcgState::dummy(false);
    let mut never = Polled::new(|| false);
    assert!(matches!(
        pass.start(&mut ocg_state, &document, list[0], true, None, true, &mut never),
        AnnotationStart::Stop
    ));
    assert!(matches!(
        pass.start(&mut ocg_state, &document, list[0], false, None, false, &mut never),
        AnnotationStart::Hidden
    ));
    assert!(matches!(
        pass.start(&mut ocg_state, &document, list[0], false, Some(geometry(3)), true, &mut never),
        AnnotationStart::Draw { expression: Some(_), begins_optional_content: false }
    ));
    assert_eq!(pass.geometry_budget, geometry(3));
    assert!(!pass.end(&mut ocg_state, true));
    assert_eq!(ocg_state.marked_content_depth(), 0);
    ocg_state.inactive_ocgs.push(identifier(4));
    assert!(matches!(
        pass.start(&mut ocg_state, &document, list[0], false, None, true, &mut never),
        AnnotationStart::Invisible { ends_optional_content: false }
    ));
    assert!(matches!(
        pass.start(&mut ocg_state, &document, list[0], false, None, true, &mut Polled::new(|| true)),
        AnnotationStart::Failed(InterpreterWarning::AnnotationOptionalContentFailure(
            OptionalContentError::Cancelled
        ))
    ));

    assert_eq!(
        pass.react(Stage::Appearance, Finding::Absent),
        (Stage::LinkBorder, Reaction::Nothing)
    );
    assert_eq!(
        pass.react(Stage::LinkBorder, Finding::Absent),
        (Stage::TextMarkup, Reaction::Nothing)
    );
    assert_eq!(
        pass.react(Stage::TextMarkup, Finding::Visible(6)),
        (Stage::Done, Reaction::Draw)
    );
    assert_eq!(pass.remaining_markup_quads, 65_530);
    let error = AnnotationError(3);
    assert_eq!(
        pass.react(Stage::Geometry, Finding::Failed(error)),
        (Stage::Done, Reaction::Warn(InterpreterWarning::GeometricAnnotationFailure(error)))
    );
}

#[test]
fn catalogs_turn_groups_off_by_default() {
    let document = no_objects();
    let catalog = read_dict(
        b"<</OCProperties<</OCGs[4 0 R 5 0 R]/D<</BaseState/OFF/ON[5 0 R]>>>>>>",
    );
    let mut state = OcgState::from_catalog(&document, &catalog, false);
    assert_eq!(state.inactive_ocgs, [identifier(4)]);
    state.begin_resolved(OptionalContentExpression::Not(Box::new(group(4))));
    assert!(state.is_visible());
    state.begin_resolved(group(4));
    assert!(!state.is_visible());
    // What stands in a hidden sequence is hidden.
    state.begin_marked_content();
    assert!(!state.is_visible());
    assert_eq!(state.marked_content_depth(), 3);
    assert!(!state.end_marked_content());
}

#[test]
fn images_with_unusable_intents_are_reported_and_not_drawn() {
    let state = OcgState::dummy(false);
    let start = |kind: ImageKind,
                 declared: Option<Result<bool, ColorConversionError>>,
                 failure: Option<ColorConversionError>| {
        let start = start_image(&state, kind, declared, &|_: IntentOutcome| failure);
        (start.warnings, start.intent)
    };
    let error = ColorConversionError::InvalidIntent;
    let conversion = InterpreterWarning::ColorConversion(error);
    let unknown = InterpreterWarning::RenderingIntentUnknown;
    assert_eq!(
        start(ImageKind::Image, None, None),
        (vec![], Some(IntentOutcome::Inherited))
    );
    assert_eq!(
        start(ImageKind::Image, Some(Ok(false)), None),
        (vec![], Some(IntentOutcome::Own))
    );
    assert_eq!(
        start(ImageKind::Image, Some(Ok(true)), None),
        (vec![unknown], Some(IntentOutcome::Unknown))
    );
    assert_eq!(start(ImageKind::Image, Some(Err(error)), None), (vec![conversion], None));
    assert_eq!(
        start(ImageKind::Image, Some(Ok(true)), Some(error)),
        (vec![unknown, conversion], None)
    );
    assert_eq!(
        start(ImageKind::StencilMask, Some(Err(error)), Some(error)),
        (vec![], Some(IntentOutcome::Inherited))
    );
    let mut hidden = OcgState::dummy(false);
    hidden.begin_unresolved_optional_content();
    let nothing = start_image(&hidden, ImageKind::Image, None, &|_: IntentOutcome| None);
    assert_eq!(nothing.intent.is_some(), hidden.is_visible());
}

#[test]
fn fonts_are_kept_once_found_and_helvetica_stands_in_for_unknown_ones() {
    for (cached, in_resources, choice) in [
        (true, true, FontChoice::ResolveCached),
        (true, false, FontChoice::ResolveCached),
        (false, true, FontChoice::KeepAndResolve),
        (false, false, FontChoice::Fallback),
    ] {
        assert_eq!(select_font(cached, in_resources), choice);
        let mut ocg_state = OcgState::dummy(false);
        let mut scope = Scope::new(1, &ocg_state);
        let facts = Facts {
            font_is_cached: cached,
            font_in_resources: in_resources,
            ..Recording::default().facts()
        };
        let actions = scope.interpret(&mut ocg_state, Instruction::TextFont, facts).unwrap();
        assert_eq!(actions, [Action::SelectFont(choice)]);
    }
}
