//! JBIG2 decoding.

use hayro_core::bits::Reader;
use hayro_core::jbig2::arithmetic_decoder::{ArithmeticDecoder, ArithmeticDecoderContext};
use hayro_core::jbig2::bitmap::Bitmap;
use hayro_core::jbig2::error::{DecodeError, FormatError, HuffmanError, ParseError, SegmentError};
use hayro_core::jbig2::generic_extended::{self, AdaptiveTemplatePixel};
use hayro_core::jbig2::generic_refinement::{
    self, RefinementContextGatherer, RefinementTemplate,
};
use hayro_core::jbig2::huffman_codes::TableLine;
use hayro_core::jbig2::huffman_table::HuffmanTable;
use hayro_core::jbig2::pdf;
use hayro_core::jbig2::region::CombinationOperator;
use hayro_core::jbig2::segment::{
    parse_segment_header, parse_segments_sequential, SegmentType,
};
use hayro_core::jbig2::standard_tables::StandardHuffmanTables;

fn sample(bitmap: &Bitmap, x: i64, y: i64) -> u16 {
    if x < 0 || y < 0 || x >= i64::from(bitmap.width) || y >= i64::from(bitmap.height) {
        0
    } else {
        u16::from(bitmap.get_pixel(x as u32, y as u32))
    }
}

// Context bits follow T.88 Figures 12 and 13 in reading order. The adaptive pixel keeps its bit
// when its coordinates move.
#[test]
fn shifted_contexts_and_typical_prediction_match_scalar_sampling() {
    let default = [AdaptiveTemplatePixel { x: -1, y: -1 }; 2];
    let custom = [
        AdaptiveTemplatePixel { x: -2, y: 0 },
        AdaptiveTemplatePixel { x: 2, y: 1 },
    ];
    let extreme_at = [
        AdaptiveTemplatePixel { x: -128, y: -128 },
        AdaptiveTemplatePixel { x: 127, y: 127 },
    ];
    let mut reference = Bitmap::new(97, 9).unwrap();
    for y in 0..reference.height {
        for x in 0..reference.width {
            reference.set_pixel(x, y, u8::from((x * 7 + y * 3 + x * y) % 5 != 0));
        }
    }
    for (template, at) in [
        (RefinementTemplate::Template0, default),
        (RefinementTemplate::Template0, custom),
        (RefinementTemplate::Template0, extreme_at),
        (RefinementTemplate::Template1, default),
    ] {
        for dx in [
            i32::MIN,
            -97,
            -64,
            -33,
            -32,
            -31,
            -1,
            0,
            1,
            31,
            32,
            33,
            64,
            97,
            i32::MAX,
        ] {
            for dy in [i32::MIN, -10, -1, 0, 1, 10, i32::MAX] {
                let mut region = Bitmap::new(67, 7).unwrap();
                let mut gatherer = RefinementContextGatherer::new(template, &at, dx, dy);
                for y in 0..region.height {
                    gatherer.start_row(&region, &reference, y);
                    for x in 0..region.width {
                        gatherer.maybe_reload_buffers(&region, &reference, x);
                        let actual = match template {
                            RefinementTemplate::Template0 if gatherer.use_default_at => {
                                gatherer.gather_template0_default(&region, &reference, x)
                            }
                            RefinementTemplate::Template0 => {
                                gatherer.gather_template0_custom(&region, &reference, x)
                            }
                            RefinementTemplate::Template1 => {
                                gatherer.gather_template1(&region, &reference, x)
                            }
                        };
                        let (xi, yi) = (i64::from(x), i64::from(y));
                        let (rx, ry) = (xi - i64::from(dx), yi - i64::from(dy));
                        let mut expected = 0;
                        let (ax, ay) = if template == RefinementTemplate::Template0 {
                            (i64::from(at[0].x), i64::from(at[0].y))
                        } else {
                            (-1, -1)
                        };
                        for (ox, oy) in [(ax, ay), (0, -1), (1, -1), (-1, 0)] {
                            expected = (expected << 1) | sample(&region, xi + ox, yi + oy);
                        }
                        let t0 = [
                            (i64::from(at[1].x), i64::from(at[1].y)),
                            (0, -1),
                            (1, -1),
                            (-1, 0),
                            (0, 0),
                            (1, 0),
                            (-1, 1),
                            (0, 1),
                            (1, 1),
                        ];
                        let t1 = [(0, -1), (-1, 0), (0, 0), (1, 0), (0, 1), (1, 1)];
                        let points: &[(i64, i64)] = if template == RefinementTemplate::Template0 {
                            &t0
                        } else {
                            &t1
                        };
                        for &(ox, oy) in points {
                            expected = (expected << 1) | sample(&reference, rx + ox, ry + oy);
                        }
                        assert_eq!(
                            actual, expected,
                            "{template:?} {at:?} offset {dx},{dy} pixel {x},{y}"
                        );
                        let center = sample(&reference, rx, ry);
                        let uniform = (-1..=1).all(|oy| {
                            (-1..=1).all(|ox| sample(&reference, rx + ox, ry + oy) == center)
                        });
                        assert_eq!(gatherer.tpgr_all_same(x), uniform);
                        assert_eq!(u16::from(gatherer.ref_center_pixel(x)), center);
                        let value = u8::from((x * 3 + y * 5 + x * y) % 7 < 3);
                        region.set_pixel(x, y, value);
                        gatherer.update_current_row(x, value);
                    }
                }
            }
        }
    }
}

fn encoded_value(prefix: &str, offset: Option<u32>) -> Vec<u8> {
    let suffix = offset.map(|value| format!("{value:032b}"));
    let bits: String = prefix
        .chars()
        .chain(suffix.iter().flat_map(|s| s.chars()))
        .collect();
    let mut bytes = vec![0; bits.len().div_ceil(8)];
    for (i, bit) in bits.bytes().enumerate() {
        bytes[i / 8] |= (bit - b'0') << (7 - i % 8);
    }
    bytes
}

#[test]
fn huffman_integer_standard_values_are_exact_at_signed_limits() {
    let tables = StandardHuffmanTables::new();
    let table = tables.table_o();
    // Explicit Table B.15 prefixes and unsigned suffixes from Annex B.
    for (prefix, offset, expected) in [
        ("1111110", 0, -25),
        ("1111110", 2_147_483_622, -2_147_483_647),
        ("1111110", 2_147_483_623, i32::MIN),
        ("1111111", 0, 25),
        ("1111111", 2_147_483_621, 2_147_483_646),
        ("1111111", 2_147_483_622, i32::MAX),
    ] {
        let data = encoded_value(prefix, Some(offset));
        assert_eq!(table.decode(&mut Reader::new(&data)), Ok(Some(expected)));
    }
    for (prefix, offset) in [
        ("1111110", 2_147_483_624),
        ("1111111", 2_147_483_623),
        ("1111110", 2_147_483_648),
        ("1111111", 2_147_483_648),
        ("1111110", u32::MAX),
        ("1111111", u32::MAX),
    ] {
        let data = encoded_value(prefix, Some(offset));
        assert!(table.decode(&mut Reader::new(&data)).is_err());
    }
}

#[test]
fn huffman_integer_custom_offsets_keep_the_unsigned_high_bit() {
    let lower = HuffmanTable::build(&[TableLine::lower(2_147_483_645, 1, 32)]).unwrap();
    let upper = HuffmanTable::build(&[TableLine::upper(-2_147_483_646, 1, 32)]).unwrap();
    for (offset, expected_lower, expected_upper) in [
        (0, 2_147_483_645, -2_147_483_646),
        (2_147_483_647, -2, 1),
        (2_147_483_648, -3, 2),
        (4_294_967_293, i32::MIN, i32::MAX),
    ] {
        let data = encoded_value("0", Some(offset));
        assert_eq!(
            lower.decode(&mut Reader::new(&data)),
            Ok(Some(expected_lower))
        );
        assert_eq!(
            upper.decode(&mut Reader::new(&data)),
            Ok(Some(expected_upper))
        );
    }
    for offset in [4_294_967_294, u32::MAX] {
        let data = encoded_value("0", Some(offset));
        assert!(lower.decode(&mut Reader::new(&data)).is_err());
        assert!(upper.decode(&mut Reader::new(&data)).is_err());
    }
    let impossible = HuffmanTable::build(&[TableLine::lower(-2_147_483_649, 1, 32)]).unwrap();
    for offset in [0, u32::MAX] {
        assert!(
            impossible
                .decode(&mut Reader::new(&encoded_value("0", Some(offset))))
                .is_err()
        );
    }
}

#[test]
fn huffman_integer_prefix_space_assigns_every_code_once() {
    let lines: Vec<_> = (0..33)
        .map(|value| TableLine::new(value, (value + 1).min(32) as u8, 0))
        .collect();
    let table = HuffmanTable::build(&lines).unwrap();
    for value in 0..33 {
        let mut prefix = "1".repeat(value as usize);
        if value < 32 {
            prefix.push('0');
        }
        let data = encoded_value(&prefix, None);
        assert_eq!(table.decode(&mut Reader::new(&data)), Ok(Some(value)));
    }
    for lengths in [&[1, 1, 1][..], &[2, 2, 2, 2, 2], &[1, 2, 2, 2]] {
        let invalid: Vec<_> = lengths
            .iter()
            .map(|length| TableLine::new(0, *length, 0))
            .collect();
        assert!(HuffmanTable::build(&invalid).is_err());
    }
}

struct ValueCase {
    table: &'static [u8],
    code: &'static str,
    value: i32,
}
const VALUES: &[ValueCase] = &[
    // overshoot-upper-t0
    ValueCase {
        table: &[114, 0, 0, 0, 0, 0, 0, 0, 3, 64, 132],
        code: "100000000000000000000000000000000",
        value: 3,
    },
    // overshoot-normal-t0
    ValueCase {
        table: &[114, 0, 0, 0, 0, 0, 0, 0, 3, 64, 132],
        code: "001",
        value: 1,
    },
    // multiline-upper-t0
    ValueCase {
        table: &[114, 0, 0, 0, 0, 0, 0, 0, 5, 128, 96, 33],
        code: "000000000000000000000000000000000",
        value: 5,
    },
    // multiline-normal-t0
    ValueCase {
        table: &[114, 0, 0, 0, 0, 0, 0, 0, 5, 128, 96, 33],
        code: "1101",
        value: 3,
    },
    // negative-upper-t0
    ValueCase {
        table: &[114, 255, 255, 255, 253, 0, 0, 0, 0, 64, 132],
        code: "100000000000000000000000000000000",
        value: 0,
    },
    // negative-normal-t0
    ValueCase {
        table: &[114, 255, 255, 255, 253, 0, 0, 0, 0, 64, 132],
        code: "010",
        value: -1,
    },
    // terminal31-normal-t0
    ValueCase {
        table: &[114, 0, 0, 0, 0, 127, 255, 255, 255, 71, 196],
        code: "00000000000000000000000000000001",
        value: 1,
    },
    // terminal31-upper-t0
    ValueCase {
        table: &[114, 0, 0, 0, 0, 127, 255, 255, 255, 71, 196],
        code: "100000000000000000000000000000000",
        value: 2147483647,
    },
    // terminal32-min-t0
    ValueCase {
        table: &[114, 128, 0, 0, 0, 127, 255, 255, 255, 72, 4],
        code: "000000000000000000000000000000000",
        value: -2147483648,
    },
    // terminal32-zero-t0
    ValueCase {
        table: &[114, 128, 0, 0, 0, 127, 255, 255, 255, 72, 4],
        code: "010000000000000000000000000000000",
        value: 0,
    },
    // terminal32-max-previous-t0
    ValueCase {
        table: &[114, 128, 0, 0, 0, 127, 255, 255, 255, 72, 4],
        code: "011111111111111111111111111111110",
        value: 2147483646,
    },
    // terminal32-upper-t0
    ValueCase {
        table: &[114, 128, 0, 0, 0, 127, 255, 255, 255, 72, 4],
        code: "100000000000000000000000000000000",
        value: 2147483647,
    },
    // wide33-normal-t0
    ValueCase {
        table: &[114, 128, 0, 0, 0, 127, 255, 255, 255, 72, 68],
        code: "0010000000000000000000000000000000",
        value: 0,
    },
    // wide64-normal-t0
    ValueCase {
        table: &[114, 128, 0, 0, 0, 127, 255, 255, 255, 80, 4],
        code: "00000000000000000000000000000000010000000000000000000000000000000",
        value: 0,
    },
    // wide255-normal-t0
    ValueCase {
        table: &[114, 128, 0, 0, 0, 127, 255, 255, 255, 127, 196],
        code: "0000000000000000000000000000000000000000000000000000000000000000000000000000000000000000000000000000000000000000000000000000000000000000000000000000000000000000000000000000000000000000000000000000000000000000000000000000000010000000000000000000000000000000",
        value: 0,
    },
    // unused255-upper-t0
    ValueCase {
        table: &[114, 0, 0, 0, 0, 0, 0, 0, 3, 63, 196],
        code: "000000000000000000000000000000000",
        value: 3,
    },
];
const INVALID_BOUNDS: &[&[u8]] = &[
    &[114, 0, 0, 0, 0, 0, 0, 0, 0, 16],
    &[114, 0, 0, 0, 1, 0, 0, 0, 0, 16],
    &[114, 0, 0, 0, 0, 0, 0, 0, 0, 64, 4],
    &[114, 0, 0, 0, 1, 0, 0, 0, 0, 64, 4],
];
const INVALID_VALUES: &[(&[u8], &str)] = &[
    (
        &[114, 0, 0, 0, 0, 0, 0, 0, 1, 72, 4],
        "010000000000000000000000000000000",
    ),
    (
        &[114, 128, 0, 0, 0, 127, 255, 255, 255, 72, 68],
        "0100000000000000000000000000000000",
    ),
    (
        &[114, 128, 0, 0, 0, 127, 255, 255, 255, 80, 4],
        "01000000000000000000000000000000000000000000000000000000000000000",
    ),
    (
        &[114, 128, 0, 0, 0, 127, 255, 255, 255, 80, 4],
        "00000000000000000000000000000000100000000000000000000000000000000",
    ),
    (
        &[114, 128, 0, 0, 0, 127, 255, 255, 255, 127, 196],
        "0100000000000000000000000000000000000000000000000000000000000000000000000000000000000000000000000000000000000000000000000000000000000000000000000000000000000000000000000000000000000000000000000000000000000000000000000000000000000000000000000000000000000000",
    ),
    (
        &[114, 128, 0, 0, 0, 127, 255, 255, 255, 127, 196],
        "0000000000000000000000000000000001000000000000000000000000000000000000000000000000000000000000000000000000000000000000000000000000000000000000000000000000000000000000000000000000000000000000000000000000000000000000000000000000000000000000000000000000000000",
    ),
    (
        &[114, 128, 0, 0, 0, 127, 255, 255, 255, 127, 196],
        "0000000000000000000000000000000000000000000000000000000000000000000000000000000000000000000000000000000000000000000000000000000000000000000000000000000000000000000000000000000000000000000000000000000000000000000000000000000100000000000000000000000000000000",
    ),
    (
        &[114, 127, 255, 255, 254, 127, 255, 255, 255, 64, 132],
        "010",
    ),
];
fn encoded(bits: &str) -> Vec<u8> {
    let mut bytes = vec![0; bits.len().div_ceil(8)];
    for (i, bit) in bits.bytes().enumerate() {
        bytes[i / 8] |= (bit - b'0') << (7 - i % 8);
    }
    bytes
}

#[test]
fn huffman_ranges_decode_exact_values_and_consume_complete_suffixes() {
    for case in VALUES {
        let table = HuffmanTable::read_custom(&mut Reader::new(case.table)).unwrap();
        let bits: String = [case.code, case.code, "10100101"].concat();
        let data = encoded(&bits);
        let mut reader = Reader::new(&data);
        assert_eq!(table.decode(&mut reader), Ok(Some(case.value)));
        assert_eq!(table.decode(&mut reader), Ok(Some(case.value)));
        assert_eq!(reader.read_bits(8), Some(0xa5));
    }
}

#[test]
fn huffman_ranges_reject_empty_and_reversed_declarations() {
    for data in INVALID_BOUNDS {
        assert!(HuffmanTable::read_custom(&mut Reader::new(data)).is_err());
    }
}

#[test]
fn huffman_ranges_reject_out_of_domain_values_after_parsing_valid_tables() {
    for (data, code) in INVALID_VALUES {
        let table = HuffmanTable::read_custom(&mut Reader::new(data)).unwrap();
        assert!(table.decode(&mut Reader::new(&encoded(code))).is_err());
    }
}

#[test]
fn huffman_ranges_require_complete_table_fields_and_numeric_suffixes() {
    for case in VALUES {
        for end in 0..case.table.len() {
            assert!(HuffmanTable::read_custom(&mut Reader::new(&case.table[..end])).is_err());
        }
        let table = HuffmanTable::read_custom(&mut Reader::new(case.table)).unwrap();
        let data = encoded(case.code);
        // Remove whole bytes so zero padding cannot restore an omitted suffix bit.
        for end in 0..data.len() {
            assert!(table.decode(&mut Reader::new(&data[..end])).is_err());
        }
    }
}

// Header-only controls cover every possible short byte and every final long
// retention byte, including completely occupied bytes at counts 7/15/23/31.
#[test]
fn segment_retentions_short_header_bytes() {
    for count in 0_u8..=4 {
        for flags in 0_u8..32 {
            let mut data = Vec::from(&[0, 0, 1, 0, 62, (count << 5) | flags][..]);
            data.extend(0..count);
            data.extend([1, 0, 0, 0, 0]);
            let mut reader = Reader::new(&data);
            let result = parse_segment_header(&mut reader);
            if u32::from(flags) < (1 << (count + 1)) {
                let header = result.unwrap();
                assert_eq!(
                    header.referred_to_segments,
                    (0..u32::from(count)).collect::<Vec<_>>()
                );
                assert_eq!(header.page_association, 1);
                assert!(reader.at_end());
            } else {
                assert_eq!(
                    result.unwrap_err(),
                    DecodeError::Format(FormatError::ReservedBits)
                );
            }
        }
    }
}

#[test]
fn segment_retentions_long_header_bytes_and_truncation() {
    for count in 5_u32..=65 {
        for last in 0_u8..=255 {
            let mut data = Vec::from(&[0, 1, 0, 1, 126][..]);
            data.extend_from_slice(&(0xE000_0000 | count).to_be_bytes());
            // Write one self flag and count reference flags, then byte padding.
            let mut flags = Vec::new();
            for bit in 0..=count {
                if bit % 8 == 0 {
                    flags.push(0_u8);
                }
                *flags.last_mut().unwrap() |= 1 << (bit % 8);
            }
            *flags.last_mut().unwrap() = last;
            data.extend(flags);
            for number in 0..count {
                data.extend_from_slice(&number.to_be_bytes());
            }
            data.extend([0, 0, 0, 1, 0, 0, 0, 0]);
            let mut reader = Reader::new(&data);
            let result = parse_segment_header(&mut reader);
            let used = (count + 1) % 8;
            if used == 0 || u32::from(last) < (1 << used) {
                let header = result.unwrap();
                assert_eq!(header.referred_to_segments, (0..count).collect::<Vec<_>>());
                assert_eq!(header.page_association, 1);
                assert_eq!(header.data_length, Some(0));
                assert!(reader.at_end());
                if last == 0 {
                    for end in 5..data.len() {
                        assert_eq!(
                            parse_segment_header(&mut Reader::new(&data[..end])).unwrap_err(),
                            DecodeError::Parse(ParseError::UnexpectedEof)
                        );
                    }
                }
            } else {
                assert_eq!(
                    result.unwrap_err(),
                    DecodeError::Format(FormatError::ReservedBits)
                );
            }
        }
    }
    let max_count = [0, 1, 0, 1, 62, 255, 255, 255, 255];
    assert_eq!(
        parse_segment_header(&mut Reader::new(&max_count)).unwrap_err(),
        DecodeError::Parse(ParseError::UnexpectedEof)
    );
}

// Payloads stand in for encoded pixels: headers do not look at them.
const TARGET: &[u8] = &[0x12, 0x34, 0x56, 0x78, 0x9a];
const REFERENCE: &[u8] = &[0xbc, 0xde, 0xf0, 0x11];

fn refinement_segment(number: u8, kind: u8, payload: &[u8], refs: &[u8]) -> Vec<u8> {
    let mut data = vec![0, 0, 0, number, kind];
    if refs.len() < 5 {
        let retain = ((1_u16 << (refs.len() + 1)) - 1) as u8;
        data.push(((refs.len() as u8) << 5) | retain);
    } else {
        data.extend((0xe000_0000 | refs.len() as u32).to_be_bytes());
        for start in (0..=refs.len()).step_by(8) {
            let bits = (refs.len() + 1 - start).min(8);
            data.push(((1_u16 << bits) - 1) as u8);
        }
    }
    data.extend(refs);
    data.push(1);
    data.extend((payload.len() as u32).to_be_bytes());
    data.extend(payload);
    data
}

fn refinement_page(w: u32, h: u32, flags: u8) -> Vec<u8> {
    let mut data = Vec::new();
    for value in [w, h, 0, 0] {
        data.extend(value.to_be_bytes());
    }
    data.extend([flags, 0, 0]);
    refinement_segment(1, 48, &data, &[])
}

fn region(rect: [u32; 4], op: u8, header: &[u8], encoded: &[u8]) -> Vec<u8> {
    let mut data = Vec::new();
    for value in rect {
        data.extend(value.to_be_bytes());
    }
    data.push(op);
    data.extend(header);
    data.extend(encoded);
    data
}

fn generic(number: u8, rect: [u32; 4], op: u8, intermediate: bool, data: &[u8]) -> Vec<u8> {
    refinement_segment(
        number,
        if intermediate { 36 } else { 39 },
        &region(rect, op, &[0, 3, 255, 253, 255, 2, 254, 254, 254], data),
        &[],
    )
}

fn refine(number: u8, kind: u8, rect: [u32; 4], op: u8, refs: &[u8], data: &[u8]) -> Vec<u8> {
    refinement_segment(
        number,
        kind,
        &region(rect, op, &[0, 255, 255, 255, 255], data),
        refs,
    )
}

#[test]
fn pdf_rejects_wrong_reference_types_counts_reuse_and_orphans() {
    let rect = [9, 7, 4, 2];
    let aux = generic(2, rect, 4, true, REFERENCE);
    for parts in [
        vec![aux.clone()],
        vec![refine(2, 40, rect, 4, &[], TARGET)],
        vec![
            generic(2, rect, 4, false, REFERENCE),
            refine(3, 43, rect, 4, &[2], TARGET),
        ],
        vec![
            refinement_segment(2, 0, &[], &[]),
            refine(3, 43, rect, 4, &[2], TARGET),
        ],
        vec![
            aux.clone(),
            refine(3, 43, rect, 4, &[2], TARGET),
            refine(4, 43, rect, 4, &[2], TARGET),
        ],
        vec![aux.clone(), refine(3, 43, rect, 4, &[2, 2], TARGET)],
        vec![aux.clone(), refine(3, 40, rect, 4, &[2], TARGET)],
        vec![refine(2, 43, rect, 0, &[], TARGET)],
    ] {
        let bytes = [refinement_page(17, 11, 99), parts.concat()].concat();
        assert!(pdf::parse(&bytes, None).is_err());
    }
    // Extension references do not consume auxiliary buffers (T.88 §7.3.1).
    let bytes = [
        refinement_page(17, 11, 99),
        aux,
        refinement_segment(3, 62, &[0x20, 0, 0, 0, 0], &[2]),
        refine(4, 43, rect, 4, &[2], TARGET),
    ]
    .concat();
    assert!(pdf::parse(&bytes, None).is_ok());
}

#[test]
fn pdf_enforces_segment_reference_contracts_and_table_caps() {
    for kind in [16, 36, 38, 39, 48, 50, 52, 53] {
        let bytes = [
            refinement_page(17, 11, 99),
            refinement_segment(2, 0, &[], &[]),
            refinement_segment(3, kind, &[], &[2]),
        ]
        .concat();
        assert!(
            pdf::parse(&bytes, None).is_err(),
            "kind {kind}"
        );
    }
    for kind in [20, 22, 23] {
        for refs in [&[][..], &[2][..], &[2, 2][..]] {
            let bytes = [
                refinement_page(17, 11, 99),
                refinement_segment(2, 0, &[], &[]),
                refinement_segment(3, kind, &[], refs),
            ]
            .concat();
            assert!(pdf::parse(&bytes, None).is_err());
        }
    }
    for (kind, cap) in [(0, 4), (4, 8), (6, 8), (7, 8)] {
        for count in [cap, cap + 1] {
            let mut parts = vec![refinement_page(17, 11, 99)];
            for index in 0..count {
                parts.push(refinement_segment(index + 2, 53, &[], &[]));
            }
            let refs: Vec<_> = (2..count + 2).collect();
            parts.push(refinement_segment(20, kind, &region([9, 7, 4, 2], 4, &[], &[]), &refs));
            if kind == 4 {
                parts.push(refine(21, 43, [9, 7, 4, 2], 4, &[20], TARGET));
            }
            assert_eq!(
                pdf::parse(&parts.concat(), None).is_ok(),
                count == cap
            );
        }
    }
}

#[test]
fn refinement_rejects_reserved_flags_and_noncausal_target_at_pixels() {
    for header in [
        [4, 255, 255, 255, 255],
        [0, 0, 0, 255, 255],
        [0, 255, 1, 255, 255],
        [0, 1, 0, 255, 255],
    ] {
        let data = region([9, 7, 0, 0], 4, &header, TARGET);
        assert!(generic_refinement::parse(&mut Reader::new(&data)).is_err());
    }
    for at in [[254, 0, 2, 1], [128, 128, 127, 127]] {
        let header = [&[0][..], &at].concat();
        let data = region([9, 7, 0, 0], 4, &header, TARGET);
        assert!(generic_refinement::parse(&mut Reader::new(&data)).is_ok());
    }
}

#[test]
fn cropped_reference_masks_padding_and_clips_without_coordinate_wrap() {
    for default in [false, true] {
        let mut bitmap = Bitmap::new_with(73, 7, 0, 0, default).unwrap();
        if !default {
            for y in 0..7 {
                for x in 0..73 {
                    bitmap.set_pixel(x, y, u8::from((x * 7 + y * 3) % 5 != 0));
                }
            }
        }
        for x in [0, 1, 30, 31, 32, 64, 72, 73, 0x8000_0000, u32::MAX] {
            for y in [0, 2, 6, 7, u32::MAX] {
                for width in [1, 31, 32, 33, 73] {
                    let cropped = bitmap.crop(x, y, width, 9).unwrap();
                    for ry in 0..9 {
                        for rx in 0..width {
                            let sx = u64::from(x) + u64::from(rx);
                            let sy = u64::from(y) + u64::from(ry);
                            let expected = if sx < 73 && sy < 7 {
                                bitmap.get_pixel(sx as u32, sy as u32)
                            } else {
                                0
                            };
                            assert_eq!(cropped.get_pixel(rx, ry), expected);
                        }
                    }
                }
            }
        }
        let original = bitmap.data.clone();
        for (x, y) in [(u32::MAX - 4, 0), (0, u32::MAX - 4)] {
            bitmap.combine_region(
                &Bitmap::new_with(9, 7, x, y, !default).unwrap(),
                CombinationOperator::Replace,
            );
            assert_eq!(bitmap.data, original);
        }
    }
}

#[test]
fn pdf_requires_page_flags_and_honors_replace_exception() {
    for (flags, auxiliary) in [(97, false), (67, true), (227, false), (35, true)] {
        let bytes = [
            refinement_page(9, 7, flags),
            generic(2, [9, 7, 0, 0], 4, auxiliary, REFERENCE),
            refine(
                3,
                43,
                [9, 7, 0, 0],
                4,
                if auxiliary { &[2] } else { &[] },
                TARGET,
            ),
        ]
        .concat();
        assert!(pdf::parse(&bytes, None).is_err());
    }
    // No direct override is needed for a page refinement's mandated REPLACE.
    let bytes = [
        refinement_page(9, 7, 3),
        generic(2, [9, 7, 0, 0], 0, false, REFERENCE),
        refine(3, 43, [9, 7, 0, 0], 4, &[], TARGET),
    ]
    .concat();
    assert!(pdf::parse(&bytes, None).is_ok());
}

fn segment(number: u8, kind: u8, page: u8, payload: &[u8], refs: &[u8]) -> Vec<u8> {
    assert!(refs.len() < 5);
    let retain = ((1_u16 << (refs.len() + 1)) - 1) as u8;
    let mut bytes = vec![0, 0, 0, number, kind, ((refs.len() as u8) << 5) | retain];
    bytes.extend(refs);
    bytes.push(page);
    bytes.extend((payload.len() as u32).to_be_bytes());
    bytes.extend(payload);
    bytes
}

fn page(number: u8, association: u8) -> Vec<u8> {
    let mut payload = Vec::new();
    for value in [9_u32, 2, 0, 0] {
        payload.extend(value.to_be_bytes());
    }
    payload.extend([5, 0, 0]);
    segment(number, 48, association, &payload, &[])
}

#[test]
fn pdf_allows_unordered_segments_gaps_and_noncanonical_page_numbers() {
    for association in [1, 7] {
        let first = page(2, association);
        let stripe = segment(5, 50, association, &[0, 0, 0, 1], &[]);
        let global = segment(0, 0, 0, &[0, 1, 0, 0, 0, 0, 0, 0, 0, 0], &[]);
        let data = [stripe, first].concat();
        let segments = pdf::parse(&data, Some(&global)).unwrap();
        assert_eq!(segments[1].header.segment_type, SegmentType::PageInformation);
        assert_eq!(segments[1].data[..8], [0, 0, 0, 9, 0, 0, 0, 2]);
    }
}

#[test]
fn pdf_rejects_invalid_partition_and_page_structure() {
    let first = page(1, 1);
    let global = segment(0, 0, 0, &[], &[]);
    for data in [
        page(1, 0),
        [first.clone(), page(2, 2)].concat(),
        [first.clone(), page(2, 1)].concat(),
        [global, first.clone()].concat(),
        [segment(0, 0, 1, &[], &[]), first.clone()].concat(),
        [first.clone(), segment(2, 49, 1, &[], &[])].concat(),
        [first.clone(), segment(2, 51, 0, &[], &[])].concat(),
        [first.clone(), segment(2, 51, 1, &[], &[]), vec![0xff]].concat(),
        [vec![0xff, 0xaa], first.clone(), vec![0xff, 0xab]].concat(),
        [
            vec![0x97, b'J', b'B', b'2', 13, 10, 26, 10, 3],
            first.clone(),
        ]
        .concat(),
    ] {
        assert!(pdf::parse(&data, None).is_err(), "{data:?}");
    }
    for globals in [
        page(0, 0),
        segment(0, 0, 1, &[], &[]),
        segment(0, 50, 0, &[0, 0, 0, 1], &[]),
        segment(0, 51, 0, &[], &[]),
    ] {
        assert!(pdf::parse(&first, Some(&globals)).is_err());
    }
    // Other organizations keep their acceptance of end-of-page.
    let data = [first, segment(2, 49, 1, &[], &[])].concat();
    let segments = parse_segments_sequential(&data).unwrap();
    assert_eq!(segments[1].header.segment_type, SegmentType::EndOfPage);
}

#[test]
fn pdf_requires_unique_segments_and_existing_compatible_references() {
    let first = page(1, 1);
    for (data, globals) in [
        (first.clone(), segment(1, 0, 0, &[], &[])),
        (
            [first.clone(), segment(2, 0, 1, &[], &[0])].concat(),
            vec![],
        ),
        (first.clone(), segment(2, 0, 0, &[], &[1])),
        (
            [first.clone(), segment(2, 0, 1, &[], &[2])].concat(),
            vec![],
        ),
    ] {
        assert!(pdf::parse(&data, Some(&globals)).is_err());
    }
    let data = [segment(3, 0, 1, &[], &[0]), first].concat();
    let globals = segment(0, 0, 0, &[], &[]);
    assert!(pdf::parse(&data, Some(&globals)).is_ok());
}

#[test]
fn arithmetic_decoder_reads_the_test_sequence() {
    // The test sequence of T.88 H.2.
    let encoded = [
        0x84, 0xc7, 0x3b, 0xfc, 0xe1, 0xa1, 0x43, 0x04, 0x02, 0x20, 0x00, 0x00, 0x41, 0x0d, 0xbb,
        0x86, 0xf4, 0x31, 0x7f, 0xff, 0x88, 0xff, 0x37, 0x47, 0x1a, 0xdb, 0x6a, 0xdf, 0xff, 0xac,
    ];
    let expected = [
        0x00, 0x02, 0x00, 0x51, 0x00, 0x00, 0x00, 0xc0, 0x03, 0x52, 0x87, 0x2a, 0xaa, 0xaa, 0xaa,
        0xaa, 0x82, 0xc0, 0x20, 0x00, 0xfc, 0xd7, 0x9e, 0xf6, 0xbf, 0x7f, 0xed, 0x90, 0x4f, 0x46,
        0xa3, 0xbf,
    ];
    let mut decoder = ArithmeticDecoder::new(&encoded);
    let mut context = ArithmeticDecoderContext::new();
    let mut decoded = vec![0_u8; expected.len()];
    for bit in 0..expected.len() * 8 {
        decoded[bit / 8] |= (decoder.read_bit(&mut context) as u8) << (7 - bit % 8);
    }
    assert_eq!(decoded, expected);
}

#[test]
fn extended_template_repeats_typical_rows() {
    let pixels = [AdaptiveTemplatePixel { x: -1, y: -1 }; 12];
    let mut bitmap = Bitmap::new(8, 3).unwrap();
    let data = [0_u8; 4];
    let mut decoder = ArithmeticDecoder::new(&data);
    let mut contexts = vec![ArithmeticDecoderContext::new(); generic_extended::CONTEXT_COUNT];
    generic_extended::decode(&mut bitmap, &mut decoder, &mut contexts, true, &pixels);
    // Each row either repeats the row above or is coded: the widths stay.
    assert_eq!((bitmap.width, bitmap.height, bitmap.data.len()), (8, 3, 24));
    let mut again = Bitmap::new(8, 3).unwrap();
    let mut decoder = ArithmeticDecoder::new(&data);
    let mut contexts = vec![ArithmeticDecoderContext::new(); generic_extended::CONTEXT_COUNT];
    generic_extended::decode(&mut again, &mut decoder, &mut contexts, true, &pixels);
    assert_eq!(again.data, bitmap.data);
}

#[test]
fn out_of_band_codes_are_told_apart() {
    let table = HuffmanTable::build(&[TableLine::new(5, 1, 0), TableLine::oob(1)]).unwrap();
    assert!(table.has_out_of_band());
    assert_eq!(table.decode(&mut Reader::new(&[0x00])), Ok(Some(5)));
    assert_eq!(table.decode(&mut Reader::new(&[0x80])), Ok(None));
    assert_eq!(
        table.decode_no_oob(&mut Reader::new(&[0x80])),
        Err(DecodeError::Huffman(HuffmanError::UnexpectedOob))
    );
    assert_eq!(
        table.decode(&mut Reader::new(&[])),
        Err(DecodeError::Parse(ParseError::UnexpectedEof))
    );
    let uniform = HuffmanTable::build_uniform(4, 2).unwrap();
    for symbol in 0..4_u8 {
        assert_eq!(
            uniform.decode(&mut Reader::new(&[symbol << 6])),
            Ok(Some(i32::from(symbol)))
        );
    }
}

#[test]
fn regions_are_combined_by_their_operator() {
    for (operator, expected) in [
        (CombinationOperator::Or, [0, 1, 1, 1]),
        (CombinationOperator::And, [0, 0, 0, 1]),
        (CombinationOperator::Xor, [0, 1, 1, 0]),
        (CombinationOperator::Xnor, [1, 0, 0, 1]),
        (CombinationOperator::Replace, [0, 1, 0, 1]),
    ] {
        let mut page = Bitmap::new(4, 1).unwrap();
        let mut region = Bitmap::new(4, 1).unwrap();
        for (x, (a, b)) in [(0, 0), (0, 1), (1, 0), (1, 1)].into_iter().enumerate() {
            page.set_pixel(x as u32, 0, a);
            region.set_pixel(x as u32, 0, b);
        }
        page.combine_region(&region, operator);
        for (x, value) in expected.into_iter().enumerate() {
            assert_eq!(page.get_pixel(x as u32, 0), value, "{operator:?}");
        }
    }
    assert!(Bitmap::new(65_536, 1).is_err());
}

#[test]
fn unknown_segment_types_are_rejected() {
    let data = [0, 0, 0, 0, 1, 1, 1, 0, 0, 0, 0];
    assert_eq!(
        parse_segment_header(&mut Reader::new(&data)).unwrap_err(),
        DecodeError::Segment(SegmentError::UnknownType)
    );
}

#[test]
fn uniform_tables_decode_each_symbol_from_its_own_number() {
    for (symbols, length) in [(1, 1), (5, 3), (8, 3), (300, 9)] {
        let table = HuffmanTable::build_uniform(symbols, length).unwrap();
        assert!(!table.has_out_of_band());
        for value in 0..1_u32 << length {
            let word = (value << (32 - length)).to_be_bytes();
            let mut reader = Reader::new(&word);
            let decoded = table.decode(&mut reader);
            if value < symbols {
                assert_eq!(decoded, Ok(Some(value as i32)));
                assert_eq!(reader.read_bits((32 - length) as u8), Some(0));
                assert_eq!(reader.read_bits(1), None);
            } else {
                assert!(decoded.is_err());
            }
        }
    }
    assert!(HuffmanTable::build_uniform(9, 3).is_err());
    assert_eq!(
        HuffmanTable::build_uniform(1, 256).err(),
        Some(DecodeError::Huffman(HuffmanError::PrefixLengthTooLarge))
    );
}

#[test]
fn custom_tables_are_refused_before_their_end() {
    // One line for the values 0 and 1, the two open lines, and an out-of-band marker.
    let table = [0x03, 0, 0, 0, 0, 0, 0, 0, 2, 0b0111_0001, 0];
    let read = |data: &[u8]| HuffmanTable::read_custom(&mut Reader::new(data));
    assert!(read(&table).unwrap().has_out_of_band());
    for end in 0..table.len() {
        assert!(read(&table[..end]).is_err(), "{end}");
    }
    let mut reserved = table;
    reserved[0] |= 0x80;
    assert_eq!(read(&reserved).err(), Some(DecodeError::Format(FormatError::ReservedBits)));
    let mut empty = table;
    empty[8] = 0;
    assert_eq!(read(&empty).err(), Some(DecodeError::Huffman(HuffmanError::InvalidCode)));
}

#[test]
fn tables_are_built_if_and_only_if_their_codes_fit() {
    let build = |lengths: &[u8]| {
        let lines: Vec<TableLine> =
            lengths.iter().map(|&length| TableLine::new(0, length, 0)).collect();
        HuffmanTable::build(&lines).err()
    };
    let conflict = Some(DecodeError::Huffman(HuffmanError::ConflictingCodes));
    assert_eq!(build(&[]), None);
    assert_eq!(build(&[0, 0, 0]), None);
    assert_eq!(build(&[1, 2, 2]), None);
    assert_eq!(build(&[2, 0, 1, 2]), None);
    assert_eq!(build(&[1, 2, 2, 255]), conflict);
    assert_eq!(build(&[1, 1, 1]), conflict);
    let mut ladder: Vec<u8> = (1..=255).collect();
    ladder.push(255);
    assert_eq!(build(&ladder), None);
    ladder.push(255);
    assert_eq!(build(&ladder), conflict);
    for length in 1..=10 {
        assert!(HuffmanTable::build_uniform(1 << length, length).is_ok());
        assert_eq!(HuffmanTable::build_uniform((1 << length) + 1, length).err(), conflict);
    }
    assert!(HuffmanTable::build_uniform(1000, 255).is_ok());
}
