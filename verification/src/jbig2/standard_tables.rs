//! The standard Huffman tables (T.88, Annex B.5).

use crate::jbig2::huffman_codes::{
    code_weight, lemma_node_bound, lemma_overfilled_by_weight, TableLine,
};
use crate::jbig2::huffman_table::{lower_line, normal_line, oob_line, HuffmanTable};
use vstd::arithmetic::power2::pow2;
use vstd::prelude::*;

verus! {

/// Every line has a code of at most nine bits.
spec fn short(lines: Seq<TableLine>) -> bool {
    forall|i: int| 0 <= i < lines.len() ==> 1 <= (#[trigger] lines[i]).prefix_length <= 9
}

/// Append a line, keeping account of the code space.
fn push_line(lines: &mut Vec<TableLine>, line: TableLine)
    requires
        short(old(lines)@),
        1 <= line.prefix_length <= 9,
    ensures
        short(final(lines)@),
        final(lines)@ == old(lines)@.push(line),
        code_weight(final(lines)@, 9) == code_weight(old(lines)@, 9) + pow2(
            (9 - line.prefix_length) as nat,
        ),
{
    let ghost before = lines@;
    lines.push(line);
    proof {
        assert(lines@.drop_last() =~= before);
    }
}

/// Build a table from lines whose codes are known to fit.
fn build_table(lines: &Vec<TableLine>) -> (table: HuffmanTable)
    requires
        short(lines@),
        lines@.len() <= 22,
        code_weight(lines@, 9) <= 512,
    ensures
        table.lines() == lines@,
{
    proof {
        vstd::arithmetic::power2::lemma2_to64();
        lemma_overfilled_by_weight(lines@, 9);
        lemma_node_bound(lines@);
    }
    match HuffmanTable::build(lines) {
        Ok(table) => table,
        Err(_) => vstd::pervasive::unreached(),
    }
}

/// The lines of Table B.1.
pub open spec fn table_a_lines() -> Seq<TableLine> {
    seq![
        normal_line(0, 1, 4),
        normal_line(16, 2, 8),
        normal_line(272, 3, 16),
        normal_line(65808, 3, 32),
    ]
}

fn build_table_a() -> (table: HuffmanTable)
    ensures
        table.lines() == table_a_lines(),
{
    proof {
        vstd::arithmetic::power2::lemma2_to64();
    }
    let mut lines: Vec<TableLine> = Vec::new();
    push_line(&mut lines, TableLine::new(0, 1, 4));
    push_line(&mut lines, TableLine::new(16, 2, 8));
    push_line(&mut lines, TableLine::new(272, 3, 16));
    push_line(&mut lines, TableLine::upper(65808, 3, 32));
    build_table(&lines)
}

/// The lines of Table B.2.
pub open spec fn table_b_lines() -> Seq<TableLine> {
    seq![
        normal_line(0, 1, 0),
        normal_line(1, 2, 0),
        normal_line(2, 3, 0),
        normal_line(3, 4, 3),
        normal_line(11, 5, 6),
        normal_line(75, 6, 32),
        oob_line(6),
    ]
}

fn build_table_b() -> (table: HuffmanTable)
    ensures
        table.lines() == table_b_lines(),
{
    proof {
        vstd::arithmetic::power2::lemma2_to64();
    }
    let mut lines: Vec<TableLine> = Vec::new();
    push_line(&mut lines, TableLine::new(0, 1, 0));
    push_line(&mut lines, TableLine::new(1, 2, 0));
    push_line(&mut lines, TableLine::new(2, 3, 0));
    push_line(&mut lines, TableLine::new(3, 4, 3));
    push_line(&mut lines, TableLine::new(11, 5, 6));
    push_line(&mut lines, TableLine::upper(75, 6, 32));
    push_line(&mut lines, TableLine::oob(6));
    build_table(&lines)
}

/// The lines of Table B.3.
pub open spec fn table_c_lines() -> Seq<TableLine> {
    seq![
        normal_line(-256, 8, 8),
        normal_line(0, 1, 0),
        normal_line(1, 2, 0),
        normal_line(2, 3, 0),
        normal_line(3, 4, 3),
        normal_line(11, 5, 6),
        lower_line(-257, 8, 32),
        normal_line(75, 7, 32),
        oob_line(6),
    ]
}

fn build_table_c() -> (table: HuffmanTable)
    ensures
        table.lines() == table_c_lines(),
{
    proof {
        vstd::arithmetic::power2::lemma2_to64();
    }
    let mut lines: Vec<TableLine> = Vec::new();
    push_line(&mut lines, TableLine::new(-256, 8, 8));
    push_line(&mut lines, TableLine::new(0, 1, 0));
    push_line(&mut lines, TableLine::new(1, 2, 0));
    push_line(&mut lines, TableLine::new(2, 3, 0));
    push_line(&mut lines, TableLine::new(3, 4, 3));
    push_line(&mut lines, TableLine::new(11, 5, 6));
    push_line(&mut lines, TableLine::lower(-257, 8, 32));
    push_line(&mut lines, TableLine::upper(75, 7, 32));
    push_line(&mut lines, TableLine::oob(6));
    build_table(&lines)
}

/// The lines of Table B.4.
pub open spec fn table_d_lines() -> Seq<TableLine> {
    seq![
        normal_line(1, 1, 0),
        normal_line(2, 2, 0),
        normal_line(3, 3, 0),
        normal_line(4, 4, 3),
        normal_line(12, 5, 6),
        normal_line(76, 5, 32),
    ]
}

fn build_table_d() -> (table: HuffmanTable)
    ensures
        table.lines() == table_d_lines(),
{
    proof {
        vstd::arithmetic::power2::lemma2_to64();
    }
    let mut lines: Vec<TableLine> = Vec::new();
    push_line(&mut lines, TableLine::new(1, 1, 0));
    push_line(&mut lines, TableLine::new(2, 2, 0));
    push_line(&mut lines, TableLine::new(3, 3, 0));
    push_line(&mut lines, TableLine::new(4, 4, 3));
    push_line(&mut lines, TableLine::new(12, 5, 6));
    push_line(&mut lines, TableLine::upper(76, 5, 32));
    build_table(&lines)
}

/// The lines of Table B.5.
pub open spec fn table_e_lines() -> Seq<TableLine> {
    seq![
        normal_line(-255, 7, 8),
        normal_line(1, 1, 0),
        normal_line(2, 2, 0),
        normal_line(3, 3, 0),
        normal_line(4, 4, 3),
        normal_line(12, 5, 6),
        lower_line(-256, 7, 32),
        normal_line(76, 6, 32),
    ]
}

fn build_table_e() -> (table: HuffmanTable)
    ensures
        table.lines() == table_e_lines(),
{
    proof {
        vstd::arithmetic::power2::lemma2_to64();
    }
    let mut lines: Vec<TableLine> = Vec::new();
    push_line(&mut lines, TableLine::new(-255, 7, 8));
    push_line(&mut lines, TableLine::new(1, 1, 0));
    push_line(&mut lines, TableLine::new(2, 2, 0));
    push_line(&mut lines, TableLine::new(3, 3, 0));
    push_line(&mut lines, TableLine::new(4, 4, 3));
    push_line(&mut lines, TableLine::new(12, 5, 6));
    push_line(&mut lines, TableLine::lower(-256, 7, 32));
    push_line(&mut lines, TableLine::upper(76, 6, 32));
    build_table(&lines)
}

/// The lines of Table B.6.
pub open spec fn table_f_lines() -> Seq<TableLine> {
    seq![
        normal_line(-2048, 5, 10),
        normal_line(-1024, 4, 9),
        normal_line(-512, 4, 8),
        normal_line(-256, 4, 7),
        normal_line(-128, 5, 6),
        normal_line(-64, 5, 5),
        normal_line(-32, 4, 5),
        normal_line(0, 2, 7),
        normal_line(128, 3, 7),
        normal_line(256, 3, 8),
        normal_line(512, 4, 9),
        normal_line(1024, 4, 10),
        lower_line(-2049, 6, 32),
        normal_line(2048, 6, 32),
    ]
}

fn build_table_f() -> (table: HuffmanTable)
    ensures
        table.lines() == table_f_lines(),
{
    proof {
        vstd::arithmetic::power2::lemma2_to64();
    }
    let mut lines: Vec<TableLine> = Vec::new();
    push_line(&mut lines, TableLine::new(-2048, 5, 10));
    push_line(&mut lines, TableLine::new(-1024, 4, 9));
    push_line(&mut lines, TableLine::new(-512, 4, 8));
    push_line(&mut lines, TableLine::new(-256, 4, 7));
    push_line(&mut lines, TableLine::new(-128, 5, 6));
    push_line(&mut lines, TableLine::new(-64, 5, 5));
    push_line(&mut lines, TableLine::new(-32, 4, 5));
    push_line(&mut lines, TableLine::new(0, 2, 7));
    push_line(&mut lines, TableLine::new(128, 3, 7));
    push_line(&mut lines, TableLine::new(256, 3, 8));
    push_line(&mut lines, TableLine::new(512, 4, 9));
    push_line(&mut lines, TableLine::new(1024, 4, 10));
    push_line(&mut lines, TableLine::lower(-2049, 6, 32));
    push_line(&mut lines, TableLine::upper(2048, 6, 32));
    build_table(&lines)
}

/// The lines of Table B.7.
pub open spec fn table_g_lines() -> Seq<TableLine> {
    seq![
        normal_line(-1024, 4, 9),
        normal_line(-512, 3, 8),
        normal_line(-256, 4, 7),
        normal_line(-128, 5, 6),
        normal_line(-64, 5, 5),
        normal_line(-32, 4, 5),
        normal_line(0, 4, 5),
        normal_line(32, 5, 5),
        normal_line(64, 5, 6),
        normal_line(128, 4, 7),
        normal_line(256, 3, 8),
        normal_line(512, 3, 9),
        normal_line(1024, 3, 10),
        lower_line(-1025, 5, 32),
        normal_line(2048, 5, 32),
    ]
}

fn build_table_g() -> (table: HuffmanTable)
    ensures
        table.lines() == table_g_lines(),
{
    proof {
        vstd::arithmetic::power2::lemma2_to64();
    }
    let mut lines: Vec<TableLine> = Vec::new();
    push_line(&mut lines, TableLine::new(-1024, 4, 9));
    push_line(&mut lines, TableLine::new(-512, 3, 8));
    push_line(&mut lines, TableLine::new(-256, 4, 7));
    push_line(&mut lines, TableLine::new(-128, 5, 6));
    push_line(&mut lines, TableLine::new(-64, 5, 5));
    push_line(&mut lines, TableLine::new(-32, 4, 5));
    push_line(&mut lines, TableLine::new(0, 4, 5));
    push_line(&mut lines, TableLine::new(32, 5, 5));
    push_line(&mut lines, TableLine::new(64, 5, 6));
    push_line(&mut lines, TableLine::new(128, 4, 7));
    push_line(&mut lines, TableLine::new(256, 3, 8));
    push_line(&mut lines, TableLine::new(512, 3, 9));
    push_line(&mut lines, TableLine::new(1024, 3, 10));
    push_line(&mut lines, TableLine::lower(-1025, 5, 32));
    push_line(&mut lines, TableLine::upper(2048, 5, 32));
    build_table(&lines)
}

/// The lines of Table B.8.
pub open spec fn table_h_lines() -> Seq<TableLine> {
    seq![
        normal_line(-15, 8, 3),
        normal_line(-7, 9, 1),
        normal_line(-5, 8, 1),
        normal_line(-3, 9, 0),
        normal_line(-2, 7, 0),
        normal_line(-1, 4, 0),
        normal_line(0, 2, 1),
        normal_line(2, 5, 0),
        normal_line(3, 6, 0),
        normal_line(4, 3, 4),
        normal_line(20, 6, 1),
        normal_line(22, 4, 4),
        normal_line(38, 4, 5),
        normal_line(70, 5, 6),
        normal_line(134, 5, 7),
        normal_line(262, 6, 7),
        normal_line(390, 7, 8),
        normal_line(646, 6, 10),
        lower_line(-16, 9, 32),
        normal_line(1670, 9, 32),
        oob_line(2),
    ]
}

fn build_table_h() -> (table: HuffmanTable)
    ensures
        table.lines() == table_h_lines(),
{
    proof {
        vstd::arithmetic::power2::lemma2_to64();
    }
    let mut lines: Vec<TableLine> = Vec::new();
    push_line(&mut lines, TableLine::new(-15, 8, 3));
    push_line(&mut lines, TableLine::new(-7, 9, 1));
    push_line(&mut lines, TableLine::new(-5, 8, 1));
    push_line(&mut lines, TableLine::new(-3, 9, 0));
    push_line(&mut lines, TableLine::new(-2, 7, 0));
    push_line(&mut lines, TableLine::new(-1, 4, 0));
    push_line(&mut lines, TableLine::new(0, 2, 1));
    push_line(&mut lines, TableLine::new(2, 5, 0));
    push_line(&mut lines, TableLine::new(3, 6, 0));
    push_line(&mut lines, TableLine::new(4, 3, 4));
    push_line(&mut lines, TableLine::new(20, 6, 1));
    push_line(&mut lines, TableLine::new(22, 4, 4));
    push_line(&mut lines, TableLine::new(38, 4, 5));
    push_line(&mut lines, TableLine::new(70, 5, 6));
    push_line(&mut lines, TableLine::new(134, 5, 7));
    push_line(&mut lines, TableLine::new(262, 6, 7));
    push_line(&mut lines, TableLine::new(390, 7, 8));
    push_line(&mut lines, TableLine::new(646, 6, 10));
    push_line(&mut lines, TableLine::lower(-16, 9, 32));
    push_line(&mut lines, TableLine::upper(1670, 9, 32));
    push_line(&mut lines, TableLine::oob(2));
    build_table(&lines)
}

/// The lines of Table B.9.
pub open spec fn table_i_lines() -> Seq<TableLine> {
    seq![
        normal_line(-31, 8, 4),
        normal_line(-15, 9, 2),
        normal_line(-11, 8, 2),
        normal_line(-7, 9, 1),
        normal_line(-5, 7, 1),
        normal_line(-3, 4, 1),
        normal_line(-1, 3, 1),
        normal_line(1, 3, 1),
        normal_line(3, 5, 1),
        normal_line(5, 6, 1),
        normal_line(7, 3, 5),
        normal_line(39, 6, 2),
        normal_line(43, 4, 5),
        normal_line(75, 4, 6),
        normal_line(139, 5, 7),
        normal_line(267, 5, 8),
        normal_line(523, 6, 8),
        normal_line(779, 7, 9),
        normal_line(1291, 6, 11),
        lower_line(-32, 9, 32),
        normal_line(3339, 9, 32),
        oob_line(2),
    ]
}

fn build_table_i() -> (table: HuffmanTable)
    ensures
        table.lines() == table_i_lines(),
{
    proof {
        vstd::arithmetic::power2::lemma2_to64();
    }
    let mut lines: Vec<TableLine> = Vec::new();
    push_line(&mut lines, TableLine::new(-31, 8, 4));
    push_line(&mut lines, TableLine::new(-15, 9, 2));
    push_line(&mut lines, TableLine::new(-11, 8, 2));
    push_line(&mut lines, TableLine::new(-7, 9, 1));
    push_line(&mut lines, TableLine::new(-5, 7, 1));
    push_line(&mut lines, TableLine::new(-3, 4, 1));
    push_line(&mut lines, TableLine::new(-1, 3, 1));
    push_line(&mut lines, TableLine::new(1, 3, 1));
    push_line(&mut lines, TableLine::new(3, 5, 1));
    push_line(&mut lines, TableLine::new(5, 6, 1));
    push_line(&mut lines, TableLine::new(7, 3, 5));
    push_line(&mut lines, TableLine::new(39, 6, 2));
    push_line(&mut lines, TableLine::new(43, 4, 5));
    push_line(&mut lines, TableLine::new(75, 4, 6));
    push_line(&mut lines, TableLine::new(139, 5, 7));
    push_line(&mut lines, TableLine::new(267, 5, 8));
    push_line(&mut lines, TableLine::new(523, 6, 8));
    push_line(&mut lines, TableLine::new(779, 7, 9));
    push_line(&mut lines, TableLine::new(1291, 6, 11));
    push_line(&mut lines, TableLine::lower(-32, 9, 32));
    push_line(&mut lines, TableLine::upper(3339, 9, 32));
    push_line(&mut lines, TableLine::oob(2));
    build_table(&lines)
}

/// The lines of Table B.10.
pub open spec fn table_j_lines() -> Seq<TableLine> {
    seq![
        normal_line(-21, 7, 4),
        normal_line(-5, 8, 0),
        normal_line(-4, 7, 0),
        normal_line(-3, 5, 0),
        normal_line(-2, 2, 2),
        normal_line(2, 5, 0),
        normal_line(3, 6, 0),
        normal_line(4, 7, 0),
        normal_line(5, 8, 0),
        normal_line(6, 2, 6),
        normal_line(70, 5, 5),
        normal_line(102, 6, 5),
        normal_line(134, 6, 6),
        normal_line(198, 6, 7),
        normal_line(326, 6, 8),
        normal_line(582, 6, 9),
        normal_line(1094, 6, 10),
        normal_line(2118, 7, 11),
        lower_line(-22, 8, 32),
        normal_line(4166, 8, 32),
        oob_line(2),
    ]
}

fn build_table_j() -> (table: HuffmanTable)
    ensures
        table.lines() == table_j_lines(),
{
    proof {
        vstd::arithmetic::power2::lemma2_to64();
    }
    let mut lines: Vec<TableLine> = Vec::new();
    push_line(&mut lines, TableLine::new(-21, 7, 4));
    push_line(&mut lines, TableLine::new(-5, 8, 0));
    push_line(&mut lines, TableLine::new(-4, 7, 0));
    push_line(&mut lines, TableLine::new(-3, 5, 0));
    push_line(&mut lines, TableLine::new(-2, 2, 2));
    push_line(&mut lines, TableLine::new(2, 5, 0));
    push_line(&mut lines, TableLine::new(3, 6, 0));
    push_line(&mut lines, TableLine::new(4, 7, 0));
    push_line(&mut lines, TableLine::new(5, 8, 0));
    push_line(&mut lines, TableLine::new(6, 2, 6));
    push_line(&mut lines, TableLine::new(70, 5, 5));
    push_line(&mut lines, TableLine::new(102, 6, 5));
    push_line(&mut lines, TableLine::new(134, 6, 6));
    push_line(&mut lines, TableLine::new(198, 6, 7));
    push_line(&mut lines, TableLine::new(326, 6, 8));
    push_line(&mut lines, TableLine::new(582, 6, 9));
    push_line(&mut lines, TableLine::new(1094, 6, 10));
    push_line(&mut lines, TableLine::new(2118, 7, 11));
    push_line(&mut lines, TableLine::lower(-22, 8, 32));
    push_line(&mut lines, TableLine::upper(4166, 8, 32));
    push_line(&mut lines, TableLine::oob(2));
    build_table(&lines)
}

/// The lines of Table B.11.
pub open spec fn table_k_lines() -> Seq<TableLine> {
    seq![
        normal_line(1, 1, 0),
        normal_line(2, 2, 1),
        normal_line(4, 4, 0),
        normal_line(5, 4, 1),
        normal_line(7, 5, 1),
        normal_line(9, 5, 2),
        normal_line(13, 6, 2),
        normal_line(17, 7, 2),
        normal_line(21, 7, 3),
        normal_line(29, 7, 4),
        normal_line(45, 7, 5),
        normal_line(77, 7, 6),
        normal_line(141, 7, 32),
    ]
}

fn build_table_k() -> (table: HuffmanTable)
    ensures
        table.lines() == table_k_lines(),
{
    proof {
        vstd::arithmetic::power2::lemma2_to64();
    }
    let mut lines: Vec<TableLine> = Vec::new();
    push_line(&mut lines, TableLine::new(1, 1, 0));
    push_line(&mut lines, TableLine::new(2, 2, 1));
    push_line(&mut lines, TableLine::new(4, 4, 0));
    push_line(&mut lines, TableLine::new(5, 4, 1));
    push_line(&mut lines, TableLine::new(7, 5, 1));
    push_line(&mut lines, TableLine::new(9, 5, 2));
    push_line(&mut lines, TableLine::new(13, 6, 2));
    push_line(&mut lines, TableLine::new(17, 7, 2));
    push_line(&mut lines, TableLine::new(21, 7, 3));
    push_line(&mut lines, TableLine::new(29, 7, 4));
    push_line(&mut lines, TableLine::new(45, 7, 5));
    push_line(&mut lines, TableLine::new(77, 7, 6));
    push_line(&mut lines, TableLine::upper(141, 7, 32));
    build_table(&lines)
}

/// The lines of Table B.12.
pub open spec fn table_l_lines() -> Seq<TableLine> {
    seq![
        normal_line(1, 1, 0),
        normal_line(2, 2, 0),
        normal_line(3, 3, 1),
        normal_line(5, 5, 0),
        normal_line(6, 5, 1),
        normal_line(8, 6, 1),
        normal_line(10, 7, 0),
        normal_line(11, 7, 1),
        normal_line(13, 7, 2),
        normal_line(17, 7, 3),
        normal_line(25, 7, 4),
        normal_line(41, 8, 5),
        normal_line(73, 8, 32),
    ]
}

fn build_table_l() -> (table: HuffmanTable)
    ensures
        table.lines() == table_l_lines(),
{
    proof {
        vstd::arithmetic::power2::lemma2_to64();
    }
    let mut lines: Vec<TableLine> = Vec::new();
    push_line(&mut lines, TableLine::new(1, 1, 0));
    push_line(&mut lines, TableLine::new(2, 2, 0));
    push_line(&mut lines, TableLine::new(3, 3, 1));
    push_line(&mut lines, TableLine::new(5, 5, 0));
    push_line(&mut lines, TableLine::new(6, 5, 1));
    push_line(&mut lines, TableLine::new(8, 6, 1));
    push_line(&mut lines, TableLine::new(10, 7, 0));
    push_line(&mut lines, TableLine::new(11, 7, 1));
    push_line(&mut lines, TableLine::new(13, 7, 2));
    push_line(&mut lines, TableLine::new(17, 7, 3));
    push_line(&mut lines, TableLine::new(25, 7, 4));
    push_line(&mut lines, TableLine::new(41, 8, 5));
    push_line(&mut lines, TableLine::upper(73, 8, 32));
    build_table(&lines)
}

/// The lines of Table B.13.
pub open spec fn table_m_lines() -> Seq<TableLine> {
    seq![
        normal_line(1, 1, 0),
        normal_line(2, 3, 0),
        normal_line(3, 4, 0),
        normal_line(4, 5, 0),
        normal_line(5, 4, 1),
        normal_line(7, 3, 3),
        normal_line(15, 6, 1),
        normal_line(17, 6, 2),
        normal_line(21, 6, 3),
        normal_line(29, 6, 4),
        normal_line(45, 6, 5),
        normal_line(77, 7, 6),
        normal_line(141, 7, 32),
    ]
}

fn build_table_m() -> (table: HuffmanTable)
    ensures
        table.lines() == table_m_lines(),
{
    proof {
        vstd::arithmetic::power2::lemma2_to64();
    }
    let mut lines: Vec<TableLine> = Vec::new();
    push_line(&mut lines, TableLine::new(1, 1, 0));
    push_line(&mut lines, TableLine::new(2, 3, 0));
    push_line(&mut lines, TableLine::new(3, 4, 0));
    push_line(&mut lines, TableLine::new(4, 5, 0));
    push_line(&mut lines, TableLine::new(5, 4, 1));
    push_line(&mut lines, TableLine::new(7, 3, 3));
    push_line(&mut lines, TableLine::new(15, 6, 1));
    push_line(&mut lines, TableLine::new(17, 6, 2));
    push_line(&mut lines, TableLine::new(21, 6, 3));
    push_line(&mut lines, TableLine::new(29, 6, 4));
    push_line(&mut lines, TableLine::new(45, 6, 5));
    push_line(&mut lines, TableLine::new(77, 7, 6));
    push_line(&mut lines, TableLine::upper(141, 7, 32));
    build_table(&lines)
}

/// The lines of Table B.14.
pub open spec fn table_n_lines() -> Seq<TableLine> {
    seq![
        normal_line(-2, 3, 0),
        normal_line(-1, 3, 0),
        normal_line(0, 1, 0),
        normal_line(1, 3, 0),
        normal_line(2, 3, 0),
    ]
}

fn build_table_n() -> (table: HuffmanTable)
    ensures
        table.lines() == table_n_lines(),
{
    proof {
        vstd::arithmetic::power2::lemma2_to64();
    }
    let mut lines: Vec<TableLine> = Vec::new();
    push_line(&mut lines, TableLine::new(-2, 3, 0));
    push_line(&mut lines, TableLine::new(-1, 3, 0));
    push_line(&mut lines, TableLine::new(0, 1, 0));
    push_line(&mut lines, TableLine::new(1, 3, 0));
    push_line(&mut lines, TableLine::new(2, 3, 0));
    build_table(&lines)
}

/// The lines of Table B.15.
pub open spec fn table_o_lines() -> Seq<TableLine> {
    seq![
        normal_line(-24, 7, 4),
        normal_line(-8, 6, 2),
        normal_line(-4, 5, 1),
        normal_line(-2, 4, 0),
        normal_line(-1, 3, 0),
        normal_line(0, 1, 0),
        normal_line(1, 3, 0),
        normal_line(2, 4, 0),
        normal_line(3, 5, 1),
        normal_line(5, 6, 2),
        normal_line(9, 7, 4),
        lower_line(-25, 7, 32),
        normal_line(25, 7, 32),
    ]
}

fn build_table_o() -> (table: HuffmanTable)
    ensures
        table.lines() == table_o_lines(),
{
    proof {
        vstd::arithmetic::power2::lemma2_to64();
    }
    let mut lines: Vec<TableLine> = Vec::new();
    push_line(&mut lines, TableLine::new(-24, 7, 4));
    push_line(&mut lines, TableLine::new(-8, 6, 2));
    push_line(&mut lines, TableLine::new(-4, 5, 1));
    push_line(&mut lines, TableLine::new(-2, 4, 0));
    push_line(&mut lines, TableLine::new(-1, 3, 0));
    push_line(&mut lines, TableLine::new(0, 1, 0));
    push_line(&mut lines, TableLine::new(1, 3, 0));
    push_line(&mut lines, TableLine::new(2, 4, 0));
    push_line(&mut lines, TableLine::new(3, 5, 1));
    push_line(&mut lines, TableLine::new(5, 6, 2));
    push_line(&mut lines, TableLine::new(9, 7, 4));
    push_line(&mut lines, TableLine::lower(-25, 7, 32));
    push_line(&mut lines, TableLine::upper(25, 7, 32));
    build_table(&lines)
}

/// The lines of all standard tables, from Table B.1 on.
pub open spec fn standard_lines() -> Seq<Seq<TableLine>> {
    seq![
        table_a_lines(),
        table_b_lines(),
        table_c_lines(),
        table_d_lines(),
        table_e_lines(),
        table_f_lines(),
        table_g_lines(),
        table_h_lines(),
        table_i_lines(),
        table_j_lines(),
        table_k_lines(),
        table_l_lines(),
        table_m_lines(),
        table_n_lines(),
        table_o_lines(),
    ]
}

/// Standard Huffman tables (`TABLE_A` through `TABLE_O`).
pub struct StandardHuffmanTables {
    table_a: HuffmanTable,
    table_b: HuffmanTable,
    table_c: HuffmanTable,
    table_d: HuffmanTable,
    table_e: HuffmanTable,
    table_f: HuffmanTable,
    table_g: HuffmanTable,
    table_h: HuffmanTable,
    table_i: HuffmanTable,
    table_j: HuffmanTable,
    table_k: HuffmanTable,
    table_l: HuffmanTable,
    table_m: HuffmanTable,
    table_n: HuffmanTable,
    table_o: HuffmanTable,
}

impl View for StandardHuffmanTables {
    type V = Seq<Seq<TableLine>>;

    /// The lines of each table, from Table B.1 on.
    closed spec fn view(&self) -> Seq<Seq<TableLine>> {
        seq![
            self.table_a.lines(),
            self.table_b.lines(),
            self.table_c.lines(),
            self.table_d.lines(),
            self.table_e.lines(),
            self.table_f.lines(),
            self.table_g.lines(),
            self.table_h.lines(),
            self.table_i.lines(),
            self.table_j.lines(),
            self.table_k.lines(),
            self.table_l.lines(),
            self.table_m.lines(),
            self.table_n.lines(),
            self.table_o.lines(),
        ]
    }
}

impl StandardHuffmanTables {
    /// Each table holds its standard lines.
    #[verifier::type_invariant]
    spec fn wf(&self) -> bool {
        &&& self.table_a.lines() == table_a_lines()
        &&& self.table_b.lines() == table_b_lines()
        &&& self.table_c.lines() == table_c_lines()
        &&& self.table_d.lines() == table_d_lines()
        &&& self.table_e.lines() == table_e_lines()
        &&& self.table_f.lines() == table_f_lines()
        &&& self.table_g.lines() == table_g_lines()
        &&& self.table_h.lines() == table_h_lines()
        &&& self.table_i.lines() == table_i_lines()
        &&& self.table_j.lines() == table_j_lines()
        &&& self.table_k.lines() == table_k_lines()
        &&& self.table_l.lines() == table_l_lines()
        &&& self.table_m.lines() == table_m_lines()
        &&& self.table_n.lines() == table_n_lines()
        &&& self.table_o.lines() == table_o_lines()
    }

    /// Create a new instance.
    pub fn new() -> (tables: Self)
        ensures
            tables@ == standard_lines(),
    {
        StandardHuffmanTables {
            table_a: build_table_a(),
            table_b: build_table_b(),
            table_c: build_table_c(),
            table_d: build_table_d(),
            table_e: build_table_e(),
            table_f: build_table_f(),
            table_g: build_table_g(),
            table_h: build_table_h(),
            table_i: build_table_i(),
            table_j: build_table_j(),
            table_k: build_table_k(),
            table_l: build_table_l(),
            table_m: build_table_m(),
            table_n: build_table_n(),
            table_o: build_table_o(),
        }
    }

    /// Get Table B.1 (`TABLE_A`).
    pub fn table_a(&self) -> (table: &HuffmanTable)
        ensures
            table.lines() == table_a_lines(),
            table.lines() == self@[0],
    {
        proof {
            use_type_invariant(self);
        }
        &self.table_a
    }

    /// Get Table B.2 (`TABLE_B`).
    pub fn table_b(&self) -> (table: &HuffmanTable)
        ensures
            table.lines() == table_b_lines(),
            table.lines() == self@[1],
    {
        proof {
            use_type_invariant(self);
        }
        &self.table_b
    }

    /// Get Table B.3 (`TABLE_C`).
    pub fn table_c(&self) -> (table: &HuffmanTable)
        ensures
            table.lines() == table_c_lines(),
            table.lines() == self@[2],
    {
        proof {
            use_type_invariant(self);
        }
        &self.table_c
    }

    /// Get Table B.4 (`TABLE_D`).
    pub fn table_d(&self) -> (table: &HuffmanTable)
        ensures
            table.lines() == table_d_lines(),
            table.lines() == self@[3],
    {
        proof {
            use_type_invariant(self);
        }
        &self.table_d
    }

    /// Get Table B.5 (`TABLE_E`).
    pub fn table_e(&self) -> (table: &HuffmanTable)
        ensures
            table.lines() == table_e_lines(),
            table.lines() == self@[4],
    {
        proof {
            use_type_invariant(self);
        }
        &self.table_e
    }

    /// Get Table B.6 (`TABLE_F`).
    pub fn table_f(&self) -> (table: &HuffmanTable)
        ensures
            table.lines() == table_f_lines(),
            table.lines() == self@[5],
    {
        proof {
            use_type_invariant(self);
        }
        &self.table_f
    }

    /// Get Table B.7 (`TABLE_G`).
    pub fn table_g(&self) -> (table: &HuffmanTable)
        ensures
            table.lines() == table_g_lines(),
            table.lines() == self@[6],
    {
        proof {
            use_type_invariant(self);
        }
        &self.table_g
    }

    /// Get Table B.8 (`TABLE_H`).
    pub fn table_h(&self) -> (table: &HuffmanTable)
        ensures
            table.lines() == table_h_lines(),
            table.lines() == self@[7],
    {
        proof {
            use_type_invariant(self);
        }
        &self.table_h
    }

    /// Get Table B.9 (`TABLE_I`).
    pub fn table_i(&self) -> (table: &HuffmanTable)
        ensures
            table.lines() == table_i_lines(),
            table.lines() == self@[8],
    {
        proof {
            use_type_invariant(self);
        }
        &self.table_i
    }

    /// Get Table B.10 (`TABLE_J`).
    pub fn table_j(&self) -> (table: &HuffmanTable)
        ensures
            table.lines() == table_j_lines(),
            table.lines() == self@[9],
    {
        proof {
            use_type_invariant(self);
        }
        &self.table_j
    }

    /// Get Table B.11 (`TABLE_K`).
    pub fn table_k(&self) -> (table: &HuffmanTable)
        ensures
            table.lines() == table_k_lines(),
            table.lines() == self@[10],
    {
        proof {
            use_type_invariant(self);
        }
        &self.table_k
    }

    /// Get Table B.12 (`TABLE_L`).
    pub fn table_l(&self) -> (table: &HuffmanTable)
        ensures
            table.lines() == table_l_lines(),
            table.lines() == self@[11],
    {
        proof {
            use_type_invariant(self);
        }
        &self.table_l
    }

    /// Get Table B.13 (`TABLE_M`).
    pub fn table_m(&self) -> (table: &HuffmanTable)
        ensures
            table.lines() == table_m_lines(),
            table.lines() == self@[12],
    {
        proof {
            use_type_invariant(self);
        }
        &self.table_m
    }

    /// Get Table B.14 (`TABLE_N`).
    pub fn table_n(&self) -> (table: &HuffmanTable)
        ensures
            table.lines() == table_n_lines(),
            table.lines() == self@[13],
    {
        proof {
            use_type_invariant(self);
        }
        &self.table_n
    }

    /// Get Table B.15 (`TABLE_O`).
    pub fn table_o(&self) -> (table: &HuffmanTable)
        ensures
            table.lines() == table_o_lines(),
            table.lines() == self@[14],
    {
        proof {
            use_type_invariant(self);
        }
        &self.table_o
    }
}

impl Default for StandardHuffmanTables {
    fn default() -> (tables: Self)
        ensures
            tables@ == standard_lines(),
    {
        Self::new()
    }
}

} // verus!
