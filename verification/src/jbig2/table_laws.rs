//! What holds of the lines of tables.

use crate::bits::{bits_value, signed_word, word_at};
use crate::jbig2::huffman_codes::{
    assigned, code, code_value, first_code, length_count, lemma_count_monotone, lemma_count_step,
    TableLine,
};
use crate::jbig2::huffman_table::{
    custom_table, field, line_value, normal_lines, refuted_after, require_value, suffix_width,
};
use crate::jbig2::standard_tables::{
    table_a_lines, table_b_lines, table_c_lines, table_d_lines, table_e_lines, table_f_lines,
    table_g_lines, table_h_lines, table_i_lines, table_j_lines, table_k_lines, table_l_lines,
    table_m_lines, table_n_lines, table_o_lines,
};
use vstd::arithmetic::power2::{lemma2_to64, pow2};
use vstd::prelude::*;

verus! {

/// A line for the values from its lowest one on.
pub open spec fn is_plain(line: TableLine) -> bool {
    !line.is_lower && !line.is_out_of_band
}

/// The first value behind those of a line.
pub open spec fn next_value(line: TableLine) -> int {
    line.range_low + pow2(line.range_length as nat)
}

/// The bit strings of nine bits that start with the codes of the first `count` lines.
pub open spec fn shares(lines: Seq<TableLine>, count: nat) -> int
    decreases count,
{
    if count == 0 {
        0
    } else {
        shares(lines, (count - 1) as nat) + pow2((9 - lines[count - 1].prefix_length) as nat)
    }
}

/// The first lines are for values one after another, from the first value on. Two more lines may
/// be for all lower and all higher values, and one for the out-of-band marker. Together the codes
/// use up all bit strings.
pub open spec fn covers(
    lines: Seq<TableLine>,
    first: int,
    normal: int,
    is_open: bool,
    has_marker: bool,
) -> bool {
    &&& normal > 0
    &&& lines.len() == normal + if is_open {
        2int
    } else {
        0int
    } + if has_marker {
        1int
    } else {
        0int
    }
    &&& lines[0].range_low == first
    &&& forall|i: int| 0 <= i < normal ==> is_plain(#[trigger] lines[i])
    &&& forall|i: int|
        0 <= i < normal - 1 ==> next_value(#[trigger] lines[i]) == lines[i + 1].range_low
    &&& is_open ==> {
        &&& lines[normal].is_lower && !lines[normal].is_out_of_band
        &&& lines[normal].range_low == first - 1
        &&& lines[normal].range_length == 32
        &&& is_plain(lines[normal + 1])
        &&& lines[normal + 1].range_low == next_value(lines[normal - 1])
        &&& lines[normal + 1].range_length == 32
    }
    &&& has_marker ==> lines.last().is_out_of_band
    &&& shares(lines, lines.len()) == pow2(9)
}

/// The lines of Table B.1 cover their values without a gap.
pub proof fn lemma_table_a()
    ensures
        covers(table_a_lines(), 0, 4, false, false),
{
    lemma2_to64();
    let lines = table_a_lines();
    assert(shares(lines, 0) == 0);
    assert(shares(lines, 1) == 256);
    assert(shares(lines, 2) == 384);
    assert(shares(lines, 3) == 448);
    assert(shares(lines, 4) == 512);
    assert forall|i: int| 0 <= i < 3 implies next_value(#[trigger] lines[i]) == lines[i
        + 1].range_low by {
        assert(next_value(lines[0]) == lines[1].range_low);
        assert(next_value(lines[1]) == lines[2].range_low);
        assert(next_value(lines[2]) == lines[3].range_low);
    }
}

/// The lines of Table B.2 cover their values without a gap.
pub proof fn lemma_table_b()
    ensures
        covers(table_b_lines(), 0, 6, false, true),
{
    lemma2_to64();
    let lines = table_b_lines();
    assert(shares(lines, 0) == 0);
    assert(shares(lines, 1) == 256);
    assert(shares(lines, 2) == 384);
    assert(shares(lines, 3) == 448);
    assert(shares(lines, 4) == 480);
    assert(shares(lines, 5) == 496);
    assert(shares(lines, 6) == 504);
    assert(shares(lines, 7) == 512);
    assert forall|i: int| 0 <= i < 5 implies next_value(#[trigger] lines[i]) == lines[i
        + 1].range_low by {
        assert(next_value(lines[0]) == lines[1].range_low);
        assert(next_value(lines[1]) == lines[2].range_low);
        assert(next_value(lines[2]) == lines[3].range_low);
        assert(next_value(lines[3]) == lines[4].range_low);
        assert(next_value(lines[4]) == lines[5].range_low);
    }
}

/// The lines of Table B.3 cover their values without a gap.
pub proof fn lemma_table_c()
    ensures
        covers(table_c_lines(), -256, 6, true, true),
{
    lemma2_to64();
    let lines = table_c_lines();
    assert(shares(lines, 0) == 0);
    assert(shares(lines, 1) == 2);
    assert(shares(lines, 2) == 258);
    assert(shares(lines, 3) == 386);
    assert(shares(lines, 4) == 450);
    assert(shares(lines, 5) == 482);
    assert(shares(lines, 6) == 498);
    assert(shares(lines, 7) == 500);
    assert(shares(lines, 8) == 504);
    assert(shares(lines, 9) == 512);
    assert forall|i: int| 0 <= i < 5 implies next_value(#[trigger] lines[i]) == lines[i
        + 1].range_low by {
        assert(next_value(lines[0]) == lines[1].range_low);
        assert(next_value(lines[1]) == lines[2].range_low);
        assert(next_value(lines[2]) == lines[3].range_low);
        assert(next_value(lines[3]) == lines[4].range_low);
        assert(next_value(lines[4]) == lines[5].range_low);
    }
}

/// The lines of Table B.4 cover their values without a gap.
pub proof fn lemma_table_d()
    ensures
        covers(table_d_lines(), 1, 6, false, false),
{
    lemma2_to64();
    let lines = table_d_lines();
    assert(shares(lines, 0) == 0);
    assert(shares(lines, 1) == 256);
    assert(shares(lines, 2) == 384);
    assert(shares(lines, 3) == 448);
    assert(shares(lines, 4) == 480);
    assert(shares(lines, 5) == 496);
    assert(shares(lines, 6) == 512);
    assert forall|i: int| 0 <= i < 5 implies next_value(#[trigger] lines[i]) == lines[i
        + 1].range_low by {
        assert(next_value(lines[0]) == lines[1].range_low);
        assert(next_value(lines[1]) == lines[2].range_low);
        assert(next_value(lines[2]) == lines[3].range_low);
        assert(next_value(lines[3]) == lines[4].range_low);
        assert(next_value(lines[4]) == lines[5].range_low);
    }
}

/// The lines of Table B.5 cover their values without a gap.
pub proof fn lemma_table_e()
    ensures
        covers(table_e_lines(), -255, 6, true, false),
{
    lemma2_to64();
    let lines = table_e_lines();
    assert(shares(lines, 0) == 0);
    assert(shares(lines, 1) == 4);
    assert(shares(lines, 2) == 260);
    assert(shares(lines, 3) == 388);
    assert(shares(lines, 4) == 452);
    assert(shares(lines, 5) == 484);
    assert(shares(lines, 6) == 500);
    assert(shares(lines, 7) == 504);
    assert(shares(lines, 8) == 512);
    assert forall|i: int| 0 <= i < 5 implies next_value(#[trigger] lines[i]) == lines[i
        + 1].range_low by {
        assert(next_value(lines[0]) == lines[1].range_low);
        assert(next_value(lines[1]) == lines[2].range_low);
        assert(next_value(lines[2]) == lines[3].range_low);
        assert(next_value(lines[3]) == lines[4].range_low);
        assert(next_value(lines[4]) == lines[5].range_low);
    }
}

/// The lines of Table B.6 cover their values without a gap.
pub proof fn lemma_table_f()
    ensures
        covers(table_f_lines(), -2048, 12, true, false),
{
    lemma2_to64();
    let lines = table_f_lines();
    assert(shares(lines, 0) == 0);
    assert(shares(lines, 1) == 16);
    assert(shares(lines, 2) == 48);
    assert(shares(lines, 3) == 80);
    assert(shares(lines, 4) == 112);
    assert(shares(lines, 5) == 128);
    assert(shares(lines, 6) == 144);
    assert(shares(lines, 7) == 176);
    assert(shares(lines, 8) == 304);
    assert(shares(lines, 9) == 368);
    assert(shares(lines, 10) == 432);
    assert(shares(lines, 11) == 464);
    assert(shares(lines, 12) == 496);
    assert(shares(lines, 13) == 504);
    assert(shares(lines, 14) == 512);
    assert forall|i: int| 0 <= i < 11 implies next_value(#[trigger] lines[i]) == lines[i
        + 1].range_low by {
        assert(next_value(lines[0]) == lines[1].range_low);
        assert(next_value(lines[1]) == lines[2].range_low);
        assert(next_value(lines[2]) == lines[3].range_low);
        assert(next_value(lines[3]) == lines[4].range_low);
        assert(next_value(lines[4]) == lines[5].range_low);
        assert(next_value(lines[5]) == lines[6].range_low);
        assert(next_value(lines[6]) == lines[7].range_low);
        assert(next_value(lines[7]) == lines[8].range_low);
        assert(next_value(lines[8]) == lines[9].range_low);
        assert(next_value(lines[9]) == lines[10].range_low);
        assert(next_value(lines[10]) == lines[11].range_low);
    }
}

/// The lines of Table B.7 cover their values without a gap.
pub proof fn lemma_table_g()
    ensures
        covers(table_g_lines(), -1024, 13, true, false),
{
    lemma2_to64();
    let lines = table_g_lines();
    assert(shares(lines, 0) == 0);
    assert(shares(lines, 1) == 32);
    assert(shares(lines, 2) == 96);
    assert(shares(lines, 3) == 128);
    assert(shares(lines, 4) == 144);
    assert(shares(lines, 5) == 160);
    assert(shares(lines, 6) == 192);
    assert(shares(lines, 7) == 224);
    assert(shares(lines, 8) == 240);
    assert(shares(lines, 9) == 256);
    assert(shares(lines, 10) == 288);
    assert(shares(lines, 11) == 352);
    assert(shares(lines, 12) == 416);
    assert(shares(lines, 13) == 480);
    assert(shares(lines, 14) == 496);
    assert(shares(lines, 15) == 512);
    assert forall|i: int| 0 <= i < 12 implies next_value(#[trigger] lines[i]) == lines[i
        + 1].range_low by {
        assert(next_value(lines[0]) == lines[1].range_low);
        assert(next_value(lines[1]) == lines[2].range_low);
        assert(next_value(lines[2]) == lines[3].range_low);
        assert(next_value(lines[3]) == lines[4].range_low);
        assert(next_value(lines[4]) == lines[5].range_low);
        assert(next_value(lines[5]) == lines[6].range_low);
        assert(next_value(lines[6]) == lines[7].range_low);
        assert(next_value(lines[7]) == lines[8].range_low);
        assert(next_value(lines[8]) == lines[9].range_low);
        assert(next_value(lines[9]) == lines[10].range_low);
        assert(next_value(lines[10]) == lines[11].range_low);
        assert(next_value(lines[11]) == lines[12].range_low);
    }
}

/// The lines of Table B.8 cover their values without a gap.
pub proof fn lemma_table_h()
    ensures
        covers(table_h_lines(), -15, 18, true, true),
{
    lemma2_to64();
    let lines = table_h_lines();
    assert(shares(lines, 0) == 0);
    assert(shares(lines, 1) == 2);
    assert(shares(lines, 2) == 3);
    assert(shares(lines, 3) == 5);
    assert(shares(lines, 4) == 6);
    assert(shares(lines, 5) == 10);
    assert(shares(lines, 6) == 42);
    assert(shares(lines, 7) == 170);
    assert(shares(lines, 8) == 186);
    assert(shares(lines, 9) == 194);
    assert(shares(lines, 10) == 258);
    assert(shares(lines, 11) == 266);
    assert(shares(lines, 12) == 298);
    assert(shares(lines, 13) == 330);
    assert(shares(lines, 14) == 346);
    assert(shares(lines, 15) == 362);
    assert(shares(lines, 16) == 370);
    assert(shares(lines, 17) == 374);
    assert(shares(lines, 18) == 382);
    assert(shares(lines, 19) == 383);
    assert(shares(lines, 20) == 384);
    assert(shares(lines, 21) == 512);
    assert forall|i: int| 0 <= i < 17 implies next_value(#[trigger] lines[i]) == lines[i
        + 1].range_low by {
        assert(next_value(lines[0]) == lines[1].range_low);
        assert(next_value(lines[1]) == lines[2].range_low);
        assert(next_value(lines[2]) == lines[3].range_low);
        assert(next_value(lines[3]) == lines[4].range_low);
        assert(next_value(lines[4]) == lines[5].range_low);
        assert(next_value(lines[5]) == lines[6].range_low);
        assert(next_value(lines[6]) == lines[7].range_low);
        assert(next_value(lines[7]) == lines[8].range_low);
        assert(next_value(lines[8]) == lines[9].range_low);
        assert(next_value(lines[9]) == lines[10].range_low);
        assert(next_value(lines[10]) == lines[11].range_low);
        assert(next_value(lines[11]) == lines[12].range_low);
        assert(next_value(lines[12]) == lines[13].range_low);
        assert(next_value(lines[13]) == lines[14].range_low);
        assert(next_value(lines[14]) == lines[15].range_low);
        assert(next_value(lines[15]) == lines[16].range_low);
        assert(next_value(lines[16]) == lines[17].range_low);
    }
}

/// The lines of Table B.9 cover their values without a gap.
pub proof fn lemma_table_i()
    ensures
        covers(table_i_lines(), -31, 19, true, true),
{
    lemma2_to64();
    let lines = table_i_lines();
    assert(shares(lines, 0) == 0);
    assert(shares(lines, 1) == 2);
    assert(shares(lines, 2) == 3);
    assert(shares(lines, 3) == 5);
    assert(shares(lines, 4) == 6);
    assert(shares(lines, 5) == 10);
    assert(shares(lines, 6) == 42);
    assert(shares(lines, 7) == 106);
    assert(shares(lines, 8) == 170);
    assert(shares(lines, 9) == 186);
    assert(shares(lines, 10) == 194);
    assert(shares(lines, 11) == 258);
    assert(shares(lines, 12) == 266);
    assert(shares(lines, 13) == 298);
    assert(shares(lines, 14) == 330);
    assert(shares(lines, 15) == 346);
    assert(shares(lines, 16) == 362);
    assert(shares(lines, 17) == 370);
    assert(shares(lines, 18) == 374);
    assert(shares(lines, 19) == 382);
    assert(shares(lines, 20) == 383);
    assert(shares(lines, 21) == 384);
    assert(shares(lines, 22) == 512);
    assert forall|i: int| 0 <= i < 18 implies next_value(#[trigger] lines[i]) == lines[i
        + 1].range_low by {
        assert(next_value(lines[0]) == lines[1].range_low);
        assert(next_value(lines[1]) == lines[2].range_low);
        assert(next_value(lines[2]) == lines[3].range_low);
        assert(next_value(lines[3]) == lines[4].range_low);
        assert(next_value(lines[4]) == lines[5].range_low);
        assert(next_value(lines[5]) == lines[6].range_low);
        assert(next_value(lines[6]) == lines[7].range_low);
        assert(next_value(lines[7]) == lines[8].range_low);
        assert(next_value(lines[8]) == lines[9].range_low);
        assert(next_value(lines[9]) == lines[10].range_low);
        assert(next_value(lines[10]) == lines[11].range_low);
        assert(next_value(lines[11]) == lines[12].range_low);
        assert(next_value(lines[12]) == lines[13].range_low);
        assert(next_value(lines[13]) == lines[14].range_low);
        assert(next_value(lines[14]) == lines[15].range_low);
        assert(next_value(lines[15]) == lines[16].range_low);
        assert(next_value(lines[16]) == lines[17].range_low);
        assert(next_value(lines[17]) == lines[18].range_low);
    }
}

/// The lines of Table B.10 cover their values without a gap.
pub proof fn lemma_table_j()
    ensures
        covers(table_j_lines(), -21, 18, true, true),
{
    lemma2_to64();
    let lines = table_j_lines();
    assert(shares(lines, 0) == 0);
    assert(shares(lines, 1) == 4);
    assert(shares(lines, 2) == 6);
    assert(shares(lines, 3) == 10);
    assert(shares(lines, 4) == 26);
    assert(shares(lines, 5) == 154);
    assert(shares(lines, 6) == 170);
    assert(shares(lines, 7) == 178);
    assert(shares(lines, 8) == 182);
    assert(shares(lines, 9) == 184);
    assert(shares(lines, 10) == 312);
    assert(shares(lines, 11) == 328);
    assert(shares(lines, 12) == 336);
    assert(shares(lines, 13) == 344);
    assert(shares(lines, 14) == 352);
    assert(shares(lines, 15) == 360);
    assert(shares(lines, 16) == 368);
    assert(shares(lines, 17) == 376);
    assert(shares(lines, 18) == 380);
    assert(shares(lines, 19) == 382);
    assert(shares(lines, 20) == 384);
    assert(shares(lines, 21) == 512);
    assert forall|i: int| 0 <= i < 17 implies next_value(#[trigger] lines[i]) == lines[i
        + 1].range_low by {
        assert(next_value(lines[0]) == lines[1].range_low);
        assert(next_value(lines[1]) == lines[2].range_low);
        assert(next_value(lines[2]) == lines[3].range_low);
        assert(next_value(lines[3]) == lines[4].range_low);
        assert(next_value(lines[4]) == lines[5].range_low);
        assert(next_value(lines[5]) == lines[6].range_low);
        assert(next_value(lines[6]) == lines[7].range_low);
        assert(next_value(lines[7]) == lines[8].range_low);
        assert(next_value(lines[8]) == lines[9].range_low);
        assert(next_value(lines[9]) == lines[10].range_low);
        assert(next_value(lines[10]) == lines[11].range_low);
        assert(next_value(lines[11]) == lines[12].range_low);
        assert(next_value(lines[12]) == lines[13].range_low);
        assert(next_value(lines[13]) == lines[14].range_low);
        assert(next_value(lines[14]) == lines[15].range_low);
        assert(next_value(lines[15]) == lines[16].range_low);
        assert(next_value(lines[16]) == lines[17].range_low);
    }
}

/// The lines of Table B.11 cover their values without a gap.
pub proof fn lemma_table_k()
    ensures
        covers(table_k_lines(), 1, 13, false, false),
{
    lemma2_to64();
    let lines = table_k_lines();
    assert(shares(lines, 0) == 0);
    assert(shares(lines, 1) == 256);
    assert(shares(lines, 2) == 384);
    assert(shares(lines, 3) == 416);
    assert(shares(lines, 4) == 448);
    assert(shares(lines, 5) == 464);
    assert(shares(lines, 6) == 480);
    assert(shares(lines, 7) == 488);
    assert(shares(lines, 8) == 492);
    assert(shares(lines, 9) == 496);
    assert(shares(lines, 10) == 500);
    assert(shares(lines, 11) == 504);
    assert(shares(lines, 12) == 508);
    assert(shares(lines, 13) == 512);
    assert forall|i: int| 0 <= i < 12 implies next_value(#[trigger] lines[i]) == lines[i
        + 1].range_low by {
        assert(next_value(lines[0]) == lines[1].range_low);
        assert(next_value(lines[1]) == lines[2].range_low);
        assert(next_value(lines[2]) == lines[3].range_low);
        assert(next_value(lines[3]) == lines[4].range_low);
        assert(next_value(lines[4]) == lines[5].range_low);
        assert(next_value(lines[5]) == lines[6].range_low);
        assert(next_value(lines[6]) == lines[7].range_low);
        assert(next_value(lines[7]) == lines[8].range_low);
        assert(next_value(lines[8]) == lines[9].range_low);
        assert(next_value(lines[9]) == lines[10].range_low);
        assert(next_value(lines[10]) == lines[11].range_low);
        assert(next_value(lines[11]) == lines[12].range_low);
    }
}

/// The lines of Table B.12 cover their values without a gap.
pub proof fn lemma_table_l()
    ensures
        covers(table_l_lines(), 1, 13, false, false),
{
    lemma2_to64();
    let lines = table_l_lines();
    assert(shares(lines, 0) == 0);
    assert(shares(lines, 1) == 256);
    assert(shares(lines, 2) == 384);
    assert(shares(lines, 3) == 448);
    assert(shares(lines, 4) == 464);
    assert(shares(lines, 5) == 480);
    assert(shares(lines, 6) == 488);
    assert(shares(lines, 7) == 492);
    assert(shares(lines, 8) == 496);
    assert(shares(lines, 9) == 500);
    assert(shares(lines, 10) == 504);
    assert(shares(lines, 11) == 508);
    assert(shares(lines, 12) == 510);
    assert(shares(lines, 13) == 512);
    assert forall|i: int| 0 <= i < 12 implies next_value(#[trigger] lines[i]) == lines[i
        + 1].range_low by {
        assert(next_value(lines[0]) == lines[1].range_low);
        assert(next_value(lines[1]) == lines[2].range_low);
        assert(next_value(lines[2]) == lines[3].range_low);
        assert(next_value(lines[3]) == lines[4].range_low);
        assert(next_value(lines[4]) == lines[5].range_low);
        assert(next_value(lines[5]) == lines[6].range_low);
        assert(next_value(lines[6]) == lines[7].range_low);
        assert(next_value(lines[7]) == lines[8].range_low);
        assert(next_value(lines[8]) == lines[9].range_low);
        assert(next_value(lines[9]) == lines[10].range_low);
        assert(next_value(lines[10]) == lines[11].range_low);
        assert(next_value(lines[11]) == lines[12].range_low);
    }
}

/// The lines of Table B.13 cover their values without a gap.
pub proof fn lemma_table_m()
    ensures
        covers(table_m_lines(), 1, 13, false, false),
{
    lemma2_to64();
    let lines = table_m_lines();
    assert(shares(lines, 0) == 0);
    assert(shares(lines, 1) == 256);
    assert(shares(lines, 2) == 320);
    assert(shares(lines, 3) == 352);
    assert(shares(lines, 4) == 368);
    assert(shares(lines, 5) == 400);
    assert(shares(lines, 6) == 464);
    assert(shares(lines, 7) == 472);
    assert(shares(lines, 8) == 480);
    assert(shares(lines, 9) == 488);
    assert(shares(lines, 10) == 496);
    assert(shares(lines, 11) == 504);
    assert(shares(lines, 12) == 508);
    assert(shares(lines, 13) == 512);
    assert forall|i: int| 0 <= i < 12 implies next_value(#[trigger] lines[i]) == lines[i
        + 1].range_low by {
        assert(next_value(lines[0]) == lines[1].range_low);
        assert(next_value(lines[1]) == lines[2].range_low);
        assert(next_value(lines[2]) == lines[3].range_low);
        assert(next_value(lines[3]) == lines[4].range_low);
        assert(next_value(lines[4]) == lines[5].range_low);
        assert(next_value(lines[5]) == lines[6].range_low);
        assert(next_value(lines[6]) == lines[7].range_low);
        assert(next_value(lines[7]) == lines[8].range_low);
        assert(next_value(lines[8]) == lines[9].range_low);
        assert(next_value(lines[9]) == lines[10].range_low);
        assert(next_value(lines[10]) == lines[11].range_low);
        assert(next_value(lines[11]) == lines[12].range_low);
    }
}

/// The lines of Table B.14 cover their values without a gap.
pub proof fn lemma_table_n()
    ensures
        covers(table_n_lines(), -2, 5, false, false),
{
    lemma2_to64();
    let lines = table_n_lines();
    assert(shares(lines, 0) == 0);
    assert(shares(lines, 1) == 64);
    assert(shares(lines, 2) == 128);
    assert(shares(lines, 3) == 384);
    assert(shares(lines, 4) == 448);
    assert(shares(lines, 5) == 512);
    assert forall|i: int| 0 <= i < 4 implies next_value(#[trigger] lines[i]) == lines[i
        + 1].range_low by {
        assert(next_value(lines[0]) == lines[1].range_low);
        assert(next_value(lines[1]) == lines[2].range_low);
        assert(next_value(lines[2]) == lines[3].range_low);
        assert(next_value(lines[3]) == lines[4].range_low);
    }
}

/// The lines of Table B.15 cover their values without a gap.
pub proof fn lemma_table_o()
    ensures
        covers(table_o_lines(), -24, 11, true, false),
{
    lemma2_to64();
    let lines = table_o_lines();
    assert(shares(lines, 0) == 0);
    assert(shares(lines, 1) == 4);
    assert(shares(lines, 2) == 12);
    assert(shares(lines, 3) == 28);
    assert(shares(lines, 4) == 60);
    assert(shares(lines, 5) == 124);
    assert(shares(lines, 6) == 380);
    assert(shares(lines, 7) == 444);
    assert(shares(lines, 8) == 476);
    assert(shares(lines, 9) == 492);
    assert(shares(lines, 10) == 500);
    assert(shares(lines, 11) == 504);
    assert(shares(lines, 12) == 508);
    assert(shares(lines, 13) == 512);
    assert forall|i: int| 0 <= i < 10 implies next_value(#[trigger] lines[i]) == lines[i
        + 1].range_low by {
        assert(next_value(lines[0]) == lines[1].range_low);
        assert(next_value(lines[1]) == lines[2].range_low);
        assert(next_value(lines[2]) == lines[3].range_low);
        assert(next_value(lines[3]) == lines[4].range_low);
        assert(next_value(lines[4]) == lines[5].range_low);
        assert(next_value(lines[5]) == lines[6].range_low);
        assert(next_value(lines[6]) == lines[7].range_low);
        assert(next_value(lines[7]) == lines[8].range_low);
        assert(next_value(lines[8]) == lines[9].range_low);
        assert(next_value(lines[9]) == lines[10].range_low);
    }
}

/// A line gives its base and the number behind its code, or its base less the number. The marker
/// has none. There is no value for missing bits, nor one that does not fit 32 bits.
pub proof fn lemma_line_values(line: TableLine, suffix: Seq<bool>)
    requires
        -0x8000_0000 <= line.range_low <= 0x7FFF_FFFF,
    ensures
        line.is_out_of_band ==> line_value(line, suffix) == Ok::<
            Option<i32>,
            crate::jbig2::error::DecodeError,
        >(None) && suffix_width(line) == 0,
        !line.is_out_of_band ==> suffix_width(line) == line.range_length,
        !line.is_out_of_band && suffix.len() < line.range_length ==> line_value(
            line,
            suffix,
        ) is Err,
        !line.is_out_of_band && suffix.len() >= line.range_length ==> {
            let number = bits_value(suffix.take(line.range_length as int));
            &&& line_value(line, suffix) matches Ok(found) ==> found matches Some(value) && if
                line.is_lower {
                value + number == line.range_low
            } else {
                value == line.range_low + number
            }
            &&& line_value(line, suffix) is Err ==> if line.is_lower {
                line.range_low - number < -0x8000_0000
            } else {
                line.range_low + number > 0x7FFF_FFFF
            }
        },
{
}

/// Where a value is asked for, the marker is an error and anything else stays.
pub proof fn lemma_value_required(value: i32, error: crate::jbig2::error::DecodeError)
    ensures
        require_value(Ok(Some(value))) == Ok::<i32, crate::jbig2::error::DecodeError>(value),
        require_value(Ok(None)) is Err,
        require_value(Err(error)) == Err::<i32, crate::jbig2::error::DecodeError>(error),
{
}

/// The normal lines of a custom table are for values one after another, from the lowest one on,
/// and end with the first line that reaches the highest one.
pub proof fn lemma_custom_lines(
    data: Seq<u8>,
    pos: int,
    low: int,
    high: int,
    prefix_bits: int,
    range_bits: int,
)
    requires
        -0x8000_0000 <= low < high <= 0x7FFF_FFFF,
        0 <= pos,
        1 <= prefix_bits <= 8,
        1 <= range_bits <= 8,
    ensures
        normal_lines(data, pos, low, high, prefix_bits, range_bits) matches Some((lines, end)) ==> {
            &&& lines.len() > 0
            &&& lines[0].range_low == low
            &&& end == pos + lines.len() * (prefix_bits + range_bits)
            &&& end <= 8 * data.len()
            &&& forall|i: int| 0 <= i < lines.len() ==> is_plain(#[trigger] lines[i])
            &&& forall|i: int|
                0 <= i < lines.len() - 1 ==> next_value(#[trigger] lines[i]) == lines[i
                    + 1].range_low && lines[i + 1].range_low < high
            &&& lines[lines.len() - 1].range_length >= 32 || next_value(lines[lines.len() - 1])
                >= high
        },
    decreases high - low,
{
    if normal_lines(data, pos, low, high, prefix_bits, range_bits) is Some {
        let (lines, end) = normal_lines(data, pos, low, high, prefix_bits, range_bits)->0;
        let behind = pos + prefix_bits + range_bits;
        let length = field(data, pos + prefix_bits, range_bits);
        crate::bits::lemma_bits_value_bound(
            crate::bits::bit_range(data, pos + prefix_bits, pos + prefix_bits + range_bits),
        );
        lemma2_to64();
        if range_bits < 8 {
            vstd::arithmetic::power2::lemma_pow2_strictly_increases(range_bits as nat, 8);
        }
        assert(length < 256);
        if !(low >= high || length >= 32 || low + pow2(length) >= high) {
            vstd::arithmetic::power2::lemma_pow2_pos(length);
            lemma_custom_lines(data, behind, low + pow2(length), high, prefix_bits, range_bits);
            let (rest, last) = normal_lines(
                data,
                behind,
                low + pow2(length),
                high,
                prefix_bits,
                range_bits,
            )->0;
            let n = rest.len() as int;
            assert(lines.len() == n + 1);
            assert((n + 1) * (prefix_bits + range_bits) == n * (prefix_bits + range_bits)
                + prefix_bits + range_bits) by (nonlinear_arith);
            assert forall|i: int| 1 <= i < lines.len() implies #[trigger] lines[i] == rest[i
                - 1] by {}
            assert(next_value(lines[0]) == rest[0].range_low);
        } else {
            assert(lines.len() == 1);
        }
    }
}

/// A custom table has its normal lines, a line for all values below them, a line for those from
/// its highest value on, and a marker if its first flag says so.
pub proof fn lemma_custom_table(data: Seq<u8>, pos: int)
    requires
        0 <= pos,
    ensures
        custom_table(data, pos) matches Ok((lines, end)) ==> {
            let at = pos / 8;
            let low = signed_word(word_at(data, at + 1));
            let high = signed_word(word_at(data, at + 5));
            let prefix_bits = (data[at] as int / 2) % 8 + 1;
            let range_bits = (data[at] as int / 16) % 8 + 1;
            let marked = data[at] % 2 == 1;
            &&& low < high
            &&& data[at] < 128
            &&& normal_lines(data, pos + 72, low, high, prefix_bits, range_bits) matches Some(
                (normal, behind),
            )
            &&& lines.len() == normal.len() + 2 + if marked {
                1int
            } else {
                0int
            }
            &&& lines.take(normal.len() as int) == normal
            &&& lines[normal.len() as int].is_lower
            &&& lines[normal.len() as int].range_low == low - 1
            &&& lines[normal.len() as int].range_length == 32
            &&& is_plain(lines[normal.len() as int + 1])
            &&& lines[normal.len() as int + 1].range_low == high
            &&& lines[normal.len() as int + 1].range_length == 32
            &&& marked ==> lines.last().is_out_of_band
            &&& end == behind + if marked {
                3 * prefix_bits
            } else {
                2 * prefix_bits
            }
        },
{
    let at = pos / 8;
    if at < data.len() {
        let flags = data[at];
        assert((flags & 0x80u8 == 0) == (flags < 128)) by (bit_vector);
        assert((flags >> 1) & 7u8 == (flags / 2u8) % 8u8) by (bit_vector);
        assert((flags >> 4) & 7u8 == (flags / 16u8) % 8u8) by (bit_vector);
        assert((flags & 1u8 == 0) == (flags % 2u8 == 0)) by (bit_vector);
        if custom_table(data, pos) is Ok {
            let low = signed_word(word_at(data, at + 1));
            let high = signed_word(word_at(data, at + 5));
            let prefix_bits = (flags as int / 2) % 8 + 1;
            let range_bits = (flags as int / 16) % 8 + 1;
            let (lines, _) = custom_table(data, pos)->Ok_0;
            let (normal, behind) = normal_lines(
                data,
                pos + 72,
                low,
                high,
                prefix_bits,
                range_bits,
            )->0;
            assert(lines.take(normal.len() as int) =~= normal);
        }
    }
}

/// Codes of one length go up by one from line to line, and the first code of a length follows the
/// last one of the length before, with a zero behind it.
pub proof fn lemma_codes_in_order(lines: Seq<TableLine>, i: int, j: int, length: nat)
    requires
        assigned(lines, i),
        assigned(lines, j),
        i < j,
        lines[i].prefix_length == lines[j].prefix_length,
        length >= 1,
    ensures
        code_value(lines, i) < code_value(lines, j),
        (forall|k: int|
            i < k < j ==> (#[trigger] lines[k]).prefix_length != lines[i].prefix_length)
            ==> code_value(lines, j) == code_value(lines, i) + 1,
        first_code(lines, 1) == 0,
        first_code(lines, length + 1) == 2 * (first_code(lines, length) + length_count(
            lines,
            length,
        )),
{
    let n = lines[i].prefix_length as nat;
    lemma_count_step(lines, i, n);
    lemma_count_monotone(lines, i + 1, j, n);
    if forall|k: int| i < k < j ==> (#[trigger] lines[k]).prefix_length != n {
        lemma_none_between(lines, i + 1, j, n);
    }
}

proof fn lemma_none_between(lines: Seq<TableLine>, low: int, high: int, length: nat)
    requires
        0 <= low <= high <= lines.len(),
        forall|k: int| low <= k < high ==> (#[trigger] lines[k]).prefix_length != length,
    ensures
        length_count(lines.take(high), length) == length_count(lines.take(low), length),
    decreases high - low,
{
    if low < high {
        lemma_none_between(lines, low, high - 1, length);
        lemma_count_step(lines, high - 1, length);
    }
}

/// Bits that no code starts with are given up at the first bit that rules out all codes.
pub proof fn lemma_refuted(lines: Seq<TableLine>, rest: Seq<bool>, consumed: int, i: int)
    requires
        refuted_after(lines, rest, consumed),
        assigned(lines, i),
    ensures
        1 <= consumed <= rest.len(),
        !rest.take(consumed).is_prefix_of(code(lines, i)),
        consumed > 1 ==> exists|j: int|
            assigned(lines, j) && rest.take(consumed - 1).is_prefix_of(#[trigger] code(lines, j)),
{
}

} // verus!
