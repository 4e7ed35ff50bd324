use vstd::prelude::*;

verus! {

/// What a grid cell holds.
#[derive(PartialEq, Eq, Structural, Clone, Copy, Debug)]
pub enum CellTypes {
    Solid,
    Liquid,
    Gas,
}

/// The character that the text front end draws for a cell.
pub fn cell_glyph(t: CellTypes) -> (c: char)
    ensures
        c == glyph_of(t),
        t == CellTypes::Solid ==> c == '#',
        t == CellTypes::Liquid ==> c == '~',
        t == CellTypes::Gas ==> c == ' ',
{
    match t {
        CellTypes::Solid => '#',
        CellTypes::Liquid => '~',
        CellTypes::Gas => ' ',
    }
}

pub open spec fn glyph_of(t: CellTypes) -> char {
    match t {
        CellTypes::Solid => '#',
        CellTypes::Liquid => '~',
        CellTypes::Gas => ' ',
    }
}

/// Different cell types are drawn with different characters.
pub proof fn lemma_glyphs_distinct(a: CellTypes, b: CellTypes)
    ensures
        glyph_of(a) == glyph_of(b) <==> a == b,
{
}

/// How a cell is coloured: solid cells gray, gas cells black, liquid cells either
/// in the single fluid colour or by their density relative to the rest density.
#[derive(PartialEq, Eq, Structural, Clone, Copy, Debug)]
pub enum ColorRule {
    Gray,
    Mono,
    Density,
    Black,
}

pub open spec fn color_rule_of(t: CellTypes, mono_mode: bool) -> ColorRule {
    match t {
        CellTypes::Solid => ColorRule::Gray,
        CellTypes::Liquid => if mono_mode {
            ColorRule::Mono
        } else {
            ColorRule::Density
        },
        CellTypes::Gas => ColorRule::Black,
    }
}

/// Chooses how a cell of type `t` is coloured.
pub fn color_rule(t: CellTypes, mono_mode: bool) -> (r: ColorRule)
    ensures
        r == color_rule_of(t, mono_mode),
        t == CellTypes::Gas ==> r == ColorRule::Black,
        t == CellTypes::Solid ==> r == ColorRule::Gray,
        r == ColorRule::Density <==> (t == CellTypes::Liquid && !mono_mode),
        r == ColorRule::Mono <==> (t == CellTypes::Liquid && mono_mode),
{
    if t == CellTypes::Solid {
        ColorRule::Gray
    } else if t == CellTypes::Liquid {
        if mono_mode {
            ColorRule::Mono
        } else {
            ColorRule::Density
        }
    } else {
        ColorRule::Black
    }
}

/// Gas cells are black and solid cells gray in either mode; only liquid cells are
/// coloured by density (outside mono mode) or in the fluid colour (in mono mode).
pub proof fn lemma_color_rule_laws(t: CellTypes, mono_mode: bool)
    ensures
        t == CellTypes::Gas ==> color_rule_of(t, mono_mode) == ColorRule::Black,
        t == CellTypes::Solid ==> color_rule_of(t, mono_mode) == ColorRule::Gray,
        color_rule_of(t, mono_mode) == ColorRule::Density <==> (t == CellTypes::Liquid
            && !mono_mode),
        color_rule_of(t, mono_mode) == ColorRule::Mono <==> (t == CellTypes::Liquid
            && mono_mode),
        color_rule_of(t, true) != ColorRule::Density,
        color_rule_of(t, false) != ColorRule::Mono,
        t != CellTypes::Liquid ==> color_rule_of(t, true) == color_rule_of(t, false),
{
}

/// The segment of the blue-cyan-green-yellow-red scale that a normalised density
/// falls in, from its quarter index `num`; outside the four segments the cell is
/// drawn black.
pub fn density_segment(num: i32) -> (seg: Option<u8>)
    ensures
        seg == if 0 <= num <= 3 {
            Some(num as u8)
        } else {
            None::<u8>
        },
{
    if 0 <= num && num <= 3 {
        Some(num as u8)
    } else {
        None
    }
}

} // verus!
