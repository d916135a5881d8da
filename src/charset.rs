//! Glyph sets for borders, junctions and title decoration.

use vstd::prelude::*;

verus! {

/// The characters a table is drawn with. Names give the directions a glyph
/// connects to (north, east, south, west); a `d` prefix marks the double-line
/// variant.
#[derive(Clone, Copy, Debug, PartialEq, Eq, Structural)]
pub struct TableChars {
    pub se: char,
    pub ew: char,
    pub nw: char,
    pub sw: char,
    pub ns: char,
    pub ne: char,
    pub ews: char,
    pub nes: char,
    pub nws: char,
    pub new: char,
    pub news: char,
    pub dew: char,
    pub dnes: char,
    pub dnws: char,
    pub dnews: char,
    pub title: char,
}

/// The built-in glyph sets.
#[derive(Clone, Copy, Debug, PartialEq, Eq, Structural)]
pub enum Charset {
    Classic,
    Modern,
    Simple,
    Minimal,
}

/// The glyphs of each built-in set.
pub open spec fn glyphs(c: Charset) -> TableChars {
    match c {
        Charset::Modern => TableChars {
            se: '╭',
            nw: '╯',
            sw: '╮',
            ns: '│',
            ne: '╰',
            ew: '─',
            ews: '┬',
            nes: '├',
            nws: '┤',
            new: '┴',
            dew: '═',
            news: '┼',
            dnes: '╞',
            dnws: '╡',
            dnews: '╪',
            title: '▪',
        },
        Charset::Classic => TableChars {
            se: '┌',
            nw: '┘',
            sw: '┐',
            ns: '│',
            ne: '└',
            ew: '─',
            ews: '┬',
            nes: '├',
            nws: '┤',
            new: '┴',
            dew: '═',
            news: '┼',
            dnes: '╞',
            dnws: '╡',
            dnews: '╪',
            title: '▪',
        },
        Charset::Simple => TableChars {
            se: '+',
            nw: '+',
            sw: '+',
            ns: '|',
            ne: '+',
            ew: '-',
            ews: '+',
            nes: '|',
            nws: '|',
            new: '+',
            dew: '=',
            news: '+',
            dnes: '|',
            dnws: '|',
            dnews: '=',
            title: '*',
        },
        Charset::Minimal => TableChars {
            se: ' ',
            nw: ' ',
            sw: ' ',
            ns: ' ',
            ne: ' ',
            ew: '-',
            ews: '-',
            nes: ' ',
            nws: ' ',
            new: '-',
            dew: '=',
            news: '-',
            dnes: ' ',
            dnws: ' ',
            dnews: '=',
            title: '=',
        },
    }
}

impl Charset {
    pub fn get_chars(&self) -> (r: TableChars)
        ensures
            r == glyphs(*self),
    {
        match self {
            Self::Modern => TableChars {
                se: '╭',
                nw: '╯',
                sw: '╮',
                ns: '│',
                ne: '╰',
                ew: '─',
                ews: '┬',
                nes: '├',
                nws: '┤',
                new: '┴',
                dew: '═',
                news: '┼',
                dnes: '╞',
                dnws: '╡',
                dnews: '╪',
                title: '▪',
            },
            Self::Classic => TableChars {
                se: '┌',
                nw: '┘',
                sw: '┐',
                ns: '│',
                ne: '└',
                ew: '─',
                ews: '┬',
                nes: '├',
                nws: '┤',
                new: '┴',
                dew: '═',
                news: '┼',
                dnes: '╞',
                dnws: '╡',
                dnews: '╪',
                title: '▪',
            },
            Self::Simple => TableChars {
                se: '+',
                nw: '+',
                sw: '+',
                ns: '|',
                ne: '+',
                ew: '-',
                ews: '+',
                nes: '|',
                nws: '|',
                new: '+',
                dew: '=',
                news: '+',
                dnes: '|',
                dnws: '|',
                dnews: '=',
                title: '*',
            },
            Self::Minimal => TableChars {
                se: ' ',
                nw: ' ',
                sw: ' ',
                ns: ' ',
                ne: ' ',
                ew: '-',
                ews: '-',
                nes: ' ',
                nws: ' ',
                new: '-',
                dew: '=',
                news: '-',
                dnes: ' ',
                dnws: ' ',
                dnews: '=',
                title: '=',
            },
        }
    }
}

} // verus!
