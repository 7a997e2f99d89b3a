//! The parsed document: its types, their mathematical views, and the
//! well-formedness that every successfully parsed document satisfies.

use vstd::prelude::*;

use crate::floatgram::small_exponent;
use crate::numtext::is_num_text;

verus! {

/// Whether each sample carries one component (`Real`) or two (`Complex`:
/// magnitude and phase, derived from a real/imaginary pair).
#[derive(Debug, Clone, Copy, PartialEq, Eq, Structural)]
pub enum Flags {
    Complex,
    Real,
}

/// Why parsing failed; every error aborts the parse.
#[derive(Debug, Clone, Copy, PartialEq, Eq, Structural)]
pub enum SpiceParseError {
    /// A header count is not a non-negative integer in range.
    ParseInt,
    /// A sample is not numeric text.
    ParseFloat,
    /// More variable lines than declared, or a series count that does not
    /// match the declaration.
    NoOfVarMismatch,
    /// A point's sample count, or a series' sample shape, does not match the
    /// declaration.
    NoOfValMismatch,
    /// A `Flags` value other than `real` or `complex`.
    UnknownFlag,
}

/// One declared variable: its samples, in point order, as decimal text.
/// `angles` is present exactly when the document is `Complex`.
#[derive(Debug)]
pub struct VarData {
    pub name: String,
    pub typee: String,
    pub values: Vec<String>,
    pub angles: Option<Vec<String>>,
}

/// The mathematical view of a [`VarData`].
pub struct SeriesM {
    pub name: Seq<char>,
    pub typee: Seq<char>,
    pub values: Seq<Seq<char>>,
    pub angles: Option<Seq<Seq<char>>>,
}

impl View for VarData {
    type V = SeriesM;

    open spec fn view(&self) -> SeriesM {
        SeriesM {
            name: self.name@,
            typee: self.typee@,
            values: self.values@.map_values(|s: String| s@),
            angles: match self.angles {
                Option::Some(a) => Option::Some(a@.map_values(|s: String| s@)),
                Option::None => Option::None,
            },
        }
    }
}

/// The parsed document.
#[derive(Debug)]
pub struct Plot {
    pub title: String,
    pub date: String,
    pub plotname: String,
    pub flags: Flags,
    pub no_of_variables: usize,
    pub no_of_points: usize,
    pub data: Vec<VarData>,
}

/// The mathematical view of a [`Plot`].
pub struct PlotM {
    pub title: Seq<char>,
    pub date: Seq<char>,
    pub plotname: Seq<char>,
    pub flags: Flags,
    pub no_of_variables: int,
    pub no_of_points: int,
    pub data: Seq<SeriesM>,
}

impl View for Plot {
    type V = PlotM;

    open spec fn view(&self) -> PlotM {
        PlotM {
            title: self.title@,
            date: self.date@,
            plotname: self.plotname@,
            flags: self.flags,
            no_of_variables: self.no_of_variables as int,
            no_of_points: self.no_of_points as int,
            data: self.data@.map_values(|v: VarData| v@),
        }
    }
}

/// The declared shape of one series: a sample per point, and angles exactly
/// on a `Complex` document, one per sample.
pub open spec fn series_shape_ok(flags: Flags, sm: SeriesM, npoints: int) -> bool {
    &&& sm.values.len() == npoints
    &&& match flags {
        Flags::Complex => sm.angles matches Some(a) && a.len() == sm.values.len(),
        Flags::Real => sm.angles is None,
    }
}

/// A stored angle text: numeric, with a small exponent, so that it reparses
/// for the degree output.
pub open spec fn angle_text_ok(a: Seq<char>) -> bool {
    is_num_text(a) && small_exponent(a)
}

/// Every stored angle is numeric text (it reparses for the degree output).
pub open spec fn angles_parseable(sm: SeriesM) -> bool {
    sm.angles matches Some(a) ==> forall|i: int| 0 <= i < a.len() ==> angle_text_ok(#[trigger] a[i])
}

/// What holds of every successfully parsed document: as many series as
/// declared, each of the declared shape, with reparseable angles.
pub open spec fn plot_wf(p: PlotM) -> bool {
    &&& p.data.len() == p.no_of_variables
    &&& forall|i: int|
        0 <= i < p.data.len() ==> series_shape_ok(p.flags, #[trigger] p.data[i], p.no_of_points)
    &&& forall|i: int| 0 <= i < p.data.len() ==> angles_parseable(#[trigger] p.data[i])
}

} // verus!
