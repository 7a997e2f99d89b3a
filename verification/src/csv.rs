//! The CSV exporter: a spec-level rendering `csv_of` of a parsed document,
//! and an executable exporter proved to produce exactly that text.

use vstd::prelude::*;
use vstd::string::StrSliceExecFns;

use crate::numtext::canon_text;
use crate::numtext::canonize;
use crate::numtext::deg_text;
use crate::numtext::string_from_chars;
use crate::numtext::to_degrees_text;
use crate::parser::parse;
use crate::parser::parse_model;
use crate::plot::plot_wf;
use crate::plot::series_shape_ok;
use crate::plot::Flags;
use crate::plot::Plot;
use crate::plot::PlotM;
use crate::plot::SeriesM;
use crate::plot::SpiceParseError;

verus! {

/// One series' header cells: `name - kind,` and, on a `Complex` document,
/// `kind(phase),` after it.
pub open spec fn header_cell(sm: SeriesM, flags: Flags) -> Seq<char> {
    sm.name + " - "@ + sm.typee + ","@ + if flags is Complex {
        sm.typee + "(phase),"@
    } else {
        Seq::<char>::empty()
    }
}

/// The header cells of the first `n` series, in declaration order.
pub open spec fn header_cells(data: Seq<SeriesM>, flags: Flags, n: int) -> Seq<char>
    decreases n,
{
    if n <= 0 {
        Seq::<char>::empty()
    } else {
        header_cells(data, flags, n - 1) + header_cell(data[n - 1], flags)
    }
}

/// The header row: all cells, the trailing separator removed (nothing is
/// removed from an empty header), then a newline.
pub open spec fn header_row(data: Seq<SeriesM>, flags: Flags) -> Seq<char> {
    let h = header_cells(data, flags, data.len() as int);
    (if h.len() > 0 {
        h.drop_last()
    } else {
        h
    }) + "\n"@
}

/// One series' cell of data row `i`: the sample text; on a `Complex`
/// document the magnitude, a comma, the phase in degrees and a degree sign.
pub open spec fn value_cell(sm: SeriesM, flags: Flags, i: int) -> Seq<char> {
    match flags {
        Flags::Real => sm.values[i],
        Flags::Complex => match sm.angles {
            Some(a) => sm.values[i] + ","@ + canon_text(deg_text(a[i])) + seq!['\u{b0}'],
            None => Seq::<char>::empty(),
        },
    }
}

/// The separator after cell `j` of a row of `n` cells.
pub open spec fn cell_sep(j: int, n: int) -> Seq<char> {
    if j != n - 1 {
        ","@
    } else {
        "\n"@
    }
}

/// The first `n` cells of data row `i`, each with its separator.
pub open spec fn row_cells(data: Seq<SeriesM>, flags: Flags, i: int, n: int) -> Seq<char>
    decreases n,
{
    if n <= 0 {
        Seq::<char>::empty()
    } else {
        row_cells(data, flags, i, n - 1) + value_cell(data[n - 1], flags, i) + cell_sep(
            n - 1,
            data.len() as int,
        )
    }
}

/// The data rows from point `i` on.
pub open spec fn rows_from(data: Seq<SeriesM>, flags: Flags, npoints: int, i: int) -> Seq<char>
    decreases npoints - i,
{
    if i < 0 || i >= npoints {
        Seq::<char>::empty()
    } else {
        row_cells(data, flags, i, data.len() as int) + rows_from(data, flags, npoints, i + 1)
    }
}

/// The whole CSV text of a document: header row, then one row per point.
pub open spec fn csv_of(p: PlotM) -> Seq<char> {
    header_row(p.data, p.flags) + rows_from(p.data, p.flags, p.no_of_points, 0)
}

/// Appends the characters of `s`.
fn push_str_chars(out: &mut Vec<char>, s: &str)
    ensures
        final(out)@ == old(out)@ + s@,
{
    let n = s.unicode_len();
    let mut k: usize = 0;
    while k < n
        invariant
            k <= n,
            n == s@.len(),
            out@ == old(out)@ + s@.subrange(0, k as int),
        decreases n - k,
    {
        out.push(s.get_char(k));
        k += 1;
        proof {
            assert(old(out)@ + s@.subrange(0, k - 1) + seq![s@[k - 1]] =~= old(out)@
                + s@.subrange(0, k as int));
        }
    }
    proof {
        assert(s@.subrange(0, n as int) =~= s@);
    }
}

/// Renders a well-formed document as CSV, as [`csv_of`] says.
pub(crate) fn to_csv(plot: &Plot) -> (r: String)
    requires
        plot_wf(plot@),
    ensures
        r@ == csv_of(plot@),
{
    let ghost dv = plot@.data;
    let ghost fl = plot@.flags;
    let mut out: Vec<char> = Vec::new();
    let mut j: usize = 0;
    while j < plot.data.len()
        invariant
            j <= plot.data@.len(),
            dv == plot@.data,
            fl == plot@.flags,
            out@ == header_cells(dv, fl, j as int),
        decreases plot.data@.len() - j,
    {
        let ghost out0 = out@;
        let vd = &plot.data[j];
        proof {
            assert(vd@ == dv[j as int]);
        }
        push_str_chars(&mut out, vd.name.as_str());
        push_str_chars(&mut out, " - ");
        push_str_chars(&mut out, vd.typee.as_str());
        push_str_chars(&mut out, ",");
        match plot.flags {
            Flags::Complex => {
                push_str_chars(&mut out, vd.typee.as_str());
                push_str_chars(&mut out, "(phase),");
            },
            Flags::Real => {},
        }
        proof {
            assert(out@ =~= out0 + header_cell(dv[j as int], fl));
        }
        j += 1;
    }
    if out.len() > 0 {
        out.pop();
    }
    push_str_chars(&mut out, "\n");
    proof {
        assert(out@ =~= header_row(dv, fl));
    }
    let ghost npoints = plot@.no_of_points;
    let mut i: usize = 0;
    while i < plot.no_of_points
        invariant
            i <= npoints,
            dv == plot@.data,
            fl == plot@.flags,
            npoints == plot@.no_of_points,
            plot_wf(plot@),
            out@ + rows_from(dv, fl, npoints, i as int) == csv_of(plot@),
        decreases npoints - i,
    {
        let ghost row0 = out@;
        let mut j: usize = 0;
        while j < plot.data.len()
            invariant
                j <= plot.data@.len(),
                i < npoints,
                dv == plot@.data,
                fl == plot@.flags,
                npoints == plot@.no_of_points,
                plot_wf(plot@),
                out@ == row0 + row_cells(dv, fl, i as int, j as int),
            decreases plot.data@.len() - j,
        {
            let ghost out0 = out@;
            let vd = &plot.data[j];
            proof {
                assert(vd@ == dv[j as int]);
                assert(series_shape_ok(fl, dv[j as int], npoints));
            }
            match plot.flags {
                Flags::Real => {
                    push_str_chars(&mut out, vd.values[i].as_str());
                },
                Flags::Complex => {
                    match &vd.angles {
                        Some(a) => {
                            proof {
                                assert(vd@.angles matches Some(av) && av[i as int] == a@[
                                    i as int
                                ]@);
                                assert(crate::plot::angles_parseable(vd@));
                            }
                            push_str_chars(&mut out, vd.values[i].as_str());
                            push_str_chars(&mut out, ",");
                            let d = to_degrees_text(&a[i]);
                            let c = canonize(d);
                            push_str_chars(&mut out, c.as_str());
                            out.push('\u{b0}');
                        },
                        None => {},
                    }
                },
            }
            if j != plot.data.len() - 1 {
                push_str_chars(&mut out, ",");
            } else {
                push_str_chars(&mut out, "\n");
            }
            proof {
                assert(out@ =~= out0 + value_cell(dv[j as int], fl, i as int) + cell_sep(
                    j as int,
                    dv.len() as int,
                ));
            }
            j += 1;
        }
        proof {
            assert(rows_from(dv, fl, npoints, i as int) == row_cells(
                dv,
                fl,
                i as int,
                dv.len() as int,
            ) + rows_from(dv, fl, npoints, i + 1));
            assert(out@ + rows_from(dv, fl, npoints, i + 1) =~= csv_of(plot@));
        }
        i += 1;
    }
    proof {
        assert(rows_from(dv, fl, npoints, npoints) =~= Seq::<char>::empty());
        assert(out@ =~= csv_of(plot@));
    }
    string_from_chars(&out)
}

/// Parses the raw text and renders it as CSV: the model document's CSV on
/// success, the model's error otherwise.
pub fn parse_and_get_csv(file: &str) -> (r: Result<String, SpiceParseError>)
    ensures
        parse_model(file@) matches Ok(m) ==> r matches Ok(s) && s@ == csv_of(m),
        parse_model(file@) matches Err(e) ==> r == Err::<String, SpiceParseError>(e),
{
    match parse(file) {
        Ok(p) => Ok(to_csv(&p)),
        Err(e) => Err(e),
    }
}

} // verus!
