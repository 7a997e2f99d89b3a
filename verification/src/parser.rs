//! The line-oriented parser: a three-state machine whose behaviour is given
//! by the spec-level interpreter `parse_model`, and an executable parser
//! proved to return exactly what the model gives.

use vstd::prelude::*;

use crate::chars::chars_of;
use crate::chars::eq_str;
use crate::chars::field;
use crate::chars::key_of;
use crate::chars::key_rest;
use crate::chars::remove_colons;
use crate::chars::rest_of;
use crate::chars::split_char;
use crate::chars::split_spec;
use crate::chars::strip_colons;
use crate::chars::trim_chars;
use crate::chars::trim_spec;
use crate::floatgram::check_float_text;
use crate::floatgram::is_float_text;
use crate::intparse::parse_usize;
use crate::intparse::usize_of_text;
use crate::numtext::canon_text;
use crate::numtext::canonize;
use crate::numtext::complex_parts;
use crate::numtext::is_num_text;
use crate::numtext::mag_text;
use crate::numtext::num_text;
use crate::numtext::parse_num_text;
use crate::numtext::phase_text;
use crate::numtext::string_from_chars;
use crate::plot::angle_text_ok;
use crate::plot::angles_parseable;
use crate::plot::plot_wf;
use crate::plot::series_shape_ok;
use crate::plot::Flags;
use crate::plot::Plot;
use crate::plot::PlotM;
use crate::plot::SeriesM;
use crate::plot::SpiceParseError;
use crate::plot::VarData;

verus! {

/// Which section of the file the parser is in.
#[derive(Debug, Clone, Copy, PartialEq, Eq, Structural)]
pub enum ParserMode {
    Meta,
    Variable,
    Value,
}

/// One buffered sample of the point being read: value text and angle text
/// (the angle is empty on a `Real` document).
#[verifier::ext_equal]
pub struct SampleM {
    pub value: Seq<char>,
    pub angle: Seq<char>,
}

/// The parser's whole state between lines.
#[verifier::ext_equal]
pub struct StateM {
    pub title: Seq<char>,
    pub date: Seq<char>,
    pub plotname: Seq<char>,
    pub flags: Flags,
    pub nvars: int,
    pub npoints: int,
    pub data: Seq<SeriesM>,
    pub mode: ParserMode,
    pub varc: int,
    pub temp: Seq<SampleM>,
}

pub open spec fn init_state() -> StateM {
    StateM {
        title: Seq::empty(),
        date: Seq::empty(),
        plotname: Seq::empty(),
        flags: Flags::Real,
        nvars: 0,
        npoints: 0,
        data: Seq::empty(),
        mode: ParserMode::Meta,
        varc: 0,
        temp: Seq::empty(),
    }
}

/// A buffered sample appended to a series: the value always, the angle
/// exactly when the document is `Complex` and the series carries angles.
pub open spec fn push_sample(sm: SeriesM, s: SampleM, flags: Flags) -> SeriesM {
    SeriesM {
        name: sm.name,
        typee: sm.typee,
        values: sm.values.push(s.value),
        angles: if flags is Complex && sm.angles is Some {
            Some(sm.angles->0.push(s.angle))
        } else {
            sm.angles
        },
    }
}

/// Committing the buffered point: a no-op on an empty buffer; otherwise the
/// buffer must hold one sample per declared variable, for a matching set of
/// series, and each sample goes to its series.
pub open spec fn flush_model(
    nvars: int,
    flags: Flags,
    data: Seq<SeriesM>,
    temp: Seq<SampleM>,
) -> Result<Seq<SeriesM>, SpiceParseError> {
    if temp.len() == 0 {
        Ok(data)
    } else if temp.len() != nvars {
        Err(SpiceParseError::NoOfValMismatch)
    } else if data.len() != nvars {
        Err(SpiceParseError::NoOfVarMismatch)
    } else {
        Ok(Seq::new(data.len() as nat, |i: int| push_sample(data[i], temp[i], flags)))
    }
}

pub open spec fn step_meta(st: StateM, t: Seq<char>) -> Result<StateM, SpiceParseError> {
    let key = key_of(t);
    let rest = rest_of(t);
    if key == "Title"@ {
        Ok(StateM { title: trim_spec(rest), ..st })
    } else if key == "Date"@ {
        Ok(StateM { date: trim_spec(remove_colons(rest)), ..st })
    } else if key == "Plotname"@ {
        Ok(StateM { plotname: trim_spec(rest), ..st })
    } else if key == "Flags"@ {
        let fv = trim_spec(rest);
        if fv == "complex"@ {
            Ok(StateM { flags: Flags::Complex, ..st })
        } else if fv == "real"@ {
            Ok(StateM { flags: Flags::Real, ..st })
        } else {
            Err(SpiceParseError::UnknownFlag)
        }
    } else if key == "No. Variables"@ {
        match usize_of_text(trim_spec(rest)) {
            Some(n) => Ok(StateM { nvars: n, ..st }),
            None => Err(SpiceParseError::ParseInt),
        }
    } else if key == "No. Points"@ {
        match usize_of_text(trim_spec(rest)) {
            Some(n) => Ok(StateM { npoints: n, ..st }),
            None => Err(SpiceParseError::ParseInt),
        }
    } else if key == "Variables"@ {
        Ok(StateM { mode: ParserMode::Variable, varc: 0, ..st })
    } else if key == "Values"@ {
        Ok(StateM { mode: ParserMode::Value, ..st })
    } else {
        Ok(st)
    }
}

/// A variable line. While the counter is below the declaration, the line
/// declares the next variable. Once the counter equals the declaration the
/// section is complete and only a section key may follow: `Values` moves to
/// the value section, a new `Variables` starts the count over, and any other
/// line is a surplus variable line, which fails with the mismatch error.
pub open spec fn step_variable(st: StateM, t: Seq<char>) -> Result<StateM, SpiceParseError> {
    if st.varc == st.nvars {
        let key = key_of(t);
        if key == "Variables"@ {
            Ok(StateM { varc: 0, ..st })
        } else if key == "Values"@ {
            Ok(StateM { mode: ParserMode::Value, ..st })
        } else {
            Err(SpiceParseError::NoOfVarMismatch)
        }
    } else {
        let parts = split_spec(t, '\t');
        let sm = SeriesM {
            name: trim_spec(field(parts, 1)),
            typee: trim_spec(field(parts, 2)),
            values: Seq::empty(),
            angles: if st.flags is Complex {
                Some(Seq::empty())
            } else {
                None
            },
        };
        Ok(StateM { varc: st.varc + 1, data: st.data.push(sm), ..st })
    }
}

/// A `Real` sample: the value is the sample's stored text, the angle empty.
pub open spec fn sample_of_real(num: Seq<char>) -> SampleM {
    SampleM { value: canon_text(num_text(num)), angle: Seq::empty() }
}

/// A `Complex` sample: magnitude text and phase text of the pair.
pub open spec fn sample_of_complex(re: Seq<char>, im: Seq<char>) -> SampleM {
    SampleM { value: canon_text(mag_text(re, im)), angle: phase_text(re, im) }
}

pub open spec fn step_value(st: StateM, t: Seq<char>) -> Result<StateM, SpiceParseError> {
    let parts = split_spec(t, '\t');
    let flushed = if parts.len() == 2 {
        match flush_model(st.nvars, st.flags, st.data, st.temp) {
            Ok(nd) => Ok(StateM { data: nd, temp: Seq::empty(), ..st }),
            Err(e) => Err(e),
        }
    } else {
        Ok(st)
    };
    let num = if parts.len() == 2 {
        parts[1]
    } else {
        parts[0]
    };
    match flushed {
        Err(e) => Err(e),
        Ok(st1) => match st1.flags {
            Flags::Real => {
                if is_float_text(num) && is_num_text(num) {
                    Ok(StateM { temp: st1.temp.push(sample_of_real(num)), ..st1 })
                } else {
                    Err(SpiceParseError::ParseFloat)
                }
            },
            Flags::Complex => {
                let cp = split_spec(num, ',');
                if cp.len() < 2 {
                    Err(SpiceParseError::ParseFloat)
                } else if is_float_text(cp[0]) && is_float_text(cp[1]) && is_num_text(cp[0])
                    && is_num_text(cp[1]) {
                    Ok(StateM { temp: st1.temp.push(sample_of_complex(cp[0], cp[1])), ..st1 })
                } else {
                    Err(SpiceParseError::ParseFloat)
                }
            },
        },
    }
}

/// One line: blank lines are skipped in every mode.
pub open spec fn step(st: StateM, line: Seq<char>) -> Result<StateM, SpiceParseError> {
    let t = trim_spec(line);
    if t.len() == 0 {
        Ok(st)
    } else {
        match st.mode {
            ParserMode::Meta => step_meta(st, t),
            ParserMode::Variable => step_variable(st, t),
            ParserMode::Value => step_value(st, t),
        }
    }
}

/// The state machine run over the lines from index `i` on.
pub open spec fn run(st: StateM, lines: Seq<Seq<char>>, i: int) -> Result<StateM, SpiceParseError>
    decreases lines.len() - i,
{
    if i < 0 || i >= lines.len() {
        Ok(st)
    } else {
        match step(st, lines[i]) {
            Err(e) => Err(e),
            Ok(s2) => run(s2, lines, i + 1),
        }
    }
}

pub open spec fn plot_of(st: StateM) -> PlotM {
    PlotM {
        title: st.title,
        date: st.date,
        plotname: st.plotname,
        flags: st.flags,
        no_of_variables: st.nvars,
        no_of_points: st.npoints,
        data: st.data,
    }
}

/// The final check: a document leaves the parser only in the declared shape.
pub open spec fn validate(st: StateM) -> Result<PlotM, SpiceParseError> {
    if st.data.len() != st.nvars {
        Err(SpiceParseError::NoOfVarMismatch)
    } else if !(forall|i: int|
        0 <= i < st.data.len() ==> series_shape_ok(st.flags, #[trigger] st.data[i], st.npoints)) {
        Err(SpiceParseError::NoOfValMismatch)
    } else {
        Ok(plot_of(st))
    }
}

pub open spec fn after_flush(st: StateM, nd: Seq<SeriesM>) -> StateM {
    StateM { data: nd, temp: Seq::empty(), ..st }
}

/// What `parse` returns: the state machine over the input's lines, a final
/// flush of the buffered point, and the shape check.
pub open spec fn parse_model(s: Seq<char>) -> Result<PlotM, SpiceParseError> {
    let lines = split_spec(s, '\n');
    match run(init_state(), lines, 0) {
        Err(e) => Err(e),
        Ok(st) => match flush_model(st.nvars, st.flags, st.data, st.temp) {
            Err(e) => Err(e),
            Ok(nd) => validate(after_flush(st, nd)),
        },
    }
}

/// The view of a vector of parsed series.
pub open spec fn data_view(d: Seq<VarData>) -> Seq<SeriesM> {
    d.map_values(|v: VarData| v@)
}

/// The view of the buffered point.
pub open spec fn temp_view(t: Seq<(String, String)>) -> Seq<SampleM> {
    t.map_values(|p: (String, String)| SampleM { value: p.0@, angle: p.1@ })
}

/// On a `Complex` document every buffered angle is numeric text with a
/// small exponent.
pub open spec fn temp_angles_ok(flags: Flags, temp: Seq<SampleM>) -> bool {
    flags is Complex ==> forall|i: int|
        0 <= i < temp.len() ==> angle_text_ok(#[trigger] temp[i].angle)
}

pub open spec fn data_angles_ok(d: Seq<SeriesM>) -> bool {
    forall|i: int| 0 <= i < d.len() ==> angles_parseable(#[trigger] d[i])
}

proof fn lemma_flush_angles(nvars: int, flags: Flags, data: Seq<SeriesM>, temp: Seq<SampleM>)
    requires
        data_angles_ok(data),
        temp_angles_ok(flags, temp),
        flush_model(nvars, flags, data, temp) is Ok,
    ensures
        data_angles_ok(flush_model(nvars, flags, data, temp)->Ok_0),
{
    let nd = flush_model(nvars, flags, data, temp)->Ok_0;
    if temp.len() != 0 {
        assert forall|i: int| 0 <= i < nd.len() implies angles_parseable(#[trigger] nd[i]) by {
            assert(nd[i] == push_sample(data[i], temp[i], flags));
            assert(angles_parseable(data[i]));
            if flags is Complex && data[i].angles is Some {
                let a = data[i].angles->0;
                let a2 = nd[i].angles->0;
                assert(a2 =~= a.push(temp[i].angle));
                assert(angle_text_ok(temp[i].angle));
                assert forall|k: int| 0 <= k < a2.len() implies angle_text_ok(
                    #[trigger] a2[k],
                ) by {
                    if k < a.len() {
                        assert(angle_text_ok(a[k]));
                    }
                }
            }
        }
    }
}

/// Clones a vector of strings, keeping its view.
fn clone_string_vec(v: &Vec<String>) -> (r: Vec<String>)
    ensures
        r@ == v@,
{
    let mut r: Vec<String> = Vec::new();
    let mut i: usize = 0;
    while i < v.len()
        invariant
            i <= v@.len(),
            r@ == v@.subrange(0, i as int),
        decreases v@.len() - i,
    {
        r.push(v[i].clone());
        i += 1;
        proof {
            assert(r@ =~= v@.subrange(0, i as int));
        }
    }
    proof {
        assert(v@.subrange(0, v@.len() as int) =~= v@);
    }
    r
}

/// Commits the buffered point into the series, as [`flush_model`] says.
fn flush_values(
    no_of_variables: usize,
    temp_values: &mut Vec<(String, String)>,
    data: &mut Vec<VarData>,
    flags: Flags,
) -> (r: Result<(), SpiceParseError>)
    ensures
        match flush_model(
            no_of_variables as int,
            flags,
            data_view(old(data)@),
            temp_view(old(temp_values)@),
        ) {
            Ok(nd) => r is Ok && data_view(final(data)@) == nd && final(temp_values)@.len() == 0,
            Err(e) => {
                &&& r == Err::<(), SpiceParseError>(e)
                &&& final(data)@ == old(data)@
                &&& final(temp_values)@ == old(temp_values)@
            },
        },
{
    let ghost dv = data_view(data@);
    let ghost tv = temp_view(temp_values@);
    if temp_values.len() == 0 {
        return Ok(());
    }
    if temp_values.len() != no_of_variables {
        return Err(SpiceParseError::NoOfValMismatch);
    }
    if data.len() != no_of_variables {
        return Err(SpiceParseError::NoOfVarMismatch);
    }
    let mut new_data: Vec<VarData> = Vec::new();
    let mut idx: usize = 0;
    while idx < data.len()
        invariant
            idx <= data@.len(),
            dv == data_view(data@),
            tv == temp_view(temp_values@),
            data@.len() == no_of_variables,
            temp_values@.len() == no_of_variables,
            data_view(new_data@) == Seq::new(
                idx as nat,
                |i: int| push_sample(dv[i], tv[i], flags),
            ),
        decreases data@.len() - idx,
    {
        let vd = &data[idx];
        let pair = &temp_values[idx];
        let mut values = clone_string_vec(&vd.values);
        values.push(pair.0.clone());
        let angles: Option<Vec<String>> = match &vd.angles {
            Some(a) => {
                match flags {
                    Flags::Complex => {
                        let mut a2 = clone_string_vec(a);
                        a2.push(pair.1.clone());
                        Some(a2)
                    },
                    Flags::Real => Some(clone_string_vec(a)),
                }
            },
            None => None,
        };
        let nvd = VarData { name: vd.name.clone(), typee: vd.typee.clone(), values, angles };
        proof {
            assert(nvd@.values =~= push_sample(dv[idx as int], tv[idx as int], flags).values);
            match nvd@.angles {
                Some(a2) => {
                    assert(push_sample(dv[idx as int], tv[idx as int], flags).angles matches Some(
                        b,
                    ) && a2 =~= b);
                },
                None => {},
            }
            assert(nvd@ =~~= push_sample(dv[idx as int], tv[idx as int], flags));
        }
        let ghost prev = new_data@;
        let ghost nvdv = nvd@;
        new_data.push(nvd);
        idx += 1;
        proof {
            assert(new_data@ == prev.push(nvd));
            assert(data_view(new_data@) =~~= data_view(prev).push(nvdv));
            assert(data_view(new_data@) =~~= Seq::new(
                idx as nat,
                |i: int| push_sample(dv[i], tv[i], flags),
            ));
        }
    }
    *data = new_data;
    *temp_values = Vec::new();
    Ok(())
}

pub open spec fn mk_state(
    title: Seq<char>,
    date: Seq<char>,
    plotname: Seq<char>,
    flags: Flags,
    nvars: int,
    npoints: int,
    data: Seq<SeriesM>,
    mode: ParserMode,
    varc: int,
    temp: Seq<SampleM>,
) -> StateM {
    StateM { title, date, plotname, flags, nvars, npoints, data, mode, varc, temp }
}

proof fn lemma_step_run(st0: StateM, st1: StateM, lines: Seq<Seq<char>>, i: int)
    requires
        0 <= i < lines.len(),
        step(st0, lines[i]) == Ok::<StateM, SpiceParseError>(st1),
    ensures
        run(st0, lines, i) == run(st1, lines, i + 1),
{
}

proof fn lemma_step_run_err(st0: StateM, e: SpiceParseError, lines: Seq<Seq<char>>, i: int)
    requires
        0 <= i < lines.len(),
        step(st0, lines[i]) == Err::<StateM, SpiceParseError>(e),
    ensures
        run(st0, lines, i) == Err::<StateM, SpiceParseError>(e),
{
}

/// Parses the full raw text, as [`parse_model`] says: on success the
/// returned document is the model's, well formed; on failure the error is
/// the model's.
pub fn parse(file: &str) -> (r: Result<Plot, SpiceParseError>)
    ensures
        r matches Ok(p) ==> parse_model(file@) matches Ok(m) && p@ == m,
        r matches Ok(p) ==> plot_wf(p@),
        r matches Err(e) ==> parse_model(file@) == Err::<PlotM, SpiceParseError>(e),
{
    let all = chars_of(file);
    let lines = split_char(&all, '\n');
    let ghost linesv = lines@.map_values(|p: Vec<char>| p@);
    let mut title = String::new();
    let mut date = String::new();
    let mut plotname = String::new();
    let mut flags = Flags::Real;
    let mut no_of_variables: usize = 0;
    let mut no_of_points: usize = 0;
    let mut data: Vec<VarData> = Vec::new();
    let mut mode = ParserMode::Meta;
    let mut variable_counter: usize = 0;
    let mut temp_values: Vec<(String, String)> = Vec::new();
    proof {
        assert(init_state() =~~= mk_state(
            title@,
            date@,
            plotname@,
            flags,
            no_of_variables as int,
            no_of_points as int,
            data_view(data@),
            mode,
            variable_counter as int,
            temp_view(temp_values@),
        ));
        assert(data_view(data@) =~~= Seq::<SeriesM>::empty());
        assert(temp_view(temp_values@) =~~= Seq::<SampleM>::empty());
    }
    let mut li: usize = 0;
    while li < lines.len()
        invariant
            li <= lines@.len(),
            linesv == lines@.map_values(|p: Vec<char>| p@),
            linesv == split_spec(file@, '\n'),
            run(init_state(), linesv, 0) == run(
                mk_state(
                    title@,
                    date@,
                    plotname@,
                    flags,
                    no_of_variables as int,
                    no_of_points as int,
                    data_view(data@),
                    mode,
                    variable_counter as int,
                    temp_view(temp_values@),
                ),
                linesv,
                li as int,
            ),
            mode is Variable ==> variable_counter <= no_of_variables,
            !(mode is Value) ==> temp_values@.len() == 0,
            data_angles_ok(data_view(data@)),
            temp_angles_ok(flags, temp_view(temp_values@)),
        decreases lines@.len() - li,
    {
        let ghost st0 = mk_state(
            title@,
            date@,
            plotname@,
            flags,
            no_of_variables as int,
            no_of_points as int,
            data_view(data@),
            mode,
            variable_counter as int,
            temp_view(temp_values@),
        );
        let ghost li0 = li as int;
        let ghost lv = linesv[li0];
        proof {
            assert(lv == lines@[li0]@);
        }
        let t = trim_chars(&lines[li]);
        let ghost tv = t@;
        proof {
            assert(tv == trim_spec(lv));
        }
        if t.len() == 0 {
            proof {
                assert(step(st0, lv) == Ok::<StateM, SpiceParseError>(st0));
                lemma_step_run(st0, st0, linesv, li0);
            }
        } else {
            match mode {
                ParserMode::Meta => {
                    let (key, rest) = key_rest(&t);
                    proof {
                        assert(key@ == key_of(tv));
                        assert(rest@ == rest_of(tv));
                    }
                    if eq_str(&key, "Title") {
                        let tr = trim_chars(&rest);
                        title = string_from_chars(&tr);
                    } else if eq_str(&key, "Date") {
                        let sc = strip_colons(&rest);
                        let tr = trim_chars(&sc);
                        date = string_from_chars(&tr);
                    } else if eq_str(&key, "Plotname") {
                        let tr = trim_chars(&rest);
                        plotname = string_from_chars(&tr);
                    } else if eq_str(&key, "Flags") {
                        let fv = trim_chars(&rest);
                        if eq_str(&fv, "complex") {
                            flags = Flags::Complex;
                        } else if eq_str(&fv, "real") {
                            flags = Flags::Real;
                        } else {
                            proof {
                                assert(step(st0, lv) == Err::<StateM, SpiceParseError>(
                                    SpiceParseError::UnknownFlag,
                                ));
                                lemma_step_run_err(st0, SpiceParseError::UnknownFlag, linesv, li0);
                            }
                            return Err(SpiceParseError::UnknownFlag);
                        }
                    } else if eq_str(&key, "No. Variables") {
                        let tr = trim_chars(&rest);
                        match parse_usize(&tr) {
                            Some(n) => {
                                no_of_variables = n;
                            },
                            None => {
                                proof {
                                    assert(step(st0, lv) == Err::<StateM, SpiceParseError>(
                                        SpiceParseError::ParseInt,
                                    ));
                                    lemma_step_run_err(st0, SpiceParseError::ParseInt, linesv, li0);
                                }
                                return Err(SpiceParseError::ParseInt);
                            },
                        }
                    } else if eq_str(&key, "No. Points") {
                        let tr = trim_chars(&rest);
                        match parse_usize(&tr) {
                            Some(n) => {
                                no_of_points = n;
                            },
                            None => {
                                proof {
                                    assert(step(st0, lv) == Err::<StateM, SpiceParseError>(
                                        SpiceParseError::ParseInt,
                                    ));
                                    lemma_step_run_err(st0, SpiceParseError::ParseInt, linesv, li0);
                                }
                                return Err(SpiceParseError::ParseInt);
                            },
                        }
                    } else if eq_str(&key, "Variables") {
                        mode = ParserMode::Variable;
                        variable_counter = 0;
                    } else if eq_str(&key, "Values") {
                        mode = ParserMode::Value;
                    }
                    proof {
                        let st1 = mk_state(
                            title@,
                            date@,
                            plotname@,
                            flags,
                            no_of_variables as int,
                            no_of_points as int,
                            data_view(data@),
                            mode,
                            variable_counter as int,
                            temp_view(temp_values@),
                        );
                        assert(step(st0, lv) == Ok::<StateM, SpiceParseError>(st1));
                        lemma_step_run(st0, st1, linesv, li0);
                    }
                },
                ParserMode::Variable => {
                    if variable_counter == no_of_variables {
                        let kr = key_rest(&t);
                        let key = kr.0;
                        proof {
                            assert(key@ == key_of(tv));
                        }
                        if eq_str(&key, "Variables") {
                            variable_counter = 0;
                        } else if eq_str(&key, "Values") {
                            mode = ParserMode::Value;
                        } else {
                            proof {
                                assert(step(st0, lv) == Err::<StateM, SpiceParseError>(
                                    SpiceParseError::NoOfVarMismatch,
                                ));
                                lemma_step_run_err(
                                    st0,
                                    SpiceParseError::NoOfVarMismatch,
                                    linesv,
                                    li0,
                                );
                            }
                            return Err(SpiceParseError::NoOfVarMismatch);
                        }
                        proof {
                            let st1 = mk_state(
                                title@,
                                date@,
                                plotname@,
                                flags,
                                no_of_variables as int,
                                no_of_points as int,
                                data_view(data@),
                                mode,
                                variable_counter as int,
                                temp_view(temp_values@),
                            );
                            assert(step(st0, lv) == Ok::<StateM, SpiceParseError>(st1));
                            lemma_step_run(st0, st1, linesv, li0);
                        }
                        li += 1;
                        continue;
                    }
                    variable_counter += 1;
                    let parts = split_char(&t, '\t');
                    let ghost partsv = split_spec(tv, '\t');
                    let name_f = if parts.len() > 1 {
                        trim_chars(&parts[1])
                    } else {
                        Vec::new()
                    };
                    let type_f = if parts.len() > 2 {
                        trim_chars(&parts[2])
                    } else {
                        Vec::new()
                    };
                    proof {
                        assert(trim_spec(Seq::<char>::empty()) =~= Seq::<char>::empty());
                        assert(name_f@ == trim_spec(field(partsv, 1)));
                        assert(type_f@ == trim_spec(field(partsv, 2)));
                    }
                    let vd = VarData {
                        name: string_from_chars(&name_f),
                        typee: string_from_chars(&type_f),
                        values: Vec::new(),
                        angles: match flags {
                            Flags::Complex => Some(Vec::new()),
                            Flags::Real => None,
                        },
                    };
                    let ghost prev = data@;
                    let ghost vdv = vd@;
                    data.push(vd);
                    proof {
                        assert(vdv.values =~= Seq::<Seq<char>>::empty());
                        if flags is Complex {
                            assert(vdv.angles matches Some(a) && a =~= Seq::<Seq<char>>::empty());
                        }
                        assert(data_view(data@) =~~= data_view(prev).push(vdv));
                        assert(angles_parseable(vdv));
                        assert(data_angles_ok(data_view(data@)));
                        let st1 = mk_state(
                            title@,
                            date@,
                            plotname@,
                            flags,
                            no_of_variables as int,
                            no_of_points as int,
                            data_view(data@),
                            mode,
                            variable_counter as int,
                            temp_view(temp_values@),
                        );
                        assert(step_variable(st0, tv) matches Ok(s) && s =~~= st1);
                        assert(step(st0, lv) == Ok::<StateM, SpiceParseError>(st1));
                        lemma_step_run(st0, st1, linesv, li0);
                    }
                },
                ParserMode::Value => {
                    let parts = split_char(&t, '\t');
                    let ghost partsv = split_spec(tv, '\t');
                    let two = parts.len() == 2;
                    if two {
                        let ghost old_data = data_view(data@);
                        let ghost old_temp = temp_view(temp_values@);
                        match flush_values(no_of_variables, &mut temp_values, &mut data, flags) {
                            Ok(()) => {
                                proof {
                                    lemma_flush_angles(
                                        no_of_variables as int,
                                        flags,
                                        old_data,
                                        old_temp,
                                    );
                                    assert(temp_view(temp_values@) =~~= Seq::<SampleM>::empty());
                                }
                            },
                            Err(e) => {
                                proof {
                                    assert(step(st0, lv) == Err::<StateM, SpiceParseError>(e));
                                    lemma_step_run_err(st0, e, linesv, li0);
                                }
                                return Err(e);
                            },
                        }
                    }
                    let ghost st1 = if partsv.len() == 2 {
                        StateM {
                            data: flush_model(st0.nvars, st0.flags, st0.data, st0.temp)->Ok_0,
                            temp: Seq::empty(),
                            ..st0
                        }
                    } else {
                        st0
                    };
                    proof {
                        assert(data_view(data@) == st1.data);
                        assert(temp_view(temp_values@) == st1.temp);
                    }
                    let num: &Vec<char> = if two {
                        &parts[1]
                    } else {
                        &parts[0]
                    };
                    let ghost numv = if partsv.len() == 2 {
                        partsv[1]
                    } else {
                        partsv[0]
                    };
                    proof {
                        assert(num@ == numv);
                    }
                    match flags {
                        Flags::Real => {
                            if !check_float_text(num) {
                                proof {
                                    assert(step(st0, lv) == Err::<StateM, SpiceParseError>(
                                        SpiceParseError::ParseFloat,
                                    ));
                                    lemma_step_run_err(
                                        st0,
                                        SpiceParseError::ParseFloat,
                                        linesv,
                                        li0,
                                    );
                                }
                                return Err(SpiceParseError::ParseFloat);
                            }
                            match parse_num_text(num) {
                                Some(raw) => {
                                    let c = canonize(raw);
                                    let ghost prev = temp_view(temp_values@);
                                    temp_values.push((c, String::new()));
                                    proof {
                                        assert(temp_view(temp_values@) =~~= prev.push(
                                            sample_of_real(numv),
                                        ));
                                    }
                                },
                                None => {
                                    proof {
                                        assert(step(st0, lv) == Err::<StateM, SpiceParseError>(
                                            SpiceParseError::ParseFloat,
                                        ));
                                        lemma_step_run_err(
                                            st0,
                                            SpiceParseError::ParseFloat,
                                            linesv,
                                            li0,
                                        );
                                    }
                                    return Err(SpiceParseError::ParseFloat);
                                },
                            }
                        },
                        Flags::Complex => {
                            let cp = split_char(num, ',');
                            let ghost cpv = split_spec(numv, ',');
                            if cp.len() < 2 {
                                proof {
                                    assert(step(st0, lv) == Err::<StateM, SpiceParseError>(
                                        SpiceParseError::ParseFloat,
                                    ));
                                    lemma_step_run_err(
                                        st0,
                                        SpiceParseError::ParseFloat,
                                        linesv,
                                        li0,
                                    );
                                }
                                return Err(SpiceParseError::ParseFloat);
                            }
                            proof {
                                assert(cp@[0]@ == cpv[0]);
                                assert(cp@[1]@ == cpv[1]);
                            }
                            if !check_float_text(&cp[0]) || !check_float_text(&cp[1]) {
                                proof {
                                    assert(step(st0, lv) == Err::<StateM, SpiceParseError>(
                                        SpiceParseError::ParseFloat,
                                    ));
                                    lemma_step_run_err(
                                        st0,
                                        SpiceParseError::ParseFloat,
                                        linesv,
                                        li0,
                                    );
                                }
                                return Err(SpiceParseError::ParseFloat);
                            }
                            match complex_parts(&cp[0], &cp[1]) {
                                Some(pair) => {
                                    let (m, ph) = pair;
                                    let c = canonize(m);
                                    let ghost prev = temp_view(temp_values@);
                                    temp_values.push((c, ph));
                                    proof {
                                        assert(temp_view(temp_values@) =~~= prev.push(
                                            sample_of_complex(cpv[0], cpv[1]),
                                        ));
                                    }
                                },
                                None => {
                                    proof {
                                        assert(step(st0, lv) == Err::<StateM, SpiceParseError>(
                                            SpiceParseError::ParseFloat,
                                        ));
                                        lemma_step_run_err(
                                            st0,
                                            SpiceParseError::ParseFloat,
                                            linesv,
                                            li0,
                                        );
                                    }
                                    return Err(SpiceParseError::ParseFloat);
                                },
                            }
                        },
                    }
                    proof {
                        let st2 = mk_state(
                            title@,
                            date@,
                            plotname@,
                            flags,
                            no_of_variables as int,
                            no_of_points as int,
                            data_view(data@),
                            mode,
                            variable_counter as int,
                            temp_view(temp_values@),
                        );
                        assert(step_value(st0, tv) matches Ok(s) && s =~~= st2);
                        assert(step(st0, lv) == Ok::<StateM, SpiceParseError>(st2));
                        lemma_step_run(st0, st2, linesv, li0);
                    }
                },
            }
        }
        li += 1;
    }
    let ghost st_end = mk_state(
        title@,
        date@,
        plotname@,
        flags,
        no_of_variables as int,
        no_of_points as int,
        data_view(data@),
        mode,
        variable_counter as int,
        temp_view(temp_values@),
    );
    proof {
        assert(run(init_state(), linesv, 0) == Ok::<StateM, SpiceParseError>(st_end));
    }
    let ghost old_data = data_view(data@);
    let ghost old_temp = temp_view(temp_values@);
    match flush_values(no_of_variables, &mut temp_values, &mut data, flags) {
        Ok(()) => {
            proof {
                lemma_flush_angles(no_of_variables as int, flags, old_data, old_temp);
            }
        },
        Err(e) => {
            return Err(e);
        },
    }
    let ghost st2 = after_flush(
        st_end,
        flush_model(st_end.nvars, st_end.flags, st_end.data, st_end.temp)->Ok_0,
    );
    proof {
        assert(data_view(data@) == st2.data);
    }
    if data.len() != no_of_variables {
        proof {
            assert(validate(st2) == Err::<PlotM, SpiceParseError>(
                SpiceParseError::NoOfVarMismatch,
            ));
        }
        return Err(SpiceParseError::NoOfVarMismatch);
    }
    proof {
        assert(parse_model(file@) == validate(st2));
    }
    let mut j: usize = 0;
    while j < data.len()
        invariant
            parse_model(file@) == validate(st2),
            data_angles_ok(st2.data),
            j <= data@.len(),
            st2.data == data_view(data@),
            st2.npoints == no_of_points as int,
            st2.flags == flags,
            st2.nvars == no_of_variables as int,
            data@.len() == no_of_variables,
            forall|i: int|
                0 <= i < j ==> series_shape_ok(flags, #[trigger] data_view(data@)[i],
                no_of_points as int),
        decreases data@.len() - j,
    {
        let vd = &data[j];
        let values_ok = vd.values.len() == no_of_points;
        let angles_ok: bool = match (&vd.angles, flags) {
            (Some(a), Flags::Complex) => a.len() == vd.values.len(),
            (None, Flags::Real) => true,
            _ => false,
        };
        if !(values_ok && angles_ok) {
            proof {
                assert(data_view(data@)[j as int] == vd@);
                assert(!series_shape_ok(st2.flags, st2.data[j as int], st2.npoints));
                assert(validate(st2) == Err::<PlotM, SpiceParseError>(
                    SpiceParseError::NoOfValMismatch,
                ));
            }
            return Err(SpiceParseError::NoOfValMismatch);
        }
        proof {
            assert(data_view(data@)[j as int] == vd@);
            assert(series_shape_ok(flags, data_view(data@)[j as int], no_of_points as int));
        }
        j += 1;
    }
    let p = Plot { title, date, plotname, flags, no_of_variables, no_of_points, data };
    proof {
        assert(validate(st2) == Ok::<PlotM, SpiceParseError>(plot_of(st2)));
        assert(p@ =~~= plot_of(st2));
        assert(plot_wf(p@));
    }
    Ok(p)
}

} // verus!
