//! Document-level guarantees, stated over the parser's model: whatever text
//! is parsed, a document that comes out has the declared shape.

use vstd::prelude::*;

use crate::parser::parse_model;
use crate::plot::series_shape_ok;
use crate::plot::Flags;

verus! {

/// Completeness: a successfully parsed document has exactly as many series
/// as the header declared, and every series has exactly one sample per
/// declared point.
pub proof fn lemma_parsed_shape(s: Seq<char>)
    ensures
        parse_model(s) matches Ok(m) ==> m.data.len() == m.no_of_variables,
        parse_model(s) matches Ok(m) ==> forall|i: int|
            0 <= i < m.data.len() ==> (#[trigger] m.data[i]).values.len() == m.no_of_points,
{
    if parse_model(s) is Ok {
        let m = parse_model(s)->Ok_0;
        assert forall|i: int|
            0 <= i < m.data.len() implies (#[trigger] m.data[i]).values.len()
            == m.no_of_points by {
            assert(series_shape_ok(m.flags, m.data[i], m.no_of_points));
        }
    }
}

/// Flag/shape consistency: on a `Real` document no series carries angles;
/// on a `Complex` document every series carries angles, one per sample.
pub proof fn lemma_flag_shape(s: Seq<char>)
    ensures
        parse_model(s) matches Ok(m) ==> (m.flags is Real ==> forall|i: int|
            0 <= i < m.data.len() ==> (#[trigger] m.data[i]).angles is None),
        parse_model(s) matches Ok(m) ==> (m.flags is Complex ==> forall|i: int|
            0 <= i < m.data.len() ==> ((#[trigger] m.data[i]).angles is Some
                && m.data[i].angles->0.len() == m.data[i].values.len())),
{
    if parse_model(s) is Ok {
        let m = parse_model(s)->Ok_0;
        if m.flags is Real {
            assert forall|i: int|
                0 <= i < m.data.len() implies (#[trigger] m.data[i]).angles is None by {
                assert(series_shape_ok(m.flags, m.data[i], m.no_of_points));
            }
        }
        if m.flags is Complex {
            assert forall|i: int|
                0 <= i < m.data.len() implies ((#[trigger] m.data[i]).angles is Some
                    && m.data[i].angles->0.len() == m.data[i].values.len()) by {
                assert(series_shape_ok(m.flags, m.data[i], m.no_of_points));
            }
        }
    }
}

} // verus!
