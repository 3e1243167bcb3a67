//! Reading raw points out of a PLY document held in memory.
//!
//! The document is tokenised and structured by the `ply-rs` parser. What is
//! decided here is which documents reach that parser, which element group
//! holds the points, which outcomes count as failures, and how the
//! properties of each vertex become a raw point.

use crate::gaussian::{gaussian_of, name_is, property_list, PlyGaussian, PropertyValue};
use crate::header::{header_numbers_fit, header_numbers_in_range};
use ply_rs::parser::Parser;
use ply_rs::ply::{DefaultElement, Property};
use std::io::Cursor;
use vstd::prelude::*;

verus! {

/// Why a document yields no points.
#[derive(Debug, PartialEq, Eq)]
pub enum ParseError {
    /// The document is not a well-formed property list. The text says what
    /// was found wrong and, where known, on which line.
    Malformed(String),
    /// The document is well formed but has no element group named `vertex`.
    NoVertexElement,
}

/// The properties of one element, in header order, each by name and value.
pub type Element = Vec<(String, PropertyValue)>;

/// One element group of a document: its name and its elements, in document
/// order.
pub type Group = (String, Vec<Element>);

/// An element as plain values.
pub type ElementModel = Seq<(Seq<char>, PropertyValue)>;

/// An element group as plain values.
pub type GroupModel = (Seq<char>, Seq<Seq<(Seq<char>, PropertyValue)>>);

/// What the parser makes of a document: nothing when it is not a valid
/// property list; else every element group of its payload, by name, in the
/// order in which the payload holds them.
pub uninterp spec fn parsed_document(data: Seq<u8>) -> Option<
    Seq<(Seq<char>, Seq<Seq<(Seq<char>, PropertyValue)>>)>,
>;

/// A list of elements as plain values.
pub open spec fn elements_view(elements: Seq<Element>) -> Seq<ElementModel> {
    Seq::new(elements.len(), |i: int| property_list(elements[i]@))
}

/// A list of element groups as plain values.
pub open spec fn groups_view(groups: Seq<Group>) -> Seq<GroupModel> {
    Seq::new(groups.len(), |i: int| (groups[i].0@, elements_view(groups[i].1@)))
}

/// A parser outcome as plain values, the text of a failure left out.
pub open spec fn outcome_view(outcome: Result<Vec<Group>, String>) -> Option<Seq<GroupModel>> {
    match outcome {
        Ok(groups) => Some(groups_view(groups@)),
        Err(_) => None,
    }
}

/// Whether the group at place `at` is the one that holds the points: the
/// first group named `vertex`.
pub open spec fn is_vertex_place(groups: Seq<GroupModel>, at: int) -> bool {
    &&& 0 <= at < groups.len()
    &&& groups[at].0 == "vertex"@
    &&& forall|j: int| 0 <= j < at ==> (#[trigger] groups[j]).0 != "vertex"@
}

/// Whether no group is named `vertex`.
pub open spec fn lacks_vertex_group(groups: Seq<GroupModel>) -> bool {
    forall|i: int| 0 <= i < groups.len() ==> (#[trigger] groups[i]).0 != "vertex"@
}

/// The raw points that a list of elements describes, one per element.
pub open spec fn gaussians_of(elements: Seq<ElementModel>) -> Seq<PlyGaussian> {
    Seq::new(elements.len(), |i: int| gaussian_of(elements[i]))
}

/// What is said of a document whose header holds a number too large to read.
pub open spec fn number_out_of_range_text() -> Seq<char> {
    "a number in the header does not fit in 64 bits"@
}

/// Parses a document with `ply_rs::parser::Parser::<DefaultElement>::read_ply`
/// and hands back its payload as plain values, every element group under its
/// name in payload order, or the parser's error as text.
///
/// Trusted: that the outcome depends on the bytes alone, which the contract
/// records by naming it `parsed_document`. The text of an error is left
/// open, since the parser prints sets whose order is not fixed. The parser
/// reads the version and each element count with a conversion that aborts
/// on a number beyond 64 bits; the precondition keeps such documents away.
#[verifier::external_body]
fn read_elements(data: &[u8]) -> (outcome: Result<Vec<Group>, String>)
    requires
        header_numbers_fit(data@),
    ensures
        outcome_view(outcome) == parsed_document(data@),
{
    let parser = Parser::<DefaultElement>::new();
    let ply = parser.read_ply(&mut Cursor::new(data)).map_err(|e| e.to_string())?;
    Ok(ply.payload.iter().map(|(group, elements)| {
        (group.clone(), elements.iter().map(|element| {
            element.iter().map(|(name, value)| (name.clone(), match value {
                Property::Float(v) => PropertyValue::Float(v.to_bits()),
                _ => PropertyValue::Other,
            })).collect()
        }).collect())
    }).collect())
}

/// Picks the element group that holds the points: the first one named
/// `vertex`, if there is one.
pub fn vertex_group(groups: &Vec<Group>) -> (r: Option<&Vec<Element>>)
    ensures
        match r {
            Some(elements) => exists|at: int|
                is_vertex_place(groups_view(groups@), at) && *elements == groups@[at].1,
            None => lacks_vertex_group(groups_view(groups@)),
        },
{
    proof {
        reveal_strlit("vertex");
    }
    let mut i: usize = 0;
    while i < groups.len()
        invariant
            i <= groups.len(),
            vstd::string::is_ascii("vertex"),
            forall|j: int| 0 <= j < i ==> (#[trigger] groups_view(groups@)[j]).0 != "vertex"@,
        decreases groups.len() - i,
    {
        if name_is(groups[i].0.as_str(), "vertex") {
            assert(is_vertex_place(groups_view(groups@), i as int));
            return Some(&groups[i].1);
        }
        i += 1;
    }
    None
}

/// Turns each element into a raw point.
pub fn gaussians_from_elements(elements: &Vec<Element>) -> (points: Vec<PlyGaussian>)
    ensures
        points@ == gaussians_of(elements_view(elements@)),
{
    let mut points: Vec<PlyGaussian> = Vec::new();
    let mut i: usize = 0;
    while i < elements.len()
        invariant
            i <= elements.len(),
            points@ == gaussians_of(elements_view(elements@)).take(i as int),
        decreases elements.len() - i,
    {
        let g = PlyGaussian::from_properties(&elements[i]);
        points.push(g);
        assert(points@ =~= gaussians_of(elements_view(elements@)).take(i + 1));
        i += 1;
    }
    assert(gaussians_of(elements_view(elements@)).take(i as int) =~= gaussians_of(
        elements_view(elements@),
    ));
    points
}

/// Judges a parser outcome.
///
/// A parsed document yields one raw point per element of its first group
/// named `vertex`, in document order; with no group of that name it is
/// refused as `NoVertexElement`; a parser failure is refused as
/// `Malformed`, with the parser's text.
pub fn gaussians_from_outcome(outcome: Result<Vec<Group>, String>) -> (r: Result<
    Vec<PlyGaussian>,
    ParseError,
>)
    ensures
        match outcome {
            Ok(groups) => match r {
                Ok(points) => exists|at: int|
                    is_vertex_place(groups_view(groups@), at) && points@ == gaussians_of(
                        groups_view(groups@)[at].1,
                    ),
                Err(e) => e == ParseError::NoVertexElement && lacks_vertex_group(
                    groups_view(groups@),
                ),
            },
            Err(text) => r == Err::<Vec<PlyGaussian>, ParseError>(ParseError::Malformed(text)),
        },
{
    match outcome {
        Ok(groups) => match vertex_group(&groups) {
            Some(elements) => Ok(gaussians_from_elements(elements)),
            None => Err(ParseError::NoVertexElement),
        },
        Err(text) => Err(ParseError::Malformed(text)),
    }
}

/// Reads the raw points of a PLY document, text or binary.
///
/// The result is `Ok` exactly when the header's numbers fit in 64 bits, the
/// parser accepts the document and one of its element groups is named
/// `vertex`; the points then are those of the first such group, in document
/// order, each built from the vertex's properties as
/// `PlyGaussian::from_properties` builds it.
pub fn load_ply_from_bytes(data: &[u8]) -> (r: Result<Vec<PlyGaussian>, ParseError>)
    ensures
        match r {
            Ok(points) => header_numbers_fit(data@) && match parsed_document(data@) {
                Some(groups) => exists|at: int|
                    is_vertex_place(groups, at) && points@ == gaussians_of(groups[at].1),
                None => false,
            },
            Err(ParseError::NoVertexElement) => header_numbers_fit(data@) && match parsed_document(
                data@,
            ) {
                Some(groups) => lacks_vertex_group(groups),
                None => false,
            },
            Err(ParseError::Malformed(text)) => if header_numbers_fit(data@) {
                parsed_document(data@) is None
            } else {
                text@ == number_out_of_range_text()
            },
        },
{
    if !header_numbers_in_range(data) {
        return Err(
            ParseError::Malformed("a number in the header does not fit in 64 bits".to_owned()),
        );
    }
    let outcome = read_elements(data);
    let ghost parsed = outcome_view(outcome);
    let r = gaussians_from_outcome(outcome);
    proof {
        if parsed is Some && r is Ok {
            let groups = parsed->Some_0;
            let points = r->Ok_0;
            let at = choose|at: int|
                is_vertex_place(groups, at) && points@ == gaussians_of(groups[at].1);
            assert(is_vertex_place(groups, at) && points@ == gaussians_of(groups[at].1));
        }
    }
    r
}

} // verus!
