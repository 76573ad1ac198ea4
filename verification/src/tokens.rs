//! The lexical recognizers that nom provides, each behind a contract.

use crate::chars::{is_alpha, is_alphanumeric, is_space};
use vstd::prelude::*;

verus! {

/// `nom::Err`, the failure of a nom parser. It is carried, never read.
#[verifier::external_type_specification]
#[verifier::external_body]
#[verifier::reject_recursive_types(E)]
pub struct ExNomErr<E>(nom::Err<E>);

/// `nom::error::Error`, the place and kind inside a `nom::Err`. It is
/// carried, never read.
#[verifier::external_type_specification]
#[verifier::external_body]
#[verifier::reject_recursive_types(I)]
pub struct ExNomError<I>(nom::error::Error<I>);

/// `nom::character::complete::alpha1` on a string slice: succeeds when the
/// input begins with an ASCII letter, and then splits off the longest run of
/// ASCII letters at its front.
#[verifier::external_body]
pub(crate) fn alpha1<'a>(input: &'a str) -> (r: Result<
    (&'a str, &'a str),
    nom::Err<nom::error::Error<&'a str>>,
>)
    ensures
        match r {
            Ok((rest, run)) => {
                &&& run@.len() > 0
                &&& run@ + rest@ == input@
                &&& forall|i: int| 0 <= i < run@.len() ==> is_alpha(#[trigger] run@[i])
                &&& rest@.len() > 0 ==> !is_alpha(rest@[0])
            },
            Err(_) => input@.len() == 0 || !is_alpha(input@[0]),
        },
{
    nom::character::complete::alpha1(input)
}

/// `nom::character::complete::alphanumeric1` on a string slice: succeeds when
/// the input begins with an ASCII letter or digit, and then splits off the
/// longest run of ASCII letters and digits at its front.
#[verifier::external_body]
pub(crate) fn alphanumeric1<'a>(input: &'a str) -> (r: Result<
    (&'a str, &'a str),
    nom::Err<nom::error::Error<&'a str>>,
>)
    ensures
        match r {
            Ok((rest, run)) => {
                &&& run@.len() > 0
                &&& run@ + rest@ == input@
                &&& forall|i: int| 0 <= i < run@.len() ==> is_alphanumeric(#[trigger] run@[i])
                &&& rest@.len() > 0 ==> !is_alphanumeric(rest@[0])
            },
            Err(_) => input@.len() == 0 || !is_alphanumeric(input@[0]),
        },
{
    nom::character::complete::alphanumeric1(input)
}

/// `nom::character::complete::multispace0` on a string slice: always
/// succeeds, and splits off the longest run of spaces, tabs, carriage returns
/// and line feeds at the front of the input, which may be empty.
#[verifier::external_body]
pub(crate) fn multispace0<'a>(input: &'a str) -> (r: Result<
    (&'a str, &'a str),
    nom::Err<nom::error::Error<&'a str>>,
>)
    ensures
        match r {
            Ok((rest, run)) => {
                &&& run@ + rest@ == input@
                &&& forall|i: int| 0 <= i < run@.len() ==> is_space(#[trigger] run@[i])
                &&& rest@.len() > 0 ==> !is_space(rest@[0])
            },
            Err(_) => false,
        },
{
    nom::character::complete::multispace0(input)
}

/// `nom::character::complete::char` applied to a string slice: succeeds when
/// the first character of the input is `c`, and then hands back `c` and the
/// input behind it.
#[verifier::external_body]
pub(crate) fn one_char<'a>(c: char, input: &'a str) -> (r: Result<
    (&'a str, char),
    nom::Err<nom::error::Error<&'a str>>,
>)
    ensures
        match r {
            Ok((rest, found)) => {
                &&& input@.len() > 0
                &&& input@[0] == c
                &&& found == c
                &&& rest@ == input@.skip(1)
            },
            Err(_) => input@.len() == 0 || input@[0] != c,
        },
{
    nom::character::complete::char(c)(input)
}

/// `nom::bytes::complete::tag` applied to a string slice: succeeds when the
/// input begins with `pattern`, and then splits the input behind it.
#[verifier::external_body]
pub(crate) fn tag<'a>(pattern: &str, input: &'a str) -> (r: Result<
    (&'a str, &'a str),
    nom::Err<nom::error::Error<&'a str>>,
>)
    ensures
        match r {
            Ok((rest, found)) => {
                &&& found@ == pattern@
                &&& found@ + rest@ == input@
            },
            Err(_) => !pattern@.is_prefix_of(input@),
        },
{
    nom::bytes::complete::tag(pattern)(input)
}

} // verus!
