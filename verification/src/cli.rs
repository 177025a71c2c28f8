//! The angle unit, the parse errors, and the parsing of segment tokens.
//!
//! A token is `<distance>,<angle>`. Its distance is what stands before the
//! first comma, its angle what stands between the first comma and the second
//! (or the end). A token is accepted when both are floating-point literals;
//! what it then yields is the two literals as they were written.

use crate::float_literal::{
    after, before, chars_of, find_first, float_literal, is_float_literal_chars, lemma_first_of,
    lemma_literal_alphabet,
};
use vstd::prelude::*;
use vstd::slice::slice_subrange;
use vstd::string::*;

verus! {

/// Type of angle input data.
#[derive(Debug, Clone, Copy, PartialEq, Eq, PartialOrd, Ord, Hash, Structural)]
pub enum AngleType {
    Degrees,
    Radians,
}

impl Default for AngleType {
    /// Angles are in degrees unless the caller says otherwise.
    fn default() -> (r: AngleType)
        ensures
            r == AngleType::Degrees,
    {
        AngleType::Degrees
    }
}

/// Error enum used by functions that parse elevation change series.
#[derive(Debug)]
pub enum CliParseError {
    /// Nothing stands before the separator.
    MissingDistance,
    /// The token has no separator, and so no second field.
    MissingAngle,
    /// A field is there but is no floating-point literal; holds the reason.
    ParseFloatError(String),
}

/// What a `CliParseError` is, with its text as a sequence of characters.
pub enum ParseFailure {
    MissingDistance,
    MissingAngle,
    ParseFloatError(Seq<char>),
}

impl View for CliParseError {
    type V = ParseFailure;

    open spec fn view(&self) -> ParseFailure {
        match self {
            CliParseError::MissingDistance => ParseFailure::MissingDistance,
            CliParseError::MissingAngle => ParseFailure::MissingAngle,
            CliParseError::ParseFloatError(detail) => ParseFailure::ParseFloatError(detail@),
        }
    }
}

/// The reason given for an empty field.
pub open spec fn empty_detail() -> Seq<char> {
    "cannot parse float from empty string"@
}

/// The reason given for a field that is not empty and no literal.
pub open spec fn invalid_detail() -> Seq<char> {
    "invalid float literal"@
}

/// The text that describes a failure.
pub open spec fn failure_message(failure: ParseFailure) -> Seq<char> {
    match failure {
        ParseFailure::MissingDistance => "Distance cannot be empty"@,
        ParseFailure::MissingAngle => "Angle cannot be empty"@,
        ParseFailure::ParseFloatError(detail) => "Failed to convert to float "@ + detail,
    }
}

impl CliParseError {
    /// The text that describes this error.
    pub fn message(&self) -> (text: String)
        ensures
            text@ == failure_message(self@),
    {
        match self {
            CliParseError::MissingDistance => String::from_str("Distance cannot be empty"),
            CliParseError::MissingAngle => String::from_str("Angle cannot be empty"),
            CliParseError::ParseFloatError(detail) => String::from_str(
                "Failed to convert to float ",
            ).concat(detail.as_str()),
        }
    }
}

/// The distance of a token: what stands before its first comma.
pub open spec fn distance_field(token: Seq<char>) -> Seq<char> {
    before(token, ',', ',')
}

/// The angle of a token: what stands between its first comma and the next,
/// or `None` where the token has no comma.
pub open spec fn angle_field(token: Seq<char>) -> Option<Seq<char>> {
    match after(token, ',', ',') {
        None => None,
        Some(rest) => Some(before(rest, ',', ',')),
    }
}

/// What a field gives: itself where it is a literal, else the reason why not.
pub open spec fn read_field(field: Seq<char>) -> Result<Seq<char>, ParseFailure> {
    if field.len() == 0 {
        Err(ParseFailure::ParseFloatError(empty_detail()))
    } else if !float_literal(field) {
        Err(ParseFailure::ParseFloatError(invalid_detail()))
    } else {
        Ok(field)
    }
}

/// What a token parses to. The distance is judged before the angle is looked
/// for, so a token with a bad distance and no comma fails on the distance.
pub open spec fn parse_pair(token: Seq<char>) -> Result<(Seq<char>, Seq<char>), ParseFailure> {
    if distance_field(token).len() == 0 {
        Err(ParseFailure::MissingDistance)
    } else {
        match read_field(distance_field(token)) {
            Err(failure) => Err(failure),
            Ok(distance) => match angle_field(token) {
                None => Err(ParseFailure::MissingAngle),
                Some(field) => match read_field(field) {
                    Err(failure) => Err(failure),
                    Ok(angle) => Ok((distance, angle)),
                },
            },
        }
    }
}

/// The result of parsing one token, with its texts as sequences of characters.
pub open spec fn pair_outcome(r: Result<(String, String), CliParseError>) -> Result<
    (Seq<char>, Seq<char>),
    ParseFailure,
> {
    match r {
        Ok(pair) => Ok((pair.0@, pair.1@)),
        Err(e) => Err(e@),
    }
}

/// Two literals joined by a comma parse to themselves, whatever further
/// fields follow behind a second comma.
pub proof fn lemma_joined_literals_parse(distance: Seq<char>, angle: Seq<char>, more: Seq<char>)
    requires
        float_literal(distance),
        float_literal(angle),
        more.len() == 0 || more[0] == ',',
    ensures
        parse_pair(distance + seq![','] + angle + more) == Ok::<
            (Seq<char>, Seq<char>),
            ParseFailure,
        >((distance, angle)),
{
    let token = distance + seq![','] + angle + more;
    lemma_literal_alphabet(distance);
    lemma_literal_alphabet(angle);
    assert forall|j: int| 0 <= j < distance.len() implies token[j] != ',' by {
        assert(token[j] == distance[j]);
    }
    lemma_first_of(token, ',', ',', distance.len() as int);
    assert(distance_field(token) =~= distance);
    let rest = after(token, ',', ',')->0;
    assert(rest =~= angle + more);
    assert forall|j: int| 0 <= j < angle.len() implies rest[j] != ',' by {
        assert(rest[j] == angle[j]);
    }
    lemma_first_of(rest, ',', ',', angle.len() as int);
    assert(before(rest, ',', ',') =~= angle);
}

/// A token parses only where it holds a comma with a literal on either side
/// of it: then, and only then, it yields the two fields as they stand.
pub proof fn lemma_parsed_fields_are_literals(token: Seq<char>)
    ensures
        parse_pair(token) is Ok <==> float_literal(distance_field(token)) && angle_field(token)
            is Some && float_literal(angle_field(token)->0),
        parse_pair(token) is Ok ==> parse_pair(token)->Ok_0 == (
            distance_field(token),
            angle_field(token)->0,
        ),
{
    if float_literal(distance_field(token)) {
        lemma_literal_alphabet(distance_field(token));
    }
    if angle_field(token) is Some && float_literal(angle_field(token)->0) {
        lemma_literal_alphabet(angle_field(token)->0);
    }
}

/// Judges one field of a token.
fn check_field(field: &[char]) -> (r: Result<(), CliParseError>)
    ensures
        match r {
            Ok(_) => read_field(field@) == Ok::<Seq<char>, ParseFailure>(field@),
            Err(e) => read_field(field@) == Err::<Seq<char>, ParseFailure>(e@),
        },
{
    if field.len() == 0 {
        Err(CliParseError::ParseFloatError(String::from_str("cannot parse float from empty string")))
    } else if !is_float_literal_chars(field) {
        Err(CliParseError::ParseFloatError(String::from_str("invalid float literal")))
    } else {
        Ok(())
    }
}

/// Parses input distance-angle pair data.
///
/// `distances_angles_pair` is a single pair of distance and angle, separated
/// by a comma. Returns the two literals, distance first, or the first thing
/// that is wrong with the token.
pub fn parse_distances_angles_pair(distances_angles_pair: &str) -> (r: Result<
    (String, String),
    CliParseError,
>)
    ensures
        pair_outcome(r) == parse_pair(distances_angles_pair@),
{
    let chars = chars_of(distances_angles_pair);
    let token = chars.as_slice();
    let comma: usize = find_first(token, ',', ',');
    if comma == 0 {
        return Err(CliParseError::MissingDistance);
    }
    match check_field(slice_subrange(token, 0, comma)) {
        Err(e) => {
            return Err(e);
        },
        Ok(_) => {},
    }
    if comma == token.len() {
        return Err(CliParseError::MissingAngle);
    }
    let rest = slice_subrange(token, comma + 1, token.len());
    let end: usize = find_first(rest, ',', ',');
    match check_field(slice_subrange(rest, 0, end)) {
        Err(e) => {
            return Err(e);
        },
        Ok(_) => {},
    }
    let distance = distances_angles_pair.substring_char(0, comma).to_owned();
    let angle = distances_angles_pair.substring_char(comma + 1, comma + 1 + end).to_owned();
    assert(angle@ =~= rest@.take(end as int));
    Ok((distance, angle))
}

/// `pairs` holds, in the order of `tokens`, what each of them parses to.
pub open spec fn all_parse_to(tokens: Seq<String>, pairs: Seq<(String, String)>) -> bool {
    &&& pairs.len() == tokens.len()
    &&& forall|i: int|
        0 <= i < tokens.len() ==> parse_pair(#[trigger] tokens[i]@) == Ok::<
            (Seq<char>, Seq<char>),
            ParseFailure,
        >((pairs[i].0@, pairs[i].1@))
}

/// One of `tokens` does not parse, and the first such token fails with
/// `failure`.
pub open spec fn first_failure_is(tokens: Seq<String>, failure: ParseFailure) -> bool {
    exists|k: int|
        {
            &&& 0 <= k < tokens.len()
            &&& parse_pair(#[trigger] tokens[k]@) == Err::<(Seq<char>, Seq<char>), ParseFailure>(
                failure,
            )
            &&& forall|i: int| 0 <= i < k ==> parse_pair(#[trigger] tokens[i]@) is Ok
        }
}

/// Parses a list of tokens, in order. The first token that fails decides the
/// error, and nothing of the others is returned.
pub fn parse_distances_angles(distances_angles: Vec<String>) -> (r: Result<
    Vec<(String, String)>,
    CliParseError,
>)
    ensures
        match r {
            Ok(pairs) => all_parse_to(distances_angles@, pairs@),
            Err(e) => first_failure_is(distances_angles@, e@),
        },
{
    let mut pairs: Vec<(String, String)> = Vec::new();
    let mut i: usize = 0;
    while i < distances_angles.len()
        invariant
            i <= distances_angles@.len(),
            all_parse_to(distances_angles@.take(i as int), pairs@),
        decreases distances_angles@.len() - i,
    {
        match parse_distances_angles_pair(distances_angles[i].as_str()) {
            Err(e) => {
                assert(parse_pair(distances_angles@[i as int]@) is Err);
                assert forall|j: int| 0 <= j < i implies parse_pair(
                    #[trigger] distances_angles@[j]@,
                ) is Ok by {
                    assert(distances_angles@.take(i as int)[j] == distances_angles@[j]);
                }
                return Err(e);
            },
            Ok(pair) => {
                pairs.push(pair);
                assert forall|j: int| 0 <= j < i + 1 implies parse_pair(
                    #[trigger] distances_angles@.take(i + 1)[j]@,
                ) == Ok::<(Seq<char>, Seq<char>), ParseFailure>((pairs@[j].0@, pairs@[j].1@)) by {
                    if j < i {
                        assert(distances_angles@.take(i as int)[j] == distances_angles@[j]);
                    }
                }
            },
        }
        i += 1;
    }
    assert(distances_angles@.take(i as int) =~= distances_angles@);
    Ok(pairs)
}

} // verus!
