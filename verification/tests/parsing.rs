use ascent::cli::{parse_distances_angles, parse_distances_angles_pair, AngleType, CliParseError};

fn numbers(pair: &(String, String)) -> (f64, f64) {
    (pair.0.parse::<f64>().unwrap(), pair.1.parse::<f64>().unwrap())
}

fn tokens(line: &str) -> Vec<String> {
    line.split(" ").map(|s| s.to_string()).collect()
}

#[test]
fn test_parse_distances_angles() {
    let expected = vec![(800_f64, 5_f64), (300_f64, -1_f64), (1000_f64, 0_f64)];
    let distances_angles = "800,5 300,-1 1000,0"
        .split(" ")
        .map(|s| s.to_string())
        .collect();
    let result = parse_distances_angles(distances_angles).unwrap();
    let result: Vec<(f64, f64)> = result.iter().map(numbers).collect();
    assert_eq!(result, expected);
}

#[test]
fn test_parse_distances_angles_pair() {
    let result = parse_distances_angles_pair("800,5");
    assert_eq!(numbers(&result.unwrap()), (800_f64, 5_f64));
}

#[test]
fn pair_yields_the_literals_as_written() {
    let (distance, angle) = parse_distances_angles_pair("+8.50e2,-.5").unwrap();
    assert_eq!(distance, "+8.50e2");
    assert_eq!(angle, "-.5");
}

#[test]
fn pair_without_comma_misses_its_angle() {
    assert!(matches!(
        parse_distances_angles_pair("800"),
        Err(CliParseError::MissingAngle)
    ));
}

#[test]
fn empty_pair_misses_its_distance() {
    assert!(matches!(
        parse_distances_angles_pair(""),
        Err(CliParseError::MissingDistance)
    ));
}

#[test]
fn pair_that_starts_with_a_comma_misses_its_distance() {
    assert!(matches!(
        parse_distances_angles_pair(",5"),
        Err(CliParseError::MissingDistance)
    ));
    assert!(matches!(
        parse_distances_angles_pair(","),
        Err(CliParseError::MissingDistance)
    ));
}

#[test]
fn empty_angle_is_no_literal() {
    match parse_distances_angles_pair("800,") {
        Err(CliParseError::ParseFloatError(detail)) => {
            assert_eq!(detail, "cannot parse float from empty string");
            assert_eq!(detail, "".parse::<f64>().unwrap_err().to_string());
        }
        other => panic!("unexpected: {:?}", other),
    }
    match parse_distances_angles_pair("800,,3") {
        Err(CliParseError::ParseFloatError(detail)) => {
            assert_eq!(detail, "cannot parse float from empty string");
        }
        other => panic!("unexpected: {:?}", other),
    }
}

#[test]
fn bad_distance_is_no_literal() {
    match parse_distances_angles_pair("abc,5") {
        Err(CliParseError::ParseFloatError(detail)) => {
            assert_eq!(detail, "invalid float literal");
            assert_eq!(detail, "abc".parse::<f64>().unwrap_err().to_string());
        }
        other => panic!("unexpected: {:?}", other),
    }
}

#[test]
fn bad_angle_is_no_literal() {
    match parse_distances_angles_pair("800,5x") {
        Err(CliParseError::ParseFloatError(detail)) => {
            assert_eq!(detail, "invalid float literal");
        }
        other => panic!("unexpected: {:?}", other),
    }
    assert!(matches!(
        parse_distances_angles_pair("800, 5"),
        Err(CliParseError::ParseFloatError(_))
    ));
}

#[test]
fn distance_is_judged_before_the_angle_is_looked_for() {
    assert!(matches!(
        parse_distances_angles_pair("abc"),
        Err(CliParseError::ParseFloatError(_))
    ));
    assert!(matches!(
        parse_distances_angles_pair("abc,"),
        Err(CliParseError::ParseFloatError(_))
    ));
}

#[test]
fn fields_behind_the_second_are_ignored() {
    let (distance, angle) = parse_distances_angles_pair("1,2,3").unwrap();
    assert_eq!((distance.as_str(), angle.as_str()), ("1", "2"));
    let (distance, angle) = parse_distances_angles_pair("1,2,").unwrap();
    assert_eq!((distance.as_str(), angle.as_str()), ("1", "2"));
    let (distance, angle) = parse_distances_angles_pair("1,2,not a number").unwrap();
    assert_eq!((distance.as_str(), angle.as_str()), ("1", "2"));
}

#[test]
fn pair_with_characters_outside_ascii() {
    assert!(matches!(
        parse_distances_angles_pair("8\u{e9},5"),
        Err(CliParseError::ParseFloatError(_))
    ));
    assert!(matches!(
        parse_distances_angles_pair("\u{663}\u{ff0c}5"),
        Err(CliParseError::ParseFloatError(_))
    ));
    let (distance, angle) = parse_distances_angles_pair("8,5,\u{e9}\u{1f600}").unwrap();
    assert_eq!((distance.as_str(), angle.as_str()), ("8", "5"));
}

#[test]
fn empty_list_parses_to_nothing() {
    assert!(parse_distances_angles(Vec::new()).unwrap().is_empty());
}

#[test]
fn list_keeps_the_order_of_its_tokens() {
    let result = parse_distances_angles(tokens("3,1 2,2 1,3 inf,nan")).unwrap();
    let texts: Vec<(&str, &str)> = result
        .iter()
        .map(|p| (p.0.as_str(), p.1.as_str()))
        .collect();
    assert_eq!(texts, vec![("3", "1"), ("2", "2"), ("1", "3"), ("inf", "nan")]);
}

#[test]
fn first_bad_token_decides_the_error() {
    assert!(matches!(
        parse_distances_angles(tokens("800,5 300 ,1 x,y")),
        Err(CliParseError::MissingAngle)
    ));
    assert!(matches!(
        parse_distances_angles(tokens("800,5  300")),
        Err(CliParseError::MissingDistance)
    ));
    assert!(matches!(
        parse_distances_angles(tokens("x,y 300 ,1")),
        Err(CliParseError::ParseFloatError(_))
    ));
    assert!(matches!(
        parse_distances_angles(tokens("1,1 2,2 3,")),
        Err(CliParseError::ParseFloatError(_))
    ));
}

#[test]
fn list_agrees_with_its_tokens_taken_alone() {
    let line = "800,5 300,-1 7 1000,0 ,2";
    for n in 0..6 {
        let list: Vec<String> = tokens(line).into_iter().take(n).collect();
        let alone: Vec<_> = list
            .iter()
            .map(|t| parse_distances_angles_pair(t))
            .collect();
        match parse_distances_angles(list) {
            Ok(pairs) => {
                assert_eq!(pairs.len(), n);
                for (pair, one) in pairs.iter().zip(alone.iter()) {
                    assert_eq!(pair, one.as_ref().unwrap());
                }
            }
            Err(e) => {
                let first = alone.iter().find(|r| r.is_err()).unwrap();
                assert_eq!(e.message(), first.as_ref().unwrap_err().message());
            }
        }
    }
}

#[test]
fn messages_of_the_errors() {
    assert_eq!(
        CliParseError::MissingDistance.message(),
        "Distance cannot be empty"
    );
    assert_eq!(CliParseError::MissingAngle.message(), "Angle cannot be empty");
    assert_eq!(
        CliParseError::ParseFloatError("invalid float literal".to_string()).message(),
        "Failed to convert to float invalid float literal"
    );
    assert_eq!(
        parse_distances_angles_pair("1,").unwrap_err().message(),
        "Failed to convert to float cannot parse float from empty string"
    );
}

#[test]
fn angles_are_in_degrees_by_default() {
    assert_eq!(AngleType::default(), AngleType::Degrees);
    assert_ne!(AngleType::default(), AngleType::Radians);
    assert!(AngleType::Degrees < AngleType::Radians);
}
