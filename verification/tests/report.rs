use ascent::plotting::report;

#[test]
fn report_has_three_labelled_lines() {
    assert_eq!(
        report("-0.67", "87.49", "-88.16"),
        "altitude: -0.67\ntotal_ascent: 87.49\ntotal_descent: -88.16"
    );
}

#[test]
fn report_shows_the_numbers_as_they_are_given() {
    let text = report(&0.0_f64.to_string(), &1.5_f64.to_string(), &(-2.25_f64).to_string());
    let lines: Vec<&str> = text.lines().collect();
    assert_eq!(lines, vec!["altitude: 0", "total_ascent: 1.5", "total_descent: -2.25"]);
    assert!(!text.ends_with('\n'));
}

#[test]
fn report_of_empty_numbers_keeps_its_labels() {
    assert_eq!(report("", "", ""), "altitude: \ntotal_ascent: \ntotal_descent: ");
}
