use elisa::error::ValueError;
use elisa::regression::{Parameters, Regression};
use elisa::standards::{highest_response, lowest_response, sort_by_dose, steepest_rise};

fn points(pairs: &[(f64, f64)]) -> Vec<(u64, u64)> {
    pairs.iter().map(|&(x, y)| (x.to_bits(), y.to_bits())).collect()
}

fn bits(values: &[f64]) -> Vec<u64> {
    values.iter().map(|v| v.to_bits()).collect()
}

#[test]
fn sort_by_dose_orders_ascending() {
    let input = points(&[(25.0, 1.5), (100.0, 2.0), (6.25, 0.6), (50.0, 1.8)]);
    let expected = points(&[(6.25, 0.6), (25.0, 1.5), (50.0, 1.8), (100.0, 2.0)]);
    assert_eq!(sort_by_dose(&input), expected);
}

#[test]
fn sort_by_dose_keeps_ties_in_input_order() {
    let input = points(&[(2.0, 0.3), (1.0, 0.9), (2.0, 0.1), (1.0, 0.2), (2.0, 0.2)]);
    let expected = points(&[(1.0, 0.9), (1.0, 0.2), (2.0, 0.3), (2.0, 0.1), (2.0, 0.2)]);
    assert_eq!(sort_by_dose(&input), expected);
}

#[test]
fn sort_by_dose_agrees_with_a_stable_sort_in_total_order() {
    let doses =
        [3.0, -1.0, 0.0, -0.0, 7.5, 3.0, f64::INFINITY, -2.5, 0.0, f64::NEG_INFINITY, 1.0e-310];
    let input: Vec<(u64, u64)> =
        doses.iter().enumerate().map(|(i, d)| (d.to_bits(), i as u64)).collect();
    let mut expected = input.clone();
    expected.sort_by(|a, b| f64::from_bits(a.0).total_cmp(&f64::from_bits(b.0)));
    assert_eq!(sort_by_dose(&input), expected);
}

#[test]
fn sort_by_dose_of_nothing_is_nothing() {
    assert_eq!(sort_by_dose(&Vec::new()), Vec::new());
}

#[test]
fn negative_zero_dose_sorts_before_positive_zero() {
    let input = points(&[(0.0, 1.0), (-0.0, 2.0)]);
    let expected = points(&[(-0.0, 2.0), (0.0, 1.0)]);
    assert_eq!(sort_by_dose(&input), expected);
}

#[test]
fn lowest_and_highest_response() {
    let input = points(&[(1.0, 0.5), (2.0, 0.08), (3.0, 2.0), (4.0, 1.9), (5.0, 0.08)]);
    assert_eq!(lowest_response(&input), 0.08f64.to_bits());
    assert_eq!(highest_response(&input), 2.0f64.to_bits());
    let single = points(&[(1.0, -3.0)]);
    assert_eq!(lowest_response(&single), (-3.0f64).to_bits());
    assert_eq!(highest_response(&single), (-3.0f64).to_bits());
}

#[test]
fn lowest_response_agrees_with_min_in_total_order() {
    let responses = [0.3, -0.0, 0.0, 5.0, -7.0, f64::INFINITY, 2.0];
    let input: Vec<(u64, u64)> = responses.iter().map(|r| (1.0f64.to_bits(), r.to_bits())).collect();
    let min = responses.iter().copied().min_by(|a, b| a.total_cmp(b)).unwrap();
    let max = responses.iter().copied().max_by(|a, b| a.total_cmp(b)).unwrap();
    assert_eq!(lowest_response(&input), min.to_bits());
    assert_eq!(highest_response(&input), max.to_bits());
}

#[test]
fn steepest_rise_is_the_first_greatest_positive_incline() {
    assert_eq!(steepest_rise(&bits(&[0.1, 0.5, 0.5, 0.2])), Some(1));
    assert_eq!(steepest_rise(&bits(&[0.1, 0.5, 0.7, 0.2])), Some(2));
    assert_eq!(steepest_rise(&bits(&[3.0])), Some(0));
}

#[test]
fn steepest_rise_passes_over_what_is_not_a_number() {
    assert_eq!(steepest_rise(&bits(&[f64::NAN, 0.5, f64::NAN, 0.2])), Some(1));
    assert_eq!(steepest_rise(&bits(&[0.5, f64::INFINITY, f64::NAN])), Some(1));
}

#[test]
fn steepest_rise_needs_an_incline_above_zero() {
    assert_eq!(steepest_rise(&bits(&[-0.1, -0.5, 0.0, -0.0])), None);
    assert_eq!(steepest_rise(&bits(&[f64::NAN, f64::NEG_INFINITY])), None);
    assert_eq!(steepest_rise(&Vec::new()), None);
}

#[test]
fn steepest_rise_agrees_with_a_running_maximum() {
    let inclines = [0.0, 0.02, -1.0, 0.02, 0.4, f64::NAN, 0.4, 0.39, -0.0];
    let mut top = 0.0;
    let mut expected = None;
    for (i, &incline) in inclines.iter().enumerate() {
        if top < incline {
            top = incline;
            expected = Some(i);
        }
    }
    assert_eq!(steepest_rise(&bits(&inclines)), expected);
    assert_eq!(expected, Some(4));
}

#[test]
fn regression_new_checks_the_number_of_standards_first() {
    let three = points(&[(1.0, 0.1), (2.0, 0.2), (3.0, 0.3)]);
    let r = Regression::new(Some(9.0f64.to_bits()), Some(9.0f64.to_bits()), &three, &Vec::new());
    assert_eq!(r.err(), Some(ValueError::NotEnoughStandards));
}

#[test]
fn regression_new_checks_the_control_then_the_blank() {
    let four = points(&[(1.0, 0.1), (2.0, 0.2), (3.0, 0.3), (4.0, 0.4)]);
    let none: Vec<(u64, String)> = Vec::new();
    let lo = Some(0.05f64.to_bits());
    let hi = Some(0.11f64.to_bits());
    assert_eq!(Regression::new(hi, hi, &four, &none).err(), Some(ValueError::ControlTooBig));
    assert_eq!(Regression::new(lo, hi, &four, &none).err(), Some(ValueError::ControlTooBig));
    assert_eq!(Regression::new(hi, lo, &four, &none).err(), Some(ValueError::BlankTooBig));
    assert!(Regression::new(lo, lo, &four, &none).is_ok());
    let edge = Some(0.1f64.to_bits());
    assert!(Regression::new(edge, edge, &four, &none).is_ok());
}

#[test]
fn regression_new_sets_up_the_fit() {
    let four = points(&[(4.0, 0.4), (2.0, 0.2), (3.0, 0.3), (1.0, 0.1)]);
    let unknowns = vec![(0.25f64.to_bits(), "x".to_string()), (0.35f64.to_bits(), "y".to_string())];
    let fit = Regression::new(Some(0.01f64.to_bits()), Some(0.02f64.to_bits()), &four, &unknowns).unwrap();
    assert_eq!(fit.blank, 0.01f64.to_bits());
    assert_eq!(fit.control, 0.02f64.to_bits());
    assert_eq!(fit.standards, points(&[(1.0, 0.1), (2.0, 0.2), (3.0, 0.3), (4.0, 0.4)]));
    assert_eq!(
        fit.unknowns,
        vec![
            (0.0f64.to_bits(), 0.25f64.to_bits(), "x".to_string()),
            (0.0f64.to_bits(), 0.35f64.to_bits(), "y".to_string()),
        ]
    );
    assert_eq!(fit.abcd, Parameters { a: 0, b: 0, c: 0, d: 0 });
    assert_eq!((fit.sse, fit.mse, fit.rmse, fit.sy_x, fit.r_sq), (0, 0, 0, 0, 0));
}

#[test]
fn default_regression_is_empty() {
    let fit = Regression::default();
    assert_eq!(fit.abcd, Parameters::default());
    assert_eq!(fit.abcd, Parameters { a: 0, b: 0, c: 0, d: 0 });
    assert!(fit.standards.is_empty());
    assert!(fit.unknowns.is_empty());
    assert_eq!((fit.blank, fit.control), (0, 0));
}

#[test]
fn missing_blank_and_control_count_as_zero() {
    let four = points(&[(1.0, 0.1), (2.0, 0.2), (3.0, 0.3), (4.0, 0.4)]);
    let none: Vec<(u64, String)> = Vec::new();
    let fit = Regression::new(None, None, &four, &none).unwrap();
    assert_eq!(fit.blank, 0.0f64.to_bits());
    assert_eq!(fit.control, 0.0f64.to_bits());

    let below = points(&[(1.0, -0.1), (2.0, 0.2), (3.0, 0.3), (4.0, 0.4)]);
    assert_eq!(Regression::new(None, None, &below, &none).err(), Some(ValueError::ControlTooBig));
    let low = Some((-1.0f64).to_bits());
    assert_eq!(Regression::new(None, low, &below, &none).err(), Some(ValueError::BlankTooBig));
}
