use elisa::descent::Descent;
use elisa::plate::{Group, Microplate, Sample, SampleType};
use elisa::regression::{Parameters, Regression};
use elisa::tally::Tally;

/// The descent written out on doubles, start to end.
fn descend_directly(control: f64, standards: &[(f64, f64)]) -> (f64, f64, f64, f64) {
    let n = standards.len() as f64;
    let standards: Vec<(f64, f64)> = standards.iter().map(|&(x, y)| (x.ln(), y)).collect();
    let min = standards.iter().min_by(|a, b| a.1.total_cmp(&b.1)).unwrap();
    let max = standards.iter().max_by(|a, b| a.1.total_cmp(&b.1)).unwrap();

    let mut a = control;
    let mut b = 1.0;
    let mut d = max.1;
    let mut c_incline = 0.0;
    let mut c = 0.0;
    for window in standards.windows(2) {
        let incline = (window[1].1 - window[0].1) / (window[1].0 - window[0].0);
        if c_incline < incline {
            c_incline = incline;
            c = (window[0].0 + window[1].0) / 2.0;
        }
    }

    for _ in 0..100_000 {
        let (da, db, dc, dd) = gradient(&standards, n, a, b, c, d);
        a -= 0.1 * da;
        b -= 1.0 * db;
        c -= 1.0 * dc;
        d -= 0.1 * dd;
        a = a.clamp(control, min.1);
    }
    (a, b, c.exp(), d)
}

fn gradient(
    standards: &[(f64, f64)],
    n: f64,
    a: f64,
    b: f64,
    c: f64,
    d: f64,
) -> (f64, f64, f64, f64) {
    let mut sum_a = 0.0;
    let mut sum_b = 0.0;
    let mut sum_c = 0.0;
    let mut sum_d = 0.0;
    for (x, y) in standards.iter() {
        let ebxc = (b * (x - c)).exp();
        let sigmoid = 1.0 / (1.0 + ebxc);
        let diff = y - d - (a - d) * sigmoid;
        sum_a += diff * sigmoid;
        sum_b += diff * ((x - c) * ebxc * sigmoid * sigmoid);
        sum_c += diff * (ebxc * sigmoid * sigmoid);
        sum_d += diff * sigmoid;
    }
    (
        -2.0 / n * sum_a,
        2.0 * (a - d) / n * sum_b,
        -2.0 * b * (a - d) / n * sum_c,
        -2.0 / n * sum_d,
    )
}

/// The same descent with its course kept by the library.
fn descend_on_course(control: f64, standards: &[(f64, f64)]) -> (f64, f64, f64, f64) {
    let n = standards.len() as f64;
    let standards: Vec<(f64, f64)> = standards.iter().map(|&(x, y)| (x.ln(), y)).collect();
    let encoded: Vec<(u64, u64)> = standards.iter().map(|&(x, y)| (x.to_bits(), y.to_bits())).collect();
    let inclines: Vec<u64> =
        standards.windows(2).map(|w| ((w[1].1 - w[0].1) / (w[1].0 - w[0].0)).to_bits()).collect();
    let midpoints: Vec<u64> =
        standards.windows(2).map(|w| ((w[0].0 + w[1].0) / 2.0).to_bits()).collect();

    let mut descent = Descent::start(control.to_bits(), &encoded, &inclines, &midpoints).unwrap();
    while !descent.finished() {
        let (a, b, c, d) = decode(descent.parameters());
        let (da, db, dc, dd) = gradient(&standards, n, a, b, c, d);
        descent.step(Parameters {
            a: (a - 0.1 * da).to_bits(),
            b: (b - 1.0 * db).to_bits(),
            c: (c - 1.0 * dc).to_bits(),
            d: (d - 0.1 * dd).to_bits(),
        });
    }
    let (a, b, c, d) = decode(descent.parameters());
    (a, b, c.exp(), d)
}

fn decode(p: Parameters) -> (f64, f64, f64, f64) {
    (f64::from_bits(p.a), f64::from_bits(p.b), f64::from_bits(p.c), f64::from_bits(p.d))
}

fn same(left: (f64, f64, f64, f64), right: (f64, f64, f64, f64)) -> bool {
    left.0.to_bits() == right.0.to_bits()
        && left.1.to_bits() == right.1.to_bits()
        && left.2.to_bits() == right.2.to_bits()
        && left.3.to_bits() == right.3.to_bits()
}

fn curve(a: f64, b: f64, c: f64, d: f64, x: f64) -> f64 {
    d + (a - d) / (1.0 + (x / c).powf(b))
}

fn calibration() -> Vec<(f64, f64)> {
    let blank = 0.05;
    let mut standards: Vec<(f64, f64)> = vec![
        (0.78125, 0.08),
        (1.5625, 0.15),
        (3.125, 0.3),
        (6.25, 0.6),
        (12.5, 1.0),
        (25.0, 1.5),
        (50.0, 1.8),
        (100.0, 2.0),
    ];
    for point in standards.iter_mut() {
        point.1 -= blank;
    }
    standards
}

#[test]
fn descent_on_course_is_the_descent_written_out() {
    let standards = calibration();
    let control = 0.08 - 0.05;
    let direct = descend_directly(control, &standards);
    let kept = descend_on_course(control, &standards);
    assert!(same(direct, kept), "{direct:?} {kept:?}");
}

#[test]
fn descent_on_course_is_the_descent_written_out_on_a_falling_curve() {
    let standards = vec![(1.0, 1.9), (2.0, 1.7), (4.0, 1.2), (8.0, 0.6), (16.0, 0.3), (32.0, 0.2)];
    let control = 0.1;
    let direct = descend_directly(control, &standards);
    let kept = descend_on_course(control, &standards);
    assert!(same(direct, kept), "{direct:?} {kept:?}");
}

#[test]
fn descent_on_course_is_the_descent_written_out_on_four_points() {
    let standards = vec![(1.0, 0.2), (10.0, 0.9), (100.0, 1.6), (1000.0, 1.9)];
    let control = 0.0;
    let direct = descend_directly(control, &standards);
    let kept = descend_on_course(control, &standards);
    assert!(same(direct, kept), "{direct:?} {kept:?}");
}

#[test]
fn fit_of_the_calibration_is_finite_and_close() {
    let standards = calibration();
    let (a, b, c, d) = descend_on_course(0.08 - 0.05, &standards);
    assert!(a.is_finite() && b.is_finite() && c.is_finite() && d.is_finite(), "{a} {b} {c} {d}");
    let n = standards.len() as f64;
    let mean = standards.iter().map(|p| p.1).sum::<f64>() / n;
    let total: f64 = standards.iter().map(|p| (p.1 - mean) * (p.1 - mean)).sum();
    let sse: f64 = standards
        .iter()
        .map(|&(x, y)| {
            let diff = y - curve(a, b, c, d, x);
            diff * diff
        })
        .sum();
    let r = 1.0 - sse / total;
    assert!(r * r > 0.95, "{}", r * r);
    // the dose at which the curve answers 0.9 - 0.05 lies between 6.25 and 12.5
    let y = 0.9 - 0.05;
    let dose = c * ((a - d) / (y - d) - 1.0).powf(1.0 / b);
    assert!(6.25 < dose && dose < 12.5, "{dose}");
}

fn exact_curve(a: f64, b: f64, c: f64, d: f64) -> Vec<(f64, f64)> {
    let doses = [0.78125, 1.5625, 3.125, 6.25, 12.5, 25.0, 50.0, 100.0];
    doses.iter().map(|&x| (x, curve(a, b, c, d, x))).collect()
}

fn close(found: f64, truth: f64) -> bool {
    ((found - truth) / truth).abs() < 1.0e-2
}

#[test]
fn fit_recovers_the_parameters_of_an_exact_curve() {
    let (a, b, c, d) = (0.1, 2.0, 10.0, 1.5);
    let fitted = descend_on_course(a, &exact_curve(a, b, c, d));
    assert!(close(fitted.0, a), "a {}", fitted.0);
    assert!(close(fitted.1, b), "b {}", fitted.1);
    assert!(close(fitted.2, c), "c {}", fitted.2);
    assert!(close(fitted.3, d), "d {}", fitted.3);
}

#[test]
fn fit_of_a_curve_that_does_not_level_off_stops_short_of_its_parameters() {
    // within these doses the curve reaches neither of its asymptotes, and the
    // descent, with its fixed rates and steps, settles beside the parameters
    let (a, b, c, d) = (0.05, 1.3, 12.0, 2.0);
    let fitted = descend_on_course(a, &exact_curve(a, b, c, d));
    assert!(fitted.0.is_finite() && fitted.1.is_finite());
    assert!(fitted.2.is_finite() && fitted.3.is_finite());
    assert!(!close(fitted.0, a), "a {}", fitted.0);
    assert!(same(fitted, descend_directly(a, &exact_curve(a, b, c, d))));
}

fn mean(values: &[u64]) -> Option<u64> {
    if values.is_empty() {
        return None;
    }
    let sum: f64 = values.iter().map(|&bits| f64::from_bits(bits)).sum();
    Some((sum / values.len() as f64).to_bits())
}

struct Fit {
    abcd: (f64, f64, f64, f64),
    standards: Vec<(f64, f64)>,
    unknowns: Vec<(f64, f64, String)>,
}

impl Fit {
    fn sse(&self) -> f64 {
        let (a, b, c, d) = self.abcd;
        self.standards
            .iter()
            .map(|&(x, y)| {
                let diff = y - curve(a, b, c, d, x);
                diff * diff
            })
            .sum()
    }
}

/// From the plate to the fit: the library tallies, checks and keeps the
/// descent on course; the arithmetic in between is done here.
fn fit_plate(plate: &Microplate) -> Fit {
    assert!(plate.is_well_formed());
    let tally = Tally::new(plate).unwrap();
    let standard_means: Vec<u64> = tally.standards.iter().filter_map(|g| mean(&g.values)).collect();
    let unknown_means: Vec<u64> = tally.unknowns.iter().filter_map(|g| mean(&g.values)).collect();
    let standards = tally.standard_points(&standard_means).unwrap();
    let unknowns = tally.unknown_points(&unknown_means).unwrap();
    let checked =
        Regression::new(mean(&tally.blank), mean(&tally.control), &standards, &unknowns).unwrap();

    let blank = f64::from_bits(checked.blank);
    let control = f64::from_bits(checked.control) - blank;
    let standards: Vec<(f64, f64)> = checked
        .standards
        .iter()
        .map(|&(x, y)| (f64::from_bits(x), f64::from_bits(y) - blank))
        .collect();
    let abcd = descend_on_course(control, &standards);
    let (a, b, c, d) = abcd;
    let unknowns = checked
        .unknowns
        .iter()
        .map(|(_, y, label)| {
            let y = f64::from_bits(*y) - blank;
            (c * ((a - d) / (y - d) - 1.0).powf(1.0 / b), y, label.clone())
        })
        .collect();
    Fit { abcd, standards, unknowns }
}

fn plate_of(blank: f64, control: f64, curve: &[(f64, f64)], unknown: Option<f64>) -> Microplate {
    let mut plate = Microplate::new(12, 8);
    plate.standard_groups.clear();
    for (i, &(dose, response)) in curve.iter().enumerate() {
        plate.samples[i] =
            Sample { typ: SampleType::Standard, group: i, value: Some(response.to_bits()) };
        plate
            .standard_groups
            .push(Group { concentration: Some(dose.to_bits()), label: String::new() });
    }
    plate.samples[90] = Sample { typ: SampleType::Blank, group: 0, value: Some(blank.to_bits()) };
    plate.samples[91] =
        Sample { typ: SampleType::Control, group: 0, value: Some(control.to_bits()) };
    if let Some(response) = unknown {
        plate.samples[95] =
            Sample { typ: SampleType::Unknown, group: 0, value: Some(response.to_bits()) };
        plate.unknown_groups[0].label = "serum".to_string();
    }
    plate
}

#[test]
fn plate_is_fitted_from_wells_to_estimates() {
    let curve = [
        (100.0, 2.0),
        (50.0, 1.8),
        (25.0, 1.5),
        (12.5, 1.0),
        (6.25, 0.6),
        (3.125, 0.3),
        (1.5625, 0.15),
        (0.78125, 0.08),
    ];
    let fit = fit_plate(&plate_of(0.05, 0.08, &curve, Some(0.9)));
    let (a, b, c, d) = fit.abcd;
    assert!(a.is_finite() && b.is_finite() && c.is_finite() && d.is_finite());

    let n = fit.standards.len() as f64;
    let mean = fit.standards.iter().map(|p| p.1).sum::<f64>() / n;
    let total: f64 = fit.standards.iter().map(|p| (p.1 - mean) * (p.1 - mean)).sum();
    let r = 1.0 - fit.sse() / total;
    assert!(r * r > 0.95, "{}", r * r);

    assert_eq!(fit.unknowns.len(), 1);
    let (dose, response, label) = &fit.unknowns[0];
    assert_eq!(label, "serum");
    assert_eq!(*response, 0.9 - 0.05);
    assert!(6.25 < *dose && *dose < 12.5, "{dose}");
}

#[test]
fn four_standards_leave_no_degree_of_freedom() {
    let curve = [(1.0, 0.2), (10.0, 0.9), (100.0, 1.6), (1000.0, 1.9)];
    let fit = fit_plate(&plate_of(0.0, 0.1, &curve, None));
    let (a, b, c, d) = fit.abcd;
    assert!(a.is_finite() && b.is_finite() && c.is_finite() && d.is_finite());
    let n = fit.standards.len() as f64;
    assert_eq!(n - 4.0, 0.0);
    let sse = fit.sse();
    assert!(sse > 0.0);
    let sy_x = (sse / (n - 4.0)).sqrt();
    assert_eq!(sy_x, f64::INFINITY);
}
