//! Numbers in double precision, held against those of the machine.

use brokkr::number::double::Double;
use brokkr::number::parse::parse_double;

fn num(x: f64) -> Double {
    Double::from_bits(x.to_bits())
}

fn val(x: Double) -> f64 {
    f64::from_bits(x.to_bits())
}

struct Source {
    state: u64,
}

impl Source {
    fn next(&mut self) -> u64 {
        self.state ^= self.state << 13;
        self.state ^= self.state >> 7;
        self.state ^= self.state << 17;
        self.state
    }

    fn wide(&mut self) -> f64 {
        loop {
            let x = f64::from_bits(self.next());
            if x.is_finite() {
                return x;
            }
        }
    }

    fn plain(&mut self) -> f64 {
        let digits = (self.next() % 2_000_000_001) as f64 - 1_000_000_000.0;
        digits / 10f64.powi((self.next() % 12) as i32)
    }
}

fn same(ours: Double, theirs: f64) {
    if theirs.is_nan() {
        assert!(ours.is_nan());
    } else {
        assert_eq!(ours.to_bits(), theirs.to_bits(), "{} and {theirs}", val(ours));
    }
}

fn edges() -> Vec<f64> {
    vec![
        0.0,
        -0.0,
        1.0,
        -1.0,
        0.1,
        0.5,
        2.5,
        f64::MIN_POSITIVE,
        f64::from_bits(1),
        f64::from_bits(0xf_ffff_ffff_ffff),
        f64::MAX,
        f64::MIN,
        f64::INFINITY,
        f64::NEG_INFINITY,
        f64::NAN,
        9_007_199_254_740_993.0,
    ]
}

#[test]
fn arithmetic_agrees_on_edges() {
    for a in edges() {
        for b in edges() {
            same(num(a).plus(num(b)), a + b);
            same(num(a).minus(num(b)), a - b);
            same(num(a).times(num(b)), a * b);
            same(num(a).over(num(b)), a / b);
            assert_eq!(num(a).less(num(b)), a < b, "{a} {b}");
        }
        same(num(a).abs(), a.abs());
        same(num(a).negate(), -a);
        assert_eq!(num(a).is_nan(), a.is_nan());
        assert_eq!(num(a).is_finite(), a.is_finite());
    }
}

#[test]
fn arithmetic_agrees_on_many() {
    let mut source = Source { state: 0x1234_5678_9abc_def1 };
    for i in 0..400 {
        let (a, b) = if i % 2 == 0 {
            (source.wide(), source.wide())
        } else {
            (source.plain(), source.plain())
        };
        same(num(a).plus(num(b)), a + b);
        same(num(a).minus(num(b)), a - b);
        same(num(a).times(num(b)), a * b);
        same(num(a).over(num(b)), a / b);
        assert_eq!(num(a).less(num(b)), a < b);
    }
}

#[test]
fn conversions_agree() {
    let mut source = Source { state: 77 };
    for _ in 0..300 {
        let n = source.next();
        same(Double::of_u64(n), n as f64);
        same(Double::of_i64(n as i64), (n as i64) as f64);
        let x = source.plain();
        assert_eq!(num(x).round(), x.round() as i64, "{x}");
        assert_eq!(num(x).truncate(), x as u64, "{x}");
        assert_eq!(num(x).truncate_signed(), x as i64, "{x}");
        let y = source.wide();
        assert_eq!(num(y).round(), y.round() as i64, "{y}");
        assert_eq!(num(y).truncate(), y as u64, "{y}");
    }
    for x in edges() {
        assert_eq!(num(x).round(), x.round() as i64, "{x}");
        assert_eq!(num(x).truncate(), x as u64, "{x}");
        assert_eq!(num(x).truncate_signed(), x as i64, "{x}");
    }
    assert_eq!(num(2.5).round(), 3);
    assert_eq!(num(-2.5).round(), -3);
    assert_eq!(num(0.49999999999999994).round(), 0);
}

#[test]
fn writing_agrees() {
    let mut source = Source { state: 4242 };
    for _ in 0..200 {
        let x = source.plain();
        assert_eq!(num(x).fixed(0), format!("{x:.0}"));
        assert_eq!(num(x).fixed(1), format!("{x:.1}"));
        assert_eq!(num(x).fixed(3), format!("{x:.3}"));
        assert_eq!(num(x).signed_fixed(1), format!("{x:+.1}"));
        assert_eq!(num(x).shortest(), format!("{x}"));
    }
    for x in [0.0, -0.0, 0.25, 0.35, 1.5, 2.5, 1e21, 1e-7, 123456789.125] {
        assert_eq!(num(x).fixed(1), format!("{x:.1}"));
        assert_eq!(num(x).signed_fixed(1), format!("{x:+.1}"));
        assert_eq!(num(x).shortest(), format!("{x}"));
    }
}

#[test]
fn reading_agrees() {
    for text in [
        "0", "-0", "1", "1.", ".5", "3.14", "-2.5e3", "1e400", "-1e400", "1e-400", "4.9e-324", "0.1", "+7", "inf",
        "-Infinity", "nan", "NaN", "infinity", "1e", "e5", "", ".", "+", "-", "1_000", " 1", "0x10", "1.2.3", "1e+5",
        "1E-5", "9007199254740993", "2.2250738585072011e-308", "179769313486231580793728971405301e277",
    ] {
        match (parse_double(text), text.parse::<f64>()) {
            (Some(ours), Ok(theirs)) => same(ours, theirs),
            (None, Err(_)) => {}
            (ours, theirs) => panic!("{text:?}: {:?} and {theirs:?}", ours.map(val)),
        }
    }
    let mut source = Source { state: 99 };
    for _ in 0..200 {
        let x = source.plain();
        same(parse_double(&format!("{x}")).unwrap(), x);
        same(parse_double(&format!("{x:e}")).unwrap(), x);
    }
}

#[test]
fn what_is_written_is_read_again() {
    let mut source = Source { state: 31337 };
    for _ in 0..200 {
        let x = num(source.plain());
        same(parse_double(&x.shortest()).unwrap(), val(x));
    }
}
