use spotlight_win::evaluator::{
    decimal_text, evaluate_math, looks_like_math, timezone_answer, timezone_query, timezone_result,
    MathValue,
};
use spotlight_win::results::SearchResultCategory;
use spotlight_win::score::Score;
use spotlight_win::units::{
    conversion_query, conversion_result, unit_factor, ConversionKind, Factor,
};

#[test]
fn decimal_texts() {
    assert_eq!(decimal_text(0), "0");
    assert_eq!(decimal_text(7), "7");
    assert_eq!(decimal_text(-42), "-42");
    assert_eq!(decimal_text(1234567890), "1234567890");
    assert_eq!(decimal_text(i64::MAX), i64::MAX.to_string());
    assert_eq!(decimal_text(i64::MIN), i64::MIN.to_string());
}

#[test]
fn what_looks_like_arithmetic() {
    assert!(looks_like_math("2+2"));
    assert!(looks_like_math("(x)"));
    assert!(looks_like_math("abc1"));
    assert!(looks_like_math("a%b"));
    assert!(!looks_like_math("chrome"));
    assert!(!looks_like_math(""));
    // only ASCII digits count
    assert!(!looks_like_math("٣"));
}

#[test]
fn calculator_answers() {
    let r = evaluate_math("2+2", &Some(MathValue::Int(4))).unwrap();
    assert_eq!(r.id, "calc_2+2");
    assert_eq!(r.name, "4");
    assert_eq!(r.path, "4");
    assert_eq!(r.category, SearchResultCategory::Calculator);
    assert_eq!(r.icon, Some("calculator".to_string()));
    assert_eq!(r.score, Score { whole: 100, frac: 0, den: 1 });
    assert_eq!(r.metadata, Some("2+2 = 4".to_string()));

    let r = evaluate_math("10/4", &Some(MathValue::FixedFloat("2.500000".to_string()))).unwrap();
    assert_eq!(r.name, "2.5");
    let r = evaluate_math("9/3.0", &Some(MathValue::WholeFloat(3))).unwrap();
    assert_eq!(r.name, "3");
    let r = evaluate_math("1e400-1", &Some(MathValue::FixedFloat("inf".to_string()))).unwrap();
    assert_eq!(r.name, "inf");
    let r = evaluate_math("1<2", &Some(MathValue::Boolean(true))).unwrap();
    assert_eq!(r.name, "true");
    assert_eq!(r.metadata, Some("1<2 = true".to_string()));
}

#[test]
fn calculator_stays_silent() {
    // not arithmetic-looking
    assert!(evaluate_math("true", &Some(MathValue::Boolean(true))).is_none());
    // the evaluator failed
    assert!(evaluate_math("2+", &None).is_none());
    // a value the calculator does not show
    assert!(evaluate_math("\"a\"+1", &Some(MathValue::Unsupported)).is_none());
}

#[test]
fn time_queries_name_a_zone_or_its_place() {
    let m = timezone_query("time in Tokyo").unwrap();
    assert_eq!(m.query_name, "tokyo");
    assert_eq!(m.zone_name, "Asia/Tokyo");
    assert_eq!(chrono_tz::TZ_VARIANTS[m.zone_index], chrono_tz::Tz::Asia__Tokyo);
    let m = timezone_query("time in New York").unwrap();
    assert_eq!(m.zone_name, "America/New_York");
    assert_eq!(chrono_tz::TZ_VARIANTS[m.zone_index], chrono_tz::Tz::America__New_York);
    // a whole zone name, in any case, comes before a place of that name
    let m = timezone_query("time in UTC").unwrap();
    assert_eq!(m.zone_name, "UTC");
    let m = timezone_query("TIME asia/kolkata ").unwrap();
    assert_eq!(m.query_name, "asia/kolkata");
    assert_eq!(m.zone_name, "Asia/Kolkata");
    let m = timezone_query("what time is it in paris").unwrap();
    assert_eq!(m.zone_name, "Europe/Paris");
    let m = timezone_query("current time london").unwrap();
    assert_eq!(m.zone_name, "Europe/London");
    // a place shared by several zones gives the first in the database's order
    let m = timezone_query("time buenos aires").unwrap();
    assert_eq!(m.zone_name, "America/Argentina/Buenos_Aires");
}

#[test]
fn time_queries_that_name_no_zone() {
    assert!(timezone_query("time in Atlantis").is_none());
    assert!(timezone_query("weather in tokyo").is_none());
    assert!(timezone_query("time").is_none());
    assert!(timezone_query("").is_none());
}

#[test]
fn time_result() {
    let r = timezone_result("utc", "01:02:03 PM UTC", "Monday, January 01, 2024");
    assert_eq!(r.id, "tz_utc");
    assert_eq!(r.name, "01:02:03 PM UTC");
    assert_eq!(r.path, "01:02:03 PM UTC, Monday, January 01, 2024");
    assert_eq!(r.category, SearchResultCategory::Timezone);
    assert_eq!(r.icon, Some("clock".to_string()));
    assert_eq!(r.score, Score { whole: 80, frac: 0, den: 1 });
    assert_eq!(r.metadata, Some("Current time in utc: 01:02:03 PM UTC".to_string()));
}

#[test]
fn unit_factors_ignore_case() {
    assert_eq!(unit_factor("km"), Some(Factor { num: 1000, den: 1 }));
    assert_eq!(unit_factor("KM"), Some(Factor { num: 1000, den: 1 }));
    assert_eq!(unit_factor("Miles"), Some(Factor { num: 1609344, den: 1000 }));
    assert_eq!(unit_factor("oz"), Some(Factor { num: 283495, den: 10000000 }));
    assert_eq!(unit_factor("g"), Some(Factor { num: 1, den: 1000 }));
    assert_eq!(unit_factor("furlong"), None);
    assert_eq!(unit_factor(""), None);
}

#[test]
fn conversion_queries() {
    let q = conversion_query("100 km in miles").unwrap();
    assert_eq!(q.kind, ConversionKind::Distance);
    assert_eq!(q.number, "100");
    assert_eq!(q.from_unit, "km");
    // the first alternative that fits wins
    assert_eq!(q.to_unit, "mi");

    let q = conversion_query("72F to C").unwrap();
    assert_eq!(q.kind, ConversionKind::FahrenheitToCelsius);
    assert_eq!(q.number, "72");

    let q = conversion_query("about 2.5 Kilograms to pounds please").unwrap();
    assert_eq!(q.kind, ConversionKind::Weight);
    assert_eq!(q.number, "2.5");
    assert_eq!(q.from_unit, "kilograms");
    assert_eq!(q.to_unit, "pounds");

    assert!(conversion_query("100 km").is_none());
    assert!(conversion_query("km to miles").is_none());
    assert!(conversion_query("100 km tomiles").is_none());
}

#[test]
fn conversion_result_fields() {
    let r = conversion_result("100 km in miles", ConversionKind::Distance, "100 km = 62.14 mi", "62.13711922373339");
    assert_eq!(r.id, "unit_100 km in miles_62.13711922373339");
    assert_eq!(r.name, "100 km = 62.14 mi");
    assert_eq!(r.path, "100 km = 62.14 mi");
    assert_eq!(r.category, SearchResultCategory::Conversion);
    assert_eq!(r.icon, Some("ruler".to_string()));
    assert_eq!(r.metadata, Some("Unit conversion".to_string()));
    assert_eq!(r.score, Score { whole: 80, frac: 0, den: 1 });
    let r = conversion_result("0c to f", ConversionKind::CelsiusToFahrenheit, "0°C = 32.0°F", "32");
    assert_eq!(r.id, "temp_0c to f_32");
    assert_eq!(r.icon, Some("thermometer".to_string()));
    assert_eq!(r.metadata, Some("Temperature conversion".to_string()));
}

/// What the four patterns of the conversion queries, run by `regex_lite`,
/// read in `input`: the kind, the number and, for distances and weights, the
/// two unit words.
fn by_patterns(input: &str) -> Option<(ConversionKind, String, Option<(String, String)>)> {
    let lower = input.to_lowercase();
    let temps = [
        (
            ConversionKind::CelsiusToFahrenheit,
            r"(\d+(?:\.\d+)?)\s*(?:c|celsius|°c)\s+(?:in|to|is)\s+(?:f|fahrenheit|°f)",
        ),
        (
            ConversionKind::FahrenheitToCelsius,
            r"(\d+(?:\.\d+)?)\s*(?:f|fahrenheit|°f)\s+(?:in|to|is)\s+(?:c|celsius|°c)",
        ),
    ];
    for (kind, pattern) in temps.iter() {
        let re = regex_lite::Regex::new(pattern).unwrap();
        if let Some(c) = re.captures(&lower) {
            return Some((*kind, c.get(1).unwrap().as_str().to_string(), None));
        }
    }
    let units = [
        (
            ConversionKind::Distance,
            r"(\d+(?:\.\d+)?)\s*(km|kilometers?)\s+(?:in|to)\s+(mi|miles?|m|meters?|ft|feet|yds?|yards?)",
        ),
        (
            ConversionKind::Weight,
            r"(\d+(?:\.\d+)?)\s*(kg|kilograms?)\s+(?:in|to)\s+(lb|lbs?|pounds?|oz|ounces?)",
        ),
    ];
    for (kind, pattern) in units.iter() {
        let re = regex_lite::Regex::new(pattern).unwrap();
        if let Some(c) = re.captures(&lower) {
            return Some((
                *kind,
                c.get(1).unwrap().as_str().to_string(),
                Some((c.get(2).unwrap().as_str().to_string(), c.get(3).unwrap().as_str().to_string())),
            ));
        }
    }
    None
}

#[test]
fn conversion_queries_read_as_the_patterns_do() {
    let inputs = [
        "100 km in miles",
        "100km to mi",
        "5 kilometers to feet",
        "5 kilometer to yds",
        "5 kilometer to yards",
        "3 km to m",
        "3 km to meters",
        "3.25 km   in   ft",
        "x 12 kg to lbs",
        "12 kilogram in ounces",
        "12 kg to oz",
        "12 kg to pound",
        "72f to c",
        "72 F is C",
        "72 fahrenheit to celsius",
        "0 c in f",
        "0°c to °f",
        "0 °C to °F",
        "36.6 celsius is fahrenheit",
        "1.5.5 km to mi",
        "10 km tomiles",
        "10 kmto miles",
        "10 km to",
        "km to miles",
        "10. km to mi",
        "10 c to km",
        "10 kg to mi",
        "20 km to mi and 30 kg to lb",
        "temperature 5c to f please",
        "100 KM IN MILES",
        "7\tkm\tto\tmi",
        "",
        "hello",
    ];
    for input in inputs.iter() {
        let ours = conversion_query(input);
        let theirs = by_patterns(input);
        match (ours, theirs) {
            (None, None) => {},
            (Some(q), Some((kind, number, words))) => {
                assert_eq!(q.kind, kind, "kind of {:?}", input);
                assert_eq!(q.number, number, "number of {:?}", input);
                if let Some((from, to)) = words {
                    assert_eq!(q.from_unit, from, "first unit of {:?}", input);
                    assert_eq!(q.to_unit, to, "second unit of {:?}", input);
                }
            },
            (ours, theirs) => panic!("{:?}: {:?} against {:?}", input, ours.map(|q| q.kind), theirs),
        }
    }
}

/// What the expression evaluator makes of `input`, as the calculator reads it.
fn evaluated(input: &str) -> Option<MathValue> {
    match evalexpr::eval(input) {
        Ok(evalexpr::Value::Int(i)) => Some(MathValue::Int(i)),
        Ok(evalexpr::Value::Float(f)) => {
            if f.fract() == 0.0 && f.abs() < i64::MAX as f64 {
                Some(MathValue::WholeFloat(f as i64))
            } else {
                Some(MathValue::FixedFloat(format!("{:.6}", f)))
            }
        }
        Ok(evalexpr::Value::Boolean(b)) => Some(MathValue::Boolean(b)),
        Ok(_) => Some(MathValue::Unsupported),
        Err(_) => None,
    }
}

#[test]
fn calculator_examples() {
    let r = evaluate_math("2+2", &evaluated("2+2")).unwrap();
    assert_eq!(r.name, "4");
    let r = evaluate_math("100*3.14", &evaluated("100*3.14")).unwrap();
    assert_eq!(r.name, "314");
    let r = evaluate_math("1/3", &evaluated("1/3")).unwrap();
    assert_eq!(r.name, "0");
    let r = evaluate_math("1.0/4", &evaluated("1.0/4")).unwrap();
    assert_eq!(r.name, "0.25");
    assert!(evaluate_math("2+", &evaluated("2+")).is_none());
}

#[test]
fn time_answers_at_a_given_instant() {
    let r = timezone_answer("time in Tokyo", 0).unwrap();
    assert_eq!(r.id, "tz_tokyo");
    assert_eq!(r.name, "09:00:00 AM JST");
    assert_eq!(r.path, "09:00:00 AM JST, Thursday, January 01, 1970");
    assert_eq!(r.metadata, Some("Current time in tokyo: 09:00:00 AM JST".to_string()));
    assert_eq!(r.category, SearchResultCategory::Timezone);
    let r = timezone_answer("time in New York", 0).unwrap();
    assert_eq!(r.path, "07:00:00 PM EST, Wednesday, December 31, 1969");
    assert!(timezone_answer("time in Atlantis", 0).is_none());
    // an instant chrono cannot represent
    assert!(timezone_answer("time in Tokyo", i64::MAX).is_none());
}
