use octo::document::{Software, SoftwareParam};
use octo::params::{CvParam, ParamValue};
use octo::query::{
    assert_cv, cv_ok, opt_text_is, software_ok, software_param_ok, value_ok, CvRefMode,
    ExpectedCvValue,
};

fn term(name: &str, acc: &str, cv_ref: Option<&str>, value: ParamValue) -> CvParam {
    let mut p = CvParam::empty();
    p.name = name.to_string();
    p.accession = Some(acc.to_string());
    p.cv_ref = cv_ref.map(|s| s.to_string());
    p.value = value;
    p
}

#[test]
fn optional_texts_are_compared() {
    assert!(opt_text_is(&Some("a".to_string()), Some("a")));
    assert!(opt_text_is(&None, None));
    assert!(!opt_text_is(&Some("a".to_string()), Some("b")));
    assert!(!opt_text_is(&Some(String::new()), None));
    assert!(!opt_text_is(&None, Some("")));
}

#[test]
fn values_are_held_to_what_is_expected() {
    let empty = ParamValue::Empty;
    let blank = ParamValue::Text(String::new());
    let text = ParamValue::Text("x".to_string());
    let number = ParamValue::Number(2.5f64.to_bits());
    assert!(value_ok(&empty, &ExpectedCvValue::Absent));
    assert!(!value_ok(&blank, &ExpectedCvValue::Absent));
    assert!(!value_ok(&text, &ExpectedCvValue::Absent));
    assert!(!value_ok(&number, &ExpectedCvValue::Absent));
    assert!(value_ok(&empty, &ExpectedCvValue::Str("")));
    assert!(value_ok(&blank, &ExpectedCvValue::Str("")));
    assert!(!value_ok(&text, &ExpectedCvValue::Str("")));
    assert!(!value_ok(&number, &ExpectedCvValue::Str("")));
    assert!(value_ok(&text, &ExpectedCvValue::Str("x")));
    assert!(!value_ok(&text, &ExpectedCvValue::Str("y")));
    assert!(!value_ok(&empty, &ExpectedCvValue::Str("x")));
    assert!(!value_ok(&number, &ExpectedCvValue::Str("2.5")));
    assert!(value_ok(&number, &ExpectedCvValue::Number(2.5f64.to_bits())));
    assert!(!value_ok(&number, &ExpectedCvValue::Number(2.6f64.to_bits())));
    assert!(!value_ok(&text, &ExpectedCvValue::Number(0)));
    assert!(!value_ok(&empty, &ExpectedCvValue::Number(0)));
}

#[test]
fn first_term_of_a_name_is_held_to_what_is_expected() {
    let mut timed = term("scan start time", "MS:1000016", Some("MS"), ParamValue::Number(5.5f64.to_bits()));
    timed.unit_name = Some("minute".to_string());
    let ps = vec![
        term("ms level", "MS:1000511", Some("MS"), ParamValue::Text("2".to_string())),
        timed,
        term("positive scan", "MS:1000130", None, ParamValue::Empty),
        term("ms level", "MS:9999999", Some("MS"), ParamValue::Empty),
    ];
    let strict = CvRefMode::Strict;
    assert!(cv_ok(strict, &ps, "ms level", "MS:1000511", "MS", &ExpectedCvValue::Str("2"), None));
    assert!(!cv_ok(strict, &ps, "ms level", "MS:9999999", "MS", &ExpectedCvValue::Absent, None));
    assert!(!cv_ok(strict, &ps, "ms level", "MS:1000511", "UO", &ExpectedCvValue::Str("2"), None));
    assert!(!cv_ok(strict, &ps, "ms level", "MS:1000511", "MS", &ExpectedCvValue::Str("3"), None));
    assert!(!cv_ok(strict, &ps, "ms level", "MS:1000511", "MS", &ExpectedCvValue::Str("2"), Some("minute")));
    assert!(!cv_ok(strict, &ps, "missing", "MS:1000511", "MS", &ExpectedCvValue::Str("2"), None));
    let number = ExpectedCvValue::Number(5.5f64.to_bits());
    assert!(cv_ok(strict, &ps, "scan start time", "MS:1000016", "MS", &number, Some("minute")));
    assert!(!cv_ok(strict, &ps, "scan start time", "MS:1000016", "MS", &number, None));
    assert!(!cv_ok(strict, &ps, "scan start time", "MS:1000016", "MS", &number, Some("second")));
    assert!(!cv_ok(strict, &ps, "positive scan", "MS:1000130", "MS", &ExpectedCvValue::Absent, None));
    let lenient = CvRefMode::AllowMissingMs;
    assert!(cv_ok(lenient, &ps, "positive scan", "MS:1000130", "MS", &ExpectedCvValue::Absent, None));
    assert!(cv_ok(lenient, &ps, "positive scan", "MS:1000130", "MS", &ExpectedCvValue::Str(""), None));
    assert!(!cv_ok(lenient, &[], "positive scan", "MS:1000130", "MS", &ExpectedCvValue::Absent, None));
    assert!(cv_ok(strict, &ps, "ms level", "MS:1000511", "MS", &ExpectedCvValue::Str("2"), None));
    assert_cv(strict, &ps, "ms level", "MS:1000511", "MS", ExpectedCvValue::Str("2"), None);
}

#[test]
fn software_is_held_to_what_is_expected() {
    let p = SoftwareParam {
        cv_ref: None,
        accession: "MS:1000615".to_string(),
        name: "ProteoWizard".to_string(),
        version: Some("1.0".to_string()),
    };
    let lenient = CvRefMode::AllowMissingMs;
    assert!(software_param_ok(lenient, &p, "MS", "MS:1000615", "ProteoWizard", Some("1.0")));
    assert!(!software_param_ok(CvRefMode::Strict, &p, "MS", "MS:1000615", "ProteoWizard", Some("1.0")));
    assert!(!software_param_ok(lenient, &p, "MS", "MS:1000616", "ProteoWizard", Some("1.0")));
    assert!(!software_param_ok(lenient, &p, "MS", "MS:1000615", "Other", Some("1.0")));
    assert!(!software_param_ok(lenient, &p, "MS", "MS:1000615", "ProteoWizard", Some("2.0")));
    assert!(!software_param_ok(lenient, &p, "MS", "MS:1000615", "ProteoWizard", None));
    let old = Software {
        id: "pwiz".to_string(),
        version: Some("ignored".to_string()),
        software_param: vec![p],
        cv_param: vec![],
    };
    assert!(software_ok(lenient, &old, "MS", "MS:1000615", "ProteoWizard", Some("1.0")));
    assert!(!software_ok(lenient, &old, "MS", "MS:1000615", "ProteoWizard", Some("ignored")));
    let new = Software {
        id: "pwiz".to_string(),
        version: Some("3.0".to_string()),
        software_param: vec![],
        cv_param: vec![term("ProteoWizard", "MS:1000615", Some("MS"), ParamValue::Empty)],
    };
    let strict = CvRefMode::Strict;
    assert!(software_ok(strict, &new, "MS", "MS:1000615", "ProteoWizard", Some("3.0")));
    assert!(!software_ok(strict, &new, "MS", "MS:1000615", "ProteoWizard", Some("3.1")));
    assert!(!software_ok(strict, &new, "MS", "MS:1000615", "ProteoWizard", None));
    assert!(!software_ok(strict, &new, "MS", "MS:1000616", "ProteoWizard", Some("3.0")));
    assert!(!software_ok(strict, &new, "MS", "MS:1000615", "pwiz", Some("3.0")));
    let mut valued = new.clone();
    valued.cv_param[0].value = ParamValue::Text("x".to_string());
    assert!(!software_ok(strict, &valued, "MS", "MS:1000615", "ProteoWizard", Some("3.0")));
    let mut with_unit = new.clone();
    with_unit.cv_param[0].unit_name = Some("u".to_string());
    assert!(!software_ok(strict, &with_unit, "MS", "MS:1000615", "ProteoWizard", Some("3.0")));
}
