use lorikeet::bash::shell_result;
use lorikeet::disk::{get_stats, DiskReading, FsStats};
use lorikeet::filter::parse_usize;
use lorikeet::http::check_status;
use lorikeet::junit::{case_kind, filter_invalid_chars, junit_summary, CaseKind};
use lorikeet::number::{parse_number, Number};
use lorikeet::outputs::StepOutputs;
use lorikeet::step::{
    default_cookies, default_status, DiskOptions, DiskType, ExpectType, FilterType, HttpOptions,
    HttpVariant, Outcome, OutputType, RegexOptions, RegexVariant, Requirement, RetryPolicy,
    RunType, Step,
};
use lorikeet::submitter::{truncate, StepResult};
use lorikeet::text::keep_number_chars;
use lorikeet::yaml::{step_from_yaml, StepYaml};

fn num(s: &str) -> Number {
    parse_number(s).unwrap()
}

#[test]
fn expect_negative_numbers() {
    let expect = ExpectType::LessThan(num("0.0"));
    assert_eq!(expect.check("-1"), Ok(()));
    assert_eq!(expect.check("-1.0"), Ok(()));
    assert_eq!(expect.check("-.01"), Ok(()));
    assert_eq!(expect.check("-0.01"), Ok(()));

    let expect = ExpectType::GreaterThan(num("-2.0"));
    assert_eq!(expect.check("-1"), Ok(()));
    assert_eq!(expect.check("-1.0"), Ok(()));
    assert_eq!(expect.check("-.01"), Ok(()));
    assert_eq!(expect.check("-0.01"), Ok(()));
}

#[test]
fn numbers_compare_exactly() {
    assert!(num("1.5").less_than(&num("1.50001")));
    assert!(!num("1.50").less_than(&num("1.5")));
    assert!(!num("-0").less_than(&num("0")));
    assert!(num("-3").less_than(&num("-2.99")));
    assert!(num("99999999999999999").less_than(&num("100000000000000000")));
    assert_eq!(parse_number("1,000"), None);
    assert_eq!(parse_number("-"), None);
    assert_eq!(parse_number("."), None);
    assert_eq!(parse_number("1.2.3"), None);
    assert_eq!(parse_number("--1"), None);
    assert_eq!(parse_number("+7"), Some(Number { negative: false, mantissa: 7, scale: 0 }));
    assert_eq!(parse_number("-.01"), Some(Number { negative: true, mantissa: 1, scale: 2 }));
    assert_eq!(parse_number("99999999999999999999"), None);
}

#[test]
fn number_text_places_the_dot() {
    assert_eq!(num("42").to_text(), "42");
    assert_eq!(num("-0.01").to_text(), "-0.01");
    assert_eq!(num("-.01").to_text(), "-0.01");
    assert_eq!(num("12.50").to_text(), "12.50");
}

#[test]
fn numeric_expectation_messages() {
    let e = ExpectType::GreaterThan(num("100"));
    assert_eq!(e.check("the value is 42"), Err("The value `42` is not greater than `100`".to_string()));
    let e = ExpectType::LessThan(num("1"));
    assert_eq!(e.check("3 items"), Err("The value `3` is not less than `1`".to_string()));
    assert_eq!(e.check("none"), Err("Could not parse `none` as a number".to_string()));
    let e = ExpectType::GreaterThan(num("1"));
    assert_eq!(e.check("1,5"), Err("Could not parse `1,5` as a number".to_string()));
}

#[test]
fn number_chars_are_kept() {
    assert_eq!(keep_number_chars("load: -1.5, ok"), "-1.5,");
    assert_eq!(keep_number_chars(""), "");
}

#[test]
fn regex_expectations() {
    assert_eq!(ExpectType::Matches("^a+$".to_string()).check("aaa"), Ok(()));
    assert_eq!(
        ExpectType::Matches("^b".to_string()).check("abc"),
        Err("Not matched against `^b`".to_string())
    );
    assert_eq!(ExpectType::MatchesNot("z".to_string()).check("abc"), Ok(()));
    assert_eq!(
        ExpectType::MatchesNot("b".to_string()).check("abc"),
        Err("Matched against `b`".to_string())
    );
    let err = ExpectType::Matches("(".to_string()).check("abc").unwrap_err();
    assert!(err.starts_with("Could not create regex from `(`.  Error is:"));
    assert_eq!(ExpectType::Anything.check("whatever"), Ok(()));
}

#[test]
fn regex_filter_groups() {
    let f = FilterType::Regex(RegexVariant::MatchOnly("[0-9]+".to_string()));
    assert_eq!(f.filter("abc 123 def"), Ok("123".to_string()));
    let f = FilterType::Regex(RegexVariant::Options(RegexOptions {
        matches: "v=(?P<ver>[0-9.]+)".to_string(),
        group: "ver".to_string(),
    }));
    assert_eq!(f.filter("v=1.2.3"), Ok("1.2.3".to_string()));
    let f = FilterType::Regex(RegexVariant::Options(RegexOptions {
        matches: "a(b)".to_string(),
        group: "1".to_string(),
    }));
    assert_eq!(f.filter("xab"), Ok("b".to_string()));
    let f = FilterType::Regex(RegexVariant::Options(RegexOptions {
        matches: "a(b)".to_string(),
        group: "2".to_string(),
    }));
    assert_eq!(
        f.filter("xab"),
        Err("Could not find group number `2` in regex `a(b)`".to_string())
    );
    let f = FilterType::Regex(RegexVariant::Options(RegexOptions {
        matches: "a(b)".to_string(),
        group: "name".to_string(),
    }));
    assert_eq!(
        f.filter("xab"),
        Err("Could not find group name `name` in regex `a(b)`".to_string())
    );
    let f = FilterType::Regex(RegexVariant::MatchOnly("q".to_string()));
    assert_eq!(f.filter("abc"), Err("Could not find `q` in output".to_string()));
}

#[test]
fn jmespath_filters() {
    let f = FilterType::JmesPath("k".to_string());
    assert_eq!(f.filter("{\"k\":\"42\"}"), Ok("42".to_string()));
    let f = FilterType::JmesPath("a.b".to_string());
    assert_eq!(f.filter("{\"a\":{\"b\":[1,2]}}"), Ok("[1,2]".to_string()));
    let f = FilterType::JmesPath("missing".to_string());
    assert_eq!(
        f.filter("{\"k\":1}"),
        Err("Could not find jmespath expression `missing` in output".to_string())
    );
    let f = FilterType::JmesPath("k".to_string());
    assert!(f.filter("not json").unwrap_err().starts_with("Could not format as json:"));
    let f = FilterType::JmesPath("[".to_string());
    assert!(f.filter("{}").unwrap_err().starts_with("Could not compile jmespath:"));
    assert_eq!(FilterType::NoOutput.filter("anything"), Ok(String::new()));
}

#[test]
fn group_numbers_parse() {
    assert_eq!(parse_usize("0"), Some(0));
    assert_eq!(parse_usize("+12"), Some(12));
    assert_eq!(parse_usize("x1"), None);
    assert_eq!(parse_usize(""), None);
    assert_eq!(parse_usize("99999999999999999999999"), None);
}

#[test]
fn requirement_lists() {
    assert_eq!(Requirement::One("a".to_string()).to_vec(), vec!["a".to_string()]);
    assert_eq!(
        Requirement::Many(vec!["a".to_string(), "b".to_string()]).to_vec(),
        vec!["a".to_string(), "b".to_string()]
    );
}

#[test]
fn http_defaults() {
    assert!(default_cookies());
    assert_eq!(default_status(), 200);
    let v = HttpVariant::UrlOnly("http://x".to_string());
    assert_eq!(v.method(), "GET");
    assert_eq!(v.expected_status(), 200);
    assert!(v.save_cookies());
    let v = HttpVariant::Options(Box::new(HttpOptions {
        url: "http://x".to_string(),
        method: "GET".to_string(),
        save_cookies: false,
        status: 201,
        headers: None,
        user: None,
        body: Some("b".to_string()),
        pass: None,
        form: None,
        multipart: None,
        verify_ssl: None,
    }));
    assert_eq!(v.method(), "POST");
    assert_eq!(v.expected_status(), 201);
    assert_eq!(check_status(404, 200), Err("returned status `404` does not match expected `200`".to_string()));
    assert_eq!(check_status(200, 200), Ok(()));
}

#[test]
fn shell_results() {
    assert_eq!(shell_result(true, Some(0), "out".into(), "err".into(), true), Ok("out".to_string()));
    assert_eq!(shell_result(false, Some(2), "out".into(), "err".into(), false), Err("err".to_string()));
    assert_eq!(
        shell_result(false, Some(2), "out".into(), "err".into(), true),
        Err("Status Code:2\nError:err\nOutput:out".to_string())
    );
    assert_eq!(
        shell_result(false, None, "".into(), "".into(), true),
        Err("Status Code:1\nError:\nOutput:".to_string())
    );
}

#[test]
fn disk_readings() {
    let stats = FsStats { blocks: 1000, fragment_size: 4096, available_blocks: 250 };
    let mut ops = DiskOptions { mount: "/".into(), disk_type: DiskType::Free, output_type: OutputType::Bytes };
    assert_eq!(get_stats(&ops, &stats), Ok(DiskReading::Text("1024000".to_string())));
    ops.disk_type = DiskType::Used;
    assert_eq!(get_stats(&ops, &stats), Ok(DiskReading::Text("3072000".to_string())));
    ops.output_type = OutputType::Percent;
    assert_eq!(get_stats(&ops, &stats), Ok(DiskReading::Text("75%".to_string())));
    ops.disk_type = DiskType::Size;
    ops.output_type = OutputType::Human;
    assert_eq!(get_stats(&ops, &stats), Ok(DiskReading::Human(4096000)));
    let third = FsStats { blocks: 3, fragment_size: 1, available_blocks: 1 };
    let ops = DiskOptions { mount: "/".into(), disk_type: DiskType::Free, output_type: OutputType::Percent };
    assert_eq!(get_stats(&ops, &third), Ok(DiskReading::Text("33%".to_string())));
    let half = FsStats { blocks: 8, fragment_size: 1, available_blocks: 1 };
    assert_eq!(get_stats(&ops, &half), Ok(DiskReading::Text("13%".to_string())));
    let empty = FsStats { blocks: 0, fragment_size: 4096, available_blocks: 0 };
    assert_eq!(
        get_stats(&ops, &empty),
        Err("Size for mount `/` is 0.  Can't create percentage".to_string())
    );
}

fn result(name: &str, pass: bool, error: Option<&str>) -> StepResult {
    StepResult {
        name: name.into(),
        description: None,
        pass,
        output: String::new(),
        error: error.map(String::from),
        on_fail_output: None,
        on_fail_error: None,
        duration_nanos: 0,
    }
}

#[test]
fn junit_counts() {
    let rs = vec![
        result("a", true, None),
        result("b", false, Some("boom")),
        result("c", false, Some("Dependency Not Met")),
        result("d", false, Some("Dependency Not Met")),
    ];
    let s = junit_summary(&rs);
    assert_eq!((s.tests, s.failures, s.skipped), (4, 1, 2));
    assert_eq!(case_kind(&rs[0]), CaseKind::Passed);
    assert_eq!(case_kind(&rs[1]), CaseKind::Failed);
    assert_eq!(case_kind(&rs[2]), CaseKind::Skipped);
    let s = junit_summary(&[]);
    assert_eq!((s.tests, s.failures, s.skipped), (0, 0, 0));
}

#[test]
fn xml_invalid_chars_dropped() {
    assert_eq!(filter_invalid_chars("a\u{1}b\tc\n\u{FFFE}d"), "ab\tc\nd");
    assert_eq!(filter_invalid_chars("\u{10000}é"), "é");
}

fn bare_step(outcome: Option<Outcome>, do_output: bool) -> Step {
    Step {
        name: "s".into(),
        description: Some("desc".into()),
        run: RunType::Value(String::new()),
        on_fail: None,
        filters: vec![],
        expect: ExpectType::Anything,
        do_output,
        outcome,
        retry: RetryPolicy::default(),
        require: vec![],
        required_by: vec![],
    }
}

#[test]
fn result_projection() {
    let outcome = Outcome {
        output: Some("out".into()),
        error: None,
        on_fail_output: None,
        on_fail_error: None,
        duration_nanos: 1500,
    };
    let r = StepResult::from_step(&bare_step(Some(outcome.clone()), true));
    assert!(r.pass);
    assert_eq!(r.output, "out");
    assert_eq!(r.description.as_deref(), Some("desc"));
    assert_eq!(r.duration_nanos, 1500);
    let r = StepResult::from_step(&bare_step(Some(outcome), false));
    assert_eq!(r.output, "");
    let r = StepResult::from_step(&bare_step(None, true));
    assert!(!r.pass);
    assert_eq!(r.error.as_deref(), Some("Not finished"));
    let skipped = Outcome::dependency_not_met();
    assert!(skipped.is_dependency_not_met());
    let r = StepResult::from_step(&bare_step(Some(skipped), true));
    assert!(!r.pass);
    assert_eq!(r.error.as_deref(), Some("Dependency Not Met"));
    assert_eq!(r.duration_nanos, 0);
}

#[test]
fn shared_outputs() {
    let mut outputs = StepOutputs::new();
    assert_eq!(outputs.get("a"), Err("Step a could not be found".to_string()));
    let ok = Outcome { output: Some("v1".into()), error: None, on_fail_output: None, on_fail_error: None, duration_nanos: 0 };
    outputs.record(&"a".to_string(), &ok);
    assert_eq!(outputs.get("a"), Ok("v1".to_string()));
    let snap = outputs.snapshot();
    let ok2 = Outcome { output: Some("v2".into()), ..ok.clone() };
    outputs.record(&"a".to_string(), &ok2);
    assert_eq!(outputs.get("a"), Ok("v2".to_string()));
    assert_eq!(snap.get("a"), Ok("v1".to_string()));
    let empty = Outcome { output: None, ..ok };
    outputs.record(&"b".to_string(), &empty);
    assert!(outputs.get("b").is_err());
    assert_eq!(RunType::Step("a".into()).run_local(&outputs), Some(Ok("v2".to_string())));
    assert_eq!(RunType::Value("lit".into()).run_local(&outputs), Some(Ok("lit".to_string())));
    assert_eq!(RunType::System(lorikeet::step::SystemVariant::MemFree).run_local(&outputs), None);
}

fn yaml() -> StepYaml {
    StepYaml {
        description: None,
        value: None,
        bash: None,
        step: None,
        http: None,
        system: None,
        disk: None,
        matches: None,
        matches_not: None,
        filters: vec![],
        jmespath: None,
        regex: None,
        do_output: None,
        less_than: None,
        greater_than: None,
        retry_count: None,
        retry_delay_ms: None,
        delay_ms: None,
        on_fail: None,
        require: None,
        required_by: None,
    }
}

#[test]
fn plan_entries_become_steps() {
    let mut y = yaml();
    y.value = Some("v".into());
    y.step = Some("other".into());
    y.jmespath = Some("k".into());
    y.regex = Some(RegexVariant::MatchOnly("x".into()));
    y.filters = vec![FilterType::NoOutput];
    y.greater_than = Some("10".into());
    y.matches = Some("m".into());
    y.retry_count = Some(2);
    y.delay_ms = Some(5);
    y.require = Some(Requirement::One("other".into()));
    let s = step_from_yaml("a".into(), y).unwrap();
    assert_eq!(s.name, "a");
    assert_eq!(s.run, RunType::Step("other".into()));
    assert_eq!(s.expect, ExpectType::Matches("m".into()));
    assert_eq!(
        s.filters,
        vec![
            FilterType::NoOutput,
            FilterType::JmesPath("k".into()),
            FilterType::Regex(RegexVariant::MatchOnly("x".into()))
        ]
    );
    assert_eq!(s.retry, RetryPolicy { retry_count: 2, retry_delay_ms: 0, initial_delay_ms: 5 });
    assert_eq!(s.require, vec!["other".to_string()]);
    assert!(s.do_output);
    let mut y = yaml();
    y.less_than = Some("abc".into());
    assert_eq!(step_from_yaml("b".into(), y).unwrap_err(), "Could not parse number `abc`");
    let s = step_from_yaml("c".into(), yaml()).unwrap();
    assert_eq!(s.run, RunType::Value(String::new()));
    assert_eq!(s.expect, ExpectType::Anything);
}

#[test]
fn request_bodies_are_templated() {
    let mut outputs = StepOutputs::new();
    let ok = Outcome { output: Some("hello".into()), error: None, on_fail_output: None, on_fail_error: None, duration_nanos: 0 };
    outputs.record(&"a".to_string(), &ok);
    assert_eq!(outputs.render_body("x ${step_output.a} y"), Ok("x hello y".to_string()));
    assert_eq!(outputs.render_body("plain {{ body }}"), Ok("plain {{ body }}".to_string()));
    let err = outputs.render_body("${step_output.missing}").unwrap_err();
    assert!(err.starts_with("Template Rendering Error: "));
}

#[test]
fn terminal_messages() {
    let mut r = StepResult {
        name: "disk".into(),
        description: Some("root fs".into()),
        pass: false,
        output: "a\nb".into(),
        error: Some("boom".into()),
        on_fail_output: Some(" \n".into()),
        on_fail_error: Some("oops".into()),
        duration_nanos: 0,
    };
    assert_eq!(
        r.terminal_message("1.5"),
        "- name: disk\n  description: root fs\n  pass: false\n  output: |\n    a\n    b\n  error: boom\n  on_fail_error: oops\n  duration: 1.5ms\n"
    );
    r.description = None;
    r.pass = true;
    r.output = "x".into();
    r.error = None;
    r.on_fail_output = Some("cleaned".into());
    r.on_fail_error = None;
    assert_eq!(
        r.terminal_message("0"),
        "- name: disk\n  pass: true\n  output: x\n  on_fail_output: cleaned\n  duration: 0ms\n"
    );
    r.output = String::new();
    r.on_fail_output = None;
    assert_eq!(r.terminal_message("2"), "- name: disk\n  pass: true\n  duration: 2ms\n");
}

#[test]
fn chat_messages() {
    let mut failed = result("a", false, Some("boom"));
    failed.description = Some("desc".into());
    let ok = result("b", true, None);
    assert_eq!(lorikeet::submitter::chat_title(&[ok.clone()], "host"), None);
    assert_eq!(
        lorikeet::submitter::chat_title(&[failed.clone(), ok.clone()], "host"),
        Some("1 Error from `host`".to_string())
    );
    assert_eq!(
        lorikeet::submitter::chat_title(&[failed.clone(), failed.clone(), ok], "h"),
        Some("2 Errors from `h`".to_string())
    );
    assert_eq!(
        failed.chat_section("1.50"),
        "*Name*: a, *Description*: desc\n\n*Error*: boom\n\n*Duration*: (1.50ms)\n\n"
    );
    let mut with_output = result("c", false, None);
    with_output.output = "out".into();
    assert_eq!(with_output.chat_section("0.00"), "*Name*: c\n\n*Output*: (0.00ms)\n\n");
}

#[test]
fn jmespath_null_string_is_kept() {
    let f = FilterType::JmesPath("k".to_string());
    assert_eq!(f.filter("{\"k\":\"null\"}"), Ok("null".to_string()));
    assert_eq!(
        f.filter("{\"k\":null}"),
        Err("Could not find jmespath expression `k` in output".to_string())
    );
}

#[test]
fn jmespath_numbers_are_bounded() {
    let f = FilterType::JmesPath("a[3000000000]".to_string());
    assert!(f.filter("{\"a\":[1]}").unwrap_err().starts_with("Could not compile jmespath:a number"));
    let f = FilterType::JmesPath("a[-\u{0663}]".to_string());
    assert!(f.filter("{\"a\":[1]}").unwrap_err().starts_with("Could not compile jmespath:a number"));
    let f = FilterType::JmesPath("[4::2147483647]".to_string());
    assert!(f.filter("[1,2,3,4,5]").unwrap_err().starts_with("Could not find jmes expression:the expression's numbers"));
    let f = FilterType::JmesPath("[4::999999999]".to_string());
    assert_eq!(f.filter("[1,2,3,4,5]"), Ok("[5]".to_string()));
    let f = FilterType::JmesPath("a[1]".to_string());
    assert_eq!(f.filter("{\"a\":[1,2]}"), Ok("2".to_string()));
    let f = FilterType::JmesPath("a1234567890123".to_string());
    assert_eq!(f.filter("{\"a1234567890123\":\"x\"}"), Ok("x".to_string()));
    let f = FilterType::JmesPath("'12345678901234'".to_string());
    assert_eq!(f.filter("{}"), Ok("12345678901234".to_string()));
    let f = FilterType::JmesPath("`12345678901234`".to_string());
    assert_eq!(f.filter("{}"), Ok("12345678901234".to_string()));
    assert!(lorikeet::matching::jmespath_numbers_checked("a[2147483647]", 2147483647));
    assert!(!lorikeet::matching::jmespath_numbers_checked("a[2147483648]", 2147483647));
    assert!(lorikeet::matching::jmespath_numbers_checked("a >= '99999999999'", 2147483647));
    assert!(lorikeet::matching::jmespath_numbers_checked("\"x\\\"9999999999\"", 2147483647));
}

#[test]
fn template_errors_are_marked() {
    let outputs = StepOutputs::new();
    let err = outputs.render_body("${step_output.a} {% if %}").unwrap_err();
    assert!(err.starts_with("Template Error: "));
    let r = lorikeet::outputs::rendering_result(Err("bad".to_string()));
    assert_eq!(r, Err("Template Rendering Error: bad".to_string()));
    assert_eq!(lorikeet::outputs::rendering_result(Ok("x".to_string())), Ok("x".to_string()));
}

#[test]
fn cookie_jars_keep_the_latest() {
    let mut jar = cookie::CookieJar::new();
    assert_eq!(lorikeet::cookies::cookie_header(&jar), "");
    lorikeet::cookies::add_set_cookies(
        &mut jar,
        &vec!["a=1; Path=/".to_string(), "not a cookie".to_string(), "a=2".to_string()],
    );
    assert_eq!(lorikeet::cookies::cookie_header(&jar), "a=2");
    lorikeet::cookies::add_set_cookies(&mut jar, &vec!["b=3".to_string()]);
    let header = lorikeet::cookies::cookie_header(&jar);
    assert!(header == "a=2; b=3" || header == "b=3; a=2");
}

#[test]
fn only_plain_templates_are_rendered() {
    let outputs = StepOutputs::new();
    let body = format!("${{step_output.a}} {{{{ 1{}.0 }}}}", "0".repeat(320));
    assert_eq!(
        outputs.render_body(&body),
        Err("Template Error: a request body that refers to a step's output may hold no other template syntax".to_string())
    );
    assert!(lorikeet::outputs::plain_template_checked("x {{step_output.a_1}} y {{step_output.b}}"));
    assert!(!lorikeet::outputs::plain_template_checked("{{step_output.}}"));
    assert!(!lorikeet::outputs::plain_template_checked("{{ step_output.a }}"));
    assert!(!lorikeet::outputs::plain_template_checked("{# c #}"));
    assert!(lorikeet::outputs::plain_template_checked("plain } { text"));
}

#[test]
fn truncation_cuts_at_whitespace() {
    assert_eq!(truncate("short", 10), "short");
    assert_eq!(truncate("hello world again", 12), "hello world...");
    assert_eq!(truncate("abcdefghij", 4), "abcd...");
    assert_eq!(truncate("ab cd", 2), "ab...");
    assert_eq!(truncate("aé", 2), "a...");
    assert_eq!(truncate("aé b", 3), "aé...");
    assert_eq!(truncate("", 0), "");
}
