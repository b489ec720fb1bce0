use log_attributes::{
    capitalize, Config, ConfigError, FieldValue, FmtArgs, FnProcessor, MetaArg, Severity, Stmt,
};

fn names(a: &FmtArgs) -> Vec<String> {
    a.args.iter().map(|f| f.0.clone()).collect()
}

fn ident(s: &str) -> MetaArg {
    MetaArg::Ident(s.to_string())
}

fn lit(s: &str) -> MetaArg {
    MetaArg::Str(s.to_string())
}

fn processed(level: &str, template: &str, fn_name: &str) -> FnProcessor {
    let config = Config::new(&[ident(level), lit(template)]).unwrap();
    match FnProcessor::new(fn_name.to_string(), config).parse_fmt_args() {
        Ok(p) => p,
        Err(e) => panic!("scanning failed: {:?}", e),
    }
}

fn fields_of(body: &[Stmt]) -> Vec<(String, String, bool)> {
    match &body[1] {
        Stmt::Log(call) => call
            .fields
            .iter()
            .map(|f| match &f.value {
                FieldValue::Text(t) => (f.name.clone(), t.clone(), true),
                FieldValue::Var(v) => (f.name.clone(), v.clone(), false),
            })
            .collect(),
        other => panic!("expected the log call, got {:?}", other),
    }
}

#[test]
fn scan_fn_name_only() {
    let a = FmtArgs::scan("called fn {fn}");
    assert!(names(&a).is_empty());
    assert!(a.takes_fn_name);
    assert!(!a.takes_return_value);
}

#[test]
fn scan_two_fields() {
    let a = FmtArgs::scan("with {a} and {b}");
    assert_eq!(names(&a), vec!["a", "b"]);
    assert!(!a.takes_fn_name);
    assert!(!a.takes_return_value);
}

#[test]
fn scan_escaped_braces() {
    let a = FmtArgs::scan("not with {{a}} but with {b}");
    assert_eq!(names(&a), vec!["b"]);
    assert!(!a.takes_fn_name);
    assert!(!a.takes_return_value);
}

#[test]
fn scan_escaped_after_fn_name() {
    let a = FmtArgs::scan("called fn {fn} not with {{a}} but with {b}");
    assert_eq!(names(&a), vec!["b"]);
    assert!(a.takes_fn_name);
}

#[test]
fn scan_escapes_alone() {
    let a = FmtArgs::scan("{{}}{{ }}");
    assert!(names(&a).is_empty());
    assert!(!a.takes_fn_name);
    assert!(!a.takes_return_value);
}

#[test]
fn scan_format_spec_ignored() {
    let with_spec = FmtArgs::scan("{x:?}");
    let without = FmtArgs::scan("{x}");
    assert_eq!(names(&with_spec), vec!["x"]);
    assert_eq!(names(&with_spec), names(&without));
    let a = FmtArgs::scan("{self:?} {n:>5} {return:#?}");
    assert_eq!(names(&a), vec!["self", "n"]);
    assert!(a.takes_return_value);
}

#[test]
fn scan_field_count() {
    let a = FmtArgs::scan("a {x} {fn} {y:>5} {return} z");
    assert_eq!(names(&a), vec!["x", "y"]);
    assert!(a.takes_fn_name);
    assert!(a.takes_return_value);
}

#[test]
fn scan_keeps_duplicates() {
    let a = FmtArgs::scan("{a} {a} {fn} {fn}");
    assert_eq!(names(&a), vec!["a", "a"]);
    assert!(a.takes_fn_name);
}

#[test]
fn scan_empty_and_malformed() {
    assert!(names(&FmtArgs::scan("")).is_empty());
    assert!(names(&FmtArgs::scan("} {")).is_empty());
    assert_eq!(names(&FmtArgs::scan("{}")), vec![""]);
    assert_eq!(names(&FmtArgs::scan("{a{b}")), vec!["ab"]);
    assert_eq!(names(&FmtArgs::scan("{é}")), vec!["é"]);
}

#[test]
fn config_no_arguments() {
    assert!(matches!(Config::new(&[]), Err(ConfigError::NoArguments)));
}

#[test]
fn config_no_format_string() {
    assert!(matches!(Config::new(&[ident("info")]), Err(ConfigError::NoFormatString)));
}

#[test]
fn config_expected_level() {
    let r = Config::new(&[lit("info"), lit("x")]);
    assert!(matches!(r, Err(ConfigError::ExpectedLevel { position: 0 })));
    let r = Config::new(&[MetaArg::Other, lit("x")]);
    assert!(matches!(r, Err(ConfigError::ExpectedLevel { position: 0 })));
}

#[test]
fn config_unknown_level() {
    match Config::new(&[ident("verbose"), lit("x")]) {
        Err(ConfigError::UnknownLevel { position, text }) => {
            assert_eq!(position, 0);
            assert_eq!(text, "verbose");
        }
        other => panic!("unexpected {:?}", other),
    }
    assert!(matches!(
        Config::new(&[ident("off"), lit("x")]),
        Err(ConfigError::UnknownLevel { position: 0, .. })
    ));
}

#[test]
fn config_expected_format_string() {
    let r = Config::new(&[ident("info"), ident("x")]);
    assert!(matches!(r, Err(ConfigError::ExpectedFormatString { position: 1 })));
}

#[test]
fn config_unexpected_argument() {
    let r = Config::new(&[ident("info"), lit("x"), lit("y")]);
    assert!(matches!(r, Err(ConfigError::UnexpectedArgument { position: 2 })));
    let r = Config::with_log_level(&[lit("x"), MetaArg::Other], Severity::Warn);
    assert!(matches!(r, Err(ConfigError::UnexpectedArgument { position: 1 })));
}

#[test]
fn config_round_trip() {
    let levels = [
        ("error", Severity::Error),
        ("warn", Severity::Warn),
        ("info", Severity::Info),
        ("debug", Severity::Debug),
        ("trace", Severity::Trace),
        ("WaRn", Severity::Warn),
        ("TRACE", Severity::Trace),
    ];
    for (word, level) in levels {
        let c = Config::new(&[ident(word), lit("{fn} returned {return}")]).unwrap();
        assert_eq!(c.log_level, level);
        assert_eq!(c.fmt_string, "{fn} returned {return}");
    }
}

#[test]
fn config_with_log_level() {
    let c = Config::with_log_level(&[lit("hello {a}")], Severity::Debug).unwrap();
    assert_eq!(c.log_level, Severity::Debug);
    assert_eq!(c.fmt_string, "hello {a}");
    assert!(matches!(
        Config::with_log_level(&[], Severity::Debug),
        Err(ConfigError::NoFormatString)
    ));
    assert!(matches!(
        Config::with_log_level(&[ident("a")], Severity::Debug),
        Err(ConfigError::ExpectedFormatString { position: 0 })
    ));
}

#[test]
fn severity_names() {
    assert_eq!(Severity::Error.as_str(), "ERROR");
    assert_eq!(Severity::Warn.as_str(), "WARN");
    assert_eq!(Severity::Info.as_str(), "INFO");
    assert_eq!(Severity::Debug.as_str(), "DEBUG");
    assert_eq!(Severity::Trace.as_str(), "TRACE");
}

#[test]
fn capitalize_words() {
    assert_eq!(capitalize("INFO"), "Info");
    assert_eq!(capitalize("tRACE"), "Trace");
    assert_eq!(capitalize(""), "");
    assert_eq!(capitalize("w"), "W");
    assert_eq!(capitalize("ßA"), "SSa");
}

#[test]
fn rewrite_with_return_value() {
    let p = processed("info", "result {return}", "answer");
    let body = p.insert_log_statements();
    assert_eq!(body.len(), 3);
    assert!(matches!(&body[0], Stmt::BindBody(b) if b == "__FUNC_RET__"));
    assert!(matches!(&body[2], Stmt::Yield(b) if b == "__FUNC_RET__"));
    match &body[1] {
        Stmt::Log(call) => {
            assert_eq!(call.level, "Info");
            assert_eq!(call.template, "result {return}");
        }
        other => panic!("expected the log call, got {:?}", other),
    }
    assert_eq!(
        fields_of(&body),
        vec![("return".to_string(), "__FUNC_RET__".to_string(), false)]
    );
}

#[test]
fn rewrite_field_order() {
    let p = processed("warn", "{b} {return} {fn} {a:?}", "with_args");
    let body = p.insert_log_statements();
    match &body[1] {
        Stmt::Log(call) => assert_eq!(call.level, "Warn"),
        other => panic!("expected the log call, got {:?}", other),
    }
    assert_eq!(
        fields_of(&body),
        vec![
            ("fn".to_string(), "with_args".to_string(), true),
            ("return".to_string(), "__FUNC_RET__".to_string(), false),
            ("b".to_string(), "b".to_string(), false),
            ("a".to_string(), "a".to_string(), false),
        ]
    );
}

#[test]
fn rewrite_without_fields() {
    let p = processed("trace", "called", "empty");
    assert!(p.fmt_args.args.is_empty());
    let body = p.insert_log_statements();
    match &body[1] {
        Stmt::Log(call) => {
            assert_eq!(call.level, "Trace");
            assert!(call.fields.is_empty());
        }
        other => panic!("expected the log call, got {:?}", other),
    }
}

#[test]
fn processor_new_is_empty() {
    let c = Config::new(&[ident("debug"), lit("{x}")]).unwrap();
    let p = FnProcessor::new("f".to_string(), c);
    assert_eq!(p.fn_name, "f");
    assert!(p.fmt_args.args.is_empty());
    assert!(!p.fmt_args.takes_fn_name);
    assert!(!p.fmt_args.takes_return_value);
    assert_eq!(p.config.log_level, Severity::Debug);
}

#[test]
fn scan_escapes_around_fields() {
    let a = FmtArgs::scan("{{x}} {y} {{{z}}}");
    assert_eq!(names(&a), vec!["y", "z"]);
    assert!(!a.takes_fn_name);
    assert!(!a.takes_return_value);
}

#[test]
fn scan_close_brace_ends_field() {
    assert_eq!(names(&FmtArgs::scan("{a}}}")), vec!["a"]);
    assert_eq!(names(&FmtArgs::scan("{a}} {b}")), vec!["a", "b"]);
    assert_eq!(names(&FmtArgs::scan("{a:{{x}")), vec!["a"]);
}
