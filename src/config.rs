//! The directive parser: a severity and a template out of the attribute's
//! arguments.
use vstd::prelude::*;

verus! {

/// A log severity, as the `log` facade knows them.
#[derive(Clone, Copy, Debug, PartialEq, Eq, Structural)]
pub enum Severity {
    Error,
    Warn,
    Info,
    Debug,
    Trace,
}

impl Severity {
    /// The level's name in capitals.
    pub open spec fn spec_name(self) -> Seq<char> {
        match self {
            Severity::Error => seq!['E', 'R', 'R', 'O', 'R'],
            Severity::Warn => seq!['W', 'A', 'R', 'N'],
            Severity::Info => seq!['I', 'N', 'F', 'O'],
            Severity::Debug => seq!['D', 'E', 'B', 'U', 'G'],
            Severity::Trace => seq!['T', 'R', 'A', 'C', 'E'],
        }
    }

    /// The name of the matching `log::Level` variant.
    pub open spec fn spec_ident(self) -> Seq<char> {
        match self {
            Severity::Error => seq!['E', 'r', 'r', 'o', 'r'],
            Severity::Warn => seq!['W', 'a', 'r', 'n'],
            Severity::Info => seq!['I', 'n', 'f', 'o'],
            Severity::Debug => seq!['D', 'e', 'b', 'u', 'g'],
            Severity::Trace => seq!['T', 'r', 'a', 'c', 'e'],
        }
    }

    /// The level's name in capitals, as `log::Level::as_str` spells it.
    pub fn as_str(&self) -> (r: &'static str)
        ensures
            r@ == self.spec_name(),
    {
        proof {
            reveal_strlit("ERROR");
            reveal_strlit("WARN");
            reveal_strlit("INFO");
            reveal_strlit("DEBUG");
            reveal_strlit("TRACE");
        }
        let r = match self {
            Severity::Error => "ERROR",
            Severity::Warn => "WARN",
            Severity::Info => "INFO",
            Severity::Debug => "DEBUG",
            Severity::Trace => "TRACE",
        };
        proof {
            assert(r@ =~= self.spec_name());
        }
        r
    }
}

/// A character with ASCII upper case letters taken to lower case.
pub open spec fn ascii_fold(c: char) -> int {
    if 'A' <= c <= 'Z' {
        c as int + 32
    } else {
        c as int
    }
}

/// Equal but for the case of ASCII letters.
pub open spec fn eq_ignore_ascii_case(a: Seq<char>, b: Seq<char>) -> bool {
    a.len() == b.len() && forall|i: int| 0 <= i < a.len() ==> ascii_fold(#[trigger] a[i]) == ascii_fold(b[i])
}

/// The severity that an identifier names, in any ASCII case.
pub open spec fn level_named(s: Seq<char>) -> Option<Severity> {
    if eq_ignore_ascii_case(s, Severity::Error.spec_name()) {
        Some(Severity::Error)
    } else if eq_ignore_ascii_case(s, Severity::Warn.spec_name()) {
        Some(Severity::Warn)
    } else if eq_ignore_ascii_case(s, Severity::Info.spec_name()) {
        Some(Severity::Info)
    } else if eq_ignore_ascii_case(s, Severity::Debug.spec_name()) {
        Some(Severity::Debug)
    } else if eq_ignore_ascii_case(s, Severity::Trace.spec_name()) {
        Some(Severity::Trace)
    } else {
        None
    }
}

/// Relies on `<log::Level as FromStr>::from_str`: a level's name matched
/// without regard to ASCII case, "OFF" not being a level.
#[verifier::external_body]
fn level_from_name(s: &str) -> (r: Option<Severity>)
    ensures
        r == level_named(s@),
{
    match <log::Level as std::str::FromStr>::from_str(s) {
        Ok(log::Level::Error) => Some(Severity::Error),
        Ok(log::Level::Warn) => Some(Severity::Warn),
        Ok(log::Level::Info) => Some(Severity::Info),
        Ok(log::Level::Debug) => Some(Severity::Debug),
        Ok(log::Level::Trace) => Some(Severity::Trace),
        Err(_) => None,
    }
}

/// One argument of the attribute, as far as the parser looks at it.
#[derive(Debug)]
pub enum MetaArg {
    /// A path that is a single identifier, such as `info`.
    Ident(String),
    /// A string literal, holding its value.
    Str(String),
    /// Anything else.
    Other,
}

/// Why the arguments do not make a directive. A position counts the
/// arguments from zero.
#[derive(Debug)]
pub enum ConfigError {
    NoArguments,
    ExpectedLevel { position: usize },
    UnknownLevel { position: usize, text: String },
    NoFormatString,
    ExpectedFormatString { position: usize },
    UnexpectedArgument { position: usize },
}

/// A parsed directive: the severity and the template text.
#[derive(Debug)]
pub struct Config {
    pub log_level: Severity,
    pub fmt_string: String,
}

/// What parsing `args` from `start` on gives when the severity is `level`:
/// exactly one string literal must follow.
pub open spec fn parsed_with_level(
    args: Seq<MetaArg>,
    start: int,
    level: Severity,
    r: Result<Config, ConfigError>,
) -> bool {
    if start >= args.len() {
        r == Err::<Config, ConfigError>(ConfigError::NoFormatString)
    } else if !(args[start] is Str) {
        r == Err::<Config, ConfigError>(ConfigError::ExpectedFormatString { position: start as usize })
    } else if start + 1 < args.len() {
        r == Err::<Config, ConfigError>(ConfigError::UnexpectedArgument { position: (start + 1) as usize })
    } else {
        r is Ok && r->Ok_0.log_level == level && r->Ok_0.fmt_string@ == args[start]->Str_0@
    }
}

/// What parsing the full argument list `args` gives: a severity
/// identifier, then the template.
pub open spec fn parsed(args: Seq<MetaArg>, r: Result<Config, ConfigError>) -> bool {
    if args.len() == 0 {
        r == Err::<Config, ConfigError>(ConfigError::NoArguments)
    } else if !(args[0] is Ident) {
        r == Err::<Config, ConfigError>(ConfigError::ExpectedLevel { position: 0 })
    } else {
        match level_named(args[0]->Ident_0@) {
            None => match r {
                Err(ConfigError::UnknownLevel { position, text }) => position == 0 && text@
                    == args[0]->Ident_0@,
                _ => false,
            },
            Some(level) => parsed_with_level(args, 1, level, r),
        }
    }
}

/// Parses the template argument at `start`, with nothing after it.
fn parse_format_at(args: &[MetaArg], start: usize, log_level: Severity) -> (r: Result<
    Config,
    ConfigError,
>)
    requires
        start <= args@.len(),
    ensures
        parsed_with_level(args@, start as int, log_level, r),
{
    if start >= args.len() {
        return Err(ConfigError::NoFormatString);
    }
    let fmt_string = match &args[start] {
        MetaArg::Str(s) => s.clone(),
        _ => return Err(ConfigError::ExpectedFormatString { position: start }),
    };
    if start + 1 < args.len() {
        return Err(ConfigError::UnexpectedArgument { position: start + 1 });
    }
    Ok(Config { log_level, fmt_string })
}

impl Config {
    /// Parses `severity, "template"`.
    pub fn new(args: &[MetaArg]) -> (r: Result<Self, ConfigError>)
        ensures
            parsed(args@, r),
    {
        if args.len() == 0 {
            return Err(ConfigError::NoArguments);
        }
        let name = match &args[0] {
            MetaArg::Ident(s) => s,
            _ => return Err(ConfigError::ExpectedLevel { position: 0 }),
        };
        match level_from_name(name.as_str()) {
            None => Err(ConfigError::UnknownLevel { position: 0, text: name.clone() }),
            Some(level) => parse_format_at(args, 1, level),
        }
    }

    /// Parses `"template"` for a severity that the attribute itself fixes.
    pub fn with_log_level(args: &[MetaArg], log_level: Severity) -> (r: Result<Self, ConfigError>)
        ensures
            parsed_with_level(args@, 0, log_level, r),
    {
        parse_format_at(args, 0, log_level)
    }
}


/// Two level names that differ in length or in their first letter.
proof fn lemma_names_distinct(a: Severity, b: Severity)
    requires
        a != b,
    ensures
        !eq_ignore_ascii_case(a.spec_name(), b.spec_name()),
{
    if a.spec_name().len() == b.spec_name().len() {
        assert(ascii_fold(a.spec_name()[0]) != ascii_fold(b.spec_name()[0]));
    }
}

/// Equality ignoring ASCII case is transitive.
proof fn lemma_eq_ignore_case_trans(a: Seq<char>, b: Seq<char>, c: Seq<char>)
    requires
        eq_ignore_ascii_case(a, b),
        eq_ignore_ascii_case(a, c),
    ensures
        eq_ignore_ascii_case(b, c),
{
    assert forall|i: int| 0 <= i < b.len() implies ascii_fold(#[trigger] b[i]) == ascii_fold(c[i]) by {
        assert(ascii_fold(a[i]) == ascii_fold(b[i]));
        assert(ascii_fold(a[i]) == ascii_fold(c[i]));
    }
}

/// A directive written out as its two arguments, an identifier that names
/// the severity in any ASCII case and a string literal holding the
/// template, parses back to that severity and that template.
pub proof fn lemma_directive_round_trip(
    args: Seq<MetaArg>,
    level: Severity,
    r: Result<Config, ConfigError>,
)
    requires
        args.len() == 2,
        args[0] is Ident,
        eq_ignore_ascii_case(args[0]->Ident_0@, level.spec_name()),
        args[1] is Str,
        parsed(args, r),
    ensures
        r is Ok,
        r->Ok_0.log_level == level,
        r->Ok_0.fmt_string@ == args[1]->Str_0@,
{
    let s = args[0]->Ident_0@;
    assert forall|other: Severity| other != level implies !eq_ignore_ascii_case(
        s,
        #[trigger] other.spec_name(),
    ) by {
        lemma_names_distinct(level, other);
        if eq_ignore_ascii_case(s, other.spec_name()) {
            lemma_eq_ignore_case_trans(s, level.spec_name(), other.spec_name());
        }
    }
    assert(Severity::Error.spec_name() == Severity::Error.spec_name());
    assert(Severity::Warn.spec_name() == Severity::Warn.spec_name());
    assert(Severity::Info.spec_name() == Severity::Info.spec_name());
    assert(Severity::Debug.spec_name() == Severity::Debug.spec_name());
    assert(Severity::Trace.spec_name() == Severity::Trace.spec_name());
    assert(level_named(s) == Some(level));
}

/// In the form whose severity the attribute fixes, a lone string literal
/// parses to that severity and its template.
pub proof fn lemma_bound_level_round_trip(
    args: Seq<MetaArg>,
    level: Severity,
    r: Result<Config, ConfigError>,
)
    requires
        args.len() == 1,
        args[0] is Str,
        parsed_with_level(args, 0, level, r),
    ensures
        r is Ok,
        r->Ok_0.log_level == level,
        r->Ok_0.fmt_string@ == args[0]->Str_0@,
{
}

} // verus!
