//! The body rewriter: the statements that replace a function's body so that
//! it logs one record after the original body has run.
use vstd::prelude::*;
use crate::config::{ascii_fold, Config};
use crate::fmt_args::{fn_word, return_word, scan, FmtArgs};

verus! {

/// The upper case mapping of a character.
pub uninterp spec fn upper_of(c: char) -> Seq<char>;

/// The lower case mapping of a character.
pub uninterp spec fn lower_of(c: char) -> Seq<char>;

/// An ASCII letter, small or capital.
pub open spec fn is_ascii_letter(c: char) -> bool {
    ('a' <= c <= 'z') || ('A' <= c <= 'Z')
}

/// A character with ASCII lower case letters taken to upper case.
pub open spec fn ascii_upper_code(c: char) -> int {
    if 'a' <= c <= 'z' {
        c as int - 32
    } else {
        c as int
    }
}

/// Relies on `char::to_uppercase`: the characters of the upper case mapping,
/// which depend on `c` alone; an ASCII letter maps to its capital.
#[verifier::external_body]
fn char_to_uppercase(c: char) -> (r: String)
    ensures
        r@ == upper_of(c),
        is_ascii_letter(c) ==> r@.len() == 1 && r@[0] as int == ascii_upper_code(c),
{
    c.to_uppercase().collect()
}

/// Relies on `char::to_lowercase`: the characters of the lower case mapping,
/// which depend on `c` alone; an ASCII letter maps to its small letter.
#[verifier::external_body]
fn char_to_lowercase(c: char) -> (r: String)
    ensures
        r@ == lower_of(c),
        is_ascii_letter(c) ==> r@.len() == 1 && r@[0] as int == ascii_fold(c),
{
    c.to_lowercase().collect()
}

/// Every character of `s` in lower case.
pub open spec fn lowered(s: Seq<char>) -> Seq<char>
    decreases s.len(),
{
    if s.len() == 0 {
        Seq::empty()
    } else {
        lowered(s.drop_last()) + lower_of(s.last())
    }
}

/// The first character of `s` in upper case, the rest in lower case.
pub open spec fn capitalized(s: Seq<char>) -> Seq<char> {
    if s.len() == 0 {
        Seq::empty()
    } else {
        upper_of(s[0]) + lowered(s.drop_first())
    }
}

/// A word of ASCII letters, `r`, is `s` with its first letter a capital
/// and the others small.
pub open spec fn ascii_capitalized(s: Seq<char>, r: Seq<char>) -> bool {
    &&& r.len() == s.len()
    &&& s.len() > 0 ==> r[0] as int == ascii_upper_code(s[0])
    &&& forall|i: int| 1 <= i < s.len() ==> (#[trigger] r[i]) as int == ascii_fold(s[i])
}

/// Upper case for the first character, lower case for the rest.
pub fn capitalize(s: &str) -> (r: String)
    ensures
        r@ == capitalized(s@),
        (forall|i: int| 0 <= i < s@.len() ==> is_ascii_letter(#[trigger] s@[i]))
            ==> ascii_capitalized(s@, r@),
{
    let n = s.unicode_len();
    if n == 0 {
        return String::new();
    }
    let mut r = char_to_uppercase(s.get_char(0));
    let mut i: usize = 1;
    proof {
        if forall|k: int| 0 <= k < s@.len() ==> is_ascii_letter(#[trigger] s@[k]) {
            assert(is_ascii_letter(s@[0]));
        }
        assert(s@.subrange(1, 1) =~= Seq::<char>::empty());
        assert(r@ =~= upper_of(s@[0]) + lowered(s@.subrange(1, 1)));
    }
    while i < n
        invariant
            n == s@.len(),
            1 <= i <= n,
            r@ == upper_of(s@[0]) + lowered(s@.subrange(1, i as int)),
            (forall|k: int| 0 <= k < s@.len() ==> is_ascii_letter(#[trigger] s@[k]))
                ==> ascii_capitalized(s@.subrange(0, i as int), r@),
        decreases n - i,
    {
        let lower = char_to_lowercase(s.get_char(i));
        let ghost before = r@;
        r.append(lower.as_str());
        proof {
            if forall|k: int| 0 <= k < s@.len() ==> is_ascii_letter(#[trigger] s@[k]) {
                assert(is_ascii_letter(s@[i as int]));
                assert(r@ =~= before.push(lower@[0]));
                assert(ascii_capitalized(s@.subrange(0, i + 1), r@)) by {
                    assert forall|j: int| 1 <= j < i + 1 implies (#[trigger] r@[j]) as int
                        == ascii_fold(s@.subrange(0, i + 1)[j]) by {
                        if j < i {
                            assert(r@[j] == before[j]);
                            assert(s@.subrange(0, i as int)[j] == s@.subrange(0, i + 1)[j]);
                        }
                    }
                }
            }
            assert(s@.subrange(1, i + 1).drop_last() =~= s@.subrange(1, i as int));
            assert(r@ =~= upper_of(s@[0]) + lowered(s@.subrange(1, i + 1)));
        }
        i = i + 1;
    }
    proof {
        assert(s@.subrange(1, n as int) =~= s@.drop_first());
        assert(s@.subrange(0, n as int) =~= s@);
    }
    r
}

/// The name of the local that holds the original body's value. Its
/// double underscores keep it clear of ordinary names.
pub open spec fn result_binding() -> Seq<char> {
    seq!['_', '_', 'F', 'U', 'N', 'C', '_', 'R', 'E', 'T', '_', '_']
}

/// The value given to a field of the log record.
#[derive(Debug)]
pub enum FieldValue {
    /// A string literal.
    Text(String),
    /// A variable in scope, by name.
    Var(String),
}

/// The spec view of a field value.
pub enum FieldSpec {
    Text(Seq<char>),
    Var(Seq<char>),
}

/// One `name = value` field of the log call.
#[derive(Debug)]
pub struct LogField {
    pub name: String,
    pub value: FieldValue,
}

impl LogField {
    pub open spec fn view(&self) -> (Seq<char>, FieldSpec) {
        (
            self.name@,
            match self.value {
                FieldValue::Text(t) => FieldSpec::Text(t@),
                FieldValue::Var(v) => FieldSpec::Var(v@),
            },
        )
    }
}

/// `::log::log!(::log::Level::<level>, <template>, <fields>)`.
#[derive(Debug)]
pub struct LogCall {
    pub level: String,
    pub template: String,
    pub fields: Vec<LogField>,
}

/// A statement of the rewritten body.
#[derive(Debug)]
pub enum Stmt {
    /// `let <binding> = <original body>;`
    BindBody(String),
    /// The log call, as a statement.
    Log(LogCall),
    /// `<binding>`, the value of the block.
    Yield(String),
}

/// The spec view of a statement.
pub enum StmtSpec {
    BindBody(Seq<char>),
    Log(Seq<char>, Seq<char>, Seq<(Seq<char>, FieldSpec)>),
    Yield(Seq<char>),
}

impl Stmt {
    pub open spec fn view(&self) -> StmtSpec {
        match self {
            Stmt::BindBody(b) => StmtSpec::BindBody(b@),
            Stmt::Log(c) => StmtSpec::Log(
                c.level@,
                c.template@,
                c.fields@.map_values(|f: LogField| f.view()),
            ),
            Stmt::Yield(b) => StmtSpec::Yield(b@),
        }
    }
}

/// The views of a list of statements.
pub open spec fn stmts_view(b: Seq<Stmt>) -> Seq<StmtSpec> {
    b.map_values(|s: Stmt| s.view())
}

/// The fields of the log record: `fn` first, then `return`, then the
/// template's own fields in order, each given the variable of its name.
pub open spec fn planned_fields(fn_name: Seq<char>, args: FmtArgs) -> Seq<(Seq<char>, FieldSpec)> {
    (if args.takes_fn_name {
        seq![(fn_word(), FieldSpec::Text(fn_name))]
    } else {
        Seq::empty()
    }) + (if args.takes_return_value {
        seq![(return_word(), FieldSpec::Var(result_binding()))]
    } else {
        Seq::empty()
    }) + args.names().map_values(|n: Seq<char>| (n, FieldSpec::Var(n)))
}

/// The rewritten body: bind the original body's value, log, yield the value.
pub open spec fn rewritten_body(fn_name: Seq<char>, config: Config, args: FmtArgs) -> Seq<StmtSpec> {
    seq![
        StmtSpec::BindBody(result_binding()),
        StmtSpec::Log(
            config.log_level.spec_ident(),
            config.fmt_string@,
            planned_fields(fn_name, args),
        ),
        StmtSpec::Yield(result_binding()),
    ]
}

/// A function being rewritten: its name, its directive and what the
/// directive's template asks for.
pub struct FnProcessor {
    pub fn_name: String,
    pub config: Config,
    pub fmt_args: FmtArgs,
}

impl FnProcessor {
    pub fn new(fn_name: String, config: Config) -> (r: Self)
        ensures
            r.fn_name == fn_name,
            r.config == config,
            r.fmt_args.args@.len() == 0,
            !r.fmt_args.takes_fn_name,
            !r.fmt_args.takes_return_value,
    {
        FnProcessor {
            fn_name,
            config,
            fmt_args: FmtArgs { args: Vec::new(), takes_fn_name: false, takes_return_value: false },
        }
    }

    /// Scans the directive's template. Scanning never fails.
    pub fn parse_fmt_args(self) -> (r: Result<Self, crate::config::ConfigError>)
        ensures
            r is Ok,
            r->Ok_0.fn_name == self.fn_name,
            r->Ok_0.config == self.config,
            r->Ok_0.fmt_args.names() == scan(self.config.fmt_string@).args,
            r->Ok_0.fmt_args.takes_fn_name == scan(self.config.fmt_string@).takes_fn_name,
            r->Ok_0.fmt_args.takes_return_value == scan(
                self.config.fmt_string@,
            ).takes_return_value,
    {
        let fmt_args = FmtArgs::scan(self.config.fmt_string.as_str());
        Ok(FnProcessor { fn_name: self.fn_name, config: self.config, fmt_args })
    }

    /// The statements of the new body.
    pub fn insert_log_statements(&self) -> (r: Vec<Stmt>)
        ensures
            stmts_view(r@) == rewritten_body(self.fn_name@, self.config, self.fmt_args),
    {
        proof {
            reveal_strlit("__FUNC_RET__");
            reveal_strlit("fn");
            reveal_strlit("return");
            assert("__FUNC_RET__"@ =~= result_binding());
            assert("fn"@ =~= fn_word());
            assert("return"@ =~= return_word());
        }
        let mut fields: Vec<LogField> = Vec::new();
        if self.fmt_args.takes_fn_name {
            fields.push(
                LogField {
                    name: String::from_str("fn"),
                    value: FieldValue::Text(self.fn_name.clone()),
                },
            );
        }
        if self.fmt_args.takes_return_value {
            fields.push(
                LogField {
                    name: String::from_str("return"),
                    value: FieldValue::Var(String::from_str("__FUNC_RET__")),
                },
            );
        }
        let ghost head = fields@.map_values(|f: LogField| f.view());
        let ghost fixed = fields@.len();
        proof {
            assert(head =~= planned_fields(self.fn_name@, self.fmt_args).subrange(0, fixed as int));
        }
        let mut i: usize = 0;
        while i < self.fmt_args.args.len()
            invariant
                i <= self.fmt_args.args@.len(),
                fields@.len() == fixed + i,
                fields@.map_values(|f: LogField| f.view()) =~= planned_fields(
                    self.fn_name@,
                    self.fmt_args,
                ).subrange(0, fixed + i),
                fixed + self.fmt_args.args@.len() == planned_fields(self.fn_name@, self.fmt_args).len(),
            decreases self.fmt_args.args@.len() - i,
        {
            let name = &self.fmt_args.args[i].0;
            fields.push(LogField { name: name.clone(), value: FieldValue::Var(name.clone()) });
            i = i + 1;
        }
        proof {
            assert(fields@.map_values(|f: LogField| f.view()) =~= planned_fields(
                self.fn_name@,
                self.fmt_args,
            ));
        }
        let level = capitalize(self.config.log_level.as_str());
        proof {
            let name = self.config.log_level.spec_name();
            assert(forall|k: int| 0 <= k < name.len() ==> is_ascii_letter(#[trigger] name[k]));
            assert(ascii_capitalized(name, level@));
            assert(level@ =~= self.config.log_level.spec_ident());
        }
        let call = LogCall { level, template: self.config.fmt_string.clone(), fields };
        let r = vec![
            Stmt::BindBody(String::from_str("__FUNC_RET__")),
            Stmt::Log(call),
            Stmt::Yield(String::from_str("__FUNC_RET__")),
        ];
        proof {
            assert(r@[1].view() == rewritten_body(self.fn_name@, self.config, self.fmt_args)[1]);
            assert(stmts_view(r@) =~= rewritten_body(self.fn_name@, self.config, self.fmt_args));
        }
        r
    }
}

/// The rewritten body evaluates the original body exactly once, in its
/// first statement; the log call comes strictly after it; and the block's
/// value is what the original body gave.
pub proof fn lemma_body_evaluated_once(fn_name: Seq<char>, config: Config, args: FmtArgs)
    ensures
        ({
            let b = rewritten_body(fn_name, config, args);
            &&& b[0] == StmtSpec::BindBody(result_binding())
            &&& forall|i: int| 0 <= i < b.len() && (#[trigger] b[i]) is BindBody ==> i == 0
            &&& forall|i: int| 0 <= i < b.len() && (#[trigger] b[i]) is Log ==> 0 < i
            &&& b.last() == StmtSpec::Yield(result_binding())
        }),
{
}

} // verus!
