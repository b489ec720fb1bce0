//! The template scanner: which named fields a log template asks for.
use vstd::prelude::*;

verus! {

/// One named field of the log record; it is emitted as `name = name`.
pub struct FmtArg(pub String);

impl FmtArg {
    pub fn from_str(s: &str) -> (r: Self)
        ensures
            r.0@ == s@,
    {
        FmtArg(String::from_str(s))
    }
}

/// What a template asks for: its named fields in order, and whether it
/// mentions `{fn}` or `{return}`.
pub struct FmtArgs {
    pub args: Vec<FmtArg>,
    pub takes_fn_name: bool,
    pub takes_return_value: bool,
}

/// The state of the scanner between two characters.
pub struct ScanState {
    pub in_arg: bool,
    pub skip: bool,
    pub name: Seq<char>,
    pub args: Seq<Seq<char>>,
    pub takes_fn_name: bool,
    pub takes_return_value: bool,
}

pub open spec fn initial_scan_state() -> ScanState {
    ScanState {
        in_arg: false,
        skip: false,
        name: Seq::empty(),
        args: Seq::empty(),
        takes_fn_name: false,
        takes_return_value: false,
    }
}

/// The two reserved placeholder names.
pub open spec fn fn_word() -> Seq<char> {
    seq!['f', 'n']
}

pub open spec fn return_word() -> Seq<char> {
    seq!['r', 'e', 't', 'u', 'r', 'n']
}

/// Position `i` holds `c` and so does the next one.
pub open spec fn doubled_at(s: Seq<char>, i: int, c: char) -> bool {
    0 <= i && i + 1 < s.len() && s[i] == c && s[i + 1] == c
}

/// A `}` ends the open placeholder: its name is recorded as a field, or
/// as one of the two flags.
pub open spec fn close_placeholder(st: ScanState) -> ScanState {
    let done = ScanState { in_arg: false, skip: false, name: Seq::empty(), ..st };
    if st.name == fn_word() {
        ScanState { takes_fn_name: true, ..done }
    } else if st.name == return_word() {
        ScanState { takes_return_value: true, ..done }
    } else {
        ScanState { args: st.args.push(st.name), ..done }
    }
}

/// The scanner run on `s` from position `i` on, starting in state `st`.
/// `{{` is an escape and consumes two characters, as `}}` does outside a
/// placeholder; inside one, `}` closes it. A `:` inside a placeholder
/// starts its format spec, which adds nothing to the name. A stray brace
/// is passed over.
pub open spec fn scan_from(s: Seq<char>, i: int, st: ScanState) -> ScanState
    decreases s.len() - i,
{
    if i < 0 || i >= s.len() {
        st
    } else if doubled_at(s, i, '{') {
        scan_from(s, i + 2, ScanState { skip: st.skip || st.in_arg, ..st })
    } else if s[i] == '{' {
        if !st.in_arg && !st.skip {
            scan_from(s, i + 1, ScanState { in_arg: true, name: Seq::empty(), ..st })
        } else {
            scan_from(s, i + 1, st)
        }
    } else if s[i] == '}' && st.in_arg {
        scan_from(s, i + 1, close_placeholder(st))
    } else if doubled_at(s, i, '}') {
        scan_from(s, i + 2, st)
    } else if s[i] == '}' {
        scan_from(s, i + 1, st)
    } else if s[i] == ':' && st.in_arg {
        scan_from(s, i + 1, ScanState { skip: true, ..st })
    } else if st.in_arg && !st.skip {
        scan_from(s, i + 1, ScanState { name: st.name.push(s[i]), ..st })
    } else {
        scan_from(s, i + 1, st)
    }
}

/// The result of scanning a whole template.
pub open spec fn scan(s: Seq<char>) -> ScanState {
    scan_from(s, 0, initial_scan_state())
}

impl FmtArgs {
    /// The names of the fields, in order.
    pub open spec fn names(&self) -> Seq<Seq<char>> {
        self.args@.map_values(|a: FmtArg| a.0@)
    }

    /// Scans a template. Never fails: a malformed placeholder is left for
    /// the compiler to reject once the log call is expanded.
    pub fn scan(text: &str) -> (r: FmtArgs)
        ensures
            r.names() == scan(text@).args,
            r.takes_fn_name == scan(text@).takes_fn_name,
            r.takes_return_value == scan(text@).takes_return_value,
    {
        let n = text.unicode_len();
        let mut in_arg = false;
        let mut skip = false;
        let mut name = String::new();
        let mut r = FmtArgs { args: Vec::new(), takes_fn_name: false, takes_return_value: false };
        let mut i: usize = 0;
        proof {
            assert(r.names() =~= Seq::empty());
        }
        while i < n
            invariant
                n == text@.len(),
                i <= n,
                scan_from(
                    text@,
                    i as int,
                    ScanState {
                        in_arg,
                        skip,
                        name: name@,
                        args: r.names(),
                        takes_fn_name: r.takes_fn_name,
                        takes_return_value: r.takes_return_value,
                    },
                ) == scan(text@),
            decreases n - i,
        {
            let c = text.get_char(i);
            let doubled = i + 1 < n && text.get_char(i + 1) == c;
            if c == '{' && doubled {
                skip = skip || in_arg;
                i = i + 2;
            } else if c == '{' {
                if !in_arg && !skip {
                    in_arg = true;
                    name = String::new();
                }
                i = i + 1;
            } else if c == '}' {
                if in_arg {
                    proof {
                        reveal_strlit("fn");
                        reveal_strlit("return");
                        assert("fn"@ =~= fn_word());
                        assert("return"@ =~= return_word());
                    }
                    if name == String::from_str("fn") {
                        r.takes_fn_name = true;
                    } else if name == String::from_str("return") {
                        r.takes_return_value = true;
                    } else {
                        let ghost before = r.names();
                        r.args.push(FmtArg::from_str(name.as_str()));
                        proof {
                            assert(r.names() =~= before.push(name@));
                        }
                    }
                    in_arg = false;
                    skip = false;
                    name = String::new();
                    i = i + 1;
                } else if doubled {
                    i = i + 2;
                } else {
                    i = i + 1;
                }
            } else if c == ':' && in_arg {
                skip = true;
                i = i + 1;
            } else {
                if in_arg && !skip {
                    let ghost before = name@;
                    name.append(text.substring_char(i, i + 1));
                    proof {
                        assert(name@ =~= before.push(c));
                    }
                }
                i = i + 1;
            }
        }
        r
    }
}

/// An escaped brace, `{{` or `}}`, outside a placeholder, changes nothing:
/// the scan goes on after it as if it were not there.
pub proof fn lemma_escapes_are_inert(s: Seq<char>, i: int, st: ScanState)
    requires
        !st.in_arg,
        doubled_at(s, i, '{') || doubled_at(s, i, '}'),
    ensures
        scan_from(s, i, st) == scan_from(s, i + 2, st),
{
    assert(ScanState { skip: st.skip || st.in_arg, ..st } == st);
}

} // verus!
