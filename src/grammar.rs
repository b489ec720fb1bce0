//! Templates built from well-formed pieces, and what the scanner makes of
//! them.
use vstd::prelude::*;
use crate::fmt_args::{
    close_placeholder, doubled_at, fn_word, initial_scan_state, return_word, scan, scan_from,
    ScanState,
};

verus! {

/// A piece of a template: one literal character, an escaped brace, or a
/// placeholder with its name and, maybe, a format spec.
pub enum Piece {
    Lit(char),
    EscOpen,
    EscClose,
    Field(Seq<char>, Option<Seq<char>>),
}

pub open spec fn is_brace(c: char) -> bool {
    c == '{' || c == '}'
}

/// A literal is no brace; a name holds no brace or `:`; a format spec
/// holds no brace.
pub open spec fn piece_ok(p: Piece) -> bool {
    match p {
        Piece::Lit(c) => !is_brace(c),
        Piece::EscOpen | Piece::EscClose => true,
        Piece::Field(n, f) => {
            &&& forall|k: int| 0 <= k < n.len() ==> !is_brace(#[trigger] n[k]) && n[k] != ':'
            &&& f matches Some(spec) ==> forall|k: int| 0 <= k < spec.len() ==> !is_brace(#[trigger] spec[k])
        },
    }
}

pub open spec fn piece_text(p: Piece) -> Seq<char> {
    match p {
        Piece::Lit(c) => seq![c],
        Piece::EscOpen => seq!['{', '{'],
        Piece::EscClose => seq!['}', '}'],
        Piece::Field(n, None) => seq!['{'] + n + seq!['}'],
        Piece::Field(n, Some(f)) => seq!['{'] + n + seq![':'] + f + seq!['}'],
    }
}

pub open spec fn pieces_text(ps: Seq<Piece>) -> Seq<char>
    decreases ps.len(),
{
    if ps.len() == 0 {
        Seq::empty()
    } else {
        piece_text(ps[0]) + pieces_text(ps.drop_first())
    }
}

pub open spec fn pieces_ok(ps: Seq<Piece>) -> bool {
    forall|k: int| 0 <= k < ps.len() ==> piece_ok(#[trigger] ps[k])
}

/// What the scanner does with one piece, outside any placeholder.
pub open spec fn run_piece(p: Piece, st: ScanState) -> ScanState {
    match p {
        Piece::Field(n, _) => close_placeholder(ScanState { name: n, ..st }),
        _ => st,
    }
}

pub open spec fn run_pieces(ps: Seq<Piece>, st: ScanState) -> ScanState
    decreases ps.len(),
{
    if ps.len() == 0 {
        st
    } else {
        run_pieces(ps.drop_first(), run_piece(ps[0], st))
    }
}

/// How many `{` a text holds outside the escapes `{{`, read from the left.
pub open spec fn opens(s: Seq<char>) -> nat
    decreases s.len(),
{
    if s.len() == 0 {
        0
    } else if s.len() >= 2 && s[0] == '{' && s[1] == '{' {
        opens(s.subrange(2, s.len() as int))
    } else if s[0] == '{' {
        1 + opens(s.drop_first())
    } else {
        opens(s.drop_first())
    }
}

/// How many placeholders are named `fn` or `return`.
pub open spec fn reserved_fields(ps: Seq<Piece>) -> nat
    decreases ps.len(),
{
    if ps.len() == 0 {
        0
    } else {
        (match ps[0] {
            Piece::Field(n, _) => if n == fn_word() || n == return_word() {
                1nat
            } else {
                0nat
            },
            _ => 0nat,
        }) + reserved_fields(ps.drop_first())
    }
}

/// Outside a placeholder, with no format spec open.
pub open spec fn idle(st: ScanState) -> bool {
    !st.in_arg && !st.skip
}

proof fn lemma_name_run(s: Seq<char>, j: int, e: int, st: ScanState)
    requires
        0 <= j <= e <= s.len(),
        st.in_arg,
        !st.skip,
        forall|k: int| j <= k < e ==> !is_brace(#[trigger] s[k]) && s[k] != ':',
    ensures
        scan_from(s, j, st) == scan_from(s, e, ScanState { name: st.name + s.subrange(j, e), ..st }),
    decreases e - j,
{
    if j == e {
        assert(st.name + s.subrange(j, e) =~= st.name);
        assert(ScanState { name: st.name, ..st } == st);
    } else {
        let next = ScanState { name: st.name.push(s[j]), ..st };
        lemma_name_run(s, j + 1, e, next);
        assert(next.name + s.subrange(j + 1, e) =~= st.name + s.subrange(j, e));
    }
}

proof fn lemma_spec_run(s: Seq<char>, j: int, e: int, st: ScanState)
    requires
        0 <= j <= e <= s.len(),
        st.in_arg,
        st.skip,
        forall|k: int| j <= k < e ==> !is_brace(#[trigger] s[k]),
    ensures
        scan_from(s, j, st) == scan_from(s, e, st),
    decreases e - j,
{
    if j < e {
        assert(ScanState { skip: true, ..st } == st);
        lemma_spec_run(s, j + 1, e, st);
    }
}

proof fn lemma_piece(s: Seq<char>, i: int, p: Piece, st: ScanState)
    requires
        0 <= i,
        i + piece_text(p).len() <= s.len(),
        s.subrange(i, i + piece_text(p).len()) == piece_text(p),
        piece_ok(p),
        idle(st),
    ensures
        scan_from(s, i, st) == scan_from(s, i + piece_text(p).len(), run_piece(p, st)),
        idle(run_piece(p, st)),
{
    let t = piece_text(p);
    assert forall|k: int| 0 <= k < t.len() implies s[i + k] == #[trigger] t[k] by {
        assert(s.subrange(i, i + t.len())[k] == s[i + k]);
    }
    match p {
        Piece::Lit(c) => {
            assert(s[i] == t[0]);
            assert(s[i] == c);
        },
        Piece::EscOpen => {
            assert(s[i] == t[0]);
            assert(s[i + 1] == t[1]);
            assert(ScanState { skip: st.skip || st.in_arg, ..st } == st);
        },
        Piece::EscClose => {
            assert(s[i] == t[0]);
            assert(s[i + 1] == t[1]);
        },
        Piece::Field(n, f) => {
            assert(s[i] == t[0]);
            assert(s[i] == '{');
            let opened = ScanState { in_arg: true, name: Seq::empty(), ..st };
            if n.len() > 0 {
                assert(s[i + 1] == t[1]);
                assert(t[1] == n[0]);
            } else {
                assert(s[i + 1] == t[1]);
            }
            assert(!doubled_at(s, i, '{'));
            assert(scan_from(s, i, st) == scan_from(s, i + 1, opened));
            assert forall|k: int| i + 1 <= k < i + 1 + n.len() implies !is_brace(#[trigger] s[k])
                && s[k] != ':' by {
                assert(s[k] == t[k - i]);
                assert(t[k - i] == n[k - i - 1]);
            }
            lemma_name_run(s, i + 1, i + 1 + n.len(), opened);
            assert(s.subrange(i + 1, i + 1 + n.len()) =~= n) by {
                assert forall|k: int| 0 <= k < n.len() implies s.subrange(i + 1, i + 1 + n.len())[k]
                    == n[k] by {
                    assert(s[i + 1 + k] == t[1 + k]);
                }
            }
            let named = ScanState { name: n, ..opened };
            assert(opened.name + n =~= n);
            let e = i + 1 + n.len();
            match f {
                None => {
                    assert(s[e] == t[e - i]);
                    assert(close_placeholder(named) == run_piece(p, st));
                },
                Some(spec) => {
                    assert(s[e] == t[e - i]);
                    let skipping = ScanState { skip: true, ..named };
                    assert(scan_from(s, e, named) == scan_from(s, e + 1, skipping));
                    let e2 = e + 1 + spec.len();
                    assert forall|k: int| e + 1 <= k < e2 implies !is_brace(#[trigger] s[k]) by {
                        assert(s[k] == t[k - i]);
                        assert(t[k - i] == spec[k - e - 1]);
                    }
                    lemma_spec_run(s, e + 1, e2, skipping);
                    assert(s[e2] == t[e2 - i]);
                    assert(close_placeholder(skipping) == run_piece(p, st));
                },
            }
        },
    }
}

proof fn lemma_pieces(s: Seq<char>, i: int, ps: Seq<Piece>, st: ScanState)
    requires
        0 <= i <= s.len(),
        s.subrange(i, s.len() as int) == pieces_text(ps),
        pieces_ok(ps),
        idle(st),
    ensures
        scan_from(s, i, st) == run_pieces(ps, st),
    decreases ps.len(),
{
    if ps.len() == 0 {
        assert(s.subrange(i, s.len() as int).len() == 0);
    } else {
        let p = ps[0];
        let rest = ps.drop_first();
        let n = piece_text(p).len() as int;
        assert(pieces_ok(rest)) by {
            assert forall|k: int| 0 <= k < rest.len() implies piece_ok(#[trigger] rest[k]) by {
                assert(rest[k] == ps[k + 1]);
            }
        }
        let whole = s.subrange(i, s.len() as int);
        assert(whole == piece_text(p) + pieces_text(rest));
        assert(s.subrange(i, i + n) =~= piece_text(p)) by {
            assert forall|k: int| 0 <= k < n implies s.subrange(i, i + n)[k] == piece_text(p)[k] by {
                assert(whole[k] == s[i + k]);
            }
        }
        assert(s.subrange(i + n, s.len() as int) =~= pieces_text(rest)) by {
            assert forall|k: int| 0 <= k < s.len() - (i + n) implies s.subrange(
                i + n,
                s.len() as int,
            )[k] == pieces_text(rest)[k] by {
                assert(whole[n + k] == s[i + n + k]);
            }
        }
        lemma_piece(s, i, p, st);
        lemma_pieces(s, i + n, rest, run_piece(p, st));
    }
}

proof fn lemma_opens_skip(x: Seq<char>, rest: Seq<char>)
    requires
        forall|k: int| 0 <= k < x.len() ==> #[trigger] x[k] != '{',
    ensures
        opens(x + rest) == opens(rest),
    decreases x.len(),
{
    if x.len() == 0 {
        assert(x + rest =~= rest);
    } else {
        assert((x + rest)[0] == x[0]);
        assert((x + rest).drop_first() =~= x.drop_first() + rest);
        lemma_opens_skip(x.drop_first(), rest);
    }
}

/// The `{` that a piece adds.
pub open spec fn piece_opens(p: Piece) -> nat {
    match p {
        Piece::Field(_, _) => 1,
        _ => 0,
    }
}

proof fn lemma_opens_piece(p: Piece, rest: Seq<char>)
    requires
        piece_ok(p),
    ensures
        opens(piece_text(p) + rest) == piece_opens(p) + opens(rest),
{
    let s = piece_text(p) + rest;
    match p {
        Piece::Lit(c) => {
            assert(s[0] == c);
            assert(!is_brace(c));
            assert(s.drop_first() =~= rest);
            assert(opens(s) == opens(s.drop_first()));
        },
        Piece::EscOpen => {
            assert(s[0] == '{' && s[1] == '{');
            assert(s.subrange(2, s.len() as int) =~= rest);
        },
        Piece::EscClose => {
            assert(s[0] == '}');
            assert(s.drop_first() =~= seq!['}'] + rest);
            assert((seq!['}'] + rest)[0] == '}');
            assert((seq!['}'] + rest).drop_first() =~= rest);
            assert(opens(seq!['}'] + rest) == opens((seq!['}'] + rest).drop_first()));
            assert(opens(s) == opens(s.drop_first()));
        },
        Piece::Field(n, f) => {
            let tail = match f {
                None => n + seq!['}'],
                Some(spec) => n + seq![':'] + spec + seq!['}'],
            };
            assert(s =~= seq!['{'] + (tail + rest));
            assert(forall|k: int| 0 <= k < tail.len() ==> #[trigger] tail[k] != '{') by {
                assert forall|k: int| 0 <= k < tail.len() implies #[trigger] tail[k] != '{' by {
                    if k < n.len() {
                        assert(tail[k] == n[k]);
                    } else if f is Some && k > n.len() && k < tail.len() - 1 {
                        assert(tail[k] == f->Some_0[k - n.len() - 1]);
                    }
                }
            }
            assert(s[0] == '{');
            assert(s.drop_first() =~= tail + rest);
            if s.len() >= 2 {
                assert(s[1] == (tail + rest)[0]);
                assert(tail.len() > 0);
                assert((tail + rest)[0] == tail[0]);
            }
            lemma_opens_skip(tail, rest);
        },
    }
}

proof fn lemma_count(ps: Seq<Piece>, st: ScanState)
    requires
        pieces_ok(ps),
    ensures
        run_pieces(ps, st).args.len() + reserved_fields(ps) == st.args.len() + opens(
            pieces_text(ps),
        ),
    decreases ps.len(),
{
    if ps.len() > 0 {
        let p = ps[0];
        let rest = ps.drop_first();
        assert(pieces_ok(rest)) by {
            assert forall|k: int| 0 <= k < rest.len() implies piece_ok(#[trigger] rest[k]) by {
                assert(rest[k] == ps[k + 1]);
            }
        }
        assert(piece_ok(p));
        lemma_count(rest, run_piece(p, st));
        lemma_opens_piece(p, pieces_text(rest));
    }
}

/// In a template made only of literal characters, escaped braces and
/// well-formed placeholders, the scanner finds one field for each `{` that
/// is not part of an escape, less one for each placeholder named `fn` or
/// `return`.
pub proof fn lemma_field_count(ps: Seq<Piece>)
    requires
        pieces_ok(ps),
    ensures
        scan(pieces_text(ps)).args.len() + reserved_fields(ps) == opens(pieces_text(ps)),
{
    let s = pieces_text(ps);
    assert(s.subrange(0, s.len() as int) =~= s);
    lemma_pieces(s, 0, ps, initial_scan_state());
    lemma_count(ps, initial_scan_state());
}

/// The same piece, but for the format spec of a placeholder.
pub open spec fn same_but_spec(a: Piece, b: Piece) -> bool {
    match (a, b) {
        (Piece::Field(n, _), Piece::Field(m, _)) => n == m,
        _ => a == b,
    }
}

proof fn lemma_run_same_but_spec(a: Seq<Piece>, b: Seq<Piece>, st: ScanState)
    requires
        a.len() == b.len(),
        forall|k: int| 0 <= k < a.len() ==> same_but_spec(#[trigger] a[k], b[k]),
    ensures
        run_pieces(a, st) == run_pieces(b, st),
    decreases a.len(),
{
    if a.len() > 0 {
        assert(same_but_spec(a[0], b[0]));
        assert(run_piece(a[0], st) == run_piece(b[0], st));
        assert forall|k: int| 0 <= k < a.len() - 1 implies same_but_spec(
            #[trigger] a.drop_first()[k],
            b.drop_first()[k],
        ) by {
            assert(same_but_spec(a[k + 1], b[k + 1]));
        }
        lemma_run_same_but_spec(a.drop_first(), b.drop_first(), run_piece(a[0], st));
    }
}

/// A format spec adds nothing to a placeholder's name: two well-formed
/// templates that differ only in their format specs (`{x:?}` against
/// `{x}`) scan alike.
pub proof fn lemma_format_spec_ignored(a: Seq<Piece>, b: Seq<Piece>)
    requires
        pieces_ok(a),
        pieces_ok(b),
        a.len() == b.len(),
        forall|k: int| 0 <= k < a.len() ==> same_but_spec(#[trigger] a[k], b[k]),
    ensures
        scan(pieces_text(a)) == scan(pieces_text(b)),
{
    let s = pieces_text(a);
    let t = pieces_text(b);
    assert(s.subrange(0, s.len() as int) =~= s);
    assert(t.subrange(0, t.len() as int) =~= t);
    lemma_pieces(s, 0, a, initial_scan_state());
    lemma_pieces(t, 0, b, initial_scan_state());
    lemma_run_same_but_spec(a, b, initial_scan_state());
}

} // verus!
