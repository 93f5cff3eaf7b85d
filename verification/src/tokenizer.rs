//! Splits one raw log line into its ordered field tokens.
//!
//! Two variants exist and the caller chooses by declared input format,
//! never by guessing. The quote-aware variant treats a double-quoted
//! segment as one atomic token with the quotes stripped and its interior
//! kept verbatim, and splits elsewhere on runs of spaces or tabs. The
//! plain variant splits on runs of single spaces only and gives quotes no
//! special meaning. In both variants empty tokens between consecutive
//! delimiters are dropped; a quoted token may be empty and is kept. A
//! double quote inside an unquoted token ends that token and opens a
//! quoted one, and an unterminated quoted segment extends to the end of
//! the line.

use vstd::prelude::*;
use vstd::string::*;

use crate::chars::chars_to_string;

verus! {

/// The declared layout of the input lines: `Quoted` for raw lines whose
/// composite fields are protected by double quotes, `Expanded` for lines
/// whose quoted fields were already normalized into plain
/// space-separated tokens upstream.
#[derive(Clone, Copy, Debug, PartialEq, Eq, Structural)]
pub enum LineFormat {
    Quoted,
    Expanded,
}

/// State of the tokenizing automaton: the tokens finished so far, the
/// characters of the token being built, whether a token is being built,
/// and whether the automaton stands inside a quoted segment.
pub ghost struct TokState {
    pub tokens: Seq<Seq<char>>,
    pub cur: Seq<char>,
    pub in_tok: bool,
    pub in_quote: bool,
}

/// The state before any character has been read.
pub open spec fn tok_init() -> TokState {
    TokState { tokens: Seq::empty(), cur: Seq::empty(), in_tok: false, in_quote: false }
}

/// Whether `c` separates tokens outside quoted segments.
pub open spec fn is_delim(fmt: LineFormat, c: char) -> bool {
    c == ' ' || (fmt == LineFormat::Quoted && c == '\t')
}

/// One transition of the tokenizing automaton.
pub open spec fn tok_step(fmt: LineFormat, st: TokState, c: char) -> TokState {
    if st.in_quote {
        if c == '"' {
            TokState {
                tokens: st.tokens.push(st.cur),
                cur: Seq::empty(),
                in_tok: false,
                in_quote: false,
            }
        } else {
            TokState { tokens: st.tokens, cur: st.cur.push(c), in_tok: st.in_tok, in_quote: true }
        }
    } else if is_delim(fmt, c) {
        if st.in_tok {
            TokState {
                tokens: st.tokens.push(st.cur),
                cur: Seq::empty(),
                in_tok: false,
                in_quote: false,
            }
        } else {
            st
        }
    } else if fmt == LineFormat::Quoted && c == '"' {
        TokState {
            tokens: if st.in_tok {
                st.tokens.push(st.cur)
            } else {
                st.tokens
            },
            cur: Seq::empty(),
            in_tok: false,
            in_quote: true,
        }
    } else {
        TokState { tokens: st.tokens, cur: st.cur.push(c), in_tok: true, in_quote: false }
    }
}

/// The automaton's state after reading `s`, starting from `st`.
pub open spec fn tok_run_from(fmt: LineFormat, st: TokState, s: Seq<char>) -> TokState {
    s.fold_left(st, |st: TokState, c: char| tok_step(fmt, st, c))
}

/// The automaton's state after reading all of `s`.
pub open spec fn tok_run(fmt: LineFormat, s: Seq<char>) -> TokState {
    tok_run_from(fmt, tok_init(), s)
}

/// Closes the final token, if one is open, and hands the tokens out.
pub open spec fn tok_finish(st: TokState) -> Seq<Seq<char>> {
    if st.in_tok || st.in_quote {
        st.tokens.push(st.cur)
    } else {
        st.tokens
    }
}

/// The ordered field tokens of line `s` under format `fmt`.
pub open spec fn tokenize_spec(s: Seq<char>, fmt: LineFormat) -> Seq<Seq<char>> {
    tok_finish(tok_run(fmt, s))
}

/// The character sequences of a vector of tokens.
pub open spec fn views_of(ts: Seq<String>) -> Seq<Seq<char>> {
    ts.map_values(|t: String| t@)
}

/// Splits `line` into its field tokens under the declared format.
#[verifier::loop_isolation(false)]
pub fn tokenize(line: &str, fmt: LineFormat) -> (r: Vec<String>)
    ensures
        views_of(r@) == tokenize_spec(line@, fmt),
{
    let n: usize = line.unicode_len();
    let mut tokens: Vec<String> = Vec::new();
    let mut cur: Vec<char> = Vec::new();
    let mut in_tok: bool = false;
    let mut in_quote: bool = false;
    let mut i: usize = 0;
    proof {
        assert(line@.take(0) =~= Seq::<char>::empty());
        assert(views_of(tokens@) =~= Seq::<Seq<char>>::empty());
    }
    while i < n
        invariant
            0 <= i <= n,
            views_of(tokens@) == tok_run(fmt, line@.take(i as int)).tokens,
            cur@ == tok_run(fmt, line@.take(i as int)).cur,
            in_tok == tok_run(fmt, line@.take(i as int)).in_tok,
            in_quote == tok_run(fmt, line@.take(i as int)).in_quote,
        decreases n - i,
    {
        let c = line.get_char(i);
        proof {
            assert(line@.take(i + 1).drop_last() =~= line@.take(i as int));
            assert(line@.take(i + 1).last() == line@[i as int]);
            assert(tok_run(fmt, line@.take(i + 1)) == tok_step(
                fmt,
                tok_run(fmt, line@.take(i as int)),
                line@[i as int],
            ));
        }
        let quoted_fmt: bool = match fmt {
            LineFormat::Quoted => true,
            LineFormat::Expanded => false,
        };
        let delim: bool = c == ' ' || (quoted_fmt && c == '\t');
        if in_quote {
            if c == '"' {
                let t = chars_to_string(&cur);
                tokens.push(t);
                cur = Vec::new();
                in_tok = false;
                in_quote = false;
                proof {
                    assert(views_of(tokens@) =~= tok_run(fmt, line@.take(i + 1)).tokens);
                }
            } else {
                cur.push(c);
            }
        } else if delim {
            if in_tok {
                let t = chars_to_string(&cur);
                tokens.push(t);
                cur = Vec::new();
                in_tok = false;
                proof {
                    assert(views_of(tokens@) =~= tok_run(fmt, line@.take(i + 1)).tokens);
                }
            }
        } else if quoted_fmt && c == '"' {
            if in_tok {
                let t = chars_to_string(&cur);
                tokens.push(t);
                proof {
                    assert(views_of(tokens@) =~= tok_run(fmt, line@.take(i + 1)).tokens);
                }
            }
            cur = Vec::new();
            in_tok = false;
            in_quote = true;
        } else {
            cur.push(c);
            in_tok = true;
        }
        i = i + 1;
    }
    proof {
        assert(line@.take(n as int) =~= line@);
    }
    if in_tok || in_quote {
        let t = chars_to_string(&cur);
        tokens.push(t);
        proof {
            assert(views_of(tokens@) =~= tok_finish(tok_run(fmt, line@)));
        }
    }
    tokens
}

/// A character that an unquoted field may hold: neither a delimiter nor
/// a double quote.
pub open spec fn plain_char(c: char) -> bool {
    c != ' ' && c != '\t' && c != '"'
}

/// A literal field to be rendered into a line: its characters, and
/// whether it is written inside double quotes. A quoted field may hold
/// anything but a double quote; an unquoted field must be nonempty and
/// hold only plain characters.
pub open spec fn field_ok(f: (Seq<char>, bool)) -> bool {
    if f.1 {
        forall|i: int| 0 <= i < f.0.len() ==> #[trigger] f.0[i] != '"'
    } else {
        f.0.len() > 0 && forall|i: int| 0 <= i < f.0.len() ==> plain_char(#[trigger] f.0[i])
    }
}

/// The text of one field as it stands in the line: the characters,
/// wrapped in double quotes when the field is quoted.
pub open spec fn quote_wrap(f: (Seq<char>, bool)) -> Seq<char> {
    if f.1 {
        seq!['"'] + f.0 + seq!['"']
    } else {
        f.0
    }
}

/// A line built from literal fields, joined by single spaces.
pub open spec fn render_fields(fs: Seq<(Seq<char>, bool)>) -> Seq<char>
    decreases fs.len(),
{
    if fs.len() == 0 {
        Seq::empty()
    } else if fs.len() == 1 {
        quote_wrap(fs[0])
    } else {
        render_fields(fs.drop_last()) + seq![' '] + quote_wrap(fs.last())
    }
}

/// The bare contents of the fields, in order, quotes stripped.
pub open spec fn field_contents(fs: Seq<(Seq<char>, bool)>) -> Seq<Seq<char>> {
    fs.map_values(|f: (Seq<char>, bool)| f.0)
}

/// A state outside any token and any quoted segment.
pub open spec fn tok_neutral(st: TokState) -> bool {
    !st.in_tok && !st.in_quote && st.cur.len() == 0
}

/// Reading through a sequence splits into reading its two halves.
proof fn lemma_run_from_append(fmt: LineFormat, st: TokState, a: Seq<char>, b: Seq<char>)
    ensures
        tok_run_from(fmt, st, a + b) == tok_run_from(fmt, tok_run_from(fmt, st, a), b),
{
    let s = a + b;
    let f = |st: TokState, c: char| tok_step(fmt, st, c);
    s.lemma_fold_left_split(st, f, a.len() as int);
    assert(s.subrange(0, a.len() as int) =~= a);
    assert(s.subrange(a.len() as int, s.len() as int) =~= b);
}

/// Reading a single character takes one transition.
proof fn lemma_run_from_one(fmt: LineFormat, st: TokState, c: char)
    ensures
        tok_run_from(fmt, st, seq![c]) == tok_step(fmt, st, c),
{
    reveal_with_fuel(Seq::fold_left, 2);
    assert(seq![c].drop_last() =~= Seq::<char>::empty());
    assert(seq![c].last() == c);
}

/// Reading plain characters extends the current token and closes no
/// quote.
proof fn lemma_run_plain(st: TokState, w: Seq<char>)
    requires
        !st.in_quote,
        forall|i: int| 0 <= i < w.len() ==> plain_char(#[trigger] w[i]),
    ensures
        tok_run_from(LineFormat::Quoted, st, w) == (TokState {
            tokens: st.tokens,
            cur: st.cur + w,
            in_tok: st.in_tok || w.len() > 0,
            in_quote: false,
        }),
    decreases w.len(),
{
    if w.len() == 0 {
        assert(st.cur + w =~= st.cur);
        assert(tok_run_from(LineFormat::Quoted, st, w) == st);
    } else {
        assert(forall|i: int|
            0 <= i < w.drop_last().len() ==> plain_char(#[trigger] w.drop_last()[i]));
        lemma_run_plain(st, w.drop_last());
        assert(plain_char(w.last()));
        assert(st.cur + w.drop_last() + seq![w.last()] =~= st.cur + w);
        assert((st.cur + w.drop_last()).push(w.last()) =~= st.cur + w.drop_last() + seq![
            w.last()
        ]);
    }
}

/// Reading quote-free characters inside a quoted segment extends the
/// segment verbatim.
proof fn lemma_run_quote_interior(st: TokState, w: Seq<char>)
    requires
        st.in_quote,
        forall|i: int| 0 <= i < w.len() ==> #[trigger] w[i] != '"',
    ensures
        tok_run_from(LineFormat::Quoted, st, w) == (TokState {
            tokens: st.tokens,
            cur: st.cur + w,
            in_tok: st.in_tok,
            in_quote: true,
        }),
    decreases w.len(),
{
    if w.len() == 0 {
        assert(st.cur + w =~= st.cur);
        assert(tok_run_from(LineFormat::Quoted, st, w) == st);
    } else {
        assert(forall|i: int| 0 <= i < w.drop_last().len() ==> #[trigger] w.drop_last()[i] != '"');
        lemma_run_quote_interior(st, w.drop_last());
        assert((st.cur + w.drop_last()).push(w.last()) =~= st.cur + w);
    }
}

/// Reading one rendered field from a neutral state leaves either a
/// closed quoted token or an open unquoted one.
proof fn lemma_run_field(st: TokState, f: (Seq<char>, bool))
    requires
        tok_neutral(st),
        field_ok(f),
    ensures
        f.1 ==> tok_run_from(LineFormat::Quoted, st, quote_wrap(f)) == (TokState {
            tokens: st.tokens.push(f.0),
            cur: Seq::empty(),
            in_tok: false,
            in_quote: false,
        }),
        !f.1 ==> tok_run_from(LineFormat::Quoted, st, quote_wrap(f)) == (TokState {
            tokens: st.tokens,
            cur: f.0,
            in_tok: true,
            in_quote: false,
        }),
{
    let fmt = LineFormat::Quoted;
    if f.1 {
        let open = seq!['"'];
        let close = seq!['"'];
        assert(quote_wrap(f) =~= open + (f.0 + close));
        lemma_run_from_append(fmt, st, open, f.0 + close);
        lemma_run_from_one(fmt, st, '"');
        let st1 = tok_step(fmt, st, '"');
        lemma_run_from_append(fmt, st1, f.0, close);
        lemma_run_quote_interior(st1, f.0);
        let st2 = tok_run_from(fmt, st1, f.0);
        assert(st2.cur =~= f.0);
        lemma_run_from_one(fmt, st2, '"');
    } else {
        lemma_run_plain(st, f.0);
        assert(st.cur + f.0 =~= f.0);
    }
}

/// Reading a whole rendered line from the initial state accumulates the
/// field contents in order, with the last token still open when the last
/// field is unquoted.
proof fn lemma_run_render(fs: Seq<(Seq<char>, bool)>)
    requires
        fs.len() > 0,
        forall|i: int| 0 <= i < fs.len() ==> field_ok(#[trigger] fs[i]),
    ensures
        fs.last().1 ==> tok_run(LineFormat::Quoted, render_fields(fs)) == (TokState {
            tokens: field_contents(fs),
            cur: Seq::empty(),
            in_tok: false,
            in_quote: false,
        }),
        !fs.last().1 ==> tok_run(LineFormat::Quoted, render_fields(fs)) == (TokState {
            tokens: field_contents(fs.drop_last()),
            cur: fs.last().0,
            in_tok: true,
            in_quote: false,
        }),
    decreases fs.len(),
{
    let fmt = LineFormat::Quoted;
    if fs.len() == 1 {
        lemma_run_field(tok_init(), fs[0]);
        assert(field_contents(fs) =~= Seq::<Seq<char>>::empty().push(fs[0].0));
        assert(field_contents(fs.drop_last()) =~= Seq::<Seq<char>>::empty());
    } else {
        let dl = fs.drop_last();
        assert(forall|i: int| 0 <= i < dl.len() ==> field_ok(#[trigger] dl[i]));
        lemma_run_render(dl);
        let st0 = tok_run(fmt, render_fields(dl));
        lemma_run_from_append(fmt, tok_init(), render_fields(dl), seq![' '] + quote_wrap(
            fs.last(),
        ));
        assert(render_fields(fs) =~= render_fields(dl) + (seq![' '] + quote_wrap(fs.last())));
        lemma_run_from_append(fmt, st0, seq![' '], quote_wrap(fs.last()));
        lemma_run_from_one(fmt, st0, ' ');
        let st1 = tok_step(fmt, st0, ' ');
        assert(tok_neutral(st1));
        if !dl.last().1 {
            assert(st1.tokens =~= field_contents(dl.drop_last()).push(dl.last().0));
            assert(field_contents(dl.drop_last()).push(dl.last().0) =~= field_contents(dl));
        }
        assert(st1.tokens == field_contents(dl));
        lemma_run_field(st1, fs.last());
        if fs.last().1 {
            assert(field_contents(dl).push(fs.last().0) =~= field_contents(fs));
        }
        assert(fs.drop_last() == dl);
    }
}

/// Tokenizer round-trip law: a line rendered from literal fields, some
/// quoted, tokenizes back to exactly those fields' contents, in order,
/// quotes stripped and quoted interiors kept verbatim.
pub proof fn lemma_tokenize_round_trip(fs: Seq<(Seq<char>, bool)>)
    requires
        forall|i: int| 0 <= i < fs.len() ==> field_ok(#[trigger] fs[i]),
    ensures
        tokenize_spec(render_fields(fs), LineFormat::Quoted) == field_contents(fs),
{
    if fs.len() == 0 {
        assert(tok_run(LineFormat::Quoted, render_fields(fs)) == tok_init());
        assert(field_contents(fs) =~= Seq::<Seq<char>>::empty());
    } else {
        lemma_run_render(fs);
        if !fs.last().1 {
            assert(field_contents(fs.drop_last()).push(fs.last().0) =~= field_contents(fs));
        }
    }
}

} // verus!
