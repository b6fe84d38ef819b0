//! General properties of the parser and the glob expander, stated over the
//! grammar model and proved once for all inputs.
use crate::ast::{SpecJob, SpecPipeline};
use crate::globs::{expansion_of, is_glob_word};
use crate::grammar::{
    comment, is_line_end, is_space_char, is_word_char, job, lead_skip, lemma_lead_skip_bounds,
    lemma_run_nonline_bounds, lemma_run_nonquote_is, lemma_run_space_bounds, newline, pipeline,
    quoted_word, run_nonline, run_space, run_word, script, unused, unused_star, word, words_rest,
    ws,
};
use vstd::prelude::*;

verus! {

// ----------------------------------------------------------------------------
// Blank and comment-only input parses to nothing
// ----------------------------------------------------------------------------
/// From position `i` on, the input holds only whitespace, comments and line
/// ends, in any combination.
pub open spec fn trivia_from(s: Seq<char>, i: int) -> bool
    decreases s.len() - i when 0 <= i <= s.len()
{
    if i == s.len() {
        true
    } else if is_space_char(s[i]) || is_line_end(s[i]) {
        trivia_from(s, i + 1)
    } else if s[i] == '#' {
        let j = run_nonline(s, i + 1);
        if i < j <= s.len() {
            trivia_from(s, j)
        } else {
            true
        }
    } else {
        false
    }
}

proof fn lemma_trivia_step(s: Seq<char>, i: int)
    requires
        0 <= i < s.len(),
        trivia_from(s, i),
    ensures
        is_space_char(s[i]) || is_line_end(s[i]) || s[i] == '#',
        is_space_char(s[i]) || is_line_end(s[i]) ==> trivia_from(s, i + 1),
        s[i] == '#' ==> trivia_from(s, run_nonline(s, i + 1)),
{
    lemma_run_nonline_bounds(s, i + 1);
}

proof fn lemma_trivia_run_space(s: Seq<char>, i: int)
    requires
        0 <= i <= s.len(),
        trivia_from(s, i),
    ensures
        trivia_from(s, run_space(s, i)),
    decreases s.len() - i,
{
    lemma_run_space_bounds(s, i);
    if i < s.len() && is_space_char(s[i]) {
        lemma_trivia_run_space(s, i + 1);
    }
}

proof fn lemma_trivia_unused_star(s: Seq<char>, i: int)
    requires
        0 <= i <= s.len(),
        trivia_from(s, i),
    ensures
        trivia_from(s, unused_star(s, i)),
        i <= unused_star(s, i) <= s.len(),
    decreases s.len() - i,
{
    crate::grammar::lemma_unused_bounds(s, i);
    crate::grammar::lemma_unused_star_bounds(s, i);
    match unused(s, i) {
        Some(j) => {
            // one `unused` step keeps the input trivial
            lemma_run_space_bounds(s, i);
            let k = run_space(s, i);
            lemma_trivia_run_space(s, i);
            if k > i {
                if k < s.len() && s[k] == '#' {
                    lemma_trivia_step(s, k);
                    lemma_run_nonline_bounds(s, k + 1);
                }
            } else {
                lemma_trivia_step(s, i);
                lemma_run_nonline_bounds(s, i + 1);
            }
            assert(trivia_from(s, j));
            lemma_trivia_unused_star(s, j);
        },
        None => {},
    }
}

proof fn lemma_trivia_lead_skip(s: Seq<char>, i: int)
    requires
        0 <= i <= s.len(),
        trivia_from(s, i),
    ensures
        trivia_from(s, lead_skip(s, i)),
        i <= lead_skip(s, i) <= s.len(),
    decreases s.len() - i,
{
    lemma_lead_skip_bounds(s, i);
    lemma_trivia_unused_star(s, i);
    let k = unused_star(s, i);
    match newline(s, k) {
        Some(m) => {
            lemma_trivia_step(s, k);
            lemma_trivia_lead_skip(s, m);
        },
        None => {},
    }
}

/// At a position where only whitespace, comments and line ends remain, no
/// pipeline can start.
proof fn lemma_pipeline_none_on_trivia(s: Seq<char>, i: int)
    requires
        0 <= i <= s.len(),
        trivia_from(s, i),
    ensures
        pipeline(s, i) is None,
{
    lemma_run_space_bounds(s, i);
    lemma_trivia_run_space(s, i);
    let i1 = run_space(s, i);
    if i1 < s.len() {
        lemma_trivia_step(s, i1);
        assert(is_line_end(s[i1]) || s[i1] == '#');
        assert(!is_word_char(s[i1]));
        assert(run_word(s, i1) == i1);
        assert(word(s, i1) is None);
    } else {
        assert(run_word(s, i1) == i1);
        assert(word(s, i1) is None);
    }
    assert(job(s, i1) is None);
}

/// An input of only whitespace, comments and line ends — in any combination,
/// any count, any position — parses to an empty pipeline sequence.
pub proof fn lemma_trivia_parses_empty(s: Seq<char>)
    requires
        trivia_from(s, 0),
    ensures
        script(s) == Seq::<SpecPipeline>::empty(),
{
    lemma_trivia_lead_skip(s, 0);
    lemma_pipeline_none_on_trivia(s, lead_skip(s, 0));
}

// ----------------------------------------------------------------------------
// Quoting preserves content verbatim
// ----------------------------------------------------------------------------
/// Content between matching quote characters is taken verbatim: whatever
/// stands between an opening quote and the next quote of the same kind —
/// the other quote character, `#`, `;`, whitespace, anything — is the word,
/// with only the delimiting quotes stripped.
pub proof fn lemma_quoting_verbatim(s: Seq<char>, i: int, j: int, q: char)
    requires
        q == '"' || q == '\'',
        0 <= i,
        i + 1 < j < s.len(),
        s[i] == q,
        s[j] == q,
        forall|k: int| i < k < j ==> #[trigger] s[k] != q,
    ensures
        word(s, i) == Some((j + 1, s.subrange(i + 1, j))),
{
    lemma_run_nonquote_is(s, i + 1, j, q);
    assert(quoted_word(s, i, q) == Some((j + 1, s.subrange(i + 1, j))));
}

// ----------------------------------------------------------------------------
// Plain single-job inputs
// ----------------------------------------------------------------------------
/// A word as it can stand unquoted in source text: nonempty, bare-word
/// characters only, and no quote characters (a leading quote would start a
/// quoted word instead).
pub open spec fn plain_word(w: Seq<char>) -> bool {
    w.len() >= 1 && forall|k: int|
        0 <= k < w.len() ==> is_word_char(#[trigger] w[k]) && w[k] != '"' && w[k] != '\''
}

/// One word as it stands in source text: bare, or wrapped in double or in
/// single quotes. `text` is the source characters, `value` the word they lex
/// to (the quotes stripped).
pub open spec fn renders_word(text: Seq<char>, value: Seq<char>) -> bool {
    ||| (text == value && plain_word(value))
    ||| (value.len() >= 1 && (forall|k: int| 0 <= k < value.len() ==> #[trigger] value[k] != '"')
        && text == seq!['"'] + value + seq!['"'])
    ||| (value.len() >= 1 && (forall|k: int| 0 <= k < value.len() ==> #[trigger] value[k] != '\'')
        && text == seq!['\''] + value + seq!['\''])
}

/// A nonempty run of spaces and tabs: what may separate two words of a job.
pub open spec fn all_space(g: Seq<char>) -> bool {
    g.len() >= 1 && forall|k: int| 0 <= k < g.len() ==> is_space_char(#[trigger] g[k])
}

/// The source text of a job: the word texts joined by the whitespace runs.
pub open spec fn layout_job(texts: Seq<Seq<char>>, gaps: Seq<Seq<char>>) -> Seq<char>
    decreases texts.len(),
{
    if texts.len() == 0 {
        Seq::empty()
    } else if texts.len() == 1 {
        texts[0]
    } else {
        texts[0] + gaps[0] + layout_job(texts.drop_first(), gaps.drop_first())
    }
}

/// A valid single-job source: at least one word, each rendered bare or
/// quoted, with a whitespace run between every two consecutive words.
pub open spec fn job_layout(
    texts: Seq<Seq<char>>,
    values: Seq<Seq<char>>,
    gaps: Seq<Seq<char>>,
) -> bool {
    &&& texts.len() >= 1
    &&& values.len() == texts.len()
    &&& gaps.len() == texts.len() - 1
    &&& (forall|k: int| 0 <= k < texts.len() ==> renders_word(#[trigger] texts[k], values[k]))
    &&& (forall|k: int| 0 <= k < gaps.len() ==> all_space(#[trigger] gaps[k]))
}

/// A rendered word starts with a bare-word character — which includes the
/// quote characters — and so can neither start whitespace, a comment, nor a
/// line end.
proof fn lemma_render_head(text: Seq<char>, value: Seq<char>)
    requires
        renders_word(text, value),
    ensures
        text.len() >= 1,
        is_word_char(text[0]),
{
    if text == value && plain_word(value) {
    } else if value.len() >= 1 && (forall|k: int| 0 <= k < value.len() ==> #[trigger] value[k]
        != '"') && text == seq!['"'] + value + seq!['"'] {
        assert(text[0] == '"');
    } else {
        assert(text[0] == '\'');
    }
}

/// A plain word laid out at position `i` and delimited on the right lexes as
/// exactly that word.
proof fn lemma_plain_word_at(s: Seq<char>, i: int, w: Seq<char>)
    requires
        plain_word(w),
        0 <= i,
        i + w.len() <= s.len(),
        s.subrange(i, i + w.len()) == w,
        i + w.len() == s.len() || !is_word_char(s[i + w.len()]),
    ensures
        word(s, i) == Some((i + w.len(), w)),
{
    let e = i + w.len();
    assert forall|k: int| i <= k < e implies is_word_char(#[trigger] s[k]) && s[k] != '"' && s[k]
        != '\'' by {
        assert(s.subrange(i, e)[k - i] == s[k]);
        assert(w[k - i] == s[k]);
    }
    crate::grammar::lemma_run_word_is(s, i, e);
    assert(word(s, i) == Some((e, s.subrange(i, e))));
}

/// A rendered word laid out at position `i` — and, if bare, delimited on the
/// right — lexes as exactly its value.
proof fn lemma_rendered_word_at(s: Seq<char>, i: int, text: Seq<char>, value: Seq<char>)
    requires
        renders_word(text, value),
        0 <= i,
        i + text.len() <= s.len(),
        s.subrange(i, i + text.len()) == text,
        text == value ==> i + text.len() == s.len() || !is_word_char(s[i + text.len()]),
    ensures
        text.len() >= 1,
        word(s, i) == Some((i + text.len(), value)),
{
    let e = i + text.len();
    let v = value.len() as int;
    assert(s.subrange(i, e)[0] == s[i]);
    assert((seq!['"'] + value + seq!['"'])[0] == '"');
    assert((seq!['\''] + value + seq!['\''])[0] == '\'');
    if text == value {
        assert(plain_word(value));
        lemma_plain_word_at(s, i, value);
    } else if s[i] == '"' {
        assert(text == seq!['"'] + value + seq!['"']);
        assert(text.len() == v + 2);
        assert(text[v + 1] == '"');
        assert(s.subrange(i, e)[v + 1] == s[i + v + 1]);
        assert(s[e - 1] == '"');
        assert forall|k: int| i + 1 <= k < e - 1 implies #[trigger] s[k] != '"' by {
            assert(s.subrange(i, e)[k - i] == s[k]);
            assert(text[k - i] == value[k - i - 1]);
        }
        crate::grammar::lemma_run_nonquote_is(s, i + 1, e - 1, '"');
        assert forall|m: int| 0 <= m < v implies s.subrange(i + 1, e - 1)[m] == value[m] by {
            assert(s.subrange(i + 1, e - 1)[m] == s[i + 1 + m]);
            assert(s.subrange(i, e)[m + 1] == s[i + (m + 1)]);
            assert(text[m + 1] == value[m]);
        }
        assert(s.subrange(i + 1, e - 1) =~= value);
        assert(quoted_word(s, i, '"') == Some((e, s.subrange(i + 1, e - 1))));
    } else {
        assert(text == seq!['\''] + value + seq!['\'']);
        assert(s[i] == '\'');
        assert(text.len() == v + 2);
        assert(text[v + 1] == '\'');
        assert(s.subrange(i, e)[v + 1] == s[i + v + 1]);
        assert(s[e - 1] == '\'');
        assert(quoted_word(s, i, '"') is None);
        assert forall|k: int| i + 1 <= k < e - 1 implies #[trigger] s[k] != '\'' by {
            assert(s.subrange(i, e)[k - i] == s[k]);
            assert(text[k - i] == value[k - i - 1]);
        }
        crate::grammar::lemma_run_nonquote_is(s, i + 1, e - 1, '\'');
        assert forall|m: int| 0 <= m < v implies s.subrange(i + 1, e - 1)[m] == value[m] by {
            assert(s.subrange(i + 1, e - 1)[m] == s[i + 1 + m]);
            assert(s.subrange(i, e)[m + 1] == s[i + (m + 1)]);
            assert(text[m + 1] == value[m]);
        }
        assert(s.subrange(i + 1, e - 1) =~= value);
        assert(quoted_word(s, i, '\'') == Some((e, s.subrange(i + 1, e - 1))));
    }
}

/// A valid single-job source laid out at `i` and properly delimited on the
/// right lexes as exactly its word values: the first by the `word` rule, the
/// rest by the `(whitespace word)*` repetition.
proof fn lemma_job_words_match(
    s: Seq<char>,
    i: int,
    texts: Seq<Seq<char>>,
    values: Seq<Seq<char>>,
    gaps: Seq<Seq<char>>,
)
    requires
        job_layout(texts, values, gaps),
        0 <= i,
        i + layout_job(texts, gaps).len() <= s.len(),
        s.subrange(i, i + layout_job(texts, gaps).len()) == layout_job(texts, gaps),
        texts.last() == values.last() ==> i + layout_job(texts, gaps).len() == s.len()
            || !is_word_char(s[i + layout_job(texts, gaps).len()]),
        (match ws(s, i + layout_job(texts, gaps).len()) {
            Some(k) => word(s, k) is None,
            None => true,
        }),
    ensures
        texts[0].len() <= layout_job(texts, gaps).len(),
        word(s, i) == Some((i + texts[0].len(), values[0])),
        words_rest(s, i + texts[0].len()) == (
            i + layout_job(texts, gaps).len(),
            values.drop_first(),
        ),
    decreases texts.len(),
{
    let jn = layout_job(texts, gaps);
    let e = i + jn.len();
    let t0 = texts[0];
    let n0 = t0.len() as int;
    assert(renders_word(texts[0], values[0]));
    lemma_render_head(t0, values[0]);
    assert forall|m: int| 0 <= m < jn.len() implies s[i + m] == jn[m] by {
        assert(s.subrange(i, e)[m] == s[i + m]);
    }
    if texts.len() == 1 {
        assert(jn == t0);
        assert(s.subrange(i, i + n0) =~= t0);
        lemma_rendered_word_at(s, i, t0, values[0]);
        match ws(s, e) {
            Some(k) => {
                assert(words_rest(s, e) == (e, Seq::<Seq<char>>::empty()));
            },
            None => {},
        }
        assert(values.drop_first() =~= Seq::<Seq<char>>::empty());
    } else {
        let rtexts = texts.drop_first();
        let rvalues = values.drop_first();
        let rgaps = gaps.drop_first();
        let g0 = gaps[0];
        let g = g0.len() as int;
        let jr = layout_job(rtexts, rgaps);
        assert(all_space(g0));
        assert(jn == t0 + g0 + jr);
        assert(jn.len() == n0 + g + jr.len());
        // the first word and its delimiting whitespace run
        assert(s.subrange(i, i + n0) =~= t0);
        assert forall|k: int| i + n0 <= k < i + n0 + g implies is_space_char(#[trigger] s[k]) by {
            let m = k - (i + n0);
            assert(jn[n0 + m] == g0[m]);
            assert(s[i + (n0 + m)] == jn[n0 + m]);
            assert(is_space_char(g0[m]));
        }
        assert(is_space_char(s[i + n0]));
        assert(!is_word_char(s[i + n0]));
        lemma_rendered_word_at(s, i, t0, values[0]);
        // the rest of the layout, shifted past the word and the run
        let i1 = i + n0 + g;
        assert forall|m: int| 0 <= m < jr.len() implies s[i1 + m] == jr[m] by {
            assert(s[i + (n0 + g + m)] == jn[n0 + g + m]);
            assert(jn[n0 + g + m] == jr[m]);
        }
        assert(s.subrange(i1, i1 + jr.len()) =~= jr);
        assert(job_layout(rtexts, rvalues, rgaps)) by {
            assert(forall|k: int|
                0 <= k < rtexts.len() ==> renders_word(#[trigger] rtexts[k], rvalues[k]));
            assert(forall|k: int| 0 <= k < rgaps.len() ==> all_space(#[trigger] rgaps[k]));
        }
        assert(rtexts.last() == texts.last() && rvalues.last() == values.last());
        lemma_job_words_match(s, i1, rtexts, rvalues, rgaps);
        // the whitespace run ends exactly where the next word starts
        lemma_render_head(rtexts[0], rvalues[0]);
        assert(jr[0] == rtexts[0][0]) by {
            if rtexts.len() == 1 {
            } else {
                assert(jr == rtexts[0] + rgaps[0] + layout_job(
                    rtexts.drop_first(),
                    rgaps.drop_first(),
                ));
            }
        }
        assert(s[i1] == jr[0]);
        assert(!is_space_char(s[i1]));
        crate::grammar::lemma_run_space_is(s, i + n0, i1);
        assert(ws(s, i + n0) == Some(i1));
        // assemble the repetition
        let j1 = i1 + rtexts[0].len();
        assert(j1 <= e);
        assert(words_rest(s, i + n0) == (e, seq![rvalues[0]] + rvalues.drop_first()));
        assert(seq![rvalues[0]] + rvalues.drop_first() =~= rvalues);
    }
}

/// A script that consists of one job starting at position zero and reaching
/// the end of the input, with no pipe and no redirection, parses to exactly
/// that job in one pipeline.
proof fn lemma_single_job_script(s: Seq<char>, jb: SpecJob)
    requires
        s.len() > 0,
        is_word_char(s[0]),
        job(s, 0) == Some(((s.len() as int), jb)),
    ensures
        script(s) == seq![
            SpecPipeline { jobs: seq![jb], stdin_file: None, stdout_file: None },
        ],
{
    let n = s.len() as int;
    assert(run_space(s, 0) == 0);
    assert(unused(s, 0) is None);
    assert(unused_star(s, 0) == 0);
    assert(newline(s, 0) is None);
    assert(lead_skip(s, 0) == 0);
    assert(run_space(s, n) == n);
    assert(crate::grammar::pipe_sep(s, n) is None);
    assert(crate::grammar::jobs_rest(s, n) == (n, Seq::<SpecJob>::empty()));
    assert(comment(s, n) is None);
    assert(crate::grammar::redirect(s, n) == (n, None::<Seq<char>>, None::<Seq<char>>));
    let p = SpecPipeline { jobs: seq![jb], stdin_file: None, stdout_file: None };
    assert(seq![jb] + Seq::<SpecJob>::empty() =~= seq![jb]);
    assert(pipeline(s, 0) == Some((n, p)));
    assert(crate::grammar::job_ending(s, n) is None);
    assert(crate::grammar::sep_plus(s, n) is None);
    assert(crate::grammar::pipes_rest(s, n) == (n, Seq::<SpecPipeline>::empty()));
    assert(crate::grammar::trail_skip(s, n) == n);
    assert(seq![p] + Seq::<SpecPipeline>::empty() =~= seq![p]);
}

/// Any valid single-job input — words, bare or quoted, separated by
/// whitespace runs, with no pipe, no redirection and no background marker —
/// parses to exactly one pipeline holding exactly one foreground job with
/// both redirection fields empty: the first word the command, the rest its
/// arguments.
pub proof fn lemma_single_job_parses_alone(
    texts: Seq<Seq<char>>,
    values: Seq<Seq<char>>,
    gaps: Seq<Seq<char>>,
)
    requires
        job_layout(texts, values, gaps),
    ensures
        script(layout_job(texts, gaps)) == seq![
            SpecPipeline {
                jobs: seq![
                    SpecJob {
                        command: values[0],
                        args: values.drop_first(),
                        background: false,
                    },
                ],
                stdin_file: None,
                stdout_file: None,
            },
        ],
{
    let s = layout_job(texts, gaps);
    let n = s.len() as int;
    assert(s.subrange(0, n) =~= s);
    assert(run_space(s, n) == n);
    lemma_job_words_match(s, 0, texts, values, gaps);
    lemma_render_head(texts[0], values[0]);
    assert(s[0] == texts[0][0]) by {
        if texts.len() == 1 {
        } else {
            assert(s == texts[0] + gaps[0] + layout_job(texts.drop_first(), gaps.drop_first()));
        }
    }
    let all = seq![values[0]] + values.drop_first();
    assert(all[0] == values[0]);
    assert(all.drop_first() =~= values.drop_first());
    let jb = SpecJob { command: values[0], args: values.drop_first(), background: false };
    assert(job(s, 0) == Some((n, jb)));
    lemma_single_job_script(s, jb);
}

/// The background marker takes effect whether it is adjacent to the last
/// word or separated from it by whitespace: the same job source with `&` or
/// ` &` appended parses to the same single job, now with `background` set —
/// while without the marker `background` stays unset (see
/// [`lemma_single_job_parses_alone`]).
pub proof fn lemma_background_attaches(
    texts: Seq<Seq<char>>,
    values: Seq<Seq<char>>,
    gaps: Seq<Seq<char>>,
    padded: bool,
)
    requires
        job_layout(texts, values, gaps),
    ensures
        script(layout_job(texts, gaps) + (if padded { seq![' ', '&'] } else { seq!['&'] }))
            == seq![
            SpecPipeline {
                jobs: seq![
                    SpecJob { command: values[0], args: values.drop_first(), background: true },
                ],
                stdin_file: None,
                stdout_file: None,
            },
        ],
{
    let jn = layout_job(texts, gaps);
    let tail: Seq<char> = if padded { seq![' ', '&'] } else { seq!['&'] };
    let s = jn + tail;
    let e = jn.len() as int;
    let n = s.len() as int;
    assert(s.subrange(0, e) =~= jn);
    assert(s[e] == tail[0]);
    if padded {
        assert(s[e] == ' ');
        assert(s[e + 1] == '&');
        crate::grammar::lemma_run_space_is(s, e, e + 1);
        assert(run_word(s, e + 1) == e + 1);
        assert(word(s, e + 1) is None);
    } else {
        assert(s[e] == '&');
        assert(run_space(s, e) == e);
        assert(ws(s, e) is None);
    }
    lemma_job_words_match(s, 0, texts, values, gaps);
    lemma_render_head(texts[0], values[0]);
    assert(s[0] == texts[0][0]) by {
        if texts.len() == 1 {
            assert(jn == texts[0]);
            assert(jn[0] == texts[0][0]);
        } else {
            assert(jn == texts[0] + gaps[0] + layout_job(texts.drop_first(), gaps.drop_first()));
            assert(jn[0] == texts[0][0]);
        }
    }
    let all = seq![values[0]] + values.drop_first();
    assert(all[0] == values[0]);
    assert(all.drop_first() =~= values.drop_first());
    let jb = SpecJob { command: values[0], args: values.drop_first(), background: true };
    let k = if padded {
        e + 1
    } else {
        e
    };
    assert(crate::grammar::ws_opt(s, e) == k);
    assert(s[k] == '&');
    assert(job(s, 0) == Some((n, jb)));
    lemma_single_job_script(s, jb);
}

// ----------------------------------------------------------------------------
// One pipeline per job-ending-separated group
// ----------------------------------------------------------------------------
/// Two single-job groups separated by one job-ending character — `;`, CR or
/// LF — parse to exactly two pipelines, one per group, in source order.
pub proof fn lemma_two_groups_two_pipelines(
    texts1: Seq<Seq<char>>,
    values1: Seq<Seq<char>>,
    gaps1: Seq<Seq<char>>,
    c: char,
    texts2: Seq<Seq<char>>,
    values2: Seq<Seq<char>>,
    gaps2: Seq<Seq<char>>,
)
    requires
        job_layout(texts1, values1, gaps1),
        job_layout(texts2, values2, gaps2),
        c == ';' || c == '\r' || c == '\n',
    ensures
        script(layout_job(texts1, gaps1) + seq![c] + layout_job(texts2, gaps2)) == seq![
            SpecPipeline {
                jobs: seq![
                    SpecJob {
                        command: values1[0],
                        args: values1.drop_first(),
                        background: false,
                    },
                ],
                stdin_file: None,
                stdout_file: None,
            },
            SpecPipeline {
                jobs: seq![
                    SpecJob {
                        command: values2[0],
                        args: values2.drop_first(),
                        background: false,
                    },
                ],
                stdin_file: None,
                stdout_file: None,
            },
        ],
{
    let jn1 = layout_job(texts1, gaps1);
    let jn2 = layout_job(texts2, gaps2);
    let s = jn1 + seq![c] + jn2;
    let e1 = jn1.len() as int;
    let i2 = e1 + 1;
    let n = s.len() as int;
    assert(n == i2 + jn2.len());
    assert(!is_word_char(c) && !is_space_char(c) && c != '#' && c != '&' && c != '|' && c != '<'
        && c != '>');
    // the first group
    assert(s.subrange(0, e1) =~= jn1);
    assert(s[e1] == c);
    assert(ws(s, e1) is None);
    lemma_job_words_match(s, 0, texts1, values1, gaps1);
    lemma_render_head(texts1[0], values1[0]);
    assert(s[0] == texts1[0][0]) by {
        if texts1.len() == 1 {
            assert(jn1[0] == texts1[0][0]);
        } else {
            assert(jn1 == texts1[0] + gaps1[0] + layout_job(
                texts1.drop_first(),
                gaps1.drop_first(),
            ));
            assert(jn1[0] == texts1[0][0]);
        }
    }
    let all1 = seq![values1[0]] + values1.drop_first();
    assert(all1[0] == values1[0]);
    assert(all1.drop_first() =~= values1.drop_first());
    let jb1 = SpecJob { command: values1[0], args: values1.drop_first(), background: false };
    assert(crate::grammar::ws_opt(s, e1) == e1);
    assert(job(s, 0) == Some((e1, jb1)));
    // the first pipeline stops right before the separator
    assert(run_space(s, 0) == 0);
    assert(unused(s, 0) is None);
    assert(unused_star(s, 0) == 0);
    assert(newline(s, 0) is None);
    assert(lead_skip(s, 0) == 0);
    assert(crate::grammar::pipe_sep(s, e1) is None);
    assert(crate::grammar::jobs_rest(s, e1) == (e1, Seq::<SpecJob>::empty()));
    assert(comment(s, e1) is None);
    assert(crate::grammar::redirect(s, e1) == (e1, None::<Seq<char>>, None::<Seq<char>>));
    let p1 = SpecPipeline { jobs: seq![jb1], stdin_file: None, stdout_file: None };
    assert(seq![jb1] + Seq::<SpecJob>::empty() =~= seq![jb1]);
    assert(pipeline(s, 0) == Some((e1, p1)));
    // the separator: one job ending, then the second group begins at once
    assert(s.subrange(i2, n) =~= jn2);
    lemma_job_words_match(s, i2, texts2, values2, gaps2);
    lemma_render_head(texts2[0], values2[0]);
    assert(s[i2] == texts2[0][0]) by {
        if texts2.len() == 1 {
            assert(s.subrange(i2, n)[0] == s[i2]);
            assert(jn2[0] == texts2[0][0]);
        } else {
            assert(jn2 == texts2[0] + gaps2[0] + layout_job(
                texts2.drop_first(),
                gaps2.drop_first(),
            ));
            assert(s.subrange(i2, n)[0] == s[i2]);
            assert(jn2[0] == texts2[0][0]);
        }
    }
    assert(is_word_char(s[i2]));
    assert(crate::grammar::job_ending(s, e1) == Some(i2));
    assert(crate::grammar::job_ending(s, i2) is None);
    assert(crate::grammar::job_endings_star(s, i2) == i2);
    assert(run_space(s, i2) == i2);
    assert(comment(s, i2) is None);
    assert(unused(s, i2) is None);
    assert(unused_star(s, i2) == i2);
    assert(crate::grammar::sep_star(s, i2) == i2);
    assert(crate::grammar::sep_plus(s, e1) == Some(i2));
    // the second pipeline reaches the end of the input
    let all2 = seq![values2[0]] + values2.drop_first();
    assert(all2[0] == values2[0]);
    assert(all2.drop_first() =~= values2.drop_first());
    let jb2 = SpecJob { command: values2[0], args: values2.drop_first(), background: false };
    assert(run_space(s, n) == n);
    assert(crate::grammar::ws_opt(s, n) == n);
    assert(job(s, i2) == Some((n, jb2)));
    assert(crate::grammar::pipe_sep(s, n) is None);
    assert(crate::grammar::jobs_rest(s, n) == (n, Seq::<SpecJob>::empty()));
    assert(comment(s, n) is None);
    assert(crate::grammar::redirect(s, n) == (n, None::<Seq<char>>, None::<Seq<char>>));
    let p2 = SpecPipeline { jobs: seq![jb2], stdin_file: None, stdout_file: None };
    assert(seq![jb2] + Seq::<SpecJob>::empty() =~= seq![jb2]);
    assert(pipeline(s, i2) == Some((n, p2)));
    // assemble the script
    assert(crate::grammar::sep_plus(s, n) is None);
    assert(crate::grammar::pipes_rest(s, n) == (n, Seq::<SpecPipeline>::empty()));
    assert(crate::grammar::pipes_rest(s, e1) == (n, seq![p2] + Seq::<SpecPipeline>::empty()));
    assert(crate::grammar::trail_skip(s, n) == n);
    assert(seq![p2] + Seq::<SpecPipeline>::empty() =~= seq![p2]);
    assert(seq![p1] + seq![p2] =~= seq![p1, p2]);
}

// ----------------------------------------------------------------------------
// Redirection order independence
// ----------------------------------------------------------------------------
/// A command followed by two redirection tokens, in either order, parses to
/// one pipeline of that one job; the file after `<` becomes `stdin_file` and
/// the file after `>` becomes `stdout_file`, wherever each stands.
proof fn lemma_cmd_two_redirects(cmd: Seq<char>, c1: char, w1: Seq<char>, c2: char, w2: Seq<char>)
    requires
        plain_word(cmd),
        plain_word(w1),
        plain_word(w2),
        c1 == '<' && c2 == '>' || c1 == '>' && c2 == '<',
    ensures
        script(cmd + seq![' ', c1, ' '] + w1 + seq![' ', c2, ' '] + w2) == seq![
            SpecPipeline {
                jobs: seq![SpecJob { command: cmd, args: Seq::empty(), background: false }],
                stdin_file: Some(
                    if c1 == '<' {
                        w1
                    } else {
                        w2
                    },
                ),
                stdout_file: Some(
                    if c1 == '<' {
                        w2
                    } else {
                        w1
                    },
                ),
            },
        ],
{
    let s = cmd + seq![' ', c1, ' '] + w1 + seq![' ', c2, ' '] + w2;
    let n0 = cmd.len() as int;
    let p1 = n0 + 3;
    let e1 = p1 + w1.len() as int;
    let p2 = e1 + 3;
    let e2 = p2 + w2.len() as int;
    let n = s.len() as int;
    assert(n == e2);
    // the layout of the input, segment by segment
    assert(s.subrange(0, n0) =~= cmd);
    assert(s[n0] == ' ');
    assert(s[n0 + 1] == c1);
    assert(s[n0 + 2] == ' ');
    assert(s.subrange(p1, e1) =~= w1);
    assert(s[e1] == ' ');
    assert(s[e1 + 1] == c2);
    assert(s[e1 + 2] == ' ');
    assert(s.subrange(p2, e2) =~= w2);
    // the one-word job
    assert(!is_word_char(c1) && !is_word_char(c2));
    lemma_plain_word_at(s, 0, cmd);
    crate::grammar::lemma_run_space_is(s, n0, n0 + 1);
    assert(ws(s, n0) == Some(n0 + 1));
    assert(run_word(s, n0 + 1) == n0 + 1);
    assert(word(s, n0 + 1) is None);
    assert(words_rest(s, n0) == (n0, Seq::<Seq<char>>::empty()));
    let jb = SpecJob { command: cmd, args: Seq::empty(), background: false };
    assert((seq![cmd] + Seq::<Seq<char>>::empty()).drop_first() =~= Seq::<Seq<char>>::empty());
    assert(job(s, 0) == Some((n0, jb)));
    // neither a pipe nor a background marker follows
    assert(crate::grammar::pipe_sep(s, n0) is None);
    assert(crate::grammar::jobs_rest(s, n0) == (n0, Seq::<SpecJob>::empty()));
    // the two redirection tokens
    assert(w1[0] != ' ' && !is_space_char(w1[0]));
    assert(s[p1] == w1[0]);
    crate::grammar::lemma_run_space_is(s, n0 + 2, p1);
    lemma_plain_word_at(s, p1, w1);
    assert(crate::grammar::redir_file(s, n0 + 1, c1) == Some((e1, w1)));
    crate::grammar::lemma_run_space_is(s, e1, e1 + 1);
    assert(s[p2] == w2[0]);
    crate::grammar::lemma_run_space_is(s, e1 + 2, p2);
    lemma_plain_word_at(s, p2, w2);
    assert(crate::grammar::redir_file(s, e1 + 1, c2) == Some((e2, w2)));
    let fin = if c1 == '<' {
        w1
    } else {
        w2
    };
    let fout = if c1 == '<' {
        w2
    } else {
        w1
    };
    if c1 == '<' {
        assert(crate::grammar::redirect(s, n0 + 1) == (e2, Some(fin), Some(fout)));
    } else {
        assert(crate::grammar::redir_file(s, n0 + 1, '<') is None);
        assert(crate::grammar::redirect(s, n0 + 1) == (e2, Some(fin), Some(fout)));
    }
    // the pipeline and the script around it
    assert(run_space(s, 0) == 0);
    assert(run_space(s, e2) == e2);
    assert(comment(s, e2) is None);
    let p = SpecPipeline { jobs: seq![jb], stdin_file: Some(fin), stdout_file: Some(fout) };
    assert(seq![jb] + Seq::<SpecJob>::empty() =~= seq![jb]);
    assert(pipeline(s, 0) == Some((n, p)));
    assert(unused(s, 0) is None);
    assert(unused_star(s, 0) == 0);
    assert(newline(s, 0) is None);
    assert(lead_skip(s, 0) == 0);
    assert(crate::grammar::sep_plus(s, n) is None);
    assert(crate::grammar::pipes_rest(s, n) == (n, Seq::<SpecPipeline>::empty()));
    assert(crate::grammar::trail_skip(s, n) == n);
    assert(seq![p] + Seq::<SpecPipeline>::empty() =~= seq![p]);
}

/// Redirection is order-independent: `cmd < A > B` and `cmd > B < A` parse
/// to identical pipelines, with `stdin_file` `A` and `stdout_file` `B`.
pub proof fn lemma_redirect_order_independent(cmd: Seq<char>, a: Seq<char>, b: Seq<char>)
    requires
        plain_word(cmd),
        plain_word(a),
        plain_word(b),
    ensures
        script(cmd + seq![' ', '<', ' '] + a + seq![' ', '>', ' '] + b) == seq![
            SpecPipeline {
                jobs: seq![SpecJob { command: cmd, args: Seq::empty(), background: false }],
                stdin_file: Some(a),
                stdout_file: Some(b),
            },
        ],
        script(cmd + seq![' ', '>', ' '] + b + seq![' ', '<', ' '] + a) == script(
            cmd + seq![' ', '<', ' '] + a + seq![' ', '>', ' '] + b,
        ),
{
    lemma_cmd_two_redirects(cmd, '<', a, '>', b);
    lemma_cmd_two_redirects(cmd, '>', b, '<', a);
}

// ----------------------------------------------------------------------------
// Glob expansion
// ----------------------------------------------------------------------------
/// An argument containing none of the glob metacharacters is never altered by
/// the glob expander, whatever the glob service would have answered.
pub proof fn lemma_nonglob_arg_unchanged(arg: Seq<char>, m: Option<Seq<Seq<char>>>)
    requires
        !is_glob_word(arg),
    ensures
        expansion_of(arg, m) == seq![arg],
{
}

/// A pattern the glob service answers with `N >= 1` paths is replaced by
/// exactly those `N` paths, in order: one argument slot becomes `N` slots,
/// so the argument count grows by exactly `N - 1`.
pub proof fn lemma_glob_match_count(arg: Seq<char>, v: Seq<Seq<char>>)
    requires
        is_glob_word(arg),
        v.len() >= 1,
    ensures
        expansion_of(arg, Some(v)) == v,
{
}

} // verus!
