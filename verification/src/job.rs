use vstd::prelude::*;
use crate::tokenize::{is_space, tokens, tokens_from};

verus! {

/// The byte that marks a background job when it stands as the last token.
pub const AMP: u8 = 38;

/// The byte on which a pipeline line is split.
pub const BAR: u8 = 124;

/// The byte of the output-redirection operator.
pub const GT: u8 = 62;

/// The byte of the input-redirection operator.
pub const LT: u8 = 60;

/// Why a line could not be turned into a job.
#[derive(Clone, Copy, Debug, PartialEq, Eq, Structural)]
pub enum ParseError {
    /// A command vector would have been empty: the line holds only a
    /// background marker, or a redirection operator opens the line.
    EmptyCommand,
    /// A pipeline segment holds no token.
    EmptyStage,
    /// Nothing follows a redirection operator.
    MissingRedirectPath,
}

/// The direction of a redirection: `In` reads standard input from the
/// file, `Out` writes standard output to it.
#[derive(Clone, Copy, Debug, PartialEq, Eq, Structural)]
pub enum RedirKind {
    In,
    Out,
}

/// A redirection attached to a job: the direction and the file path,
/// taken verbatim from the token after the operator.
#[derive(Debug, PartialEq, Eq)]
pub struct Redirect {
    pub kind: RedirKind,
    pub path: Vec<u8>,
}

/// The mathematical shape of a redirection.
pub struct RedirectSpec {
    pub kind: RedirKind,
    pub path: Seq<u8>,
}

impl View for Redirect {
    type V = RedirectSpec;

    open spec fn view(&self) -> RedirectSpec {
        RedirectSpec { kind: self.kind, path: self.path@ }
    }
}

/// The parsed form of one input line: an ordered, non-empty sequence of
/// command vectors (one per pipeline stage), an optional redirection on
/// the single stage, and the background flag.
#[derive(Debug, PartialEq, Eq)]
pub struct Job {
    pub stages: Vec<Vec<Vec<u8>>>,
    pub redirect: Option<Redirect>,
    pub background: bool,
}

/// The mathematical shape of a job.
pub struct JobSpec {
    pub stages: Seq<Seq<Seq<u8>>>,
    pub redirect: Option<RedirectSpec>,
    pub background: bool,
}

impl View for Job {
    type V = JobSpec;

    open spec fn view(&self) -> JobSpec {
        JobSpec {
            stages: self.stages.deep_view(),
            redirect: match self.redirect {
                Option::None => Option::None,
                Option::Some(r) => Option::Some(r@),
            },
            background: self.background,
        }
    }
}

/// A well-formed job: at least one stage, no empty command vector, and a
/// redirection only on a single-stage job.
pub open spec fn job_wf(j: JobSpec) -> bool {
    &&& j.stages.len() > 0
    &&& forall|k: int| 0 <= k < j.stages.len() ==> (#[trigger] j.stages[k]).len() > 0
    &&& j.redirect is Some ==> j.stages.len() == 1
}

/// `s` with its trailing separator bytes removed.
pub open spec fn strip_spaces_end(s: Seq<u8>) -> Seq<u8>
    decreases s.len(),
{
    if s.len() > 0 && is_space(s.last()) {
        strip_spaces_end(s.drop_last())
    } else {
        s
    }
}

/// The raw line with its background marker removed: trailing whitespace
/// goes, then the final byte (the `&` itself, when the last token is the
/// background marker).
pub open spec fn strip_bg_raw(s: Seq<u8>) -> Seq<u8> {
    let t = strip_spaces_end(s);
    if t.len() > 0 {
        t.drop_last()
    } else {
        t
    }
}

/// The segments of `s` split on every `|` byte, with `cur` the segment
/// already begun. Empty segments are kept: they are what makes a
/// pipeline such as a bare `|` an error.
pub open spec fn splitp(s: Seq<u8>, cur: Seq<u8>) -> Seq<Seq<u8>>
    decreases s.len(),
{
    if s.len() == 0 {
        seq![cur]
    } else if s[0] == BAR {
        seq![cur] + splitp(s.skip(1), Seq::empty())
    } else {
        splitp(s.skip(1), cur.push(s[0]))
    }
}

/// The segments of `s` split on every `|` byte, in order.
pub open spec fn split_pipe(s: Seq<u8>) -> Seq<Seq<u8>> {
    splitp(s, Seq::empty())
}

/// The per-stage command vectors of a pipeline line: each segment
/// independently re-tokenized.
pub open spec fn stage_cmds(s: Seq<u8>) -> Seq<Seq<Seq<u8>>> {
    split_pipe(s).map_values(|seg: Seq<u8>| tokens(seg))
}

/// True of the token that marks a background job.
pub open spec fn is_amp_tok(t: Seq<u8>) -> bool {
    t == seq![AMP]
}

/// True of a redirection operator token.
pub open spec fn is_redir_tok(t: Seq<u8>) -> bool {
    t == seq![GT] || t == seq![LT]
}

/// The job is background exactly when the last token is `&`.
pub open spec fn spec_background(toks: Seq<Seq<u8>>) -> bool {
    toks.len() > 0 && is_amp_tok(toks.last())
}

/// The tokens the operators and command vectors are read from: the
/// token list with the background marker dropped.
pub open spec fn body_tokens(toks: Seq<Seq<u8>>) -> Seq<Seq<u8>> {
    if spec_background(toks) {
        toks.drop_last()
    } else {
        toks
    }
}

/// True when some pipeline segment tokenizes to no command at all.
pub open spec fn has_empty_stage(cmds: Seq<Seq<Seq<u8>>>) -> bool {
    exists|k: int| 0 <= k < cmds.len() && (#[trigger] cmds[k]).len() == 0
}

/// True when some token is a redirection operator.
pub open spec fn has_redir(tb: Seq<Seq<u8>>) -> bool {
    exists|k: int| 0 <= k < tb.len() && is_redir_tok(#[trigger] tb[k])
}

/// The position of the first redirection operator among the tokens.
pub open spec fn first_redir_idx(tb: Seq<Seq<u8>>) -> int
    decreases tb.len(),
{
    if tb.len() == 0 {
        0
    } else if is_redir_tok(tb[0]) {
        0
    } else {
        1 + first_redir_idx(tb.skip(1))
    }
}

/// A scan that finds an operator at `p` after none before it has found
/// the first one.
pub proof fn lemma_first_redir_idx(tb: Seq<Seq<u8>>, p: int)
    requires
        0 <= p < tb.len(),
        is_redir_tok(tb[p]),
        forall|k: int| 0 <= k < p ==> !is_redir_tok(#[trigger] tb[k]),
    ensures
        first_redir_idx(tb) == p,
    decreases p,
{
    if p == 0 {
    } else {
        assert(!is_redir_tok(tb[0]));
        assert(tb.skip(1)[p - 1] == tb[p]);
        assert forall|k: int| 0 <= k < p - 1 implies !is_redir_tok(#[trigger] tb.skip(1)[k]) by {
            assert(tb.skip(1)[k] == tb[k + 1]);
        }
        lemma_first_redir_idx(tb.skip(1), p - 1);
    }
}

/// What one raw line means. The shapes are tried in a fixed order:
/// a standalone `|` token makes a pipeline (the raw line is split on
/// every `|` byte and each segment re-tokenized); otherwise the first
/// `>` or `<` token makes a redirected command; otherwise the tokens
/// are a plain command. An empty token list yields no job, and the
/// background marker is stripped before any operator is read.
pub open spec fn classify_spec(line: Seq<u8>) -> Result<Option<JobSpec>, ParseError> {
    let toks = tokens(line);
    if toks.len() == 0 {
        Result::Ok(Option::None)
    } else {
        let bg = spec_background(toks);
        let tb = body_tokens(toks);
        let body = if bg {
            strip_bg_raw(line)
        } else {
            line
        };
        if tb.len() == 0 {
            Result::Err(ParseError::EmptyCommand)
        } else if tb.contains(seq![BAR]) {
            let cmds = stage_cmds(body);
            if has_empty_stage(cmds) {
                Result::Err(ParseError::EmptyStage)
            } else {
                Result::Ok(
                    Option::Some(JobSpec { stages: cmds, redirect: Option::None, background: bg }),
                )
            }
        } else if has_redir(tb) {
            let p = first_redir_idx(tb);
            if p == 0 {
                Result::Err(ParseError::EmptyCommand)
            } else if p + 1 >= tb.len() {
                Result::Err(ParseError::MissingRedirectPath)
            } else {
                Result::Ok(
                    Option::Some(
                        JobSpec {
                            stages: seq![tb.take(p)],
                            redirect: Option::Some(
                                RedirectSpec {
                                    kind: if tb[p] == seq![GT] {
                                        RedirKind::Out
                                    } else {
                                        RedirKind::In
                                    },
                                    path: tb[p + 1],
                                },
                            ),
                            background: bg,
                        },
                    ),
                )
            }
        } else {
            Result::Ok(
                Option::Some(JobSpec { stages: seq![tb], redirect: Option::None, background: bg }),
            )
        }
    }
}

/// A trailing separator byte changes no token.
pub proof fn lemma_tokens_trailing_space(s: Seq<u8>, cur: Seq<u8>, b: u8)
    requires
        is_space(b),
    ensures
        tokens_from(s.push(b), cur) == tokens_from(s, cur),
    decreases s.len(),
{
    if s.len() == 0 {
        assert(s.push(b)[0] == b);
        assert(s.push(b).skip(1) =~= Seq::<u8>::empty());
        assert(tokens_from(s.push(b).skip(1), Seq::<u8>::empty()) == Seq::<Seq<u8>>::empty());
        if cur.len() > 0 {
            assert(seq![cur] + Seq::<Seq<u8>>::empty() =~= seq![cur]);
        }
    } else {
        assert(s.push(b)[0] == s[0]);
        assert(s.push(b).skip(1) =~= s.skip(1).push(b));
        if is_space(s[0]) {
            lemma_tokens_trailing_space(s.skip(1), Seq::empty(), b);
        } else {
            lemma_tokens_trailing_space(s.skip(1), cur.push(s[0]), b);
        }
    }
}

/// A trailing non-separator byte is the last byte of the last token.
pub proof fn lemma_tokens_last_byte(s: Seq<u8>, cur: Seq<u8>, b: u8)
    requires
        !is_space(b),
    ensures
        tokens_from(s.push(b), cur).len() > 0,
        tokens_from(s.push(b), cur).last().len() > 0,
        tokens_from(s.push(b), cur).last().last() == b,
    decreases s.len(),
{
    if s.len() == 0 {
        assert(s.push(b)[0] == b);
        assert(s.push(b).skip(1) =~= Seq::<u8>::empty());
        assert(tokens_from(s.push(b), cur) == tokens_from(Seq::<u8>::empty(), cur.push(b)));
        assert(tokens_from(s.push(b), cur) == seq![cur.push(b)]);
        assert(cur.push(b).last() == b);
    } else {
        assert(s.push(b)[0] == s[0]);
        assert(s.push(b).skip(1) =~= s.skip(1).push(b));
        if is_space(s[0]) {
            lemma_tokens_last_byte(s.skip(1), Seq::empty(), b);
            if cur.len() > 0 {
                assert((seq![cur] + tokens_from(s.skip(1).push(b), Seq::<u8>::empty())).last()
                    == tokens_from(s.skip(1).push(b), Seq::<u8>::empty()).last());
            }
        } else {
            lemma_tokens_last_byte(s.skip(1), cur.push(s[0]), b);
        }
    }
}

/// Stripping trailing separators changes no token.
pub proof fn lemma_tokens_strip(s: Seq<u8>)
    ensures
        tokens(strip_spaces_end(s)) == tokens(s),
    decreases s.len(),
{
    if s.len() > 0 && is_space(s.last()) {
        assert(s.drop_last().push(s.last()) =~= s);
        lemma_tokens_trailing_space(s.drop_last(), Seq::empty(), s.last());
        lemma_tokens_strip(s.drop_last());
    }
}

/// The stripped line is empty or ends on a non-separator byte.
pub proof fn lemma_strip_no_trailing_space(s: Seq<u8>)
    ensures
        strip_spaces_end(s).len() == 0 || !is_space(strip_spaces_end(s).last()),
    decreases s.len(),
{
    if s.len() > 0 && is_space(s.last()) {
        lemma_strip_no_trailing_space(s.drop_last());
    }
}

/// When the last token of a line is the background marker, the line
/// stripped of trailing whitespace ends exactly on the `&` byte — so
/// dropping that byte, as `strip_bg_raw` does, removes the marker
/// itself and nothing of the commands.
pub proof fn lemma_background_marker(s: Seq<u8>)
    requires
        spec_background(tokens(s)),
    ensures
        strip_spaces_end(s).len() > 0,
        strip_spaces_end(s).last() == AMP,
{
    let t = strip_spaces_end(s);
    lemma_tokens_strip(s);
    lemma_strip_no_trailing_space(s);
    if t.len() == 0 {
        assert(tokens(t) == Seq::<Seq<u8>>::empty());
        assert(false);
    }
    assert(t.drop_last().push(t.last()) =~= t);
    lemma_tokens_last_byte(t.drop_last(), Seq::empty(), t.last());
    assert(tokens(t).last().last() == t.last());
    assert(tokens(s).last() == seq![AMP]);
    assert(seq![AMP].last() == AMP);
}

/// The scan for the first redirection operator never goes negative.
pub proof fn lemma_first_redir_nonneg(tb: Seq<Seq<u8>>)
    ensures
        first_redir_idx(tb) >= 0,
    decreases tb.len(),
{
    if tb.len() == 0 {
    } else if is_redir_tok(tb[0]) {
    } else {
        lemma_first_redir_nonneg(tb.skip(1));
    }
}

/// Splitting on `|` always yields at least one segment.
pub proof fn lemma_splitp_len(s: Seq<u8>, cur: Seq<u8>)
    ensures
        splitp(s, cur).len() >= 1,
    decreases s.len(),
{
    if s.len() == 0 {
    } else if s[0] == BAR {
        lemma_splitp_len(s.skip(1), Seq::empty());
    } else {
        lemma_splitp_len(s.skip(1), cur.push(s[0]));
    }
}

/// Every job the classifier yields is well-formed: at least one stage,
/// no empty command vector, and a redirection only on a single-stage
/// job.
pub proof fn lemma_classify_wf(line: Seq<u8>)
    ensures
        (match classify_spec(line) {
            Ok(Some(js)) => job_wf(js),
            _ => true,
        }),
{
    let toks = tokens(line);
    if toks.len() != 0 {
        let bg = spec_background(toks);
        let tb = body_tokens(toks);
        let body = if bg {
            strip_bg_raw(line)
        } else {
            line
        };
        if tb.len() != 0 {
            if tb.contains(seq![BAR]) {
                let cmds = stage_cmds(body);
                if !has_empty_stage(cmds) {
                    lemma_splitp_len(body, Seq::empty());
                    assert(cmds.len() >= 1);
                    assert forall|k: int| 0 <= k < cmds.len() implies (#[trigger] cmds[k]).len()
                        > 0 by {
                        if cmds[k].len() == 0 {
                            assert(has_empty_stage(cmds));
                        }
                    }
                }
            } else if has_redir(tb) {
                let p = first_redir_idx(tb);
                lemma_first_redir_nonneg(tb);
                if p != 0 && p + 1 < tb.len() {
                    assert(seq![tb.take(p)].len() == 1);
                    assert(seq![tb.take(p)][0].len() == p);
                }
            } else {
                assert(seq![tb].len() == 1);
                assert(seq![tb][0].len() == tb.len());
            }
        }
    }
}

/// The executable classifier returns exactly what `classify_spec` says.
pub open spec fn classify_matches(
    r: Result<Option<Job>, ParseError>,
    s: Result<Option<JobSpec>, ParseError>,
) -> bool {
    match (r, s) {
        (Result::Ok(Option::None), Result::Ok(Option::None)) => true,
        (Result::Ok(Option::Some(j)), Result::Ok(Option::Some(js))) => j@ == js,
        (Result::Err(e1), Result::Err(e2)) => e1 == e2,
        _ => false,
    }
}

} // verus!
