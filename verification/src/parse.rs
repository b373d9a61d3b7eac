use vstd::prelude::*;
use crate::tokenize::{byte_is_space, tokenize, tokens};
use crate::job::{
    is_redir_tok, body_tokens, classify_matches, classify_spec, first_redir_idx, has_empty_stage, job_wf,
    has_redir, lemma_first_redir_idx, spec_background, split_pipe, splitp, stage_cmds,
    strip_bg_raw, strip_spaces_end, Job, ParseError, Redirect, RedirKind, AMP, BAR, GT,
    LT,
};

verus! {

/// Copies the first `n` bytes of `v` into a fresh vector.
pub fn copy_prefix(v: &Vec<u8>, n: usize) -> (r: Vec<u8>)
    requires
        n <= v.len(),
    ensures
        r@ == v@.take(n as int),
{
    let mut r: Vec<u8> = Vec::new();
    let mut i: usize = 0;
    proof {
        assert(v@.take(0) =~= r@);
    }
    while i < n
        invariant
            i <= n,
            n <= v.len(),
            r@ == v@.take(i as int),
        decreases n - i,
    {
        r.push(v[i]);
        proof {
            assert(v@.take(i as int).push(v@[i as int]) =~= v@.take(i as int + 1));
        }
        i += 1;
    }
    r
}

/// True exactly when the token is the single byte `b`.
pub fn token_is(t: &Vec<u8>, b: u8) -> (r: bool)
    ensures
        r == (t@ == seq![b]),
{
    if t.len() == 1 {
        let e = t[0] == b;
        proof {
            if e {
                assert(t@ =~= seq![b]);
            }
        }
        e
    } else {
        proof {
            assert(seq![b].len() == 1);
        }
        false
    }
}

/// Removes the background marker from the raw line: trailing whitespace,
/// then the final byte.
pub fn strip_bg_line(line: &Vec<u8>) -> (r: Vec<u8>)
    ensures
        r@ == strip_bg_raw(line@),
{
    let mut end: usize = 0;
    let mut i: usize = 0;
    while i < line.len()
        invariant
            i <= line.len(),
            end <= i,
            strip_spaces_end(line@.take(i as int)) == line@.take(end as int),
        decreases line.len() - i,
    {
        proof {
            assert(line@.take(i as int + 1).last() == line@[i as int]);
        }
        if !byte_is_space(line[i]) {
            end = i + 1;
        } else {
            proof {
                assert(line@.take(i as int + 1).drop_last() =~= line@.take(i as int));
            }
        }
        i += 1;
    }
    proof {
        assert(line@.take(line@.len() as int) =~= line@);
    }
    if end == 0 {
        let r: Vec<u8> = Vec::new();
        proof {
            assert(r@ =~= strip_bg_raw(line@));
        }
        r
    } else {
        let r = copy_prefix(line, end - 1);
        proof {
            assert(line@.take(end as int).drop_last() =~= line@.take(end as int - 1));
        }
        r
    }
}

/// Splits the raw line on every `|` byte, keeping empty segments.
pub fn split_on_pipe(s: &Vec<u8>) -> (r: Vec<Vec<u8>>)
    ensures
        r.deep_view() == split_pipe(s@),
{
    let mut done: Vec<Vec<u8>> = Vec::new();
    let mut cur: Vec<u8> = Vec::new();
    let mut i: usize = 0;
    proof {
        assert(s@.skip(0) =~= s@);
        assert(done.deep_view() + splitp(s@, cur@) =~~= splitp(s@, cur@));
    }
    while i < s.len()
        invariant
            i <= s.len(),
            split_pipe(s@) == done.deep_view() + splitp(s@.skip(i as int), cur@),
        decreases s.len() - i,
    {
        let ghost rest = s@.skip(i as int);
        proof {
            assert(rest[0] == s@[i as int]);
            assert(rest.skip(1) =~= s@.skip(i as int + 1));
        }
        let b = s[i];
        if b == BAR {
            let ghost done0 = done.deep_view();
            let ghost cur0 = cur@;
            done.push(cur);
            cur = Vec::new();
            proof {
                assert(done.deep_view() =~~= done0.push(cur0));
                assert(splitp(rest, cur0) == seq![cur0] + splitp(
                    rest.skip(1),
                    Seq::<u8>::empty(),
                ));
                assert(done0 + (seq![cur0] + splitp(rest.skip(1), Seq::<u8>::empty()))
                    =~~= done0.push(cur0) + splitp(rest.skip(1), Seq::<u8>::empty()));
                assert(split_pipe(s@) == done.deep_view() + splitp(
                    s@.skip(i as int + 1),
                    cur@,
                ));
            }
        } else {
            let ghost cur0 = cur@;
            cur.push(b);
            proof {
                assert(splitp(rest, cur0) == splitp(rest.skip(1), cur0.push(b)));
                assert(split_pipe(s@) == done.deep_view() + splitp(
                    s@.skip(i as int + 1),
                    cur@,
                ));
            }
        }
        i += 1;
    }
    let ghost done0 = done.deep_view();
    let ghost cur0 = cur@;
    done.push(cur);
    proof {
        assert(s@.skip(s@.len() as int) =~= Seq::<u8>::empty());
        assert(done.deep_view() =~~= done0.push(cur0));
        assert(done0 + seq![cur0] =~~= done0.push(cur0));
    }
    done
}

/// Looks for the single-byte token `b` among the first `n` tokens.
fn contains_tok(toks: &Vec<Vec<u8>>, n: usize, b: u8) -> (r: bool)
    requires
        n <= toks.len(),
    ensures
        r == toks.deep_view().take(n as int).contains(seq![b]),
{
    let mut i: usize = 0;
    while i < n
        invariant
            i <= n,
            n <= toks.len(),
            forall|k: int| 0 <= k < i ==> #[trigger] toks.deep_view().take(n as int)[k] != seq![b],
        decreases n - i,
    {
        let hit = token_is(&toks[i], b);
        proof {
            assert(toks.deep_view().take(n as int)[i as int] =~= toks@[i as int]@);
        }
        if hit {
            proof {
                assert(toks.deep_view().take(n as int).contains(seq![b]));
            }
            return true;
        }
        i += 1;
    }
    proof {
        if toks.deep_view().take(n as int).contains(seq![b]) {
            let k = choose|k: int|
                0 <= k < toks.deep_view().take(n as int).len() && toks.deep_view().take(
                    n as int,
                )[k] == seq![b];
            assert(toks.deep_view().take(n as int)[k] != seq![b]);
        }
    }
    false
}

/// Finds the first redirection operator among the first `n` tokens.
fn find_redir(toks: &Vec<Vec<u8>>, n: usize) -> (r: Option<usize>)
    requires
        n <= toks.len(),
    ensures
        (match r {
            Some(p) => p < n && is_redir_tok(toks.deep_view().take(n as int)[p as int])
                && first_redir_idx(toks.deep_view().take(n as int)) == p,
            None => !has_redir(toks.deep_view().take(n as int)),
        }),
{
    let mut i: usize = 0;
    while i < n
        invariant
            i <= n,
            n <= toks.len(),
            forall|k: int|
                0 <= k < i ==> !is_redir_tok(#[trigger] toks.deep_view().take(n as int)[k]),
        decreases n - i,
    {
        let gt = token_is(&toks[i], GT);
        let lt = token_is(&toks[i], LT);
        proof {
            assert(toks.deep_view().take(n as int)[i as int] =~= toks@[i as int]@);
        }
        if gt || lt {
            proof {
                lemma_first_redir_idx(toks.deep_view().take(n as int), i as int);
            }
            return Some(i);
        }
        i += 1;
    }
    proof {
        if has_redir(toks.deep_view().take(n as int)) {
            let k = choose|k: int|
                0 <= k < toks.deep_view().take(n as int).len() && is_redir_tok(
                    #[trigger] toks.deep_view().take(n as int)[k],
                );
            assert(!is_redir_tok(toks.deep_view().take(n as int)[k]));
        }
    }
    None
}

/// Clones the first `n` tokens into a fresh command vector.
fn clone_tokens_prefix(toks: &Vec<Vec<u8>>, n: usize) -> (r: Vec<Vec<u8>>)
    requires
        n <= toks.len(),
    ensures
        r.deep_view() == toks.deep_view().take(n as int),
{
    let mut r: Vec<Vec<u8>> = Vec::new();
    let mut i: usize = 0;
    proof {
        assert(r.deep_view() =~~= toks.deep_view().take(0));
    }
    while i < n
        invariant
            i <= n,
            n <= toks.len(),
            r.deep_view() == toks.deep_view().take(i as int),
        decreases n - i,
    {
        let t = copy_prefix(&toks[i], toks[i].len());
        let ghost tdeep = t.deep_view();
        proof {
            assert(t@.take(t@.len() as int) =~= t@);
            assert(tdeep =~= toks.deep_view()[i as int]);
        }
        let ghost r0 = r.deep_view();
        r.push(t);
        proof {
            assert(r.deep_view() =~~= r0.push(tdeep));
            assert(toks.deep_view().take(i as int + 1) =~~= r0.push(tdeep));
        }
        i += 1;
    }
    r
}

/// Turns one raw line into a job, an empty result, or a parse error,
/// exactly as `classify_spec` describes.
pub fn classify(line: &Vec<u8>) -> (r: Result<Option<Job>, ParseError>)
    ensures
        classify_matches(r, classify_spec(line@)),
        (match r {
            Ok(Some(j)) => job_wf(j@),
            _ => true,
        }),
{
    proof {
        crate::job::lemma_classify_wf(line@);
    }
    let toks = tokenize(line);
    let n = toks.len();
    if n == 0 {
        return Ok(None);
    }
    let bg = token_is(&toks[n - 1], AMP);
    proof {
        assert(toks@[n as int - 1]@ =~= toks.deep_view()[n as int - 1]);
        assert(bg == spec_background(tokens(line@)));
    }
    let nb = if bg {
        n - 1
    } else {
        n
    };
    let ghost tb = body_tokens(tokens(line@));
    proof {
        assert(tb =~~= toks.deep_view().take(nb as int));
    }
    if nb == 0 {
        return Err(ParseError::EmptyCommand);
    }
    if contains_tok(&toks, nb, BAR) {
        proof {
            assert(tb.contains(seq![BAR]));
        }
        let body = if bg {
            strip_bg_line(line)
        } else {
            copy_prefix(line, line.len())
        };
        proof {
            assert(line@.take(line@.len() as int) =~= line@);
        }
        let segs = split_on_pipe(&body);
        let ghost cmds = stage_cmds(body@);
        let mut stages: Vec<Vec<Vec<u8>>> = Vec::new();
        let mut k: usize = 0;
        proof {
            assert(stages.deep_view() =~~= cmds.take(0));
        }
        while k < segs.len()
            invariant
                k <= segs.len(),
                tokens(line@).len() > 0,
                bg == spec_background(tokens(line@)),
                tb == body_tokens(tokens(line@)),
                tb.len() > 0,
                tb.contains(seq![BAR]),
                body@ == (if bg {
                    strip_bg_raw(line@)
                } else {
                    line@
                }),
                segs.deep_view() == split_pipe(body@),
                cmds == stage_cmds(body@),
                cmds.len() == segs@.len(),
                stages.deep_view() == cmds.take(k as int),
                forall|j: int| 0 <= j < k ==> (#[trigger] cmds[j]).len() > 0,
            decreases segs.len() - k,
        {
            let c = tokenize(&segs[k]);
            proof {
                assert(segs@[k as int]@ =~= segs.deep_view()[k as int]);
                assert(cmds[k as int] == tokens(segs.deep_view()[k as int]));
                assert(c.deep_view() == cmds[k as int]);
            }
            if c.len() == 0 {
                proof {
                    assert(cmds[k as int].len() == 0);
                    assert(has_empty_stage(cmds));
                }
                return Err(ParseError::EmptyStage);
            }
            let ghost st0 = stages.deep_view();
            let ghost cdeep = c.deep_view();
            stages.push(c);
            proof {
                assert(stages.deep_view() =~~= st0.push(cdeep));
                assert(cmds.take(k as int + 1) =~~= st0.push(cdeep));
            }
            k += 1;
        }
        proof {
            assert(stages.deep_view() =~~= cmds);
            if has_empty_stage(cmds) {
                let j = choose|j: int| 0 <= j < cmds.len() && (#[trigger] cmds[j]).len() == 0;
                assert(cmds[j].len() > 0);
            }
        }
        let j = Job { stages, redirect: None, background: bg };
        return Ok(Some(j));
    }
    match find_redir(&toks, nb) {
        Some(p) => {
            proof {
                assert(is_redir_tok(tb[p as int]));
                assert(has_redir(tb));
            }
            if p == 0 {
                return Err(ParseError::EmptyCommand);
            }
            if p + 1 >= nb {
                return Err(ParseError::MissingRedirectPath);
            }
            let cmd = clone_tokens_prefix(&toks, p);
            proof {
                assert(cmd.deep_view() =~~= tb.take(p as int));
            }
            let out = token_is(&toks[p], GT);
            let kind = if out {
                RedirKind::Out
            } else {
                RedirKind::In
            };
            let path = copy_prefix(&toks[p + 1], toks[p + 1].len());
            proof {
                assert(toks@[p + 1 as int]@.take(toks@[p + 1 as int]@.len() as int) =~= toks@[p
                    + 1 as int]@);
                assert(toks@[p + 1 as int]@ =~= toks.deep_view()[p + 1 as int]);
                assert(path@ == tb[p as int + 1]);
                assert(toks@[p as int]@ =~= toks.deep_view()[p as int]);
                assert(toks@[p as int]@ == tb[p as int]);
            }
            let mut stv: Vec<Vec<Vec<u8>>> = Vec::new();
            let ghost cmddeep = cmd.deep_view();
            stv.push(cmd);
            proof {
                assert(stv.deep_view() =~~= seq![cmddeep]);
            }
            let j = Job { stages: stv, redirect: Some(Redirect { kind, path }), background: bg };
            proof {
                assert(j@.stages =~~= seq![tb.take(p as int)]);
            }
            return Ok(Some(j));
        },
        None => {
            let cmd = clone_tokens_prefix(&toks, nb);
            proof {
                assert(cmd.deep_view() =~~= tb);
            }
            let mut stv: Vec<Vec<Vec<u8>>> = Vec::new();
            let ghost cmddeep = cmd.deep_view();
            stv.push(cmd);
            proof {
                assert(stv.deep_view() =~~= seq![cmddeep]);
                assert(stv.deep_view() =~~= seq![tb]);
            }
            let j = Job { stages: stv, redirect: None, background: bg };
            return Ok(Some(j));
        },
    }
}

} // verus!
