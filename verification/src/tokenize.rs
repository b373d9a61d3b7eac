use vstd::prelude::*;

verus! {

/// The bytes the tokenizer treats as separators: ASCII space, tab,
/// line feed, vertical tab, form feed and carriage return.
pub open spec fn is_space(b: u8) -> bool {
    b == 32 || b == 9 || b == 10 || b == 11 || b == 12 || b == 13
}

/// Executable test for a separator byte, equal to `is_space`.
pub fn byte_is_space(b: u8) -> (r: bool)
    ensures
        r == is_space(b),
{
    b == 32 || b == 9 || b == 10 || b == 11 || b == 12 || b == 13
}

/// The tokens found in `s` when the token `cur` has already been begun:
/// scanning left to right, a separator byte ends the token begun so far
/// and any other byte extends it.
pub open spec fn tokens_from(s: Seq<u8>, cur: Seq<u8>) -> Seq<Seq<u8>>
    decreases s.len(),
{
    if s.len() == 0 {
        if cur.len() == 0 {
            Seq::empty()
        } else {
            seq![cur]
        }
    } else if is_space(s[0]) {
        if cur.len() == 0 {
            tokens_from(s.skip(1), Seq::empty())
        } else {
            seq![cur] + tokens_from(s.skip(1), Seq::empty())
        }
    } else {
        tokens_from(s.skip(1), cur.push(s[0]))
    }
}

/// The tokens of a raw line: its maximal runs of non-separator bytes,
/// in order.
pub open spec fn tokens(s: Seq<u8>) -> Seq<Seq<u8>> {
    tokens_from(s, Seq::empty())
}

/// No token is empty: a token is only ever emitted once at least one
/// non-separator byte has been seen.
pub proof fn lemma_tokens_nonempty(s: Seq<u8>, cur: Seq<u8>)
    ensures
        forall|k: int|
            0 <= k < tokens_from(s, cur).len() ==> (#[trigger] tokens_from(s, cur)[k]).len() > 0,
    decreases s.len(),
{
    if s.len() == 0 {
    } else if is_space(s[0]) {
        lemma_tokens_nonempty(s.skip(1), Seq::empty());
        if cur.len() > 0 {
            assert forall|k: int| 0 <= k < tokens_from(s, cur).len() implies (#[trigger] tokens_from(
                s,
                cur,
            )[k]).len() > 0 by {
                if k > 0 {
                    assert(tokens_from(s, cur)[k] == tokens_from(s.skip(1), Seq::<u8>::empty())[k
                        - 1]);
                }
            }
        } else {
            assert forall|k: int| 0 <= k < tokens_from(s, cur).len() implies (#[trigger] tokens_from(
                s,
                cur,
            )[k]).len() > 0 by {
                assert(tokens_from(s, cur)[k] == tokens_from(s.skip(1), Seq::<u8>::empty())[k]);
            }
        }
    } else {
        lemma_tokens_nonempty(s.skip(1), cur.push(s[0]));
        assert forall|k: int| 0 <= k < tokens_from(s, cur).len() implies (#[trigger] tokens_from(
            s,
            cur,
        )[k]).len() > 0 by {
            assert(tokens_from(s, cur)[k] == tokens_from(s.skip(1), cur.push(s[0]))[k]);
        }
    }
}

/// Splits a raw line into its whitespace-separated tokens.
pub fn tokenize(line: &Vec<u8>) -> (r: Vec<Vec<u8>>)
    ensures
        r.deep_view() == tokens(line@),
{
    let mut done: Vec<Vec<u8>> = Vec::new();
    let mut cur: Vec<u8> = Vec::new();
    let mut i: usize = 0;
    proof {
        assert(line@.skip(0) =~= line@);
        assert(done.deep_view() + tokens_from(line@, cur@) =~~= tokens_from(line@, cur@));
    }
    while i < line.len()
        invariant
            i <= line.len(),
            tokens(line@) == done.deep_view() + tokens_from(line@.skip(i as int), cur@),
        decreases line.len() - i,
    {
        let ghost rest = line@.skip(i as int);
        proof {
            assert(rest[0] == line@[i as int]);
            assert(rest.skip(1) =~= line@.skip(i as int + 1));
        }
        let b = line[i];
        if byte_is_space(b) {
            if cur.len() > 0 {
                let ghost done0 = done.deep_view();
                let ghost cur0 = cur@;
                done.push(cur);
                cur = Vec::new();
                proof {
                    assert(done.deep_view() =~~= done0.push(cur0));
                    assert(tokens_from(rest, cur0) == seq![cur0] + tokens_from(
                        rest.skip(1),
                        Seq::<u8>::empty(),
                    ));
                    assert(done0 + (seq![cur0] + tokens_from(rest.skip(1), Seq::<u8>::empty()))
                        =~~= done0.push(cur0) + tokens_from(rest.skip(1), Seq::<u8>::empty()));
                    assert(rest.skip(1) == line@.skip(i as int + 1));
                    assert(cur@ == Seq::<u8>::empty());
                    assert(tokens(line@) == done.deep_view() + tokens_from(
                        line@.skip(i as int + 1),
                        cur@,
                    ));
                }
            } else {
                proof {
                    assert(cur@ =~= Seq::<u8>::empty());
                    assert(tokens_from(rest, cur@) == tokens_from(
                        rest.skip(1),
                        Seq::<u8>::empty(),
                    ));
                    assert(tokens(line@) == done.deep_view() + tokens_from(
                        line@.skip(i as int + 1),
                        cur@,
                    ));
                }
            }
        } else {
            let ghost cur0 = cur@;
            cur.push(b);
            proof {
                assert(tokens_from(rest, cur0) == tokens_from(rest.skip(1), cur0.push(b)));
                assert(tokens(line@) == done.deep_view() + tokens_from(
                    line@.skip(i as int + 1),
                    cur@,
                ));
            }
        }
        i = i + 1;
    }
    proof {
        assert(line@.skip(line@.len() as int) =~= Seq::<u8>::empty());
    }
    if cur.len() > 0 {
        let ghost done0 = done.deep_view();
        let ghost cur0 = cur@;
        done.push(cur);
        proof {
            assert(done.deep_view() =~~= done0.push(cur0));
            assert(done0 + seq![cur0] =~~= done0.push(cur0));
        }
    } else {
        proof {
            assert(done.deep_view() + Seq::<Seq<u8>>::empty() =~~= done.deep_view());
        }
    }
    done
}

} // verus!
