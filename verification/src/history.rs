use vstd::prelude::*;
use crate::parse::copy_prefix;

verus! {

/// True of the line that recalls the previous command: exactly `!!`.
pub open spec fn is_recall(line: Seq<u8>) -> bool {
    line == seq![33u8, 33u8]
}

/// Executable test for the recall line.
pub fn line_is_recall(line: &Vec<u8>) -> (r: bool)
    ensures
        r == is_recall(line@),
{
    if line.len() == 2 {
        let e = line[0] == 33 && line[1] == 33;
        proof {
            if e {
                assert(line@ =~= seq![33u8, 33u8]);
            }
        }
        e
    } else {
        proof {
            assert(seq![33u8, 33u8].len() == 2);
        }
        false
    }
}

/// An ordered, append-only record of the raw lines the interpreter has
/// run, passed explicitly through the read loop.
pub struct History {
    entries: Vec<Vec<u8>>,
}

impl View for History {
    type V = Seq<Seq<u8>>;

    closed spec fn view(&self) -> Seq<Seq<u8>> {
        self.entries.deep_view()
    }
}

impl History {
    /// An empty history.
    pub fn new() -> (h: History)
        ensures
            h@ == Seq::<Seq<u8>>::empty(),
    {
        let h = History { entries: Vec::new() };
        proof {
            assert(h@ =~~= Seq::<Seq<u8>>::empty());
        }
        h
    }

    /// How many lines have been recorded.
    pub fn len(&self) -> (n: usize)
        ensures
            n == self@.len(),
    {
        self.entries.len()
    }

    /// Appends one run line.
    pub fn record(&mut self, line: &Vec<u8>)
        ensures
            final (self)@ == old(self)@.push(line@),
    {
        let c = copy_prefix(line, line.len());
        let ghost d0 = self.entries.deep_view();
        let ghost cdeep = c.deep_view();
        self.entries.push(c);
        proof {
            assert(cdeep =~= line@);
            assert(self.entries.deep_view() =~~= d0.push(line@));
        }
    }

    /// The most recently recorded line, or nothing when none has been.
    pub fn recall_last(&self) -> (r: Option<Vec<u8>>)
        ensures
            (match r {
                Some(l) => self@.len() > 0 && l@ == self@.last(),
                None => self@.len() == 0,
            }),
    {
        let n = self.entries.len();
        if n == 0 {
            None
        } else {
            let l = copy_prefix(&self.entries[n - 1], self.entries[n - 1].len());
            proof {
                assert(l@ =~= self.entries@[n as int - 1]@);
                assert(self@[n as int - 1] =~= self.entries@[n as int - 1]@);
            }
            Some(l)
        }
    }
}

/// The line that actually runs: `!!` recalls the last recorded line
/// and yields nothing when the history is empty; any other line runs
/// itself.
pub open spec fn spec_resolve(line: Seq<u8>, h: Seq<Seq<u8>>) -> Option<Seq<u8>> {
    if is_recall(line) {
        if h.len() == 0 {
            None
        } else {
            Some(h.last())
        }
    } else {
        Some(line)
    }
}

/// Resolves one raw line against the history, as `spec_resolve` says.
pub fn resolve_line(line: &Vec<u8>, h: &History) -> (r: Option<Vec<u8>>)
    ensures
        (match r {
            Some(l) => spec_resolve(line@, h@) == Some(l@),
            None => spec_resolve(line@, h@) is None,
        }),
{
    if line_is_recall(line) {
        h.recall_last()
    } else {
        let c = copy_prefix(line, line.len());
        proof {
            assert(c@ =~= line@);
        }
        Some(c)
    }
}

/// Recalling with `!!` re-runs the line recorded last, and recording
/// what ran grows the history by exactly one entry, which becomes the
/// new last entry.
pub proof fn lemma_history_recall(h: Seq<Seq<u8>>, prev: Seq<u8>)
    requires
        h.len() > 0,
        h.last() == prev,
    ensures
        spec_resolve(seq![33u8, 33u8], h) == Some(prev),
        h.push(prev).len() == h.len() + 1,
        h.push(prev).last() == prev,
{
}

} // verus!
