//! The BFS frontier: a first-in first-out queue of URLs with their depths.
use std::collections::VecDeque;
use vstd::prelude::*;

verus! {

/// The queue of URLs waiting to be crawled, each with its depth.
pub struct Frontier {
    queue: VecDeque<(String, usize)>,
}

/// The view of one queued entry.
pub open spec fn entry_view(e: (String, usize)) -> (Seq<char>, usize) {
    (e.0@, e.1)
}

impl View for Frontier {
    type V = Seq<(Seq<char>, usize)>;

    /// The queued entries, front first.
    closed spec fn view(&self) -> Seq<(Seq<char>, usize)> {
        self.queue@.map_values(|e: (String, usize)| entry_view(e))
    }
}

impl Frontier {
    /// An empty frontier.
    pub fn new() -> (f: Frontier)
        ensures
            f@ == Seq::<(Seq<char>, usize)>::empty(),
    {
        let f = Frontier { queue: VecDeque::new() };
        assert(f@ =~= Seq::<(Seq<char>, usize)>::empty());
        f
    }

    /// Adds `url` at depth `depth` at the back of the queue.
    pub fn push(&mut self, url: String, depth: usize)
        ensures
            final(self)@ == old(self)@.push((url@, depth)),
    {
        self.queue.push_back((url, depth));
        assert(self@ =~= old(self)@.push((url@, depth)));
    }

    /// Removes and returns the entry at the front of the queue, if any.
    pub fn pop(&mut self) -> (r: Option<(String, usize)>)
        ensures
            match r {
                Some(e) => old(self)@.len() > 0 && entry_view(e) == old(self)@[0] && final(self)@
                    == old(self)@.drop_first(),
                None => old(self)@.len() == 0 && final(self)@ == old(self)@,
            },
    {
        let r = self.queue.pop_front();
        assert(self@ =~= if r is Some {
            old(self)@.drop_first()
        } else {
            old(self)@
        });
        r
    }

    /// The number of queued entries.
    pub fn len(&self) -> (n: usize)
        ensures
            n == self@.len(),
    {
        self.queue.len()
    }

    /// Whether the queue is empty.
    pub fn is_empty(&self) -> (b: bool)
        ensures
            b == (self@.len() == 0),
    {
        self.queue.len() == 0
    }
}

/// First in, first out: after `x` is pushed onto a queue that holds `q`,
/// popping `q.len() + 1` times yields the entries of `q` in order and then
/// `x`; the push changes nothing in front of it.
pub proof fn lemma_fifo(q: Seq<(Seq<char>, usize)>, x: (Seq<char>, usize), k: int)
    requires
        0 <= k <= q.len(),
    ensures
        q.push(x).skip(k)[0] == if k < q.len() {
            q[k]
        } else {
            x
        },
        q.push(x).skip(k).len() == q.len() - k + 1,
{
}

} // verus!
