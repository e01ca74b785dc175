use vstd::prelude::*;

use crate::marker::Marker;

verus! {

/// How many of the first `n` cells of `b` hold a marker.
pub open spec fn num_played_upto(b: Seq<Option<Marker>>, n: int) -> int
    decreases n,
{
    if n <= 0 {
        0
    } else {
        num_played_upto(b, n - 1) + if b[n - 1] is Some {
            1int
        } else {
            0int
        }
    }
}

/// How many cells of `b` hold a marker.
pub open spec fn num_played(b: Seq<Option<Marker>>) -> int {
    num_played_upto(b, b.len() as int)
}

pub proof fn lemma_num_played_upto_bounds(b: Seq<Option<Marker>>, n: int)
    ensures
        0 <= num_played_upto(b, n),
        num_played_upto(b, n) <= n || n < 0,
    decreases n,
{
    if n > 0 {
        lemma_num_played_upto_bounds(b, n - 1);
    }
}

pub proof fn lemma_num_played_bounds(b: Seq<Option<Marker>>)
    ensures
        0 <= num_played(b) <= b.len(),
{
    lemma_num_played_upto_bounds(b, b.len() as int);
}

/// Writing a marker into an empty cell raises the count of played
/// cells by exactly one.
pub proof fn lemma_num_played_upto_update(
    b: Seq<Option<Marker>>,
    i: int,
    m: Marker,
    n: int,
)
    requires
        0 <= i < b.len(),
        b[i] is None,
        n <= b.len(),
    ensures
        num_played_upto(b.update(i, Some(m)), n) == num_played_upto(b, n) + if i < n {
            1int
        } else {
            0int
        },
    decreases n,
{
    if n > 0 {
        lemma_num_played_upto_update(b, i, m, n - 1);
    }
}

pub proof fn lemma_num_played_update(b: Seq<Option<Marker>>, i: int, m: Marker)
    requires
        0 <= i < b.len(),
        b[i] is None,
    ensures
        num_played(b.update(i, Some(m))) == num_played(b) + 1,
{
    lemma_num_played_upto_update(b, i, m, b.len() as int);
}

pub proof fn lemma_num_played_upto_lt(b: Seq<Option<Marker>>, c: int, n: int)
    requires
        0 <= c < n <= b.len(),
        b[c] is None,
    ensures
        num_played_upto(b, n) <= n - 1,
    decreases n,
{
    lemma_num_played_upto_bounds(b, n - 1);
    if c < n - 1 {
        lemma_num_played_upto_lt(b, c, n - 1);
    }
}

/// A board with a free cell is not full.
pub proof fn lemma_num_played_lt(b: Seq<Option<Marker>>, c: int)
    requires
        0 <= c < b.len(),
        b[c] is None,
    ensures
        num_played(b) < b.len(),
{
    lemma_num_played_upto_lt(b, c, b.len() as int);
}

/// A board where the first `n` cells are empty has no played cell
/// among them.
pub proof fn lemma_num_played_upto_all_none(b: Seq<Option<Marker>>, n: int)
    requires
        forall|i: int| 0 <= i < n ==> b[i] is None,
    ensures
        num_played_upto(b, n) == 0,
    decreases n,
{
    if n > 0 {
        lemma_num_played_upto_all_none(b, n - 1);
    }
}

/// The 3-by-3 grid. Cell `i` (row-major, so `i = row * 3 + col`) holds
/// the marker played there, or `None` while the cell is free.
pub struct Board {
    pub spaces: Vec<Option<Marker>>,
}

impl View for Board {
    type V = Seq<Option<Marker>>;

    open spec fn view(&self) -> Seq<Option<Marker>> {
        self.spaces@
    }
}

impl Board {
    /// A board is well formed when it has exactly the nine cells.
    pub open spec fn wf(&self) -> bool {
        self@.len() == 9
    }

    pub fn new() -> (b: Board)
        ensures
            b.wf(),
            forall|i: int| 0 <= i < 9 ==> b@[i] is None,
            num_played(b@) == 0,
    {
        let mut spaces: Vec<Option<Marker>> = Vec::new();
        let mut i: usize = 0;
        while i < 9
            invariant
                i <= 9,
                spaces@.len() == i,
                forall|k: int| 0 <= k < i ==> spaces@[k] is None,
            decreases 9 - i,
        {
            spaces.push(None);
            i = i + 1;
        }
        proof {
            lemma_num_played_upto_all_none(spaces@, 9);
        }
        Board { spaces }
    }

    /// Writes `marker` into the cell `space`, whether or not the cell
    /// was free; legality is the caller's concern.
    pub fn play(&mut self, space: u8, marker: Marker)
        requires
            old(self).wf(),
            space < 9,
        ensures
            final(self).wf(),
            final(self)@ == old(self)@.update(space as int, Some(marker)),
    {
        self.spaces.set(space as usize, Some(marker));
    }

    /// How many cells currently hold a marker.
    pub fn count_played(&self) -> (n: usize)
        requires
            self.wf(),
        ensures
            n == num_played(self@),
    {
        let mut n: usize = 0;
        let mut i: usize = 0;
        while i < 9
            invariant
                self.wf(),
                i <= 9,
                n <= i,
                n == num_played_upto(self@, i as int),
            decreases 9 - i,
        {
            if self.spaces[i].is_some() {
                n = n + 1;
            }
            i = i + 1;
        }
        n
    }

    pub fn is_full(&self) -> (r: bool)
        requires
            self.wf(),
        ensures
            r == (num_played(self@) == 9),
    {
        self.count_played() == 9
    }

    pub fn is_empty(&self) -> (r: bool)
        requires
            self.wf(),
        ensures
            r == (num_played(self@) == 0),
    {
        self.count_played() == 0
    }

    pub fn is_space_played(&self, space: u8) -> (r: bool)
        requires
            self.wf(),
        ensures
            r == (space < 9 && self@[space as int] is Some),
    {
        space < 9 && self.spaces[space as usize].is_some()
    }

    pub fn get_space_marker(&self, space: u8) -> (r: Option<Marker>)
        requires
            self.wf(),
        ensures
            r == if space < 9 {
                self@[space as int]
            } else {
                None::<Marker>
            },
    {
        if space < 9 {
            self.spaces[space as usize]
        } else {
            None
        }
    }
}

} // verus!
