use vstd::prelude::*;

use crate::marker::Marker;

verus! {

/// The three cells `x`, `y`, `z` of board `b` all hold marker `m`.
pub open spec fn line_won(b: Seq<Option<Marker>>, m: Marker, x: int, y: int, z: int) -> bool {
    &&& b[x] == Some(m)
    &&& b[y] == Some(m)
    &&& b[z] == Some(m)
}

/// `m` owns one of the eight winning lines of `b`: three rows, three
/// columns, two diagonals.
pub open spec fn wins(b: Seq<Option<Marker>>, m: Marker) -> bool {
    ||| line_won(b, m, 0, 1, 2)
    ||| line_won(b, m, 3, 4, 5)
    ||| line_won(b, m, 6, 7, 8)
    ||| line_won(b, m, 0, 3, 6)
    ||| line_won(b, m, 1, 4, 7)
    ||| line_won(b, m, 2, 5, 8)
    ||| line_won(b, m, 0, 4, 8)
    ||| line_won(b, m, 2, 4, 6)
}

/// `m` owns a winning line of `b` that passes through cell `c`.
pub open spec fn wins_through(b: Seq<Option<Marker>>, m: Marker, c: int) -> bool {
    ||| (line_won(b, m, 0, 1, 2) && (c == 0 || c == 1 || c == 2))
    ||| (line_won(b, m, 3, 4, 5) && (c == 3 || c == 4 || c == 5))
    ||| (line_won(b, m, 6, 7, 8) && (c == 6 || c == 7 || c == 8))
    ||| (line_won(b, m, 0, 3, 6) && (c == 0 || c == 3 || c == 6))
    ||| (line_won(b, m, 1, 4, 7) && (c == 1 || c == 4 || c == 7))
    ||| (line_won(b, m, 2, 5, 8) && (c == 2 || c == 5 || c == 8))
    ||| (line_won(b, m, 0, 4, 8) && (c == 0 || c == 4 || c == 8))
    ||| (line_won(b, m, 2, 4, 6) && (c == 2 || c == 4 || c == 6))
}

/// Placing a marker creates no winning line besides those that pass
/// through the cell just played: after `a` plays the free cell `c`,
/// any winner either already won or is `a` with a line through `c`.
pub proof fn lemma_wins_update(b: Seq<Option<Marker>>, m: Marker, c: int, a: Marker)
    requires
        b.len() == 9,
        0 <= c < 9,
        b[c] is None,
    ensures
        wins(b.update(c, Some(a)), m) <==> (wins(b, m) || (m == a && wins_through(
            b.update(c, Some(a)),
            a,
            c,
        ))),
{
}

/// A winning line through a cell is in particular a winning line.
pub proof fn lemma_wins_through_implies_wins(b: Seq<Option<Marker>>, m: Marker, c: int)
    requires
        wins_through(b, m, c),
    ensures
        wins(b, m),
{
}

/// The stored triple `l` names the cells `x`, `y`, `z`.
pub open spec fn line_is(l: [u8; 3], x: u8, y: u8, z: u8) -> bool {
    &&& l@[0] == x
    &&& l@[1] == y
    &&& l@[2] == z
}

/// Marker `m` occupies every cell of the stored triple `l`.
pub open spec fn marker_in_all_positions(b: Seq<Option<Marker>>, m: Marker, l: [u8; 3]) -> bool {
    &&& b[l@[0] as int] == Some(m)
    &&& b[l@[1] as int] == Some(m)
    &&& b[l@[2] as int] == Some(m)
}

/// The winning-line table is sound and complete: entry `c` lists
/// exactly the winning lines that pass through cell `c`, in the fixed
/// order the engine was built with.
pub open spec fn table_wf(t: Seq<Vec<[u8; 3]>>) -> bool {
    &&& t.len() == 9
    &&& t[0]@.len() == 3
    &&& line_is(t[0]@[0], 0, 1, 2)
    &&& line_is(t[0]@[1], 0, 4, 8)
    &&& line_is(t[0]@[2], 0, 3, 6)
    &&& t[1]@.len() == 2
    &&& line_is(t[1]@[0], 0, 1, 2)
    &&& line_is(t[1]@[1], 1, 4, 7)
    &&& t[2]@.len() == 3
    &&& line_is(t[2]@[0], 0, 1, 2)
    &&& line_is(t[2]@[1], 2, 5, 8)
    &&& line_is(t[2]@[2], 2, 4, 6)
    &&& t[3]@.len() == 2
    &&& line_is(t[3]@[0], 0, 3, 6)
    &&& line_is(t[3]@[1], 3, 4, 5)
    &&& t[4]@.len() == 4
    &&& line_is(t[4]@[0], 1, 4, 7)
    &&& line_is(t[4]@[1], 3, 4, 5)
    &&& line_is(t[4]@[2], 2, 4, 6)
    &&& line_is(t[4]@[3], 0, 4, 8)
    &&& t[5]@.len() == 2
    &&& line_is(t[5]@[0], 3, 4, 5)
    &&& line_is(t[5]@[1], 2, 5, 8)
    &&& t[6]@.len() == 3
    &&& line_is(t[6]@[0], 6, 7, 8)
    &&& line_is(t[6]@[1], 0, 3, 6)
    &&& line_is(t[6]@[2], 2, 4, 6)
    &&& t[7]@.len() == 2
    &&& line_is(t[7]@[0], 6, 7, 8)
    &&& line_is(t[7]@[1], 1, 4, 7)
    &&& t[8]@.len() == 3
    &&& line_is(t[8]@[0], 6, 7, 8)
    &&& line_is(t[8]@[1], 2, 5, 8)
    &&& line_is(t[8]@[2], 0, 4, 8)
}

/// A fully occupied triple from the table of cell `c` witnesses a
/// winning line through `c`.
pub proof fn lemma_table_line_wins_through(
    t: Seq<Vec<[u8; 3]>>,
    b: Seq<Option<Marker>>,
    m: Marker,
    c: int,
    k: int,
)
    requires
        table_wf(t),
        0 <= c < 9,
        0 <= k < t[c]@.len(),
        marker_in_all_positions(b, m, t[c]@[k]),
    ensures
        wins_through(b, m, c),
{
}

/// If no triple stored under cell `c` is fully occupied by `m`, then
/// `m` owns no winning line through `c`.
pub proof fn lemma_table_complete(
    t: Seq<Vec<[u8; 3]>>,
    b: Seq<Option<Marker>>,
    m: Marker,
    c: int,
)
    requires
        table_wf(t),
        0 <= c < 9,
        forall|k: int| 0 <= k < t[c]@.len() ==> !marker_in_all_positions(b, m, t[c]@[k]),
    ensures
        !wins_through(b, m, c),
{
    if c == 0 || c == 1 || c == 2 || c == 3 {
        assert(!marker_in_all_positions(b, m, t[c]@[0]));
        assert(!marker_in_all_positions(b, m, t[c]@[1]));
    }
    if c == 0 || c == 2 {
        assert(!marker_in_all_positions(b, m, t[c]@[2]));
    }
    if c == 4 {
        assert(!marker_in_all_positions(b, m, t[4]@[0]));
        assert(!marker_in_all_positions(b, m, t[4]@[1]));
        assert(!marker_in_all_positions(b, m, t[4]@[2]));
        assert(!marker_in_all_positions(b, m, t[4]@[3]));
    }
    if c == 5 || c == 6 || c == 7 || c == 8 {
        assert(!marker_in_all_positions(b, m, t[c]@[0]));
        assert(!marker_in_all_positions(b, m, t[c]@[1]));
    }
    if c == 6 || c == 8 {
        assert(!marker_in_all_positions(b, m, t[c]@[2]));
    }
}

/// The fixed table that maps each cell to the winning lines through
/// it: 3 horizontal rows, 3 vertical columns and 2 diagonals, 8 lines
/// in all, each listed under each of its three cells.
pub fn get_winning_plays() -> (t: Vec<Vec<[u8; 3]>>)
    ensures
        table_wf(t@),
{
    let mut t: Vec<Vec<[u8; 3]>> = Vec::new();
    t.push(vec![[0u8, 1, 2], [0u8, 4, 8], [0u8, 3, 6]]);
    t.push(vec![[0u8, 1, 2], [1u8, 4, 7]]);
    t.push(vec![[0u8, 1, 2], [2u8, 5, 8], [2u8, 4, 6]]);
    t.push(vec![[0u8, 3, 6], [3u8, 4, 5]]);
    t.push(vec![[1u8, 4, 7], [3u8, 4, 5], [2u8, 4, 6], [0u8, 4, 8]]);
    t.push(vec![[3u8, 4, 5], [2u8, 5, 8]]);
    t.push(vec![[6u8, 7, 8], [0u8, 3, 6], [2u8, 4, 6]]);
    t.push(vec![[6u8, 7, 8], [1u8, 4, 7]]);
    t.push(vec![[6u8, 7, 8], [2u8, 5, 8], [0u8, 4, 8]]);
    t
}

} // verus!
