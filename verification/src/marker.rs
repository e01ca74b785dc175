use vstd::prelude::*;

verus! {

/// The two players' markers. `First` always opens the game and is
/// conventionally rendered as "X"; `Second` is rendered as "O".
#[derive(Clone, Copy, PartialEq, Eq, Structural, Debug)]
pub enum Marker {
    First,
    Second,
}

/// The opponent of `m`.
pub open spec fn other(m: Marker) -> Marker {
    match m {
        Marker::First => Marker::Second,
        Marker::Second => Marker::First,
    }
}

} // verus!
