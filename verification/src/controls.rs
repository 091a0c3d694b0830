//! The camera controls: which turns the held arrow keys ask for.

use vstd::prelude::*;

use crate::input::Input;

verus! {

/// One step of camera rotation about the vertical axis.
#[derive(Debug, Clone, Copy, PartialEq, Eq, Structural)]
pub enum Turn {
    /// Rotate by the negative step.
    Left,
    /// Rotate by the positive step.
    Right,
}

/// The key code of the left arrow.
pub open spec fn arrow_left() -> Seq<char> {
    seq!['A', 'r', 'r', 'o', 'w', 'L', 'e', 'f', 't']
}

/// The key code of the right arrow.
pub open spec fn arrow_right() -> Seq<char> {
    seq!['A', 'r', 'r', 'o', 'w', 'R', 'i', 'g', 'h', 't']
}

/// The turns of one frame for a set of held keys: a left turn while the left
/// arrow is held, then a right turn while the right arrow is held.
pub open spec fn turns_for(held: Set<Seq<char>>) -> Seq<Turn> {
    (if held.contains(arrow_left()) { seq![Turn::Left] } else { Seq::empty() }) + (if held.contains(
        arrow_right(),
    ) {
        seq![Turn::Right]
    } else {
        Seq::empty()
    })
}

/// The turns that the held keys ask for in one frame, in the order in which
/// they are applied.
pub fn update(input: &Input) -> (turns: Vec<Turn>)
    ensures
        turns@ == turns_for(input.held()),
{
    proof {
        reveal_strlit("ArrowLeft");
        reveal_strlit("ArrowRight");
        assert("ArrowLeft"@ =~= arrow_left());
        assert("ArrowRight"@ =~= arrow_right());
    }
    let mut turns: Vec<Turn> = Vec::new();
    if input.is_key_down("ArrowLeft") {
        turns.push(Turn::Left);
    }
    if input.is_key_down("ArrowRight") {
        turns.push(Turn::Right);
    }
    assert(turns@ =~= turns_for(input.held()));
    turns
}

/// The camera turns only while an arrow key is held, at most one step each
/// way per frame, and a left step always comes before a right step.
pub proof fn law_turns_follow_arrows(held: Set<Seq<char>>)
    ensures
        turns_for(held).len() == 0 <==> !held.contains(arrow_left()) && !held.contains(
            arrow_right(),
        ),
        turns_for(held).len() <= 2,
        forall|i: int, j: int|
            0 <= i < j < turns_for(held).len() ==> turns_for(held)[i] == Turn::Left
                && turns_for(held)[j] == Turn::Right,
{
}

} // verus!
