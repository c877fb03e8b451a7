//! Moving the caret, and what the engine remembers of it.

use vstd::prelude::*;

verus! {

/// A place in the text: a line, and a column counted in characters.
#[derive(Debug, Clone, Copy, PartialEq, Eq, Structural)]
pub struct Position {
    pub line: usize,
    pub col: usize,
}

/// Why the caret moves.
#[derive(Debug, Clone, Copy, PartialEq, Eq, Structural)]
pub enum CursorMoveType {
    /// A motion: nothing is remembered.
    Step,
    /// A jump: the place left behind joins the jump list and becomes the last
    /// jump.
    Jump,
    /// The return to a remembered place: the place left behind becomes the
    /// last jump, and the jump list, which is being walked, stays as it is.
    JumpRestoration,
}

impl CursorMoveType {
    /// The name of the variant.
    pub open spec fn name(self) -> Seq<char> {
        match self {
            CursorMoveType::Step => "Step"@,
            CursorMoveType::Jump => "Jump"@,
            CursorMoveType::JumpRestoration => "JumpRestoration"@,
        }
    }

    /// The name of the variant.
    pub fn label(self) -> (r: &'static str)
        ensures
            r@ == self.name(),
    {
        match self {
            CursorMoveType::Step => "Step",
            CursorMoveType::Jump => "Jump",
            CursorMoveType::JumpRestoration => "JumpRestoration",
        }
    }
}

/// What one move asks of the editor and of the engine's state.
#[derive(Debug, Clone, Copy, PartialEq, Eq, Structural)]
pub struct CursorMove {
    /// The place to push to the jump list.
    pub push_jump: Option<Position>,
    /// The place to remember as the last jump.
    pub last_jump: Option<Position>,
    /// Where the caret goes, in the editor and in the engine.
    pub target: Position,
}

/// What a move asks for.
pub open spec fn tracked_move(
    current: Position,
    target: Position,
    move_type: CursorMoveType,
) -> CursorMove {
    CursorMove {
        push_jump: if move_type == CursorMoveType::Jump {
            Some(current)
        } else {
            None
        },
        last_jump: if move_type == CursorMoveType::Step {
            None
        } else {
            Some(current)
        },
        target,
    }
}

/// A motion remembers nothing; a jump remembers the place it left, and lists it;
/// the return to a remembered place remembers what it left and lists nothing.
/// The caret goes where it is sent in any case.
pub proof fn only_a_jump_joins_the_jump_list(
    current: Position,
    target: Position,
    move_type: CursorMoveType,
)
    ensures
        ({
            let r = tracked_move(current, target, move_type);
            &&& r.target == target
            &&& r.push_jump is Some <==> move_type is Jump
            &&& r.push_jump matches Some(place) ==> place == current
            &&& r.last_jump is None <==> move_type is Step
            &&& r.last_jump matches Some(place) ==> place == current
        }),
{
}

/// Move the caret from where it is to a target, and track the move.
///
/// A jump is pushed whatever the distance, also onto the place it left.
pub fn move_cursor_with_tracking(
    current: Position,
    target: Position,
    move_type: CursorMoveType,
) -> (r: CursorMove)
    ensures
        r == tracked_move(current, target, move_type),
        r.target == target,
        r.push_jump == (if move_type == CursorMoveType::Jump {
            Some(current)
        } else {
            None
        }),
        r.last_jump == (if move_type == CursorMoveType::Step {
            None
        } else {
            Some(current)
        }),
{
    match move_type {
        CursorMoveType::Jump => CursorMove {
            push_jump: Some(current),
            last_jump: Some(current),
            target,
        },
        CursorMoveType::JumpRestoration => CursorMove {
            push_jump: None,
            last_jump: Some(current),
            target,
        },
        CursorMoveType::Step => CursorMove { push_jump: None, last_jump: None, target },
    }
}

} // verus!
