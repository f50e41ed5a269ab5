use vstd::prelude::*;
use crate::game::{Action, GameInfo};
use crate::state::GameState;

verus! {

/// When an abstract raise may be used in a round.
#[derive(Clone, Copy, Debug, PartialEq, Eq, Structural)]
pub enum RaiseRoundConfig {
    NotAllowed,
    Always,
    /// Only allowed before this many raises have been made in the round
    Before(u32),
}

impl RaiseRoundConfig {
    pub open spec fn allows_spec(&self, num_raises: int) -> bool {
        match self {
            RaiseRoundConfig::NotAllowed => false,
            RaiseRoundConfig::Always => true,
            RaiseRoundConfig::Before(i) => *i > num_raises,
        }
    }

    /// Whether the raise may be used after `num_raises` raises in the round.
    pub fn allows(&self, num_raises: u8) -> (r: bool)
        ensures
            r == self.allows_spec(num_raises as int),
    {
        match self {
            RaiseRoundConfig::NotAllowed => false,
            RaiseRoundConfig::Always => true,
            RaiseRoundConfig::Before(i) => *i > num_raises as u32,
        }
    }
}

/// The legal non-raise actions of the active player: fold when legal, then
/// call when legal.
pub fn basic_actions(game_info: &GameInfo, game_state: &GameState) -> (r: Vec<Action>)
    requires
        game_state.wf(game_info),
    ensures
        r@ == (if game_state.valid_action(game_info, Action::Fold) {
            seq![Action::Fold]
        } else {
            Seq::<Action>::empty()
        }) + (if game_state.valid_action(game_info, Action::Call) {
            seq![Action::Call]
        } else {
            Seq::<Action>::empty()
        }),
{
    let mut actions: Vec<Action> = Vec::new();
    if game_state.is_valid_action(game_info, Action::Fold) {
        actions.push(Action::Fold);
    }
    if game_state.is_valid_action(game_info, Action::Call) {
        actions.push(Action::Call);
    }
    proof {
        let f = if game_state.valid_action(game_info, Action::Fold) {
            seq![Action::Fold]
        } else {
            Seq::<Action>::empty()
        };
        let c = if game_state.valid_action(game_info, Action::Call) {
            seq![Action::Call]
        } else {
            Seq::<Action>::empty()
        };
        assert(actions@ =~= f + c);
    }
    actions
}

} // verus!
