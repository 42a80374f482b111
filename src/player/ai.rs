use crate::card::Card;
use crate::cho_dai_di::{candidate_size, play_result, ChoDaiDi, TurnAction};
use crate::collections::{is_arrangement, Cards};
use crate::text::same_text;
use vstd::prelude::*;

verus! {

/// How a computer player picks its play.
#[derive(Debug, Clone, Copy, PartialEq, Eq, Structural)]
pub enum Strategy {
    /// Any legal play, picked at random.
    Random,
}

/// A computer player.
pub struct Player {
    pub name: String,
    pub strategy: Strategy,
}

/// Relies on rand's `SliceRandom::choose`, which returns one element of a non-empty slice
/// and none of an empty one, with `SmallRng::from_entropy` as its source of chance.
#[verifier::external_body]
fn choose_one(plays: &Vec<Cards>) -> (r: Option<&Cards>)
    ensures
        r is None <==> plays@.len() == 0,
        r matches Some(p) ==> exists|i: int| 0 <= i < plays@.len() && plays@[i] == *p,
{
    let mut rng = <rand::rngs::SmallRng as rand::SeedableRng>::from_entropy();
    rand::seq::SliceRandom::choose(plays.as_slice(), &mut rng)
}

/// The name at `index` of `names`, unless a name in `taken` already equals it.
pub fn fresh_name<'a>(names: &'a Vec<String>, taken: &Vec<String>, index: usize) -> (r: Option<
    &'a String,
>)
    requires
        index < names@.len(),
    ensures
        (r is Some) == !(exists|k: int| 0 <= k < taken@.len() && (#[trigger] taken@[k])@ == names@[index as int]@),
        r matches Some(n) ==> n@ == names@[index as int]@,
{
    let name = &names[index];
    let mut k: usize = 0;
    while k < taken.len()
        invariant
            k <= taken@.len(),
            index < names@.len(),
            *name == names@[index as int],
            forall|m: int| 0 <= m < k ==> (#[trigger] taken@[m])@ != name@,
        decreases taken@.len() - k,
    {
        if same_text(taken[k].as_str(), name.as_str()) {
            assert(taken@[k as int]@ == names@[index as int]@);
            return None;
        }
        k += 1;
    }
    Some(name)
}

impl Player {
    pub fn new(name: &str) -> (r: Player)
        ensures
            r.name@ == name@,
            r.strategy == Strategy::Random,
    {
        Player { name: String::from_str(name), strategy: Strategy::Random }
    }

    pub fn name(&self) -> (r: &str)
        ensures
            r@ == self.name@,
    {
        self.name.as_str()
    }

    pub fn strategy(&self) -> (r: Strategy)
        ensures
            r == self.strategy,
    {
        self.strategy
    }

    /// Picks a turn from `hand`: one of its legal plays at random, or a pass when it has
    /// none.
    pub fn choose_play(&self, game: &ChoDaiDi, hand: &Cards) -> (r: TurnAction)
        ensures
            r matches TurnAction::PlayCards(p) ==> play_result(game@, p@) is Ok && candidate_size(
                game@,
                p@.len(),
            ) && is_arrangement(hand@, p@.len(), p@),
            r is Pass ==> forall|k: nat, play: Seq<Card>|
                candidate_size(game@, k) && #[trigger] is_arrangement(hand@, k, play) ==> play_result(
                    game@,
                    play,
                ) is Err,
    {
        match self.strategy {
            Strategy::Random => {
                let plays = game.possible_plays(hand);
                match choose_one(&plays) {
                    Some(p) => TurnAction::PlayCards(p.duplicate()),
                    None => TurnAction::Pass,
                }
            },
        }
    }
}

} // verus!
