//! Deterministic runtime state for a match: characters, sides, players.

use vstd::prelude::*;

use crate::data::{CharacterDefinition, MatchRules, StoryCardDefinition};

verus! {

/// The phase of a round.
#[derive(Clone, Copy, Debug, PartialEq, Eq, Structural)]
pub enum MatchPhase {
    DailyLife,
    Encounter,
    FinalClimax,
    Finished,
}

/// How far a character has grown.
#[derive(Clone, Copy, Debug, PartialEq, Eq, Structural)]
pub enum CharacterStage {
    Base,
    Transformed,
    Radiant,
    Awakened,
    Catastrophe,
}

/// The resource a character gains.
#[derive(Clone, Copy, Debug, PartialEq, Eq, Structural)]
pub enum ResourceKind {
    Radiance,
    Dread,
}

/// A player.
#[derive(Clone, Copy, Debug, PartialEq, Eq, Structural)]
pub enum PlayerId {
    PlayerA,
    PlayerB,
}

/// What a stack item does when it resolves.
#[derive(Clone, Debug)]
pub enum StackItemKind {
    PlayCard { card_id: String, card_name: String },
    RevealSupport { is_magical_girl_side: bool, support_index: usize },
}

/// An item waiting on the reaction stack.
#[derive(Clone, Debug)]
pub struct StackItem {
    pub player: PlayerId,
    pub is_reaction: bool,
    pub resolves_in_phase: MatchPhase,
    pub kind: StackItemKind,
}

/// Who may react, and how many passes in a row there have been.
#[derive(Clone, Copy, Debug, PartialEq, Eq, Structural)]
pub struct ReactionState {
    pub priority_player: PlayerId,
    pub passes_in_row: u8,
}

/// A character in play.
#[derive(Clone, Debug)]
pub struct CharacterRuntimeState {
    pub name: String,
    pub stage: CharacterStage,
    pub base_power: i32,
    pub transformed_power: i32,
    pub final_power: i32,
    pub temporary_power_bonus: i32,
    pub next_encounter_power_bonus: i32,
    pub failed_final_climax_power_bonus: i32,
    pub radiance: i32,
    pub dread: i32,
    pub first_threshold: i32,
    pub second_threshold: i32,
    pub exhausted_until_next_encounter: bool,
    pub abilities_blocked_until_next_encounter: bool,
}

/// A support character and whether it is revealed.
#[derive(Clone, Debug)]
pub struct SupportState {
    pub runtime: CharacterRuntimeState,
    pub revealed: bool,
}

/// One side of a player: a main character and its supports.
#[derive(Clone, Debug)]
pub struct SideState {
    pub main_character_id: String,
    pub main: CharacterRuntimeState,
    pub supports: Vec<SupportState>,
}

/// A player's sides and cards.
#[derive(Clone, Debug)]
pub struct PlayerState {
    pub magical_girls: SideState,
    pub baddies: SideState,
    pub deck: Vec<String>,
    pub hand: Vec<String>,
    pub discard: Vec<String>,
    pub encounter_card_played: bool,
    pub supports_revealed_this_round: u8,
}

/// The whole state of a match. `story_cards` holds the content's story
/// cards keyed by id: one card per id, the last the content lists with it.
#[derive(Clone, Debug)]
pub struct MatchState {
    pub rules: MatchRules,
    pub story_cards: Vec<StoryCardDefinition>,
    pub phase: MatchPhase,
    pub round: u32,
    pub final_climax_active: bool,
    pub prime_baddie_defeated: bool,
    pub defeated_prime_owner: Option<PlayerId>,
    pub winner: Option<PlayerId>,
    pub player_a: PlayerState,
    pub player_b: PlayerState,
    pub active_player: PlayerId,
    pub priority_player: PlayerId,
    pub phase_passes: u8,
    pub last_played_card_name: Option<String>,
    pub reaction_stack: Vec<StackItem>,
    pub reaction_state: Option<ReactionState>,
    pub event_log: Vec<String>,
}

/// The other player.
pub open spec fn other(player: PlayerId) -> PlayerId {
    match player {
        PlayerId::PlayerA => PlayerId::PlayerB,
        PlayerId::PlayerB => PlayerId::PlayerA,
    }
}

/// The other player.
pub fn opposing(player: PlayerId) -> (res: PlayerId)
    ensures
        res == other(player),
        res != player,
{
    match player {
        PlayerId::PlayerA => PlayerId::PlayerB,
        PlayerId::PlayerB => PlayerId::PlayerA,
    }
}

/// How far along the stages a stage is (two lines share the first stage).
pub open spec fn stage_rank(stage: CharacterStage) -> int {
    match stage {
        CharacterStage::Base => 0,
        CharacterStage::Transformed | CharacterStage::Awakened => 1,
        CharacterStage::Radiant | CharacterStage::Catastrophe => 2,
    }
}

/// The stage a stage can grow into next is on the same line.
pub open spec fn same_line(from: CharacterStage, to: CharacterStage) -> bool {
    match from {
        CharacterStage::Base => true,
        CharacterStage::Transformed | CharacterStage::Radiant => to == CharacterStage::Transformed || to
            == CharacterStage::Radiant,
        CharacterStage::Awakened | CharacterStage::Catastrophe => to == CharacterStage::Awakened || to
            == CharacterStage::Catastrophe,
    }
}

/// A character as it enters play: at its base stage, with its definition's
/// name, powers and thresholds, and no resources, bonuses or exhaustion.
pub open spec fn fresh_runtime(definition: CharacterDefinition) -> CharacterRuntimeState {
    CharacterRuntimeState {
        name: definition.name,
        stage: CharacterStage::Base,
        base_power: definition.base_power,
        transformed_power: definition.transformed_power,
        final_power: definition.final_power,
        temporary_power_bonus: 0,
        next_encounter_power_bonus: 0,
        failed_final_climax_power_bonus: 0,
        radiance: 0,
        dread: 0,
        first_threshold: definition.first_threshold,
        second_threshold: definition.second_threshold,
        exhausted_until_next_encounter: false,
        abilities_blocked_until_next_encounter: false,
    }
}

impl CharacterRuntimeState {
    /// The base power of the current stage.
    pub open spec fn stage_power(self) -> int {
        match self.stage {
            CharacterStage::Base => self.base_power as int,
            CharacterStage::Transformed | CharacterStage::Awakened => self.transformed_power as int,
            CharacterStage::Radiant | CharacterStage::Catastrophe => self.final_power as int,
        }
    }

    /// The character's power: 0 while exhausted, otherwise its stage power
    /// plus its temporary and failed-Final-Climax bonuses.
    pub open spec fn power(self) -> int {
        if self.exhausted_until_next_encounter {
            0
        } else {
            self.stage_power() + self.temporary_power_bonus + self.failed_final_climax_power_bonus
        }
    }

    /// The stage check after a resource changed: a base character transforms
    /// (radiance) or awakens (dread) at the first threshold, dread winning
    /// when both are reached; a transformed character becomes radiant, an
    /// awakened one becomes a catastrophe, at the second threshold. The
    /// resource that triggered a change is reset to 0.
    pub open spec fn upgraded(self) -> Self {
        match self.stage {
            CharacterStage::Base => {
                let s1 = if self.radiance >= self.first_threshold {
                    CharacterRuntimeState { stage: CharacterStage::Transformed, radiance: 0, ..self }
                } else {
                    self
                };
                if s1.dread >= s1.first_threshold {
                    CharacterRuntimeState { stage: CharacterStage::Awakened, dread: 0, ..s1 }
                } else {
                    s1
                }
            },
            CharacterStage::Transformed => if self.radiance >= self.second_threshold {
                CharacterRuntimeState { stage: CharacterStage::Radiant, radiance: 0, ..self }
            } else {
                self
            },
            CharacterStage::Awakened => if self.dread >= self.second_threshold {
                CharacterRuntimeState { stage: CharacterStage::Catastrophe, dread: 0, ..self }
            } else {
                self
            },
            _ => self,
        }
    }

    /// The state after gaining `amount` of `resource` (never below 0) and the stage check.
    pub open spec fn gained(self, resource: ResourceKind, amount: i32) -> Self {
        match resource {
            ResourceKind::Radiance => CharacterRuntimeState {
                radiance: if self.radiance + amount > 0 {
                    (self.radiance + amount) as i32
                } else {
                    0
                },
                ..self
            }.upgraded(),
            ResourceKind::Dread => CharacterRuntimeState {
                dread: if self.dread + amount > 0 {
                    (self.dread + amount) as i32
                } else {
                    0
                },
                ..self
            }.upgraded(),
        }
    }

    /// A new character at its base stage with no resources or bonuses.
    pub fn from_definition(definition: &CharacterDefinition) -> (res: Self)
        ensures
            res == fresh_runtime(*definition),
    {
        CharacterRuntimeState {
            name: definition.name.clone(),
            stage: CharacterStage::Base,
            base_power: definition.base_power,
            transformed_power: definition.transformed_power,
            final_power: definition.final_power,
            temporary_power_bonus: 0,
            next_encounter_power_bonus: 0,
            failed_final_climax_power_bonus: 0,
            radiance: 0,
            dread: 0,
            first_threshold: definition.first_threshold,
            second_threshold: definition.second_threshold,
            exhausted_until_next_encounter: false,
            abilities_blocked_until_next_encounter: false,
        }
    }

    /// The character's current power.
    pub fn current_power(&self) -> (res: i32)
        requires
            !self.exhausted_until_next_encounter ==> i32::MIN <= self.stage_power() + self.temporary_power_bonus
                <= i32::MAX,
            !self.exhausted_until_next_encounter ==> i32::MIN <= self.stage_power() + self.temporary_power_bonus
                + self.failed_final_climax_power_bonus <= i32::MAX,
        ensures
            res == self.power(),
    {
        if self.exhausted_until_next_encounter {
            return 0;
        }
        let base = match self.stage {
            CharacterStage::Base => self.base_power,
            CharacterStage::Transformed | CharacterStage::Awakened => self.transformed_power,
            CharacterStage::Radiant | CharacterStage::Catastrophe => self.final_power,
        };
        base + self.temporary_power_bonus + self.failed_final_climax_power_bonus
    }

    /// Gains `amount` (possibly negative) of `resource`, never going below
    /// 0, then checks for a stage change.
    pub fn gain(&mut self, resource: ResourceKind, amount: i32)
        requires
            resource == ResourceKind::Radiance ==> i32::MIN <= old(self).radiance + amount <= i32::MAX,
            resource == ResourceKind::Dread ==> i32::MIN <= old(self).dread + amount <= i32::MAX,
        ensures
            *final(self) == old(self).gained(resource, amount),
    {
        match resource {
            ResourceKind::Radiance => {
                let total = self.radiance + amount;
                self.radiance = if total > 0 { total } else { 0 };
                self.check_upgrade();
            },
            ResourceKind::Dread => {
                let total = self.dread + amount;
                self.dread = if total > 0 { total } else { 0 };
                self.check_upgrade();
            },
        }
    }

    /// Applies the stage check.
    fn check_upgrade(&mut self)
        ensures
            *final(self) == old(self).upgraded(),
    {
        match self.stage {
            CharacterStage::Base => {
                if self.radiance >= self.first_threshold {
                    self.stage = CharacterStage::Transformed;
                    self.radiance = 0;
                }
                if self.dread >= self.first_threshold {
                    self.stage = CharacterStage::Awakened;
                    self.dread = 0;
                }
            },
            CharacterStage::Transformed => {
                if self.radiance >= self.second_threshold {
                    self.stage = CharacterStage::Radiant;
                    self.radiance = 0;
                }
            },
            CharacterStage::Awakened => {
                if self.dread >= self.second_threshold {
                    self.stage = CharacterStage::Catastrophe;
                    self.dread = 0;
                }
            },
            CharacterStage::Radiant | CharacterStage::Catastrophe => {},
        }
    }
}

/// Gaining a resource never lowers a character's stage, keeps it on its
/// line, and leaves both resources non-negative when they were.
pub proof fn lemma_gain_monotone(c: CharacterRuntimeState, resource: ResourceKind, amount: i32)
    requires
        c.radiance >= 0,
        c.dread >= 0,
        resource == ResourceKind::Radiance ==> c.radiance + amount <= i32::MAX,
        resource == ResourceKind::Dread ==> c.dread + amount <= i32::MAX,
    ensures
        stage_rank(c.gained(resource, amount).stage) >= stage_rank(c.stage),
        same_line(c.stage, c.gained(resource, amount).stage),
        c.gained(resource, amount).radiance >= 0,
        c.gained(resource, amount).dread >= 0,
        c.gained(resource, amount).name == c.name,
{
}

/// The resource total after gaining `amount` on `current`: never below 0.
pub open spec fn raised(current: i32, amount: i32) -> int {
    if current + amount > 0 {
        current + amount
    } else {
        0
    }
}

/// Gaining radiance: the radiance becomes the new total (never below 0) and
/// the stage moves on only when a threshold is reached. A transformed
/// character stays transformed, holding the new total, while it is below the
/// second threshold, and becomes radiant with its radiance spent exactly when
/// the total reaches it. A base character transforms, its radiance spent,
/// exactly when the total reaches the first threshold, unless its dread
/// already stands at that threshold, in which case it awakens. Radiance never
/// moves a radiant character or a catastrophe, nor an awakened one whose
/// dread is below the second threshold. Dread and everything else stay.
pub proof fn lemma_radiance_gain(c: CharacterRuntimeState, amount: i32)
    requires
        i32::MIN <= c.radiance + amount <= i32::MAX,
    ensures
        ({
            let g = c.gained(ResourceKind::Radiance, amount);
            let r = raised(c.radiance, amount);
            &&& g.power() == (CharacterRuntimeState { stage: g.stage, ..c }).power()
            &&& g.base_power == c.base_power && g.transformed_power == c.transformed_power
            &&& g.final_power == c.final_power && g.first_threshold == c.first_threshold
            &&& g.second_threshold == c.second_threshold && g.name == c.name
            &&& c.stage == CharacterStage::Transformed && r < c.second_threshold ==> g.stage
                == CharacterStage::Transformed && g.radiance == r && g.dread == c.dread
            &&& c.stage == CharacterStage::Transformed && r >= c.second_threshold ==> g.stage
                == CharacterStage::Radiant && g.radiance == 0 && g.dread == c.dread
            &&& c.stage == CharacterStage::Base && c.dread < c.first_threshold && r < c.first_threshold ==> g.stage
                == CharacterStage::Base && g.radiance == r && g.dread == c.dread
            &&& c.stage == CharacterStage::Base && c.dread < c.first_threshold && r >= c.first_threshold ==> g.stage
                == CharacterStage::Transformed && g.radiance == 0 && g.dread == c.dread
            &&& c.stage == CharacterStage::Base && c.dread >= c.first_threshold ==> g.stage
                == CharacterStage::Awakened && g.dread == 0
            &&& (c.stage == CharacterStage::Radiant || c.stage == CharacterStage::Catastrophe || (c.stage
                == CharacterStage::Awakened && c.dread < c.second_threshold)) ==> g.stage == c.stage && g.radiance
                == r && g.dread == c.dread
        }),
{
}

/// Gaining dread: the dread becomes the new total (never below 0) and the
/// stage moves on only when a threshold is reached. An awakened character
/// stays awakened, holding the new total, while it is below the second
/// threshold, and becomes a catastrophe with its dread spent exactly when the
/// total reaches it. A base character awakens, its dread spent, exactly when
/// the total reaches the first threshold (transforming first if its radiance
/// already stands there). Dread never moves a radiant character or a
/// catastrophe, nor a transformed one whose radiance is below the second
/// threshold.
pub proof fn lemma_dread_gain(c: CharacterRuntimeState, amount: i32)
    requires
        i32::MIN <= c.dread + amount <= i32::MAX,
    ensures
        ({
            let g = c.gained(ResourceKind::Dread, amount);
            let d = raised(c.dread, amount);
            &&& g.base_power == c.base_power && g.transformed_power == c.transformed_power
            &&& g.final_power == c.final_power && g.first_threshold == c.first_threshold
            &&& g.second_threshold == c.second_threshold && g.name == c.name
            &&& c.stage == CharacterStage::Awakened && d < c.second_threshold ==> g.stage
                == CharacterStage::Awakened && g.dread == d && g.radiance == c.radiance
            &&& c.stage == CharacterStage::Awakened && d >= c.second_threshold ==> g.stage
                == CharacterStage::Catastrophe && g.dread == 0 && g.radiance == c.radiance
            &&& c.stage == CharacterStage::Base && d < c.first_threshold && c.radiance < c.first_threshold ==> g.stage
                == CharacterStage::Base && g.dread == d && g.radiance == c.radiance
            &&& c.stage == CharacterStage::Base && d < c.first_threshold && c.radiance >= c.first_threshold ==> g.stage
                == CharacterStage::Transformed && g.dread == d && g.radiance == 0
            &&& c.stage == CharacterStage::Base && d >= c.first_threshold ==> g.stage == CharacterStage::Awakened
                && g.dread == 0
            &&& (c.stage == CharacterStage::Radiant || c.stage == CharacterStage::Catastrophe || (c.stage
                == CharacterStage::Transformed && c.radiance < c.second_threshold)) ==> g.stage == c.stage && g.dread
                == d && g.radiance == c.radiance
        }),
{
}

impl SupportState {
    /// Gains a resource for the support's character.
    pub fn gain(&mut self, resource: ResourceKind, amount: i32)
        requires
            resource == ResourceKind::Radiance ==> i32::MIN <= old(self).runtime.radiance + amount <= i32::MAX,
            resource == ResourceKind::Dread ==> i32::MIN <= old(self).runtime.dread + amount <= i32::MAX,
        ensures
            final(self).runtime == old(self).runtime.gained(resource, amount),
            final(self).revealed == old(self).revealed,
    {
        self.runtime.gain(resource, amount);
    }
}

/// The power the first `k` supports add: those revealed and not exhausted.
pub open spec fn support_power(supports: Seq<SupportState>, k: int) -> int
    decreases k,
{
    if k <= 0 {
        0
    } else {
        support_power(supports, k - 1) + if supports[k - 1].revealed
            && !supports[k - 1].runtime.exhausted_until_next_encounter {
            supports[k - 1].runtime.power()
        } else {
            0
        }
    }
}

impl SideState {
    /// The side's power: its main's, plus that of each revealed, rested support.
    pub open spec fn power(self) -> int {
        self.main.power() + support_power(self.supports@, self.supports@.len() as int)
    }

    /// Every sum the side's power is made of fits in an `i32`: the sums of
    /// the main and of each revealed, rested support (those counted), and
    /// each running total.
    pub open spec fn power_fits(self) -> bool {
        &&& !self.main.exhausted_until_next_encounter ==> i32::MIN <= self.main.stage_power()
            + self.main.temporary_power_bonus <= i32::MAX
        &&& !self.main.exhausted_until_next_encounter ==> i32::MIN <= self.main.stage_power()
            + self.main.temporary_power_bonus + self.main.failed_final_climax_power_bonus <= i32::MAX
        &&& forall|k: int|
            0 <= k < self.supports@.len() && self.supports@[k].revealed
                && !self.supports@[k].runtime.exhausted_until_next_encounter ==> {
                let r = #[trigger] self.supports@[k].runtime;
                &&& i32::MIN <= r.stage_power() + r.temporary_power_bonus <= i32::MAX
                &&& i32::MIN <= r.stage_power() + r.temporary_power_bonus + r.failed_final_climax_power_bonus
                    <= i32::MAX
            }
        &&& forall|k: int|
            0 <= k <= self.supports@.len() ==> i32::MIN <= self.main.power() + #[trigger] support_power(
                self.supports@,
                k,
            ) <= i32::MAX
    }

    /// The side's total power.
    pub fn total_power(&self) -> (res: i32)
        requires
            self.power_fits(),
        ensures
            res == self.power(),
    {
        let mut power = self.main.current_power();
        let mut i: usize = 0;
        while i < self.supports.len()
            invariant
                i <= self.supports.len(),
                self.power_fits(),
                power == self.main.power() + support_power(self.supports@, i as int),
            decreases self.supports.len() - i,
        {
            let support = &self.supports[i];
            assert(i32::MIN <= self.main.power() + support_power(self.supports@, i + 1) <= i32::MAX);
            if support.revealed && !support.runtime.exhausted_until_next_encounter {
                let p = support.runtime.current_power();
                power = power + p;
            }
            i = i + 1;
        }
        power
    }
}

/// How many cards a hand of `len` cards holds over the limit.
pub open spec fn overflow(len: int, hand_limit: int) -> int {
    if len > hand_limit {
        len - hand_limit
    } else {
        0
    }
}

/// Moves the oldest cards of the hand, those over `hand_limit`, to the end
/// of the discard pile, keeping the newest; returns how many were moved.
pub fn discard_player_down_to_hand_limit(hand: &mut Vec<String>, discard: &mut Vec<String>, hand_limit: usize) -> (res:
    usize)
    ensures
        res == overflow(old(hand)@.len() as int, hand_limit as int),
        final(hand)@ == old(hand)@.skip(res as int),
        final(discard)@ == old(discard)@ + old(hand)@.take(res as int),
{
    let excess = if hand.len() > hand_limit {
        hand.len() - hand_limit
    } else {
        0
    };
    let mut discarded = hand.split_off(excess);
    std::mem::swap(hand, &mut discarded);
    discard.append(&mut discarded);
    excess
}

} // verus!
