//! Commands (proposals by players), events (authoritative facts) and the
//! timed effects that an event applies to the units it concerns.
use vstd::prelude::*;
use crate::position::MapPos;
use crate::unit::{Unit, UnitId, UnitTypeId, PlayerId};

verus! {

#[derive(Clone, Copy, PartialEq, Eq, Structural, Debug)]
pub enum FireMode {
    Active,
    Reactive,
}

#[derive(Clone, Copy, PartialEq, Eq, Structural, Debug)]
pub enum ReactionFireMode {
    Normal,
    HoldFire,
}

#[derive(Clone, Copy, PartialEq, Eq, Structural, Debug)]
pub enum MoveMode {
    Fast,
    Hunt,
}

/// A place for a unit within a cell: the cell and a slot in it.
#[derive(Clone, Copy, PartialEq, Eq, Structural, Debug)]
pub struct ExactPos {
    pub map_pos: MapPos,
    pub slot_id: i32,
}

#[derive(Clone, Copy, PartialEq, Eq, Structural, Debug)]
pub struct SectorId {
    pub id: i32,
}

#[derive(Clone, Copy, PartialEq, Eq, Structural, Debug)]
pub struct ObjectId {
    pub id: i32,
}

#[derive(Clone, Copy, PartialEq, Eq, Structural, Debug)]
pub struct MovePoints {
    pub n: i32,
}

/// A state delta applied to one unit.
#[derive(Clone, Copy, PartialEq, Eq, Structural, Debug)]
pub enum Effect {
    /// Soldiers lost.
    Damage { killed: i32 },
    /// Suppression added.
    Suppression { amount: i32 },
    /// The unit cannot move for the rest of the turn.
    Pinned,
    /// The unit is destroyed, leaving a wreck or not.
    Destroyed { leave_wrecks: bool },
}

/// How long an effect lasts.
#[derive(Clone, Copy, PartialEq, Eq, Structural, Debug)]
pub enum Time {
    Instant,
    Turns { n: i32 },
    Forever,
}

#[derive(Clone, Copy, PartialEq, Eq, Structural, Debug)]
pub struct TimedEffect {
    pub effect: Effect,
    pub time: Time,
}

/// A player's or AI's intent; not assumed valid.
#[derive(PartialEq, Eq, Clone, Debug)]
pub enum Command {
    Move { unit_id: UnitId, path: Vec<ExactPos>, mode: MoveMode },
    EndTurn,
    CreateUnit { pos: ExactPos, type_id: UnitTypeId },
    AttackUnit { attacker_id: UnitId, defender_id: UnitId },
    LoadUnit { transporter_id: UnitId, passenger_id: UnitId },
    UnloadUnit { transporter_id: UnitId, passenger_id: UnitId, pos: ExactPos },
    Attach { transporter_id: UnitId, attached_unit_id: UnitId },
    Detach { transporter_id: UnitId, pos: ExactPos },
    SetReactionFireMode { unit_id: UnitId, mode: ReactionFireMode },
    Smoke { unit_id: UnitId, pos: MapPos },
}

/// The outcome of one attack.
#[derive(Clone, Copy, PartialEq, Eq, Structural, Debug)]
pub struct AttackInfo {
    pub attacker_id: Option<UnitId>,
    pub mode: FireMode,
    pub is_ambush: bool,
    pub is_inderect: bool,
    pub defender_id: UnitId,
    pub killed: i32,
    pub suppression: i32,
    pub leave_wrecks: bool,
}

/// An authoritative, already validated change of game state.
#[derive(Clone, Copy, PartialEq, Eq, Structural, Debug)]
#[allow(inconsistent_fields)]
pub enum Event {
    Move { unit_id: UnitId, from: ExactPos, to: ExactPos, mode: MoveMode, cost: MovePoints },
    EndTurn { old_id: PlayerId, new_id: PlayerId },
    CreateUnit { unit_info: Unit },
    AttackUnit { attack_info: AttackInfo },
    /// Like `ShowUnit`, but raised by the engine itself.
    Reveal { unit_info: Unit },
    ShowUnit { unit_info: Unit },
    HideUnit { unit_id: UnitId },
    LoadUnit { transporter_id: Option<UnitId>, passenger_id: UnitId, from: ExactPos, to: ExactPos },
    UnloadUnit { unit_info: Unit, transporter_id: Option<UnitId>, from: ExactPos, to: ExactPos },
    Attach { transporter_id: UnitId, attached_unit_id: UnitId, from: ExactPos, to: ExactPos },
    Detach { transporter_id: UnitId, from: ExactPos, to: ExactPos },
    SetReactionFireMode { unit_id: UnitId, mode: ReactionFireMode },
    SectorOwnerChanged { sector_id: SectorId, new_owner_id: Option<PlayerId> },
    VictoryPoint { player_id: PlayerId, pos: MapPos, count: i32 },
    Smoke { id: ObjectId, pos: MapPos, unit_id: Option<UnitId> },
    RemoveSmoke { id: ObjectId },
}

pub open spec fn opt_units(u: Option<UnitId>) -> Set<UnitId> {
    match u {
        Some(id) => set![id],
        None => Set::empty(),
    }
}

/// The units that an event concerns.
pub open spec fn event_units(e: Event) -> Set<UnitId> {
    match e {
        Event::Move { unit_id, .. } => set![unit_id],
        Event::EndTurn { .. } => Set::empty(),
        Event::CreateUnit { unit_info } => set![unit_info.id],
        Event::AttackUnit { attack_info } => opt_units(attack_info.attacker_id).insert(
            attack_info.defender_id,
        ),
        Event::Reveal { unit_info } => set![unit_info.id],
        Event::ShowUnit { unit_info } => set![unit_info.id],
        Event::HideUnit { unit_id } => set![unit_id],
        Event::LoadUnit { transporter_id, passenger_id, .. } => opt_units(transporter_id).insert(
            passenger_id,
        ),
        Event::UnloadUnit { unit_info, transporter_id, .. } => opt_units(transporter_id).insert(
            unit_info.id,
        ),
        Event::Attach { transporter_id, attached_unit_id, .. } => set![transporter_id, attached_unit_id],
        Event::Detach { transporter_id, .. } => set![transporter_id],
        Event::SetReactionFireMode { unit_id, .. } => set![unit_id],
        Event::SectorOwnerChanged { .. } => Set::empty(),
        Event::VictoryPoint { .. } => Set::empty(),
        Event::Smoke { unit_id, .. } => opt_units(unit_id),
        Event::RemoveSmoke { .. } => Set::empty(),
    }
}

fn is_opt_unit(u: Option<UnitId>, id: UnitId) -> (r: bool)
    ensures
        r == opt_units(u).contains(id),
{
    match u {
        Some(v) => v == id,
        None => false,
    }
}

/// Whether `event` concerns the unit `id`.
pub fn references_unit(event: &Event, id: UnitId) -> (r: bool)
    ensures
        r == event_units(*event).contains(id),
{
    match event {
        Event::Move { unit_id, .. } => *unit_id == id,
        Event::EndTurn { .. } => false,
        Event::CreateUnit { unit_info } => unit_info.id == id,
        Event::AttackUnit { attack_info } => attack_info.defender_id == id || is_opt_unit(
            attack_info.attacker_id,
            id,
        ),
        Event::Reveal { unit_info } => unit_info.id == id,
        Event::ShowUnit { unit_info } => unit_info.id == id,
        Event::HideUnit { unit_id } => *unit_id == id,
        Event::LoadUnit { transporter_id, passenger_id, .. } => *passenger_id == id || is_opt_unit(
            *transporter_id,
            id,
        ),
        Event::UnloadUnit { unit_info, transporter_id, .. } => unit_info.id == id || is_opt_unit(
            *transporter_id,
            id,
        ),
        Event::Attach { transporter_id, attached_unit_id, .. } => *transporter_id == id
            || *attached_unit_id == id,
        Event::Detach { transporter_id, .. } => *transporter_id == id,
        Event::SetReactionFireMode { unit_id, .. } => *unit_id == id,
        Event::SectorOwnerChanged { .. } => false,
        Event::VictoryPoint { .. } => false,
        Event::Smoke { unit_id, .. } => is_opt_unit(*unit_id, id),
        Event::RemoveSmoke { .. } => false,
    }
}

/// Every unit listed in `effects` is one that `event` concerns.
pub open spec fn effects_attributed(event: Event, effects: Seq<(UnitId, Vec<TimedEffect>)>) -> bool {
    forall|i: int| 0 <= i < effects.len() ==> event_units(event).contains(#[trigger] effects[i].0)
}

/// No unit is listed twice in `effects`.
pub open spec fn effect_keys_unique(effects: Seq<(UnitId, Vec<TimedEffect>)>) -> bool {
    forall|i: int, j: int| 0 <= i < j < effects.len() ==> #[trigger] effects[i].0 != #[trigger] effects[j].0
}

/// Why a `CoreEvent` cannot be built.
#[derive(Clone, Copy, PartialEq, Eq, Structural, Debug)]
pub enum EffectError {
    /// An effect is attributed to a unit that the event does not concern.
    OrphanEffect { unit_id: UnitId },
    /// A unit is listed twice.
    DuplicateUnit { unit_id: UnitId },
}

/// An event together with, for each unit it affects, the effects applied
/// to that unit in order. Applied as a whole or not at all.
#[derive(Debug)]
pub struct CoreEvent {
    event: Event,
    effects: Vec<(UnitId, Vec<TimedEffect>)>,
}

impl CoreEvent {
    #[verifier::type_invariant]
    spec fn inv(self) -> bool {
        &&& effects_attributed(self.event, self.effects@)
        &&& effect_keys_unique(self.effects@)
    }

    pub closed spec fn spec_event(&self) -> Event {
        self.event
    }

    pub closed spec fn spec_effects(&self) -> Seq<(UnitId, Vec<TimedEffect>)> {
        self.effects@
    }

    /// Pairs `event` with `effects`; refuses effects on a unit the event does
    /// not concern, and a unit listed twice.
    pub fn new(event: Event, effects: Vec<(UnitId, Vec<TimedEffect>)>) -> (r: Result<CoreEvent, EffectError>)
        ensures
            r is Ok <==> effects_attributed(event, effects@) && effect_keys_unique(effects@),
            r matches Err(EffectError::OrphanEffect { unit_id }) ==> !effects_attributed(event, effects@)
                && !event_units(event).contains(unit_id)
                && exists|i: int| 0 <= i < effects@.len() && effects@[i].0 == unit_id,
            r matches Err(EffectError::DuplicateUnit { unit_id }) ==> effects_attributed(event, effects@)
                && !effect_keys_unique(effects@)
                && exists|i: int, j: int| 0 <= i < j < effects@.len() && effects@[i].0 == unit_id && effects@[j].0 == unit_id,
            r matches Ok(c) ==> c.spec_event() == event && c.spec_effects() == effects@,
    {
        let n = effects.len();
        let mut i: usize = 0;
        while i < n
            invariant
                0 <= i <= n,
                n == effects@.len(),
                forall|k: int| 0 <= k < i ==> event_units(event).contains(#[trigger] effects@[k].0),
            decreases n - i,
        {
            let id = effects[i].0;
            if !references_unit(&event, id) {
                return Err(EffectError::OrphanEffect { unit_id: id });
            }
            i = i + 1;
        }
        let mut i: usize = 0;
        while i < n
            invariant
                0 <= i <= n,
                n == effects@.len(),
                effects_attributed(event, effects@),
                forall|a: int, b: int| 0 <= a < b < n && a < i ==> #[trigger] effects@[a].0 != #[trigger] effects@[b].0,
            decreases n - i,
        {
            let mut j: usize = i + 1;
            while j < n
                invariant
                    i < n,
                    i + 1 <= j <= n,
                    n == effects@.len(),
                    effects_attributed(event, effects@),
                    forall|a: int, b: int| 0 <= a < b < n && a < i ==> #[trigger] effects@[a].0 != #[trigger] effects@[b].0,
                    forall|b: int| i < b < j ==> effects@[i as int].0 != #[trigger] effects@[b].0,
                decreases n - j,
            {
                if effects[i].0 == effects[j].0 {
                    let id = effects[i].0;
                    assert(effects@[i as int].0 == effects@[j as int].0);
                    return Err(EffectError::DuplicateUnit { unit_id: id });
                }
                j = j + 1;
            }
            i = i + 1;
        }
        Ok(CoreEvent { event, effects })
    }

    pub fn event(&self) -> (r: &Event)
        ensures
            *r == self.spec_event(),
    {
        &self.event
    }

    /// The effects per unit. Every unit listed is one that the event
    /// concerns, and none is listed twice.
    pub fn effects(&self) -> (r: &Vec<(UnitId, Vec<TimedEffect>)>)
        ensures
            r@ == self.spec_effects(),
            effects_attributed(self.spec_event(), r@),
            effect_keys_unique(r@),
            forall|i: int| 0 <= i < r@.len() ==> event_units(self.spec_event()).contains(#[trigger] r@[i].0),
    {
        proof {
            use_type_invariant(self);
        }
        &self.effects
    }

    /// The effects applied to unit `id`, in order, if it has any.
    pub fn effects_of(&self, id: UnitId) -> (r: Option<&Vec<TimedEffect>>)
        ensures
            r matches Some(v) ==> exists|i: int| 0 <= i < self.spec_effects().len()
                && self.spec_effects()[i].0 == id && self.spec_effects()[i].1 == *v,
            r is None <==> forall|i: int| 0 <= i < self.spec_effects().len() ==> self.spec_effects()[i].0 != id,
    {
        let n = self.effects.len();
        let mut i: usize = 0;
        while i < n
            invariant
                0 <= i <= n,
                n == self.effects@.len(),
                forall|k: int| 0 <= k < i ==> #[trigger] self.effects@[k].0 != id,
            decreases n - i,
        {
            if self.effects[i].0 == id {
                assert(self.spec_effects()[i as int].0 == id);
                return Some(&self.effects[i].1);
            }
            i = i + 1;
        }
        None
    }
}

} // verus!
