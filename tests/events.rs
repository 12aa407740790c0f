use zoc::command::{move_events, move_unit_events, CommandError};
use zoc::event::{
    references_unit, AttackInfo, Command, CoreEvent, Effect, EffectError, Event, ExactPos, FireMode,
    MoveMode, MovePoints, ObjectId, ReactionFireMode, Time, TimedEffect,
};
use zoc::grid::{Grid, Terrain};
use zoc::position::{MapPos, Size2};
use zoc::unit::{PlayerId, Unit, UnitClass, UnitId, UnitTypeId};

fn at(x: i32, y: i32) -> ExactPos {
    ExactPos { map_pos: MapPos { x, y }, slot_id: 0 }
}

fn infantry(x: i32, y: i32, mp: i32) -> Unit {
    Unit {
        id: UnitId { id: 7 },
        type_id: UnitTypeId { id: 1 },
        player_id: PlayerId { id: 0 },
        class: UnitClass::Infantry,
        pos: MapPos { x, y },
        move_points: mp,
    }
}

fn mv(id: i32, path: Vec<ExactPos>) -> Command {
    Command::Move { unit_id: UnitId { id }, path, mode: MoveMode::Fast }
}

#[test]
fn move_through_occupied_cell_gives_no_event() {
    let mut grid = Grid::new(Size2 { w: 5, h: 5 });
    grid.set_units_count(&MapPos { x: 1, y: 0 }, 1);
    let unit = infantry(0, 0, 5);
    let r = move_events(&grid, &unit, &mv(7, vec![at(0, 0), at(1, 0), at(2, 0)]));
    assert_eq!(r, Err(CommandError::PathBlocked));
}

#[test]
fn legal_move_gives_one_event_per_step() {
    let mut grid = Grid::new(Size2 { w: 5, h: 5 });
    grid.set_terrain(&MapPos { x: 1, y: 0 }, Terrain::Trees);
    let unit = infantry(0, 0, 3);
    let events = move_events(&grid, &unit, &mv(7, vec![at(0, 0), at(1, 0), at(1, 1)])).unwrap();
    assert_eq!(events.len(), 2);
    assert_eq!(
        events[0],
        Event::Move { unit_id: UnitId { id: 7 }, from: at(0, 0), to: at(1, 0), mode: MoveMode::Fast, cost: MovePoints { n: 2 } }
    );
    assert_eq!(
        events[1],
        Event::Move { unit_id: UnitId { id: 7 }, from: at(1, 0), to: at(1, 1), mode: MoveMode::Fast, cost: MovePoints { n: 1 } }
    );
}

#[test]
fn move_errors() {
    let grid = Grid::new(Size2 { w: 5, h: 5 });
    let unit = infantry(0, 0, 2);
    assert_eq!(move_events(&grid, &unit, &Command::EndTurn), Err(CommandError::NotAMove));
    assert_eq!(move_events(&grid, &unit, &mv(8, vec![at(0, 0), at(1, 0)])), Err(CommandError::WrongUnit));
    assert_eq!(move_events(&grid, &unit, &mv(7, vec![at(0, 0)])), Err(CommandError::BadPath));
    assert_eq!(move_events(&grid, &unit, &mv(7, vec![at(1, 0), at(2, 0)])), Err(CommandError::BadPath));
    assert_eq!(move_events(&grid, &unit, &mv(7, vec![at(0, 0), at(2, 0)])), Err(CommandError::BadPath));
    assert_eq!(move_events(&grid, &unit, &mv(7, vec![at(0, 0), at(-1, 0)])), Err(CommandError::BadPath));
    assert_eq!(
        move_events(&grid, &unit, &mv(7, vec![at(0, 0), at(1, 0), at(2, 0), at(3, 0)])),
        Err(CommandError::NotEnoughMovePoints)
    );
    assert_eq!(
        move_unit_events(&grid, &unit, UnitId { id: 7 }, &vec![at(0, 0), at(1, 0), at(2, 0)], MoveMode::Hunt)
            .map(|e| e.len()),
        Ok(2)
    );
}

fn attack() -> Event {
    Event::AttackUnit {
        attack_info: AttackInfo {
            attacker_id: Some(UnitId { id: 1 }),
            mode: FireMode::Reactive,
            is_ambush: false,
            is_inderect: false,
            defender_id: UnitId { id: 2 },
            killed: 1,
            suppression: 20,
            leave_wrecks: false,
        },
    }
}

fn effects() -> Vec<TimedEffect> {
    vec![
        TimedEffect { effect: Effect::Suppression { amount: 20 }, time: Time::Instant },
        TimedEffect { effect: Effect::Damage { killed: 1 }, time: Time::Instant },
        TimedEffect { effect: Effect::Pinned, time: Time::Turns { n: 1 } },
    ]
}

#[test]
fn core_event_keeps_effects_in_order() {
    let c = CoreEvent::new(attack(), vec![(UnitId { id: 2 }, effects())]).unwrap();
    assert_eq!(*c.event(), attack());
    assert_eq!(c.effects().len(), 1);
    assert_eq!(c.effects_of(UnitId { id: 2 }), Some(&effects()));
    assert_eq!(c.effects_of(UnitId { id: 1 }), None);
}

#[test]
fn core_event_rejects_orphan_effect() {
    let r = CoreEvent::new(attack(), vec![(UnitId { id: 2 }, effects()), (UnitId { id: 3 }, effects())]);
    assert_eq!(r.err(), Some(EffectError::OrphanEffect { unit_id: UnitId { id: 3 } }));
    let r = CoreEvent::new(Event::EndTurn { old_id: PlayerId { id: 0 }, new_id: PlayerId { id: 1 } }, vec![(UnitId { id: 2 }, vec![])]);
    assert_eq!(r.err(), Some(EffectError::OrphanEffect { unit_id: UnitId { id: 2 } }));
}

#[test]
fn core_event_rejects_duplicate_unit() {
    let r = CoreEvent::new(attack(), vec![(UnitId { id: 2 }, effects()), (UnitId { id: 1 }, vec![]), (UnitId { id: 2 }, vec![])]);
    assert_eq!(r.err(), Some(EffectError::DuplicateUnit { unit_id: UnitId { id: 2 } }));
}

#[test]
fn event_units() {
    assert!(references_unit(&attack(), UnitId { id: 1 }));
    assert!(references_unit(&attack(), UnitId { id: 2 }));
    assert!(!references_unit(&attack(), UnitId { id: 3 }));
    let smoke = Event::Smoke { id: ObjectId { id: 0 }, pos: MapPos { x: 0, y: 0 }, unit_id: None };
    assert!(!references_unit(&smoke, UnitId { id: 1 }));
    let mode = Event::SetReactionFireMode { unit_id: UnitId { id: 4 }, mode: ReactionFireMode::HoldFire };
    assert!(references_unit(&mode, UnitId { id: 4 }));
    let load = Event::LoadUnit { transporter_id: Some(UnitId { id: 5 }), passenger_id: UnitId { id: 6 }, from: at(0, 0), to: at(1, 0) };
    assert!(references_unit(&load, UnitId { id: 5 }));
    assert!(references_unit(&load, UnitId { id: 6 }));
}
