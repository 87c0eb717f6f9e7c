use vstd::prelude::*;
use crate::objects::Weapon;
use crate::tilemap::{map_index, MapId};

verus! {

/// An enemy as a level places it: where, with what, and the direction it patrols in.
#[derive(Clone, Copy, Debug)]
pub struct EnemySpawn {
    pub pos: (i32, i32),
    pub weapon: Weapon,
    pub patrol_dir: (i32, i32),
}

/// A weapon a level leaves on the floor, unturned.
#[derive(Clone, Copy, Debug)]
pub struct WeaponSpawn {
    pub pos: (i32, i32),
    pub weapon: Weapon,
    pub ammo: u32,
}

/// An axis-aligned rectangle in world units: corner (x, y), width w, height h.
#[derive(PartialEq, Eq, Structural, Clone, Copy, Debug)]
pub struct TriggerRect {
    pub x: i32,
    pub y: i32,
    pub w: i32,
    pub h: i32,
}

/// A level: its map, where the player starts, its enemies and weapons, and the exit that
/// leads to the next map and where the player appears there.
pub struct Level {
    pub map_id: MapId,
    pub player_start: (i32, i32),
    pub enemies: Vec<EnemySpawn>,
    pub dropped_weapons: Vec<WeaponSpawn>,
    pub exit_trigger: TriggerRect,
    pub next_map: Option<MapId>,
    pub next_player_pos: (i32, i32),
}

pub open spec fn spawn(x: i32, y: i32, weapon: Weapon, dx: i32, dy: i32) -> EnemySpawn {
    EnemySpawn { pos: (x, y), weapon, patrol_dir: (dx, dy) }
}

pub open spec fn level_start(m: MapId) -> (i32, i32) {
    match m {
        MapId::House => (600, 600),
        MapId::Level1_1 => (88, 528),
        MapId::Level1_2 => (88, 528),
        MapId::Level2_1 => (100, 100),
        MapId::Level2_2 => (100, 100),
    }
}

pub open spec fn level_exit(m: MapId) -> TriggerRect {
    match m {
        MapId::House => TriggerRect { x: 0, y: 0, w: 350, h: 50 },
        MapId::Level1_1 => TriggerRect { x: 750, y: 100, w: 80, h: 80 },
        MapId::Level1_2 => TriggerRect { x: 80, y: 80, w: 80, h: 80 },
        MapId::Level2_1 => TriggerRect { x: 750, y: 100, w: 80, h: 80 },
        MapId::Level2_2 => TriggerRect { x: 80, y: 80, w: 80, h: 80 },
    }
}

/// The map that follows `m`; the last map leads nowhere.
pub open spec fn level_next(m: MapId) -> Option<MapId> {
    match m {
        MapId::House => Some(MapId::Level1_1),
        MapId::Level1_1 => Some(MapId::Level1_2),
        MapId::Level1_2 => Some(MapId::Level2_1),
        MapId::Level2_1 => Some(MapId::Level2_2),
        MapId::Level2_2 => None,
    }
}

pub open spec fn level_next_pos(m: MapId) -> (i32, i32) {
    match m {
        MapId::House => (88, 528),
        MapId::Level1_1 => (91, 91),
        MapId::Level1_2 => (100, 100),
        MapId::Level2_1 => (100, 100),
        MapId::Level2_2 => (0, 0),
    }
}

pub open spec fn level_enemies(m: MapId) -> Seq<EnemySpawn> {
    match m {
        MapId::House => seq![],
        MapId::Level1_1 => seq![
            spawn(342, 900, Weapon::Pipe, 1, 0),
            spawn(540, 360, Weapon::Knife, 0, 1),
            spawn(990, 220, Weapon::Pistol, 0, 0),
            spawn(990, 855, Weapon::Pipe, 1, 0),
            spawn(1620, 108, Weapon::Knife, 0, 1),
            spawn(1440, 540, Weapon::Rifle, 0, 0),
            spawn(1950, 540, Weapon::Pistol, 1, 0),
            spawn(1890, 405, Weapon::Pipe, 0, 0),
            spawn(1890, 900, Weapon::Knife, 0, 0),
        ],
        MapId::Level1_2 => seq![
            spawn(300, 200, Weapon::Pistol, 0, 1),
            spawn(500, 200, Weapon::Pipe, -1i32, 0),
        ],
        MapId::Level2_1 => seq![
            spawn(250, 150, Weapon::Pipe, -1i32, 0),
            spawn(450, 250, Weapon::Pistol, 0, -1i32),
        ],
        MapId::Level2_2 => seq![
            spawn(300, 150, Weapon::Rifle, 0, 1),
            spawn(500, 300, Weapon::Pistol, -1i32, 0),
            spawn(600, 150, Weapon::Rifle, -1i32, 0),
        ],
    }
}

pub open spec fn level_weapons(m: MapId) -> Seq<WeaponSpawn> {
    match m {
        MapId::Level1_1 => seq![WeaponSpawn { pos: (250, 200), weapon: Weapon::Rifle, ammo: 30 }],
        MapId::Level2_1 => seq![WeaponSpawn { pos: (200, 150), weapon: Weapon::Knife, ammo: 0 }],
        _ => seq![],
    }
}

fn enemy(x: i32, y: i32, weapon: Weapon, dx: i32, dy: i32) -> (r: EnemySpawn)
    ensures
        r == spawn(x, y, weapon, dx, dy),
{
    EnemySpawn { pos: (x, y), weapon, patrol_dir: (dx, dy) }
}

impl Level {
    /// The level played on map `map_id`.
    pub fn get(map_id: MapId) -> (l: Level)
        ensures
            l.map_id == map_id,
            l.player_start == level_start(map_id),
            l.enemies@ == level_enemies(map_id),
            l.dropped_weapons@ == level_weapons(map_id),
            l.exit_trigger == level_exit(map_id),
            l.next_map == level_next(map_id),
            l.next_player_pos == level_next_pos(map_id),
    {
        let mut enemies: Vec<EnemySpawn> = Vec::new();
        let mut dropped_weapons: Vec<WeaponSpawn> = Vec::new();
        let l = match map_id {
            MapId::House => Level {
                map_id,
                player_start: (600, 600),
                enemies,
                dropped_weapons,
                exit_trigger: TriggerRect { x: 0, y: 0, w: 350, h: 50 },
                next_map: Some(MapId::Level1_1),
                next_player_pos: (88, 528),
            },
            MapId::Level1_1 => {
                enemies.push(enemy(342, 900, Weapon::Pipe, 1, 0));
                enemies.push(enemy(540, 360, Weapon::Knife, 0, 1));
                enemies.push(enemy(990, 220, Weapon::Pistol, 0, 0));
                enemies.push(enemy(990, 855, Weapon::Pipe, 1, 0));
                enemies.push(enemy(1620, 108, Weapon::Knife, 0, 1));
                enemies.push(enemy(1440, 540, Weapon::Rifle, 0, 0));
                enemies.push(enemy(1950, 540, Weapon::Pistol, 1, 0));
                enemies.push(enemy(1890, 405, Weapon::Pipe, 0, 0));
                enemies.push(enemy(1890, 900, Weapon::Knife, 0, 0));
                dropped_weapons.push(WeaponSpawn { pos: (250, 200), weapon: Weapon::Rifle, ammo: 30 });
                Level {
                    map_id,
                    player_start: (88, 528),
                    enemies,
                    dropped_weapons,
                    exit_trigger: TriggerRect { x: 750, y: 100, w: 80, h: 80 },
                    next_map: Some(MapId::Level1_2),
                    next_player_pos: (91, 91),
                }
            },
            MapId::Level1_2 => {
                enemies.push(enemy(300, 200, Weapon::Pistol, 0, 1));
                enemies.push(enemy(500, 200, Weapon::Pipe, -1, 0));
                Level {
                    map_id,
                    player_start: (88, 528),
                    enemies,
                    dropped_weapons,
                    exit_trigger: TriggerRect { x: 80, y: 80, w: 80, h: 80 },
                    next_map: Some(MapId::Level2_1),
                    next_player_pos: (100, 100),
                }
            },
            MapId::Level2_1 => {
                enemies.push(enemy(250, 150, Weapon::Pipe, -1, 0));
                enemies.push(enemy(450, 250, Weapon::Pistol, 0, -1));
                dropped_weapons.push(WeaponSpawn { pos: (200, 150), weapon: Weapon::Knife, ammo: 0 });
                Level {
                    map_id,
                    player_start: (100, 100),
                    enemies,
                    dropped_weapons,
                    exit_trigger: TriggerRect { x: 750, y: 100, w: 80, h: 80 },
                    next_map: Some(MapId::Level2_2),
                    next_player_pos: (100, 100),
                }
            },
            MapId::Level2_2 => {
                enemies.push(enemy(300, 150, Weapon::Rifle, 0, 1));
                enemies.push(enemy(500, 300, Weapon::Pistol, -1, 0));
                enemies.push(enemy(600, 150, Weapon::Rifle, -1, 0));
                Level {
                    map_id,
                    player_start: (100, 100),
                    enemies,
                    dropped_weapons,
                    exit_trigger: TriggerRect { x: 80, y: 80, w: 80, h: 80 },
                    next_map: None,
                    next_player_pos: (0, 0),
                }
            },
        };
        assert(l.enemies@ =~= level_enemies(map_id));
        assert(l.dropped_weapons@ =~= level_weapons(map_id));
        l
    }

    /// Where the exit leads when the player stands in it (`player_in_exit`): the next map and the
    /// player's position there; nowhere on the last map.
    pub fn exit_to(&self, player_in_exit: bool) -> (r: Option<(MapId, (i32, i32))>)
        ensures
            r == (match self.next_map {
                Some(n) => if player_in_exit {
                    Some((n, self.next_player_pos))
                } else {
                    None
                },
                None => None,
            }),
    {
        if player_in_exit {
            match self.next_map {
                Some(n) => Some((n, self.next_player_pos)),
                None => None,
            }
        } else {
            None
        }
    }
}

/// Law: each level leads to the map next in the order of play, and only the last map leads nowhere.
pub proof fn lemma_levels_in_order(m: MapId)
    ensures
        level_next(m) matches Some(n) ==> map_index(n) == map_index(m) + 1,
        level_next(m) is None <==> map_index(m) == 4,
{
}

/// Law: every map is reached from the first one by following exits, after as many exits as its
/// place in the order of play.
pub proof fn lemma_all_levels_reached(m: MapId)
    ensures
        reached_after(MapId::House, map_index(m) as nat) == Some(m),
{
    reveal_with_fuel(reached_after, 5);
}

/// The map reached from `m` after `steps` exits, if the exits go that far.
pub open spec fn reached_after(m: MapId, steps: nat) -> Option<MapId>
    decreases steps,
{
    if steps == 0 {
        Some(m)
    } else {
        match level_next(m) {
            Some(n) => reached_after(n, (steps - 1) as nat),
            None => None,
        }
    }
}

} // verus!
