use dolbaeb_simulator::input::{LockTarget, VirtualCursor};
use dolbaeb_simulator::level::{Level, TriggerRect};
use dolbaeb_simulator::objects::Weapon;
use dolbaeb_simulator::tilemap::MapId;

#[test]
fn the_house_leads_to_the_first_level() {
    let l = Level::get(MapId::House);
    assert_eq!(l.map_id, MapId::House);
    assert_eq!(l.player_start, (600, 600));
    assert!(l.enemies.is_empty());
    assert_eq!(l.exit_trigger, TriggerRect { x: 0, y: 0, w: 350, h: 50 });
    assert_eq!(l.exit_to(true), Some((MapId::Level1_1, (88, 528))));
    assert_eq!(l.exit_to(false), None);
}

#[test]
fn first_level_layout() {
    let l = Level::get(MapId::Level1_1);
    assert_eq!(l.enemies.len(), 9);
    assert_eq!(l.enemies[5].weapon, Weapon::Rifle);
    assert_eq!(l.enemies[5].pos, (1440, 540));
    assert_eq!(l.enemies[1].patrol_dir, (0, 1));
    assert_eq!(l.dropped_weapons.len(), 1);
    assert_eq!((l.dropped_weapons[0].pos, l.dropped_weapons[0].weapon, l.dropped_weapons[0].ammo), ((250, 200), Weapon::Rifle, 30));
    assert_eq!(l.next_map, Some(MapId::Level1_2));
}

#[test]
fn levels_follow_in_order_and_the_last_has_no_exit() {
    let mut m = MapId::House;
    let mut seen = vec![m];
    while let Some((n, _)) = Level::get(m).exit_to(true) {
        assert_eq!(n.index(), m.index() + 1);
        m = n;
        seen.push(m);
    }
    assert_eq!(seen.len(), 5);
    assert_eq!(m, MapId::Level2_2);
    assert_eq!(Level::get(MapId::Level2_2).enemies.len(), 3);
}

fn target(p: (i32, i32), dead: bool) -> LockTarget<(i32, i32)> {
    LockTarget { pos: p, is_dead: dead }
}

#[test]
fn cursor_locks_on_and_off() {
    let mut c = VirtualCursor::new((0, 0));
    let targets = vec![target((10, 10), false), target((20, 20), false)];
    c.update(false, (1, 1), &targets, false, Some(1));
    assert!(!c.is_locked());
    assert_eq!(c.world_pos, (1, 1));
    c.update(false, (1, 1), &targets, true, Some(1));
    assert_eq!(c.locked_enemy_idx, Some(1));
    assert_eq!(c.world_pos, (20, 20));
    c.update(false, (2, 2), &targets, false, None);
    assert_eq!(c.world_pos, (20, 20));
    c.update(false, (2, 2), &targets, true, Some(0));
    assert!(!c.is_locked());
    assert_eq!(c.world_pos, (2, 2));
}

#[test]
fn cursor_drops_dead_or_missing_targets() {
    let mut c = VirtualCursor::new((0, 0));
    let targets = vec![target((10, 10), false)];
    c.update(false, (1, 1), &targets, true, Some(0));
    assert!(c.is_locked());
    let dead = vec![target((10, 10), true)];
    c.update(false, (3, 3), &dead, false, None);
    assert!(!c.is_locked());
    assert_eq!(c.world_pos, (3, 3));
    c.update(false, (1, 1), &targets, true, Some(0));
    c.update(false, (4, 4), &vec![], false, None);
    assert!(!c.is_locked());
    c.update(false, (1, 1), &targets, true, Some(0));
    c.update(true, (5, 5), &targets, false, None);
    assert!(!c.is_locked());
    assert_eq!(c.world_pos, (5, 5));
}
