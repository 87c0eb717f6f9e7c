use dolbaeb_simulator::enemy::{
    attack_cycle_done, chase_state, enemy_shot_cooldown_ms, hear_shot, hold_weapon_anim, open_fire,
    ranged_chase, recover_from_knock, start_melee, state_after_sight, take_strike, EnemyState,
    RangedAct, StrikeOutcome,
};
use dolbaeb_simulator::entity::{
    char_die, AnimationState, SoundId, DEAD_FRAMES, DEAD_ROW, PUNCH_ROW, STUNNED_FRAMES, STUNNED_ROW,
};
use dolbaeb_simulator::objects::{DroppedWeapon, Weapon};
use dolbaeb_simulator::player::{
    begin_execution, finish_attack, finish_execution, finisher_sound, first_set, handle_pickup, shot_cooldown_ms,
    shot_sound, start_attack, AttackStart,
};

fn anim() -> AnimationState {
    AnimationState::new(1, 1, PUNCH_ROW)
}

#[test]
fn weapon_tables() {
    assert_eq!(Weapon::Rifle.default_ammo(), 30);
    assert_eq!(Weapon::Pistol.default_ammo(), 12);
    assert_eq!(Weapon::Knife.default_ammo(), 0);
    assert_eq!(Weapon::Fists.anim_info(), (0, 7, 14));
    assert_eq!(Weapon::Knife.anim_info(), (2, 5, 12));
    assert_eq!(Weapon::Rifle.anim_info(), (4, 2, 14));
    assert_eq!(Weapon::Dead.anim_info(), (DEAD_ROW, DEAD_FRAMES, 14));
    assert!(Weapon::Pistol.is_firearm());
    assert!(!Weapon::Pipe.is_firearm());
}

#[test]
fn animation_frames_wrap_around() {
    let mut a = AnimationState::new(3, 12, 2);
    assert!(a.animates());
    assert!(!a.advance_frame());
    assert_eq!(a.current_frame, 1);
    assert!(!a.advance_frame());
    assert!(a.advance_frame());
    assert_eq!(a.current_frame, 0);
    a.frame_timer_bits = 0.25f32.to_bits();
    a.reset();
    assert_eq!(a.frame_timer_bits, 0);
    a.set_state(7, 1, 1);
    assert!(!a.animates());
    assert_eq!((a.row_index, a.num_frames, a.fps, a.current_frame), (7, 1, 1, 0));
}

#[test]
fn animations_loop_over_their_frames() {
    let mut a = AnimationState::new(5, 14, 6);
    assert!(!a.advance_frame());
    let mut cycles = 0;
    for _ in 0..7 {
        if a.advance_frame() {
            cycles += 1;
        }
    }
    assert_eq!(a.current_frame, (1 + 7) % 5);
    assert_eq!(cycles, 1);
    assert_eq!((a.row_index, a.num_frames, a.fps, a.frame_timer_bits), (6, 5, 14, 0));
}

#[test]
fn update_steps_only_when_a_frame_is_due() {
    let mut still = AnimationState::new(1, 14, 3);
    assert!(!still.update(true));
    assert_eq!(still.current_frame, 0);
    let mut a = AnimationState::new(2, 14, 3);
    assert!(!a.update(false));
    assert_eq!(a.current_frame, 0);
    assert!(!a.update(true));
    assert_eq!(a.current_frame, 1);
    assert!(a.update(true));
    assert_eq!(a.current_frame, 0);
}

#[test]
fn dying_drops_the_weapon_with_default_ammo() {
    let (mut attacking, mut dead, mut weapon, mut torso) = (true, false, Weapon::Rifle, anim());
    let mut dropped: Vec<DroppedWeapon<(i32, i32)>> = Vec::new();
    char_die((5, 6), &mut attacking, &mut dead, &mut weapon, &mut torso, &mut dropped);
    assert!(!attacking && dead);
    assert_eq!(weapon, Weapon::Dead);
    assert_eq!((torso.row_index, torso.num_frames), (DEAD_ROW, DEAD_FRAMES));
    assert_eq!(dropped.len(), 1);
    assert_eq!((dropped[0].place, dropped[0].weapon, dropped[0].ammo), ((5, 6), Weapon::Rifle, 30));
    // Dying twice changes nothing.
    char_die((0, 0), &mut attacking, &mut dead, &mut weapon, &mut torso, &mut dropped);
    assert_eq!(dropped.len(), 1);
}

#[test]
fn fists_are_not_dropped_on_death() {
    let (mut attacking, mut dead, mut weapon, mut torso) = (false, false, Weapon::Fists, anim());
    let mut dropped: Vec<DroppedWeapon<u8>> = Vec::new();
    char_die(1, &mut attacking, &mut dead, &mut weapon, &mut torso, &mut dropped);
    assert!(dropped.is_empty());
    assert!(dead);
}

#[test]
fn picking_up_swaps_weapons() {
    let mut dropped = vec![DroppedWeapon::new('a', Weapon::Knife, 0), DroppedWeapon::new('b', Weapon::Rifle, 17)];
    let (mut weapon, mut ammo, mut attacking, mut torso) = (Weapon::Pistol, 3, true, anim());
    handle_pickup(true, 'p', &vec![false, true], &mut weapon, &mut ammo, &mut attacking, &mut torso, &mut dropped);
    assert_eq!((weapon, ammo, attacking), (Weapon::Rifle, 17, false));
    assert_eq!((torso.row_index, torso.num_frames, torso.fps), (4, 1, 1));
    assert_eq!(dropped.len(), 2);
    assert_eq!((dropped[0].place, dropped[0].weapon), ('a', Weapon::Knife));
    assert_eq!((dropped[1].place, dropped[1].weapon, dropped[1].ammo), ('p', Weapon::Pistol, 3));
}

#[test]
fn picking_up_with_bare_hands_leaves_nothing() {
    let mut dropped = vec![DroppedWeapon::new(0u8, Weapon::Knife, 0)];
    let (mut weapon, mut ammo, mut attacking, mut torso) = (Weapon::Fists, 0, false, anim());
    handle_pickup(true, 9u8, &vec![true], &mut weapon, &mut ammo, &mut attacking, &mut torso, &mut dropped);
    assert_eq!(weapon, Weapon::Knife);
    assert!(dropped.is_empty());
}

#[test]
fn touching_nothing_puts_the_weapon_down() {
    let mut dropped: Vec<DroppedWeapon<u8>> = vec![DroppedWeapon::new(0, Weapon::Knife, 0)];
    let (mut weapon, mut ammo, mut attacking, mut torso) = (Weapon::Pistol, 4, true, anim());
    handle_pickup(true, 7, &vec![false], &mut weapon, &mut ammo, &mut attacking, &mut torso, &mut dropped);
    assert_eq!((weapon, ammo, attacking), (Weapon::Fists, 0, false));
    assert_eq!(dropped.len(), 2);
    assert_eq!((dropped[1].place, dropped[1].weapon, dropped[1].ammo), (7, Weapon::Pistol, 4));
    // Bare hands and nothing touched: nothing happens; no key: nothing happens.
    let mut torso2 = anim();
    handle_pickup(true, 8, &vec![false, false], &mut weapon, &mut ammo, &mut attacking, &mut torso2, &mut dropped);
    assert_eq!(dropped.len(), 2);
    handle_pickup(false, 8, &vec![true, true], &mut weapon, &mut ammo, &mut attacking, &mut torso2, &mut dropped);
    assert_eq!(weapon, Weapon::Fists);
}

#[test]
fn firing_uses_a_round() {
    let (mut ammo, mut attacking, mut torso) = (2, false, anim());
    assert_eq!(start_attack(Weapon::Pistol, &mut ammo, &mut attacking, &mut torso, true, false, true), AttackStart::Shot);
    assert_eq!(ammo, 1);
    assert!(attacking);
    assert_eq!((torso.row_index, torso.num_frames, torso.fps), (3, 2, 12));
    // Already attacking: nothing.
    assert_eq!(start_attack(Weapon::Pistol, &mut ammo, &mut attacking, &mut torso, true, false, true), AttackStart::Nothing);
    finish_attack(Weapon::Pistol, &mut attacking, &mut torso);
    assert!(!attacking);
    assert_eq!((torso.row_index, torso.num_frames, torso.fps), (3, 1, 1));
}

#[test]
fn empty_guns_and_cooldowns_block_attacks() {
    let (mut ammo, mut attacking, mut torso) = (0, false, anim());
    assert_eq!(start_attack(Weapon::Rifle, &mut ammo, &mut attacking, &mut torso, false, true, true), AttackStart::Nothing);
    let mut ammo = 5;
    assert_eq!(start_attack(Weapon::Rifle, &mut ammo, &mut attacking, &mut torso, true, false, true), AttackStart::Nothing);
    assert_eq!(start_attack(Weapon::Rifle, &mut ammo, &mut attacking, &mut torso, false, true, false), AttackStart::Nothing);
    assert_eq!(start_attack(Weapon::Rifle, &mut ammo, &mut attacking, &mut torso, false, true, true), AttackStart::Shot);
    assert_eq!(ammo, 4);
    let (mut ammo, mut attacking) = (0, false);
    assert_eq!(start_attack(Weapon::Knife, &mut ammo, &mut attacking, &mut torso, true, false, true), AttackStart::Swing);
}

#[test]
fn sounds_and_cooldowns() {
    assert_eq!(shot_cooldown_ms(Weapon::Rifle), 100);
    assert_eq!(shot_cooldown_ms(Weapon::Pistol), 300);
    assert_eq!(shot_cooldown_ms(Weapon::Knife), 0);
    assert_eq!(enemy_shot_cooldown_ms(Weapon::Rifle), 100);
    assert_eq!(enemy_shot_cooldown_ms(Weapon::Pistol), 300);
    assert_eq!(shot_sound(Weapon::Rifle), Some(SoundId::Ak47));
    assert_eq!(shot_sound(Weapon::Pipe), None);
    assert_eq!(finisher_sound(Weapon::Fists), Some(SoundId::Pipe));
    assert_eq!(finisher_sound(Weapon::Knife), Some(SoundId::Knife));
    assert_eq!(finisher_sound(Weapon::Rifle), None);
}

#[test]
fn executions_need_a_melee_weapon_and_a_target() {
    let mut torso = anim();
    assert_eq!(begin_execution(Weapon::Pipe, false, true, &vec![false, true, true], &mut torso), Some(1));
    assert_eq!((torso.row_index, torso.num_frames, torso.fps), (8, 6, 10));
    let mut torso = anim();
    assert_eq!(begin_execution(Weapon::Fists, false, true, &vec![true], &mut torso), Some(0));
    assert_eq!((torso.row_index, torso.num_frames, torso.fps), (9, 12, 12));
    let mut torso = anim();
    assert_eq!(begin_execution(Weapon::Rifle, false, true, &vec![true], &mut torso), None);
    assert_eq!(begin_execution(Weapon::Knife, true, true, &vec![true], &mut torso), None);
    assert_eq!(begin_execution(Weapon::Knife, false, false, &vec![true], &mut torso), None);
    assert_eq!(begin_execution(Weapon::Knife, false, true, &vec![false], &mut torso), None);
    assert_eq!(torso.num_frames, 1);
    assert_eq!(first_set(&vec![false, false, true]), Some(2));
    assert_eq!(first_set(&vec![]), None);
}

#[test]
fn fists_knock_down_and_disarm() {
    let (mut knock, mut attacking, mut dead, mut weapon, mut torso) = (false, true, false, Weapon::Pistol, anim());
    let mut dropped: Vec<DroppedWeapon<u8>> = Vec::new();
    let r = take_strike(true, Weapon::Fists, 3, &mut knock, &mut attacking, &mut dead, &mut weapon, &mut torso, &mut dropped);
    assert_eq!(r, StrikeOutcome::Knocked);
    assert!(knock && !dead);
    assert_eq!(weapon, Weapon::Fists);
    assert_eq!((torso.row_index, torso.num_frames), (STUNNED_ROW, STUNNED_FRAMES));
    assert_eq!((dropped[0].place, dropped[0].weapon, dropped[0].ammo), (3, Weapon::Pistol, 12));
    // Already down: fists do nothing more.
    let r = take_strike(true, Weapon::Fists, 3, &mut knock, &mut attacking, &mut dead, &mut weapon, &mut torso, &mut dropped);
    assert_eq!(r, StrikeOutcome::NoEffect);
    recover_from_knock(weapon, &mut knock, &mut torso);
    assert!(!knock);
    assert_eq!((torso.row_index, torso.num_frames, torso.fps), (0, 7, 14));
}

#[test]
fn blades_and_pipes_kill() {
    let (mut knock, mut attacking, mut dead, mut weapon, mut torso) = (false, false, false, Weapon::Rifle, anim());
    let mut dropped: Vec<DroppedWeapon<u8>> = Vec::new();
    let r = take_strike(true, Weapon::Knife, 1, &mut knock, &mut attacking, &mut dead, &mut weapon, &mut torso, &mut dropped);
    assert_eq!(r, StrikeOutcome::Killed(SoundId::Knife));
    assert!(dead);
    assert_eq!(weapon, Weapon::Dead);
    assert_eq!(dropped[0].ammo, 30);
    let mut dead2 = false;
    let mut w2 = Weapon::Knife;
    let r = take_strike(true, Weapon::Pipe, 1, &mut knock, &mut attacking, &mut dead2, &mut w2, &mut torso, &mut dropped);
    assert_eq!(r, StrikeOutcome::Killed(SoundId::Pipe));
    let r = take_strike(false, Weapon::Pipe, 1, &mut knock, &mut attacking, &mut dead2, &mut w2, &mut torso, &mut dropped);
    assert_eq!(r, StrikeOutcome::NoEffect);
    let r = take_strike(true, Weapon::Rifle, 1, &mut knock, &mut attacking, &mut dead2, &mut w2, &mut torso, &mut dropped);
    assert_eq!(r, StrikeOutcome::NoEffect);
}

#[test]
fn enemy_states() {
    assert_eq!(chase_state(Weapon::Rifle), EnemyState::RangedChase);
    assert_eq!(chase_state(Weapon::Knife), EnemyState::MeleeChase);
    assert_eq!(state_after_sight(Weapon::Pistol, true, None), (EnemyState::RangedChase, false));
    assert_eq!(state_after_sight(Weapon::Pipe, false, Some(false)), (EnemyState::MeleeChase, false));
    assert_eq!(state_after_sight(Weapon::Pipe, false, Some(true)), (EnemyState::Patrol, true));
    assert_eq!(state_after_sight(Weapon::Pipe, false, None), (EnemyState::Patrol, false));
    let mut s = EnemyState::Patrol;
    hear_shot(Weapon::Pistol, &mut s);
    assert_eq!(s, EnemyState::RangedChase);
    let mut s = EnemyState::MeleeChase;
    hear_shot(Weapon::Pistol, &mut s);
    assert_eq!(s, EnemyState::MeleeChase);
}

#[test]
fn enemy_attack_animation() {
    let (mut attacking, mut torso) = (false, anim());
    assert!(start_melee(true, Weapon::Knife, &mut attacking, &mut torso));
    assert!(attacking);
    assert!(!start_melee(true, Weapon::Knife, &mut attacking, &mut torso));
    torso.current_frame = 3;
    attack_cycle_done(Weapon::Rifle, EnemyState::RangedChase, &mut attacking, &mut torso);
    assert!(attacking);
    assert_eq!(torso.current_frame, 0);
    attack_cycle_done(Weapon::Knife, EnemyState::MeleeChase, &mut attacking, &mut torso);
    assert!(!attacking);
    assert_eq!((torso.row_index, torso.num_frames), (2, 1));
    hold_weapon_anim(Weapon::Pistol, false, &mut torso);
    assert_eq!((torso.row_index, torso.num_frames, torso.fps), (3, 2, 12));
    torso.current_frame = 1;
    hold_weapon_anim(Weapon::Rifle, true, &mut torso);
    assert_eq!(torso.current_frame, 1);
}

#[test]
fn ranged_enemies_engage_pursue_or_wait() {
    let mut attacking = false;
    let act = ranged_chase(true, true, true, true, true, true, &mut attacking);
    assert_eq!(act, RangedAct::Engage { advance: false, ready_to_fire: true });
    assert!(!attacking);
    let act = ranged_chase(true, false, false, true, false, true, &mut attacking);
    assert_eq!(act, RangedAct::Engage { advance: true, ready_to_fire: false });
    let mut attacking = true;
    assert_eq!(ranged_chase(false, true, false, true, true, true, &mut attacking), RangedAct::Pursue);
    assert!(!attacking);
    let mut attacking = true;
    assert_eq!(ranged_chase(false, false, false, true, true, true, &mut attacking), RangedAct::Idle);
    assert!(attacking);
}

#[test]
fn ranged_enemies_fire_only_with_a_clear_shot() {
    let mut attacking = false;
    assert_eq!(open_fire(Weapon::Rifle, true, false, &mut attacking), None);
    assert!(!attacking);
    assert_eq!(open_fire(Weapon::Pistol, false, true, &mut attacking), None);
    assert_eq!(
        open_fire(Weapon::Rifle, true, true, &mut attacking),
        Some((Some(SoundId::Ak47), 100))
    );
    assert!(attacking);
    let mut attacking = false;
    assert_eq!(
        open_fire(Weapon::Pistol, true, true, &mut attacking),
        Some((Some(SoundId::Pistol), 300))
    );
    assert_eq!(open_fire(Weapon::Knife, true, true, &mut attacking), Some((None, 300)));
}

fn arsenal_of(weapon: Weapon, ammo: u32, floor: &[DroppedWeapon<u8>]) -> Vec<(String, u32)> {
    let mut all: Vec<(String, u32)> = floor.iter().map(|d| (format!("{:?}", d.weapon), d.ammo)).collect();
    if weapon != Weapon::Fists {
        all.push((format!("{:?}", weapon), ammo));
    }
    all.sort();
    all
}

#[test]
fn pickups_neither_make_nor_destroy_weapons() {
    let mut dropped = vec![
        DroppedWeapon::new(0u8, Weapon::Knife, 0),
        DroppedWeapon::new(1u8, Weapon::Rifle, 17),
        DroppedWeapon::new(2u8, Weapon::Pistol, 5),
    ];
    let (mut weapon, mut ammo, mut attacking, mut torso) = (Weapon::Pipe, 0, false, anim());
    let before = arsenal_of(weapon, ammo, &dropped);
    for touching in [
        vec![false, true, true, false, false],
        vec![false, false, false, false, false],
        vec![true, false, false, false, false],
        vec![false, false, true, true, false],
    ] {
        let touching = touching[..dropped.len()].to_vec();
        handle_pickup(true, 9, &touching, &mut weapon, &mut ammo, &mut attacking, &mut torso, &mut dropped);
        assert_eq!(arsenal_of(weapon, ammo, &dropped), before);
    }
}

#[test]
fn finishing_an_execution_kills_a_living_target_and_steps_back() {
    let mut torso = AnimationState::new(12, 12, 9);
    let (mut pos, mut executing, mut idx) = ((5, 5), true, Some(1usize));
    let kill = finish_execution(Weapon::Knife, &vec![true, true], &mut pos, (1, 2), &mut executing, &mut idx, &mut torso);
    assert_eq!(kill, Some((1, Some(SoundId::Knife))));
    assert_eq!((pos, executing, idx), ((1, 2), false, None));
    assert_eq!((torso.row_index, torso.num_frames, torso.fps, torso.current_frame), (2, 1, 1, 0));

    let (mut pos, mut executing, mut idx) = ((5, 5), true, Some(0usize));
    let kill = finish_execution(Weapon::Fists, &vec![false], &mut pos, (0, 0), &mut executing, &mut idx, &mut torso);
    assert_eq!(kill, None);
    assert_eq!((pos, executing, idx), ((0, 0), false, None));

    let (mut pos, mut executing, mut idx) = ((5, 5), true, Some(3usize));
    let kill = finish_execution(Weapon::Pipe, &vec![true], &mut pos, (0, 0), &mut executing, &mut idx, &mut torso);
    assert_eq!(kill, None);
    assert_eq!(torso.row_index, 1);
}
