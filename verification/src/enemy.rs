use vstd::prelude::*;
use crate::entity::{
    anim_fresh, anim_of, char_die, pose_of, AnimationState, SoundId, PISTOL_CD_MS, RIFLE_CD_MS,
    STUNNED_FRAMES, STUNNED_ROW,
};
use crate::objects::{is_firearm, weapon_ammo, DroppedWeapon, Weapon};
use crate::player::shot_sound;

verus! {

/// What an enemy is doing.
#[derive(PartialEq, Eq, Structural, Clone, Copy, Debug)]
pub enum EnemyState {
    Patrol,
    MeleeChase,
    RangedChase,
}

/// How an enemy armed with `w` chases: from afar with a firearm, up close otherwise.
pub open spec fn chase_of(w: Weapon) -> EnemyState {
    match w {
        Weapon::Rifle | Weapon::Pistol => EnemyState::RangedChase,
        _ => EnemyState::MeleeChase,
    }
}

pub fn chase_state(weapon: Weapon) -> (s: EnemyState)
    ensures
        s == chase_of(weapon),
        (s == EnemyState::RangedChase) == (weapon == Weapon::Pistol || weapon == Weapon::Rifle),
        s != EnemyState::Patrol,
{
    match weapon {
        Weapon::Rifle | Weapon::Pistol => EnemyState::RangedChase,
        _ => EnemyState::MeleeChase,
    }
}

/// Law: an enemy keeps its distance exactly when it holds a firearm; otherwise it closes in.
/// Either way, a chase is no patrol.
pub proof fn lemma_chase_by_weapon(w: Weapon)
    ensures
        (chase_of(w) == EnemyState::RangedChase) <==> is_firearm(w),
        (chase_of(w) == EnemyState::MeleeChase) <==> !is_firearm(w),
{
}

/// What a blow of the player did to an enemy.
#[derive(PartialEq, Eq, Structural, Clone, Copy, Debug)]
pub enum StrikeOutcome {
    /// The blow changed nothing.
    NoEffect,
    /// Knocked down by fists: stunned and disarmed.
    Knocked,
    /// Killed, with the sound of the blow.
    Killed(SoundId),
}

/// The player's blow lands on an enemy when `player_can_hit` (the player attacks and the enemy
/// is within the attack sector): fists knock down a standing enemy, who drops a weapon it held;
/// a knife or a pipe kills. `place` is where the enemy stands.
pub fn take_strike<P>(
    player_can_hit: bool,
    player_weapon: Weapon,
    place: P,
    is_knock: &mut bool,
    is_attacking: &mut bool,
    is_dead: &mut bool,
    weapon: &mut Weapon,
    torso_anim: &mut AnimationState,
    dropped_weapons: &mut Vec<DroppedWeapon<P>>,
) -> (r: StrikeOutcome)
    ensures
        ({
            let w0 = *old(weapon);
            let d0 = old(dropped_weapons)@;
            let unchanged = *final(is_knock) == *old(is_knock) && *final(is_attacking)
                == *old(is_attacking) && *final(is_dead) == *old(is_dead) && *final(weapon) == w0
                && *final(torso_anim) == *old(torso_anim) && final(dropped_weapons)@ == d0;
            if !player_can_hit {
                r == StrikeOutcome::NoEffect && unchanged
            } else {
                match player_weapon {
                    Weapon::Fists => if !*old(is_knock) {
                        &&& r == StrikeOutcome::Knocked
                        &&& *final(is_knock)
                        &&& *final(is_attacking) == *old(is_attacking)
                        &&& *final(is_dead) == *old(is_dead)
                        &&& *final(torso_anim) == anim_fresh(STUNNED_ROW, STUNNED_FRAMES, 1)
                        &&& if w0 != Weapon::Fists && w0 != Weapon::Dead {
                            &&& *final(weapon) == Weapon::Fists
                            &&& final(dropped_weapons)@ == d0.push(
                                DroppedWeapon { place, weapon: w0, ammo: weapon_ammo(w0) },
                            )
                        } else {
                            *final(weapon) == w0 && final(dropped_weapons)@ == d0
                        }
                    } else {
                        r == StrikeOutcome::NoEffect && unchanged
                    },
                    Weapon::Knife | Weapon::Pipe => {
                        &&& r == StrikeOutcome::Killed(
                            if player_weapon == Weapon::Knife {
                                SoundId::Knife
                            } else {
                                SoundId::Pipe
                            },
                        )
                        &&& *final(is_knock) == *old(is_knock)
                        &&& *final(is_dead)
                        &&& *old(is_dead) ==> unchanged
                        &&& !*old(is_dead) ==> {
                            &&& !*final(is_attacking)
                            &&& *final(weapon) == Weapon::Dead
                            &&& *final(torso_anim) == anim_of(Weapon::Dead)
                            &&& final(dropped_weapons)@ == if w0 != Weapon::Fists && w0
                                != Weapon::Dead {
                                d0.push(DroppedWeapon { place, weapon: w0, ammo: weapon_ammo(w0) })
                            } else {
                                d0
                            }
                        }
                    },
                    _ => r == StrikeOutcome::NoEffect && unchanged,
                }
            }
        }),
{
    if !player_can_hit {
        return StrikeOutcome::NoEffect;
    }
    match player_weapon {
        Weapon::Fists => {
            if !*is_knock {
                *is_knock = true;
                torso_anim.set_state(STUNNED_ROW, STUNNED_FRAMES, 1);
                if *weapon != Weapon::Fists && *weapon != Weapon::Dead {
                    let ammo = weapon.default_ammo();
                    dropped_weapons.push(DroppedWeapon::new(place, *weapon, ammo));
                    *weapon = Weapon::Fists;
                }
                StrikeOutcome::Knocked
            } else {
                StrikeOutcome::NoEffect
            }
        },
        Weapon::Knife => {
            char_die(place, is_attacking, is_dead, weapon, torso_anim, dropped_weapons);
            StrikeOutcome::Killed(SoundId::Knife)
        },
        Weapon::Pipe => {
            char_die(place, is_attacking, is_dead, weapon, torso_anim, dropped_weapons);
            StrikeOutcome::Killed(SoundId::Pipe)
        },
        _ => StrikeOutcome::NoEffect,
    }
}

/// A knocked-down enemy gets up: it takes the attack animation of its weapon again.
pub fn recover_from_knock(weapon: Weapon, is_knock: &mut bool, torso_anim: &mut AnimationState)
    ensures
        !*final(is_knock),
        *final(torso_anim) == anim_of(weapon),
{
    *is_knock = false;
    let (row, frames, fps) = weapon.anim_info();
    torso_anim.set_state(row, frames, fps);
}

/// The enemy's state after it looks for the player: seeing the player, it chases; not seeing
/// them, it chases towards where it last saw them (`last_seen`: whether it is near that spot)
/// and patrols once there, forgetting the spot; with no spot it patrols. The second result
/// tells whether the spot is forgotten.
pub fn state_after_sight(weapon: Weapon, sees_player: bool, last_seen: Option<bool>) -> (r: (EnemyState, bool))
    ensures
        r == (if sees_player {
            (chase_of(weapon), false)
        } else {
            match last_seen {
                Some(true) => (EnemyState::Patrol, true),
                Some(false) => (chase_of(weapon), false),
                None => (EnemyState::Patrol, false),
            }
        }),
        sees_player ==> !r.1 && (r.0 == EnemyState::RangedChase) == (weapon == Weapon::Pistol
            || weapon == Weapon::Rifle) && r.0 != EnemyState::Patrol,
        !sees_player && last_seen == Some(true) ==> r == (EnemyState::Patrol, true),
        !sees_player && last_seen is None ==> r == (EnemyState::Patrol, false),
        !sees_player && last_seen == Some(false) ==> !r.1 && (r.0 == EnemyState::RangedChase) == (
        weapon == Weapon::Pistol || weapon == Weapon::Rifle) && r.0 != EnemyState::Patrol,
{
    if sees_player {
        (chase_state(weapon), false)
    } else {
        match last_seen {
            Some(reached) => if reached {
                (EnemyState::Patrol, true)
            } else {
                (chase_state(weapon), false)
            },
            None => (EnemyState::Patrol, false),
        }
    }
}

/// A close-combat enemy starts a swing when it sees the player within reach, its cooldown is
/// over and it is not swinging already; the weapon's attack animation starts.
pub fn start_melee(
    ready: bool,
    weapon: Weapon,
    is_attacking: &mut bool,
    torso_anim: &mut AnimationState,
) -> (started: bool)
    ensures
        started == (ready && !*old(is_attacking)),
        started ==> *final(is_attacking) && *final(torso_anim) == anim_of(weapon),
        !started ==> *final(is_attacking) == *old(is_attacking) && *final(torso_anim) == *old(
            torso_anim,
        ),
{
    if ready && !*is_attacking {
        *is_attacking = true;
        let (row, frames, fps) = weapon.anim_info();
        torso_anim.set_state(row, frames, fps);
        true
    } else {
        false
    }
}

/// Cooldown after an enemy fires `w`, in milliseconds.
pub fn enemy_shot_cooldown_ms(w: Weapon) -> (r: u32)
    ensures
        r == (if w == Weapon::Rifle {
            RIFLE_CD_MS
        } else {
            PISTOL_CD_MS
        }),
{
    match w {
        Weapon::Rifle => RIFLE_CD_MS,
        _ => PISTOL_CD_MS,
    }
}

/// What a ranged enemy does in one frame of its chase.
#[derive(PartialEq, Eq, Structural, Clone, Copy, Debug)]
pub enum RangedAct {
    /// It sees the player: it follows the flow field unless the player is close (`advance`),
    /// and may fire once it has moved (`ready_to_fire`: cooldown and reaction time over, aimed).
    Engage { advance: bool, ready_to_fire: bool },
    /// It lost sight of the player but knows where they were: it stops attacking and heads there.
    Pursue,
    /// It has nothing to go on.
    Idle,
}

/// One frame of a ranged chase. Seeing the player, the enemy holds its ground when the player
/// is close and advances otherwise, and is ready to fire when its cooldown and reaction time
/// are over and it is aimed. Not seeing the player, it stops attacking and pursues the last
/// known position, if it has one.
pub fn ranged_chase(
    sees_player: bool,
    knows_last_pos: bool,
    player_close: bool,
    cooldown_ready: bool,
    reaction_ready: bool,
    aimed: bool,
    is_attacking: &mut bool,
) -> (act: RangedAct)
    ensures
        sees_player ==> act == (RangedAct::Engage {
            advance: !player_close,
            ready_to_fire: cooldown_ready && reaction_ready && aimed,
        }) && *final(is_attacking) == *old(is_attacking),
        !sees_player && knows_last_pos ==> act == RangedAct::Pursue && !*final(is_attacking),
        !sees_player && !knows_last_pos ==> act == RangedAct::Idle && *final(is_attacking)
            == *old(is_attacking),
{
    if sees_player {
        RangedAct::Engage {
            advance: !player_close,
            ready_to_fire: cooldown_ready && reaction_ready && aimed,
        }
    } else if knows_last_pos {
        *is_attacking = false;
        RangedAct::Pursue
    } else {
        RangedAct::Idle
    }
}

/// A ranged enemy ready to fire shoots when the shot is clear: it attacks, and the result is
/// the sound of the shot and the cooldown that follows, in milliseconds.
pub fn open_fire(
    weapon: Weapon,
    ready_to_fire: bool,
    clear_shot: bool,
    is_attacking: &mut bool,
) -> (shot: Option<(Option<SoundId>, u32)>)
    ensures
        ready_to_fire && clear_shot ==> {
            &&& *final(is_attacking)
            &&& shot == Some((
                match weapon {
                    Weapon::Rifle => Some(SoundId::Ak47),
                    Weapon::Pistol => Some(SoundId::Pistol),
                    _ => None,
                },
                if weapon == Weapon::Rifle { RIFLE_CD_MS } else { PISTOL_CD_MS },
            ))
        },
        !(ready_to_fire && clear_shot) ==> shot is None && *final(is_attacking) == *old(
            is_attacking,
        ),
{
    if ready_to_fire && clear_shot {
        *is_attacking = true;
        Some((shot_sound(weapon), enemy_shot_cooldown_ms(weapon)))
    } else {
        None
    }
}

/// An enemy not attacking holds its weapon's attack animation from the first frame.
pub fn hold_weapon_anim(weapon: Weapon, is_attacking: bool, torso_anim: &mut AnimationState)
    ensures
        !is_attacking ==> *final(torso_anim) == anim_of(weapon),
        is_attacking ==> *final(torso_anim) == *old(torso_anim),
{
    if !is_attacking {
        let (row, frames, fps) = weapon.anim_info();
        torso_anim.set_state(row, frames, fps);
    }
}

/// An enemy's attack animation finished a cycle: a rifleman at range keeps firing, the
/// animation starting over; anyone else stops attacking and holds the weapon's pose.
pub fn attack_cycle_done(
    weapon: Weapon,
    state: EnemyState,
    is_attacking: &mut bool,
    torso_anim: &mut AnimationState,
)
    ensures
        weapon == Weapon::Rifle && state == EnemyState::RangedChase ==> {
            &&& *final(is_attacking) == *old(is_attacking)
            &&& *final(torso_anim) == (AnimationState {
                current_frame: 0,
                frame_timer_bits: 0,
                ..*old(torso_anim)
            })
        },
        !(weapon == Weapon::Rifle && state == EnemyState::RangedChase) ==> {
            &&& !*final(is_attacking)
            &&& *final(torso_anim) == pose_of(weapon)
        },
{
    let keep_shooting = weapon == Weapon::Rifle && state == EnemyState::RangedChase;
    if keep_shooting {
        torso_anim.reset();
    } else {
        *is_attacking = false;
        let row = weapon.anim_info().0;
        torso_anim.set_state(row, 1, 1);
    }
}

/// A shot was heard: an enemy on patrol starts to chase.
pub fn hear_shot(weapon: Weapon, state: &mut EnemyState)
    ensures
        *final(state) == if *old(state) == EnemyState::Patrol {
            chase_of(weapon)
        } else {
            *old(state)
        },
        *old(state) == EnemyState::Patrol ==> (*final(state) == EnemyState::RangedChase) == (weapon
            == Weapon::Pistol || weapon == Weapon::Rifle) && *final(state) != EnemyState::Patrol,
{
    if *state == EnemyState::Patrol {
        *state = chase_state(weapon);
    }
}

} // verus!
