use vstd::prelude::*;
use crate::entity::{
    anim_fresh, anim_of, pose_of, AnimationState, SoundId, EXECUTE_FISTS_FRAMES, EXECUTE_FISTS_ROW,
    EXECUTE_KNIFE_FRAMES, EXECUTE_KNIFE_ROW, EXECUTE_PIPE_FRAMES, EXECUTE_PIPE_ROW, PISTOL_CD_MS,
    PUNCH_ROW, RIFLE_CD_MS,
};
use crate::objects::{is_firearm, DroppedWeapon, Weapon};

verus! {

/// Index of the first `true` in `s` at or after `i`.
pub open spec fn first_from(s: Seq<bool>, i: int) -> Option<int>
    decreases s.len() - i,
{
    if i < 0 || i >= s.len() {
        None
    } else if s[i] {
        Some(i)
    } else {
        first_from(s, i + 1)
    }
}

proof fn lemma_first_from_bounds(s: Seq<bool>, i: int)
    requires
        0 <= i,
    ensures
        first_from(s, i) matches Some(j) ==> i <= j < s.len() && s[j],
    decreases s.len() - i,
{
    if i < s.len() && !s[i] {
        lemma_first_from_bounds(s, i + 1);
    }
}

/// Law: the search for the first `true` from `i` finds one exactly when there is one, and
/// what it finds is a `true` with none before it.
pub proof fn lemma_first_from_finds(s: Seq<bool>, i: int)
    requires
        0 <= i,
    ensures
        first_from(s, i) is Some <==> exists|j: int| i <= j < s.len() && s[j],
        first_from(s, i) matches Some(j) ==> i <= j < s.len() && s[j] && forall|k: int|
            i <= k < j ==> !s[k],
    decreases s.len() - i,
{
    if i < s.len() && !s[i] {
        lemma_first_from_finds(s, i + 1);
        if exists|j: int| i <= j < s.len() && s[j] {
            let j = choose|j: int| i <= j < s.len() && s[j];
            assert(i + 1 <= j);
        }
    }
}

/// Law: only the rifle fires while the button is held; every other weapon needs a fresh press.
pub proof fn lemma_fresh_press_needed(w: Weapon, pressed: bool, held: bool)
    ensures
        w != Weapon::Rifle ==> attack_triggered(w, pressed, held) == pressed,
        attack_triggered(Weapon::Rifle, pressed, held) == held,
{
}

/// Law: exactly the close-combat weapons (fists, pipe, knife) can finish off an enemy: not a
/// firearm, and not the dead hand.
pub proof fn lemma_execution_weapons(w: Weapon)
    ensures
        can_execute(w) <==> (!is_firearm(w) && w != Weapon::Dead),
{
}

/// Index of the first `true` in `flags`.
pub fn first_set(flags: &Vec<bool>) -> (r: Option<usize>)
    ensures
        match r {
            Some(i) => first_from(flags@, 0) == Some(i as int) && i < flags.len() && flags@[i as int],
            None => first_from(flags@, 0) is None,
        },
{
    let mut i: usize = 0;
    while i < flags.len()
        invariant
            i <= flags.len(),
            first_from(flags@, 0) == first_from(flags@, i as int),
        decreases flags.len() - i,
    {
        if flags[i] {
            return Some(i);
        }
        i = i + 1;
    }
    None
}

/// The weapon in hand, its rounds and the weapons on the floor after the pick-up key
/// (`action`), as `handle_pickup` leaves them.
pub open spec fn pickup<P>(
    action: bool,
    here: P,
    touching: Seq<bool>,
    w0: Weapon,
    a0: u32,
    d0: Seq<DroppedWeapon<P>>,
) -> (Weapon, u32, Seq<DroppedWeapon<P>>) {
    let left = DroppedWeapon { place: here, weapon: w0, ammo: a0 };
    if !action {
        (w0, a0, d0)
    } else {
        match first_from(touching, 0) {
            Some(i) => (
                d0[i].weapon,
                d0[i].ammo,
                if w0 != Weapon::Fists {
                    d0.remove(i).push(left)
                } else {
                    d0.remove(i)
                },
            ),
            None => if w0 != Weapon::Fists {
                (Weapon::Fists, 0, d0.push(left))
            } else {
                (w0, a0, d0)
            },
        }
    }
}

/// Every weapon there is, with its rounds: those on the floor and the one in hand, bare
/// fists not counted.
pub open spec fn arsenal<P>(weapon: Weapon, ammo: u32, floor: Seq<DroppedWeapon<P>>) -> vstd::multiset::Multiset<
    (Weapon, u32),
> {
    let on_floor = floor.map_values(|d: DroppedWeapon<P>| (d.weapon, d.ammo)).to_multiset();
    if weapon != Weapon::Fists {
        on_floor.insert((weapon, ammo))
    } else {
        on_floor
    }
}

/// Law: picking up, swapping and putting down neither make nor destroy a weapon or its
/// rounds, as long as no bare fists lie on the floor.
pub proof fn lemma_pickup_keeps_arsenal<P>(
    action: bool,
    here: P,
    touching: Seq<bool>,
    w0: Weapon,
    a0: u32,
    d0: Seq<DroppedWeapon<P>>,
)
    requires
        touching.len() == d0.len(),
        forall|i: int| 0 <= i < d0.len() ==> (#[trigger] d0[i]).weapon != Weapon::Fists,
    ensures
        ({
            let r = pickup(action, here, touching, w0, a0, d0);
            arsenal(r.0, r.1, r.2) == arsenal(w0, a0, d0)
        }),
{
    broadcast use vstd::seq_lib::group_to_multiset_ensures;
    broadcast use vstd::multiset::group_multiset_axioms;

    let f = |d: DroppedWeapon<P>| (d.weapon, d.ammo);
    let left = DroppedWeapon { place: here, weapon: w0, ammo: a0 };
    let m0 = d0.map_values(f);
    lemma_first_from_bounds(touching, 0);
    if action {
        match first_from(touching, 0) {
            Some(i) => {
                assert(d0.remove(i).map_values(f) =~= m0.remove(i));
                assert(d0.remove(i).push(left).map_values(f) =~= m0.remove(i).push(f(left)));
                assert(m0[i] == f(d0[i]));
                assert(m0.to_multiset().count(m0[i]) > 0);
                assert(m0.remove(i).to_multiset().insert(m0[i]) =~= m0.to_multiset());
                if w0 != Weapon::Fists {
                    assert(m0.remove(i).push(f(left)).to_multiset().insert(m0[i])
                        =~= m0.to_multiset().insert((w0, a0)));
                }
            },
            None => {
                if w0 != Weapon::Fists {
                    assert(d0.push(left).map_values(f) =~= m0.push(f(left)));
                }
            },
        }
    }
}

/// The pick-up key: take the first weapon on the floor that the player touches (`touching`,
/// one entry per dropped weapon), leaving the weapon in hand where the player stands (`here`);
/// touching none, put down the weapon in hand. Fists are never put down.
pub fn handle_pickup<P>(
    action_pick_drop: bool,
    here: P,
    touching: &Vec<bool>,
    weapon: &mut Weapon,
    ammo: &mut u32,
    is_attacking: &mut bool,
    torso_anim: &mut AnimationState,
    dropped_weapons: &mut Vec<DroppedWeapon<P>>,
)
    requires
        touching.len() == old(dropped_weapons).len(),
    ensures
        (*final(weapon), *final(ammo), final(dropped_weapons)@) == pickup(
            action_pick_drop,
            here,
            touching@,
            *old(weapon),
            *old(ammo),
            old(dropped_weapons)@,
        ),
        ({
            let w0 = *old(weapon);
            let a0 = *old(ammo);
            let d0 = old(dropped_weapons)@;
            let left = DroppedWeapon { place: here, weapon: w0, ammo: a0 };
            if !action_pick_drop {
                &&& *final(weapon) == w0
                &&& *final(ammo) == a0
                &&& *final(is_attacking) == *old(is_attacking)
                &&& *final(torso_anim) == *old(torso_anim)
                &&& final(dropped_weapons)@ == d0
            } else {
                match first_from(touching@, 0) {
                    Some(i) => {
                        &&& *final(weapon) == d0[i].weapon
                        &&& *final(ammo) == d0[i].ammo
                        &&& !*final(is_attacking)
                        &&& *final(torso_anim) == pose_of(d0[i].weapon)
                        &&& final(dropped_weapons)@ == if w0 != Weapon::Fists {
                            d0.remove(i).push(left)
                        } else {
                            d0.remove(i)
                        }
                    },
                    None => if w0 != Weapon::Fists {
                        &&& *final(weapon) == Weapon::Fists
                        &&& *final(ammo) == 0
                        &&& !*final(is_attacking)
                        &&& *final(torso_anim) == anim_fresh(PUNCH_ROW, 1, 1)
                        &&& final(dropped_weapons)@ == d0.push(left)
                    } else {
                        &&& *final(weapon) == w0
                        &&& *final(ammo) == a0
                        &&& *final(is_attacking) == *old(is_attacking)
                        &&& *final(torso_anim) == *old(torso_anim)
                        &&& final(dropped_weapons)@ == d0
                    },
                }
            }
        }),
{
    if action_pick_drop {
        match first_set(touching) {
            Some(idx) => {
                let picked = dropped_weapons.remove(idx);
                if *weapon != Weapon::Fists {
                    dropped_weapons.push(DroppedWeapon::new(here, *weapon, *ammo));
                }
                *is_attacking = false;
                *weapon = picked.weapon;
                *ammo = picked.ammo;
                let row = weapon.anim_info().0;
                torso_anim.set_state(row, 1, 1);
            },
            None => {
                if *weapon != Weapon::Fists {
                    dropped_weapons.push(DroppedWeapon::new(here, *weapon, *ammo));
                    *is_attacking = false;
                    *weapon = Weapon::Fists;
                    *ammo = 0;
                    torso_anim.set_state(PUNCH_ROW, 1, 1);
                }
            },
        }
    }
}

/// How an attack began.
#[derive(PartialEq, Eq, Structural, Clone, Copy, Debug)]
pub enum AttackStart {
    /// No attack this frame.
    Nothing,
    /// A firearm fired one round.
    Shot,
    /// A melee weapon swung.
    Swing,
}

/// Whether the attack input holds for `w`: a rifle fires while the button is held, every
/// other weapon on a fresh press.
pub open spec fn attack_triggered(w: Weapon, pressed: bool, held: bool) -> bool {
    if w == Weapon::Rifle {
        held
    } else {
        pressed
    }
}

/// The player's attack: when triggered, not already attacking, armed (a firearm needs a round)
/// and off cooldown, a firearm fires a round and a melee weapon swings; either way the
/// weapon's attack animation starts.
pub fn start_attack(
    weapon: Weapon,
    ammo: &mut u32,
    is_attacking: &mut bool,
    torso_anim: &mut AnimationState,
    attack_pressed: bool,
    attack_held: bool,
    cooldown_ready: bool,
) -> (r: AttackStart)
    ensures
        weapon != Weapon::Rifle && !attack_pressed ==> {
            &&& r == AttackStart::Nothing
            &&& *final(ammo) == *old(ammo)
            &&& *final(is_attacking) == *old(is_attacking)
            &&& *final(torso_anim) == *old(torso_anim)
        },
        weapon == Weapon::Rifle && !attack_held ==> {
            &&& r == AttackStart::Nothing
            &&& *final(ammo) == *old(ammo)
            &&& *final(is_attacking) == *old(is_attacking)
            &&& *final(torso_anim) == *old(torso_anim)
        },
        r == AttackStart::Shot ==> (weapon == Weapon::Pistol || weapon == Weapon::Rifle) && *old(ammo)
            > 0 && *final(ammo) == *old(ammo) - 1,
        r == AttackStart::Swing ==> weapon != Weapon::Pistol && weapon != Weapon::Rifle
            && *final(ammo) == *old(ammo),
        (!cooldown_ready || *old(is_attacking) || ((weapon == Weapon::Pistol || weapon
            == Weapon::Rifle) && *old(ammo) == 0)) ==> {
            &&& r == AttackStart::Nothing
            &&& *final(ammo) == *old(ammo)
            &&& *final(is_attacking) == *old(is_attacking)
            &&& *final(torso_anim) == *old(torso_anim)
        },
        (if weapon == Weapon::Rifle { attack_held } else { attack_pressed }) && cooldown_ready
            && !*old(is_attacking) && (weapon == Weapon::Pistol || weapon == Weapon::Rifle
            ==> *old(ammo) > 0) ==> r != AttackStart::Nothing && *final(is_attacking),
        ({
            let go = attack_triggered(weapon, attack_pressed, attack_held) && !*old(is_attacking)
                && (!is_firearm(weapon) || *old(ammo) > 0) && cooldown_ready;
            if go {
                &&& *final(is_attacking)
                &&& *final(torso_anim) == anim_of(weapon)
                &&& if is_firearm(weapon) {
                    r == AttackStart::Shot && *final(ammo) == *old(ammo) - 1
                } else {
                    r == AttackStart::Swing && *final(ammo) == *old(ammo)
                }
            } else {
                &&& r == AttackStart::Nothing
                &&& *final(is_attacking) == *old(is_attacking)
                &&& *final(torso_anim) == *old(torso_anim)
                &&& *final(ammo) == *old(ammo)
            }
        }),
{
    let firearm = weapon.is_firearm();
    let can_shoot = !firearm || *ammo > 0;
    let triggered = if weapon == Weapon::Rifle {
        attack_held
    } else {
        attack_pressed
    };
    if triggered && !*is_attacking && can_shoot && cooldown_ready {
        *is_attacking = true;
        let r = if firearm {
            *ammo = *ammo - 1;
            AttackStart::Shot
        } else {
            AttackStart::Swing
        };
        let (row, frames, fps) = weapon.anim_info();
        torso_anim.set_state(row, frames, fps);
        r
    } else {
        AttackStart::Nothing
    }
}

/// Cooldown after the player fires `w`, in milliseconds.
pub fn shot_cooldown_ms(w: Weapon) -> (r: u32)
    ensures
        r == (match w {
            Weapon::Rifle => RIFLE_CD_MS,
            Weapon::Pistol => PISTOL_CD_MS,
            _ => 0,
        }),
{
    match w {
        Weapon::Rifle => RIFLE_CD_MS,
        Weapon::Pistol => PISTOL_CD_MS,
        _ => 0,
    }
}

/// Sound of a shot from `w`.
pub fn shot_sound(w: Weapon) -> (r: Option<SoundId>)
    ensures
        r == (match w {
            Weapon::Rifle => Some(SoundId::Ak47),
            Weapon::Pistol => Some(SoundId::Pistol),
            _ => None,
        }),
{
    match w {
        Weapon::Rifle => Some(SoundId::Ak47),
        Weapon::Pistol => Some(SoundId::Pistol),
        _ => None,
    }
}

/// Sound of a finishing blow with `w`.
pub fn finisher_sound(w: Weapon) -> (r: Option<SoundId>)
    ensures
        r == (match w {
            Weapon::Knife => Some(SoundId::Knife),
            Weapon::Pipe | Weapon::Fists => Some(SoundId::Pipe),
            _ => None,
        }),
{
    match w {
        Weapon::Knife => Some(SoundId::Knife),
        Weapon::Pipe | Weapon::Fists => Some(SoundId::Pipe),
        _ => None,
    }
}

/// An attack animation ran to its end: the fighter stops attacking and holds the weapon's pose.
pub fn finish_attack(weapon: Weapon, is_attacking: &mut bool, torso_anim: &mut AnimationState)
    ensures
        !*final(is_attacking),
        *final(torso_anim) == pose_of(weapon),
{
    *is_attacking = false;
    let row = weapon.anim_info().0;
    torso_anim.set_state(row, 1, 1);
}

/// Weapons that can finish off a knocked-down enemy.
pub open spec fn can_execute(w: Weapon) -> bool {
    w == Weapon::Fists || w == Weapon::Pipe || w == Weapon::Knife
}

/// Animation of a finishing blow with `w`.
pub open spec fn execution_anim(w: Weapon) -> (usize, usize, u32) {
    match w {
        Weapon::Pipe => (EXECUTE_PIPE_ROW, EXECUTE_PIPE_FRAMES, 10),
        Weapon::Knife => (EXECUTE_KNIFE_ROW, EXECUTE_KNIFE_FRAMES, 10),
        Weapon::Fists => (EXECUTE_FISTS_ROW, EXECUTE_FISTS_FRAMES, 12),
        _ => (PUNCH_ROW, 1, 1),
    }
}

/// The execute key: with a melee weapon and no attack under way, the player finishes off the
/// first enemy in `candidates` (alive, knocked down and within reach) and its animation starts.
pub fn begin_execution(
    weapon: Weapon,
    is_attacking: bool,
    execute_pressed: bool,
    candidates: &Vec<bool>,
    torso_anim: &mut AnimationState,
) -> (target: Option<usize>)
    ensures
        target == (if execute_pressed && !is_attacking && can_execute(weapon) {
            match first_from(candidates@, 0) {
                Some(i) => Some(i as usize),
                None => None,
            }
        } else {
            None
        }),
        target is Some ==> *final(torso_anim) == anim_fresh(
            execution_anim(weapon).0,
            execution_anim(weapon).1,
            execution_anim(weapon).2,
        ),
        target is None ==> *final(torso_anim) == *old(torso_anim),
        target is Some ==> execute_pressed && !is_attacking && (weapon == Weapon::Fists || weapon
            == Weapon::Pipe || weapon == Weapon::Knife),
        target matches Some(i) ==> i < candidates.len() && candidates@[i as int] && forall|j: int|
            0 <= j < i ==> !candidates@[j],
        execute_pressed && !is_attacking && (weapon == Weapon::Fists || weapon == Weapon::Pipe
            || weapon == Weapon::Knife) && (exists|j: int|
            0 <= j < candidates.len() && candidates@[j]) ==> target is Some,
        weapon == Weapon::Knife && target is Some ==> *final(torso_anim) == anim_fresh(
            EXECUTE_KNIFE_ROW,
            EXECUTE_KNIFE_FRAMES,
            10,
        ),
        weapon == Weapon::Pipe && target is Some ==> *final(torso_anim) == anim_fresh(
            EXECUTE_PIPE_ROW,
            EXECUTE_PIPE_FRAMES,
            10,
        ),
        weapon == Weapon::Fists && target is Some ==> *final(torso_anim) == anim_fresh(
            EXECUTE_FISTS_ROW,
            EXECUTE_FISTS_FRAMES,
            12,
        ),
{
    proof {
        lemma_first_from_finds(candidates@, 0);
    }
    if execute_pressed && !is_attacking {
        let able = weapon == Weapon::Fists || weapon == Weapon::Pipe || weapon == Weapon::Knife;
        if able {
            match first_set(candidates) {
                Some(idx) => {
                    let (row, frames, fps) = match weapon {
                        Weapon::Pipe => (EXECUTE_PIPE_ROW, EXECUTE_PIPE_FRAMES, 10u32),
                        Weapon::Knife => (EXECUTE_KNIFE_ROW, EXECUTE_KNIFE_FRAMES, 10u32),
                        Weapon::Fists => (EXECUTE_FISTS_ROW, EXECUTE_FISTS_FRAMES, 12u32),
                        _ => (PUNCH_ROW, 1, 1u32),
                    };
                    torso_anim.set_state(row, frames, fps);
                    return Some(idx);
                },
                None => {},
            }
        }
    }
    None
}

/// A finishing blow has run its animation: the target (`executing_enemy_idx`, with
/// `enemy_alive` telling for each enemy whether it is alive) dies if it is still there and alive,
/// with the sound of the blow; the player goes back to where they stood (`orig_pos`), stops
/// executing and holds the weapon's pose. The result names the enemy to kill and the sound.
pub fn finish_execution<P>(
    weapon: Weapon,
    enemy_alive: &Vec<bool>,
    pos: &mut P,
    orig_pos: P,
    is_executing: &mut bool,
    executing_enemy_idx: &mut Option<usize>,
    torso_anim: &mut AnimationState,
) -> (kill: Option<(usize, Option<SoundId>)>)
    ensures
        kill == match *old(executing_enemy_idx) {
            Some(i) => if i < enemy_alive.len() && enemy_alive@[i as int] {
                Some(
                    (
                        i,
                        match weapon {
                            Weapon::Knife => Some(SoundId::Knife),
                            Weapon::Pipe | Weapon::Fists => Some(SoundId::Pipe),
                            _ => None,
                        },
                    ),
                )
            } else {
                None
            },
            None => None,
        },
        *final(pos) == orig_pos,
        !*final(is_executing),
        *final(executing_enemy_idx) is None,
        *final(torso_anim) == pose_of(weapon),
{
    let kill = match *executing_enemy_idx {
        Some(idx) => if idx < enemy_alive.len() && enemy_alive[idx] {
            Some((idx, finisher_sound(weapon)))
        } else {
            None
        },
        None => None,
    };
    *pos = orig_pos;
    *is_executing = false;
    *executing_enemy_idx = None;
    let row = weapon.anim_info().0;
    torso_anim.set_state(row, 1, 1);
    kill
}

} // verus!
