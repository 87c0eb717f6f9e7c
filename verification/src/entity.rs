use vstd::prelude::*;
use crate::objects::{weapon_anim, weapon_ammo, DroppedWeapon, Weapon};

verus! {

// Rows and frame counts of the character tile set.
pub const PUNCH_ROW: usize = 0;
pub const PUNCH_FRAMES: usize = 7;
pub const PIPE_ROW: usize = 1;
pub const PIPE_FRAMES: usize = 7;
pub const KNIFE_ROW: usize = 2;
pub const KNIFE_FRAMES: usize = 5;
pub const PISTOL_ROW: usize = 3;
pub const PISTOL_FRAMES: usize = 2;
pub const RIFLE_ROW: usize = 4;
pub const RIFLE_FRAMES: usize = 2;
pub const SHOTGUN_ROW: usize = 5;
pub const SHOTGUN_FRAMES: usize = 2;
pub const LEGS_ROW: usize = 6;
pub const LEGS_FRAMES: usize = 14;
pub const DEAD_ROW: usize = 7;
pub const DEAD_FRAMES: usize = 1;
pub const STUNNED_ROW: usize = 8;
pub const STUNNED_FRAMES: usize = 1;
pub const EXECUTE_PIPE_ROW: usize = 8;
pub const EXECUTE_PIPE_FRAMES: usize = 6;
pub const EXECUTE_FISTS_ROW: usize = 9;
pub const EXECUTE_FISTS_FRAMES: usize = 12;
pub const EXECUTE_KNIFE_ROW: usize = 10;
pub const EXECUTE_KNIFE_FRAMES: usize = 5;

// Cooldowns and timers, in milliseconds.
pub const RIFLE_CD_MS: u32 = 100;
pub const PISTOL_CD_MS: u32 = 300;
pub const SHOTGUN_CD_MS: u32 = 600;
pub const MELEE_ATTACK_MS: u32 = 200;

/// The sounds of the game.
#[derive(PartialEq, Eq, Structural, Clone, Copy, Debug)]
pub enum SoundId {
    Ak47,
    Knife,
    Pipe,
    Pistol,
    Swosh,
    Shotgun,
}

/// Frame state of a sprite animation. The time since the last frame change is kept as the
/// bit pattern of an `f32` in `frame_timer_bits`: the library only ever resets it to zero
/// seconds (bit pattern 0); the clock that advances it runs outside.
#[derive(PartialEq, Eq, Structural, Clone, Copy, Debug)]
pub struct AnimationState {
    pub current_frame: usize,
    pub frame_timer_bits: u32,
    pub fps: u32,
    pub num_frames: usize,
    pub row_index: usize,
}

/// The animation `set_state(row, num_frames, fps)` leaves: first frame, timer at zero.
pub open spec fn anim_fresh(row: usize, num_frames: usize, fps: u32) -> AnimationState {
    AnimationState { current_frame: 0, frame_timer_bits: 0, fps, num_frames, row_index: row }
}

/// The weapon's attack animation from its first frame.
pub open spec fn anim_of(w: Weapon) -> AnimationState {
    anim_fresh(weapon_anim(w).0, weapon_anim(w).1, weapon_anim(w).2)
}

/// The weapon's idle pose: the first frame of its row, held.
pub open spec fn pose_of(w: Weapon) -> AnimationState {
    anim_fresh(weapon_anim(w).0, 1, 1)
}

/// The animation one frame step later: the next frame, or the first one after the last.
pub open spec fn stepped(a: AnimationState) -> AnimationState {
    AnimationState {
        current_frame: if a.current_frame + 1 >= a.num_frames {
            0
        } else {
            (a.current_frame + 1) as usize
        },
        ..a
    }
}

/// The animation after `k` frame steps.
pub open spec fn stepped_times(a: AnimationState, k: nat) -> AnimationState
    decreases k,
{
    if k == 0 {
        a
    } else {
        stepped(stepped_times(a, (k - 1) as nat))
    }
}

/// Law: animations loop. From a frame of the animation, `k` frame steps later it shows frame
/// `(current_frame + k) mod num_frames`, and nothing else about it has changed.
pub proof fn lemma_animation_loops(a: AnimationState, k: nat)
    requires
        a.current_frame < a.num_frames,
    ensures
        stepped_times(a, k).current_frame == (a.current_frame + k) % (a.num_frames as int),
        stepped_times(a, k) == (AnimationState {
            current_frame: stepped_times(a, k).current_frame,
            ..a
        }),
    decreases k,
{
    let n = a.num_frames as int;
    if k == 0 {
        vstd::arithmetic::div_mod::lemma_small_mod(a.current_frame as nat, n as nat);
    } else {
        lemma_animation_loops(a, (k - 1) as nat);
        let m = (a.current_frame + k - 1) % n;
        assert(0 <= m < n) by {
            vstd::arithmetic::div_mod::lemma_mod_bound(a.current_frame + k - 1, n);
        }
        // One step on from frame m: (m + 1) mod n, read modulo n.
        vstd::arithmetic::div_mod::lemma_add_mod_noop_right(1, a.current_frame + k - 1, n);
        if m + 1 >= n {
            vstd::arithmetic::div_mod::lemma_mod_self_0(n);
        } else {
            vstd::arithmetic::div_mod::lemma_small_mod((m + 1) as nat, n as nat);
        }
    }
}

/// Law: one frame step keeps the frame within the animation, moves it on by one modulo the
/// number of frames, and wraps to the first frame exactly when it leaves the last one.
pub proof fn lemma_frame_step(a: AnimationState)
    requires
        a.current_frame < a.num_frames,
    ensures
        stepped(a).current_frame < stepped(a).num_frames,
        stepped(a).current_frame == (a.current_frame + 1) % (a.num_frames as int),
        (a.current_frame + 1 >= a.num_frames) <==> (stepped(a).current_frame == 0
            && a.current_frame + 1 == a.num_frames),
        stepped(a) == (AnimationState { current_frame: stepped(a).current_frame, ..a }),
{
    lemma_animation_loops(a, 1);
    assert(stepped_times(a, 0) == a);
}

impl AnimationState {
    pub fn new(num_frames: usize, fps: u32, row_index: usize) -> (r: Self)
        ensures
            r == anim_fresh(row_index, num_frames, fps),
    {
        AnimationState { current_frame: 0, frame_timer_bits: 0, fps, num_frames, row_index }
    }

    /// The animation has frames to step through.
    pub fn animates(&self) -> (r: bool)
        ensures
            r == (self.num_frames > 1),
    {
        self.num_frames > 1
    }

    /// Steps to the next frame; returns whether the animation wrapped around to its first
    /// frame, finishing a cycle.
    pub fn advance_frame(&mut self) -> (finished: bool)
        requires
            old(self).num_frames > 1,
        ensures
            finished == (old(self).current_frame + 1 >= old(self).num_frames),
            *final(self) == stepped(*old(self)),
            old(self).current_frame < old(self).num_frames ==> {
                &&& final(self).current_frame < final(self).num_frames
                &&& final(self).current_frame == (old(self).current_frame + 1) % (old(
                    self,
                ).num_frames as int)
                &&& finished <==> (final(self).current_frame == 0 && old(self).current_frame + 1
                    == old(self).num_frames)
            },
    {
        proof {
            if self.current_frame < self.num_frames {
                lemma_frame_step(*self);
            }
        }
        if self.current_frame >= self.num_frames - 1 {
            self.current_frame = 0;
            true
        } else {
            self.current_frame = self.current_frame + 1;
            false
        }
    }

    /// One frame of the animation, `frame_due` telling whether a frame's time has passed: a
    /// still picture never changes; otherwise a due frame steps the animation, and the result
    /// tells whether it wrapped around, finishing a cycle.
    pub fn update(&mut self, frame_due: bool) -> (finished: bool)
        ensures
            (old(self).num_frames <= 1 || !frame_due) ==> !finished && *final(self) == *old(self),
            (old(self).num_frames > 1 && frame_due) ==> {
                &&& *final(self) == stepped(*old(self))
                &&& finished == (old(self).current_frame + 1 >= old(self).num_frames)
            },
            old(self).num_frames > 1 && old(self).current_frame < old(self).num_frames ==> {
                &&& final(self).current_frame < final(self).num_frames
                &&& (final(self).current_frame == old(self).current_frame
                    || final(self).current_frame == (old(self).current_frame + 1) % (old(
                    self,
                ).num_frames as int))
                &&& finished <==> (final(self).current_frame == 0 && old(self).current_frame + 1
                    == old(self).num_frames)
            },
            final(self).num_frames == old(self).num_frames,
            final(self).row_index == old(self).row_index,
            final(self).fps == old(self).fps,
            final(self).frame_timer_bits == old(self).frame_timer_bits,
    {
        if self.num_frames <= 1 || !frame_due {
            return false;
        }
        self.advance_frame()
    }

    pub fn set_state(&mut self, row: usize, num_frames: usize, fps: u32)
        ensures
            *final(self) == anim_fresh(row, num_frames, fps),
    {
        self.row_index = row;
        self.num_frames = num_frames;
        self.fps = fps;
        self.current_frame = 0;
        self.frame_timer_bits = 0;
    }

    pub fn reset(&mut self)
        ensures
            *final(self) == (AnimationState { current_frame: 0, frame_timer_bits: 0, ..*old(self) }),
    {
        self.current_frame = 0;
        self.frame_timer_bits = 0;
    }
}

/// A fighter dies where it stands (`place`): it stops attacking, drops what it held
/// (fists and a dead hand drop nothing) with the weapon's default ammunition, and shows the
/// dead pose. A fighter that is already dead is left as it is.
pub fn char_die<P>(
    place: P,
    is_attacking: &mut bool,
    is_dead: &mut bool,
    weapon: &mut Weapon,
    torso_anim: &mut AnimationState,
    dropped_weapons: &mut Vec<DroppedWeapon<P>>,
)
    ensures
        *old(is_dead) ==> {
            &&& *final(is_attacking) == *old(is_attacking)
            &&& *final(is_dead)
            &&& *final(weapon) == *old(weapon)
            &&& *final(torso_anim) == *old(torso_anim)
            &&& final(dropped_weapons)@ == old(dropped_weapons)@
        },
        !*old(is_dead) ==> {
            &&& !*final(is_attacking)
            &&& *final(is_dead)
            &&& *final(weapon) == Weapon::Dead
            &&& *final(torso_anim) == anim_of(Weapon::Dead)
            &&& final(dropped_weapons)@ == if *old(weapon) != Weapon::Fists && *old(weapon)
                != Weapon::Dead {
                old(dropped_weapons)@.push(
                    DroppedWeapon { place, weapon: *old(weapon), ammo: weapon_ammo(*old(weapon)) },
                )
            } else {
                old(dropped_weapons)@
            }
        },
{
    if *is_dead {
        return ;
    }
    *is_attacking = false;
    *is_dead = true;
    if *weapon != Weapon::Fists && *weapon != Weapon::Dead {
        let ammo = weapon.default_ammo();
        dropped_weapons.push(DroppedWeapon::new(place, *weapon, ammo));
    }
    *weapon = Weapon::Dead;
    let (row, frames, fps) = weapon.anim_info();
    torso_anim.set_state(row, frames, fps);
}

} // verus!
