use vstd::prelude::*;
use crate::entity::{
    DEAD_FRAMES, DEAD_ROW, KNIFE_FRAMES, KNIFE_ROW, PIPE_FRAMES, PIPE_ROW, PISTOL_FRAMES, PISTOL_ROW,
    PUNCH_FRAMES, PUNCH_ROW, RIFLE_FRAMES, RIFLE_ROW,
};

verus! {

/// Every weapon, and the state of a fighter that has died.
#[derive(PartialEq, Eq, Structural, Clone, Copy, Debug)]
pub enum Weapon {
    Fists,
    Pipe,
    Knife,
    Pistol,
    Rifle,
    Dead,
}

/// Sprite row, frame count and frames per second of the attack animation of each weapon.
pub open spec fn weapon_anim(w: Weapon) -> (usize, usize, u32) {
    match w {
        Weapon::Fists => (PUNCH_ROW, PUNCH_FRAMES, 14),
        Weapon::Pipe => (PIPE_ROW, PIPE_FRAMES, 14),
        Weapon::Knife => (KNIFE_ROW, KNIFE_FRAMES, 12),
        Weapon::Pistol => (PISTOL_ROW, PISTOL_FRAMES, 12),
        Weapon::Rifle => (RIFLE_ROW, RIFLE_FRAMES, 14),
        Weapon::Dead => (DEAD_ROW, DEAD_FRAMES, 14),
    }
}

/// Rounds in a freshly found weapon: a full magazine for firearms, none otherwise.
pub open spec fn weapon_ammo(w: Weapon) -> u32 {
    match w {
        Weapon::Rifle => 30,
        Weapon::Pistol => 12,
        _ => 0,
    }
}

pub open spec fn is_firearm(w: Weapon) -> bool {
    w == Weapon::Pistol || w == Weapon::Rifle
}

impl Weapon {
    pub fn anim_info(&self) -> (r: (usize, usize, u32))
        ensures
            r == weapon_anim(*self),
    {
        match self {
            Weapon::Fists => (PUNCH_ROW, PUNCH_FRAMES, 14),
            Weapon::Pipe => (PIPE_ROW, PIPE_FRAMES, 14),
            Weapon::Knife => (KNIFE_ROW, KNIFE_FRAMES, 12),
            Weapon::Pistol => (PISTOL_ROW, PISTOL_FRAMES, 12),
            Weapon::Rifle => (RIFLE_ROW, RIFLE_FRAMES, 14),
            Weapon::Dead => (DEAD_ROW, DEAD_FRAMES, 14),
        }
    }

    pub fn default_ammo(&self) -> (r: u32)
        ensures
            r == weapon_ammo(*self),
    {
        match *self {
            Weapon::Rifle => 30,
            Weapon::Pistol => 12,
            _ => 0,
        }
    }

    pub fn is_firearm(&self) -> (r: bool)
        ensures
            r == is_firearm(*self),
    {
        *self == Weapon::Pistol || *self == Weapon::Rifle
    }
}

#[derive(PartialEq, Eq, Structural, Clone, Copy, Debug)]
pub enum BulletOwner {
    Player,
    Enemy,
}

/// A weapon lying on the floor; `place` is where it lies and how it is turned.
#[derive(Clone, Copy, Debug)]
pub struct DroppedWeapon<P> {
    pub place: P,
    pub weapon: Weapon,
    pub ammo: u32,
}

impl<P> DroppedWeapon<P> {
    pub fn new(place: P, weapon: Weapon, ammo: u32) -> (r: Self)
        ensures
            r == (DroppedWeapon { place, weapon, ammo }),
    {
        DroppedWeapon { place, weapon, ammo }
    }
}

} // verus!
