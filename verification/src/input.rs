use vstd::prelude::*;

verus! {

/// A target the cursor can lock on to: where it stands and whether it is dead.
#[derive(Clone, Copy, Debug)]
pub struct LockTarget<P> {
    pub pos: P,
    pub is_dead: bool,
}

/// The aiming cursor: it follows the mouse, or sticks to a locked-on enemy.
#[derive(Clone, Copy, Debug)]
pub struct VirtualCursor<P> {
    pub world_pos: P,
    pub locked_enemy_idx: Option<usize>,
}

/// A lock that survives the frame: it names a living target.
pub open spec fn lock_kept<P>(lock: Option<usize>, targets: Seq<LockTarget<P>>) -> Option<usize> {
    match lock {
        Some(i) => if i < targets.len() && !targets[i as int].is_dead {
            Some(i)
        } else {
            None
        },
        None => None,
    }
}

impl<P: Copy> VirtualCursor<P> {
    pub fn new(origin: P) -> (c: Self)
        ensures
            c.world_pos == origin,
            c.locked_enemy_idx is None,
    {
        VirtualCursor { world_pos: origin, locked_enemy_idx: None }
    }

    /// One frame of the cursor. A dead player aims with the mouse only. Otherwise a lock on a
    /// target that is gone or dead is dropped; the lock key then drops a lock, or locks on to
    /// `nearest` (the closest living target within reach of the mouse, if any); the cursor sits
    /// on the locked target, or at the mouse.
    pub fn update(
        &mut self,
        player_is_dead: bool,
        raw_world_pos: P,
        targets: &Vec<LockTarget<P>>,
        toggle_lock_on: bool,
        nearest: Option<usize>,
    )
        requires
            nearest matches Some(i) ==> i < targets.len() && !targets@[i as int].is_dead,
        ensures
            player_is_dead ==> final(self).locked_enemy_idx is None && final(self).world_pos
                == raw_world_pos,
            !player_is_dead ==> {
                let kept = lock_kept(old(self).locked_enemy_idx, targets@);
                let lock = if toggle_lock_on {
                    if kept is Some {
                        None
                    } else {
                        nearest
                    }
                } else {
                    kept
                };
                &&& final(self).locked_enemy_idx == lock
                &&& final(self).world_pos == match lock {
                    Some(i) => targets@[i as int].pos,
                    None => raw_world_pos,
                }
            },
            final(self).locked_enemy_idx matches Some(i) ==> i < targets.len()
                && !targets@[i as int].is_dead,
            final(self).world_pos == match final(self).locked_enemy_idx {
                Some(i) => targets@[i as int].pos,
                None => raw_world_pos,
            },
    {
        if player_is_dead {
            self.locked_enemy_idx = None;
            self.world_pos = raw_world_pos;
            return ;
        }
        match self.locked_enemy_idx {
            Some(idx) => {
                if idx >= targets.len() || targets[idx].is_dead {
                    self.locked_enemy_idx = None;
                }
            },
            None => {},
        }
        if toggle_lock_on {
            if self.locked_enemy_idx.is_some() {
                self.locked_enemy_idx = None;
            } else {
                self.locked_enemy_idx = nearest;
            }
        }
        match self.locked_enemy_idx {
            Some(idx) => {
                self.world_pos = targets[idx].pos;
            },
            None => {
                self.world_pos = raw_world_pos;
            },
        }
    }

    pub fn is_locked(&self) -> (r: bool)
        ensures
            r == self.locked_enemy_idx is Some,
    {
        self.locked_enemy_idx.is_some()
    }
}

} // verus!
