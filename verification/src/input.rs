//! The input snapshot the game logic consumes: which keys are held,
//! and the relative mouse motion of the current frame.
//!
//! Event decoding belongs to the platform layer; it reports key
//! presses, releases and mouse motion through the methods here.

use vstd::prelude::*;

verus! {

/// Largest mouse delta accepted per frame, in fixed-point pixels.
pub const MOUSE_LIM: i64 = 0x1000_0000;

/// The game's abstract keys.
#[derive(Copy, Clone, PartialEq, Eq, Structural, Debug)]
pub enum Key {
    Left,
    Right,
    Forward,
    Back,
    ShowMap,
    Quit,
}

/// Which keys are currently held, and the frame's mouse deltas
/// (fixed-point pixels).
#[derive(Debug)]
pub struct InputState {
    pub keys_down: Vec<Key>,
    pub mouse_dx: i64,
    pub mouse_dy: i64,
}

/// The input invariant: mouse deltas stay within `MOUSE_LIM`.
pub open spec fn input_wf(s: InputState) -> bool {
    &&& -MOUSE_LIM <= s.mouse_dx <= MOUSE_LIM
    &&& -MOUSE_LIM <= s.mouse_dy <= MOUSE_LIM
}

impl InputState {
    /// An input state with nothing held and no mouse motion.
    pub fn new() -> (r: InputState)
        ensures
            r.keys_down@ =~= Seq::<Key>::empty(),
            r.mouse_dx == 0,
            r.mouse_dy == 0,
            input_wf(r),
    {
        InputState { keys_down: Vec::new(), mouse_dx: 0, mouse_dy: 0 }
    }

    /// Whether `key` is currently held.
    pub fn has_key(&self, key: Key) -> (r: bool)
        ensures
            r <==> self.keys_down@.contains(key),
    {
        let mut i: usize = 0;
        while i < self.keys_down.len()
            invariant
                i <= self.keys_down@.len(),
                forall|j: int| 0 <= j < i ==> self.keys_down@[j] != key,
            decreases self.keys_down@.len() - i,
        {
            if self.keys_down[i] == key {
                proof {
                    assert(self.keys_down@.contains(key));
                }
                return true;
            }
            i = i + 1;
        }
        proof {
            assert(forall|j: int| 0 <= j < self.keys_down@.len() ==> self.keys_down@[j] != key);
        }
        false
    }

    /// Record that `key` went down. Idempotent: a key already held is
    /// not recorded twice.
    pub fn key_down(&mut self, key: Key)
        ensures
            final(self).keys_down@ == (if old(self).keys_down@.contains(key) {
                old(self).keys_down@
            } else {
                old(self).keys_down@.push(key)
            }),
            final(self).mouse_dx == old(self).mouse_dx,
            final(self).mouse_dy == old(self).mouse_dy,
            final(self).keys_down@.contains(key),
    {
        if !self.has_key(key) {
            self.keys_down.push(key);
            proof {
                assert(self.keys_down@[self.keys_down@.len() - 1] == key);
                assert(self.keys_down@.contains(key));
            }
        }
    }

    /// Record that `key` went up: every occurrence of it is removed,
    /// everything else kept in order.
    pub fn key_up(&mut self, key: Key)
        ensures
            final(self).keys_down@ == old(self).keys_down@.filter(|k: Key| k != key),
            final(self).mouse_dx == old(self).mouse_dx,
            final(self).mouse_dy == old(self).mouse_dy,
    {
        let mut kept: Vec<Key> = Vec::new();
        let mut i: usize = 0;
        proof {
            assert(self.keys_down@.take(0int).filter(|k: Key| k != key) =~= Seq::<Key>::empty());
        }
        while i < self.keys_down.len()
            invariant
                i <= self.keys_down@.len(),
                kept@ == self.keys_down@.take(i as int).filter(|k: Key| k != key),
            decreases self.keys_down@.len() - i,
        {
            let k: Key = self.keys_down[i];
            if !(k == key) {
                kept.push(k);
            }
            proof {
                reveal_with_fuel(Seq::<_>::filter, 2);
                assert(self.keys_down@.take(i as int + 1).drop_last() =~= self.keys_down@.take(
                    i as int,
                ));
                assert(self.keys_down@.take(i as int + 1).last() == k);
            }
            i = i + 1;
        }
        proof {
            assert(self.keys_down@.take(self.keys_down@.len() as int) =~= self.keys_down@);
        }
        self.keys_down = kept;
    }

    /// Record this frame's relative mouse motion.
    pub fn set_mouse(&mut self, dx: i64, dy: i64)
        requires
            -MOUSE_LIM <= dx <= MOUSE_LIM,
            -MOUSE_LIM <= dy <= MOUSE_LIM,
        ensures
            final(self).mouse_dx == dx,
            final(self).mouse_dy == dy,
            final(self).keys_down@ == old(self).keys_down@,
            input_wf(*final(self)),
    {
        self.mouse_dx = dx;
        self.mouse_dy = dy;
    }

    /// Forget the horizontal mouse motion once it has been consumed.
    pub fn clear_mouse(&mut self)
        ensures
            final(self).mouse_dx == 0,
            final(self).mouse_dy == old(self).mouse_dy,
            final(self).keys_down@ == old(self).keys_down@,
    {
        self.mouse_dx = 0;
    }

    /// This frame's horizontal mouse delta, fixed-point pixels.
    pub fn mouse_dx(&self) -> (r: i64)
        ensures
            r == self.mouse_dx,
    {
        self.mouse_dx
    }

    /// This frame's vertical mouse delta, fixed-point pixels.
    pub fn mouse_dy(&self) -> (r: i64)
        ensures
            r == self.mouse_dy,
    {
        self.mouse_dy
    }
}

} // verus!
