use vstd::prelude::*;

verus! {

/// Bit of the A button.
pub const KEY_A: u32 = 1;
/// Bit of the B button.
pub const KEY_B: u32 = 2;
/// Bit of the X button.
pub const KEY_X: u32 = 4;
/// Bit of the Y button.
pub const KEY_Y: u32 = 8;
/// Bit of the d-pad up direction.
pub const KEY_UP: u32 = 16;
/// Bit of the d-pad down direction.
pub const KEY_DOWN: u32 = 32;
/// Bit of the d-pad left direction.
pub const KEY_LEFT: u32 = 64;
/// Bit of the d-pad right direction.
pub const KEY_RIGHT: u32 = 128;
/// Bit of the START button.
pub const KEY_START: u32 = 256;
/// Bit of the SELECT button.
pub const KEY_SELECT: u32 = 512;
/// Bit of the L shoulder button.
pub const KEY_L: u32 = 1024;
/// Bit of the R shoulder button.
pub const KEY_R: u32 = 2048;

/// The buttons of the virtual console: `held` has a bit set for every key that
/// is down, `down` for every key that went down since the current frame began.
pub struct InputState {
    pub held: u32,
    pub down: u32,
}

/// The state after pressing `key`: the keys become held, and they count as
/// newly pressed only when none of them was held before.
pub open spec fn pressed(s: InputState, key: u32) -> InputState {
    InputState {
        held: s.held | key,
        down: if s.held & key == 0 { s.down | key } else { s.down },
    }
}

/// The state after releasing `key`: its bits leave `held`, `down` is kept.
pub open spec fn released(s: InputState, key: u32) -> InputState {
    InputState { held: s.held & !key, down: s.down }
}

/// The state after a new frame begins: nothing is newly pressed any more.
pub open spec fn frame_begun(s: InputState) -> InputState {
    InputState { held: s.held, down: 0 }
}

impl InputState {
    /// A state where no key is held or pressed.
    pub fn new() -> (s: Self)
        ensures
            s.held == 0,
            s.down == 0,
    {
        InputState { held: 0, down: 0 }
    }

    /// Starts a new frame: the set of newly pressed keys becomes empty.
    pub fn begin_frame(&mut self)
        ensures
            *final(self) == frame_begun(*old(self)),
    {
        self.down = 0;
    }

    /// Presses the keys whose bits are set in `key`.
    pub fn press(&mut self, key: u32)
        ensures
            *final(self) == pressed(*old(self), key),
    {
        if self.held & key == 0 {
            self.down = self.down | key;
        }
        self.held = self.held | key;
    }

    /// Releases the keys whose bits are set in `key`.
    pub fn release(&mut self, key: u32)
        ensures
            *final(self) == released(*old(self), key),
    {
        self.held = self.held & !key;
    }

    /// The keys pressed since the current frame began.
    pub fn keys_down(&self) -> (r: u32)
        ensures
            r == self.down,
    {
        self.down
    }

    /// The keys currently held.
    pub fn keys_held(&self) -> (r: u32)
        ensures
            r == self.held,
    {
        self.held
    }
}

impl Default for InputState {
    fn default() -> (s: Self)
        ensures
            s.held == 0,
            s.down == 0,
    {
        InputState::new()
    }
}

/// After a press, every pressed key is held.
pub proof fn lemma_press_holds(s: InputState, key: u32)
    ensures
        pressed(s, key).held & key == key,
{
    let h = s.held;
    assert((h | key) & key == key) by (bit_vector);
}

/// Pressing keys of which none was held marks all of them as newly pressed,
/// and keeps what was pressed before.
pub proof fn lemma_press_fresh_is_down(s: InputState, key: u32)
    requires
        s.held & key == 0,
    ensures
        pressed(s, key).down & key == key,
        pressed(s, key).down & s.down == s.down,
{
    let d = s.down;
    assert((d | key) & key == key) by (bit_vector);
    assert((d | key) & d == d) by (bit_vector);
}

/// Pressing a key that is already held does not count as a new press.
pub proof fn lemma_press_held_keeps_down(s: InputState, key: u32)
    requires
        s.held & key != 0,
    ensures
        pressed(s, key).down == s.down,
{
}

/// After a release, none of the released keys is held, and the other held
/// keys stay held.
pub proof fn lemma_release_clears(s: InputState, key: u32)
    ensures
        released(s, key).held & key == 0,
        released(s, key).held | key == s.held | key,
        released(s, key).down == s.down,
{
    let h = s.held;
    assert((h & !key) & key == 0) by (bit_vector);
    assert((h & !key) | key == h | key) by (bit_vector);
}

/// Releasing keys that were pressed while not held restores what was held.
pub proof fn lemma_press_release_roundtrip(s: InputState, key: u32)
    requires
        s.held & key == 0,
    ensures
        released(pressed(s, key), key).held == s.held,
{
    let h = s.held;
    assert(h & key == 0 ==> (h | key) & !key == h) by (bit_vector);
}

/// A new frame forgets the new presses and keeps the held keys.
pub proof fn lemma_frame_resets_down(s: InputState)
    ensures
        frame_begun(s).down == 0,
        frame_begun(s).held == s.held,
{
}

/// Pressing the same keys twice in one frame is the same as pressing them once.
pub proof fn lemma_press_idempotent(s: InputState, key: u32)
    ensures
        pressed(pressed(s, key), key) == pressed(s, key),
{
    let h = s.held;
    let d = s.down;
    assert((h | key) | key == h | key) by (bit_vector);
    assert(key != 0 ==> (h | key) & key != 0) by (bit_vector);
    assert(key == 0 ==> d | key == d) by (bit_vector);
}

} // verus!
