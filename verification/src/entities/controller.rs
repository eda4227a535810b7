use vstd::prelude::*;

verus! {

/// A key press, as far as the game tells keys apart.
#[derive(Debug, Clone, Copy, PartialEq, Eq, Structural)]
pub enum Key {
    Up,
    Down,
    Left,
    Right,
    Enter,
    Esc,
    Char(char),
    /// Any other key, and every event that is no plain key press.
    Other,
}

/// Something that key presses steer.
pub trait Controller: Sized {
    /// This value after the up key.
    spec fn moved_up(self) -> Self;

    /// This value after the down key.
    spec fn moved_down(self) -> Self;

    /// This value after the left key.
    spec fn moved_left(self) -> Self;

    /// This value after the right key.
    spec fn moved_right(self) -> Self;

    /// Whether this value can take in `event`, which is none of the four
    /// direction keys.
    spec fn can_handle_additional(&self, event: Key) -> bool;

    /// Whether `after` is what `event`, which is none of the four direction
    /// keys, may make of this value.
    spec fn handled_additional(self, event: Key, after: Self) -> bool;

    fn up(&mut self) -> (ret: &mut Self)
        ensures
            *ret == old(self).moved_up(),
            *final(self) == *final(ret),
    ;

    fn down(&mut self) -> (ret: &mut Self)
        ensures
            *ret == old(self).moved_down(),
            *final(self) == *final(ret),
    ;

    fn left(&mut self) -> (ret: &mut Self)
        ensures
            *ret == old(self).moved_left(),
            *final(self) == *final(ret),
    ;

    fn right(&mut self) -> (ret: &mut Self)
        ensures
            *ret == old(self).moved_right(),
            *final(self) == *final(ret),
    ;

    fn additional_event_logic(&mut self, event: &Key) -> (ret: &mut Self)
        requires
            old(self).can_handle_additional(*event),
        ensures
            old(self).handled_additional(*event, *ret),
            *final(self) == *final(ret),
    ;

    /// Hands a key press to what it is for: the four direction keys steer,
    /// every other key goes to `additional_event_logic`.
    fn handle_event(&mut self, event: &Key)
        requires
            !(*event is Up || *event is Down || *event is Left || *event is Right) ==> old(
                self,
            ).can_handle_additional(*event),
        ensures
            match *event {
                Key::Up => *final(self) == old(self).moved_up(),
                Key::Down => *final(self) == old(self).moved_down(),
                Key::Left => *final(self) == old(self).moved_left(),
                Key::Right => *final(self) == old(self).moved_right(),
                _ => old(self).handled_additional(*event, *final(self)),
            },
    {
        match event {
            Key::Up => {
                self.up();
            },
            Key::Down => {
                self.down();
            },
            Key::Left => {
                self.left();
            },
            Key::Right => {
                self.right();
            },
            _ => {
                self.additional_event_logic(event);
            },
        }
    }
}

} // verus!
