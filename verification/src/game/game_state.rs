use crate::entities::controller::Key;
use vstd::prelude::*;

verus! {

/// What destroying an asteroid adds to the score.
pub const ASTEROID_DESTROYED_POINTS: u64 = 10;

/// Whether a game is running or over, its score, and the key that was
/// pressed for the frame at hand.
pub struct GameState {
    pub running: bool,
    pub keyboard_event: Option<Key>,
    pub score: u64,
    pub game_over: bool,
}

impl GameState {
    /// The state before the first game.
    pub fn new() -> (state: Self)
        ensures
            state == (GameState { running: false, game_over: false, keyboard_event: None, score: 0 }),
    {
        Self { running: false, game_over: false, keyboard_event: None, score: 0 }
    }

    pub fn is_running(&self) -> (running: bool)
        ensures
            running == self.running,
    {
        self.running
    }

    pub fn stop_game(&mut self) -> (ret: &mut Self)
        ensures
            *ret == (GameState { running: false, ..*old(self) }),
            *final(self) == *final(ret),
    {
        self.running = false;
        self
    }

    /// Starts a game: nothing scored, no key pressed.
    pub fn start_game(&mut self) -> (ret: &mut Self)
        ensures
            *ret == (GameState { running: true, game_over: false, keyboard_event: None, score: 0 }),
            *final(self) == *final(ret),
    {
        self.game_over = false;
        self.score = 0;
        self.running = true;
        self.keyboard_event = None;
        self
    }

    /// Ends the game at hand as lost.
    pub fn handle_game_over(&mut self) -> (ret: &mut Self)
        ensures
            *ret == (GameState { running: false, game_over: true, ..*old(self) }),
            *final(self) == *final(ret),
    {
        self.game_over = true;
        self.stop_game();
        self
    }

    /// Takes in what the keyboard gave for a frame: the escape key stops the
    /// game and leaves the key of the frame before in place, any other key is
    /// kept for the frame, and no key clears it.
    pub fn handle_keyboard(&mut self, event: Option<Key>)
        ensures
            *final(self) == (match event {
                Some(Key::Esc) => GameState { running: false, ..*old(self) },
                _ => GameState { keyboard_event: event, ..*old(self) },
            }),
    {
        match event {
            Some(Key::Esc) => {
                self.stop_game();
            },
            Some(key) => {
                self.keyboard_event = Some(key);
            },
            None => {
                self.keyboard_event = None;
            },
        }
    }
}

} // verus!
