//! A game: a board, the input mode, and the rules that turn each input
//! event into a move.

use vstd::prelude::*;
use crate::cell::Aspect;
use crate::field::Field;
use crate::output::Output;

verus! {

/// What a click on the board means.
#[derive(Debug, Clone, Copy, PartialEq, Eq, Structural)]
pub enum Mode {
    Flag,
    Normal,
}

impl Mode {
    /// The other mode.
    pub open spec fn flipped(self) -> Mode {
        match self {
            Mode::Flag => Mode::Normal,
            Mode::Normal => Mode::Flag,
        }
    }
}

/// What a game is set up with.
#[derive(Debug, Clone, Copy)]
pub struct Config {
    pub height: usize,
    pub width: usize,
    pub nb_mines: usize,
}

impl Config {
    /// A board of this size can be built and has room for the mines.
    pub open spec fn wf(&self) -> bool {
        &&& self.height > 0
        &&& self.width > 0
        &&& self.height * self.width <= usize::MAX
        &&& self.nb_mines <= self.height * self.width
    }
}

/// One input event, as the input source delivers it.
#[derive(Debug, Clone, Copy, PartialEq, Eq, Structural)]
pub enum Event {
    /// A key that types a character.
    Char(char),
    /// The escape key.
    Escape,
    /// The left mouse button, pressed at column `x` and line `y` of the
    /// screen, both counted from 1.
    LeftPress { x: u16, y: u16 },
    /// Any other key or mouse event.
    Other,
    /// An event that could not be read.
    Unreadable,
}

/// What has to be drawn again after an event.
#[derive(Debug, Clone, Copy, PartialEq, Eq, Structural)]
pub enum Display {
    Nothing,
    Mode,
    Board,
}

/// What an event led to, and what the caller has to do about it.
#[derive(Debug, Clone, Copy, PartialEq, Eq, Structural)]
pub enum Outcome {
    /// The player leaves: end the session.
    Quit,
    /// The player asked for a new game and has got one: set the screen up
    /// again.
    Restart,
    /// The event could not be read: report it and go on.
    Unreadable,
    /// The game goes on after drawing again what is given.
    Continue(Display),
    /// Every cell without a mine is revealed: draw what is given, then end.
    Won(Display),
    /// A mine was revealed: draw the board, then end.
    Lost,
}

/// The key that asks for a new game.
pub const RESET_KEY: char = 'r';

/// The key that switches between the two modes.
pub const MODE_KEY: char = 'f';

/// A game in play.
pub struct Game {
    pub nb_mines: usize,
    pub field: Field,
    pub mode: Mode,
}

impl Game {
    /// The board is in order and holds as many mines as the game was set
    /// up with.
    pub open spec fn wf(&self) -> bool {
        &&& self.field.wf()
        &&& self.field.nb_of_mines == self.nb_mines
    }

    /// A game as it starts: a board of the given size with `nb_mines`
    /// mines, every cell hidden, in normal mode.
    pub open spec fn is_fresh(&self, height: usize, width: usize, nb_mines: usize) -> bool {
        &&& self.field.height == height
        &&& self.field.width == width
        &&& self.nb_mines == nb_mines
        &&& self.field.mine_count() == nb_mines
        &&& self.field.empty_count() == height * width - nb_mines
        &&& self.field.hidden_count() == height * width
        &&& self.mode == Mode::Normal
        &&& forall|r: int, c: int|
            self.field.in_bounds(r, c) ==> (#[trigger] self.field.at(r, c)).aspect
                == Aspect::Hidden
    }

    /// Whether as many cells are left unrevealed as there are mines.
    pub open spec fn spec_is_won(&self) -> bool {
        self.field.hidden_count() == self.nb_mines
    }

    /// The cell that a press at column `x`, line `y` lands on, if any.
    pub open spec fn target(&self, screen: &Output, x: u16, y: u16) -> Option<(usize, usize)> {
        match screen.spec_locate(x, y) {
            Some(cell) => if self.field.in_bounds(cell.0 as int, cell.1 as int) {
                Some(cell)
            } else {
                None
            },
            None => None,
        }
    }

    /// How the game goes on once an event is dealt with.
    pub open spec fn goes_on(&self, display: Display) -> Outcome {
        if self.spec_is_won() {
            Outcome::Won(display)
        } else {
            Outcome::Continue(display)
        }
    }

    /// `self` is `before` with the flag toggled on the cell at `(y, x)`.
    pub open spec fn is_flagged_from(&self, before: &Game, y: int, x: int) -> bool {
        &&& self.mode == before.mode
        &&& self.nb_mines == before.nb_mines
        &&& self.field.height == before.field.height
        &&& self.field.width == before.field.width
        &&& self.field.nb_cells == before.field.nb_cells
        &&& self.field.nb_of_mines == before.field.nb_of_mines
        &&& self.field.nb_unreveiled_cells == before.field.nb_unreveiled_cells
        &&& forall|r: int, c: int|
            self.field.in_bounds(r, c) ==> {
                let cell = #[trigger] self.field.at(r, c);
                &&& cell.content == before.field.at(r, c).content
                &&& cell.adjacent_mines == before.field.at(r, c).adjacent_mines
                &&& cell.aspect == if r == y && c == x {
                    before.field.at(r, c).aspect.toggled()
                } else {
                    before.field.at(r, c).aspect
                }
            }
    }

    /// What `event` makes of the game `before`: whether `self` is the game
    /// after it and `outcome` the answer to it.
    pub open spec fn follows(
        &self,
        before: &Game,
        event: Event,
        screen: &Output,
        outcome: Outcome,
    ) -> bool {
        match event {
            Event::Unreadable => *self == *before && outcome == Outcome::Unreadable,
            Event::Escape => *self == *before && outcome == Outcome::Quit,
            Event::Char(key) => if key == RESET_KEY {
                &&& self.is_fresh(before.field.height, before.field.width, before.nb_mines)
                &&& outcome == Outcome::Restart
            } else if key == MODE_KEY {
                &&& self.field == before.field
                &&& self.nb_mines == before.nb_mines
                &&& self.mode == before.mode.flipped()
                &&& outcome == self.goes_on(Display::Mode)
            } else {
                *self == *before && outcome == self.goes_on(Display::Nothing)
            },
            Event::LeftPress { x, y } => match before.target(screen, x, y) {
                None => *self == *before && outcome == self.goes_on(Display::Nothing),
                Some(cell) => match before.mode {
                    Mode::Normal => {
                        &&& self.mode == before.mode
                        &&& self.nb_mines == before.nb_mines
                        &&& self.field.is_revealed_from(&before.field, cell.0 as int, cell.1 as int)
                        &&& outcome == if before.field.at(
                            cell.0 as int,
                            cell.1 as int,
                        ).spec_has_mine() {
                            Outcome::Lost
                        } else {
                            self.goes_on(Display::Board)
                        }
                    },
                    Mode::Flag => {
                        &&& self.is_flagged_from(before, cell.0 as int, cell.1 as int)
                        &&& outcome == self.goes_on(Display::Board)
                    },
                },
            },
            Event::Other => *self == *before && outcome == self.goes_on(Display::Nothing),
        }
    }

    /// A new game on a freshly mined board.
    pub fn new(config: Config) -> (game: Game)
        requires
            config.wf(),
        ensures
            game.wf(),
            game.is_fresh(config.height, config.width, config.nb_mines),
    {
        let field = Field::new(config.height, config.width).populate_with_mines(config.nb_mines);
        Game { nb_mines: config.nb_mines, field, mode: Mode::Normal }
    }

    /// A new game of the same size and with as many mines as this one.
    pub fn reset(&self) -> (game: Game)
        requires
            self.wf(),
        ensures
            game.wf(),
            game.is_fresh(self.field.height, self.field.width, self.nb_mines),
    {
        proof {
            crate::field::lemma_counts_fit(&self.field);
        }
        let config = Config {
            height: self.field.height,
            width: self.field.width,
            nb_mines: self.nb_mines,
        };
        Self::new(config)
    }

    /// Switches between normal and flag mode.
    pub fn change_mode(&mut self)
        ensures
            final(self).mode == old(self).mode.flipped(),
            final(self).field == old(self).field,
            final(self).nb_mines == old(self).nb_mines,
    {
        match self.mode {
            Mode::Flag => {
                self.mode = Mode::Normal;
            },
            Mode::Normal => {
                self.mode = Mode::Flag;
            },
        }
    }

    /// Whether the counter of unrevealed cells has come down to the number
    /// of mines; in a game in order, whether as many cells are left
    /// unrevealed as there are mines.
    pub fn is_won(&self) -> (won: bool)
        ensures
            won == (self.field.nb_unreveiled_cells == self.nb_mines),
            self.wf() ==> won == self.spec_is_won(),
    {
        self.field.nb_unreveiled_cells == self.nb_mines
    }

    fn after(&self, display: Display) -> (outcome: Outcome)
        requires
            self.wf(),
        ensures
            outcome == self.goes_on(display),
    {
        if self.is_won() {
            Outcome::Won(display)
        } else {
            Outcome::Continue(display)
        }
    }

    /// Deals with one input event: changes the game as the event asks and
    /// tells the caller what to draw and whether the game is over.
    pub fn handle_event(&mut self, event: Event, screen: &Output) -> (outcome: Outcome)
        requires
            old(self).wf(),
            screen.characters_width > 0,
        ensures
            final(self).wf(),
            final(self).follows(old(self), event, screen, outcome),
    {
        match event {
            Event::Unreadable => Outcome::Unreadable,
            Event::Escape => Outcome::Quit,
            Event::Char(key) => {
                if key == RESET_KEY {
                    *self = self.reset();
                    Outcome::Restart
                } else if key == MODE_KEY {
                    self.change_mode();
                    self.after(Display::Mode)
                } else {
                    self.after(Display::Nothing)
                }
            },
            Event::LeftPress { x, y } => {
                match screen.locate(x, y) {
                    Some((row, col)) => {
                        if self.field.position_is_valid(row, col) {
                            match self.mode {
                                Mode::Normal => {
                                    self.field.show_cells(row, col);
                                    if self.field.cell_has_mine(row, col) {
                                        Outcome::Lost
                                    } else {
                                        self.after(Display::Board)
                                    }
                                },
                                Mode::Flag => {
                                    self.field.toggle_flag(row, col);
                                    self.after(Display::Board)
                                },
                            }
                        } else {
                            self.after(Display::Nothing)
                        }
                    },
                    None => self.after(Display::Nothing),
                }
            },
            Event::Other => self.after(Display::Nothing),
        }
    }
}

/// Within one game, that is whatever the event but the reset key, the
/// board keeps its size and its mines, every count of mines around a cell
/// stays, and no visible cell is hidden again.
pub proof fn lemma_event_keeps_ground(
    before: &Game,
    after: &Game,
    event: Event,
    screen: &Output,
    outcome: Outcome,
    r: int,
    c: int,
)
    requires
        after.follows(before, event, screen, outcome),
        event != Event::Char(RESET_KEY),
        before.field.in_bounds(r, c),
    ensures
        after.nb_mines == before.nb_mines,
        after.field.height == before.field.height,
        after.field.width == before.field.width,
        after.field.at(r, c).content == before.field.at(r, c).content,
        after.field.at(r, c).adjacent_mines == before.field.at(r, c).adjacent_mines,
        before.field.at(r, c).aspect.may_become(after.field.at(r, c).aspect),
{
    match event {
        Event::LeftPress { x, y } => {
            match before.target(screen, x, y) {
                Some(cell) => {
                    match before.mode {
                        Mode::Normal => {
                            after.field.lemma_reveal_keeps_visible(
                                &before.field,
                                cell.0 as int,
                                cell.1 as int,
                                r,
                                c,
                            );
                            assert(after.field.in_bounds(r, c));
                        },
                        Mode::Flag => {
                            assert(after.field.in_bounds(r, c));
                        },
                    }
                },
                None => {},
            }
        },
        _ => {},
    }
}

/// The mode changes with the mode key, goes back to normal with the reset
/// key, and stays with everything else.
pub proof fn lemma_mode_changes_on_its_key_only(
    before: &Game,
    after: &Game,
    event: Event,
    screen: &Output,
    outcome: Outcome,
)
    requires
        after.follows(before, event, screen, outcome),
    ensures
        after.mode == if event == Event::Char(MODE_KEY) {
            before.mode.flipped()
        } else if event == Event::Char(RESET_KEY) {
            Mode::Normal
        } else {
            before.mode
        },
{
}

/// In flag mode no event reveals a cell, so none loses the game.
pub proof fn lemma_flag_mode_never_loses(
    before: &Game,
    after: &Game,
    event: Event,
    screen: &Output,
    outcome: Outcome,
)
    requires
        after.follows(before, event, screen, outcome),
        before.mode == Mode::Flag,
    ensures
        outcome != Outcome::Lost,
        event != Event::Char(RESET_KEY) ==> after.field.nb_unreveiled_cells
            == before.field.nb_unreveiled_cells,
{
}

} // verus!
