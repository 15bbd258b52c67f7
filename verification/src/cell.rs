//! A single position of the board.

use vstd::prelude::*;

verus! {

/// What lies under a cell.
#[derive(Debug, Clone, Copy, PartialEq, Eq, Structural)]
pub enum Content {
    Mine,
    Empty,
}

/// How a cell currently shows on the board.
#[derive(Debug, Clone, Copy, PartialEq, Eq, Structural)]
pub enum Aspect {
    Visible,
    Hidden,
    Flagged,
}

impl Aspect {
    /// The aspect after one flag toggle: `Hidden` and `Flagged` swap,
    /// `Visible` stays.
    pub open spec fn toggled(self) -> Aspect {
        match self {
            Aspect::Hidden => Aspect::Flagged,
            Aspect::Flagged => Aspect::Hidden,
            Aspect::Visible => Aspect::Visible,
        }
    }

    /// Whether a cell may pass from `self` to `next` during a game:
    /// `Visible` is absorbing, everything else may change freely.
    pub open spec fn may_become(self, next: Aspect) -> bool {
        self == Aspect::Visible ==> next == Aspect::Visible
    }
}

/// One position of the board: what lies under it, how many mines lie
/// around it, and how it shows.
#[derive(Debug, Copy, Clone)]
pub struct Cell {
    pub content: Content,
    pub adjacent_mines: u16,
    pub aspect: Aspect,
}

impl Cell {
    /// A cell as every board starts with it: empty, hidden, next to no mine.
    pub open spec fn blank() -> Cell {
        Cell { content: Content::Empty, adjacent_mines: 0, aspect: Aspect::Hidden }
    }

    /// Whether the cell is revealed.
    pub open spec fn spec_is_visible(self) -> bool {
        self.aspect == Aspect::Visible
    }

    /// Whether a mine lies under the cell.
    pub open spec fn spec_has_mine(self) -> bool {
        self.content == Content::Mine
    }

    /// Whether the cell counts a mine around it.
    pub open spec fn spec_has_adjacent_mine(self) -> bool {
        self.adjacent_mines > 0
    }

    /// A revealed cell of this kind lets the reveal spread to its neighbours.
    pub open spec fn spreads(self) -> bool {
        !self.spec_has_mine() && !self.spec_has_adjacent_mine()
    }

    /// Reveals the cell.
    pub fn set_visible(&mut self)
        ensures
            final(self).aspect == Aspect::Visible,
            final(self).content == old(self).content,
            final(self).adjacent_mines == old(self).adjacent_mines,
    {
        self.aspect = Aspect::Visible;
    }

    /// Whether the cell is revealed.
    #[verifier::when_used_as_spec(spec_is_visible)]
    pub fn is_visible(self) -> (visible: bool)
        ensures
            visible == self.spec_is_visible(),
    {
        self.aspect == Aspect::Visible
    }

    /// Whether a mine lies under the cell.
    #[verifier::when_used_as_spec(spec_has_mine)]
    pub fn has_mine(self) -> (mine: bool)
        ensures
            mine == self.spec_has_mine(),
    {
        self.content == Content::Mine
    }

    /// Whether the cell counts a mine around it.
    #[verifier::when_used_as_spec(spec_has_adjacent_mine)]
    pub fn has_adjacent_mine(self) -> (near: bool)
        ensures
            near == self.spec_has_adjacent_mine(),
    {
        self.adjacent_mines > 0
    }

    /// Lays a mine under the cell.
    pub fn set_mine(&mut self)
        ensures
            final(self).content == Content::Mine,
            final(self).adjacent_mines == old(self).adjacent_mines,
            final(self).aspect == old(self).aspect,
    {
        self.content = Content::Mine;
    }

    /// Plants or removes a flag. A visible cell is left as it is.
    pub fn toggle_flag(&mut self)
        ensures
            final(self).aspect == old(self).aspect.toggled(),
            final(self).content == old(self).content,
            final(self).adjacent_mines == old(self).adjacent_mines,
    {
        match self.aspect {
            Aspect::Hidden => self.aspect = Aspect::Flagged,
            Aspect::Flagged => self.aspect = Aspect::Hidden,
            _ => {},
        }
    }
}

/// Toggling a flag twice gives back the aspect one started from.
pub proof fn lemma_toggle_twice(aspect: Aspect)
    ensures
        aspect.toggled().toggled() == aspect,
{
}

/// A toggle never hides a visible cell and never reveals a hidden one.
pub proof fn lemma_toggle_keeps_visibility(aspect: Aspect)
    ensures
        (aspect.toggled() == Aspect::Visible) == (aspect == Aspect::Visible),
        aspect.may_become(aspect.toggled()),
{
}

} // verus!
