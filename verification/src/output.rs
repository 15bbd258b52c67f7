//! What a game looks like on a terminal, and where a press lands on it.
//!
//! The board is drawn inside a frame whose top-left corner is the first
//! character of the first line; every cell takes one line and
//! `characters_width` columns. Screen positions count from 1. Nothing here
//! writes to the terminal: the drawing functions return the text, escape
//! sequences included, that the caller prints.

use vstd::prelude::*;
use vstd::string::{StrSliceExecFns, StringExecFns};
use crate::cell::{Aspect, Cell, Content};
use crate::field::Field;
use crate::game::Mode;

verus! {

/// The pieces of the frame around the board.
pub const TOP_RIGHT_CORNER: &'static str = "┐";
pub const TOP_LEFT_CORNER: &'static str = "┌";
pub const BOTTOM_LEFT_CORNER: &'static str = "└";
pub const BOTTOM_RIGHT_CORNER: &'static str = "┘";
pub const SIDE_BORDER: &'static str = "│";
pub const HORIZONTAL_BORDER: &'static str = "─";
/// The mode box: its top, its line in either mode, its bottom.
pub const TOP_MODE_BORDER: &'static str =
    "┌──────── Mode ──────────────────┐";
pub const NORMAL_MODE: &'static str = "│ Normal mode                    │";
pub const FLAG_MODE: &'static str = "│ Flag mode                      │";
pub const BOTTOM_MODE_BORDER: &'static str =
    "└────────────────────────────────┘";
/// The keys, in a box of their own.
pub const USAGE: &'static str = "┌─────┬─ Usage ──────────────────┐\n\r\
                      │ f   │   change mode            │\n\r\
                      │ r   │   reset                  │\n\r\
                      │ esc │   quit                   │\n\r\
                      └─────┘──────────────────────────┘";

/// What the prompt says when every cell without a mine is revealed.
pub const WIN_MESSAGE: &'static str = "You won, congrats!\n";

/// What the prompt says when a mine is revealed.
pub const LOSS_MESSAGE: &'static str = "Boom, you lost...\n";

/// What a hidden cell shows.
pub const HIDDEN_SYMBOL: &'static str = "ðŸ“¦";

/// What a flagged cell shows.
pub const FLAG_SYMBOL: &'static str = "ðŸ³";

/// What a revealed mine shows.
pub const MINE_SYMBOL: &'static str = "ðŸ’¥";

/// What a revealed cell with no mine on it or around it shows.
pub const BLANK_SYMBOL: &'static str = " ";

/// Lines between the last row of the board and the mode box.
pub const MODE_ROW_OFFSET: u16 = 3;

/// Lines between the last row of the board and the prompt.
pub const PROMPT_ROW_OFFSET: u16 = 11;

/// The geometry of the screen: how wide a cell is drawn, and the lines of
/// the mode box and of the prompt.
#[derive(Debug, Clone, Copy)]
pub struct Output {
    pub characters_width: usize,
    pub mode_row: u16,
    pub prompt_row: u16,
}

/// The two horizontal edges of the frame around the board.
#[derive(Debug, Clone, Copy, PartialEq, Eq, Structural)]
pub enum Side {
    Top,
    Bottom,
}

/// The character for a digit below ten.
pub open spec fn digit(d: nat) -> char {
    if d == 0 {
        '0'
    } else if d == 1 {
        '1'
    } else if d == 2 {
        '2'
    } else if d == 3 {
        '3'
    } else if d == 4 {
        '4'
    } else if d == 5 {
        '5'
    } else if d == 6 {
        '6'
    } else if d == 7 {
        '7'
    } else if d == 8 {
        '8'
    } else {
        '9'
    }
}

/// A number written in decimal, without sign or leading zeros.
pub open spec fn decimal(n: nat) -> Seq<char>
    decreases n,
{
    if n < 10 {
        seq![digit(n)]
    } else {
        decimal(n / 10).push(digit(n % 10))
    }
}

/// `n` spaces.
pub open spec fn spaces(n: nat) -> Seq<char> {
    Seq::new(n, |i: int| ' ')
}

/// `text` in the middle of `width` columns: where it is shorter, spaces
/// fill both sides, the odd one on the right.
pub open spec fn centered(text: Seq<char>, width: nat) -> Seq<char> {
    if text.len() >= width {
        text
    } else {
        let left = (width - text.len()) / 2;
        spaces(left as nat) + text + spaces((width - text.len() - left) as nat)
    }
}

/// `text` written `times` times in a row.
pub open spec fn repeated(text: Seq<char>, times: nat) -> Seq<char>
    decreases times,
{
    if times == 0 {
        Seq::empty()
    } else {
        repeated(text, (times - 1) as nat) + text
    }
}

/// The sequence that moves the cursor to column `x` of line `y`.
pub open spec fn goto_text(x: u16, y: u16) -> Seq<char> {
    "\x1B["@ + decimal(y as nat) + ";"@ + decimal(x as nat) + "H"@
}

/// The sequence that sets the colour a cell is drawn in.
pub open spec fn color_text(cell: Cell) -> Seq<char> {
    match (cell.aspect, cell.content) {
        (Aspect::Hidden, _) => "\x1B[38;5;7m"@,
        (Aspect::Flagged, _) => "\x1B[38;5;3m"@,
        (Aspect::Visible, Content::Mine) => "\x1B[38;5;1m"@,
        (Aspect::Visible, Content::Empty) => "\x1B[38;5;2m"@,
    }
}

/// What a cell shows of itself.
pub open spec fn symbol_text(cell: Cell) -> Seq<char> {
    match cell.aspect {
        Aspect::Hidden => HIDDEN_SYMBOL@,
        Aspect::Flagged => FLAG_SYMBOL@,
        Aspect::Visible => match cell.content {
            Content::Mine => MINE_SYMBOL@,
            Content::Empty => if cell.adjacent_mines > 0 {
                decimal(cell.adjacent_mines as nat)
            } else {
                BLANK_SYMBOL@
            },
        },
    }
}

/// One edge of the frame, as a line of its own.
pub open spec fn edge_text(side: Side, horizontal_edge: Seq<char>) -> Seq<char> {
    match side {
        Side::Top => TOP_LEFT_CORNER@ + horizontal_edge + TOP_RIGHT_CORNER@ + "\r\n"@,
        Side::Bottom => BOTTOM_LEFT_CORNER@ + horizontal_edge + BOTTOM_RIGHT_CORNER@ + "\r\n"@,
    }
}

/// The line in the mode box for a mode.
pub open spec fn mode_line(mode: Mode) -> Seq<char> {
    match mode {
        Mode::Normal => NORMAL_MODE@,
        Mode::Flag => FLAG_MODE@,
    }
}

/// `termion::color::Fg(termion::color::White)` as text, by its `Display`.
/// The contract writes out what termion writes: the sequence `ESC [`, then
/// `38;5;`, the colour's number 7 and `m`.
#[verifier::external_body]
fn fg_white() -> (text: String)
    ensures
        text@ == "\x1B[38;5;7m"@,
{
    termion::color::Fg(termion::color::White).to_string()
}

/// `termion::color::Fg(termion::color::Yellow)` as text, by its `Display`.
/// The contract writes out what termion writes: the sequence `ESC [`, then
/// `38;5;`, the colour's number 3 and `m`.
#[verifier::external_body]
fn fg_yellow() -> (text: String)
    ensures
        text@ == "\x1B[38;5;3m"@,
{
    termion::color::Fg(termion::color::Yellow).to_string()
}

/// `termion::color::Fg(termion::color::Red)` as text, by its `Display`.
/// The contract writes out what termion writes: the sequence `ESC [`, then
/// `38;5;`, the colour's number 1 and `m`.
#[verifier::external_body]
fn fg_red() -> (text: String)
    ensures
        text@ == "\x1B[38;5;1m"@,
{
    termion::color::Fg(termion::color::Red).to_string()
}

/// `termion::color::Fg(termion::color::Green)` as text, by its `Display`.
/// The contract writes out what termion writes: the sequence `ESC [`, then
/// `38;5;`, the colour's number 2 and `m`.
#[verifier::external_body]
fn fg_green() -> (text: String)
    ensures
        text@ == "\x1B[38;5;2m"@,
{
    termion::color::Fg(termion::color::Green).to_string()
}

/// `termion::color::Fg(termion::color::Reset)` as text, by its `Display`.
/// The contract writes out what termion writes: `ESC [ 39m`, which gives
/// the foreground its default colour back.
#[verifier::external_body]
fn fg_reset() -> (text: String)
    ensures
        text@ == "\x1B[39m"@,
{
    termion::color::Fg(termion::color::Reset).to_string()
}

/// `termion::cursor::Goto(x, y)` as text, by its `Display`. The contract
/// writes out what termion writes: `ESC [`, the line `y`, `;`, the column
/// `x` and `H`, both numbers in decimal. Termion's debug assertion refuses
/// the position `(0, 0)`, so it is left out.
#[verifier::external_body]
fn goto(x: u16, y: u16) -> (text: String)
    requires
        x != 0 || y != 0,
    ensures
        text@ == goto_text(x, y),
{
    termion::cursor::Goto(x, y).to_string()
}

/// `termion::clear::BeforeCursor` as text, by its `Display`. The contract
/// writes out what termion writes: `ESC [ 1J`.
#[verifier::external_body]
fn clear_before_cursor() -> (text: String)
    ensures
        text@ == "\x1B[1J"@,
{
    termion::clear::BeforeCursor.to_string()
}

/// `termion::clear::CurrentLine` as text, by its `Display`. The contract
/// writes out what termion writes: `ESC [ 2K`.
#[verifier::external_body]
fn clear_current_line() -> (text: String)
    ensures
        text@ == "\x1B[2K"@,
{
    termion::clear::CurrentLine.to_string()
}

/// `u16::to_string`. The contract says that the text is the number in
/// decimal, without sign or leading zeros.
#[verifier::external_body]
fn number_text(n: u16) -> (text: String)
    ensures
        text@ == decimal(n as nat),
{
    n.to_string()
}

fn padding(n: usize) -> (text: String)
    ensures
        text@ == spaces(n as nat),
{
    let mut text = String::new();
    let mut done: usize = 0;
    while done < n
        invariant
            done <= n,
            text@ == spaces(done as nat),
        decreases n - done,
    {
        proof {
            reveal_strlit(" ");
        }
        text.append(" ");
        done += 1;
        assert(text@ =~= spaces(done as nat));
    }
    text
}

fn center(text: &str, width: usize) -> (out: String)
    ensures
        out@ == centered(text@, width as nat),
{
    let len = text.unicode_len();
    if len >= width {
        String::from_str(text)
    } else {
        let left = (width - len) / 2;
        let right = width - len - left;
        let mut out = padding(left);
        out.append(text);
        out.append(padding(right).as_str());
        out
    }
}

fn repeat(text: &str, times: usize) -> (out: String)
    ensures
        out@ == repeated(text@, times as nat),
{
    let mut out = String::new();
    let mut done: usize = 0;
    while done < times
        invariant
            done <= times,
            out@ == repeated(text@, done as nat),
        decreases times - done,
    {
        out.append(text);
        done += 1;
    }
    out
}

impl Cell {
    /// What the cell shows of itself: a box while hidden, a flag while
    /// flagged, and once revealed the mine, the number of mines around it,
    /// or a blank.
    pub fn symbol(self) -> (text: String)
        ensures
            text@ == symbol_text(self),
    {
        match self.aspect {
            Aspect::Hidden => String::from_str(HIDDEN_SYMBOL),
            Aspect::Flagged => String::from_str(FLAG_SYMBOL),
            Aspect::Visible => match self.content {
                Content::Mine => String::from_str(MINE_SYMBOL),
                Content::Empty => if self.adjacent_mines > 0 {
                    number_text(self.adjacent_mines)
                } else {
                    String::from_str(BLANK_SYMBOL)
                },
            },
        }
    }
}

impl Output {
    /// The screen for a board of `height` rows whose cells are
    /// `characters_width` columns wide.
    pub fn new(height: usize, characters_width: usize) -> (output: Output)
        requires
            height + PROMPT_ROW_OFFSET <= u16::MAX,
        ensures
            output.characters_width == characters_width,
            output.mode_row == height + MODE_ROW_OFFSET,
            output.prompt_row == height + PROMPT_ROW_OFFSET,
    {
        Output {
            characters_width,
            mode_row: height as u16 + MODE_ROW_OFFSET,
            prompt_row: height as u16 + PROMPT_ROW_OFFSET,
        }
    }

    /// The board position under the screen position `(y, x)`, which must
    /// lie below the top border and right of the left one.
    pub open spec fn spec_convert(&self, position: (usize, usize)) -> (usize, usize) {
        ((position.0 - 2) as usize, ((position.1 - 2) / (self.characters_width as int)) as usize)
    }

    /// The board position under the screen position `(y, x)`.
    pub fn convert_coordinates(&self, position: (usize, usize)) -> (cell: (usize, usize))
        requires
            position.0 >= 2,
            position.1 >= 2,
            self.characters_width > 0,
        ensures
            cell == self.spec_convert(position),
            cell.0 == position.0 - 2,
            cell.1 == (position.1 - 2) / (self.characters_width as int),
    {
        let (mut y, mut x) = position;
        y -= 2;
        x = (x - 2) / self.characters_width;
        (y, x)
    }

    /// The board position under a mouse press at column `x`, line `y`, or
    /// `None` for a press on the top or left border.
    pub open spec fn spec_locate(&self, x: u16, y: u16) -> Option<(usize, usize)> {
        if y > 1 && x > 1 {
            Some(self.spec_convert((y as usize, x as usize)))
        } else {
            None
        }
    }

    /// The board position under a mouse press at column `x`, line `y`.
    pub fn locate(&self, x: u16, y: u16) -> (cell: Option<(usize, usize)>)
        requires
            self.characters_width > 0,
        ensures
            cell == self.spec_locate(x, y),
    {
        if y > 1 && x > 1 {
            Some(self.convert_coordinates((y as usize, x as usize)))
        } else {
            None
        }
    }

    /// The sequences that wipe the board off the screen and put the
    /// cursor in the top-left corner.
    pub open spec fn clear_field_text(&self) -> Seq<char> {
        goto_text(1, (self.mode_row - 2) as u16) + "\x1B[1J"@ + goto_text(1, 1)
    }

    /// The sequences that wipe line `line`, with the cursor left at its
    /// start.
    pub open spec fn clear_line_text(line: u16) -> Seq<char> {
        goto_text(1, line) + "\x1B[2K"@ + "\r"@
    }

    /// One cell: its colour, its symbol in the middle of the cell's
    /// columns, and the colour reset.
    pub open spec fn cell_text(&self, cell: Cell) -> Seq<char> {
        color_text(cell) + centered(symbol_text(cell), self.characters_width as nat) + "\x1B[39m"@
    }

    /// The cells of a row, one after the other.
    pub open spec fn cells_text(&self, row: Seq<Cell>) -> Seq<char>
        decreases row.len(),
    {
        if row.len() == 0 {
            Seq::empty()
        } else {
            self.cells_text(row.drop_last()) + self.cell_text(row.last())
        }
    }

    /// A row of the board between the two side borders.
    pub open spec fn line_text(&self, row: Seq<Cell>) -> Seq<char> {
        SIDE_BORDER@ + self.cells_text(row) + SIDE_BORDER@ + "\n\r"@
    }

    /// The rows of the board, from the top down.
    pub open spec fn lines_text(&self, rows: Seq<Seq<Cell>>) -> Seq<char>
        decreases rows.len(),
    {
        if rows.len() == 0 {
            Seq::empty()
        } else {
            self.lines_text(rows.drop_last()) + self.line_text(rows.last())
        }
    }

    /// The whole board in its frame, drawn from the top-left corner of a
    /// wiped screen.
    pub open spec fn field_text(&self, field: &Field) -> Seq<char> {
        let horizontal_edge = repeated(
            HORIZONTAL_BORDER@,
            (field.width * self.characters_width) as nat,
        );
        self.clear_field_text() + edge_text(Side::Top, horizontal_edge) + self.lines_text(
            field.rows(),
        ) + edge_text(Side::Bottom, horizontal_edge)
    }

    /// What is printed when the mode changes: the mode's line in the mode
    /// box.
    pub open spec fn mode_text(&self, mode: Mode) -> Seq<char> {
        Self::clear_line_text((self.mode_row + 1) as u16) + "\x1B[38;5;7m"@ + mode_line(mode)
            + "\r"@
    }

    /// What is printed under a new board: the mode box, in normal mode,
    /// and the keys.
    pub open spec fn info_text(&self) -> Seq<char> {
        "\x1B[39m"@ + goto_text(1, self.mode_row) + TOP_MODE_BORDER@ + "\r\n"@ + NORMAL_MODE@
            + "\r\n"@ + BOTTOM_MODE_BORDER@ + "\r\n"@ + USAGE@ + "\r\n"@
    }

    /// What is printed when the game ends: the message on the prompt
    /// line.
    pub open spec fn end_text(&self, message: Seq<char>) -> Seq<char> {
        Self::clear_line_text(self.prompt_row) + "\x1B[38;5;7m"@ + message + "\r"@
    }

    /// What is printed when the player leaves: the prompt line wiped.
    pub open spec fn leave_text(&self) -> Seq<char> {
        goto_text(1, self.prompt_row) + "\x1B[2K"@ + "\r"@
    }

    fn clear_field_instructions(&self) -> (text: String)
        requires
            self.mode_row >= 2,
        ensures
            text@ == self.clear_field_text(),
    {
        let mut text = goto(1, self.mode_row - 2);
        text.append(clear_before_cursor().as_str());
        text.append(goto(1, 1).as_str());
        text
    }

    /// The text that draws the board.
    pub fn render_field(&self, field: &Field) -> (text: String)
        requires
            self.mode_row >= 2,
            field.width * self.characters_width <= usize::MAX,
        ensures
            text@ == self.field_text(field),
    {
        let mut buffer = self.clear_field_instructions();
        let horizontal_edge = repeat(HORIZONTAL_BORDER, field.width * self.characters_width);
        self.render_edge(&mut buffer, horizontal_edge.as_str(), Side::Top);
        let ghost start = buffer@;
        let mut done: usize = 0;
        while done < field.cells.len()
            invariant
                done <= field.cells@.len(),
                buffer@ == start + self.lines_text(field.rows().take(done as int)),
            decreases field.cells@.len() - done,
        {
            let ghost before = buffer@;
            self.render_line(&mut buffer, &field.cells[done]);
            done += 1;
            proof {
                let rows = field.rows();
                assert(rows.take(done as int).drop_last() =~= rows.take(done - 1));
                assert(rows.take(done as int).last() == field.cells@[done - 1]@);
                assert(buffer@ =~= start + self.lines_text(rows.take(done as int)));
            }
        }
        assert(field.rows().take(done as int) =~= field.rows());
        self.render_edge(&mut buffer, horizontal_edge.as_str(), Side::Bottom);
        assert(buffer@ =~= self.field_text(field));
        buffer
    }

    fn render_edge(&self, buffer: &mut String, horizontal_edge: &str, side: Side)
        ensures
            final(buffer)@ == old(buffer)@ + edge_text(side, horizontal_edge@),
    {
        let mut line = match side {
            Side::Top => String::from_str(TOP_LEFT_CORNER).concat(horizontal_edge).concat(
                TOP_RIGHT_CORNER,
            ),
            Side::Bottom => String::from_str(BOTTOM_LEFT_CORNER).concat(horizontal_edge).concat(
                BOTTOM_RIGHT_CORNER,
            ),
        };
        line.append("\r\n");
        buffer.append(line.as_str());
    }

    fn render_line(&self, buffer: &mut String, line: &Vec<Cell>)
        ensures
            final(buffer)@ == old(buffer)@ + self.line_text(line@),
    {
        buffer.append(SIDE_BORDER);
        let ghost start = buffer@;
        let mut done: usize = 0;
        while done < line.len()
            invariant
                done <= line@.len(),
                buffer@ == start + self.cells_text(line@.take(done as int)),
            decreases line@.len() - done,
        {
            self.render_cell(buffer, line[done]);
            done += 1;
            proof {
                assert(line@.take(done as int).drop_last() =~= line@.take(done - 1));
                assert(buffer@ =~= start + self.cells_text(line@.take(done as int)));
            }
        }
        assert(line@.take(done as int) =~= line@);
        buffer.append(SIDE_BORDER);
        buffer.append("\n\r");
        assert(buffer@ =~= old(buffer)@ + self.line_text(line@));
    }

    fn render_cell(&self, buffer: &mut String, cell: Cell)
        ensures
            final(buffer)@ == old(buffer)@ + self.cell_text(cell),
    {
        let color = match (cell.aspect, cell.content) {
            (Aspect::Hidden, _) => fg_white(),
            (Aspect::Flagged, _) => fg_yellow(),
            (Aspect::Visible, Content::Mine) => fg_red(),
            (Aspect::Visible, Content::Empty) => fg_green(),
        };
        buffer.append(color.as_str());
        buffer.append(center(cell.symbol().as_str(), self.characters_width).as_str());
        buffer.append(fg_reset().as_str());
        assert(buffer@ =~= old(buffer)@ + self.cell_text(cell));
    }

    fn clear_line_instructions(line: u16) -> (text: String)
        ensures
            text@ == Self::clear_line_text(line),
    {
        let mut text = goto(1, line);
        text.append(clear_current_line().as_str());
        text.append("\r");
        text
    }

    /// The text that shows `mode` in the mode box.
    pub fn update_mode(&self, mode: &Mode) -> (text: String)
        requires
            self.mode_row < u16::MAX,
        ensures
            text@ == self.mode_text(*mode),
    {
        let mut text = Self::clear_line_instructions(self.mode_row + 1);
        text.append(fg_white().as_str());
        text.append(
            match mode {
                Mode::Normal => NORMAL_MODE,
                Mode::Flag => FLAG_MODE,
            },
        );
        text.append("\r");
        text
    }

    /// The text that draws the mode box and the keys under the board.
    pub fn prompt_info(&self) -> (text: String)
        ensures
            text@ == self.info_text(),
    {
        let mut text = fg_reset();
        text.append(goto(1, self.mode_row).as_str());
        text.append(TOP_MODE_BORDER);
        text.append("\r\n");
        text.append(NORMAL_MODE);
        text.append("\r\n");
        text.append(BOTTOM_MODE_BORDER);
        text.append("\r\n");
        text.append(USAGE);
        text.append("\r\n");
        text
    }

    /// The text that shows `message` on the prompt line.
    pub fn prompt_end_message(&self, message: &str) -> (text: String)
        ensures
            text@ == self.end_text(message@),
    {
        let mut text = Self::clear_line_instructions(self.prompt_row);
        text.append(fg_white().as_str());
        text.append(message);
        text.append("\r");
        text
    }

    /// The text that wipes the prompt line before the player leaves.
    pub fn reposition_cursor(&self) -> (text: String)
        ensures
            text@ == self.leave_text(),
    {
        let mut text = goto(1, self.prompt_row);
        text.append(clear_current_line().as_str());
        text.append("\r");
        text
    }
}

} // verus!
