//! From the three command-line values to a valid game configuration.

use vstd::prelude::*;
use crate::error::MineError;
use crate::game::Config;

verus! {

/// Height and width of the board where none is asked for.
pub const DEFAULT_SIZE: usize = 8;

/// The smallest height and width.
pub const MIN_SIZE: usize = 2;

/// The largest height.
pub const MAX_HEIGHT: usize = 30;

/// The largest width.
pub const MAX_WIDTH: usize = 24;

/// An argument as it was read: a number, or the error that reading gave.
pub type Reading = Result<usize, MineError>;

/// What `str::parse::<usize>` makes of a text: the number it writes in
/// decimal, or `None` where it writes none that fits.
pub uninterp spec fn parsed_number(text: Seq<char>) -> Option<usize>;

/// Reads a number by `str::parse::<usize>`. The contract only names the
/// outcome, `parsed_number`: all it claims is that the same text always
/// reads as the same number, or always as none.
#[verifier::external_body]
fn parse_number(text: &str) -> (number: Result<usize, std::num::ParseIntError>)
    ensures
        parsed_number(text@) == match number {
            Ok(n) => Some(n),
            Err(_) => None::<usize>,
        },
{
    text.parse::<usize>()
}

/// How an argument reads: not at all where it is absent, else as the
/// number it writes, or as a size error where it writes none.
pub open spec fn parsed_arg(arg: Option<&str>) -> Option<Reading> {
    match arg {
        None => None,
        Some(text) => Some(
            match parsed_number(text@) {
                Some(n) => Ok(n),
                None => Err(MineError::SizeError),
            },
        ),
    }
}

/// The height or width that an argument stands for: the default where it
/// is absent, the number where it lies between `MIN_SIZE` and `most`.
pub open spec fn size_from(arg: Option<Reading>, most: usize) -> Reading {
    match arg {
        None => Ok(DEFAULT_SIZE),
        Some(Err(e)) => Err(e),
        Some(Ok(n)) => if MIN_SIZE <= n <= most {
            Ok(n)
        } else {
            Err(MineError::SizeError)
        },
    }
}

/// The number of mines that an argument stands for on a board of the
/// given size: the larger of height and width where it is absent, the
/// number where it is positive and leaves at least two cells free.
pub open spec fn mines_from(arg: Option<Reading>, height: usize, width: usize) -> Reading {
    match arg {
        None => Ok(if height >= width {
            height
        } else {
            width
        }),
        Some(Err(e)) => Err(e),
        Some(Ok(n)) => if 0 < n < height * width - 1 {
            Ok(n)
        } else {
            Err(MineError::NbMinesError)
        },
    }
}

/// The configuration that three arguments stand for, or the first error
/// among height, width and mines, in that order.
pub open spec fn config_from(
    height: Option<Reading>,
    width: Option<Reading>,
    nb_mines: Option<Reading>,
) -> Result<Config, MineError> {
    match size_from(height, MAX_HEIGHT) {
        Err(e) => Err(e),
        Ok(height) => match size_from(width, MAX_WIDTH) {
            Err(e) => Err(e),
            Ok(width) => match mines_from(nb_mines, height, width) {
                Err(e) => Err(e),
                Ok(nb_mines) => Ok(Config { height, width, nb_mines }),
            },
        },
    }
}

fn validate_size(arg: Option<Reading>, most: usize) -> (size: Reading)
    ensures
        size == size_from(arg, most),
{
    match arg {
        None => Ok(DEFAULT_SIZE),
        Some(Err(e)) => Err(e),
        Some(Ok(n)) => if MIN_SIZE <= n && n <= most {
            Ok(n)
        } else {
            Err(MineError::SizeError)
        },
    }
}

/// Builds the configuration from three arguments that have been read.
pub fn validate_config(
    height: Option<Reading>,
    width: Option<Reading>,
    nb_mines: Option<Reading>,
) -> (config: Result<Config, MineError>)
    ensures
        config == config_from(height, width, nb_mines),
{
    let height = match validate_size(height, MAX_HEIGHT) {
        Ok(n) => n,
        Err(e) => {
            return Err(e);
        },
    };
    let width = match validate_size(width, MAX_WIDTH) {
        Ok(n) => n,
        Err(e) => {
            return Err(e);
        },
    };
    assert(height * width <= 720) by (nonlinear_arith)
        requires
            height <= 30,
            width <= 24,
    ;
    assert(height * width >= 4) by (nonlinear_arith)
        requires
            height >= 2,
            width >= 2,
    ;
    let nb_mines_limit = height * width - 1;
    let nb_mines = match nb_mines {
        None => if height >= width {
            height
        } else {
            width
        },
        Some(Err(e)) => {
            return Err(e);
        },
        Some(Ok(n)) => if n > 0 && n < nb_mines_limit {
            n
        } else {
            return Err(MineError::NbMinesError);
        },
    };
    Ok(Config { height, width, nb_mines })
}

fn read_arg(arg: Option<&str>) -> (read: Option<Reading>)
    ensures
        read == parsed_arg(arg),
{
    match arg {
        None => None,
        Some(text) => Some(
            match parse_number(text) {
                Ok(n) => Ok(n),
                Err(e) => Err(MineError::from(e)),
            },
        ),
    }
}

/// Reads the three arguments as they were typed and builds the
/// configuration from them.
pub fn config_from_args(height: Option<&str>, width: Option<&str>, nb_mines: Option<&str>) -> (config:
    Result<Config, MineError>)
    ensures
        config == config_from(parsed_arg(height), parsed_arg(width), parsed_arg(nb_mines)),
{
    validate_config(read_arg(height), read_arg(width), read_arg(nb_mines))
}

/// Every configuration that comes out of the arguments can be played: its
/// board is between 2x2 and 30x24, and its mines are at least one and
/// leave at least two cells free.
pub proof fn lemma_config_from_args_is_playable(
    height: Option<Reading>,
    width: Option<Reading>,
    nb_mines: Option<Reading>,
)
    ensures
        config_from(height, width, nb_mines) matches Ok(config) ==> {
            &&& config.wf()
            &&& MIN_SIZE <= config.height <= MAX_HEIGHT
            &&& MIN_SIZE <= config.width <= MAX_WIDTH
            &&& 0 < config.nb_mines < config.height * config.width - 1
        },
{
    if let Ok(config) = config_from(height, width, nb_mines) {
        let h = config.height as int;
        let w = config.width as int;
        assert(2 <= h <= 30 && 2 <= w <= 24);
        assert(h * w <= 720 && h * w >= 2 * h && h * w >= 2 * w) by (nonlinear_arith)
            requires
                2 <= h <= 30,
                2 <= w <= 24,
        ;
    }
}

} // verus!
