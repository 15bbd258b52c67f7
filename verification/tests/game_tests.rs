use minesweeper::args::{config_from_args, validate_config};
use minesweeper::cell::{Aspect, Content};
use minesweeper::error::MineError;
use minesweeper::field::Field;
use minesweeper::game::{Config, Display, Event, Game, Mode, Outcome};
use minesweeper::output::Output;

fn press(row: u16, col: u16, width: u16) -> Event {
    Event::LeftPress { x: col * width + 2, y: row + 2 }
}

fn game_on(field: Field) -> Game {
    Game { nb_mines: field.nb_of_mines, field, mode: Mode::Normal }
}

fn visible_count(game: &Game) -> usize {
    game.field.cells.iter().flatten().filter(|cell| cell.aspect == Aspect::Visible).count()
}

#[test]
fn new_game_is_fresh() {
    let game = Game::new(Config { height: 8, width: 6, nb_mines: 10 });
    assert_eq!(game.nb_mines, 10);
    assert_eq!(game.mode, Mode::Normal);
    assert_eq!(game.field.height, 8);
    assert_eq!(game.field.width, 6);
    assert_eq!(game.field.nb_of_mines, 10);
    assert_eq!(game.field.nb_unreveiled_cells, 48);
    let mines =
        game.field.cells.iter().flatten().filter(|cell| cell.content == Content::Mine).count();
    assert_eq!(mines, 10);
    assert!(game.field.cells.iter().flatten().all(|cell| cell.aspect == Aspect::Hidden));
    assert!(!game.is_won());
}

#[test]
fn reset_gives_a_fresh_game_of_the_same_kind() {
    let mut game = Game::new(Config { height: 5, width: 7, nb_mines: 6 });
    let screen = Output::new(5, 4);
    game.handle_event(Event::Char('f'), &screen);
    game.handle_event(press(0, 0, 4), &screen);
    let again = game.reset();
    assert_eq!(again.nb_mines, 6);
    assert_eq!(again.field.height, 5);
    assert_eq!(again.field.width, 7);
    assert_eq!(again.mode, Mode::Normal);
    assert_eq!(again.field.nb_unreveiled_cells, 35);
    assert!(again.field.cells.iter().flatten().all(|cell| cell.aspect == Aspect::Hidden));
}

#[test]
fn change_mode_flips_between_the_two() {
    let mut game = Game::new(Config { height: 3, width: 3, nb_mines: 2 });
    game.change_mode();
    assert_eq!(game.mode, Mode::Flag);
    game.change_mode();
    assert_eq!(game.mode, Mode::Normal);
}

#[test]
fn escape_quits_and_r_restarts() {
    let mut game = Game::new(Config { height: 3, width: 3, nb_mines: 2 });
    let screen = Output::new(3, 4);
    let before = format!("{:?}", game.field);
    assert_eq!(game.handle_event(Event::Escape, &screen), Outcome::Quit);
    assert_eq!(game.handle_event(Event::Unreadable, &screen), Outcome::Unreadable);
    assert_eq!(format!("{:?}", game.field), before);
    assert_eq!(game.mode, Mode::Normal);
    game.handle_event(Event::Char('f'), &screen);
    game.handle_event(press(1, 1, 4), &screen);
    game.handle_event(Event::Char('f'), &screen);
    game.handle_event(press(0, 0, 4), &screen);
    game.handle_event(Event::Char('f'), &screen);
    assert_eq!(game.handle_event(Event::Char('r'), &screen), Outcome::Restart);
    assert_eq!(game.mode, Mode::Normal);
    assert_eq!(game.nb_mines, 2);
    assert_eq!(game.field.height, 3);
    assert_eq!(game.field.width, 3);
    assert_eq!(game.field.nb_of_mines, 2);
    assert_eq!(game.field.nb_unreveiled_cells, 9);
    assert!(game.field.cells.iter().flatten().all(|cell| cell.aspect == Aspect::Hidden));
    let mines =
        game.field.cells.iter().flatten().filter(|cell| cell.content == Content::Mine).count();
    assert_eq!(mines, 2);
}

#[test]
fn f_switches_the_mode() {
    let mut game = Game::new(Config { height: 3, width: 3, nb_mines: 2 });
    let screen = Output::new(3, 4);
    assert_eq!(game.handle_event(Event::Char('f'), &screen), Outcome::Continue(Display::Mode));
    assert_eq!(game.mode, Mode::Flag);
    assert_eq!(game.handle_event(Event::Char('f'), &screen), Outcome::Continue(Display::Mode));
    assert_eq!(game.mode, Mode::Normal);
}

#[test]
fn other_events_are_ignored() {
    let mut game = Game::new(Config { height: 3, width: 3, nb_mines: 2 });
    let screen = Output::new(3, 4);
    let before = format!("{:?}", game.field);
    assert_eq!(game.handle_event(Event::Char('x'), &screen), Outcome::Continue(Display::Nothing));
    assert_eq!(game.handle_event(Event::Other, &screen), Outcome::Continue(Display::Nothing));
    assert_eq!(format!("{:?}", game.field), before);
    assert_eq!(game.mode, Mode::Normal);
}

#[test]
fn a_press_outside_the_board_is_ignored() {
    let mut game = Game::new(Config { height: 3, width: 3, nb_mines: 2 });
    let screen = Output::new(3, 4);
    let before = format!("{:?}", game.field);
    for &(x, y) in [(1u16, 1u16), (1, 3), (3, 1), (0, 0), (14, 2), (2, 5), (500, 500)].iter() {
        assert_eq!(
            game.handle_event(Event::LeftPress { x, y }, &screen),
            Outcome::Continue(Display::Nothing)
        );
    }
    game.handle_event(Event::Char('f'), &screen);
    assert_eq!(
        game.handle_event(Event::LeftPress { x: 14, y: 2 }, &screen),
        Outcome::Continue(Display::Nothing)
    );
    assert_eq!(format!("{:?}", game.field), before);
}

#[test]
fn a_press_on_a_mine_loses() {
    let mut field = Field::new(3, 3);
    field.place_mine(1, 2);
    field.place_mine(0, 0);
    let mut game = game_on(field);
    let screen = Output::new(3, 4);
    assert_eq!(game.handle_event(press(1, 2, 4), &screen), Outcome::Lost);
    assert_eq!(game.field.cells[1][2].aspect, Aspect::Visible);
    assert_eq!(visible_count(&game), 1);
    assert_eq!(game.field.nb_unreveiled_cells, 8);
}

#[test]
fn a_press_on_a_flagged_mine_in_normal_mode_loses() {
    let mut field = Field::new(3, 3);
    field.place_mine(1, 2);
    let mut game = game_on(field);
    let screen = Output::new(3, 4);
    game.handle_event(Event::Char('f'), &screen);
    game.handle_event(press(1, 2, 4), &screen);
    assert_eq!(game.field.cells[1][2].aspect, Aspect::Flagged);
    game.handle_event(Event::Char('f'), &screen);
    assert_eq!(game.handle_event(press(1, 2, 4), &screen), Outcome::Lost);
}

#[test]
fn presses_reveal_until_the_game_is_won() {
    let mut field = Field::new(2, 2);
    field.place_mine(0, 0);
    let mut game = game_on(field);
    let screen = Output::new(2, 4);
    assert_eq!(game.handle_event(press(1, 1, 4), &screen), Outcome::Continue(Display::Board));
    assert_eq!(visible_count(&game), 1);
    assert_eq!(game.handle_event(press(0, 1, 4), &screen), Outcome::Continue(Display::Board));
    assert!(!game.is_won());
    assert_eq!(game.handle_event(press(1, 0, 4), &screen), Outcome::Won(Display::Board));
    assert!(game.is_won());
    assert_eq!(game.field.cells[0][0].aspect, Aspect::Hidden);
}

#[test]
fn every_column_of_a_cell_leads_to_it() {
    let screen = Output::new(3, 4);
    for x in 6u16..10 {
        let mut field = Field::new(3, 3);
        field.place_mine(0, 0);
        field.place_mine(2, 2);
        let mut game = game_on(field);
        game.handle_event(Event::LeftPress { x, y: 3 }, &screen);
        assert_eq!(game.field.cells[1][1].aspect, Aspect::Visible);
        assert_eq!(visible_count(&game), 1);
    }
}

#[test]
fn one_press_wins_a_board_with_one_far_mine() {
    let mut field = Field::new(4, 4);
    field.place_mine(0, 0);
    let mut game = game_on(field);
    let screen = Output::new(4, 4);
    assert_eq!(game.handle_event(press(3, 3, 4), &screen), Outcome::Won(Display::Board));
    assert_eq!(visible_count(&game), 15);
}

#[test]
fn a_won_game_says_so_after_any_event() {
    let mut field = Field::new(2, 2);
    field.place_mine(0, 0);
    field.show_cells(0, 1);
    field.show_cells(1, 0);
    field.show_cells(1, 1);
    let mut game = game_on(field);
    let screen = Output::new(2, 4);
    assert_eq!(game.handle_event(Event::Other, &screen), Outcome::Won(Display::Nothing));
    assert_eq!(game.handle_event(Event::Char('f'), &screen), Outcome::Won(Display::Mode));
}

#[test]
fn flag_mode_flags_and_unflags() {
    let mut field = Field::new(3, 3);
    field.place_mine(1, 2);
    let mut game = game_on(field);
    let screen = Output::new(3, 4);
    game.handle_event(Event::Char('f'), &screen);
    assert_eq!(game.handle_event(press(1, 2, 4), &screen), Outcome::Continue(Display::Board));
    assert_eq!(game.field.cells[1][2].aspect, Aspect::Flagged);
    assert_eq!(game.field.nb_unreveiled_cells, 9);
    assert_eq!(game.handle_event(press(1, 2, 4), &screen), Outcome::Continue(Display::Board));
    assert_eq!(game.field.cells[1][2].aspect, Aspect::Hidden);
    assert_eq!(game.field.nb_unreveiled_cells, 9);
    assert_eq!(visible_count(&game), 0);
    assert_eq!(game.mode, Mode::Flag);
}

#[test]
fn flag_mode_leaves_a_visible_cell_alone() {
    let mut field = Field::new(3, 3);
    field.place_mine(1, 2);
    field.show_cells(0, 0);
    let mut game = game_on(field);
    let screen = Output::new(3, 4);
    game.handle_event(Event::Char('f'), &screen);
    let visible = visible_count(&game);
    assert_eq!(game.handle_event(press(0, 0, 4), &screen), Outcome::Continue(Display::Board));
    assert_eq!(game.field.cells[0][0].aspect, Aspect::Visible);
    assert_eq!(visible_count(&game), visible);
}

#[test]
fn screen_rows_follow_the_height() {
    let screen = Output::new(8, 4);
    assert_eq!(screen.characters_width, 4);
    assert_eq!(screen.mode_row, 11);
    assert_eq!(screen.prompt_row, 19);
}

#[test]
fn screen_positions_are_converted() {
    let screen = Output::new(8, 4);
    assert_eq!(screen.convert_coordinates((2, 2)), (0, 0));
    assert_eq!(screen.convert_coordinates((2, 5)), (0, 0));
    assert_eq!(screen.convert_coordinates((2, 6)), (0, 1));
    assert_eq!(screen.convert_coordinates((9, 33)), (7, 7));
    assert_eq!(screen.convert_coordinates((10, 34)), (8, 8));
    let narrow = Output::new(8, 1);
    assert_eq!(narrow.convert_coordinates((5, 7)), (3, 5));
}

#[test]
fn presses_are_located() {
    let screen = Output::new(8, 4);
    assert_eq!(screen.locate(2, 2), Some((0, 0)));
    assert_eq!(screen.locate(11, 4), Some((2, 2)));
    assert_eq!(screen.locate(1, 4), None);
    assert_eq!(screen.locate(4, 1), None);
    assert_eq!(screen.locate(0, 0), None);
    assert_eq!(screen.locate(u16::MAX, u16::MAX), Some((65533, 16383)));
}

#[test]
fn arguments_default_to_eight_by_eight() {
    let config = config_from_args(None, None, None).unwrap();
    assert_eq!((config.height, config.width, config.nb_mines), (8, 8, 8));
}

#[test]
fn arguments_are_read_as_numbers() {
    let config = config_from_args(Some("10"), Some("20"), Some("30")).unwrap();
    assert_eq!((config.height, config.width, config.nb_mines), (10, 20, 30));
    let config = config_from_args(Some("30"), Some("24"), None).unwrap();
    assert_eq!((config.height, config.width, config.nb_mines), (30, 24, 30));
    let config = config_from_args(Some("2"), Some("24"), None).unwrap();
    assert_eq!((config.height, config.width, config.nb_mines), (2, 24, 24));
    let config = config_from_args(Some("2"), Some("2"), None).unwrap();
    assert_eq!((config.height, config.width, config.nb_mines), (2, 2, 2));
    let config = config_from_args(None, Some("3"), Some("1")).unwrap();
    assert_eq!((config.height, config.width, config.nb_mines), (8, 3, 1));
}

#[test]
fn sizes_out_of_range_are_refused() {
    assert!(matches!(config_from_args(Some("1"), None, None), Err(MineError::SizeError)));
    assert!(matches!(config_from_args(Some("31"), None, None), Err(MineError::SizeError)));
    assert!(matches!(config_from_args(Some("0"), None, None), Err(MineError::SizeError)));
    assert!(matches!(config_from_args(None, Some("1"), None), Err(MineError::SizeError)));
    assert!(matches!(config_from_args(None, Some("25"), None), Err(MineError::SizeError)));
    assert!(matches!(config_from_args(Some("31"), Some("3"), Some("0")), Err(MineError::SizeError)));
}

#[test]
fn unreadable_arguments_are_refused_as_sizes() {
    assert!(matches!(config_from_args(Some("ten"), None, None), Err(MineError::SizeError)));
    assert!(matches!(config_from_args(None, Some(""), None), Err(MineError::SizeError)));
    assert!(matches!(config_from_args(None, None, Some("-3")), Err(MineError::SizeError)));
    assert!(matches!(config_from_args(Some("4.5"), None, None), Err(MineError::SizeError)));
}

#[test]
fn mine_counts_out_of_range_are_refused() {
    assert!(matches!(config_from_args(None, None, Some("0")), Err(MineError::NbMinesError)));
    assert!(matches!(config_from_args(None, None, Some("63")), Err(MineError::NbMinesError)));
    assert!(matches!(config_from_args(None, None, Some("64")), Err(MineError::NbMinesError)));
    assert!(matches!(
        config_from_args(Some("2"), Some("2"), Some("3")),
        Err(MineError::NbMinesError)
    ));
    let config = config_from_args(None, None, Some("62")).unwrap();
    assert_eq!(config.nb_mines, 62);
    let config = config_from_args(Some("2"), Some("2"), Some("2")).unwrap();
    assert_eq!(config.nb_mines, 2);
}

#[test]
fn read_values_give_the_same_answers() {
    let config = validate_config(Some(Ok(5)), None, Some(Ok(7))).unwrap();
    assert_eq!((config.height, config.width, config.nb_mines), (5, 8, 7));
    assert!(matches!(
        validate_config(Some(Err(MineError::SizeError)), None, None),
        Err(MineError::SizeError)
    ));
    assert!(matches!(
        validate_config(None, None, Some(Err(MineError::InputError))),
        Err(MineError::InputError)
    ));
    assert!(matches!(
        validate_config(Some(Ok(31)), Some(Err(MineError::InputError)), None),
        Err(MineError::SizeError)
    ));
    assert!(matches!(
        validate_config(None, None, Some(Ok(usize::MAX))),
        Err(MineError::NbMinesError)
    ));
}

#[test]
fn parse_errors_become_size_errors() {
    let unreadable = "x".parse::<usize>().unwrap_err();
    assert!(matches!(MineError::from(unreadable), MineError::SizeError));
    let too_large = "99999999999999999999999999".parse::<usize>().unwrap_err();
    assert!(matches!(MineError::from(too_large), MineError::SizeError));
}

#[test]
fn error_messages() {
    assert_eq!(
        MineError::TerminalError(String::from("no tty")).message(),
        "Error with the terminal: no tty"
    );
    assert_eq!(MineError::OutputError.message(), "Output error");
    assert_eq!(MineError::InputError.message(), "Input error");
    assert_eq!(MineError::NbMinesError.message(), "Wrong number of mines");
    assert_eq!(
        MineError::SizeError.message(),
        "Wrong size arguments, they are limited from 2x2 to 30x24"
    );
    assert_eq!(MineError::IoError(String::from("broken pipe")).message(), "I/O error: broken pipe");
}
