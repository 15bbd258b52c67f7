use minesweeper::cell::{Aspect, Cell, Content};
use minesweeper::field::Field;

fn visible_cells(field: &Field) -> Vec<(usize, usize)> {
    let mut seen = Vec::new();
    for (r, row) in field.cells.iter().enumerate() {
        for (c, cell) in row.iter().enumerate() {
            if cell.aspect == Aspect::Visible {
                seen.push((r, c));
            }
        }
    }
    seen
}

fn count_mines(field: &Field) -> usize {
    field.cells.iter().flatten().filter(|cell| cell.content == Content::Mine).count()
}

fn count_unrevealed(field: &Field) -> usize {
    field.cells.iter().flatten().filter(|cell| cell.aspect != Aspect::Visible).count()
}

fn mines_around(field: &Field, r: usize, c: usize) -> u16 {
    let mut total = 0;
    for dr in -1i64..=1 {
        for dc in -1i64..=1 {
            if dr == 0 && dc == 0 {
                continue;
            }
            let (nr, nc) = (r as i64 + dr, c as i64 + dc);
            if nr < 0 || nc < 0 || nr >= field.height as i64 || nc >= field.width as i64 {
                continue;
            }
            if field.cells[nr as usize][nc as usize].content == Content::Mine {
                total += 1;
            }
        }
    }
    total
}

fn assert_counts_hold(field: &Field) {
    assert_eq!(field.cells.len(), field.height);
    for r in 0..field.height {
        assert_eq!(field.cells[r].len(), field.width);
        for c in 0..field.width {
            assert_eq!(field.cells[r][c].adjacent_mines, mines_around(field, r, c), "at ({}, {})", r, c);
        }
    }
    assert_eq!(field.nb_cells, field.height * field.width);
    assert_eq!(field.nb_of_mines, count_mines(field));
    assert_eq!(field.nb_unreveiled_cells, count_unrevealed(field));
}

#[test]
fn new_field_is_blank() {
    let field = Field::new(3, 4);
    assert_eq!(field.height, 3);
    assert_eq!(field.width, 4);
    assert_eq!(field.nb_cells, 12);
    assert_eq!(field.nb_unreveiled_cells, 12);
    assert_eq!(field.nb_of_mines, 0);
    assert_eq!(field.cells.len(), 3);
    for row in field.cells.iter() {
        assert_eq!(row.len(), 4);
        for cell in row.iter() {
            assert_eq!(cell.content, Content::Empty);
            assert_eq!(cell.aspect, Aspect::Hidden);
            assert_eq!(cell.adjacent_mines, 0);
        }
    }
}

#[test]
fn new_field_of_one_cell() {
    let field = Field::new(1, 1);
    assert_eq!(field.nb_cells, 1);
    assert_eq!(field.get_adjacent_positions(0, 0), vec![]);
}

#[test]
fn position_is_valid_checks_both_bounds() {
    let field = Field::new(3, 4);
    assert!(field.position_is_valid(0, 0));
    assert!(field.position_is_valid(2, 3));
    assert!(!field.position_is_valid(3, 0));
    assert!(!field.position_is_valid(0, 4));
    assert!(!field.position_is_valid(usize::MAX, usize::MAX));
}

#[test]
fn adjacent_positions_in_the_middle() {
    let field = Field::new(3, 3);
    assert_eq!(
        field.get_adjacent_positions(1, 1),
        vec![(0, 0), (0, 1), (0, 2), (1, 0), (1, 2), (2, 0), (2, 1), (2, 2)]
    );
}

#[test]
fn adjacent_positions_in_corners_and_on_edges() {
    let field = Field::new(3, 4);
    assert_eq!(field.get_adjacent_positions(0, 0), vec![(0, 1), (1, 0), (1, 1)]);
    assert_eq!(field.get_adjacent_positions(2, 3), vec![(1, 2), (1, 3), (2, 2)]);
    assert_eq!(field.get_adjacent_positions(0, 3), vec![(0, 2), (1, 2), (1, 3)]);
    assert_eq!(field.get_adjacent_positions(2, 0), vec![(1, 0), (1, 1), (2, 1)]);
    assert_eq!(
        field.get_adjacent_positions(0, 1),
        vec![(0, 0), (0, 2), (1, 0), (1, 1), (1, 2)]
    );
    assert_eq!(
        field.get_adjacent_positions(1, 0),
        vec![(0, 0), (0, 1), (1, 1), (2, 0), (2, 1)]
    );
}

#[test]
fn adjacent_positions_of_a_centre_off_the_board() {
    let field = Field::new(3, 4);
    assert_eq!(field.get_adjacent_positions(3, 1), vec![(2, 0), (2, 1), (2, 2)]);
    assert_eq!(field.get_adjacent_positions(1, 4), vec![(0, 3), (1, 3), (2, 3)]);
    assert_eq!(field.get_adjacent_positions(3, 4), vec![(2, 3)]);
    assert_eq!(field.get_adjacent_positions(5, 1), vec![]);
    assert_eq!(field.get_adjacent_positions(usize::MAX, usize::MAX), vec![]);
}

#[test]
fn place_mine_counts_it_around() {
    let mut field = Field::new(3, 3);
    field.place_mine(1, 1);
    assert_eq!(field.nb_of_mines, 1);
    assert_eq!(field.nb_unreveiled_cells, 9);
    assert!(field.cell_has_mine(1, 1));
    for r in 0..3 {
        for c in 0..3 {
            let expected = if (r, c) == (1, 1) { 0 } else { 1 };
            assert_eq!(field.cells[r][c].adjacent_mines, expected);
            assert_eq!(field.cells[r][c].aspect, Aspect::Hidden);
            assert_eq!(field.cell_has_mine(r, c), (r, c) == (1, 1));
        }
    }
    field.place_mine(0, 0);
    assert_eq!(field.nb_of_mines, 2);
    assert_eq!(field.cells[0][1].adjacent_mines, 2);
    assert_eq!(field.cells[1][0].adjacent_mines, 2);
    assert_eq!(field.cells[1][1].adjacent_mines, 1);
    assert_eq!(field.cells[0][0].adjacent_mines, 1);
    assert_eq!(field.cells[2][2].adjacent_mines, 1);
    assert_counts_hold(&field);
}

#[test]
fn place_mine_on_draw_maps_the_draw_to_a_cell() {
    let mut field = Field::new(3, 4);
    assert!(field.place_mine_on_draw(6));
    assert!(field.cell_has_mine(1, 2));
    assert_eq!(field.nb_of_mines, 1);
    assert!(field.place_mine_on_draw(12 + 11));
    assert!(field.cell_has_mine(2, 3));
    assert_eq!(field.nb_of_mines, 2);
    assert_counts_hold(&field);
}

#[test]
fn place_mine_on_draw_rejects_a_mined_cell() {
    let mut field = Field::new(3, 4);
    assert!(field.place_mine_on_draw(6));
    let before = format!("{:?}", field);
    assert!(!field.place_mine_on_draw(6));
    assert!(!field.place_mine_on_draw(18));
    assert_eq!(format!("{:?}", field), before);
    assert_eq!(field.nb_of_mines, 1);
}

#[test]
fn populated_field_has_the_mines_asked_for() {
    for &(height, width, nb_mines) in
        [(2usize, 2usize, 1usize), (2, 2, 3), (8, 8, 8), (30, 24, 100), (5, 7, 34), (1, 9, 4)].iter()
    {
        let field = Field::new(height, width).populate_with_mines(nb_mines);
        assert_eq!(field.height, height);
        assert_eq!(field.width, width);
        assert_eq!(count_mines(&field), nb_mines);
        let empties =
            field.cells.iter().flatten().filter(|cell| cell.content == Content::Empty).count();
        assert_eq!(empties, height * width - nb_mines);
        assert_eq!(count_unrevealed(&field), height * width);
        assert_counts_hold(&field);
    }
}

#[test]
fn populating_can_fill_the_whole_board() {
    let field = Field::new(4, 5).populate_with_mines(20);
    assert_eq!(count_mines(&field), 20);
    assert_counts_hold(&field);
}

#[test]
fn populating_with_no_mine_changes_nothing() {
    let field = Field::new(3, 3).populate_with_mines(0);
    assert_eq!(count_mines(&field), 0);
    assert_counts_hold(&field);
}

#[test]
fn populating_adds_to_the_mines_that_are_there() {
    let mut field = Field::new(3, 3);
    field.place_mine(2, 2);
    let field = field.populate_with_mines(4);
    assert!(field.cell_has_mine(2, 2));
    assert_eq!(count_mines(&field), 5);
    assert_counts_hold(&field);
}

#[test]
fn two_by_two_with_one_mine() {
    let mut field = Field::new(2, 2);
    field.place_mine(0, 0);
    assert_eq!(field.cells[0][1].adjacent_mines, 1);
    assert_eq!(field.cells[1][0].adjacent_mines, 1);
    assert_eq!(field.cells[1][1].adjacent_mines, 1);
    field.show_cells(1, 1);
    assert_eq!(visible_cells(&field), vec![(1, 1)]);
    assert_eq!(field.nb_unreveiled_cells, 3);
    assert!(!field.is_revealed_entirely());
    field.show_cells(0, 1);
    field.show_cells(1, 0);
    assert_eq!(field.nb_unreveiled_cells, 1);
    assert!(field.is_revealed_entirely());
}

#[test]
fn three_by_three_without_mines_opens_at_once() {
    for r in 0..3 {
        for c in 0..3 {
            let mut field = Field::new(3, 3);
            field.show_cells(r, c);
            assert_eq!(visible_cells(&field).len(), 9);
            assert_eq!(field.nb_unreveiled_cells, 0);
            assert!(field.is_revealed_entirely());
        }
    }
}

#[test]
fn revealing_a_mine_reveals_nothing_else() {
    let mut field = Field::new(3, 3);
    field.place_mine(1, 1);
    field.show_cells(1, 1);
    assert_eq!(visible_cells(&field), vec![(1, 1)]);
    assert_eq!(field.nb_unreveiled_cells, 8);
    assert!(field.cell_has_mine(1, 1));
}

#[test]
fn revealing_a_visible_cell_changes_nothing() {
    let mut field = Field::new(4, 4);
    field.place_mine(0, 0);
    field.show_cells(3, 3);
    let before = format!("{:?}", field);
    let hidden = field.nb_unreveiled_cells;
    field.show_cells(3, 3);
    field.show_cells(1, 1);
    field.show_cells(2, 0);
    assert_eq!(format!("{:?}", field), before);
    assert_eq!(field.nb_unreveiled_cells, hidden);
}

#[test]
fn flood_fill_stops_at_the_numbers() {
    // Mines in the column 2 of a 4x5 board split it in two parts.
    let mut field = Field::new(4, 5);
    for r in 0..4 {
        field.place_mine(r, 2);
    }
    field.show_cells(0, 0);
    assert_eq!(
        visible_cells(&field),
        vec![(0, 0), (0, 1), (1, 0), (1, 1), (2, 0), (2, 1), (3, 0), (3, 1)]
    );
    assert_eq!(field.nb_unreveiled_cells, 12);
    assert!(!field.is_revealed_entirely());
    field.show_cells(3, 4);
    assert_eq!(field.nb_unreveiled_cells, 4);
    assert!(field.is_revealed_entirely());
    for r in 0..4 {
        assert_eq!(field.cells[r][2].aspect, Aspect::Hidden);
    }
    assert_counts_hold(&field);
}

#[test]
fn flood_fill_reveals_the_border_of_the_region() {
    let mut field = Field::new(4, 4);
    field.place_mine(0, 0);
    field.show_cells(3, 3);
    let seen = visible_cells(&field);
    assert_eq!(seen.len(), 15);
    assert!(!seen.contains(&(0, 0)));
    assert_eq!(field.cells[0][0].aspect, Aspect::Hidden);
    assert_eq!(field.cells[1][1].adjacent_mines, 1);
    assert_eq!(field.cells[1][1].aspect, Aspect::Visible);
    assert!(field.is_revealed_entirely());
}

#[test]
fn flood_fill_from_a_number_stays_there() {
    let mut field = Field::new(4, 4);
    field.place_mine(0, 0);
    field.show_cells(1, 1);
    assert_eq!(visible_cells(&field), vec![(1, 1)]);
    assert_eq!(field.nb_unreveiled_cells, 15);
}

#[test]
fn flood_fill_goes_over_flags() {
    let mut field = Field::new(3, 3);
    field.toggle_flag(1, 1);
    field.toggle_flag(2, 2);
    field.show_cells(0, 0);
    assert_eq!(visible_cells(&field).len(), 9);
    assert!(field.is_revealed_entirely());
}

#[test]
fn flood_fill_leaves_flags_outside_the_region() {
    let mut field = Field::new(4, 5);
    for r in 0..4 {
        field.place_mine(r, 2);
    }
    field.toggle_flag(0, 2);
    field.toggle_flag(3, 4);
    field.show_cells(0, 0);
    assert_eq!(field.cells[0][2].aspect, Aspect::Flagged);
    assert_eq!(field.cells[3][4].aspect, Aspect::Flagged);
    assert_eq!(field.cells[1][1].aspect, Aspect::Visible);
}

#[test]
fn flood_fill_on_the_largest_board() {
    let mut field = Field::new(30, 24);
    field.show_cells(15, 12);
    assert_eq!(field.nb_unreveiled_cells, 0);
    assert_eq!(visible_cells(&field).len(), 720);
}

#[test]
fn fully_revealed_means_as_many_hidden_as_mines() {
    let mut field = Field::new(2, 3);
    field.place_mine(0, 0);
    field.place_mine(1, 2);
    assert!(!field.is_revealed_entirely());
    for &(r, c) in [(0usize, 1usize), (0, 2), (1, 0)].iter() {
        field.show_cells(r, c);
        assert!(!field.is_revealed_entirely());
    }
    field.show_cells(1, 1);
    assert_eq!(field.nb_unreveiled_cells, 2);
    assert!(field.is_revealed_entirely());
}

#[test]
fn toggling_a_flag_on_the_board() {
    let mut field = Field::new(2, 2);
    field.place_mine(0, 0);
    field.toggle_flag(0, 0);
    assert_eq!(field.cells[0][0].aspect, Aspect::Flagged);
    assert_eq!(field.nb_unreveiled_cells, 4);
    field.toggle_flag(0, 0);
    assert_eq!(field.cells[0][0].aspect, Aspect::Hidden);
    assert_eq!(field.nb_unreveiled_cells, 4);
    field.show_cells(1, 1);
    field.toggle_flag(1, 1);
    assert_eq!(field.cells[1][1].aspect, Aspect::Visible);
    assert_eq!(field.nb_unreveiled_cells, 3);
    assert_counts_hold(&field);
}

#[test]
fn cell_flag_toggles_between_hidden_and_flagged() {
    let mut cell = Cell { content: Content::Empty, adjacent_mines: 3, aspect: Aspect::Hidden };
    cell.toggle_flag();
    assert_eq!(cell.aspect, Aspect::Flagged);
    cell.toggle_flag();
    assert_eq!(cell.aspect, Aspect::Hidden);
    assert_eq!(cell.adjacent_mines, 3);
    assert_eq!(cell.content, Content::Empty);
}

#[test]
fn cell_flag_does_nothing_to_a_visible_cell() {
    let mut cell = Cell { content: Content::Mine, adjacent_mines: 0, aspect: Aspect::Visible };
    cell.toggle_flag();
    assert_eq!(cell.aspect, Aspect::Visible);
    cell.toggle_flag();
    assert_eq!(cell.aspect, Aspect::Visible);
}

#[test]
fn cell_queries_and_setters() {
    let mut cell = Cell { content: Content::Empty, adjacent_mines: 0, aspect: Aspect::Flagged };
    assert!(!cell.is_visible());
    assert!(!cell.has_mine());
    assert!(!cell.has_adjacent_mine());
    cell.set_mine();
    assert!(cell.has_mine());
    assert_eq!(cell.aspect, Aspect::Flagged);
    cell.set_visible();
    assert!(cell.is_visible());
    assert!(cell.has_mine());
    cell.adjacent_mines = 2;
    assert!(cell.has_adjacent_mine());
}

fn aspects(field: &Field) -> Vec<Vec<Aspect>> {
    field.cells.iter().map(|row| row.iter().map(|cell| cell.aspect).collect()).collect()
}

fn spread_by_recursion(field: &Field, seen: &mut Vec<Vec<Aspect>>, r: usize, c: usize) {
    if seen[r][c] == Aspect::Visible {
        return;
    }
    seen[r][c] = Aspect::Visible;
    let cell = field.cells[r][c];
    if cell.content == Content::Empty && cell.adjacent_mines == 0 {
        for (nr, nc) in field.get_adjacent_positions(r, c) {
            spread_by_recursion(field, seen, nr, nc);
        }
    }
}

#[test]
fn flood_fill_agrees_with_the_recursive_reveal() {
    for &(height, width, nb_mines) in
        [(2usize, 2usize, 1usize), (5, 5, 3), (8, 8, 8), (9, 16, 20), (16, 30, 60), (30, 24, 40)]
            .iter()
    {
        for round in 0..20 {
            let mut field = Field::new(height, width).populate_with_mines(nb_mines);
            if round % 2 == 1 {
                field.toggle_flag(height / 2, width / 2);
                field.toggle_flag(0, width - 1);
            }
            for step in 0..6 {
                let r = (round * 7 + step * 5) % height;
                let c = (round * 3 + step * 11) % width;
                let mut expected = aspects(&field);
                spread_by_recursion(&field, &mut expected, r, c);
                field.show_cells(r, c);
                assert_eq!(aspects(&field), expected);
                assert_counts_hold(&field);
            }
        }
    }
}

#[test]
fn flood_fill_on_a_single_row() {
    let mut field = Field::new(1, 7);
    field.place_mine(0, 3);
    field.show_cells(0, 0);
    assert_eq!(visible_cells(&field), vec![(0, 0), (0, 1), (0, 2)]);
    field.show_cells(0, 6);
    assert_eq!(visible_cells(&field), vec![(0, 0), (0, 1), (0, 2), (0, 4), (0, 5), (0, 6)]);
    assert!(field.is_revealed_entirely());
}

#[test]
fn flood_fill_on_a_single_cell() {
    let mut field = Field::new(1, 1);
    assert!(!field.is_revealed_entirely());
    field.show_cells(0, 0);
    assert_eq!(field.nb_unreveiled_cells, 0);
    assert!(field.is_revealed_entirely());
}

#[test]
fn flood_fill_passes_through_a_diagonal_gap() {
    // The two mines leave only the corner-to-corner step between the
    // upper-left part and the rest.
    let mut field = Field::new(5, 5);
    field.place_mine(0, 4);
    field.place_mine(4, 0);
    field.show_cells(0, 0);
    assert_eq!(visible_cells(&field).len(), 23);
    assert_eq!(field.cells[0][4].aspect, Aspect::Hidden);
    assert_eq!(field.cells[4][0].aspect, Aspect::Hidden);
    assert!(field.is_revealed_entirely());
}

#[test]
fn revealing_every_safe_cell_of_a_random_board_wins() {
    let mut field = Field::new(9, 9).populate_with_mines(10);
    for r in 0..9 {
        for c in 0..9 {
            if !field.cell_has_mine(r, c) {
                field.show_cells(r, c);
            }
        }
    }
    assert_eq!(field.nb_unreveiled_cells, 10);
    assert!(field.is_revealed_entirely());
    for r in 0..9 {
        for c in 0..9 {
            assert_eq!(field.cells[r][c].aspect == Aspect::Visible, !field.cell_has_mine(r, c));
        }
    }
}
