use battleship::{
    sprite_frame, Board, BoardType, GameBoard, Orientation, Placement, SpriteFrame, BOARD_CELLS,
};

fn ship_cells(board: &Board, id: i32) -> Vec<usize> {
    (0..BOARD_CELLS)
        .filter(|&t| board.data[t] == BoardType::Ship(id) || board.data[t] == BoardType::Hit(id))
        .collect()
}

fn in_a_line(cells: &[usize]) -> bool {
    let same_row = cells.iter().all(|&t| t / 12 == cells[0] / 12)
        && cells.windows(2).all(|w| w[1] == w[0] + 1);
    let same_col = cells.iter().all(|&t| t % 12 == cells[0] % 12)
        && cells.windows(2).all(|w| w[1] == w[0] + 12);
    same_row || same_col
}

#[test]
fn scenario_a_two_cell_ship_at_origin_horizontal() {
    let mut board = Board::new();
    let p = board.place_at(0, 1, 0, false);
    assert_eq!(p, Some(Placement { x: 0, y: 0, orientation: Orientation::Horizontal }));
    assert_eq!(board.data[0], BoardType::Ship(0));
    assert_eq!(board.data[1], BoardType::Ship(0));
    for t in 2..BOARD_CELLS {
        assert_eq!(board.data[t], BoardType::Empty);
    }
    assert!(board.ship.is_empty());
}

#[test]
fn scenario_a_registered_ship() {
    let mut board = Board::new();
    assert!(board.place_ship_at(1, 0, 0, false, 1));
    assert_eq!(board.ship.len(), 1);
    let ship = board.ship[0];
    assert_eq!(ship.index, 0);
    assert_eq!(ship.length, 2);
    assert_eq!(ship.parts, 2);
    assert!(!ship.visible);
    assert_eq!(ship.placement, Placement { x: 0, y: 0, orientation: Orientation::Horizontal });
    assert_eq!(ship.sprite, sprite_frame(1, Orientation::Horizontal, 1));
    assert_eq!(ship_cells(&board, 0), vec![0, 1]);
}

#[test]
fn preferred_orientation_falls_back_to_the_other() {
    let mut board = Board::new();
    // x = 11: no room to the right, room below.
    let p = board.place_at(5, 1, 11, false);
    assert_eq!(p, Some(Placement { x: 11, y: 0, orientation: Orientation::Vertical }));
    assert_eq!(board.data[11], BoardType::Ship(5));
    assert_eq!(board.data[23], BoardType::Ship(5));

    let mut board = Board::new();
    // y = 11: no room below, room to the right.
    let p = board.place_at(2, 2, 132, true);
    assert_eq!(p, Some(Placement { x: 0, y: 11, orientation: Orientation::Horizontal }));
    assert_eq!(ship_cells(&board, 2), vec![132, 133, 134]);
}

#[test]
fn preferred_vertical_is_used_when_it_fits() {
    let mut board = Board::new();
    let p = board.place_at(1, 3, 0, true);
    assert_eq!(p, Some(Placement { x: 0, y: 0, orientation: Orientation::Vertical }));
    assert_eq!(ship_cells(&board, 1), vec![0, 12, 24, 36]);
}

#[test]
fn place_at_corner_without_room_changes_nothing() {
    let mut board = Board::new();
    assert_eq!(board.place_at(0, 1, 143, true), None);
    assert!(board.data.iter().all(|c| *c == BoardType::Empty));
    assert!(!board.place_ship_at(1, 0, 143, false, 0));
    assert!(board.ship.is_empty());
}

#[test]
fn single_cell_ship_fits_anywhere_open() {
    let mut board = Board::new();
    assert!(board.place_ship_at(0, 0, 143, false, 3));
    assert_eq!(ship_cells(&board, 0), vec![143]);
    assert_eq!(board.ship[0].length, 1);
}

#[test]
fn fit_checks_respect_bounds_and_occupancy() {
    let mut board = Board::new();
    assert!(board.check_horizontal(8, 0, 3));
    assert!(!board.check_horizontal(9, 0, 3));
    assert!(board.check_vertical(0, 8, 3));
    assert!(!board.check_vertical(0, 9, 3));
    assert!(!board.check_horizontal(-1, 0, 0));
    assert!(!board.check_vertical(0, 12, 0));
    assert!(!board.check_vertical(0, -3, 3));
    board.data[26] = BoardType::Missed;
    assert!(!board.check_horizontal(0, 2, 3));
    assert!(board.check_horizontal(3, 2, 3));
    assert!(!board.check_vertical(2, 0, 3));
}

#[test]
fn available_tiles_on_empty_board() {
    let board = Board::new();
    let tiles = board.calculate_available_tile(3);
    // A four-cell ship fits unless both x > 8 and y > 8.
    assert_eq!(tiles.len(), 135);
    assert!(tiles.windows(2).all(|w| w[0] < w[1]));
    assert!(!tiles.contains(&(9 + 9 * 12)));
    assert!(tiles.contains(&(9 + 8 * 12)));
    assert_eq!(board.calculate_available_tile(0).len(), 144);
    assert!(board.calculate_available_tile(12).is_empty());
}

#[test]
fn available_tiles_skip_taken_and_blocked_cells() {
    let mut board = Board::new();
    for t in 0..BOARD_CELLS {
        board.data[t] = BoardType::Missed;
    }
    board.data[0] = BoardType::Empty;
    board.data[1] = BoardType::Empty;
    board.data[12] = BoardType::Empty;
    assert_eq!(board.calculate_available_tile(1), vec![0]);
    assert_eq!(board.calculate_available_tile(0), vec![0, 1, 12]);
}

#[test]
fn scenario_e_saturated_board_has_no_placement() {
    let mut board = Board::new();
    for t in 0..BOARD_CELLS {
        board.data[t] = if t % 2 == 0 { BoardType::Missed } else { BoardType::Hit(7) };
    }
    let before = board.data.clone();
    assert_eq!(board.try_place_ship(0, 3), None);
    assert_eq!(board.data, before);

    let mut full = Board::new();
    for t in 0..BOARD_CELLS {
        full.data[t] = BoardType::Missed;
    }
    let before = full.data.clone();
    assert!(!full.place_ship(3, 0));
    assert_eq!(full.data, before);
    assert!(full.ship.is_empty());
}

#[test]
fn random_placement_lands_on_the_only_spot() {
    let mut board = Board::new();
    for t in 0..BOARD_CELLS {
        board.data[t] = BoardType::Missed;
    }
    for t in [40usize, 41, 42] {
        board.data[t] = BoardType::Empty;
    }
    let p = board.try_place_ship(9, 2);
    assert_eq!(p, Some(Placement { x: 4, y: 3, orientation: Orientation::Horizontal }));
    assert_eq!(ship_cells(&board, 9), vec![40, 41, 42]);
}

#[test]
fn random_placement_on_empty_board() {
    let mut board = Board::new();
    assert!(board.place_ship(3, 0));
    assert_eq!(board.ship.len(), 1);
    let cells = ship_cells(&board, 0);
    assert_eq!(cells.len(), 4);
    assert!(in_a_line(&cells));
    assert_eq!(board.ship[0].length, 4);
}

#[test]
fn prepared_board_layout() {
    let mut gameboard = GameBoard::with_size_count([4, 3, 2, 2]);
    let mut board = Board::new();
    board.prepare_board(&mut gameboard, 1);
    // 4 + 6 + 6 + 8 = 24 cells always fit on an open 12 by 12 board.
    assert_eq!(board.ship.len(), 11);
    assert_eq!(gameboard.ship_counter_data[1], [4, 3, 2, 2]);
    assert_eq!(gameboard.ship_counter_data[0], [4, 3, 2, 2]);
    let mut covered = vec![false; BOARD_CELLS];
    for (k, ship) in board.ship.iter().enumerate() {
        assert_eq!(ship.index, k as i32);
        assert_eq!(ship.parts, ship.length);
        let cells = ship_cells(&board, ship.index);
        assert_eq!(cells.len(), ship.length as usize);
        assert!(in_a_line(&cells));
        for t in cells {
            assert!(!covered[t]);
            covered[t] = true;
        }
    }
    let lengths: Vec<i32> = board.ship.iter().map(|s| s.length).collect();
    assert_eq!(lengths, vec![1, 1, 1, 1, 2, 2, 2, 3, 3, 4, 4]);
    for t in 0..BOARD_CELLS {
        match board.data[t] {
            BoardType::Ship(_) => assert!(covered[t]),
            other => {
                assert_eq!(other, BoardType::Empty);
                assert!(!covered[t]);
            }
        }
    }
}

#[test]
fn preparation_publishes_realised_counts() {
    let mut gameboard = GameBoard::with_size_count([2, 0, 0, 1]);
    let mut board = Board::new();
    for t in 0..BOARD_CELLS {
        board.data[t] = BoardType::Missed;
    }
    board.data[0] = BoardType::Empty;
    board.data[1] = BoardType::Empty;
    board.prepare_board(&mut gameboard, 0);
    // Two single-cell ships fit; the four-cell one does not.
    assert_eq!(gameboard.ship_counter_data[0], [2, 0, 0, 0]);
    assert_eq!(gameboard.ship_counter_data[1], [2, 0, 0, 1]);
    assert_eq!(board.ship.len(), 2);
    let mut placed = vec![board.data[0], board.data[1]];
    placed.sort_by_key(|c| match c {
        BoardType::Ship(id) => *id,
        _ => -1,
    });
    assert_eq!(placed, vec![BoardType::Ship(0), BoardType::Ship(1)]);
}

#[test]
fn sprite_frames() {
    assert_eq!(
        sprite_frame(0, Orientation::Vertical, 3),
        SpriteFrame { width: 20, height: 20, u: 60, v: 0, uw: 20, uh: 20 }
    );
    assert_eq!(
        sprite_frame(1, Orientation::Vertical, 1),
        SpriteFrame { width: 20, height: 40, u: 60, v: 20, uw: 20, uh: 40 }
    );
    assert_eq!(
        sprite_frame(2, Orientation::Vertical, 0),
        SpriteFrame { width: 20, height: 60, u: 60, v: 60, uw: 20, uh: 60 }
    );
    assert_eq!(
        sprite_frame(3, Orientation::Vertical, 1),
        SpriteFrame { width: 20, height: 80, u: 100, v: 80, uw: 20, uh: 80 }
    );
    assert_eq!(
        sprite_frame(1, Orientation::Horizontal, 0),
        SpriteFrame { width: 40, height: 20, u: 0, v: 20, uw: 40, uh: 20 }
    );
    assert_eq!(
        sprite_frame(2, Orientation::Horizontal, 1),
        SpriteFrame { width: 60, height: 20, u: 0, v: 80, uw: 60, uh: 20 }
    );
    assert_eq!(
        sprite_frame(3, Orientation::Horizontal, 1),
        SpriteFrame { width: 80, height: 20, u: 0, v: 140, uw: 80, uh: 20 }
    );
}
