use battleship::{Board, BoardType, GameBoard, HitOutcome, Orientation, Placement, Ship, SpriteFrame};

fn frame() -> SpriteFrame {
    SpriteFrame { width: 20, height: 20, u: 0, v: 0, uw: 20, uh: 20 }
}

/// A match whose counters for player 1 are taken from its board.
fn match_against(board: &Board) -> GameBoard {
    let mut counts = [0i32; 4];
    for ship in &board.ship {
        if !ship.visible {
            counts[(ship.length - 1) as usize] += 1;
        }
    }
    let mut gameboard = GameBoard::with_size_count(counts);
    gameboard.ship_counter_data = [[0; 4], counts];
    gameboard
}

#[test]
fn scenario_b_miss_on_open_water() {
    let mut board = Board::new();
    assert!(board.place_ship_at(0, 0, 0, false, 0));
    let mut gameboard = match_against(&board);
    let r = gameboard.fire(&mut board, 1, 5, 5);
    assert_eq!(r, Some(HitOutcome::Miss));
    assert_eq!(board.data[5 + 5 * 12], BoardType::Missed);
    assert_eq!(gameboard.current_turn, 1);
    assert!(!gameboard.got_winner);
}

#[test]
fn scenario_c_sinking_the_last_ship_wins() {
    let mut board = Board::new();
    assert!(board.place_ship_at(0, 0, 3 + 3 * 12, false, 0));
    let mut gameboard = match_against(&board);
    assert_eq!(gameboard.ship_counter_data[1], [1, 0, 0, 0]);
    let r = gameboard.fire(&mut board, 1, 3, 3);
    assert_eq!(r, Some(HitOutcome::MatchWon));
    assert!(board.ship[0].visible);
    assert_eq!(board.ship[0].parts, 0);
    assert_eq!(board.data[39], BoardType::Hit(0));
    assert!(gameboard.got_winner);
    assert_eq!(gameboard.winner, 0);
    assert_eq!(gameboard.current_turn, 0);
    assert_eq!(gameboard.ship_counter_data[1], [0, 0, 0, 0]);
    assert_eq!(board.count_ship(), 0);
}

#[test]
fn scenario_c_sinking_one_of_several_ships() {
    let mut board = Board::new();
    assert!(board.place_ship_at(0, 0, 3 + 3 * 12, false, 0));
    assert!(board.place_ship_at(2, 1, 0, false, 0));
    let mut gameboard = match_against(&board);
    let r = gameboard.fire(&mut board, 1, 3, 3);
    assert_eq!(r, Some(HitOutcome::ShipDestroyed(0)));
    assert!(board.ship[0].visible);
    assert!(!board.ship[1].visible);
    assert_eq!(gameboard.ship_counter_data[1], [0, 0, 1, 0]);
    assert_eq!(gameboard.current_turn, 1);
    assert!(!gameboard.got_winner);
}

#[test]
fn scenario_d_second_shot_is_already_resolved() {
    let mut board = Board::new();
    assert!(board.place_ship_at(1, 0, 3 + 3 * 12, false, 0));
    let mut gameboard = match_against(&board);
    assert_eq!(gameboard.fire(&mut board, 1, 3, 3), Some(HitOutcome::Hit));
    assert_eq!(gameboard.current_turn, 1);
    assert_eq!(board.ship[0].parts, 1);
    assert!(!board.ship[0].visible);

    // Player 0's turn again, firing at the same tile.
    gameboard.current_turn = 0;
    let cells = board.data.clone();
    let ships = board.ship.clone();
    let counters = gameboard.ship_counter_data;
    assert_eq!(gameboard.fire(&mut board, 1, 3, 3), Some(HitOutcome::AlreadyResolved));
    assert_eq!(board.data, cells);
    assert_eq!(board.ship, ships);
    assert_eq!(gameboard.ship_counter_data, counters);
    assert_eq!(gameboard.current_turn, 0);
}

#[test]
fn resolving_twice_changes_nothing_the_second_time() {
    let mut board = Board::new();
    assert!(board.place_ship_at(0, 4, 0, false, 0));
    assert!(board.place_ship_at(0, 5, 100, false, 0));
    let mut gameboard = match_against(&board);
    gameboard.current_turn = 0;
    for (x, y) in [(0, 0), (7, 7)] {
        let first = board.hit_place(x, y, &mut gameboard);
        assert!(first.is_some() && first != Some(HitOutcome::AlreadyResolved));
        let cells = board.data.clone();
        let ships = board.ship.clone();
        let counters = gameboard.ship_counter_data;
        assert_eq!(board.hit_place(x, y, &mut gameboard), Some(HitOutcome::AlreadyResolved));
        assert_eq!(board.data, cells);
        assert_eq!(board.ship, ships);
        assert_eq!(gameboard.ship_counter_data, counters);
    }
}

#[test]
fn shots_off_the_board_do_nothing() {
    let mut board = Board::new();
    assert!(board.place_ship_at(0, 0, 0, false, 0));
    let mut gameboard = match_against(&board);
    for (x, y) in [(-1, 0), (0, -1), (12, 0), (0, 12), (i32::MAX, i32::MIN)] {
        assert_eq!(board.hit_place(x, y, &mut gameboard), None);
        assert_eq!(gameboard.fire(&mut board, 1, x, y), None);
    }
    assert_eq!(gameboard.current_turn, 0);
    assert_eq!(board.data[0], BoardType::Ship(0));
}

#[test]
fn own_board_and_finished_match_are_ignored() {
    let mut board = Board::new();
    assert!(board.place_ship_at(0, 0, 0, false, 0));
    let mut gameboard = match_against(&board);
    assert_eq!(gameboard.fire(&mut board, 0, 5, 5), None);
    assert_eq!(board.data[65], BoardType::Empty);
    gameboard.set_winner(1);
    assert!(gameboard.got_winner);
    assert_eq!(gameboard.winner, 1);
    assert_eq!(gameboard.fire(&mut board, 1, 5, 5), None);
    assert_eq!(board.data[65], BoardType::Empty);
}

#[test]
fn turn_always_passes_to_the_board_fired_at() {
    let mut boards = [Board::new(), Board::new()];
    assert!(boards[0].place_ship_at(1, 0, 0, false, 0));
    assert!(boards[1].place_ship_at(1, 0, 0, false, 0));
    let mut gameboard = GameBoard::with_size_count([0, 1, 0, 0]);
    // Player 0 hits, yet the turn goes to player 1.
    assert_eq!(gameboard.fire(&mut boards[1], 1, 0, 0), Some(HitOutcome::Hit));
    assert_eq!(gameboard.current_turn, 1);
    assert_eq!(gameboard.fire(&mut boards[1], 1, 1, 0), None);
    assert_eq!(gameboard.fire(&mut boards[0], 0, 6, 6), Some(HitOutcome::Miss));
    assert_eq!(gameboard.current_turn, 0);
    assert_eq!(gameboard.fire(&mut boards[1], 1, 1, 0), Some(HitOutcome::MatchWon));
    assert!(gameboard.got_winner);
    assert_eq!(gameboard.winner, 0);
    assert_eq!(gameboard.ship_counter_data[1], [0, 0, 0, 0]);
    assert_eq!(gameboard.ship_counter_data[0], [0, 1, 0, 0]);
}

#[test]
fn counting_ships_and_sizes() {
    let mut board = Board::new();
    assert!(board.place_ship_at(2, 0, 0, false, 0));
    assert!(board.place_ship_at(0, 1, 50, false, 2));
    assert_eq!(board.count_ship(), 2);
    assert_eq!(board.count_size(0), 3);
    assert_eq!(board.count_size(1), 1);
    assert_eq!(board.count_size(2), 0);
    let mut gameboard = match_against(&board);
    assert_eq!(board.hit_place(1, 0, &mut gameboard), Some(HitOutcome::Hit));
    assert_eq!(board.count_size(0), 3);
    assert_eq!(board.count_ship(), 2);
    assert_eq!(board.find_ship(1), Some(1));
    assert_eq!(board.find_ship(0), Some(0));
    assert_eq!(board.find_ship(4), None);
}

#[test]
fn damage_ship_counts_down_to_sinking() {
    let p = Placement { x: 0, y: 0, orientation: Orientation::Vertical };
    let mut ship = Ship::new(3, 2, p, frame());
    assert_eq!(ship.length, 2);
    assert!(!ship.damage_ship());
    assert_eq!(ship.parts, 1);
    assert!(!ship.visible);
    assert!(ship.damage_ship());
    assert_eq!(ship.parts, 0);
    assert!(ship.visible);
}

#[test]
fn match_setup() {
    for _ in 0..50 {
        let g = GameBoard::new();
        assert!((3..=5).contains(&g.size_count[0]));
        assert!((2..=4).contains(&g.size_count[1]));
        assert!((1..=3).contains(&g.size_count[2]));
        assert!((1..=2).contains(&g.size_count[3]));
        assert_eq!(g.ship_counter_data, [g.size_count, g.size_count]);
        assert_eq!(g.current_turn, 0);
        assert!(!g.got_winner);
    }
}

#[test]
fn reducing_a_counter() {
    let mut g = GameBoard::with_size_count([3, 2, 1, 1]);
    g.reduce_ship_counter(2, 1);
    assert_eq!(g.ship_counter_data, [[3, 2, 1, 1], [3, 2, 0, 1]]);
    assert_eq!(g.size_count, [3, 2, 1, 1]);
}

#[test]
fn ship_accounting_follows_the_tiles() {
    let mut board = Board::new();
    assert!(board.place_ship_at(2, 0, 60, true, 1));
    assert_eq!(board.ship[0].placement, Placement { x: 0, y: 5, orientation: Orientation::Vertical });
    let mut gameboard = match_against(&board);
    for (n, y) in [5, 6, 7].into_iter().enumerate() {
        let r = board.hit_place(0, y, &mut gameboard);
        let hits = board.data.iter().filter(|c| **c == BoardType::Hit(0)).count() as i32;
        let ship = board.ship[0];
        assert_eq!(hits, n as i32 + 1);
        assert_eq!(ship.parts, ship.length - hits);
        assert_eq!(ship.visible, ship.parts == 0);
        if n < 2 {
            assert_eq!(r, Some(HitOutcome::Hit));
        } else {
            assert_eq!(r, Some(HitOutcome::MatchWon));
        }
    }
    assert_eq!(gameboard.ship_counter_data[1], [0, 0, 0, 0]);
}
