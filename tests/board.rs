use sea_wars::board::{Board, BoardConfig, Cell};
use sea_wars::geometry::{Rotation, Vec2};
use sea_wars::player::{HumanPlayer, Player};
use sea_wars::ships::Ship;
use sea_wars::text::{push_decimal, push_label};
use sea_wars::Message;

#[test]
fn empty_board() {
    let config = BoardConfig::new(2, 2, 0, 0, 0);
    let board = Board::new(&config);
    let expected = String::from("   1 2 \na: - - \nb: - - ");

    assert_eq!(expected, board.string_value(true, true));
}

#[test]
fn one_boat() {
    let config = BoardConfig::new(3, 2, 0, 1, 0);
    let board = Board::new(&config);
    let expected = String::from("   1 2 \na: * * \nb: x x \nc: * * ");

    assert_eq!(expected, board.string_value(true, true));
}

#[test]
fn too_small_board_places_nothing() {
    let board = Board::new(&BoardConfig::new(1, 1, 1, 0, 0));
    assert_eq!(0, board.cells().len());
    assert_eq!("   1 \na: - ", board.string_value(true, true));
}

#[test]
fn suppressed_glyphs_render_blank() {
    let board = Board::new(&BoardConfig::new(3, 2, 0, 1, 0));
    assert_eq!("   1 2 \na: \0 \0 \nb: x x \nc: \0 \0 ", board.string_value(false, true));
    let empty = Board::new(&BoardConfig::new(1, 2, 0, 0, 0));
    assert_eq!("   1 2 \na: \0 \0 ", empty.string_value(true, false));
}

#[test]
fn rendering_twice_gives_the_same_text() {
    let board = Board::new(&BoardConfig::new(10, 10, 1, 2, 2));
    assert_eq!(board.string_value(true, true), board.string_value(true, true));
}

#[test]
fn row_labels_are_bijective_base_26() {
    let board = Board::new(&BoardConfig::new(28, 1, 0, 0, 0));
    let text = board.string_value(true, true);
    let lines: Vec<&str> = text.split('\n').collect();
    assert_eq!(29, lines.len());
    assert_eq!("a: - ", lines[1]);
    assert_eq!("z: - ", lines[26]);
    assert_eq!("aa: - ", lines[27]);
    assert_eq!("ab: - ", lines[28]);
}

#[test]
fn labels_and_numbers() {
    let mut out = Vec::new();
    push_label(&mut out, 1);
    push_label(&mut out, 26);
    push_label(&mut out, 27);
    push_label(&mut out, 703);
    assert_eq!("azaaaaa", out.iter().collect::<String>());
    let mut digits = Vec::new();
    push_decimal(&mut digits, 0);
    push_decimal(&mut digits, 10);
    push_decimal(&mut digits, 1234);
    assert_eq!("0101234", digits.iter().collect::<String>());
}

#[test]
fn header_counts_past_nine() {
    let board = Board::new(&BoardConfig::new(0, 11, 0, 0, 0));
    assert_eq!("   1 2 3 4 5 6 7 8 9 10 11 ", board.string_value(true, true));
}

#[test]
fn fleet_never_overlaps_and_stays_on_the_grid() {
    for _ in 0..50 {
        let board = Board::new(&BoardConfig::new(10, 10, 1, 2, 2));
        let mut seen = std::collections::HashSet::new();
        let mut total = 0;
        for cell in board.cells() {
            for (offset, _) in cell.ship.components() {
                let p = cell.start.add(offset);
                assert!(p.x() < 10 && p.y() < 10);
                assert!(seen.insert(p));
                total += 1;
            }
        }
        assert_eq!(5, board.cells().len());
        let text = board.string_value(true, true);
        let marked = text.lines().skip(1).flat_map(|l| l.chars()).filter(|c| *c == '*' || *c == 'x').count();
        assert_eq!(total, marked);
        assert_eq!(9 + 6 * 2 + 4 * 2, total);
    }
}

#[test]
fn starting_points_in_row_major_order() {
    let board = Board::new(&BoardConfig::new(2, 5, 0, 0, 0));
    let points = board.starting_points(&Vec2::new(4, 1));
    assert_eq!(
        vec![Vec2::new(0, 0), Vec2::new(1, 0), Vec2::new(0, 1), Vec2::new(1, 1)],
        points
    );
    assert!(board.can_enter(&Vec2::new(5, 2), &Vec2::new(0, 0)));
    assert!(!board.can_enter(&Vec2::new(5, 2), &Vec2::new(0, 1)));
    assert!(!board.can_enter(&Vec2::new(6, 1), &Vec2::new(0, 0)));
}

#[test]
fn placed_ship_blocks_its_rectangle() {
    let mut board = Board::new(&BoardConfig::new(2, 5, 0, 0, 0));
    board.place(Ship::new_minesweeper(), Vec2::new(1, 0));
    assert_eq!("   1 2 3 4 5 \na: - * * x * \nb: - - - - - ", board.string_value(true, true));
    assert!(board.get_cell(&Vec2::new(3, 0)).is_some());
    assert!(board.get_cell(&Vec2::new(0, 0)).is_none());
    assert_eq!(vec![Vec2::new(0, 1), Vec2::new(1, 1)], board.starting_points(&Vec2::new(4, 1)));
    assert_eq!(Message::HitTwo, board.outcome_at(&Vec2::new(3, 0)));
    assert_eq!(Message::HitOne, board.outcome_at(&Vec2::new(1, 0)));
    assert_eq!(Message::NoHit, board.outcome_at(&Vec2::new(0, 0)));
    assert_eq!(Message::NoHit, board.outcome_at(&Vec2::new(9, 9)));
}

#[test]
fn rotation_fallback_follows_fixed_order() {
    let board = Board::new(&BoardConfig::new(4, 1, 0, 0, 0));
    let (ship, points) = board.orient(Ship::new_minesweeper().rotate(Rotation::Right));
    assert_eq!(Rotation::Down, ship.rotation());
    assert_eq!(vec![Vec2::new(0, 0)], points);
    let (ship, points) = board.orient(Ship::new_minesweeper().rotate(Rotation::Up));
    assert_eq!(Rotation::Up, ship.rotation());
    assert_eq!(1, points.len());
    let tiny = Board::new(&BoardConfig::new(2, 2, 0, 0, 0));
    let (_, points) = tiny.orient(Ship::new_minesweeper());
    assert!(points.is_empty());
}

#[test]
fn unplaceable_ship_is_dropped() {
    let mut board = Board::new(&BoardConfig::new(3, 3, 0, 0, 0));
    board.add_ship(Ship::new_aircraft_carrier());
    assert_eq!(0, board.cells().len());
    assert_eq!("   1 2 3 \na: - - - \nb: - - - \nc: - - - ", board.string_value(true, true));
}

#[test]
fn random_choice_is_uniform_over_candidates() {
    let trials = 3000;
    let mut counts = [0u32; 3];
    for _ in 0..trials {
        let mut board = Board::new(&BoardConfig::new(1, 6, 0, 0, 0));
        board.add_ship(Ship::new_minesweeper());
        assert_eq!(1, board.cells().len());
        counts[board.cells()[0].start.x() as usize] += 1;
    }
    let expected = trials as f64 / 3.0;
    let chi_square: f64 = counts.iter().map(|c| (*c as f64 - expected).powi(2) / expected).sum();
    // Two degrees of freedom: 13.8 is the 0.1% critical value.
    assert!(chi_square < 13.8, "counts {:?}", counts);
}

#[test]
fn cells_and_configs() {
    let cell = Cell::new(Vec2::new(2, 3), Ship::new_cruiser());
    assert_eq!(Vec2::new(2, 3), cell.start);
    assert_eq!(Vec2::new(3, 2), cell.ship.size());
    let config = BoardConfig::new(4, 5, 1, 2, 3);
    assert_eq!((4, 5, 1, 2, 3), (config.rows, config.columns, config.aircrafts, config.cruisers, config.minesweepers));
    let board = Board::new(&BoardConfig::new(4, 5, 0, 0, 0));
    assert_eq!((4, 5), (board.rows(), board.columns()));
}

#[test]
fn human_player_keeps_score() {
    let mut player = HumanPlayer::new(String::from("Enn3"), &BoardConfig::new(10, 10, 1, 2, 2));
    assert_eq!("Enn3", player.name());
    assert_eq!(0, player.points());
    player.add_points(11);
    player.add_points(5);
    assert_eq!(16, player.points());
    assert_eq!(10, player.board().rows());
    assert_eq!(5, player.board().cells().len());
    let enemy = Board::new(&BoardConfig::new(2, 2, 0, 0, 0));
    assert_eq!(Vec2::new(0, 0), player.input(&enemy));
    player.aim(Vec2::new(3, 4));
    assert_eq!(Vec2::new(3, 4), player.input(&enemy));
}

#[test]
fn human_player_reports_hits_on_its_board() {
    let player = HumanPlayer::new(String::from("p"), &BoardConfig::new(3, 2, 0, 1, 0));
    assert_eq!(Message::HitOne, player.hit(Vec2::new(0, 0)));
    assert_eq!(Message::HitTwo, player.hit(Vec2::new(1, 1)));
    assert_eq!(Message::NoHit, player.hit(Vec2::new(5, 5)));
}

#[test]
fn place_candidate_uses_the_given_index() {
    let mut board = Board::new(&BoardConfig::new(2, 5, 0, 0, 0));
    let ship = Ship::new_minesweeper();
    let points = board.starting_points(&ship.size());
    board.place_candidate(ship, &points, 3);
    assert_eq!(1, board.cells().len());
    assert_eq!(Vec2::new(1, 1), board.cells()[0].start);
    assert_eq!("   1 2 3 4 5 \na: - - - - - \nb: - * * x * ", board.string_value(true, true));
}

#[test]
fn one_cruiser_fills_the_narrow_board() {
    let board = Board::new(&BoardConfig::new(3, 2, 0, 1, 0));
    assert_eq!(1, board.cells().len());
    assert_eq!(Vec2::new(0, 0), board.cells()[0].start);
    assert_eq!(Vec2::new(2, 3), board.cells()[0].ship.size());
}

#[test]
fn ships_are_dropped_only_when_nothing_fits() {
    // Two minesweepers fill a 2 by 4 board; the third has no room left.
    for _ in 0..20 {
        let board = Board::new(&BoardConfig::new(2, 4, 0, 0, 3));
        assert_eq!(2, board.cells().len());
        let text = board.string_value(true, true);
        assert_eq!(0, text.lines().skip(1).flat_map(|l| l.chars()).filter(|c| *c == '-').count());
    }
}
