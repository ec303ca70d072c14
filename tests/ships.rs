use sea_wars::geometry::{Rotation, Vec2};
use sea_wars::ships::Ship;

fn ship_to_content(ship: &Ship) -> String {
    let mut content = String::new();
    let size = ship.size();

    for i in 0..size.y() {
        for j in 0..size.x() {
            let target = Vec2::new(j, i);
            match ship.components().iter().find(|(v, _)| *v == target) {
                Some((_, value)) => content.push(Ship::value_to_char(*value, true, true)),
                None => content.push('-'),
            }
        }

        content.push('\n');
    }
    content.pop();

    content
}

#[test]
fn ship() {
    let ship = Ship::new_minesweeper();

    assert_eq!(String::from("**x*"), ship_to_content(&ship));
}

#[test]
fn extra_ship() {
    let ship = Ship::new_cruiser();

    assert_eq!(String::from("*x*\n*x*"), ship_to_content(&ship));
}

#[test]
fn rotation_down() {
    let ship = Ship::new_minesweeper().rotate(Rotation::Down);

    assert_eq!(String::from("*\n*\nx\n*"), ship_to_content(&ship));
}

#[test]
fn rotation_right() {
    let ship = Ship::new_minesweeper().rotate(Rotation::Right);

    assert_eq!(String::from("*x**"), ship_to_content(&ship));
}

#[test]
fn rotation_up() {
    let ship = Ship::new_minesweeper().rotate(Rotation::Up);

    assert_eq!(String::from("*\nx\n*\n*"), ship_to_content(&ship));
}

#[test]
fn extra_rotation_down() {
    let ship = Ship::new_cruiser().rotate(Rotation::Down);

    assert_eq!(String::from("**\nxx\n**"), ship_to_content(&ship));
}

#[test]
fn extra_rotation_right() {
    let ship = Ship::new_cruiser().rotate(Rotation::Right);

    assert_eq!(String::from("*x*\n*x*"), ship_to_content(&ship));
}

#[test]
fn extra_rotation_up() {
    let ship = Ship::new_cruiser().rotate(Rotation::Up);

    assert_eq!(String::from("**\nxx\n**"), ship_to_content(&ship));
}

#[test]
fn carrier_shape_and_rotations() {
    let ship = Ship::new_aircraft_carrier();
    assert_eq!("--**-\n**xx*\n--**-", ship_to_content(&ship));
    assert_eq!(Vec2::new(5, 3), ship.size());
    let down = Ship::new_aircraft_carrier().rotate(Rotation::Down);
    assert_eq!("-*-\n-*-\n*x*\n*x*\n-*-", ship_to_content(&down));
    let right = Ship::new_aircraft_carrier().rotate(Rotation::Right);
    assert_eq!("-**--\n*xx**\n-**--", ship_to_content(&right));
}

#[test]
fn rotating_twice_to_same_rotation_changes_nothing() {
    for r in [Rotation::Left, Rotation::Down, Rotation::Right, Rotation::Up] {
        let once = Ship::new_aircraft_carrier().rotate(r);
        let once_text = ship_to_content(&once);
        let twice = once.rotate(r);
        assert_eq!(once_text, ship_to_content(&twice));
        assert_eq!(r, twice.rotation());
    }
}

#[test]
fn size_transposes_with_parity() {
    let left = Ship::new_aircraft_carrier().size();
    let down = Ship::new_aircraft_carrier().rotate(Rotation::Down).size();
    let right = Ship::new_aircraft_carrier().rotate(Rotation::Right).size();
    let up = Ship::new_aircraft_carrier().rotate(Rotation::Up).size();
    assert_eq!(left, right);
    assert_eq!(down, up);
    assert_eq!(left.swap(), down);
}

#[test]
fn turning_through_another_rotation_lands_on_the_same_shape() {
    let direct = Ship::new_minesweeper().rotate(Rotation::Up);
    let via = Ship::new_minesweeper().rotate(Rotation::Right).rotate(Rotation::Down).rotate(Rotation::Up);
    assert_eq!(ship_to_content(&direct), ship_to_content(&via));
}

#[test]
fn critical_counts() {
    assert_eq!(2, Ship::new_aircraft_carrier().remaining_important_points());
    assert_eq!(2, Ship::new_cruiser().remaining_important_points());
    assert_eq!(1, Ship::new_minesweeper().remaining_important_points());
    assert_eq!(11, Ship::new_aircraft_carrier().points());
    assert_eq!(8, Ship::new_cruiser().points());
    assert_eq!(5, Ship::new_minesweeper().points());
}

#[test]
fn glyph_table() {
    assert_eq!('-', Ship::value_to_char(0, true, true));
    assert_eq!('\0', Ship::value_to_char(0, true, false));
    assert_eq!('*', Ship::value_to_char(1, true, true));
    assert_eq!('\0', Ship::value_to_char(1, false, true));
    assert_eq!('x', Ship::value_to_char(2, false, false));
    assert_eq!('+', Ship::value_to_char(3, true, true));
    assert_eq!('o', Ship::value_to_char(4, true, true));
    assert_eq!('\0', Ship::value_to_char(5, true, true));
}

#[test]
fn custom_ship() {
    let ship = Ship::new(3, Rotation::Left, vec![(Vec2::new(0, 0), 2), (Vec2::new(0, 1), 1)]);
    assert_eq!(Vec2::new(1, 2), ship.size());
    assert_eq!("x\n*", ship_to_content(&ship));
    let turned = ship.rotate(Rotation::Right);
    assert_eq!("*\nx", ship_to_content(&turned));
}
