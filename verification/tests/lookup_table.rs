use cubelib::coord::{Coord, ParityCoord, ZeroCoord};
use cubelib::cube::{CornerCubieCube, CubieCube, Face, Move, Turn, Turnable};
use cubelib::lookup_table::{PruningTable, EMPTY_ENTRY};

fn even() -> ParityCoord {
    ParityCoord::from(&CornerCubieCube::new())
}

fn odd() -> ParityCoord {
    let mut c = CornerCubieCube::new();
    c.turn(Move(Face::Up, Turn::Clockwise));
    ParityCoord::from(&c)
}

#[test]
fn new_table_has_no_entries() {
    let table: PruningTable<2, ParityCoord> = PruningTable::new();
    assert_eq!(table.get(even()), None);
    assert_eq!(table.get(odd()), None);
    assert!(!table.is_populated());
}

#[test]
fn entry_is_what_was_stored_last() {
    let mut table: PruningTable<2, ParityCoord> = PruningTable::new();
    table.set(odd(), 1);
    assert_eq!(table.get(odd()), Some(1));
    assert_eq!(table.get(even()), None);
    assert!(!table.is_populated());
    table.set(even(), 0);
    assert_eq!(table.get(even()), Some(0));
    assert!(table.is_populated());
    table.set(odd(), 254);
    assert_eq!(table.get(odd()), Some(254));
    assert_eq!(table.get(even()), Some(0));
}

#[test]
fn largest_byte_stands_for_a_missing_entry() {
    assert_eq!(EMPTY_ENTRY, 255);
    let mut table: PruningTable<2, ParityCoord> = PruningTable::new();
    table.set(even(), 0);
    table.set(odd(), 3);
    assert!(table.is_populated());
    table.set(odd(), 255);
    assert_eq!(table.get(odd()), None);
    assert!(!table.is_populated());
}

#[test]
fn zero_coordinate_has_one_value() {
    assert_eq!(<ZeroCoord as Coord<1>>::size(), 1);
    assert_eq!(ZeroCoord::from(&CubieCube::new_solved()).val(), 0);
    let mut c = CornerCubieCube::new();
    c.turn(Move(Face::Right, Turn::Clockwise));
    assert_eq!(ZeroCoord::from(&c).val(), 0);
    let mut table: PruningTable<1, ZeroCoord> = PruningTable::new();
    assert!(!table.is_populated());
    table.set(ZeroCoord, 0);
    assert!(table.is_populated());
    assert_eq!(table.get(ZeroCoord::from(&c)), Some(0));
}
