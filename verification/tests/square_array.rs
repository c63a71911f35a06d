use hexgame::square_array::SquareArray;
use hexgame::Coords;

#[test]
fn square_array_test_constructor() {
    let array: SquareArray<u16> = SquareArray::new(3);
    assert_eq!(array.size, 3);
    assert_eq!(array.at_coord(Coords::new(0, 0)), 0);
}

#[test]
fn square_array_test_set_index() {
    let value = 123;
    let mut array: SquareArray<u16> = SquareArray::new(3);
    array.set_index(5, value);
    assert_eq!(array.at_index(5), value);
    assert_eq!(array.at_coord(Coords::new(1, 2)), value);
}

#[test]
fn square_array_test_index_from_coords() {
    let array: SquareArray<u16> = SquareArray::new(3);
    assert_eq!(array.index_from_coords(Coords::new(1, 2)), 5);
}
