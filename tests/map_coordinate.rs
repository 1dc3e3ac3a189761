use resource_scanner_tool::MapCoordinate;

#[test]
fn test_new_map_coordinate() {
    let coordinates = MapCoordinate::new(10, 20);
    assert_eq!(coordinates.get_width(), 10);
    assert_eq!(coordinates.get_height(), 20);
}

#[test]
fn test_get_width() {
    let coordinates = MapCoordinate::new(10, 20);
    assert_eq!(coordinates.get_width(), 10);
}

#[test]
fn test_set_width() {
    let mut coordinates = MapCoordinate::new(10, 20);
    coordinates.set_width(15);
    assert_eq!(coordinates.get_width(), 15);
}

#[test]
fn test_get_height() {
    let coordinates = MapCoordinate::new(10, 20);
    assert_eq!(coordinates.get_height(), 20);
}

#[test]
fn test_set_height() {
    let mut coordinates = MapCoordinate::new(10, 20);
    coordinates.set_height(25);
    assert_eq!(coordinates.get_height(), 25);
}

#[test]
fn test_equality() {
    let coordinates1 = MapCoordinate::new(10, 20);
    let coordinates2 = MapCoordinate::new(10, 20);
    let coordinates3 = MapCoordinate::new(15, 25);

    assert_eq!(coordinates1, coordinates2);
    assert_ne!(coordinates1, coordinates3);
}

#[test]
fn test_addition() {
    let coordinates1 = MapCoordinate::new(10, 20);
    let coordinates2 = MapCoordinate::new(5, 10);
    let result = coordinates1 + coordinates2;
    assert_eq!(result, MapCoordinate::new(15, 30));
}

#[test]
fn test_subtraction() {
    let coordinates1 = MapCoordinate::new(10, 20);
    let coordinates2 = MapCoordinate::new(5, 10);
    let result = coordinates1 - coordinates2;
    assert_eq!(result, MapCoordinate::new(5, 10));
}

#[test]
fn test_from_into_conversion() {
    let tuple_coordinates: (usize, usize) = (10, 20);
    let coordinates: MapCoordinate = tuple_coordinates.into();
    assert_eq!(coordinates.get_width(), 10);
    assert_eq!(coordinates.get_height(), 20);

    let converted_tuple: (usize, usize) = coordinates.into();
    assert_eq!(converted_tuple, (10, 20));
}

#[test]
fn setters_keep_the_other_component() {
    let mut coordinates = MapCoordinate::new(3, 7);
    coordinates.set_width(9);
    assert_eq!(coordinates, MapCoordinate::new(9, 7));
    coordinates.set_height(1);
    assert_eq!(coordinates, MapCoordinate::new(9, 1));
}

#[test]
fn addition_and_subtraction_are_component_wise() {
    let a = MapCoordinate::new(7, 2);
    let b = MapCoordinate::new(3, 2);
    assert_eq!(a + b, MapCoordinate::new(10, 4));
    assert_eq!(a - b, MapCoordinate::new(4, 0));
    assert_eq!((a - b) + b, a);
}

#[test]
fn conversion_keeps_column_then_row() {
    let c = MapCoordinate::from((4, 9));
    assert_eq!(c.get_width(), 4);
    assert_eq!(c.get_height(), 9);
    assert_eq!(<(usize, usize)>::from(c), (4, 9));
}
