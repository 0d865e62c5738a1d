use efficax::cell::MetaitusCell;
use efficax::grid::{get_cell_and_surrounding_indicies, get_index_at_int_coords, get_int_coord, get_int_coords_at_index, CellCoords};
use efficax::zone::ZoneGrid;

#[test]
fn grid_index_math() {
    let c = CellCoords { x: 4096, y: 4097 };
    let i = get_index_at_int_coords(c);
    assert_eq!(i, 8192 * 4097 + 4096);
    assert_eq!(get_int_coords_at_index(i), c);
    assert_eq!(get_int_coord(0), 4096);
    assert_eq!(get_int_coord(33), 4098);
}

#[test]
fn surrounding_cells() {
    let i = 8192 * 10 + 10;
    assert_eq!(
        get_cell_and_surrounding_indicies(i),
        vec![i, i - 8192, i + 8192, i + 1, i - 1, i - 8192 + 1, i - 8192 - 1, i + 8192 + 1, i + 8192 - 1]
    );
}

#[test]
fn spawn_move_despawn() {
    let mut z = ZoneGrid::new();
    let c = 8192 * 4096 + 4096;
    let a = z.spawn_entity(c);
    let b = z.spawn_entity(c);
    assert_eq!((a, b), (0, 1));
    assert_eq!(z.near_entities(c), vec![0, 1]);
    z.move_entity(a, c + 1);
    assert_eq!(z.entity_cell(a), Some(c + 1));
    assert_eq!(z.near_entities(c), vec![1, 0]);
    assert_eq!(z.near_entities(c + 2), vec![0]);
    assert_eq!(z.despawn_entity(a), Some(c + 1));
    assert_eq!(z.despawn_entity(a), None);
    assert_eq!(z.near_entities(c), vec![1]);
    assert_eq!(z.despawn_entity(b), Some(c));
    assert_eq!(z.near_entities(c), vec![]);
}

#[test]
fn statics_cover_their_rectangle() {
    let mut z = ZoneGrid::new();
    let min = CellCoords { x: 4096, y: 4096 };
    let max = CellCoords { x: 4097, y: 4096 };
    let s = z.add_static(min, max);
    assert_eq!(s, 1);
    let t = z.add_static(min, min);
    assert_eq!(t, 2);
    let c = get_index_at_int_coords(min);
    assert_eq!(z.near_statics(c), vec![1, 2, 1]);
    assert_eq!(z.near_statics(c + 2), vec![1]);
    assert_eq!(z.near_statics(c + 3), vec![]);
    z.remove_static(s);
    assert_eq!(z.near_statics(c), vec![2]);
    z.remove_static(t);
    assert_eq!(z.near_statics(c), vec![]);
}

#[test]
fn cell_entities() {
    let mut cell = MetaitusCell::new(7);
    assert_eq!(cell.get_index(), 7);
    cell.add_entity(1);
    cell.add_entity(2);
    cell.add_entity(1);
    assert_eq!(cell.remove_entity(1), Some(1));
    assert_eq!(cell.get_entities(), &vec![2, 1]);
    assert_eq!(cell.remove_entity(5), None);
}
