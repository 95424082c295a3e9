use roguelike::grid::Grid;
use roguelike::position::Coord;

#[test]
fn grid_new_fills_every_cell() {
    let g = Grid::new(7u8, 4, 3);
    assert_eq!(g.width, 4);
    assert_eq!(g.height, 3);
    for y in 0..3 {
        for x in 0..4 {
            assert_eq!(g.get(x, y), Some(&7u8));
        }
    }
}

#[test]
fn grid_get_is_bounds_checked() {
    let g = Grid::new(1u8, 4, 3);
    assert_eq!(g.get(-1, 0), None);
    assert_eq!(g.get(0, -1), None);
    assert_eq!(g.get(4, 0), None);
    assert_eq!(g.get(0, 3), None);
    assert_eq!(g.get(3, 2), Some(&1u8));
}

#[test]
fn grid_index_mapping_is_row_major() {
    let g = Grid::new(0u8, 5, 4);
    assert_eq!(g.to_idx(0, 0), 0);
    assert_eq!(g.to_idx(4, 0), 4);
    assert_eq!(g.to_idx(0, 1), 5);
    assert_eq!(g.to_idx(3, 2), 13);
    assert_eq!(g.try_to_idx(3, 2), Some(13));
    assert_eq!(g.try_to_idx(5, 2), None);
    assert_eq!(g.to_pos(13), Coord { x: 3, y: 2 });
}

#[test]
fn grid_set_and_get_mut_write_one_cell() {
    let mut g = Grid::new(0u8, 3, 2);
    g.set(1, 1, 9);
    g.set(7, 7, 5);
    assert_eq!(g.get(1, 1), Some(&9));
    if let Some(c) = g.get_mut(2, 0) {
        *c = 4;
    }
    assert!(g.get_mut(3, 0).is_none());
    let cells: Vec<u8> = (0..2).flat_map(|y| (0..3).map(move |x| (x, y))).map(|(x, y)| *g.get(x, y).unwrap()).collect();
    assert_eq!(cells, vec![0, 0, 4, 0, 9, 0]);
}

#[test]
fn grid_fill_default_and_reset() {
    let mut g: Grid<u32> = Grid::default(2, 2);
    assert_eq!(g.get(1, 1), Some(&0));
    g.fill(8);
    assert_eq!(g.get(0, 0), Some(&8));
    assert_eq!(g.get(1, 1), Some(&8));
    g.reset();
    assert_eq!(g.get(0, 0), Some(&0));
    assert_eq!(g.get(1, 1), Some(&0));
}
