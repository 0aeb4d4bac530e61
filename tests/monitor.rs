use websocket_control::utils::{AsIfPixel, LocalMonitor, Vec2d};
use websocket_control::{ColorId, Direction};

fn blank() -> AsIfPixel {
    AsIfPixel::colored_whitespace(ColorId::Orange)
}

#[test]
fn same_pixel_twice_is_dirty_once() {
    let mut m = LocalMonitor::new(3, 2, blank());
    m.mark_synced();
    let p = AsIfPixel::new('A', ColorId::White, ColorId::Black).unwrap();
    m.write(2, 1, p);
    m.write(2, 1, p);
    let dirty = m.dirty_pixels();
    assert_eq!(dirty, vec![(2, 1, p)]);
}

#[test]
fn sync_count_matches_dirty_and_clears() {
    let mut m = LocalMonitor::new(3, 2, blank());
    m.mark_synced();
    let p = AsIfPixel::new('x', ColorId::Red, ColorId::Blue).unwrap();
    m.write(1, 1, p);
    m.write(3, 2, p);
    m.write(2, 2, blank());
    let flushed = m.dirty_pixels();
    assert_eq!(flushed.len(), 2);
    assert_eq!(flushed, vec![(1, 1, p), (3, 2, p)]);
    m.mark_synced();
    assert!(m.dirty_pixels().is_empty());
    assert_eq!(m.get(1, 1), Some(p));
}

#[test]
fn resize_marks_everything_dirty_even_at_same_size() {
    let mut m = LocalMonitor::new(3, 2, blank());
    m.mark_synced();
    assert!(m.dirty_pixels().is_empty());
    m.resize(3, 2, blank());
    assert_eq!(m.dirty_pixels().len(), 6);
    m.resize(4, 1, blank());
    assert_eq!(m.size(), (4, 1));
    assert_eq!(m.dirty_pixels().len(), 4);
}

#[test]
fn new_monitor_is_dirty_everywhere() {
    let m = LocalMonitor::new(2, 2, blank());
    assert_eq!(
        m.dirty_pixels(),
        vec![(1, 1, blank()), (1, 2, blank()), (2, 1, blank()), (2, 2, blank())]
    );
    let empty = LocalMonitor::new(0, 0, blank());
    assert_eq!(empty.size(), (0, 0));
    assert!(empty.dirty_pixels().is_empty());
}

#[test]
fn writes_outside_are_ignored() {
    let mut m = LocalMonitor::new(3, 2, blank());
    m.mark_synced();
    let p = AsIfPixel::new('A', ColorId::White, ColorId::Black).unwrap();
    m.write(0, 1, p);
    m.write(4, 1, p);
    m.write(1, 3, p);
    m.write(1, 0, p);
    assert!(m.dirty_pixels().is_empty());
    assert_eq!(m.get(0, 1), None);
    assert_eq!(m.get(4, 1), None);
    assert_eq!(m.get(3, 2), Some(blank()));
}

#[test]
fn clear_with_goes_through_write() {
    let mut m = LocalMonitor::new(3, 2, blank());
    m.mark_synced();
    m.clear_with(ColorId::Orange);
    assert!(m.dirty_pixels().is_empty());
    m.clear_with(ColorId::Red);
    assert_eq!(m.dirty_pixels().len(), 6);
    assert_eq!(m.get(2, 2), Some(AsIfPixel::colored_whitespace(ColorId::Red)));
}

#[test]
fn write_str_steps_and_stops_at_the_edge() {
    let mut m = LocalMonitor::new(3, 2, blank());
    m.write_str(2, 1, Direction::PosX, "abcdef", ColorId::White, ColorId::Black);
    assert_eq!(m.get(2, 1).unwrap().text(), 'a');
    assert_eq!(m.get(3, 1).unwrap().text(), 'b');
    assert_eq!(m.get(1, 1).unwrap().text(), ' ');
    assert_eq!(m.get(1, 2).unwrap().text(), ' ');
}

#[test]
fn write_str_skips_unprintable_characters() {
    let mut m = LocalMonitor::new(3, 1, blank());
    m.write_str(1, 1, Direction::PosX, "a\u{e9}\nb", ColorId::White, ColorId::Black);
    assert_eq!(m.get(1, 1).unwrap().text(), 'a');
    assert_eq!(m.get(2, 1).unwrap().text(), 'b');
    assert_eq!(m.get(3, 1).unwrap().text(), ' ');
}

#[test]
fn write_str_walks_backwards() {
    let mut m = LocalMonitor::new(2, 3, blank());
    m.write_str(1, 2, Direction::NegY, "xyz", ColorId::White, ColorId::Black);
    assert_eq!(m.get(1, 2).unwrap().text(), 'x');
    assert_eq!(m.get(1, 1).unwrap().text(), 'y');
    assert_eq!(m.get(1, 3).unwrap().text(), ' ');
    m.write_str(2, 1, Direction::NegX, "pq", ColorId::White, ColorId::Black);
    assert_eq!(m.get(2, 1).unwrap().text(), 'p');
    assert_eq!(m.get(1, 1).unwrap().text(), 'q');
}

#[test]
fn pixel_needs_printable_ascii() {
    assert!(AsIfPixel::new('\u{e9}', ColorId::White, ColorId::Black).is_none());
    assert!(AsIfPixel::new('\n', ColorId::White, ColorId::Black).is_none());
    let p = AsIfPixel::new('~', ColorId::Lime, ColorId::Pink).unwrap();
    assert_eq!(p.text(), '~');
    assert_eq!(p.background(), ColorId::Lime);
    assert_eq!(p.foreground(), ColorId::Pink);
    assert_eq!(p.background_color, ColorId::Lime);
}

#[test]
fn pacing_of_cell_by_cell_flush() {
    let m = LocalMonitor::new(1, 1, blank());
    assert_eq!(m.pacing(), (50, 75));
}

#[test]
fn grid_positions_run_column_after_column() {
    let mut v = Vec2d::new_filled_copy(2, 3, 0);
    v.set(1, 2, 9);
    let items = v.clone().into_iter();
    let positions: Vec<(usize, usize)> = items.iter().map(|(p, _)| *p).collect();
    assert_eq!(positions, vec![(0, 0), (0, 1), (0, 2), (1, 0), (1, 1), (1, 2)]);
    assert_eq!(items[5].1, 9);
    let refs = v.iter();
    assert_eq!(*refs[5].1, 9);
    assert_eq!(refs[4].0, (1, 1));
    let mut walk = v.iter_index();
    let mut seen = Vec::new();
    while let Some(p) = walk.next() {
        seen.push(p);
    }
    assert_eq!(seen, positions);
    assert_eq!(v.size(), (2, 3));
    let w = Vec2d::new_filled(2, 2, String::from("s"));
    assert_eq!(w.get(1, 1), "s");
    assert_eq!(w.cells_len(), 4);
}

#[test]
fn grid_cells_can_be_changed_in_place() {
    let mut v = Vec2d::new_filled_copy(2, 2, 1);
    for ((x, y), cell) in v.iter_mut() {
        *cell = 10 * x + y;
    }
    assert_eq!(*v.get(0, 1), 1);
    assert_eq!(*v.get(1, 0), 10);
    assert_eq!(*v.get(1, 1), 11);
}
