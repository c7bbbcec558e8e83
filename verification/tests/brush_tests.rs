use queues::IsQueue;
use smoke::grid::GridGpu;
use smoke::interactor::SmokeData;
use smoke::interactor::{brush_cells, GridInteractor, VelocityData, FULL_SMOKE};
use smoke::layout::Cell;
use smoke::runner::{apply_smoke, apply_velocities, init_solid_map, BAR_HEIGHT, INFLOW};

fn b(x: f32) -> u32 {
    x.to_bits()
}

#[test]
fn brush_constants_are_the_float_values() {
    assert_eq!(f32::from_bits(FULL_SMOKE), 1.0);
    assert_eq!(f32::from_bits(INFLOW), 600.0);
}

#[test]
fn brush_cells_row_by_row() {
    assert_eq!(brush_cells(1, 3, 2, 4, 10), vec![21, 22, 31, 32]);
    assert!(brush_cells(3, 3, 0, 5, 10).is_empty());
    assert!(brush_cells(0, 5, 4, 2, 10).is_empty());
}

#[test]
fn mouse_buttons_start_and_end_drags() {
    let mut it = GridInteractor::new(100);
    assert!(!it.is_dragging);
    it.on_mouse_down(0);
    assert!(it.is_dragging && it.paints_smoke());
    it.on_mouse_up();
    assert!(!it.is_dragging);
    it.on_mouse_down(2);
    assert!(it.is_dragging && !it.paints_smoke());
}

#[test]
fn painted_smoke_reaches_the_grid() {
    let mut g = GridGpu::new(10, 10);
    let mut it = GridInteractor::new(100);
    g.take_pending_uploads();
    it.queue_smoke_region(1, 3, 2, 4, 10);
    apply_smoke(&mut g, &mut it);
    for p in 0..100 {
        let painted = p == 21 || p == 22 || p == 31 || p == 32;
        assert_eq!(g.smoke[p], if painted { FULL_SMOKE } else { 0 }, "cell {}", p);
    }
    assert_eq!(g.take_pending_uploads(), (false, true));
    // the queue is empty afterwards: a second pass changes nothing
    apply_smoke(&mut g, &mut it);
    assert_eq!(g.take_pending_uploads(), (false, false));
}

#[test]
fn queued_velocities_apply_in_order_then_the_bar() {
    let (w, h) = (20usize, 30usize);
    let mut g = GridGpu::new(w, h);
    let mut it = GridInteractor::new(w * h);
    it.queue_velocity(VelocityData { i: 45, t: Some(b(1.0)), l: None, b: None, r: Some(b(2.0)) });
    it.queue_velocity(VelocityData { i: 45, t: Some(b(3.0)), l: None, b: None, r: None });
    apply_velocities(&mut g, &mut it);
    assert_eq!(g.get_velocities(45), Cell::new(b(3.0), 0, 0, b(2.0)));

    let start = (w * h) / 2 - (w * BAR_HEIGHT / 2) + 5;
    for row in 0..BAR_HEIGHT {
        let p = start + w * row;
        assert_eq!(g.get_velocities(p).l, INFLOW, "bar row {}", row);
        assert_eq!(g.smoke[p + 1], FULL_SMOKE, "bar row {}", row);
        assert_eq!(g.smoke[p], 0);
    }
    // the queue was drained
    apply_velocities(&mut g, &mut it);
    assert_eq!(g.get_velocities(45), Cell::new(b(3.0), 0, 0, b(2.0)));
}

#[test]
fn obstacle_is_a_disc_in_the_middle() {
    let mut g = GridGpu::new(40, 40);
    init_solid_map(&mut g);
    let at = |x: usize, y: usize| g.solid_map[y * 40 + x];
    assert!(at(20, 20));
    assert!(at(20, 30));
    assert!(!at(20, 31));
    assert!(at(26, 28)); // 36 + 64 = 100
    assert!(!at(27, 28)); // 49 + 64 = 113
    assert!(at(0, 5)); // border stays solid
    assert!(!at(5, 5));
}

#[test]
fn newest_smoke_edit_wins() {
    let mut g = GridGpu::new(4, 4);
    let mut it = GridInteractor::new(16);
    it.smoke_q.add(SmokeData { i: 5, t: b(0.25) }).unwrap();
    it.smoke_q.add(SmokeData { i: 6, t: b(0.5) }).unwrap();
    it.smoke_q.add(SmokeData { i: 5, t: b(0.75) }).unwrap();
    apply_smoke(&mut g, &mut it);
    assert_eq!(g.smoke[5], b(0.75));
    assert_eq!(g.smoke[6], b(0.5));
    assert_eq!(g.smoke[7], 0);
    assert_eq!(it.smoke_q.size(), 0);
}
