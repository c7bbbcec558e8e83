use smoke::grid::GridGpu;
use smoke::layout::{
    cell_flow, face_velocities, get_pressures, get_u, get_v, init_solid_map, initial_velocities,
    open_faces, set_face_velocities, smoke_corners, velocity_index, workgroup_count, Cell, Pair,
    INVALID, ZERO,
};

fn b(x: f32) -> u32 {
    x.to_bits()
}

#[test]
fn markers_are_the_float_values() {
    assert_eq!(f32::from_bits(INVALID), -100_000_000.0);
    assert_eq!(f32::from_bits(ZERO), 0.0);
}

#[test]
fn initial_velocities_mark_outer_faces() {
    // 3 by 2 cells: 4 by 3 pairs
    let v = initial_velocities(3, 2);
    assert_eq!(v.len(), 12);
    for vy in 0..3usize {
        for vx in 0..4usize {
            let p = v[vy * 4 + vx];
            let expected = if vx == 3 && vy == 2 {
                Pair::new(INVALID, INVALID)
            } else if vx == 3 {
                Pair::new(INVALID, ZERO)
            } else if vy == 2 {
                Pair::new(ZERO, INVALID)
            } else {
                Pair::new(ZERO, ZERO)
            };
            assert_eq!(p, expected, "pair ({}, {})", vx, vy);
        }
    }
}

#[test]
fn fresh_grid_is_at_rest_with_solid_border() {
    let g = GridGpu::new(4, 3);
    assert_eq!(g.smoke, vec![ZERO; 12]);
    for p in 0..12 {
        assert_eq!(g.get_velocities(p), Cell::new(ZERO, ZERO, ZERO, ZERO));
    }
    let expected = vec![
        true, true, true, true, //
        true, false, false, true, //
        true, true, true, true,
    ];
    assert_eq!(g.solid_map, expected);
}

#[test]
fn border_marking_keeps_other_solids() {
    let mut m = vec![false; 20];
    m[6] = true;
    init_solid_map(&mut m, 5, 4);
    for p in 0..20 {
        let x = p % 5;
        let y = p / 5;
        let border = x == 0 || x == 4 || y == 0 || y == 3;
        assert_eq!(m[p], border || p == 6, "cell {}", p);
    }
}

#[test]
fn velocity_index_skips_one_per_row() {
    assert_eq!(velocity_index(0, 4), 0);
    assert_eq!(velocity_index(3, 4), 3);
    assert_eq!(velocity_index(4, 4), 5);
    assert_eq!(velocity_index(11, 4), 13);
}

#[test]
fn set_then_get_velocities() {
    let mut g = GridGpu::new(4, 3);
    g.set_velocities(5, Some(b(1.0)), Some(b(2.0)), Some(b(3.0)), Some(b(4.0)));
    assert_eq!(g.get_velocities(5), Cell::new(b(1.0), b(2.0), b(3.0), b(4.0)));
    // neighbours see the shared faces
    assert_eq!(g.get_velocities(6).l, b(4.0));
    assert_eq!(g.get_velocities(9).t, b(3.0));
    assert_eq!(g.get_velocities(4).r, b(2.0));
    assert_eq!(g.get_velocities(1).b, b(1.0));

    // a missing value keeps the face
    g.set_velocities(5, None, Some(b(7.0)), None, None);
    assert_eq!(g.get_velocities(5), Cell::new(b(1.0), b(7.0), b(3.0), b(4.0)));
    // an unrelated cell is untouched
    assert_eq!(g.get_velocities(10), Cell::new(ZERO, ZERO, ZERO, ZERO));
}

#[test]
fn face_helpers_on_plain_arrays() {
    let mut v = initial_velocities(2, 2);
    set_face_velocities(&mut v, 2, 2, 3, None, None, Some(b(5.0)), Some(b(6.0)));
    let c = face_velocities(&v, 2, 2, 3);
    assert_eq!(c, Cell::new(ZERO, ZERO, b(5.0), b(6.0)));
    // the last cell's right and bottom faces live in the extra column and row
    assert_eq!(v[5].left, b(6.0));
    assert_eq!(v[7].top, b(5.0));
    assert_eq!(v[5].top, INVALID);
    assert_eq!(v[7].left, INVALID);
}

#[test]
fn uploads_are_taken_once() {
    let mut g = GridGpu::new(3, 3);
    assert_eq!(g.take_pending_uploads(), (true, true));
    assert_eq!(g.take_pending_uploads(), (false, false));
    g.set_smoke(4, b(0.5));
    assert_eq!(g.smoke[4], b(0.5));
    assert_eq!(g.take_pending_uploads(), (false, true));
    g.set_velocities(4, Some(b(1.0)), None, None, None);
    assert_eq!(g.take_pending_uploads(), (true, false));
}

#[test]
fn frames_alternate_and_results_are_taken_over() {
    let mut g = GridGpu::new(2, 2);
    assert!(g.is_even_frame);
    g.advance_frame();
    assert!(!g.is_even_frame);
    g.advance_frame();
    assert!(g.is_even_frame);
    let vel = vec![Pair::new(b(1.0), b(2.0)); 9];
    let smoke = vec![b(3.0); 4];
    g.finish_step(vel.clone(), smoke.clone());
    assert_eq!(g.velocities, vel);
    assert_eq!(g.smoke, smoke);
}

#[test]
fn samples_clamp_to_the_grid() {
    // 2 by 2 cells, 3 by 3 pairs; pair k has top 100 + k and left 200 + k
    let map: Vec<Pair> = (0..9u32).map(|k| Pair::new(100 + k, 200 + k)).collect();
    assert_eq!(get_u(1, 1, &map, 2, 2), 204);
    assert_eq!(get_u(2, 1, &map, 2, 2), 205);
    assert_eq!(get_u(9, 9, &map, 2, 2), 205);
    assert_eq!(get_v(1, 2, &map, 2, 2), 107);
    assert_eq!(get_v(9, 9, &map, 2, 2), 107);
    assert_eq!(get_v(0, 0, &map, 2, 2), 100);

    let smoke = vec![10, 11, 12, 13];
    assert_eq!(smoke_corners(&smoke, 0, 0, 2, 2), (10, 11, 12, 13));
    assert_eq!(smoke_corners(&smoke, 1, 1, 2, 2), (13, 13, 13, 13));
    assert_eq!(smoke_corners(&smoke, 1, 0, 2, 2), (11, 11, 13, 13));
}

#[test]
fn workgroups_round_up() {
    assert_eq!(workgroup_count(0), 0);
    assert_eq!(workgroup_count(8), 1);
    assert_eq!(workgroup_count(9), 2);
    assert_eq!(workgroup_count(100), 13);
}

#[test]
fn pressures_around_a_cell() {
    let p: Vec<u32> = (0..6u32).collect();
    // 3 by 2 grid, cell 4 is (1, 1)
    assert_eq!(get_pressures(&p, 4, 1, 1, 3, 2), Cell::new(1, 3, 4, 5));
    // cell 0 is in the corner: own value above, zero on the left
    assert_eq!(get_pressures(&p, 0, 0, 0, 3, 2), Cell::new(0, ZERO, 3, 1));
    // cell 5 is (2, 1): own value below and to the right
    assert_eq!(get_pressures(&p, 5, 2, 1, 3, 2), Cell::new(2, 4, 5, 5));
}

#[test]
fn flow_through_open_faces() {
    let g = GridGpu::new(4, 4);
    let f = cell_flow(&g.solid_map, 5, 4, 4);
    assert!(!f.solid);
    assert_eq!((f.x, f.y), (1, 1));
    assert!(!f.flow_t && !f.flow_l && f.flow_b && f.flow_r);
    assert_eq!(open_faces(&f), 2);
    let border = cell_flow(&g.solid_map, 0, 4, 4);
    assert!(border.solid);
    assert_eq!(open_faces(&border), 0);
    let open = vec![false; 9];
    let centre = cell_flow(&open, 4, 3, 3);
    assert_eq!(open_faces(&centre), 4);
}
