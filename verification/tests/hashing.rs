use iridium::hashing::degenerate;
use iridium::{cell_index, Boid, BoidCellsIter, Fixed, Vec3, AABB};

fn fx(v: f32) -> Fixed {
    Fixed::from_raw((v * 65536.0) as i32)
}

fn v3(x: f32, y: f32, z: f32) -> Vec3 {
    Vec3::new(fx(x), fx(y), fx(z))
}

fn index12(x: f32, y: f32, z: f32) -> u64 {
    cell_index(v3(x, y, z), fx(12.0), fx(12.0), fx(1.0))
}

#[test]
fn it_computes_sane_grid_cells() {
    let boid = Boid::new(v3(0.0, 0.0, 0.0));
    let cells = boid.grid_cells(fx(12.0), fx(12.0), fx(1.0));
    assert_eq!(cells.cells, [0, 157, 144, 12, 156, 145, 13, 1]);
}

#[test]
fn cell_index_follows_the_formula() {
    assert_eq!(index12(0.0, 0.0, 0.0), 0);
    assert_eq!(index12(1.0, 0.0, 0.0), 1);
    assert_eq!(index12(0.0, 1.0, 0.0), 12);
    assert_eq!(index12(0.0, 0.0, 1.0), 144);
    assert_eq!(index12(1.0, 1.0, 1.0), 157);
    assert_eq!(index12(5.0, 5.0, 5.0), 785);
    assert_eq!(index12(11.0, 11.0, 11.0), 1727);
}

#[test]
fn cell_index_cuts_off_toward_zero() {
    assert_eq!(index12(0.5, 0.0, 0.0), 0);
    assert_eq!(index12(0.999, 0.0, 0.0), 0);
    assert_eq!(index12(1.999, 0.0, 0.0), 1);
    assert_eq!(index12(0.5, 0.5, 0.0), 6);
    assert_eq!(index12(0.25, 0.0, 0.01), 1);
}

#[test]
fn cell_index_uses_length_and_width_as_strides() {
    let p = v3(1.0, 2.0, 3.0);
    assert_eq!(cell_index(p, fx(5.0), fx(7.0), fx(1.0)), 1 + 2 * 7 + 3 * 5 * 7);
    assert_eq!(cell_index(p, fx(7.0), fx(5.0), fx(1.0)), 1 + 2 * 5 + 3 * 7 * 5);
}

#[test]
fn cell_index_scales_by_the_conversion_factor() {
    assert_eq!(cell_index(v3(2.0, 2.0, 2.0), fx(12.0), fx(12.0), fx(0.5)), 157);
    assert_eq!(cell_index(v3(3.0, 0.0, 0.0), fx(12.0), fx(12.0), fx(0.5)), 1);
    assert_eq!(cell_index(v3(1.0, 1.0, 1.0), fx(12.0), fx(12.0), fx(2.0)), 314);
}

#[test]
fn cell_index_of_negative_coordinates() {
    assert_eq!(index12(-1.0, 0.0, 0.0), 0);
    assert_eq!(index12(-0.5, 0.0, 0.0), 0);
    assert_eq!(index12(-1.0, 1.0, 0.0), 11);
    assert_eq!(index12(0.0, -1.0, 1.0), 132);
    assert_eq!(index12(-5.0, -5.0, -5.0), 0);
    assert_eq!(index12(-1.0, 1.0, 0.0), index12(-1.0, 1.0, 0.0));
}

#[test]
fn cell_index_with_negative_factor() {
    assert_eq!(cell_index(v3(1.0, 1.0, 1.0), fx(12.0), fx(12.0), fx(-1.0)), 0);
    assert_eq!(cell_index(v3(-1.0, -1.0, 0.0), fx(12.0), fx(12.0), fx(-1.0)), 13);
}

#[test]
fn cell_index_at_the_range_ends() {
    let big = Fixed::from_raw(i32::MAX);
    let small = Fixed::from_raw(i32::MIN);
    let top = cell_index(Vec3::new(big, big, big), big, big, big);
    assert_eq!(top, 1152956687905144832);
    assert_eq!(
        cell_index(Vec3::new(small, small, small), small, small, small),
        1152886321308499968
    );
    assert_eq!(cell_index(Vec3::new(small, small, small), small, small, big), 0);
    assert_eq!(cell_index(Vec3::new(big, big, small), small, big, big), 1152956688978886655);
}

#[test]
fn zero_factor_sends_everything_to_cell_zero() {
    let zero = Fixed::zero();
    assert!(degenerate(zero));
    assert!(!degenerate(fx(1.0)));
    assert!(!degenerate(fx(-1.0)));
    assert!(!degenerate(Fixed::from_raw(1)));
    for p in [v3(0.0, 0.0, 0.0), v3(5.0, 5.0, 5.0), v3(-3.0, 11.0, 2.5)] {
        assert_eq!(cell_index(p, fx(12.0), fx(12.0), zero), 0);
    }
    let boid = Boid::new(v3(5.0, 5.0, 5.0));
    assert_eq!(boid.grid_cells(fx(12.0), fx(12.0), zero).cells, [0; 8]);
}

#[test]
fn cell_index_is_repeatable() {
    for p in [v3(0.0, 0.0, 0.0), v3(5.5, 2.25, 7.0), v3(-3.0, 11.0, 2.5)] {
        let a = cell_index(p, fx(12.0), fx(12.0), fx(1.0));
        let b = cell_index(p, fx(12.0), fx(12.0), fx(1.0));
        assert_eq!(a, b);
    }
}

#[test]
fn points_within_one_cell_share_an_index() {
    for i in 0..12 {
        for j in 0..12 {
            for k in 0..12 {
                let want = (i + j * 12 + k * 144) as u64;
                let (x, y, z) = (i as f32, j as f32, k as f32);
                assert_eq!(index12(x, y, z), want);
                assert_eq!(index12(x + 0.25, y, z), want);
                assert_eq!(index12(x + 0.999, y, z), want);
            }
        }
    }
}

#[test]
fn different_cells_have_different_indices() {
    let mut seen = std::collections::HashSet::new();
    for i in 0..12 {
        for j in 0..12 {
            for k in 0..12 {
                assert!(seen.insert(index12(i as f32 + 0.5, j as f32, k as f32)));
            }
        }
    }
    assert_eq!(seen.len(), 1728);
}

#[test]
fn cells_of_other_sizes_are_told_apart() {
    let mut seen = std::collections::HashSet::new();
    for i in 0..6 {
        for j in 0..6 {
            for k in 0..6 {
                let p = v3(2.0 * i as f32 + 1.5, 2.0 * j as f32, 2.0 * k as f32);
                let got = cell_index(p, fx(12.0), fx(12.0), fx(2.0).recip());
                assert_eq!(got, (i + j * 12 + k * 144) as u64);
                assert!(seen.insert(got));
            }
        }
    }
}

#[test]
fn point_box_occupies_one_cell() {
    for p in [v3(0.0, 0.0, 0.0), v3(5.0, 5.0, 5.0), v3(3.5, 2.0, 7.0), v3(-1.0, 1.0, 0.0)] {
        let boid = Boid { position: v3(0.0, 0.0, 0.0), aabb: AABB::new(p, p) };
        let want = cell_index(p, fx(12.0), fx(12.0), fx(1.0));
        assert_eq!(boid.grid_cells(fx(12.0), fx(12.0), fx(1.0)).cells, [want; 8]);
    }
}

#[test]
fn small_box_inside_one_cell_reports_it_eight_times() {
    let boid = Boid {
        position: v3(0.0, 0.0, 0.0),
        aabb: AABB::new(v3(3.25, 0.0, 0.0), v3(3.5, 0.0, 0.0)),
    };
    assert_eq!(boid.grid_cells(fx(12.0), fx(12.0), fx(1.0)).cells, [3; 8]);
}

#[test]
fn grid_cells_hash_the_box_as_it_stands() {
    let p = v3(2.0, 3.0, 4.0);
    let point = Boid { position: p, aabb: AABB::new(p, p) };
    assert_eq!(point.grid_cells(fx(12.0), fx(12.0), fx(1.0)).cells, [614; 8]);

    let boxed = Boid {
        position: v3(5.0, 5.0, 5.0),
        aabb: AABB::new(v3(5.0, 5.0, 5.0), v3(6.0, 6.0, 6.0)),
    };
    assert_eq!(
        boxed.grid_cells(fx(12.0), fx(12.0), fx(1.0)).cells,
        [785, 942, 929, 797, 941, 930, 798, 786]
    );

    let thin = Boid {
        position: v3(0.75, 0.0, 0.0),
        aabb: AABB::new(v3(0.0, 0.0, 0.0), v3(0.5, 0.0, 0.0)),
    };
    assert_eq!(thin.grid_cells(fx(12.0), fx(12.0), fx(1.0)).cells, [0; 8]);
}

#[test]
fn grid_cells_do_not_depend_on_the_position() {
    let here = Boid::new(v3(0.0, 0.0, 0.0));
    let there = Boid::new(v3(5.0, 5.0, 5.0));
    let a = here.grid_cells(fx(12.0), fx(12.0), fx(1.0));
    let b = there.grid_cells(fx(12.0), fx(12.0), fx(1.0));
    assert_eq!(a.cells, b.cells);
    assert_eq!(b.cells, [0, 157, 144, 12, 156, 145, 13, 1]);
    assert_eq!(there.position, v3(5.0, 5.0, 5.0));
}

#[test]
fn first_two_corners_in_one_cell_hide_the_others() {
    let boid = Boid {
        position: v3(0.0, 0.0, 0.0),
        aabb: AABB::new(v3(0.0, 0.0, 0.0), v3(0.5, 0.04, 0.0)),
    };
    assert_eq!(index12(0.0, 0.04, 0.0), 0);
    assert_eq!(index12(0.5, 0.04, 0.0), 0);
    assert_eq!(boid.grid_cells(fx(12.0), fx(12.0), fx(1.0)).cells, [0; 8]);
}

#[test]
fn placed_agent_has_its_box_at_its_position() {
    let boid = Boid::new(v3(5.0, 5.0, 5.0));
    let placed = boid.placed();
    assert_eq!(placed.position, v3(5.0, 5.0, 5.0));
    assert_eq!(placed.aabb.min, v3(5.0, 5.0, 5.0));
    assert_eq!(placed.aabb.max, v3(6.0, 6.0, 6.0));
    let cells = placed.grid_cells(fx(12.0), fx(12.0), fx(1.0));
    assert_eq!(cells.cells, [785, 942, 929, 797, 941, 930, 798, 786]);
}

#[test]
fn grid_cells_keep_repeated_indices() {
    let boid = Boid {
        position: v3(0.0, 0.0, 0.0),
        aabb: AABB::new(v3(0.0, 0.0, 0.0), v3(1.0, 0.0, 0.0)),
    };
    let cells = boid.grid_cells(fx(12.0), fx(12.0), fx(1.0));
    assert_eq!(cells.cells, [0, 1, 0, 0, 0, 1, 1, 1]);
    assert_eq!(cells.distinct(), vec![0, 1]);
}

#[test]
fn distinct_keeps_first_occurrences_in_order() {
    let cells = BoidCellsIter { cells: [7, 3, 7, 9, 3, 3, 1, 9] };
    assert_eq!(cells.distinct(), vec![7, 3, 9, 1]);
    let same = BoidCellsIter { cells: [4; 8] };
    assert_eq!(same.distinct(), vec![4]);
    let all = BoidCellsIter { cells: [8, 7, 6, 5, 4, 3, 2, 1] };
    assert_eq!(all.distinct(), vec![8, 7, 6, 5, 4, 3, 2, 1]);
}

#[test]
fn new_boid_has_the_unit_box() {
    let boid = Boid::new(v3(3.0, 4.0, 5.0));
    assert_eq!(boid.position, v3(3.0, 4.0, 5.0));
    assert_eq!(boid.aabb.min, v3(0.0, 0.0, 0.0));
    assert_eq!(boid.aabb.max, v3(1.0, 1.0, 1.0));
}

#[test]
fn index_agrees_with_floating_point_on_exact_values() {
    let steps: Vec<f32> = (-16..48).map(|n| n as f32 * 0.25).collect();
    for conv in [0.0f32, 0.25, 0.5, 1.0, 2.0] {
        for &x in &steps {
            for &y in &steps {
                for &z in [-1.0f32, 0.0, 0.25, 3.0, 11.75].iter() {
                    let want = (conv * (x + y * 12.0 + z * 12.0 * 12.0)) as u64;
                    let got = cell_index(v3(x, y, z), fx(12.0), fx(12.0), fx(conv));
                    assert_eq!(got, want);
                }
            }
        }
    }
}
