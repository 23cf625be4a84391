use egm96::grid::{stencil, Grid, GridInfo, MemoryGrid, Stencil};

fn grid_3x2() -> MemoryGrid {
    MemoryGrid {
        grid_info: GridInfo {
            x_num: 3,
            y_num: 2,
            x_denom: 4,
            y_denom: 4,
            x_min_bits: 0,
            y_min_bits: 0xC2B4_0000,
        },
        points: vec![10, 11, 12, 20, 21, 22],
    }
}

#[test]
fn lookup_is_row_major() {
    let g = grid_3x2();
    assert_eq!(g.lookup_grid_points(0, 0), 10);
    assert_eq!(g.lookup_grid_points(2, 0), 12);
    assert_eq!(g.lookup_grid_points(0, 1), 20);
    assert_eq!(g.lookup_grid_points(2, 1), 22);
    assert_eq!(g.grid_info().x_num, 3);
    assert_eq!(g.grid_info().y_num, 2);
    assert_eq!(g.grid_info().num_points(), 6);
}

#[test]
fn largest_geometry_has_a_count_that_fits() {
    let info = GridInfo {
        x_num: 65535,
        y_num: 65535,
        x_denom: 1,
        y_denom: 1,
        x_min_bits: 0,
        y_min_bits: 0,
    };
    assert_eq!(info.num_points(), 4_294_836_225);
}

#[test]
fn stencil_outside_the_grid() {
    let g = grid_3x2();
    assert_eq!(stencil(&g, 3, 0, true, true), Stencil::Outside);
    assert_eq!(stencil(&g, 0, 2, false, false), Stencil::Outside);
    assert_eq!(stencil(&g, u32::MAX, u32::MAX, false, true), Stencil::Outside);
}

#[test]
fn stencil_on_a_grid_point_is_that_sample() {
    let g = grid_3x2();
    assert_eq!(stencil(&g, 0, 0, true, true), Stencil::Point { v00: 10 });
    assert_eq!(stencil(&g, 1, 1, true, true), Stencil::Point { v00: 21 });
    // the last column of the last row has no neighbours, and needs none
    assert_eq!(stencil(&g, 2, 1, true, true), Stencil::Point { v00: 22 });
}

#[test]
fn stencil_on_a_grid_line() {
    let g = grid_3x2();
    assert_eq!(stencil(&g, 1, 0, true, false), Stencil::AlongY { v00: 11, v10: Some(21) });
    assert_eq!(stencil(&g, 1, 1, true, false), Stencil::AlongY { v00: 21, v10: None });
    assert_eq!(stencil(&g, 1, 0, false, true), Stencil::AlongX { v00: 11, v01: Some(12) });
    assert_eq!(stencil(&g, 2, 0, false, true), Stencil::AlongX { v00: 12, v01: None });
}

#[test]
fn stencil_inside_a_cell() {
    let g = grid_3x2();
    assert_eq!(
        stencil(&g, 0, 0, false, false),
        Stencil::Full { v00: 10, v01: Some(11), v10: Some(20), v11: Some(21) }
    );
    assert_eq!(
        stencil(&g, 2, 0, false, false),
        Stencil::Full { v00: 12, v01: None, v10: Some(22), v11: None }
    );
    assert_eq!(
        stencil(&g, 1, 1, false, false),
        Stencil::Full { v00: 21, v01: Some(22), v10: None, v11: None }
    );
    assert_eq!(
        stencil(&g, 2, 1, false, false),
        Stencil::Full { v00: 22, v01: None, v10: None, v11: None }
    );
}

#[test]
fn well_formed_grids_are_told_apart() {
    let g = grid_3x2();
    assert!(g.grid_info.is_wf());
    assert!(g.is_wf());
    let short = MemoryGrid { points: vec![1, 2, 3, 4, 5], ..grid_3x2() };
    assert!(!short.is_wf());
    let long = MemoryGrid { points: vec![1, 2, 3, 4, 5, 6, 7], ..grid_3x2() };
    assert!(!long.is_wf());
    let wide = GridInfo { x_num: 65536, ..grid_3x2().grid_info };
    assert!(!wide.is_wf());
    assert!(!GridInfo { y_num: 65536, ..wide }.is_wf());
    assert!(!GridInfo { x_denom: 65536, ..grid_3x2().grid_info }.is_wf());
    assert!(!GridInfo { y_denom: 65536, ..grid_3x2().grid_info }.is_wf());
    assert!(GridInfo { x_num: 65535, y_num: 65535, x_denom: 65535, y_denom: 65535, ..wide }.is_wf());
    let empty = MemoryGrid { grid_info: GridInfo { x_num: 0, ..grid_3x2().grid_info }, points: vec![] };
    assert!(empty.is_wf());
    assert!(!MemoryGrid { grid_info: wide, points: vec![] }.is_wf());
}

#[test]
fn new_takes_well_formed_grids_only() {
    let info = grid_3x2().grid_info;
    assert_eq!(MemoryGrid::new(info, vec![10, 11, 12, 20, 21, 22]), Some(grid_3x2()));
    assert_eq!(MemoryGrid::new(info, vec![10, 11, 12, 20, 21]), None);
    assert_eq!(MemoryGrid::new(info, vec![]), None);
    assert_eq!(MemoryGrid::new(GridInfo { x_num: 65536, ..info }, vec![]), None);
}
