use legend_of_mierda::walls::{merge_wall_plates, row_plates, wall_collision_rects, Plate, WallRect};

#[test]
fn plates_are_maximal_runs() {
    let row = vec![true, true, false, true, false, false, true, true, true];
    assert_eq!(
        row_plates(&row),
        vec![
            Plate { left: 0, right: 1 },
            Plate { left: 3, right: 3 },
            Plate { left: 6, right: 8 },
        ]
    );
    assert!(row_plates(&vec![false, false]).is_empty());
    assert!(row_plates(&vec![]).is_empty());
}

#[test]
fn plates_stack_into_rectangles() {
    let t = true;
    let f = false;
    let rows = vec![vec![t, t, f, t], vec![t, t, f, f], vec![f, f, f, t]];
    assert_eq!(
        wall_collision_rects(&rows),
        vec![
            WallRect { left: 3, right: 3, top: 0, bottom: 0 },
            WallRect { left: 0, right: 1, top: 1, bottom: 0 },
            WallRect { left: 3, right: 3, top: 2, bottom: 2 },
        ]
    );
}

#[test]
fn full_grid_is_one_rectangle() {
    let rows = vec![vec![true; 5]; 4];
    assert_eq!(
        wall_collision_rects(&rows),
        vec![WallRect { left: 0, right: 4, top: 3, bottom: 0 }]
    );
    assert!(wall_collision_rects(&vec![]).is_empty());
}

#[test]
fn different_columns_do_not_merge() {
    let rows = vec![
        vec![Plate { left: 0, right: 2 }],
        vec![Plate { left: 0, right: 1 }],
        vec![Plate { left: 0, right: 1 }],
    ];
    assert_eq!(
        merge_wall_plates(&rows),
        vec![
            WallRect { left: 0, right: 2, top: 0, bottom: 0 },
            WallRect { left: 0, right: 1, top: 2, bottom: 1 },
        ]
    );
}
