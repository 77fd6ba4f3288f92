use pushrod::layout_manager::{
    checked_layout, LayoutError, LayoutManager, LayoutManagerCoordinates, LayoutManagerPadding,
};
use pushrod::point::{contains_point, Point, Size};
use pushrod::vertical_layout_manager::VerticalLayoutManager;

fn padding(top: i32, bottom: i32, left: i32, right: i32, spacing: i32) -> LayoutManagerPadding {
    LayoutManagerPadding { top, bottom, left, right, spacing }
}

fn children(ids: &[i32]) -> LayoutManagerCoordinates {
    LayoutManagerCoordinates {
        widget_origins: vec![],
        widget_sizes: ids.iter().map(|_| Size { w: 20, h: 20 }).collect(),
        widget_positions: ids.to_vec(),
    }
}

fn layout(
    manager: &VerticalLayoutManager,
    origin: Point,
    size: Size,
    coordinates: LayoutManagerCoordinates,
) -> Result<LayoutManagerCoordinates, LayoutError> {
    assert!(manager.fits(origin, size, &coordinates));
    manager.do_layout(origin, size, coordinates)
}

#[test]
fn two_children_in_a_padded_container() {
    let manager = VerticalLayoutManager::new(7, padding(10, 10, 5, 5, 4));
    let laid_out = layout(
        &manager,
        Point { x: 0, y: 0 },
        Size { w: 400, h: 100 },
        children(&[1, 2]),
    )
    .unwrap();
    assert_eq!(laid_out.widget_origins, vec![Point { x: 5, y: 10 }, Point { x: 5, y: 60 }]);
    assert_eq!(laid_out.widget_sizes, vec![Size { w: 390, h: 46 }, Size { w: 390, h: 38 }]);
    assert_eq!(laid_out.widget_positions, vec![1, 2]);
}

#[test]
fn manager_reports_its_container() {
    let manager = VerticalLayoutManager::new(42, padding(0, 0, 0, 0, 0));
    assert_eq!(manager.get_widget_id(), 42);
}

#[test]
fn single_child_is_the_last_child() {
    let manager = VerticalLayoutManager::new(1, padding(3, 7, 2, 4, 6));
    let laid_out = layout(
        &manager,
        Point { x: 100, y: 200 },
        Size { w: 50, h: 40 },
        children(&[9]),
    )
    .unwrap();
    // budget 40 / 1 - 6 / 2 = 37; the only child is the last: 37 - 7 = 30
    assert_eq!(laid_out.widget_origins, vec![Point { x: 102, y: 203 }]);
    assert_eq!(laid_out.widget_sizes, vec![Size { w: 44, h: 30 }]);
}

#[test]
fn odd_spacing_and_uneven_height_round_toward_zero() {
    let manager = VerticalLayoutManager::new(1, padding(0, 1, 0, 0, 5));
    let laid_out = layout(
        &manager,
        Point { x: 0, y: 0 },
        Size { w: 10, h: 100 },
        children(&[1, 2, 3]),
    )
    .unwrap();
    // 100 / 3 = 33 and 5 / 2 = 2: budget 31, step 33, inner height 29, last 30
    assert_eq!(
        laid_out.widget_origins,
        vec![Point { x: 0, y: 0 }, Point { x: 0, y: 33 }, Point { x: 0, y: 66 }]
    );
    assert_eq!(
        laid_out.widget_sizes,
        vec![Size { w: 10, h: 29 }, Size { w: 10, h: 29 }, Size { w: 10, h: 30 }]
    );
}

#[test]
fn widget_ids_pass_through_in_order() {
    let manager = VerticalLayoutManager::new(1, padding(1, 1, 1, 1, 2));
    let ids = [5, 3, 8, 3, -2];
    let laid_out = layout(
        &manager,
        Point { x: 0, y: 0 },
        Size { w: 100, h: 500 },
        children(&ids),
    )
    .unwrap();
    assert_eq!(laid_out.widget_positions, ids.to_vec());
    assert_eq!(laid_out.widget_origins.len(), 5);
    assert_eq!(laid_out.widget_sizes.len(), 5);
}

#[test]
fn layout_is_repeatable() {
    let mut manager = VerticalLayoutManager::new(1, padding(4, 6, 2, 2, 8));
    let origin = Point { x: 11, y: -7 };
    let size = Size { w: 321, h: 457 };
    let first = layout(&manager, origin, size, children(&[1, 2, 3, 4])).unwrap();
    let second = layout(&manager, origin, size, children(&[1, 2, 3, 4])).unwrap();
    assert_eq!(first.widget_origins, second.widget_origins);
    assert_eq!(first.widget_sizes, second.widget_sizes);
    assert_eq!(first.widget_positions, second.widget_positions);
    // the same padding in another manager gives the same, too
    let other = VerticalLayoutManager::new(99, padding(4, 6, 2, 2, 8));
    let third = layout(&other, origin, size, children(&[1, 2, 3, 4])).unwrap();
    assert_eq!(first.widget_origins, third.widget_origins);
    assert_eq!(first.widget_sizes, third.widget_sizes);
    // and setting the same padding again changes nothing
    manager.adjust_layout(padding(4, 6, 2, 2, 8));
    let fourth = layout(&manager, origin, size, children(&[1, 2, 3, 4])).unwrap();
    assert_eq!(first.widget_origins, fourth.widget_origins);
    assert_eq!(first.widget_sizes, fourth.widget_sizes);
}

#[test]
fn children_tile_the_container() {
    // top padding of half the spacing: the heights, the gaps and the
    // paddings cover the height up to the remainder of 103 / 4
    let pad = padding(3, 5, 7, 9, 6);
    let manager = VerticalLayoutManager::new(1, pad);
    let origin = Point { x: 20, y: 30 };
    let size = Size { w: 200, h: 103 };
    let laid_out = layout(&manager, origin, size, children(&[1, 2, 3, 4])).unwrap();
    let n = laid_out.widget_sizes.len() as i32;
    let heights: i32 = laid_out.widget_sizes.iter().map(|s| s.h).sum();
    let gap = 2 * (pad.spacing / 2);
    let used = heights + (n - 1) * gap + pad.top + pad.bottom;
    assert_eq!(size.h - used, 103 % 4);
    assert!(size.h - used <= n - 1);
    for i in 0..laid_out.widget_sizes.len() {
        assert_eq!(laid_out.widget_origins[i].x, origin.x + pad.left);
        assert_eq!(pad.left + laid_out.widget_sizes[i].w + pad.right, size.w);
        if i > 0 {
            assert_eq!(
                laid_out.widget_origins[i].y,
                laid_out.widget_origins[i - 1].y + laid_out.widget_sizes[i - 1].h + gap
            );
        }
    }
    assert_eq!(laid_out.widget_origins[0].y, origin.y + pad.top);
}

#[test]
fn tiling_residue_follows_the_top_padding() {
    // with a top padding other than half the spacing the shortfall is the
    // remainder plus the halved spacing less the top padding
    let pad = padding(10, 10, 5, 5, 4);
    let manager = VerticalLayoutManager::new(1, pad);
    let size = Size { w: 400, h: 100 };
    let laid_out = layout(&manager, Point { x: 0, y: 0 }, size, children(&[1, 2])).unwrap();
    let heights: i32 = laid_out.widget_sizes.iter().map(|s| s.h).sum();
    let used = heights + 4 + pad.top + pad.bottom;
    assert_eq!(size.h - used, 100 % 2 + 2 - 10);
}

#[test]
fn no_children_is_invalid_input() {
    let manager = VerticalLayoutManager::new(1, padding(0, 0, 0, 0, 0));
    let result = layout(&manager, Point { x: 0, y: 0 }, Size { w: 10, h: 10 }, children(&[]));
    assert_eq!(result.err(), Some(LayoutError::InvalidLayoutInput));
}

#[test]
fn mismatched_lengths_are_invalid_input() {
    let manager = VerticalLayoutManager::new(1, padding(0, 0, 0, 0, 0));
    let coordinates = LayoutManagerCoordinates {
        widget_origins: vec![],
        widget_sizes: vec![Size { w: 1, h: 1 }, Size { w: 1, h: 1 }],
        widget_positions: vec![1],
    };
    let result = layout(&manager, Point { x: 0, y: 0 }, Size { w: 10, h: 10 }, coordinates);
    assert_eq!(result.err(), Some(LayoutError::InvalidLayoutInput));
}

#[test]
fn side_padding_wider_than_the_container_is_negative_geometry() {
    let manager = VerticalLayoutManager::new(1, padding(0, 0, 6, 5, 0));
    let result = layout(&manager, Point { x: 0, y: 0 }, Size { w: 10, h: 10 }, children(&[1]));
    assert_eq!(result.err(), Some(LayoutError::NegativeGeometry));
}

#[test]
fn bottom_padding_taller_than_the_budget_is_negative_geometry() {
    let manager = VerticalLayoutManager::new(1, padding(0, 6, 0, 0, 0));
    let result =
        layout(&manager, Point { x: 0, y: 0 }, Size { w: 10, h: 10 }, children(&[1, 2]));
    assert_eq!(result.err(), Some(LayoutError::NegativeGeometry));
}

#[test]
fn spacing_larger_than_the_share_is_negative_geometry() {
    // share 5, halved spacing 3: an inner child would be 5 - 3 - 3 high
    let manager = VerticalLayoutManager::new(1, padding(0, 0, 0, 0, 6));
    let result =
        layout(&manager, Point { x: 0, y: 0 }, Size { w: 10, h: 10 }, children(&[1, 2]));
    assert_eq!(result.err(), Some(LayoutError::NegativeGeometry));
    // a single child has no inner child: 10 - 3 - 0 is fine
    let result = layout(&manager, Point { x: 0, y: 0 }, Size { w: 10, h: 10 }, children(&[1]));
    assert_eq!(result.unwrap().widget_sizes, vec![Size { w: 10, h: 7 }]);
}

#[test]
fn exact_fit_gives_zero_sizes() {
    let manager = VerticalLayoutManager::new(1, padding(0, 5, 5, 5, 0));
    let laid_out =
        layout(&manager, Point { x: 0, y: 0 }, Size { w: 10, h: 5 }, children(&[1])).unwrap();
    assert_eq!(laid_out.widget_sizes, vec![Size { w: 0, h: 0 }]);
}

#[test]
fn negative_height_truncates_toward_zero() {
    // -1 / 2 truncates to 0, so both children are 0 high
    let manager = VerticalLayoutManager::new(1, padding(0, 0, 0, 0, 0));
    let laid_out =
        layout(&manager, Point { x: 0, y: 0 }, Size { w: 10, h: -1 }, children(&[1, 2])).unwrap();
    assert_eq!(laid_out.widget_sizes, vec![Size { w: 10, h: 0 }, Size { w: 10, h: 0 }]);
    // -2 / 2 is -1: negative geometry
    let result =
        layout(&manager, Point { x: 0, y: 0 }, Size { w: 10, h: -2 }, children(&[1, 2]));
    assert_eq!(result.err(), Some(LayoutError::NegativeGeometry));
}

#[test]
fn adjust_layout_takes_effect_on_the_next_pass() {
    let mut manager = VerticalLayoutManager::new(3, padding(0, 0, 0, 0, 0));
    let origin = Point { x: 0, y: 0 };
    let size = Size { w: 100, h: 100 };
    let before = layout(&manager, origin, size, children(&[1, 2])).unwrap();
    assert_eq!(before.widget_sizes, vec![Size { w: 100, h: 50 }, Size { w: 100, h: 50 }]);
    manager.adjust_layout(padding(1, 2, 3, 4, 10));
    assert_eq!(manager.get_widget_id(), 3);
    let after = layout(&manager, origin, size, children(&[1, 2])).unwrap();
    assert_eq!(after.widget_origins, vec![Point { x: 3, y: 1 }, Point { x: 3, y: 51 }]);
    assert_eq!(after.widget_sizes, vec![Size { w: 93, h: 40 }, Size { w: 93, h: 43 }]);
}

#[test]
fn fits_tells_when_the_result_is_representable() {
    let manager = VerticalLayoutManager::new(1, padding(10, 0, 10, 0, 0));
    let size = Size { w: 100, h: 100 };
    // x = i32::MAX - 5 + 10 does not fit
    assert!(!manager.fits(Point { x: i32::MAX - 5, y: 0 }, size, &children(&[1, 2])));
    // the last child would start at i32::MAX - 55 + 10 + 50
    assert!(!manager.fits(Point { x: 0, y: i32::MAX - 55 }, size, &children(&[1, 2])));
    assert!(manager.fits(Point { x: 0, y: i32::MAX - 60 }, size, &children(&[1, 2])));
    let laid_out = manager
        .do_layout(Point { x: 0, y: i32::MAX - 60 }, size, children(&[1, 2]))
        .unwrap();
    assert_eq!(laid_out.widget_origins[1], Point { x: 10, y: i32::MAX });
    // a pass that fails anyway fits
    assert!(manager.fits(Point { x: i32::MAX, y: i32::MAX }, size, &children(&[])));
    assert!(manager.fits(
        Point { x: i32::MAX, y: i32::MAX },
        Size { w: 5, h: 100 },
        &children(&[1])
    ));
}

#[test]
fn padding_validity() {
    assert!(padding(0, 0, 0, 0, 0).check_valid());
    assert!(padding(1, 2, 3, 4, 5).check_valid());
    assert!(!padding(-1, 0, 0, 0, 0).check_valid());
    assert!(!padding(0, -1, 0, 0, 0).check_valid());
    assert!(!padding(0, 0, -1, 0, 0).check_valid());
    assert!(!padding(0, 0, 0, -1, 0).check_valid());
    assert!(!padding(0, 0, 0, 0, -1).check_valid());
}

#[test]
fn rectangles_are_half_open() {
    let origin = Point { x: 10, y: 20 };
    let size = Size { w: 5, h: 3 };
    assert!(contains_point(origin, size, Point { x: 10, y: 20 }));
    assert!(contains_point(origin, size, Point { x: 14, y: 22 }));
    assert!(!contains_point(origin, size, Point { x: 15, y: 22 }));
    assert!(!contains_point(origin, size, Point { x: 14, y: 23 }));
    assert!(!contains_point(origin, size, Point { x: 9, y: 20 }));
    assert!(!contains_point(origin, size, Point { x: 10, y: 19 }));
    assert!(!contains_point(origin, Size { w: 0, h: 3 }, Point { x: 10, y: 20 }));
    assert!(!contains_point(origin, Size { w: -5, h: 3 }, Point { x: 8, y: 20 }));
    assert!(contains_point(
        Point { x: i32::MAX - 1, y: 0 },
        Size { w: i32::MAX, h: 1 },
        Point { x: i32::MAX, y: 0 }
    ));
}

#[test]
fn checked_layout_lays_out_only_what_fits() {
    let manager = VerticalLayoutManager::new(1, padding(10, 0, 10, 0, 0));
    let size = Size { w: 100, h: 100 };
    assert!(checked_layout(&manager, Point { x: i32::MAX - 5, y: 0 }, size, children(&[1, 2]))
        .is_none());
    assert!(checked_layout(&manager, Point { x: 0, y: i32::MAX - 55 }, size, children(&[1, 2]))
        .is_none());
    let laid_out = checked_layout(&manager, Point { x: 1, y: 2 }, size, children(&[1, 2]))
        .unwrap()
        .unwrap();
    assert_eq!(laid_out.widget_origins, vec![Point { x: 11, y: 12 }, Point { x: 11, y: 62 }]);
    assert_eq!(laid_out.widget_sizes, vec![Size { w: 90, h: 50 }, Size { w: 90, h: 50 }]);
    let failed = checked_layout(&manager, Point { x: 1, y: 2 }, size, children(&[])).unwrap();
    assert_eq!(failed.err(), Some(LayoutError::InvalidLayoutInput));
    let failed =
        checked_layout(&manager, Point { x: 1, y: 2 }, Size { w: 9, h: 100 }, children(&[1]))
            .unwrap();
    assert_eq!(failed.err(), Some(LayoutError::NegativeGeometry));
}
