use hadrone::{
    AspectRatio, CollisionStrategy, CompactionType, Compactor, FreePlacementCompactor,
    InteractionSession, InteractionType, LayoutEngine, LayoutIssue, LayoutItem, ResizeHandle,
    ResizeHandles, RisingTideCompactor, collides, scale_layout_cols, validate_layout,
};

fn item(id: &str, x: i32, y: i32, w: i32, h: i32) -> LayoutItem {
    LayoutItem {
        id: id.into(),
        x,
        y,
        w,
        h,
        ..Default::default()
    }
}

fn south_east_only() -> ResizeHandles {
    let mut handles = ResizeHandles::empty();
    handles.insert(ResizeHandle::SouthEast);
    handles
}

#[test]
fn collides_false_for_same_id() {
    let a = item("a", 0, 0, 2, 2);
    assert!(!collides(&a, &a));
}

#[test]
fn collides_true_when_overlapping() {
    let a = item("a", 0, 0, 2, 2);
    let b = item("b", 1, 1, 2, 2);
    assert!(collides(&a, &b));
}

#[test]
fn collides_false_when_adjacent() {
    let a = item("a", 0, 0, 2, 2);
    let b = item("b", 2, 0, 2, 2);
    assert!(!collides(&a, &b));
}

#[test]
fn rising_tide_stacks_vertically() {
    let mut layout = vec![item("a", 0, 5, 4, 2), item("b", 0, 0, 4, 2)];
    RisingTideCompactor.compact(&mut layout, 12);
    let a = layout.iter().find(|i| i.id == "a").unwrap();
    let b = layout.iter().find(|i| i.id == "b").unwrap();
    assert_eq!(b.y, 0);
    assert_eq!(a.y, 2);
    assert!(!collides(a, b));
}

#[test]
fn free_placement_pushes_second_item_down() {
    let mut layout = vec![item("a", 0, 0, 4, 4), item("b", 1, 1, 2, 2)];
    FreePlacementCompactor.compact(&mut layout, 12);
    let b = layout.iter().find(|i| i.id == "b").unwrap();
    assert_eq!(b.y, 4);
}

#[test]
fn move_element_clamps_to_grid_width() {
    let engine = LayoutEngine::with_default_collision(RisingTideCompactor, 6);
    let mut layout = vec![item("w", 0, 0, 4, 1)];
    engine.move_element(&mut layout, "w", 10, 0);
    let w = layout.iter().find(|i| i.id == "w").unwrap();
    assert_eq!(w.x, 2);
}

#[test]
fn static_item_does_not_move_in_compactor() {
    let mut layout = vec![LayoutItem {
        id: "s".into(),
        x: 0,
        y: 3,
        w: 2,
        h: 1,
        is_static: true,
        ..Default::default()
    }];
    RisingTideCompactor.compact(&mut layout, 12);
    assert_eq!(layout[0].y, 3);
}

#[test]
fn resize_element_applies_min_width() {
    let engine = LayoutEngine::with_default_collision(RisingTideCompactor, 12);
    let mut layout = vec![LayoutItem {
        id: "x".into(),
        x: 0,
        y: 0,
        w: 4,
        h: 2,
        min_w: Some(3),
        resize_handles: south_east_only(),
        ..Default::default()
    }];
    engine.resize_element(&mut layout, "x", 0, 0, 1, 2, Some(ResizeHandle::East));
    let x = layout.iter().find(|i| i.id == "x").unwrap();
    assert_eq!(x.w, 3);
}

#[test]
fn interaction_drag_updates_position() {
    let mut layout = vec![LayoutItem {
        id: "d".into(),
        x: 0,
        y: 0,
        w: 2,
        h: 2,
        resize_handles: south_east_only(),
        ..Default::default()
    }];
    let session = InteractionSession {
        id: "d".into(),
        interaction_type: InteractionType::Drag,
        start_rect: (0, 0, 2, 2),
        handle: ResizeHandle::SouthEast,
        compaction: CompactionType::Gravity,
        collision: CollisionStrategy::PushDown,
    };
    // Pointer moved from (0, 0) to (200, 0) px with 100 px columns and
    // 50 px rows plus a 10 px vertical margin.
    let col_width_px = 100.0f32;
    let row_pitch_px = 50.0f32 + 10.0f32;
    let grid_dx = ((200.0f32 - 0.0) / col_width_px).round() as i32;
    let grid_dy = ((0.0f32 - 0.0) / row_pitch_px).round() as i32;
    session.update((grid_dx, grid_dy), &mut layout, 12);
    let d = layout.iter().find(|i| i.id == "d").unwrap();
    assert_eq!(d.x, 2);
    assert_eq!(d.y, 0);
}

#[test]
fn scale_layout_cols_halves_positions() {
    let items = vec![item("a", 4, 1, 4, 2)];
    let out = scale_layout_cols(&items, 12, 6);
    let a = out.iter().find(|i| i.id == "a").unwrap();
    assert_eq!(a.x, 2);
    assert_eq!(a.w, 2);
}

#[test]
fn aspect_ratio_enforced_on_resize() {
    let engine = LayoutEngine::with_default_collision(RisingTideCompactor, 12);
    let mut layout = vec![LayoutItem {
        id: "ar".into(),
        x: 0,
        y: 0,
        w: 4,
        h: 2,
        aspect_ratio: Some(AspectRatio { width: 2, height: 1 }),
        ..Default::default()
    }];
    engine.resize_element(&mut layout, "ar", 0, 0, 2, 2, Some(ResizeHandle::East));
    let it = layout.iter().find(|i| i.id == "ar").unwrap();
    assert_eq!(it.w, 2);
    assert_eq!(it.h, 1);
}

#[test]
fn validate_layout_detects_duplicate_ids() {
    let layout = vec![
        item("dup", 0, 0, 2, 2),
        LayoutItem {
            id: "dup".into(),
            x: 2,
            y: 0,
            w: 2,
            h: 2,
            ..Default::default()
        },
    ];
    let err = validate_layout(&layout, 12).unwrap_err();
    assert!(err.iter().any(|e| matches!(e, LayoutIssue::DuplicateId { .. })));
}

#[test]
fn pushdown_then_no_overlaps_gravity() {
    let mut layout = vec![
        LayoutItem {
            id: "a".into(),
            x: 0,
            y: 5,
            w: 3,
            h: 2,
            ..Default::default()
        },
        LayoutItem {
            id: "b".into(),
            x: 0,
            y: 0,
            w: 3,
            h: 2,
            ..Default::default()
        },
    ];
    let engine = LayoutEngine::with_default_collision(RisingTideCompactor, 12);
    engine.compact(&mut layout);
    for i in 0..layout.len() {
        for j in (i + 1)..layout.len() {
            assert!(!collides(&layout[i], &layout[j]));
        }
    }
}

#[test]
fn noop_collision_freeplacement_compact_clears_overlap() {
    let mut layout = vec![
        LayoutItem {
            id: "a".into(),
            x: 0,
            y: 0,
            w: 4,
            h: 2,
            ..Default::default()
        },
        LayoutItem {
            id: "b".into(),
            x: 1,
            y: 0,
            w: 2,
            h: 2,
            ..Default::default()
        },
    ];
    let engine = LayoutEngine::new(FreePlacementCompactor, CollisionStrategy::Noop, 12);
    engine.move_element(&mut layout, "b", 1, 0);
    let engine2 = LayoutEngine::with_default_collision(FreePlacementCompactor, 12);
    engine2.compact(&mut layout);
    for i in 0..layout.len() {
        for j in (i + 1)..layout.len() {
            assert!(!collides(&layout[i], &layout[j]));
        }
    }
}
