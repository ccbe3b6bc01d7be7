use hadrone::grid::{compaction_from_name, handle_from_name, interaction_from_name};
use hadrone::{
    GridEngine, InteractionPhase, PointerEvent, lifecycle_phase,
    AspectRatio, BreakpointSpec, CollisionResolver, CollisionStrategy, CompactionType, Compactor,
    FreePlacementCompactor, InteractionSession, InteractionType, LayoutEngine, LayoutIssue,
    LayoutItem, LayoutSnapshot, NoopCollisionResolver, PushDownResolver, ResizeHandle,
    ResizeHandles, RisingTideCompactor, apply_aspect_and_clamp, aspect_prefers_width, collides,
    fit_and_compact, fit_to_columns, keyboard_cell_nudge, layout_engine, repair_layout, resize_handle_aria_label,
    responsive_breakpoint_index, scale_layout_cols, select_breakpoint, validate_layout,
};

fn item(id: &str, x: i32, y: i32, w: i32, h: i32) -> LayoutItem {
    LayoutItem {
        id: id.into(),
        x,
        y,
        w,
        h,
        ..Default::default()
    }
}

fn find<'a>(layout: &'a [LayoutItem], id: &str) -> &'a LayoutItem {
    layout.iter().find(|i| i.id == id).unwrap()
}

#[test]
fn aria_labels_name_edges_and_corners() {
    assert_eq!(resize_handle_aria_label(ResizeHandle::North), "Resize top edge");
    assert_eq!(resize_handle_aria_label(ResizeHandle::East), "Resize right edge");
    assert_eq!(resize_handle_aria_label(ResizeHandle::SouthWest), "Resize bottom-left corner");
    assert_eq!(resize_handle_aria_label(ResizeHandle::NorthEast), "Resize top-right corner");
}

#[test]
fn aspect_preference_by_handle() {
    assert!(aspect_prefers_width(ResizeHandle::East));
    assert!(aspect_prefers_width(ResizeHandle::West));
    assert!(aspect_prefers_width(ResizeHandle::SouthEast));
    assert!(!aspect_prefers_width(ResizeHandle::North));
    assert!(!aspect_prefers_width(ResizeHandle::SouthWest));
}

#[test]
fn default_item_is_one_cell_with_corner_handle() {
    let it = LayoutItem::default();
    assert_eq!((it.x, it.y, it.w, it.h), (0, 0, 1, 1));
    assert!(it.can_drag());
    assert!(it.can_resize());
    assert!(it.resize_handles.contains(ResizeHandle::SouthEast));
    assert!(!it.resize_handles.contains(ResizeHandle::North));
    assert_eq!(it.id, "");
}

#[test]
fn static_or_locked_items_refuse_interaction() {
    let mut it = item("s", 0, 0, 1, 1);
    it.is_static = true;
    assert!(!it.can_drag());
    assert!(!it.can_resize());
    let mut it = item("l", 0, 0, 1, 1);
    it.is_resizable = false;
    assert!(it.can_drag());
    assert!(!it.can_resize());
}

#[test]
fn handle_set_insert_and_contains() {
    let mut handles = ResizeHandles::empty();
    assert!(!handles.contains(ResizeHandle::West));
    handles.insert(ResizeHandle::West);
    handles.insert(ResizeHandle::North);
    assert!(handles.contains(ResizeHandle::West));
    assert!(handles.contains(ResizeHandle::North));
    assert!(!handles.contains(ResizeHandle::South));
}

#[test]
fn collision_is_symmetric_on_example() {
    let a = item("a", 0, 0, 3, 3);
    let b = item("b", 2, 2, 3, 3);
    assert_eq!(collides(&a, &b), collides(&b, &a));
    let c = item("a", 1, 1, 1, 1);
    assert!(!collides(&a, &c));
}

#[test]
fn push_down_chains_through_items() {
    let mut layout = vec![item("a", 0, 0, 2, 2), item("b", 0, 1, 2, 2), item("c", 0, 3, 2, 1)];
    PushDownResolver.resolve_collisions(&mut layout, "a");
    assert_eq!(find(&layout, "a").y, 0);
    assert_eq!(find(&layout, "b").y, 2);
    assert_eq!(find(&layout, "c").y, 4);
}

#[test]
fn push_down_leaves_static_items() {
    let mut s = item("s", 0, 1, 2, 2);
    s.is_static = true;
    let mut layout = vec![item("a", 0, 0, 2, 2), s];
    PushDownResolver.resolve_collisions(&mut layout, "a");
    assert_eq!(find(&layout, "s").y, 1);
    assert_eq!(find(&layout, "a").y, 0);
}

#[test]
fn push_down_of_missing_id_changes_nothing() {
    let mut layout = vec![item("a", 0, 0, 2, 2), item("b", 0, 1, 2, 2)];
    PushDownResolver.resolve_collisions(&mut layout, "zzz");
    assert_eq!(find(&layout, "b").y, 1);
}

#[test]
fn noop_resolver_keeps_overlaps() {
    let mut layout = vec![item("a", 0, 0, 2, 2), item("b", 0, 1, 2, 2)];
    NoopCollisionResolver.resolve_collisions(&mut layout, "a");
    assert_eq!(find(&layout, "b").y, 1);
    CollisionStrategy::Noop.resolve_collisions(&mut layout, "a");
    assert_eq!(find(&layout, "b").y, 1);
    CollisionStrategy::PushDown.resolve_collisions(&mut layout, "a");
    assert_eq!(find(&layout, "b").y, 2);
}

#[test]
fn free_placement_keeps_requested_rows() {
    let mut layout = vec![item("a", 0, 5, 1, 1), item("b", 3, 2, 1, 1)];
    FreePlacementCompactor.compact(&mut layout, 12);
    assert_eq!(find(&layout, "a").y, 5);
    assert_eq!(find(&layout, "b").y, 2);
    // reading order: b (row 2) before a (row 5)
    assert_eq!(layout[0].id, "b");
}

#[test]
fn gravity_lands_on_static_items() {
    let mut s = item("s", 0, 0, 2, 2);
    s.is_static = true;
    let mut layout = vec![s, item("m", 0, 5, 2, 1), item("n", 4, 7, 2, 1)];
    RisingTideCompactor.compact(&mut layout, 12);
    assert_eq!(find(&layout, "s").y, 0);
    assert_eq!(find(&layout, "m").y, 2);
    assert_eq!(find(&layout, "n").y, 0);
}

#[test]
fn gravity_returns_reading_order_and_is_stable() {
    let mut layout = vec![item("b", 0, 3, 1, 1), item("a", 0, 1, 1, 1), item("c", 0, 1, 1, 1)];
    RisingTideCompactor.compact(&mut layout, 4);
    let ids: Vec<&str> = layout.iter().map(|i| i.id.as_str()).collect();
    assert_eq!(ids, vec!["a", "c", "b"]);
    assert_eq!(layout[0].y, 0);
    assert_eq!(layout[1].y, 1);
    assert_eq!(layout[2].y, 2);
}

#[test]
fn gravity_twice_moves_nothing() {
    let mut layout = vec![
        item("a", 0, 4, 3, 2),
        item("b", 2, 0, 4, 1),
        item("c", 5, 7, 2, 3),
        item("d", 1, 9, 1, 1),
        item("e", 6, 2, 3, 2),
    ];
    RisingTideCompactor.compact(&mut layout, 12);
    let once = layout.clone();
    RisingTideCompactor.compact(&mut layout, 12);
    assert_eq!(layout, once);
    assert_eq!(find(&once, "b").y, 0);
    assert_eq!(find(&once, "e").y, 0);
    assert_eq!(find(&once, "a").y, 1);
    assert_eq!(find(&once, "c").y, 2);
    assert_eq!(find(&once, "d").y, 3);
}

#[test]
fn gravity_only_lifts_items_without_overlaps() {
    let mut layout = vec![
        item("a", 0, 6, 2, 2),
        item("b", 1, 2, 3, 1),
        item("c", 4, 9, 2, 2),
        item("d", 0, 11, 6, 1),
    ];
    let mut stuck = item("s", 3, 4, 2, 2);
    stuck.is_static = true;
    layout.push(stuck);
    let before = layout.clone();
    RisingTideCompactor.compact(&mut layout, 8);
    for placed in &layout {
        assert!(placed.y <= find(&before, &placed.id).y);
    }
    assert_eq!(find(&layout, "b").y, 0);
    assert_eq!(find(&layout, "s").y, 4);
    assert_eq!(find(&layout, "a").y, 1);
    assert_eq!(find(&layout, "c").y, 6);
    assert_eq!(find(&layout, "d").y, 8);
}

#[test]
fn accepts_layout_refuses_overflow_and_negative_columns() {
    let plain = vec![item("a", 0, 0, 2, 1), item("b", 0, 0, 2, 1)];
    assert!(CompactionType::Gravity.accepts_layout(&plain, 4));
    assert!(CompactionType::FreePlacement.accepts_layout(&plain, 4));
    assert!(!CompactionType::Gravity.accepts_layout(&plain, -1));
    assert!(CompactionType::FreePlacement.accepts_layout(&plain, -1));

    let tall = vec![item("a", 0, 0, 1, 1), item("b", 0, 5, 1, i32::MAX)];
    assert!(!CompactionType::Gravity.accepts_layout(&tall, 4));
    assert!(CompactionType::FreePlacement.accepts_layout(&tall, 4));

    let bottom = vec![item("a", 0, i32::MAX, 1, 1), item("b", 0, i32::MAX, 1, 1)];
    assert!(!CompactionType::FreePlacement.accepts_layout(&bottom, 4));
    let mut fixed = item("s", 0, i32::MAX, 1, 1);
    fixed.is_static = true;
    assert!(!CompactionType::Gravity.accepts_layout(&vec![fixed], 4));
}

#[test]
fn compaction_type_dispatches() {
    let mut layout = vec![item("a", 0, 5, 1, 1)];
    CompactionType::FreePlacement.compact(&mut layout, 12);
    assert_eq!(layout[0].y, 5);
    CompactionType::Gravity.compact(&mut layout, 12);
    assert_eq!(layout[0].y, 0);
    assert_eq!(CompactionType::default(), CompactionType::Gravity);
    assert_eq!(CollisionStrategy::default(), CollisionStrategy::PushDown);
}

#[test]
fn move_of_static_item_is_refused() {
    let engine = LayoutEngine::with_default_collision(RisingTideCompactor, 12);
    let mut s = item("s", 0, 4, 2, 1);
    s.is_static = true;
    let mut layout = vec![s];
    engine.move_element(&mut layout, "s", 5, 0);
    assert_eq!((layout[0].x, layout[0].y), (0, 4));
}

#[test]
fn move_pushes_overlapped_item_down() {
    let engine = layout_engine(CompactionType::FreePlacement, CollisionStrategy::PushDown, 12);
    let mut layout = vec![item("a", 0, 0, 2, 2), item("b", 4, 0, 2, 2)];
    engine.move_element(&mut layout, "b", 0, 0);
    assert_eq!((find(&layout, "b").x, find(&layout, "b").y), (0, 0));
    assert_eq!(find(&layout, "a").y, 2);
}

#[test]
fn move_clamps_negative_position() {
    let engine = LayoutEngine::new(RisingTideCompactor, NoopCollisionResolver, 12);
    let mut layout = vec![item("a", 3, 0, 2, 2)];
    engine.move_element(&mut layout, "a", -4, -9);
    assert_eq!((layout[0].x, layout[0].y), (0, 0));
}

#[test]
fn resize_applies_max_bounds_and_grid() {
    let engine = LayoutEngine::with_default_collision(FreePlacementCompactor, 6);
    let mut it = item("r", 0, 0, 2, 2);
    it.max_h = Some(3);
    let mut layout = vec![it];
    engine.resize_element(&mut layout, "r", 4, 0, 9, 8, Some(ResizeHandle::SouthEast));
    let r = find(&layout, "r");
    assert_eq!(r.w, 6);
    assert_eq!(r.h, 3);
    assert_eq!(r.x, 0);
}

#[test]
fn aspect_clamp_from_height_handle() {
    let mut it = item("a", 0, 0, 1, 3);
    it.aspect_ratio = Some(AspectRatio { width: 2, height: 1 });
    apply_aspect_and_clamp(&mut it, 4, Some(ResizeHandle::North));
    assert_eq!((it.w, it.h), (4, 3));
}

#[test]
fn aspect_clamp_rounds_half_away_from_zero() {
    let mut it = item("a", 0, 0, 1, 5);
    it.aspect_ratio = Some(AspectRatio { width: 2, height: 1 });
    apply_aspect_and_clamp(&mut it, 12, None);
    // width 1 gives height 0.5, rounded to 1; then width 2 and height 1.
    assert_eq!((it.w, it.h), (2, 1));
}

#[test]
fn aspect_ratio_with_zero_part_is_ignored() {
    let mut it = item("a", 9, -2, 5, 3);
    it.aspect_ratio = Some(AspectRatio { width: 0, height: 1 });
    apply_aspect_and_clamp(&mut it, 10, Some(ResizeHandle::East));
    assert_eq!((it.x, it.y, it.w, it.h), (5, 0, 5, 3));
}

#[test]
fn interaction_resize_from_west_edge() {
    let mut layout = vec![item("d", 2, 0, 4, 2)];
    let session = InteractionSession {
        id: "d".into(),
        interaction_type: InteractionType::Resize,
        start_rect: (2, 0, 4, 2),
        handle: ResizeHandle::West,
        compaction: CompactionType::Gravity,
        collision: CollisionStrategy::PushDown,
    };
    session.update((-1, 0), &mut layout, 12);
    let d = find(&layout, "d");
    assert_eq!((d.x, d.w), (1, 5));
}

#[test]
fn interaction_resize_from_north_west_corner() {
    let mut layout = vec![item("d", 2, 2, 4, 2)];
    let session = InteractionSession {
        id: "d".into(),
        interaction_type: InteractionType::Resize,
        start_rect: (2, 2, 4, 2),
        handle: ResizeHandle::NorthWest,
        compaction: CompactionType::FreePlacement,
        collision: CollisionStrategy::Noop,
    };
    session.update((1, -1), &mut layout, 12);
    let d = find(&layout, "d");
    assert_eq!((d.x, d.y, d.w, d.h), (3, 1, 3, 3));
}

#[test]
fn keyboard_nudge_moves_by_cells() {
    let mut layout = vec![item("a", 0, 0, 2, 1)];
    keyboard_cell_nudge(&mut layout, 12, CompactionType::FreePlacement, "a", 3, 2);
    assert_eq!((layout[0].x, layout[0].y), (3, 2));
    keyboard_cell_nudge(&mut layout, 12, CompactionType::Gravity, "a", 0, 1);
    assert_eq!((layout[0].x, layout[0].y), (3, 0));
}

#[test]
fn keyboard_nudge_ignores_static_and_missing() {
    let mut s = item("s", 1, 1, 1, 1);
    s.is_static = true;
    let mut layout = vec![s];
    keyboard_cell_nudge(&mut layout, 12, CompactionType::Gravity, "s", 1, 0);
    assert_eq!((layout[0].x, layout[0].y), (1, 1));
    keyboard_cell_nudge(&mut layout, 12, CompactionType::Gravity, "nope", 1, 0);
    assert_eq!((layout[0].x, layout[0].y), (1, 1));
}

#[test]
fn validate_accepts_a_clean_layout() {
    let layout = vec![item("a", 0, 0, 2, 2), item("b", 2, 0, 2, 2)];
    assert!(validate_layout(&layout, 4).is_ok());
}

#[test]
fn validate_reports_each_issue_kind() {
    let mut bounded = item("m", 4, 4, 5, 2);
    bounded.min_w = Some(6);
    bounded.max_h = Some(1);
    let layout = vec![item("n", -1, 0, 0, 1), bounded];
    let issues = validate_layout(&layout, 12).unwrap_err();
    assert_eq!(
        issues,
        vec![
            LayoutIssue::NonPositiveSize { id: "n".into(), w: 0, h: 1 },
            LayoutIssue::OutOfHorizontalBounds { id: "n".into(), x: -1, w: 0, cols: 12 },
            LayoutIssue::MinMaxWidth { id: "m".into(), w: 5, min_w: Some(6), max_w: None },
            LayoutIssue::MinMaxHeight { id: "m".into(), h: 2, min_h: None, max_h: Some(1) },
        ]
    );
}

#[test]
fn validate_reports_overlaps_and_second_duplicate() {
    let layout = vec![item("a", 0, 0, 2, 2), item("b", 1, 1, 2, 2), item("a", 8, 8, 1, 1)];
    let issues = validate_layout(&layout, 12).unwrap_err();
    assert_eq!(
        issues,
        vec![
            LayoutIssue::DuplicateId { id: "a".into() },
            LayoutIssue::Overlap { a: "a".into(), b: "b".into() },
        ]
    );
}

#[test]
fn repair_renames_duplicates_and_clamps() {
    let mut layout = vec![
        item("a", 11, 0, 4, 1),
        item("a", -3, 0, 20, 1),
        item("a", 0, 0, -2, 0),
        item("b", 0, 0, 1, 1),
    ];
    repair_layout(&mut layout, 12);
    assert_eq!(layout[0].id, "a");
    assert_eq!(layout[1].id, "a-1");
    assert_eq!(layout[2].id, "a-2");
    assert_eq!(layout[3].id, "b");
    assert_eq!((layout[0].x, layout[0].w), (8, 4));
    assert_eq!((layout[1].x, layout[1].w), (0, 12));
    assert_eq!((layout[2].w, layout[2].h), (1, 1));
    for it in &layout {
        assert!(it.x >= 0 && it.x + it.w <= 12);
    }
}

#[test]
fn repair_skips_suffixes_already_taken() {
    let mut layout = vec![item("a", 0, 0, 1, 1), item("a", 1, 0, 1, 1), item("a-1", 2, 0, 1, 1)];
    repair_layout(&mut layout, 12);
    assert_eq!(layout[0].id, "a");
    assert_eq!(layout[1].id, "a-2");
    assert_eq!(layout[2].id, "a-1");
}

#[test]
fn repair_gives_distinct_ids_when_a_later_copy_meets_a_given_id() {
    let mut layout = vec![item("a-1", 0, 0, 1, 1), item("a", 1, 0, 1, 1), item("a", 2, 0, 1, 1), item("a-1", 3, 0, 1, 1)];
    repair_layout(&mut layout, 12);
    let ids: Vec<&str> = layout.iter().map(|i| i.id.as_str()).collect();
    assert_eq!(ids, vec!["a-1", "a", "a-2", "a-1-1"]);
}

#[test]
fn aspect_clamp_without_ratio_applies_bounds() {
    let mut it = item("i", 0, 0, 1, 1);
    it.min_w = Some(3);
    it.max_h = Some(0);
    apply_aspect_and_clamp(&mut it, 12, None);
    assert_eq!((it.w, it.h), (3, 1));
    let mut wide = item("j", 5, 0, 9, 2);
    wide.max_w = Some(4);
    wide.min_h = Some(5);
    apply_aspect_and_clamp(&mut wide, 12, None);
    assert_eq!((wide.x, wide.w, wide.h), (5, 4, 5));
}

#[test]
fn free_placement_keeps_static_items_fixed() {
    let mut layout = vec![item("a", 0, 0, 4, 4), item("b", 0, 2, 2, 1)];
    let mut s = item("s", 1, 1, 2, 2);
    s.is_static = true;
    layout.push(s);
    FreePlacementCompactor.compact(&mut layout, 12);
    assert_eq!(find(&layout, "a").y, 0);
    assert_eq!(find(&layout, "s").y, 1);
    assert_eq!(find(&layout, "b").y, 4);
}

#[test]
fn repair_numbers_many_copies_in_decimal() {
    let mut layout: Vec<LayoutItem> = (0..12).map(|_| item("z", 0, 0, 1, 1)).collect();
    repair_layout(&mut layout, 12);
    assert_eq!(layout[10].id, "z-10");
    assert_eq!(layout[11].id, "z-11");
}

#[test]
fn repair_applies_min_width_then_grid() {
    let mut it = item("w", 5, 0, 2, 1);
    it.min_w = Some(9);
    let mut layout = vec![it];
    repair_layout(&mut layout, 8);
    assert_eq!((layout[0].x, layout[0].w), (0, 8));
}

fn bp(name: &str, min: i32, cols: i32) -> BreakpointSpec {
    BreakpointSpec { name: name.into(), min_width_px: min, cols }
}

#[test]
fn select_breakpoint_picks_largest_applicable() {
    let bps = vec![bp("sm", 0, 4), bp("md", 768, 8), bp("lg", 1200, 12)];
    assert_eq!(select_breakpoint(&bps, 800).unwrap().name, "md");
    assert_eq!(select_breakpoint(&bps, 1200).unwrap().name, "lg");
    assert_eq!(select_breakpoint(&bps, 10).unwrap().name, "sm");
    assert!(select_breakpoint(&bps, -5).is_none());
    assert!(select_breakpoint(&[], 500).is_none());
}

#[test]
fn select_breakpoint_prefers_last_of_equal_widths() {
    let bps = vec![bp("lg", 1200, 12), bp("a", 768, 8), bp("b", 768, 6)];
    assert_eq!(select_breakpoint(&bps, 900).unwrap().name, "b");
}

#[test]
fn responsive_index_follows_first_then_better() {
    assert_eq!(responsive_breakpoint_index(&[0, 768, 1200], 1000), 1);
    assert_eq!(responsive_breakpoint_index(&[0, 768, 1200], 5000), 2);
    assert_eq!(responsive_breakpoint_index(&[500, 0], 100), 0);
    assert_eq!(responsive_breakpoint_index(&[500], 100), 0);
}

#[test]
fn scale_keeps_layout_for_same_or_invalid_cols() {
    let items = vec![item("a", 3, 1, 5, 2)];
    assert_eq!(scale_layout_cols(&items, 12, 12), items);
    assert_eq!(scale_layout_cols(&items, 0, 12), items);
    assert_eq!(scale_layout_cols(&items, 12, -1), items);
}

#[test]
fn scale_rounds_halves_up_and_keeps_rows() {
    let items = vec![item("a", 1, 7, 3, 2), item("b", 11, 0, 12, 1)];
    let out = scale_layout_cols(&items, 12, 6);
    let a = find(&out, "a");
    assert_eq!((a.x, a.y, a.w, a.h), (1, 7, 2, 2));
    let b = find(&out, "b");
    assert_eq!((b.x, b.w), (0, 6));
    let out = scale_layout_cols(&items, 6, 12);
    assert_eq!((find(&out, "a").x, find(&out, "a").w), (2, 6));
}

#[test]
fn snapshot_uses_current_version() {
    let s = LayoutSnapshot::current(vec![item("a", 0, 0, 1, 1)], 12);
    assert_eq!(s.version, 1);
    assert_eq!(s.cols, 12);
    assert_eq!(s.items.len(), 1);
}

#[test]
fn names_parse_with_defaults() {
    assert_eq!(compaction_from_name("FreePlacement"), CompactionType::FreePlacement);
    assert_eq!(compaction_from_name("Gravity"), CompactionType::Gravity);
    assert_eq!(compaction_from_name("freeplacement"), CompactionType::Gravity);
    assert_eq!(interaction_from_name("Resize"), InteractionType::Resize);
    assert_eq!(interaction_from_name("Drag"), InteractionType::Drag);
    assert_eq!(interaction_from_name(""), InteractionType::Drag);
    assert_eq!(handle_from_name("NorthWest"), ResizeHandle::NorthWest);
    assert_eq!(handle_from_name("South"), ResizeHandle::South);
    assert_eq!(handle_from_name("Up"), ResizeHandle::SouthEast);
}

#[test]
fn grid_engine_interaction_flow() {
    let mut engine = GridEngine::new(12, "FreePlacement");
    assert_eq!(engine.compaction, CompactionType::FreePlacement);
    engine.set_layout(vec![item("a", 0, 3, 2, 1), item("b", 4, 0, 2, 2)]);
    assert_eq!(engine.layout[0].id, "b");
    assert!(engine.session.is_none());
    engine.start_interaction("a", "Drag", "SouthEast");
    let s = engine.session.as_ref().unwrap();
    assert_eq!(s.start_rect, (0, 3, 2, 1));
    assert_eq!(s.interaction_type, InteractionType::Drag);
    let preview = engine.preview((2, -3));
    assert_eq!((find(&preview, "a").x, find(&preview, "a").y), (2, 0));
    assert_eq!((find(&engine.layout, "a").x, find(&engine.layout, "a").y), (0, 3));
    engine.end_interaction((0, 1));
    assert!(engine.session.is_none());
    assert_eq!((find(&engine.layout, "a").x, find(&engine.layout, "a").y), (0, 4));
}

#[test]
fn grid_engine_ignores_unknown_item_and_defaults_to_gravity() {
    let mut engine = GridEngine::new(4, "whatever");
    assert_eq!(engine.compaction, CompactionType::Gravity);
    engine.set_layout(vec![item("a", 0, 3, 2, 1)]);
    assert_eq!(engine.layout[0].y, 0);
    engine.start_interaction("zzz", "Resize", "East");
    assert!(engine.session.is_none());
    let preview = engine.preview((1, 1));
    assert_eq!(preview, engine.layout);
    engine.end_interaction((1, 1));
    assert_eq!(engine.layout[0].y, 0);
}

#[test]
fn fit_to_columns_narrows_and_shifts_movable_items() {
    let mut layout = vec![item("a", 3, 0, 9, 1), item("b", -2, 1, 2, 1), item("c", 5, 2, 2, 1)];
    let mut s = item("s", 10, 5, 8, 1);
    s.is_static = true;
    layout.push(s);
    fit_to_columns(&mut layout, 6);
    assert_eq!((layout[0].x, layout[0].w), (0, 6));
    assert_eq!((layout[1].x, layout[1].w), (0, 2));
    assert_eq!((layout[2].x, layout[2].w), (4, 2));
    assert_eq!((layout[3].x, layout[3].w), (10, 8));
}

#[test]
fn fit_and_compact_then_gravity() {
    let mut layout = vec![item("a", 3, 4, 9, 1), item("b", 0, 9, 2, 1)];
    fit_and_compact(&mut layout, 6, CompactionType::Gravity);
    assert_eq!(find(&layout, "a").y, 0);
    assert_eq!(find(&layout, "b").y, 1);
    assert_eq!(find(&layout, "a").w, 6);
}

#[test]
fn scaling_up_by_a_whole_factor_and_back_restores_items() {
    let items = vec![item("a", 0, 0, 2, 1), item("b", 2, 3, 1, 2), item("c", 3, 1, 1, 1)];
    let up = scale_layout_cols(&items, 4, 12);
    assert_eq!((up[1].x, up[1].w), (6, 3));
    let back = scale_layout_cols(&up, 12, 4);
    assert_eq!(back, items);
}

#[test]
fn repairing_twice_changes_nothing_more() {
    let mut layout = vec![item("a", 11, 0, 4, 1), item("a", -3, 0, 20, 0), item("a-1", 0, 0, 1, 1)];
    layout[0].max_w = Some(3);
    repair_layout(&mut layout, 12);
    let once = layout.clone();
    repair_layout(&mut layout, 12);
    assert_eq!(layout, once);
}

#[test]
fn gravity_keeps_movable_items_apart_beside_static_ones() {
    let mut s = item("s", 1, 0, 2, 2);
    s.is_static = true;
    let mut layout = vec![item("a", 0, 0, 4, 1), s, item("b", 0, 3, 4, 2), item("c", 2, 3, 1, 1)];
    RisingTideCompactor.compact(&mut layout, 6);
    for i in 0..layout.len() {
        for j in (i + 1)..layout.len() {
            if !layout[i].is_static && !layout[j].is_static {
                assert!(!collides(&layout[i], &layout[j]));
            }
        }
    }
    assert_eq!(find(&layout, "s").y, 0);
}

#[test]
fn push_down_only_moves_items_down() {
    let mut layout = vec![item("m", 0, 2, 3, 2), item("p", 1, 3, 1, 1), item("q", 1, 4, 2, 2), item("r", 5, 0, 1, 1)];
    let before = layout.clone();
    PushDownResolver.resolve_collisions(&mut layout, "m");
    for (b, a) in before.iter().zip(layout.iter()) {
        assert!(a.y >= b.y);
    }
    assert_eq!(find(&layout, "p").y, 4);
    assert_eq!(find(&layout, "q").y, 5);
    assert_eq!(find(&layout, "r").y, 0);
}

#[test]
fn gravity_rests_movable_items_on_static_ones() {
    let mut s = item("s", 1, 3, 3, 2);
    s.is_static = true;
    let mut layout = vec![s, item("a", 0, 9, 2, 1), item("b", 3, 8, 1, 2)];
    RisingTideCompactor.compact(&mut layout, 6);
    assert_eq!(find(&layout, "s").y, 3);
    assert_eq!(find(&layout, "b").y, 5);
    assert_eq!(find(&layout, "a").y, 5);
}

#[test]
fn can_resolve_tests_ids_heights_and_room() {
    let sound = vec![item("a", 0, 0, 2, 2), item("b", 0, 1, 2, 1)];
    assert!(PushDownResolver.can_resolve(&sound, "a"));
    let twice = vec![item("a", 0, 0, 2, 2), item("a", 0, 1, 2, 1)];
    assert!(!PushDownResolver.can_resolve(&twice, "a"));
    let flat = vec![item("a", 0, 0, 2, 2), item("b", 0, 1, 2, 0)];
    assert!(!PushDownResolver.can_resolve(&flat, "a"));
    let low = vec![item("a", 0, i32::MAX - 2, 2, 2), item("b", 0, 1, 2, 1)];
    assert!(!PushDownResolver.can_resolve(&low, "a"));
    assert!(NoopCollisionResolver.can_resolve(&twice, "a"));
    assert!(CollisionStrategy::Noop.can_resolve(&twice, "a"));
}

#[test]
fn try_move_moves_or_leaves_the_layout() {
    let engine = LayoutEngine::with_default_collision(RisingTideCompactor, 12);
    let mut layout = vec![item("a", 0, 0, 2, 2), item("b", 4, 0, 2, 2)];
    assert!(engine.try_move_element(&mut layout, "a", 4, 0));
    assert_eq!((find(&layout, "a").x, find(&layout, "a").y), (4, 0));
    assert_eq!(find(&layout, "b").y, 2);
    let mut dup = vec![item("a", 0, 0, 2, 2), item("a", 4, 0, 2, 2)];
    let before = dup.clone();
    assert!(!engine.try_move_element(&mut dup, "a", 4, 0));
    assert_eq!(dup, before);
    assert!(engine.try_move_element(&mut dup, "missing", 1, 1));
    assert_eq!(dup, before);
}

#[test]
fn try_resize_resizes_or_leaves_the_layout() {
    let engine = LayoutEngine::with_default_collision(FreePlacementCompactor, 12);
    let mut layout = vec![item("a", 0, 0, 2, 2), item("b", 0, 3, 2, 2)];
    assert!(engine.try_resize_element(&mut layout, "a", 0, 0, 3, 4, None));
    assert_eq!((find(&layout, "a").w, find(&layout, "a").h), (3, 4));
    assert_eq!(find(&layout, "b").y, 4);
    let mut flat = vec![item("a", 0, 0, 2, 2), item("b", 0, 3, 2, 0)];
    let before = flat.clone();
    assert!(!engine.try_resize_element(&mut flat, "a", 0, 0, 3, 4, None));
    assert_eq!(flat, before);
}

#[test]
fn try_update_and_grid_engine_checked_flow() {
    let mut engine = GridEngine::new(12, "FreePlacement");
    engine.set_layout(vec![item("a", 0, 3, 2, 1), item("b", 4, 0, 2, 2)]);
    engine.start_interaction("a", "Drag", "SouthEast");
    let preview = engine.try_preview((2, -3)).unwrap();
    assert_eq!((find(&preview, "a").x, find(&preview, "a").y), (2, 0));
    let s = engine.session.as_ref().unwrap();
    let mut copy = engine.layout.clone();
    assert!(s.try_update((2, -3), &mut copy, 12));
    assert_eq!(copy, preview);
    assert!(s.try_update((0, i32::MAX), &mut copy, 12) == false);
    assert_eq!(copy, preview);
    assert!(engine.try_end_interaction((0, 1)));
    assert!(engine.session.is_none());
    assert_eq!((find(&engine.layout, "a").x, find(&engine.layout, "a").y), (0, 4));

    let mut dup = GridEngine::new(12, "Gravity");
    dup.set_layout(vec![item("a", 0, 0, 2, 1), item("a", 4, 0, 2, 1)]);
    dup.start_interaction("a", "Drag", "SouthEast");
    assert!(dup.try_preview((1, 0)).is_none());
    let before = dup.layout.clone();
    assert!(!dup.try_end_interaction((1, 0)));
    assert!(dup.session.is_some());
    assert_eq!(dup.layout, before);
}

#[test]
fn lifecycle_phases_follow_pointer_events() {
    assert_eq!(lifecycle_phase(false, PointerEvent::Down, false), (Some(InteractionPhase::Start), true));
    assert_eq!(lifecycle_phase(true, PointerEvent::Move, true), (Some(InteractionPhase::Update), true));
    assert_eq!(lifecycle_phase(true, PointerEvent::Move, false), (None, true));
    assert_eq!(lifecycle_phase(false, PointerEvent::Move, true), (None, false));
    assert_eq!(lifecycle_phase(true, PointerEvent::Up, false), (Some(InteractionPhase::Stop), false));
    assert_eq!(lifecycle_phase(true, PointerEvent::Leave, false), (Some(InteractionPhase::Cancel), false));
    assert_eq!(lifecycle_phase(true, PointerEvent::Cancel, true), (Some(InteractionPhase::Cancel), false));
    assert_eq!(lifecycle_phase(false, PointerEvent::Up, true), (None, false));
}
