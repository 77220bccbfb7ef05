use forgexalith::abcde::Priority;
use forgexalith::canvas::{topmost_hit, Canvas, CanvasError, CanvasItem, ItemContent, ItemId};

/// An axis-aligned bounding box, as the application draws items.
#[derive(Debug, Clone, Copy)]
struct Rect {
    x: f64,
    y: f64,
    width: f64,
    height: f64,
}

/// Viewport transform: pan offset + zoom level.
#[derive(Debug, Clone, Copy)]
struct Viewport {
    pan_x: f64,
    pan_y: f64,
    zoom: f64,
}

impl Default for Viewport {
    fn default() -> Self {
        Self { pan_x: 0.0, pan_y: 0.0, zoom: 1.0 }
    }
}

/// Create a test label item with a given ID.
fn create_test_label(id: ItemId, text: &str) -> CanvasItem<Rect> {
    CanvasItem {
        id,
        bounds: Rect { x: 10.0, y: 20.0, width: 100.0, height: 50.0 },
        content: ItemContent::Label { text: text.to_string() },
        z_index: 1,
    }
}

/// Create a test task item with a given ID.
fn create_test_task(id: ItemId, title: &str, priority: Priority) -> CanvasItem<Rect> {
    CanvasItem {
        id,
        bounds: Rect { x: 50.0, y: 60.0, width: 200.0, height: 80.0 },
        content: ItemContent::Task { title: title.to_string(), priority, done: false },
        z_index: 2,
    }
}

#[test]
fn canvas_upsert_inserts_new_item() {
    let mut canvas: Canvas<Rect, Viewport> = Canvas::new();
    let item_id = ItemId::new();
    let item = create_test_label(item_id, "Test Label");

    canvas.upsert(item.clone());

    let items = canvas.items();
    assert_eq!(items.len(), 1);
    assert_eq!(items[0].id, item_id);
    assert_eq!(items[0].z_index, 1);
}

#[test]
fn canvas_upsert_replaces_existing_item_with_same_id() {
    let mut canvas: Canvas<Rect, Viewport> = Canvas::new();
    let item_id = ItemId::new();
    let item_v1 = create_test_label(item_id, "Original Label");
    let item_v2 = create_test_label(item_id, "Updated Label");

    canvas.upsert(item_v1);
    assert_eq!(canvas.items().len(), 1);

    canvas.upsert(item_v2);
    assert_eq!(canvas.items().len(), 1, "Should not duplicate; still one item");

    let items = canvas.items();
    match &items[0].content {
        ItemContent::Label { text } => assert_eq!(text, "Updated Label"),
        _ => panic!("Expected Label content"),
    }
}

#[test]
fn canvas_upsert_multiple_different_items() {
    let mut canvas: Canvas<Rect, Viewport> = Canvas::new();
    let id1 = ItemId::new();
    let id2 = ItemId::new();
    let id3 = ItemId::new();

    let item1 = create_test_label(id1, "Label 1");
    let item2 = create_test_task(id2, "Task 1", Priority::A);
    let item3 = create_test_label(id3, "Label 2");

    canvas.upsert(item1);
    canvas.upsert(item2);
    canvas.upsert(item3);

    assert_eq!(canvas.items().len(), 3, "All three items should be present");
}

#[test]
fn canvas_remove_existing_item_returns_ok() {
    let mut canvas: Canvas<Rect, Viewport> = Canvas::new();
    let item_id = ItemId::new();
    let item = create_test_label(item_id, "To Remove");

    canvas.upsert(item.clone());
    let result = canvas.remove(item_id);

    assert!(result.is_ok());
    assert_eq!(result.unwrap().id, item_id);
    assert_eq!(canvas.items().len(), 0, "Canvas should be empty after removal");
}

#[test]
fn canvas_remove_non_existent_item_returns_error() {
    let mut canvas: Canvas<Rect, Viewport> = Canvas::new();
    let non_existent_id = ItemId::new();

    let result = canvas.remove(non_existent_id);

    assert!(result.is_err());
    match result.unwrap_err() {
        CanvasError::ItemNotFound { id } => assert_eq!(id, non_existent_id),
    }
}

#[test]
fn canvas_remove_twice_second_fails() {
    let mut canvas: Canvas<Rect, Viewport> = Canvas::new();
    let item_id = ItemId::new();
    let item = create_test_label(item_id, "Remove Me");

    canvas.upsert(item);
    let first_remove = canvas.remove(item_id);
    assert!(first_remove.is_ok());

    let second_remove = canvas.remove(item_id);
    assert!(second_remove.is_err(), "Second removal should fail");
    assert_eq!(canvas.items().len(), 0);
}

#[test]
fn canvas_set_viewport_updates_state() {
    let mut canvas: Canvas<Rect, Viewport> = Canvas::new();
    let new_viewport = Viewport { pan_x: 15.0, pan_y: 25.0, zoom: 3.0 };

    canvas.set_viewport(new_viewport);
    let retrieved = canvas.viewport();

    assert_eq!(retrieved.pan_x, 15.0);
    assert_eq!(retrieved.pan_y, 25.0);
    assert_eq!(retrieved.zoom, 3.0);
}

/// A new canvas carries the default viewport of its viewport type.
#[test]
fn canvas_new_has_default_viewport_and_no_items() {
    let canvas: Canvas<Rect, Viewport> = Canvas::default();
    assert_eq!(canvas.items().len(), 0);
    let v = canvas.viewport();
    assert_eq!((v.pan_x, v.pan_y, v.zoom), (0.0, 0.0, 1.0));
}

/// Upserting keeps the last version of an item and the others untouched;
/// the removed item is the upserted one.
#[test]
fn canvas_upsert_then_remove_gives_back_item() {
    let mut canvas: Canvas<Rect, Viewport> = Canvas::new();
    let a = ItemId::new();
    let b = ItemId::new();
    canvas.upsert(create_test_label(a, "one"));
    canvas.upsert(create_test_task(b, "task", Priority::C));
    canvas.upsert(create_test_label(a, "two"));
    let removed = canvas.remove(a).unwrap();
    match removed.content {
        ItemContent::Label { text } => assert_eq!(text, "two"),
        _ => panic!("Expected Label content"),
    }
    let items = canvas.items();
    assert_eq!(items.len(), 1);
    assert_eq!(items[0].id, b);
    assert_eq!(items[0].bounds.width, 200.0);
}

/// The error message shows the id in its debug form.
#[test]
fn canvas_error_message() {
    let id = ItemId::new();
    let msg = CanvasError::ItemNotFound { id }.to_string();
    assert!(msg.starts_with("canvas item ItemId("));
    assert!(msg.ends_with(") not found"));
    assert_eq!(msg.len(), "canvas item ItemId() not found".len() + 36);
    assert_eq!(id.debug_text().len(), 44);
}

/// The topmost hit: highest z-index among the hit items, earliest on ties.
#[test]
fn topmost_hit_prefers_high_z_then_order() {
    let mut items = Vec::new();
    for (z, label) in [(1, "a"), (3, "b"), (3, "c"), (5, "d")] {
        let mut it = create_test_label(ItemId::new(), label);
        it.z_index = z;
        items.push(it);
    }
    assert_eq!(topmost_hit(&items, &[true, true, true, false]), Some(1));
    assert_eq!(topmost_hit(&items, &[true, false, true, false]), Some(2));
    assert_eq!(topmost_hit(&items, &[true, true, true, true]), Some(3));
    assert_eq!(topmost_hit(&items, &[true, false, false, false]), Some(0));
    assert_eq!(topmost_hit(&items, &[false, false, false, false]), None);
    let none: Vec<CanvasItem<Rect>> = Vec::new();
    assert_eq!(topmost_hit(&none, &[]), None);
}

/// The ABCDE labels and colors.
#[test]
fn priority_labels_and_colors() {
    assert_eq!(Priority::A.label(), "A - Must do");
    assert_eq!(Priority::B.label(), "B - Should do");
    assert_eq!(Priority::C.label(), "C - Nice to do");
    assert_eq!(Priority::D.label(), "D - Delegate");
    assert_eq!(Priority::E.label(), "E - Eliminate");
    assert_eq!(Priority::A.color(), "#ef4444");
    assert_eq!(Priority::B.color(), "#f97316");
    assert_eq!(Priority::C.color(), "#eab308");
    assert_eq!(Priority::D.color(), "#3b82f6");
    assert_eq!(Priority::E.color(), "#6b7280");
    assert!(Priority::A < Priority::E);
}
