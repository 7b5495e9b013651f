//! The layout builder: stable layer ordering and clip resolution.

use glane::geometry::{LogicalPosition, LogicalRect, LogicalSize};
use glane::utility::{contains, is_crossing};
use glane::id::IdGen;
use glane::label::Label;
use glane::layout::{Layout, LayoutConstructor, LayoutContext, LayoutElement};
use glane::widget::WidgetState;

fn text_elem(label: &Label, lc: &LayoutContext, tag: &str, layer: u32) -> LayoutElement {
    LayoutElement::text(
        label,
        WidgetState::Idle,
        LogicalRect::new(0, 0, 10, 10),
        &lc.ancestors,
        None,
        String::from(tag),
        layer,
        false,
    )
}

#[test]
fn freezing_sorts_stably_by_layer() {
    let mut gen = IdGen::new();
    let w = Label::new(&mut gen, String::from("w"));
    let lc = LayoutContext::root(LogicalSize::new(100, 100));
    let mut c = LayoutConstructor::new();
    // push order carries layers [2, 0, 1, 0]
    c.push(&lc, text_elem(&w, &lc, "layer2", 2));
    c.push(&lc, text_elem(&w, &lc, "layer0#1", 0));
    c.push(&lc, text_elem(&w, &lc, "layer1", 1));
    c.push(&lc, text_elem(&w, &lc, "layer0#2", 0));

    let frozen = Layout::new(c);
    assert_eq!(frozen.len(), 4);
    let texts: Vec<&str> = frozen
        .iter()
        .iter()
        .map(|e| e.as_text().unwrap().string.as_str())
        .collect();
    // stable: the two layer-0 elements keep their relative push order
    assert_eq!(texts, vec!["layer0#1", "layer0#2", "layer1", "layer2"]);
}

#[test]
fn clip_resolution_finds_the_innermost_open_clip() {
    let mut gen = IdGen::new();
    let w = Label::new(&mut gen, String::from("w"));
    let lc = LayoutContext::root(LogicalSize::new(100, 100));
    let rect_a = LogicalRect::new(0, 0, 50, 50);
    let rect_b = LogicalRect::new(10, 10, 20, 20);

    let mut c = LayoutConstructor::new();
    c.push(&lc, LayoutElement::start_clipping(&w, rect_a, &lc.ancestors, 0));
    c.push(&lc, LayoutElement::start_clipping(&w, rect_b, &lc.ancestors, 0));
    assert_eq!(c.clipping(), Some(rect_b));

    c.push(&lc, LayoutElement::end_clipping(&w, rect_b, &lc.ancestors, 0));
    // the position of "elemX": B is closed, so A's rectangle is active
    c.push(&lc, text_elem(&w, &lc, "elemX", 0));
    assert_eq!(c.clipping(), Some(rect_a));

    c.push(&lc, LayoutElement::end_clipping(&w, rect_a, &lc.ancestors, 0));
    assert_eq!(c.clipping(), None);
}

#[test]
fn element_accessors_expose_their_variant() {
    let mut gen = IdGen::new();
    let w = Label::new(&mut gen, String::from("w"));
    let lc = LayoutContext::root(LogicalSize::new(100, 100));
    let rect = LogicalRect::new(1, 2, 3, 4);
    let e = LayoutElement::area(&w, WidgetState::Hover, rect, &lc.ancestors, 7, true);
    assert_eq!(e.layer(), 7);
    assert_eq!(*e.rect(), rect);
    assert!(e.as_area().is_some());
    assert!(e.as_text().is_none());
    assert!(e.as_collision().is_none());
    let a = e.as_area().unwrap();
    assert_eq!(a.widget_state, WidgetState::Hover);
    assert!(a.selected);

    let cursor = LayoutElement::cursor(&w, WidgetState::Idle, rect, &lc.ancestors, Some('x'), 0);
    assert_eq!(cursor.as_cursor().unwrap().c, Some('x'));
    let coll = LayoutElement::collision(&w, WidgetState::Idle, rect, &lc.ancestors, 1);
    assert!(coll.as_collision().is_some());
    let comp = LayoutElement::composition_text(
        &w,
        WidgetState::Idle,
        rect,
        &lc.ancestors,
        None,
        String::from("comp"),
        true,
        0,
    );
    assert!(comp.as_composition_text().unwrap().targeted);
    assert!(
        LayoutElement::start_clipping(&w, rect, &lc.ancestors, 0).as_start_clipping().is_some()
    );
    assert!(LayoutElement::end_clipping(&w, rect, &lc.ancestors, 0).as_end_clipping().is_some());
}

#[test]
fn hit_testing_is_border_inclusive() {
    let rect = LogicalRect::new(10, 10, 50, 30);
    let inside = LogicalPosition::new(10, 30);
    let outside = LogicalPosition::new(51, 20);
    assert!(is_crossing(&rect, &inside));
    assert!(is_crossing(&inside, &rect));
    assert!(contains(&rect, &inside));
    assert!(!contains(&inside, &rect));
    assert!(!is_crossing(&rect, &outside));
}
