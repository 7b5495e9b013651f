//! The remaining containers: columns, elastic spacers, size limits and
//! absolute placement.

use glane::containers::abs::Abs;
use glane::containers::column::Column;
use glane::containers::max_size::MaxSize;
use glane::empty::Empty;
use glane::geometry::{LogicalPosition, LogicalSize};
use glane::id::IdGen;
use glane::label::Label;
use glane::node::WidgetNode;
use glane::scene::Scene;

fn label_with_metrics(gen: &mut IdGen, text: &str, w: i64, h: i64) -> Label {
    let mut l = Label::new(gen, String::from(text));
    l.set_metrics(LogicalSize::new(w, h));
    l
}

#[test]
fn a_column_stacks_children_downward() {
    let mut gen = IdGen::new();
    let mut col = Column::new(&mut gen);
    col.children.push(WidgetNode::Label(label_with_metrics(&mut gen, "top", 40, 20)));
    col.children.push(WidgetNode::Label(label_with_metrics(&mut gen, "bottom", 40, 30)));

    let (mut scene, _root) = Scene::new(WidgetNode::Column(col));
    scene.set_viewport(LogicalSize::new(100, 200));
    let snapshot = scene.layout();
    let texts: Vec<_> = snapshot.iter().iter().filter_map(|e| e.as_text()).collect();
    assert_eq!(texts.len(), 2);
    assert_eq!((texts[0].rect.top, texts[0].rect.bottom), (0, 20));
    // one spacing unit (10) between the two
    assert_eq!((texts[1].rect.top, texts[1].rect.bottom), (30, 60));
}

#[test]
fn a_columns_height_limit_clamps_each_child() {
    let mut gen = IdGen::new();
    let mut col = Column::new(&mut gen);
    col.max_height = Some(15);
    col.children.push(WidgetNode::Label(label_with_metrics(&mut gen, "tall", 40, 100)));
    col.children.push(WidgetNode::Label(label_with_metrics(&mut gen, "short", 40, 10)));

    let (mut scene, _root) = Scene::new(WidgetNode::Column(col));
    scene.set_viewport(LogicalSize::new(100, 200));
    let snapshot = scene.layout();
    let texts: Vec<_> = snapshot.iter().iter().filter_map(|e| e.as_text()).collect();
    // the tall child still draws at its intrinsic extent, but the column
    // advances by the clamped allotment of 15 (plus spacing 10): its
    // sibling sits at 25, not at 110
    assert_eq!(texts[0].rect.top, 0);
    assert_eq!((texts[1].rect.top, texts[1].rect.bottom), (25, 35));
}

#[test]
fn an_elastic_spacer_pushes_its_sibling_right() {
    let mut gen = IdGen::new();
    let mut row = glane::containers::row::Row::new(&mut gen);
    row.children.push(WidgetNode::Empty(Empty::new(&mut gen)));
    row.children.push(WidgetNode::Label(label_with_metrics(&mut gen, "end", 50, 20)));

    let (mut scene, _root) = Scene::new(WidgetNode::Row(row));
    scene.set_viewport(LogicalSize::new(200, 20));
    let snapshot = scene.layout();
    let texts: Vec<_> = snapshot.iter().iter().filter_map(|e| e.as_text()).collect();
    assert_eq!(texts.len(), 1);
    // leftover = 200 - 50 - 10 = 140 goes to the spacer; the label starts
    // one spacing unit after it
    assert_eq!(texts[0].rect.left, 150);
    assert_eq!(texts[0].rect.right, 200);
}

#[test]
fn a_size_limit_caps_what_its_child_may_take() {
    let mut gen = IdGen::new();
    let big = WidgetNode::Label(label_with_metrics(&mut gen, "big", 100, 50));
    let limited = MaxSize::new(&mut gen, Some(60), Some(40), big);
    let mut row = glane::containers::row::Row::new(&mut gen);
    row.children.push(WidgetNode::MaxSize(limited));
    row.children.push(WidgetNode::Label(label_with_metrics(&mut gen, "next", 20, 10)));

    let (mut scene, _root) = Scene::new(WidgetNode::Row(row));
    scene.set_viewport(LogicalSize::new(300, 100));
    let snapshot = scene.layout();
    let texts: Vec<_> = snapshot.iter().iter().filter_map(|e| e.as_text()).collect();
    assert_eq!(texts.len(), 2);
    // the limited widget measures 60 wide, so its sibling starts at 70
    assert_eq!(texts[1].rect.left, 70);
    assert_eq!(texts[1].rect.right, 90);
}

#[test]
fn absolute_placement_offsets_the_child() {
    let mut gen = IdGen::new();
    let child = WidgetNode::Label(label_with_metrics(&mut gen, "floating", 30, 10));
    let abs = Abs::new(&mut gen, child, LogicalPosition::new(70, 40));

    let (mut scene, _root) = Scene::new(WidgetNode::Abs(abs));
    scene.set_viewport(LogicalSize::new(200, 200));
    let snapshot = scene.layout();
    let texts: Vec<_> = snapshot.iter().iter().filter_map(|e| e.as_text()).collect();
    assert_eq!(texts.len(), 1);
    assert_eq!((texts[0].rect.left, texts[0].rect.top), (70, 40));
    assert_eq!((texts[0].rect.right, texts[0].rect.bottom), (100, 50));
}
