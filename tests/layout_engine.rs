use rll::colors::{remove_colors_from_len, visible_len, BOLD, RED, RESET};
use rll::geometry::{
    find_childs_size, find_container_style, find_real_size, prepare_render_parts, resolve_styles,
    RenderPart,
};
use rll::placement::Cell;
use rll::{Align, Container, ContentWrap, Orientation, Size, Style, StyleLink};

fn id_rule(id: &str, style: Vec<Style>) -> StyleLink {
    StyleLink { id: Some(id.to_string()), class: None, style }
}

fn class_rule(class: &str, style: Vec<Style>) -> StyleLink {
    StyleLink { id: None, class: Some(class.to_string()), style }
}

fn leaf(id: &str) -> Container {
    Container::new(id, "", vec![], vec![])
}

#[test]
fn ideal_size_is_the_larger_bound() {
    let links = vec![
        id_rule("a", vec![Style::MinSize(Size::Fixed(5)), Style::MaxSize(Size::Fixed(2))]),
        id_rule("b", vec![Style::MinSize(Size::Fixed(5)), Style::MaxSize(Size::Fixed(5))]),
    ];
    let sizes = find_childs_size(&links, &vec![leaf("a"), leaf("b")], 10);
    assert_eq!(sizes, vec![5, 5]);
}

#[test]
fn percent_sizes_resolve_and_clamp() {
    assert_eq!(find_real_size(50, 10), 5);
    assert_eq!(find_real_size(0, 10), 1);
    assert_eq!(find_real_size(200, 10), 10);
    assert_eq!(find_real_size(50, 0), 1);
    assert_eq!(find_real_size(10, 5), 1);
}

#[test]
fn centered_hello_starts_at_three() {
    let part = RenderPart::new((11, 1, 0, 0), false, Align::Center, Align::Top, "hello".to_string());
    let cells = part.place();
    assert_eq!(cells.len(), 5);
    assert_eq!(cells[0], Cell { x: 3, y: 0, ch: 'h' });
    assert_eq!(cells[4], Cell { x: 7, y: 0, ch: 'o' });
}

#[test]
fn color_sequence_is_not_visible() {
    let text = format!("{}abc", RED);
    assert_eq!(text.len(), 8);
    assert_eq!(visible_len(&text), 3);
    assert_eq!(remove_colors_from_len(8, &text), 3);
}

#[test]
fn every_occurrence_of_a_sequence_is_invisible() {
    let text = format!("{}ab{}cd{}ef{}", BOLD, RED, RED, RESET);
    assert_eq!(text.chars().count(), 24);
    assert_eq!(visible_len(&text), 6);
    assert_eq!(remove_colors_from_len(2, &text), 0);
    assert_eq!(visible_len("plain"), 5);
    let twice = format!("{}ab{}c", RED, RED);
    assert_eq!(remove_colors_from_len(13, &twice), 3);
}

#[test]
fn wrapped_text_fills_rows_then_stops() {
    let part = RenderPart::new((3, 3, 0, 0), true, Align::Left, Align::Top, "abcdefg".to_string());
    let cells = part.place();
    let rows: Vec<u64> = cells.iter().map(|c| c.y).collect();
    let cols: Vec<u64> = cells.iter().map(|c| c.x).collect();
    assert_eq!(rows, vec![0, 0, 0, 1, 1, 1, 2]);
    assert_eq!(cols, vec![0, 1, 2, 0, 1, 2, 0]);

    let long = RenderPart::new((3, 3, 0, 0), true, Align::Left, Align::Top, "abcdefghijkl".to_string());
    let cells = long.place();
    assert_eq!(cells.len(), 9);
    assert_eq!(cells[8], Cell { x: 2, y: 2, ch: 'i' });
}

#[test]
fn unwrapped_text_is_clipped_to_width() {
    let part = RenderPart::new((3, 2, 4, 1), false, Align::Left, Align::Bottom, "hello".to_string());
    let cells = part.place();
    assert_eq!(
        cells,
        vec![Cell { x: 4, y: 2, ch: 'h' }, Cell { x: 5, y: 2, ch: 'e' }, Cell { x: 6, y: 2, ch: 'l' }]
    );
    let right = RenderPart::new((10, 4, 0, 0), false, Align::Right, Align::Center, "abc".to_string());
    let cells = right.place();
    assert_eq!(cells[0], Cell { x: 7, y: 2, ch: 'a' });
}

#[test]
fn empty_content_places_nothing() {
    let part = RenderPart::new((5, 5, 0, 0), true, Align::Left, Align::Top, String::new());
    assert!(part.place().is_empty());
    let only_color = RenderPart::new((5, 5, 0, 0), false, Align::Left, Align::Top, RED.to_string());
    assert!(only_color.place().is_empty());
}

#[test]
fn zero_sized_root_gives_one_cell_parts() {
    let root = Container::new("root", "x", vec![], vec![leaf("a"), leaf("b")]);
    let links = vec![id_rule("a", vec![Style::MinSize(Size::Fixed(0)), Style::MaxSize(Size::Fixed(0))])];
    let parts = prepare_render_parts(&root, &links, (0, 0, 0, 0));
    assert_eq!(parts.len(), 3);
    for p in &parts {
        assert!(p.geometry.0 >= 1);
        assert!(p.geometry.1 >= 1);
    }
    assert_eq!(parts[0].geometry, (1, 1, 0, 0));
}

#[test]
fn child_without_margin_keeps_cross_offset() {
    let root = Container::new("root", "", vec![], vec![leaf("a"), leaf("b")]);
    let links = vec![id_rule(
        "root",
        vec![Style::Margin(Size::Fixed(2), Size::Fixed(1), Size::Fixed(2), Size::Fixed(1))],
    )];
    let parts = prepare_render_parts(&root, &links, (20, 10, 0, 0));
    assert_eq!(parts[0].geometry, (16, 8, 2, 1));
    assert_eq!(parts[1].geometry, (8, 8, 2, 1));
    assert_eq!(parts[2].geometry, (8, 8, 10, 1));
}

#[test]
fn children_sizes_sum_near_parent_extent() {
    let childs = vec![leaf("a"), leaf("b"), leaf("c")];
    let sizes = find_childs_size(&vec![], &childs, 10);
    assert_eq!(sizes, vec![3, 3, 3]);
    let total: u32 = sizes.iter().sum();
    assert!(total + 3 >= 10 && total <= 13);

    let links = vec![id_rule("a", vec![Style::MaxSize(Size::Percent(50))])];
    let sizes = find_childs_size(&links, &childs, 10);
    assert_eq!(sizes, vec![2, 4, 4]);
}

#[test]
fn a_child_asking_for_nothing_gets_nothing() {
    let links = vec![id_rule("a", vec![Style::MinSize(Size::Fixed(0)), Style::MaxSize(Size::Fixed(0))])];
    let childs = vec![leaf("a"), leaf("b")];
    assert_eq!(find_childs_size(&links, &childs, 10), vec![0, 10]);
    assert_eq!(find_childs_size(&links, &childs, 0), vec![1, 1]);
    let root = Container::new("root", "", vec![], childs);
    let parts = prepare_render_parts(&root, &links, (10, 3, 0, 0));
    assert_eq!(parts[1].geometry, (1, 3, 0, 0));
    assert_eq!(parts[2].geometry, (10, 3, 0, 0));
}

#[test]
fn vertical_children_stack_downwards() {
    let root = Container::new("root", "", vec!["col"], vec![leaf("a"), leaf("b")]);
    let links = vec![
        class_rule("col", vec![Style::Orientation(Orientation::Vertical)]),
        id_rule("a", vec![Style::MaxSize(Size::Fixed(1)), Style::MinSize(Size::Fixed(1))]),
        id_rule("b", vec![Style::MaxSize(Size::Fixed(3))]),
    ];
    let parts = prepare_render_parts(&root, &links, (6, 8, 1, 1));
    assert_eq!(parts[1].geometry, (6, 2, 1, 1));
    assert_eq!(parts[2].geometry, (6, 6, 1, 3));
}

#[test]
fn margins_never_leave_less_than_one_cell() {
    let root = leaf("root");
    let links = vec![id_rule(
        "root",
        vec![Style::Margin(Size::Fixed(20), Size::Percent(100), Size::Fixed(20), Size::Percent(0))],
    )];
    let parts = prepare_render_parts(&root, &links, (10, 4, 0, 0));
    assert_eq!(parts[0].geometry, (1, 1, 9, 4));
}

#[test]
fn last_margin_wins() {
    let root = leaf("root");
    let links = vec![
        id_rule("root", vec![Style::Margin(Size::Fixed(1), Size::Fixed(1), Size::Fixed(1), Size::Fixed(1))]),
        id_rule("root", vec![Style::Margin(Size::Fixed(2), Size::Fixed(0), Size::Fixed(0), Size::Fixed(0))]),
    ];
    let parts = prepare_render_parts(&root, &links, (10, 4, 0, 0));
    assert_eq!(parts[0].geometry, (8, 4, 2, 0));
}

#[test]
fn matching_rules_concatenate_in_order() {
    let c = Container::new("main", "", vec!["x", "y"], vec![]);
    let links = vec![
        class_rule("y", vec![Style::HAlign(Align::Right)]),
        id_rule("other", vec![Style::HAlign(Align::Left)]),
        id_rule("main", vec![Style::HAlign(Align::Center), Style::ContentWrap(ContentWrap::Wrap)]),
        class_rule("z", vec![Style::VAlign(Align::Bottom)]),
    ];
    let styles = find_container_style(&links, &c);
    assert_eq!(
        styles,
        vec![Style::HAlign(Align::Right), Style::HAlign(Align::Center), Style::ContentWrap(ContentWrap::Wrap)]
    );
    let resolved = resolve_styles(&styles);
    assert_eq!(resolved.h_align, Align::Center);
    assert_eq!(resolved.v_align, Align::Top);
    assert!(resolved.wrap);
    assert_eq!(resolved.orientation, Orientation::Horizontal);
}

#[test]
fn defaults_apply_without_rules() {
    let resolved = resolve_styles(&vec![]);
    assert_eq!(resolved.min_size, Size::Fixed(1));
    assert_eq!(resolved.max_size, Size::Percent(100));
    assert_eq!(resolved.h_align, Align::Left);
    assert!(!resolved.wrap);
}

#[test]
fn parts_come_in_pre_order_with_content() {
    let inner = Container::new("inner", "deep", vec![], vec![]);
    let a = Container::new("a", "A", vec![], vec![inner]);
    let root = Container::new("root", "R", vec![], vec![a, Container::new("b", "B", vec![], vec![])]);
    let parts = prepare_render_parts(&root, &vec![], (10, 2, 0, 0));
    let contents: Vec<&str> = parts.iter().map(|p| p.contaiment.as_str()).collect();
    assert_eq!(contents, vec!["R", "A", "deep", "B"]);
    assert_eq!(parts[1].geometry, (5, 2, 0, 0));
    assert_eq!(parts[2].geometry, (5, 2, 0, 0));
    assert_eq!(parts[3].geometry, (5, 2, 5, 0));
}
