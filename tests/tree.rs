use rll::{BackendTrait, Container, Drawer, Rll, StyleLink, Style, Align};
use rll::placement::Cell;

struct Recorder {
    renders: usize,
}

impl BackendTrait for Recorder {
    fn init(&mut self) {}
    fn close(&self) {}
    fn render(&mut self, _main_container: Container, _style_links: Vec<StyleLink>) {
        self.renders += 1;
    }
    fn display(&self) {}
}

fn ids(c: &Container) -> Vec<String> {
    c.childs().iter().map(|k| k.id.clone()).collect()
}

#[test]
fn container_child_and_class_edits() {
    let mut c = Container::new("root", "text", vec!["a"], vec![]);
    assert_eq!(c.classes, vec!["a".to_string()]);
    c.add_child(Container::new("x", "", vec![], vec![]));
    c.add_child(Container::new("y", "", vec![], vec![]));
    c.add_child(Container::new("x", "", vec![], vec![]));
    assert_eq!(ids(&c), vec!["x", "y", "x"]);
    c.remove_child("x");
    assert_eq!(ids(&c), vec!["y", "x"]);
    c.remove_child("missing");
    assert_eq!(ids(&c), vec!["y", "x"]);
    c.pop_child();
    assert_eq!(ids(&c), vec!["y"]);
    c.clear_childs();
    c.pop_child();
    assert!(c.childs().is_empty());
    c.add_class("b");
    assert_eq!(c.classes, vec!["a".to_string(), "b".to_string()]);
    c.pop_class();
    c.clear_classes();
    c.pop_class();
    assert!(c.classes.is_empty());
}

#[test]
fn session_edits_first_matching_container() {
    let mut rll = Rll::new(Recorder { renders: 0 });
    rll.set_title("demo");
    assert_eq!(rll.title, "demo");
    rll.attach_container_by_id("root", Container::new("lost", "", vec![], vec![]));
    assert!(rll.main_container.is_none());

    let left = Container::new("dup", "one", vec![], vec![]);
    let right = Container::new("dup", "two", vec![], vec![]);
    rll.set_main_container(Container::new("root", "", vec![], vec![left, right]));
    rll.attach_container_by_id("dup", Container::new("new", "", vec![], vec![]));
    rll.change_container_contaiment("dup", "changed");
    let root = rll.main_container.clone().unwrap();
    let kids = root.childs();
    assert_eq!(kids[0].contaiment, "changed");
    assert_eq!(kids[1].contaiment, "two");
    assert_eq!(ids(&kids[0]), vec!["new"]);
    assert!(kids[1].childs().is_empty());

    rll.remove_container_by_id("new");
    let root = rll.main_container.clone().unwrap();
    assert!(root.childs()[0].childs().is_empty());
    rll.remove_container_by_id("dup");
    let root = rll.main_container.clone().unwrap();
    assert_eq!(ids(&root), vec!["dup"]);
    assert_eq!(root.childs()[0].contaiment, "two");
    rll.remove_container_by_id("root");
    assert_eq!(ids(&rll.main_container.clone().unwrap()), vec!["dup"]);
}

#[test]
fn session_keeps_rules_and_renders_through_backend() {
    let mut rll = Rll::new(Recorder { renders: 0 });
    rll.render();
    assert_eq!(rll.backend.renders, 0);
    rll.attach_style_to_id("root", vec![Style::HAlign(Align::Center)]);
    rll.attach_style_to_class("big", vec![]);
    assert_eq!(rll.style_links.len(), 2);
    assert_eq!(rll.style_links[0].id.as_deref(), Some("root"));
    assert_eq!(rll.style_links[1].class.as_deref(), Some("big"));
    rll.set_main_container(Container::new("root", "", vec![], vec![]));
    rll.render();
    assert_eq!(rll.backend.renders, 1);
}

#[test]
fn drawer_lays_out_and_lists_cells() {
    let mut drawer = Drawer::new();
    assert!(drawer.render_parts.is_empty());
    let root = Container::new("root", "hi", vec![], vec![Container::new("c", "yo", vec![], vec![])]);
    let links = vec![StyleLink { id: Some("c".to_string()), class: None, style: vec![Style::HAlign(Align::Right)] }];
    drawer.render_in(&root, &links, 6, 2);
    assert_eq!(drawer.render_parts.len(), 2);
    let cells = drawer.cells();
    assert_eq!(
        cells,
        vec![
            Cell { x: 0, y: 0, ch: 'h' },
            Cell { x: 1, y: 0, ch: 'i' },
            Cell { x: 4, y: 0, ch: 'y' },
            Cell { x: 5, y: 0, ch: 'o' },
        ]
    );
}
