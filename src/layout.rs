use vstd::prelude::*;
use crate::style::Style;
use crate::traits::BackendTrait;

verus! {

/// A style rule: a selector (a container id or a class name) and the attributes it applies.
#[derive(Clone)]
pub struct StyleLink {
    pub id: Option<String>,
    pub class: Option<String>,
    pub style: Vec<Style>,
}

/// A node of the layout tree.
pub struct Container {
    pub id: String,
    pub contaiment: String,
    pub classes: Vec<String>,
    pub childs: Vec<Container>,
}

/// The value of a container: its id, content, class names and children.
pub struct ContainerView {
    pub id: Seq<char>,
    pub content: Seq<char>,
    pub classes: Seq<Seq<char>>,
    pub children: Seq<ContainerView>,
}

impl View for Container {
    type V = ContainerView;

    open spec fn view(&self) -> ContainerView
        decreases self,
    {
        ContainerView {
            id: self.id@,
            content: self.contaiment@,
            classes: class_names(self.classes@),
            children: Seq::new(self.childs@.len(), |i: int|
                if 0 <= i < self.childs.len() {
                    self.childs[i].view()
                } else {
                    empty_view()
                }),
        }
    }
}

pub open spec fn empty_view() -> ContainerView {
    ContainerView { id: seq![], content: seq![], classes: seq![], children: seq![] }
}

/// The class names of a container, as character sequences.
pub open spec fn class_names(classes: Seq<String>) -> Seq<Seq<char>> {
    classes.map_values(|c: String| c@)
}

// Searching and editing the tree.

/// Whether the tree holds a node with this id, the root included.
pub open spec fn has_id(c: ContainerView, id: Seq<char>) -> bool
    decreases c, c.children.len() + 1,
{
    c.id == id || has_id_from(c, id, 0)
}

/// Whether one of the children of `c` from child `i` on holds a node with this id.
pub open spec fn has_id_from(c: ContainerView, id: Seq<char>, i: int) -> bool
    decreases c, c.children.len() - i,
{
    if 0 <= i < c.children.len() {
        has_id(c.children[i], id) || has_id_from(c, id, i + 1)
    } else {
        false
    }
}

proof fn lemma_has_id_from(c: ContainerView, id: Seq<char>, i: int)
    requires
        0 <= i,
    ensures
        has_id_from(c, id, i) == exists|j: int| i <= j < c.children.len() && #[trigger] has_id(c.children[j], id),
    decreases c.children.len() - i,
{
    if i < c.children.len() {
        assert(has_id_from(c, id, i) == (has_id(c.children[i], id) || has_id_from(c, id, i + 1)));
        lemma_has_id_from(c, id, i + 1);
        if has_id_from(c, id, i + 1) {
            let j = choose|j: int| i + 1 <= j < c.children.len() && #[trigger] has_id(c.children[j], id);
            assert(i <= j < c.children.len() && has_id(c.children[j], id));
        }
        if exists|j: int| i <= j < c.children.len() && #[trigger] has_id(c.children[j], id) {
            let j = choose|j: int| i <= j < c.children.len() && #[trigger] has_id(c.children[j], id);
            if j > i {
                assert(i + 1 <= j < c.children.len() && has_id(c.children[j], id));
            }
        }
    }
}

/// Whether `k` is the first of the trees `cs` that holds the id.
pub open spec fn is_first_holding(cs: Seq<ContainerView>, id: Seq<char>, k: int) -> bool {
    0 <= k < cs.len() && has_id(cs[k], id) && forall|j: int| 0 <= j < k ==> !#[trigger] has_id(cs[j], id)
}

/// The tree after the first node with the id, in pre-order, has had `child` appended.
pub open spec fn attach_at(c: ContainerView, id: Seq<char>, child: ContainerView) -> ContainerView
    decreases c,
{
    if c.id == id {
        ContainerView { children: c.children.push(child), ..c }
    } else {
        ContainerView {
            children: Seq::new(c.children.len(), |j: int|
                if 0 <= j < c.children.len() && is_first_holding(c.children, id, j) {
                    attach_at(c.children[j], id, child)
                } else {
                    c.children[j]
                }),
            ..c
        }
    }
}

/// The tree after the first node with the id, in pre-order, has had its content replaced.
pub open spec fn set_content_at(c: ContainerView, id: Seq<char>, content: Seq<char>) -> ContainerView
    decreases c,
{
    if c.id == id {
        ContainerView { content: content, ..c }
    } else {
        ContainerView {
            children: Seq::new(c.children.len(), |j: int|
                if 0 <= j < c.children.len() && is_first_holding(c.children, id, j) {
                    set_content_at(c.children[j], id, content)
                } else {
                    c.children[j]
                }),
            ..c
        }
    }
}

/// Whether `k` is the first child whose own id is `id`.
pub open spec fn is_first_child_with(cs: Seq<ContainerView>, id: Seq<char>, k: int) -> bool {
    0 <= k < cs.len() && cs[k].id == id && forall|j: int| 0 <= j < k ==> (#[trigger] cs[j]).id != id
}

/// Whether some node strictly below the root has the id.
pub open spec fn has_id_below(c: ContainerView, id: Seq<char>) -> bool {
    exists|i: int| 0 <= i < c.children.len() && #[trigger] has_id(c.children[i], id)
}

proof fn lemma_has_id_unfold(x: ContainerView, t: Seq<char>)
    ensures
        has_id(x, t) == (x.id == t || has_id_below(x, t)),
{
    lemma_has_id_from(x, t, 0);
}

pub open spec fn is_first_holding_below(cs: Seq<ContainerView>, id: Seq<char>, k: int) -> bool {
    0 <= k < cs.len() && has_id_below(cs[k], id) && forall|j: int| 0 <= j < k ==> !#[trigger] has_id_below(cs[j], id)
}

/// The tree after one node with the id, below the root, has been removed: a child of the root
/// if one has the id (the first such), else the first removal found in the children in turn.
pub open spec fn remove_at(c: ContainerView, id: Seq<char>) -> ContainerView
    decreases c,
{
    if exists|k: int| is_first_child_with(c.children, id, k) {
        let k = choose|k: int| is_first_child_with(c.children, id, k);
        ContainerView { children: c.children.remove(k), ..c }
    } else {
        ContainerView {
            children: Seq::new(c.children.len(), |j: int|
                if 0 <= j < c.children.len() && is_first_holding_below(c.children, id, j) {
                    remove_at(c.children[j], id)
                } else {
                    c.children[j]
                }),
            ..c
        }
    }
}

/// Whether two texts are equal, character by character.
fn same_text(a: &str, b: &str) -> (r: bool)
    ensures
        r == (a@ == b@),
{
    let n = a.unicode_len();
    if n != b.unicode_len() {
        return false;
    }
    let mut i: usize = 0;
    while i < n
        invariant
            n == a@.len(),
            n == b@.len(),
            i <= n,
            forall|j: int| 0 <= j < i ==> a@[j] == b@[j],
        decreases n - i,
    {
        if a.get_char(i) != b.get_char(i) {
            return false;
        }
        i += 1;
    }
    assert(a@ =~= b@);
    true
}

/// A deep copy of a tree.
fn clone_tree(c: &Container) -> (r: Container)
    ensures
        r@ == c@,
    decreases c,
{
    let mut classes: Vec<String> = Vec::new();
    let mut i: usize = 0;
    while i < c.classes.len()
        invariant
            i <= c.classes@.len(),
            classes@.len() == i,
            forall|j: int| 0 <= j < i ==> (#[trigger] classes@[j])@ == c.classes@[j]@,
        decreases c.classes@.len() - i,
    {
        classes.push(c.classes[i].clone());
        i += 1;
    }
    let mut childs: Vec<Container> = Vec::new();
    let mut k: usize = 0;
    while k < c.childs.len()
        invariant
            k <= c.childs@.len(),
            childs@.len() == k,
            forall|j: int| 0 <= j < k ==> (#[trigger] childs@[j])@ == c.childs@[j]@,
        decreases c.childs@.len() - k,
    {
        childs.push(clone_tree(&c.childs[k]));
        k += 1;
    }
    let r = Container { id: c.id.clone(), contaiment: c.contaiment.clone(), classes, childs };
    assert(r@.classes =~= c@.classes);
    assert(r@.children =~= c@.children);
    r
}

impl Clone for Container {
    fn clone(&self) -> Self {
        clone_tree(self)
    }
}

/// A layout session: a title, a backend, the root of the tree and the style rules.
pub struct Rll<T: BackendTrait> {
    pub title: String,
    pub backend: T,
    pub main_container: Option<Container>,
    pub style_links: Vec<StyleLink>,
}

/// The value of an optional tree.
pub open spec fn tree_view(o: Option<Container>) -> Option<ContainerView> {
    match o {
        Some(c) => Some(c@),
        None => None,
    }
}

impl<T: BackendTrait> Rll<T> {
    pub fn new(backend: T) -> (r: Self)
        ensures
            r.title@ == Seq::<char>::empty(),
            r.backend == backend,
            r.main_container is None,
            r.style_links@.len() == 0,
    {
        Rll { title: String::new(), backend, main_container: None, style_links: Vec::new() }
    }

    pub fn set_title(&mut self, title: &str)
        ensures
            final(self).title@ == title@,
            final(self).backend == old(self).backend,
            final(self).main_container == old(self).main_container,
            final(self).style_links == old(self).style_links,
    {
        self.title = title.to_owned();
    }

    pub fn set_main_container(&mut self, container: Container)
        ensures
            final(self).main_container == Some(container),
            final(self).title == old(self).title,
            final(self).backend == old(self).backend,
            final(self).style_links == old(self).style_links,
    {
        self.main_container = Some(container);
    }

    /// Adds a rule that selects the container with this id.
    pub fn attach_style_to_id(&mut self, id: &str, style: Vec<Style>)
        ensures
            final(self).style_links@.len() == old(self).style_links@.len() + 1,
            final(self).style_links@.drop_last() == old(self).style_links@,
            final(self).style_links@.last().id is Some,
            final(self).style_links@.last().id->0@ == id@,
            final(self).style_links@.last().class is None,
            final(self).style_links@.last().style == style,
            final(self).title == old(self).title,
            final(self).backend == old(self).backend,
            final(self).main_container == old(self).main_container,
    {
        self.style_links.push(StyleLink { id: Some(id.to_owned()), class: None, style });
        assert(self.style_links@.drop_last() =~= old(self).style_links@);
    }

    /// Adds a rule that selects every container with this class.
    pub fn attach_style_to_class(&mut self, class: &str, style: Vec<Style>)
        ensures
            final(self).style_links@.len() == old(self).style_links@.len() + 1,
            final(self).style_links@.drop_last() == old(self).style_links@,
            final(self).style_links@.last().id is None,
            final(self).style_links@.last().class is Some,
            final(self).style_links@.last().class->0@ == class@,
            final(self).style_links@.last().style == style,
            final(self).title == old(self).title,
            final(self).backend == old(self).backend,
            final(self).main_container == old(self).main_container,
    {
        self.style_links.push(StyleLink { id: None, class: Some(class.to_owned()), style });
        assert(self.style_links@.drop_last() =~= old(self).style_links@);
    }

    /// Appends `child_container` to the first container, in pre-order, whose id is
    /// `parent_container_id`.
    pub fn attach_container_by_id(&mut self, parent_container_id: &str, child_container: Container)
        ensures
            tree_view(final(self).main_container) == match old(self).main_container {
                Some(c) => Some(if has_id(c@, parent_container_id@) {
                    attach_at(c@, parent_container_id@, child_container@)
                } else {
                    c@
                }),
                None => None,
            },
            final(self).title == old(self).title,
            final(self).backend == old(self).backend,
            final(self).style_links == old(self).style_links,
    {
        match &mut self.main_container {
            Some(container) => {
                let _ = Self::find_and_attach(container, parent_container_id, child_container);
            },
            None => {},
        }
    }

    /// Replaces the content of the first container, in pre-order, whose id is `target_id`.
    pub fn change_container_contaiment(&mut self, target_id: &str, new_contaiment: &str)
        ensures
            tree_view(final(self).main_container) == match old(self).main_container {
                Some(c) => Some(if has_id(c@, target_id@) {
                    set_content_at(c@, target_id@, new_contaiment@)
                } else {
                    c@
                }),
                None => None,
            },
            final(self).title == old(self).title,
            final(self).backend == old(self).backend,
            final(self).style_links == old(self).style_links,
    {
        match &mut self.main_container {
            Some(container) => {
                let _ = Self::find_and_change_contaiment(container, target_id, new_contaiment);
            },
            None => {},
        }
    }

    /// Removes one container with this id from below the root (see `remove_at`).
    pub fn remove_container_by_id(&mut self, container_id: &str)
        ensures
            tree_view(final(self).main_container) == match old(self).main_container {
                Some(c) => Some(if has_id_below(c@, container_id@) {
                    remove_at(c@, container_id@)
                } else {
                    c@
                }),
                None => None,
            },
            final(self).title == old(self).title,
            final(self).backend == old(self).backend,
            final(self).style_links == old(self).style_links,
    {
        match &mut self.main_container {
            Some(container) => {
                let _ = Self::find_and_remove(container, container_id);
            },
            None => {},
        }
    }

    pub fn init_backend(&mut self)
        ensures
            final(self).title == old(self).title,
            final(self).main_container == old(self).main_container,
            final(self).style_links == old(self).style_links,
    {
        self.backend.init()
    }

    /// Hands a copy of the tree and of the rules to the backend, if there is a tree.
    pub fn render(&mut self)
        ensures
            final(self).title == old(self).title,
            final(self).main_container == old(self).main_container,
            final(self).style_links == old(self).style_links,
            old(self).main_container is None ==> final(self).backend == old(self).backend,
    {
        match &self.main_container {
            Some(container) => {
                let tree = clone_tree(container);
                let links = self.style_links.clone();
                self.backend.render(tree, links);
            },
            None => {},
        }
    }

    pub fn display(&self) {
        self.backend.display();
    }

    pub fn close(&self) {
        self.backend.close();
    }

    /// Appends the child to the first node with the id; where there is none, the child is
    /// handed back.
    fn find_and_attach(container: &mut Container, target_id: &str, child_container: Container) -> (r: Option<Container>)
        ensures
            has_id(old(container)@, target_id@) ==> r is None && final(container)@ == attach_at(old(container)@, target_id@, child_container@),
            !has_id(old(container)@, target_id@) ==> r is Some && r->0@ == child_container@ && final(container)@ == old(container)@,
        decreases old(container)@,
    {
        if same_text(container.id.as_str(), target_id) {
            container.add_child(child_container);
            return None;
        }
        let ghost c = container@;
        let ghost t = target_id@;
        let mut child = child_container;
        let mut i: usize = 0;
        while i < container.childs.len()
            invariant
                c == old(container)@,
                c.id != t,
                t == target_id@,
                i <= container.childs@.len(),
                container@ == c,
                child@ == child_container@,
                forall|j: int| 0 <= j < i ==> !has_id(#[trigger] c.children[j], t),
            decreases container.childs@.len() - i,
        {
            assert(container.childs@[i as int]@ == c.children[i as int]);
            let ghost before = container.childs@;
            let r = Self::find_and_attach(&mut container.childs[i], target_id, child);
            match r {
                None => {
                    proof {
                        assert(container.childs@ == before.update(i as int, container.childs@[i as int]));
                        assert(is_first_holding(c.children, t, i as int));
                        assert forall|j: int| 0 <= j < c.children.len() && j != i implies !is_first_holding(c.children, t, j) by {
                            if j > i {
                                assert(has_id(c.children[i as int], t));
                            }
                        }
                        assert(container@.children =~= attach_at(c, t, child_container@).children);
                        assert(has_id(c.children[i as int], t));
                        lemma_has_id_unfold(c, t);
                    }
                    return None;
                },
                Some(back) => {
                    proof {
                        assert(container.childs@ == before.update(i as int, container.childs@[i as int]));
                        assert(container@.children =~= c.children);
                    }
                    child = back;
                },
            }
            i += 1;
        }
        proof {
            assert(!has_id(c, t)) by {
                lemma_has_id_unfold(c, t);
                if exists|j: int| 0 <= j < c.children.len() && #[trigger] has_id(c.children[j], t) {
                    let j = choose|j: int| 0 <= j < c.children.len() && #[trigger] has_id(c.children[j], t);
                    assert(!has_id(c.children[j], t));
                }
            }
        }
        Some(child)
    }
    /// Replaces the content of the first node with the id; tells whether there was one.
    fn find_and_change_contaiment(container: &mut Container, target_id: &str, new_contaiment: &str) -> (r: bool)
        ensures
            r == has_id(old(container)@, target_id@),
            final(container)@ == if r { set_content_at(old(container)@, target_id@, new_contaiment@) } else { old(container)@ },
        decreases old(container)@,
    {
        if same_text(container.id.as_str(), target_id) {
            container.contaiment = new_contaiment.to_owned();
            assert(container@.children =~= old(container)@.children);
            return true;
        }
        let ghost c = container@;
        let ghost t = target_id@;
        let mut i: usize = 0;
        while i < container.childs.len()
            invariant
                c == old(container)@,
                c.id != t,
                t == target_id@,
                i <= container.childs@.len(),
                container@ == c,
                forall|j: int| 0 <= j < i ==> !has_id(#[trigger] c.children[j], t),
            decreases container.childs@.len() - i,
        {
            assert(container.childs@[i as int]@ == c.children[i as int]);
            let ghost before = container.childs@;
            let found = Self::find_and_change_contaiment(&mut container.childs[i], target_id, new_contaiment);
            proof {
                assert(container.childs@ == before.update(i as int, container.childs@[i as int]));
            }
            if found {
                proof {
                    assert(is_first_holding(c.children, t, i as int));
                    assert forall|j: int| 0 <= j < c.children.len() && j != i implies !is_first_holding(c.children, t, j) by {
                        if j > i {
                            assert(has_id(c.children[i as int], t));
                        }
                    }
                    assert(container@.children =~= set_content_at(c, t, new_contaiment@).children);
                    assert(has_id(c.children[i as int], t));
                    lemma_has_id_unfold(c, t);
                }
                return true;
            }
            assert(container@.children =~= c.children);
            i += 1;
        }
        proof {
            assert(!has_id(c, t)) by {
                lemma_has_id_unfold(c, t);
                if exists|j: int| 0 <= j < c.children.len() && #[trigger] has_id(c.children[j], t) {
                    let j = choose|j: int| 0 <= j < c.children.len() && #[trigger] has_id(c.children[j], t);
                    assert(!has_id(c.children[j], t));
                }
            }
        }
        false
    }

    /// Removes one node with the id from below the root, as `remove_at` says; tells whether
    /// there was one.
    fn find_and_remove(container: &mut Container, target_id: &str) -> (r: bool)
        ensures
            r == has_id_below(old(container)@, target_id@),
            final(container)@ == if r { remove_at(old(container)@, target_id@) } else { old(container)@ },
        decreases old(container)@,
    {
        let ghost c = container@;
        let ghost t = target_id@;
        let mut k: usize = 0;
        while k < container.childs.len()
            invariant
                c == old(container)@,
                t == target_id@,
                container@ == c,
                container == old(container),
                k <= container.childs@.len(),
                forall|j: int| 0 <= j < k ==> (#[trigger] c.children[j]).id != t,
            decreases container.childs@.len() - k,
        {
            assert(container.childs@[k as int]@ == c.children[k as int]);
            if same_text(container.childs[k].id.as_str(), target_id) {
                proof {
                    assert(is_first_child_with(c.children, t, k as int));
                    assert forall|q: int| is_first_child_with(c.children, t, q) implies q == k by {
                        if q > k {
                            assert(c.children[k as int].id == t);
                        }
                    }
                    assert(has_id(c.children[k as int], t));
                }
                container.childs.remove(k);
                assert(container@.children =~= c.children.remove(k as int));
                return true;
            }
            k += 1;
        }
        assert(!exists|q: int| is_first_child_with(c.children, t, q));
        let mut i: usize = 0;
        while i < container.childs.len()
            invariant
                c == old(container)@,
                t == target_id@,
                !exists|q: int| is_first_child_with(c.children, t, q),
                forall|j: int| 0 <= j < c.children.len() ==> (#[trigger] c.children[j]).id != t,
                i <= container.childs@.len(),
                container@ == c,
                forall|j: int| 0 <= j < i ==> !has_id_below(#[trigger] c.children[j], t),
            decreases container.childs@.len() - i,
        {
            assert(container.childs@[i as int]@ == c.children[i as int]);
            let ghost before = container.childs@;
            let found = Self::find_and_remove(&mut container.childs[i], target_id);
            proof {
                assert(container.childs@ == before.update(i as int, container.childs@[i as int]));
            }
            if found {
                proof {
                    assert(is_first_holding_below(c.children, t, i as int));
                    assert forall|j: int| 0 <= j < c.children.len() && j != i implies !is_first_holding_below(c.children, t, j) by {
                        if j > i {
                            assert(has_id_below(c.children[i as int], t));
                        }
                    }
                    lemma_has_id_unfold(c.children[i as int], t);
                    assert(has_id(c.children[i as int], t));
                    assert(container@.children =~= remove_at(c, t).children);
                }
                return true;
            }
            assert(container@.children =~= c.children);
            i += 1;
        }
        proof {
            assert(!has_id_below(c, t)) by {
                if exists|j: int| 0 <= j < c.children.len() && #[trigger] has_id(c.children[j], t) {
                    let j = choose|j: int| 0 <= j < c.children.len() && #[trigger] has_id(c.children[j], t);
                    assert(!has_id_below(c.children[j], t));
                    assert(c.children[j].id != t);
                    lemma_has_id_unfold(c.children[j], t);
                }
            }
        }
        false
    }
}

impl Container {
    pub fn new(id: &str, contaiment: &str, classes: Vec<&str>, childs: Vec<Container>) -> (r: Self)
        ensures
            r.id@ == id@,
            r.contaiment@ == contaiment@,
            class_names(r.classes@) == classes@.map_values(|c: &str| c@),
            r.childs@ == childs@,
            r@.children == childs@.map_values(|c: Container| c@),
    {
        let mut owned: Vec<String> = Vec::new();
        let mut i: usize = 0;
        while i < classes.len()
            invariant
                i <= classes@.len(),
                class_names(owned@) == classes@.subrange(0, i as int).map_values(|c: &str| c@),
            decreases classes@.len() - i,
        {
            let ghost before = owned@;
            owned.push(classes[i].to_owned());
            proof {
                assert(classes@.subrange(0, i + 1) == classes@.subrange(0, i as int).push(classes@[i as int]));
                assert(class_names(owned@) =~= class_names(before).push(classes@[i as int]@));
                assert(classes@.subrange(0, i + 1).map_values(|c: &str| c@) =~= classes@.subrange(0, i as int).map_values(|c: &str| c@).push(classes@[i as int]@));
            }
            i += 1;
        }
        proof {
            assert(classes@.subrange(0, classes@.len() as int) == classes@);
        }
        let r = Container { id: id.to_owned(), contaiment: contaiment.to_owned(), classes: owned, childs };
        assert(r@.children =~= childs@.map_values(|c: Container| c@));
        r
    }

    /// A copy of the children.
    pub fn childs(&self) -> (r: Vec<Container>)
        ensures
            r@.map_values(|c: Container| c@) == self@.children,
    {
        let mut r: Vec<Container> = Vec::new();
        let mut i: usize = 0;
        while i < self.childs.len()
            invariant
                i <= self.childs@.len(),
                r@.len() == i,
                forall|j: int| 0 <= j < i ==> (#[trigger] r@[j])@ == self.childs@[j]@,
            decreases self.childs@.len() - i,
        {
            r.push(clone_tree(&self.childs[i]));
            i += 1;
        }
        assert(r@.map_values(|c: Container| c@) =~= self@.children);
        r
    }

    pub fn add_child(&mut self, child_container: Container)
        ensures
            final(self)@ == (ContainerView { children: old(self)@.children.push(child_container@), ..old(self)@ }),
    {
        self.childs.push(child_container);
        assert(self@.children =~= old(self)@.children.push(child_container@));
    }

    /// Removes the last child, if there is one.
    pub fn pop_child(&mut self)
        ensures
            final(self)@ == (if old(self)@.children.len() > 0 {
                ContainerView { children: old(self)@.children.drop_last(), ..old(self)@ }
            } else {
                old(self)@
            }),
    {
        if self.childs.len() > 0 {
            self.childs.pop();
            assert(self@.children =~= old(self)@.children.drop_last());
        }
    }

    pub fn clear_childs(&mut self)
        ensures
            final(self)@ == (ContainerView { children: seq![], ..old(self)@ }),
    {
        self.childs = Vec::new();
        assert(self@.children =~= Seq::<ContainerView>::empty());
    }

    /// Removes the first child whose id is `id`; nothing changes where no child has it.
    pub fn remove_child(&mut self, id: &str)
        ensures
            forall|k: int| is_first_child_with(old(self)@.children, id@, k) ==>
                final(self)@ == (ContainerView { children: old(self)@.children.remove(k), ..old(self)@ }),
            (forall|k: int| !is_first_child_with(old(self)@.children, id@, k)) ==> final(self)@ == old(self)@,
    {
        let mut i: usize = 0;
        while i < self.childs.len()
            invariant
                i <= self.childs@.len(),
                self == old(self),
                forall|j: int| 0 <= j < i ==> (#[trigger] self.childs@[j]).id@ != id@,
            decreases self.childs@.len() - i,
        {
            if same_text(self.childs[i].id.as_str(), id) {
                proof {
                    assert forall|j: int| 0 <= j < i implies (#[trigger] old(self)@.children[j]).id != id@ by {
                        assert(old(self)@.children[j] == old(self).childs@[j]@);
                    }
                    assert(old(self)@.children[i as int] == old(self).childs@[i as int]@);
                    assert(is_first_child_with(old(self)@.children, id@, i as int));
                    assert forall|k: int| is_first_child_with(old(self)@.children, id@, k) implies k == i by {
                        if k < i {
                        } else if k > i {
                            assert(old(self)@.children[i as int].id == id@);
                        }
                    }
                }
                self.childs.remove(i);
                assert(self@.children =~= old(self)@.children.remove(i as int));
                return;
            }
            i += 1;
        }
        proof {
            assert forall|k: int| !is_first_child_with(old(self)@.children, id@, k) by {
                if 0 <= k < old(self)@.children.len() {
                    assert(old(self)@.children[k] == old(self).childs@[k]@);
                }
            }
        }
    }

    pub fn add_class(&mut self, class: &str)
        ensures
            final(self)@ == (ContainerView { classes: old(self)@.classes.push(class@), ..old(self)@ }),
    {
        self.classes.push(class.to_owned());
        assert(self@.classes =~= old(self)@.classes.push(class@));
        assert(self@.children =~= old(self)@.children);
    }

    /// Removes the last class, if there is one.
    pub fn pop_class(&mut self)
        ensures
            final(self)@ == (if old(self)@.classes.len() > 0 {
                ContainerView { classes: old(self)@.classes.drop_last(), ..old(self)@ }
            } else {
                old(self)@
            }),
    {
        if self.classes.len() > 0 {
            self.classes.pop();
            assert(self@.classes =~= old(self)@.classes.drop_last());
            assert(self@.children =~= old(self)@.children);
        }
    }

    pub fn clear_classes(&mut self)
        ensures
            final(self)@ == (ContainerView { classes: seq![], ..old(self)@ }),
    {
        self.classes = Vec::new();
        assert(self@.classes =~= Seq::<Seq<char>>::empty());
        assert(self@.children =~= old(self)@.children);
    }
}

} // verus!
