use vstd::prelude::*;
use crate::layout::{class_names, Container, ContainerView, StyleLink};
use crate::style::{Align, ContentWrap, Orientation, Size, Style};

verus! {

// Style resolution.

/// Whether a rule selects a container: by its id, or by one of its classes.
pub open spec fn link_applies(l: StyleLink, c: ContainerView) -> bool {
    (l.id is Some && l.id->0@ == c.id) || (l.class is Some && c.classes.contains(l.class->0@))
}

/// The attributes that apply to a container: those of every rule that selects it, in rule
/// order, each rule's attributes in their own order.
pub open spec fn styles_for(rules: Seq<StyleLink>, c: ContainerView) -> Seq<Style>
    decreases rules.len(),
{
    if rules.len() == 0 {
        seq![]
    } else {
        styles_for(rules.drop_last(), c) + if link_applies(rules.last(), c) {
            rules.last().style@
        } else {
            seq![]
        }
    }
}

fn has_class(classes: &Vec<String>, class: &String) -> (r: bool)
    ensures
        r == class_names(classes@).contains(class@),
{
    let mut i: usize = 0;
    while i < classes.len()
        invariant
            i <= classes@.len(),
            forall|j: int| 0 <= j < i ==> classes@[j]@ != class@,
        decreases classes@.len() - i,
    {
        if classes[i].eq(class) {
            assert(class_names(classes@)[i as int] == class@);
            return true;
        }
        i += 1;
    }
    proof {
        if class_names(classes@).contains(class@) {
            let k = choose|k: int| 0 <= k < class_names(classes@).len() && class_names(classes@)[k] == class@;
            assert(classes@[k]@ == class@);
        }
    }
    false
}

fn link_selects(link: &StyleLink, container: &Container) -> (r: bool)
    ensures
        r == link_applies(*link, container@),
{
    let by_id = match &link.id {
        Some(id) => id.eq(&container.id),
        None => false,
    };
    if by_id {
        return true;
    }
    match &link.class {
        Some(class) => has_class(&container.classes, class),
        None => false,
    }
}

/// Collects the attributes of every rule that selects the container.
pub fn find_container_style(style_links: &Vec<StyleLink>, container: &Container) -> (r: Vec<Style>)
    ensures
        r@ == styles_for(style_links@, container@),
{
    let mut r: Vec<Style> = Vec::new();
    let mut i: usize = 0;
    while i < style_links.len()
        invariant
            i <= style_links@.len(),
            r@ == styles_for(style_links@.subrange(0, i as int), container@),
        decreases style_links@.len() - i,
    {
        let link = &style_links[i];
        let ghost before = r@;
        if link_selects(link, container) {
            let mut j: usize = 0;
            while j < link.style.len()
                invariant
                    j <= link.style@.len(),
                    r@ == before + link.style@.subrange(0, j as int),
                decreases link.style@.len() - j,
            {
                r.push(link.style[j]);
                proof {
                    assert(link.style@.subrange(0, j + 1) == link.style@.subrange(0, j as int).push(link.style@[j as int]));
                }
                j += 1;
            }
            assert(link.style@.subrange(0, link.style@.len() as int) == link.style@);
        }
        proof {
            let next = style_links@.subrange(0, i + 1);
            assert(next.drop_last() == style_links@.subrange(0, i as int));
            assert(next.last() == style_links@[i as int]);
            assert(r@ =~= styles_for(next, container@));
        }
        i += 1;
    }
    assert(style_links@.subrange(0, style_links@.len() as int) == style_links@);
    r
}

// Folding attributes into one record, the last of each kind winning.

/// The attributes of a container once all that apply to it have been folded together.
#[derive(Clone, Copy)]
pub struct ResolvedStyle {
    pub orientation: Orientation,
    pub min_size: Size,
    pub max_size: Size,
    pub wrap: bool,
    pub h_align: Align,
    pub v_align: Align,
    /// Left, top, right and bottom; no margin is four times `Fixed(0)`.
    pub margin: (Size, Size, Size, Size),
}

pub open spec fn default_style() -> ResolvedStyle {
    ResolvedStyle {
        orientation: Orientation::Horizontal,
        min_size: Size::Fixed(1),
        max_size: Size::Percent(100),
        wrap: false,
        h_align: Align::Left,
        v_align: Align::Top,
        margin: (Size::Fixed(0), Size::Fixed(0), Size::Fixed(0), Size::Fixed(0)),
    }
}

/// The record after one more attribute: it overwrites the value of its own kind.
pub open spec fn apply_style(r: ResolvedStyle, s: Style) -> ResolvedStyle {
    match s {
        Style::Orientation(o) => ResolvedStyle { orientation: o, ..r },
        Style::MinSize(v) => ResolvedStyle { min_size: v, ..r },
        Style::MaxSize(v) => ResolvedStyle { max_size: v, ..r },
        Style::ContentWrap(w) => ResolvedStyle { wrap: w == ContentWrap::Wrap, ..r },
        Style::HAlign(a) => ResolvedStyle { h_align: a, ..r },
        Style::VAlign(a) => ResolvedStyle { v_align: a, ..r },
        Style::Margin(l, t, rt, b) => ResolvedStyle { margin: (l, t, rt, b), ..r },
    }
}

pub open spec fn fold_styles(s: Seq<Style>) -> ResolvedStyle
    decreases s.len(),
{
    if s.len() == 0 {
        default_style()
    } else {
        apply_style(fold_styles(s.drop_last()), s.last())
    }
}

/// The folded attributes that apply to a container.
pub open spec fn container_style(rules: Seq<StyleLink>, c: ContainerView) -> ResolvedStyle {
    fold_styles(styles_for(rules, c))
}

/// Folds a sequence of attributes, starting from the defaults.
pub fn resolve_styles(styles: &Vec<Style>) -> (r: ResolvedStyle)
    ensures
        r == fold_styles(styles@),
{
    let mut r = ResolvedStyle {
        orientation: Orientation::Horizontal,
        min_size: Size::Fixed(1),
        max_size: Size::Percent(100),
        wrap: false,
        h_align: Align::Left,
        v_align: Align::Top,
        margin: (Size::Fixed(0), Size::Fixed(0), Size::Fixed(0), Size::Fixed(0)),
    };
    let mut i: usize = 0;
    while i < styles.len()
        invariant
            i <= styles@.len(),
            r == fold_styles(styles@.subrange(0, i as int)),
        decreases styles@.len() - i,
    {
        match styles[i] {
            Style::Orientation(o) => r.orientation = o,
            Style::MinSize(v) => r.min_size = v,
            Style::MaxSize(v) => r.max_size = v,
            Style::ContentWrap(w) => r.wrap = match w {
                ContentWrap::Wrap => true,
                ContentWrap::NoWrap => false,
            },
            Style::HAlign(a) => r.h_align = a,
            Style::VAlign(a) => r.v_align = a,
            Style::Margin(l, t, rt, b) => r.margin = (l, t, rt, b),
        }
        proof {
            let next = styles@.subrange(0, i + 1);
            assert(next.drop_last() == styles@.subrange(0, i as int));
        }
        i += 1;
    }
    assert(styles@.subrange(0, styles@.len() as int) == styles@);
    r
}

// Sizes along the active axis.

/// A percentage of an extent: the percentage is clamped to 1..=100, the result rounded down
/// and then raised to at least one cell.
pub open spec fn real_size(percent: int, extent: int) -> int {
    let p = if percent < 1 { 1 } else if percent > 100 { 100 } else { percent };
    let v = p * extent / 100;
    if v < 1 { 1 } else { v }
}

pub fn find_real_size(percent_size: u8, max_size: u32) -> (r: u32)
    ensures
        r == real_size(percent_size as int, max_size as int),
{
    let p: u64 = if percent_size < 1 { 1 } else if percent_size > 100 { 100 } else { percent_size as u64 };
    assert(p * (max_size as u64) <= 100 * 0xffff_ffff) by (nonlinear_arith)
        requires p <= 100, max_size <= 0xffff_ffff;
    let v: u64 = p * (max_size as u64) / 100;
    assert(v <= max_size) by (nonlinear_arith)
        requires v == p * (max_size as u64) / 100, p <= 100;
    if v < 1 { 1 } else { v as u32 }
}

/// A minimum or maximum size against the parent's extent: a fixed size is capped at the
/// extent, a percentage is resolved by `real_size`.
pub open spec fn bound_size(s: Size, extent: int) -> int {
    match s {
        Size::Fixed(v) => if extent < v { extent } else { v as int },
        Size::Percent(p) => real_size(p as int, extent),
    }
}

/// The size a child asks for: the larger of its resolved minimum and maximum.
pub open spec fn ideal_size(r: ResolvedStyle, extent: int) -> int {
    let lo = bound_size(r.min_size, extent);
    let hi = bound_size(r.max_size, extent);
    if lo > hi { lo } else { hi }
}

pub open spec fn ideals(rules: Seq<StyleLink>, cs: Seq<ContainerView>, extent: int) -> Seq<int> {
    Seq::new(cs.len(), |i: int| ideal_size(container_style(rules, cs[i]), extent))
}

pub open spec fn seq_sum(s: Seq<int>) -> int
    decreases s.len(),
{
    if s.len() == 0 {
        0
    } else {
        seq_sum(s.drop_last()) + s.last()
    }
}

/// One child's final size: its ideal size scaled by `extent / total` and rounded to the
/// nearest cell, halves up. Where the extent or the total is zero nothing is scaled and the
/// ideal size is raised to at least one cell.
pub open spec fn scaled_size(ideal: int, total: int, extent: int) -> int {
    if extent == 0 || total == 0 {
        if ideal < 1 { 1 } else { ideal }
    } else {
        (2 * ideal * extent + total) / (2 * total)
    }
}

/// The final sizes of the children of a parent whose active-axis extent is `extent`.
pub open spec fn child_sizes(rules: Seq<StyleLink>, cs: Seq<ContainerView>, extent: int) -> Seq<int> {
    let ids = ideals(rules, cs, extent);
    Seq::new(cs.len(), |i: int| scaled_size(ids[i], seq_sum(ids), extent))
}

fn resolve_bound(s: Size, extent: u32) -> (r: u32)
    ensures
        r == bound_size(s, extent as int),
{
    match s {
        Size::Fixed(v) => if extent < v { extent } else { v },
        Size::Percent(p) => find_real_size(p, extent),
    }
}

fn ideal_of(style_links: &Vec<StyleLink>, c: &Container, extent: u32) -> (r: u32)
    ensures
        r == ideal_size(container_style(style_links@, c@), extent as int),
{
    let styles = find_container_style(style_links, c);
    let rs = resolve_styles(&styles);
    let lo = resolve_bound(rs.min_size, extent);
    let hi = resolve_bound(rs.max_size, extent);
    if lo > hi { lo } else { hi }
}

proof fn lemma_element_le_sum(s: Seq<int>, i: int)
    requires
        0 <= i < s.len(),
        forall|j: int| 0 <= j < s.len() ==> s[j] >= 0,
    ensures
        s[i] <= seq_sum(s),
        seq_sum(s) >= 0,
    decreases s.len(),
{
    lemma_sum_nonneg(s.drop_last());
    if i < s.len() - 1 {
        lemma_element_le_sum(s.drop_last(), i);
    }
}

proof fn lemma_sum_nonneg(s: Seq<int>)
    requires
        forall|j: int| 0 <= j < s.len() ==> s[j] >= 0,
    ensures
        seq_sum(s) >= 0,
    decreases s.len(),
{
    if s.len() > 0 {
        lemma_sum_nonneg(s.drop_last());
    }
}

proof fn lemma_scaled_fits(ideal: int, total: int, extent: int)
    requires
        0 <= ideal <= total,
        total > 0,
        extent > 0,
    ensures
        scaled_size(ideal, total, extent) <= extent,
{
    assert((2 * ideal * extent + total) / (2 * total) <= extent) by (nonlinear_arith)
        requires 0 <= ideal <= total, total > 0, extent > 0;
}

/// Rounds `ideal * extent / total` to the nearest integer, halves up.
fn scale(ideal: u32, total: u128, extent: u32) -> (r: u32)
    requires
        ideal <= total,
        total > 0,
        extent > 0,
        total <= 0x1_0000_0000_0000_0000_0000_0000,
    ensures
        r == scaled_size(ideal as int, total as int, extent as int),
{
    assert((ideal as int) * (extent as int) <= 0xffff_ffff_ffff_ffff) by (nonlinear_arith)
        requires ideal <= 0xffff_ffff, extent <= 0xffff_ffff;
    let prod: u128 = (ideal as u128) * (extent as u128);
    let v: u128 = (2 * prod + total) / (2 * total);
    proof {
        assert(2 * prod == 2 * (ideal as int) * (extent as int)) by (nonlinear_arith)
            requires prod == (ideal as int) * (extent as int);
        lemma_scaled_fits(ideal as int, total as int, extent as int);
        assert(v == (2 * (ideal as int) * (extent as int) + total) / (2 * total));
    }
    v as u32
}

/// The final active-axis sizes of the children of a parent of extent `parent_size`.
pub fn find_childs_size(style_links: &Vec<StyleLink>, childs: &Vec<Container>, parent_size: u32) -> (r: Vec<u32>)
    ensures
        r@.len() == childs@.len(),
        forall|i: int| 0 <= i < r@.len() ==>
            r@[i] == child_sizes(style_links@, childs@.map_values(|c: Container| c@), parent_size as int)[i],
{
    let ghost cs = childs@.map_values(|c: Container| c@);
    let ghost ids = ideals(style_links@, cs, parent_size as int);
    let mut sizes: Vec<u32> = Vec::new();
    let mut total: u128 = 0;
    let mut i: usize = 0;
    while i < childs.len()
        invariant
            i <= childs@.len(),
            cs == childs@.map_values(|c: Container| c@),
            ids == ideals(style_links@, cs, parent_size as int),
            sizes@.len() == i,
            forall|j: int| 0 <= j < i ==> sizes@[j] == ids[j],
            total == seq_sum(ids.subrange(0, i as int)),
            total <= i * 0xffff_ffff,
        decreases childs@.len() - i,
    {
        let v = ideal_of(style_links, &childs[i], parent_size);
        proof {
            let next = ids.subrange(0, i + 1);
            assert(next.drop_last() == ids.subrange(0, i as int));
            assert(i * 0xffff_ffff + 0xffff_ffff == (i + 1) * 0xffff_ffff) by (nonlinear_arith);
            assert(i < 0x1_0000_0000_0000_0000);
            assert((i + 1) * 0xffff_ffff <= 0x1_0000_0000_0000_0000 * 0xffff_ffff) by (nonlinear_arith)
                requires i < 0x1_0000_0000_0000_0000;
        }
        sizes.push(v);
        total = total + v as u128;
        i += 1;
    }
    proof {
        assert(ids.subrange(0, childs@.len() as int) == ids);
        assert(childs@.len() * 0xffff_ffff <= 0x1_0000_0000_0000_0000 * 0xffff_ffff) by (nonlinear_arith)
            requires childs@.len() <= 0x1_0000_0000_0000_0000;
        assert forall|j: int| 0 <= j < ids.len() implies ids[j] >= 0 by {}
    }
    let mut r: Vec<u32> = Vec::new();
    let mut k: usize = 0;
    while k < sizes.len()
        invariant
            k <= sizes@.len(),
            sizes@.len() == childs@.len(),
            cs == childs@.map_values(|c: Container| c@),
            ids == ideals(style_links@, cs, parent_size as int),
            forall|j: int| 0 <= j < sizes@.len() ==> sizes@[j] == ids[j],
            total == seq_sum(ids),
            total <= 0x1_0000_0000_0000_0000 * 0xffff_ffff,
            r@.len() == k,
            forall|j: int| 0 <= j < k ==> r@[j] == child_sizes(style_links@, cs, parent_size as int)[j],
        decreases sizes@.len() - k,
    {
        let v = if parent_size == 0 || total == 0 {
            if sizes[k] < 1 { 1 } else { sizes[k] }
        } else {
            proof {
                assert forall|j: int| 0 <= j < ids.len() implies ids[j] >= 0 by {}
                lemma_element_le_sum(ids, k as int);
            }
            scale(sizes[k], total, parent_size)
        };
        r.push(v);
        k += 1;
    }
    r
}

// Rectangles.

/// A resolved, positioned region: `geometry` is width, height, x offset and y offset in cells.
pub struct RenderPart {
    pub geometry: (u32, u32, u32, u32),
    pub wrap_contaiment: bool,
    pub h_align: Align,
    pub v_align: Align,
    pub contaiment: String,
}

/// The value of a render part.
pub struct PartView {
    pub width: int,
    pub height: int,
    pub x: int,
    pub y: int,
    pub wrap: bool,
    pub h_align: Align,
    pub v_align: Align,
    pub content: Seq<char>,
}

impl View for RenderPart {
    type V = PartView;

    open spec fn view(&self) -> PartView {
        PartView {
            width: self.geometry.0 as int,
            height: self.geometry.1 as int,
            x: self.geometry.2 as int,
            y: self.geometry.3 as int,
            wrap: self.wrap_contaiment,
            h_align: self.h_align,
            v_align: self.v_align,
            content: self.contaiment@,
        }
    }
}

pub open spec fn part_views(ps: Seq<RenderPart>) -> Seq<PartView> {
    ps.map_values(|p: RenderPart| p@)
}

/// A margin against the extent of its axis: a percentage is resolved by `real_size`; a fixed
/// margin that reaches the extent is cut to leave one cell.
pub open spec fn margin_size(s: Size, extent: int) -> int {
    match s {
        Size::Percent(p) => real_size(p as int, extent),
        Size::Fixed(v) => if v >= extent {
            if extent >= 1 { extent - 1 } else { 0 }
        } else {
            v as int
        },
    }
}

/// An offset, saturating at the largest `u32`.
pub open spec fn sat(v: int) -> int {
    if v > u32::MAX { u32::MAX as int } else { v }
}

pub open spec fn at_least_one(v: int) -> int {
    if v < 1 { 1 } else { v }
}

/// The rectangle of a container that its parent handed `(w, h, x, y)`: shrunk by its margin,
/// never below one cell, with its own wrap and alignment.
pub open spec fn own_part(c: ContainerView, rules: Seq<StyleLink>, w: int, h: int, x: int, y: int) -> PartView {
    let r = container_style(rules, c);
    let l = margin_size(r.margin.0, w);
    let t = margin_size(r.margin.1, h);
    let rt = margin_size(r.margin.2, w);
    let b = margin_size(r.margin.3, h);
    PartView {
        width: at_least_one(w - l - rt),
        height: at_least_one(h - t - b),
        x: sat(x + l),
        y: sat(y + t),
        wrap: r.wrap,
        h_align: r.h_align,
        v_align: r.v_align,
        content: c.content,
    }
}

pub open spec fn is_horizontal(rules: Seq<StyleLink>, c: ContainerView) -> bool {
    container_style(rules, c).orientation == Orientation::Horizontal
}

/// The final sizes of the children of `c`, against its own extent on its active axis.
pub open spec fn sizes_in(c: ContainerView, rules: Seq<StyleLink>, p: PartView) -> Seq<int> {
    child_sizes(rules, c.children, if is_horizontal(rules, c) { p.width } else { p.height })
}

/// The rectangle that `c`, itself handed `(w, h, x, y)`, hands its child `i`: the child's size
/// on the active axis, the parent's whole extent across it, and an offset on the active axis
/// that is the parent's plus the sizes of the earlier children.
pub open spec fn child_rect(c: ContainerView, rules: Seq<StyleLink>, w: int, h: int, x: int, y: int, i: int) -> (int, int, int, int) {
    let p = own_part(c, rules, w, h, x, y);
    let sizes = sizes_in(c, rules, p);
    if is_horizontal(rules, c) {
        (sizes[i], p.height, sat(p.x + seq_sum(sizes.take(i))), p.y)
    } else {
        (p.width, sizes[i], p.x, sat(p.y + seq_sum(sizes.take(i))))
    }
}

/// The parts of a tree in pre-order: a container's own part, then those of its children.
pub open spec fn layout(c: ContainerView, rules: Seq<StyleLink>, w: int, h: int, x: int, y: int) -> Seq<PartView>
    decreases c, c.children.len() + 1,
{
    seq![own_part(c, rules, w, h, x, y)] + layout_children(c, rules, w, h, x, y, 0)
}

/// The parts of the children of `c` from child `i` on.
pub open spec fn layout_children(c: ContainerView, rules: Seq<StyleLink>, w: int, h: int, x: int, y: int, i: int) -> Seq<PartView>
    decreases c, c.children.len() - i,
{
    if i < 0 || i >= c.children.len() {
        seq![]
    } else {
        let g = child_rect(c, rules, w, h, x, y, i);
        layout(c.children[i], rules, g.0, g.1, g.2, g.3) + layout_children(c, rules, w, h, x, y, i + 1)
    }
}

fn resolve_margin(s: Size, extent: u32) -> (r: u32)
    ensures
        r == margin_size(s, extent as int),
        extent >= 1 ==> r <= extent,
{
    match s {
        Size::Percent(p) => {
            let v = find_real_size(p, extent);
            assert(extent >= 1 ==> v <= extent) by (nonlinear_arith)
                requires v == real_size(p as int, extent as int);
            v
        },
        Size::Fixed(v) => if v >= extent {
            if extent >= 1 { extent - 1 } else { 0 }
        } else {
            v
        },
    }
}

fn shrink(geometry: (u32, u32, u32, u32), margin: (Size, Size, Size, Size)) -> (r: (u32, u32, u32, u32))
    ensures
        r.0 == at_least_one(geometry.0 - margin_size(margin.0, geometry.0 as int) - margin_size(margin.2, geometry.0 as int)),
        r.1 == at_least_one(geometry.1 - margin_size(margin.1, geometry.1 as int) - margin_size(margin.3, geometry.1 as int)),
        r.2 == sat(geometry.2 + margin_size(margin.0, geometry.0 as int)),
        r.3 == sat(geometry.3 + margin_size(margin.1, geometry.1 as int)),
{
    let l = resolve_margin(margin.0, geometry.0);
    let t = resolve_margin(margin.1, geometry.1);
    let rt = resolve_margin(margin.2, geometry.0);
    let b = resolve_margin(margin.3, geometry.1);
    let w: u32 = if (geometry.0 as u64) > (l as u64) + (rt as u64) + 1 { geometry.0 - l - rt } else { 1 };
    let h: u32 = if (geometry.1 as u64) > (t as u64) + (b as u64) + 1 { geometry.1 - t - b } else { 1 };
    (w, h, geometry.2.saturating_add(l), geometry.3.saturating_add(t))
}

impl RenderPart {
    pub fn new(
        geometry: (u32, u32, u32, u32),
        wrap_contaiment: bool,
        h_align: Align,
        v_align: Align,
        contaiment: String,
    ) -> (r: Self)
        ensures
            r.geometry == geometry,
            r.wrap_contaiment == wrap_contaiment,
            r.h_align == h_align,
            r.v_align == v_align,
            r.contaiment == contaiment,
    {
        RenderPart { geometry, wrap_contaiment, h_align, v_align, contaiment }
    }

    /// The part of `container` at `geometry`, with the wrap and alignment that `styles` fold to.
    pub fn from_container(geometry: (u32, u32, u32, u32), container: &Container, styles: &Vec<Style>) -> (r: Self)
        ensures
            r.geometry == geometry,
            r.wrap_contaiment == fold_styles(styles@).wrap,
            r.h_align == fold_styles(styles@).h_align,
            r.v_align == fold_styles(styles@).v_align,
            r.contaiment@ == container.contaiment@,
    {
        let rs = resolve_styles(styles);
        RenderPart {
            geometry,
            wrap_contaiment: rs.wrap,
            h_align: rs.h_align,
            v_align: rs.v_align,
            contaiment: container.contaiment.clone(),
        }
    }
}

proof fn lemma_sat_add(a: int, b: int)
    requires
        a >= 0,
        b >= 0,
    ensures
        sat(sat(a) + b) == sat(a + b),
{
}

/// Lays out `container` and its descendants in the rectangle `geometry` (width, height, x, y).
pub fn prepare_render_parts(container: &Container, style_links: &Vec<StyleLink>, geometry: (u32, u32, u32, u32)) -> (r: Vec<RenderPart>)
    ensures
        part_views(r@) == layout(container@, style_links@, geometry.0 as int, geometry.1 as int, geometry.2 as int, geometry.3 as int),
    decreases container,
{
    let ghost c = container@;
    let ghost rules = style_links@;
    let ghost (w, h, x, y) = (geometry.0 as int, geometry.1 as int, geometry.2 as int, geometry.3 as int);
    let styles = find_container_style(style_links, container);
    let rs = resolve_styles(&styles);
    let inner = shrink(geometry, rs.margin);
    let part = RenderPart::from_container(inner, container, &styles);
    assert(part@ == own_part(c, rules, w, h, x, y));
    let mut result: Vec<RenderPart> = Vec::new();
    result.push(part);
    let horizontal = match rs.orientation {
        Orientation::Horizontal => true,
        Orientation::Vertical => false,
    };
    let sizes = find_childs_size(style_links, &container.childs, if horizontal { inner.0 } else { inner.1 });
    let ghost ssizes = sizes_in(c, rules, part@);
    proof {
        assert(container.childs@.map_values(|k: Container| k@) =~= c.children);
    }
    let mut offset: u32 = if horizontal { inner.2 } else { inner.3 };
    let mut i: usize = 0;
    while i < container.childs.len()
        invariant
            i <= container.childs@.len(),
            c == container@,
            rules == style_links@,
            part@ == own_part(c, rules, w, h, x, y),
            horizontal == is_horizontal(rules, c),
            ssizes == sizes_in(c, rules, part@),
            sizes@.len() == container.childs@.len(),
            forall|j: int| 0 <= j < sizes@.len() ==> sizes@[j] == ssizes[j],
            inner == part.geometry,
            offset == sat((if horizontal { inner.2 } else { inner.3 }) + seq_sum(ssizes.take(i as int))),
            part_views(result@) + layout_children(c, rules, w, h, x, y, i as int) == layout(c, rules, w, h, x, y),
        decreases container.childs@.len() - i,
    {
        let child_geometry = if horizontal {
            (sizes[i], inner.1, offset, inner.3)
        } else {
            (inner.0, sizes[i], inner.2, offset)
        };
        assert(child_geometry == (child_rect(c, rules, w, h, x, y, i as int).0 as u32, child_rect(c, rules, w, h, x, y, i as int).1 as u32, child_rect(c, rules, w, h, x, y, i as int).2 as u32, child_rect(c, rules, w, h, x, y, i as int).3 as u32));
        let mut sub = prepare_render_parts(&container.childs[i], style_links, child_geometry);
        let ghost before = result@;
        result.append(&mut sub);
        proof {
            assert(part_views(result@) =~= part_views(before) + layout(c.children[i as int], rules, child_geometry.0 as int, child_geometry.1 as int, child_geometry.2 as int, child_geometry.3 as int));
            assert(ssizes.take(i + 1).drop_last() == ssizes.take(i as int));
            lemma_sat_add((if horizontal { inner.2 as int } else { inner.3 as int }) + seq_sum(ssizes.take(i as int)), ssizes[i as int]);
            assert(seq_sum(ssizes.take(i + 1)) == seq_sum(ssizes.take(i as int)) + ssizes[i as int]);
        }
        offset = offset.saturating_add(sizes[i]);
        i += 1;
    }
    result
}

} // verus!
