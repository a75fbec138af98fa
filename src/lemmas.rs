use vstd::prelude::*;
use crate::geometry::{
    child_rect, child_sizes, default_style, fold_styles, ideals, is_horizontal, layout,
    layout_children, own_part, scaled_size, seq_sum, styles_for,
};
use crate::layout::{ContainerView, StyleLink};
use crate::style::Style;

verus! {

proof fn lemma_scaled_close(ideal: int, total: int, extent: int)
    requires
        ideal >= 0,
        total > 0,
        extent > 0,
    ensures
        ideal * extent - total <= total * scaled_size(ideal, total, extent) <= ideal * extent + total,
{
    let ie = ideal * extent;
    assert(2 * ideal * extent == 2 * ie) by (nonlinear_arith)
        requires ie == ideal * extent;
    assert(ie >= 0) by (nonlinear_arith)
        requires ideal >= 0, extent > 0, ie == ideal * extent;
    let v = (2 * ie + total) / (2 * total);
    assert(2 * total * v <= 2 * ie + total < 2 * total * v + 2 * total) by (nonlinear_arith)
        requires v == (2 * ie + total) / (2 * total), total > 0;
    assert(scaled_size(ideal, total, extent) == v);
    assert(ie - total <= total * v <= ie + total) by (nonlinear_arith)
        requires 2 * total * v <= 2 * ie + total, 2 * ie + total < 2 * total * v + 2 * total, total > 0;
}

proof fn lemma_sum_close(ids: Seq<int>, sizes: Seq<int>, total: int, extent: int)
    requires
        sizes.len() == ids.len(),
        total > 0,
        forall|i: int| 0 <= i < ids.len() ==>
            ids[i] * extent - total <= total * #[trigger] sizes[i] <= ids[i] * extent + total,
    ensures
        seq_sum(ids) * extent - ids.len() * total <= total * seq_sum(sizes) <= seq_sum(ids) * extent + ids.len() * total,
    decreases ids.len(),
{
    if ids.len() > 0 {
        let n = ids.len() - 1;
        lemma_sum_close(ids.drop_last(), sizes.drop_last(), total, extent);
        let a = seq_sum(ids.drop_last());
        let b = seq_sum(sizes.drop_last());
        let li = ids.last();
        let ls = sizes.last();
        assert(ids.last() * extent - total <= total * sizes.last() <= ids.last() * extent + total);
        assert((a + li) * extent == a * extent + li * extent) by (nonlinear_arith);
        assert(total * (b + ls) == total * b + total * ls) by (nonlinear_arith);
        assert((n + 1) * total == n * total + total) by (nonlinear_arith);
    }
}

proof fn lemma_ideals_at_zero(rules: Seq<StyleLink>, cs: Seq<ContainerView>, i: int)
    requires
        0 <= i < cs.len(),
    ensures
        0 <= ideals(rules, cs, 0)[i] <= 1,
{
}

proof fn lemma_ones_sum(s: Seq<int>)
    requires
        forall|i: int| 0 <= i < s.len() ==> s[i] == 1,
    ensures
        seq_sum(s) == s.len(),
    decreases s.len(),
{
    if s.len() > 0 {
        lemma_ones_sum(s.drop_last());
    }
}

proof fn lemma_ideals_nonneg(rules: Seq<StyleLink>, cs: Seq<ContainerView>, extent: int)
    requires
        extent >= 0,
    ensures
        forall|i: int| 0 <= i < cs.len() ==> #[trigger] ideals(rules, cs, extent)[i] >= 0,
{
}

/// The final sizes of the children of a parent add up to the parent's extent along the
/// active axis, give or take one cell per child. This needs some child to ask for room where
/// the extent is not zero: children that all ask for none get one cell each.
pub proof fn lemma_sizes_sum_near_extent(rules: Seq<StyleLink>, cs: Seq<ContainerView>, extent: int)
    requires
        extent >= 0,
        extent == 0 || seq_sum(ideals(rules, cs, extent)) > 0,
    ensures
        extent - cs.len() <= seq_sum(child_sizes(rules, cs, extent)) <= extent + cs.len(),
{
    let ids = ideals(rules, cs, extent);
    let sizes = child_sizes(rules, cs, extent);
    if extent == 0 {
        assert forall|i: int| 0 <= i < sizes.len() implies sizes[i] == 1 by {
            lemma_ideals_at_zero(rules, cs, i);
        }
        lemma_ones_sum(sizes);
    } else {
        let total = seq_sum(ids);
        lemma_ideals_nonneg(rules, cs, extent);
        assert forall|i: int| 0 <= i < ids.len() implies
            ids[i] * extent - total <= total * #[trigger] sizes[i] <= ids[i] * extent + total by {
            lemma_scaled_close(ids[i], total, extent);
        }
        lemma_sum_close(ids, sizes, total, extent);
        let s = seq_sum(sizes);
        let n = cs.len() as int;
        assert(extent - n <= s <= extent + n) by (nonlinear_arith)
            requires
                total * extent - n * total <= total * s <= total * extent + n * total,
                total > 0;
    }
}

proof fn lemma_no_margin_fold(s: Seq<Style>)
    requires
        forall|k: int| 0 <= k < s.len() ==> !(#[trigger] s[k] is Margin),
    ensures
        fold_styles(s).margin == default_style().margin,
    decreases s.len(),
{
    if s.len() > 0 {
        lemma_no_margin_fold(s.drop_last());
    }
}

/// A child without a margin attribute keeps the offsets its parent hands it; across the
/// parent's active axis that is the parent's own offset.
pub proof fn lemma_unmargined_child_offset(
    c: ContainerView,
    rules: Seq<StyleLink>,
    w: int,
    h: int,
    x: int,
    y: int,
    i: int,
)
    requires
        0 <= i < c.children.len(),
        forall|k: int| 0 <= k < styles_for(rules, c.children[i]).len() ==>
            !(#[trigger] styles_for(rules, c.children[i])[k] is Margin),
    ensures
        ({
            let g = child_rect(c, rules, w, h, x, y, i);
            let own = own_part(c.children[i], rules, g.0, g.1, g.2, g.3);
            let parent = own_part(c, rules, w, h, x, y);
            &&& own.x == g.2
            &&& own.y == g.3
            &&& is_horizontal(rules, c) ==> own.y == parent.y
            &&& !is_horizontal(rules, c) ==> own.x == parent.x
        }),
{
    lemma_no_margin_fold(styles_for(rules, c.children[i]));
}

proof fn lemma_children_suffix(c: ContainerView, rules: Seq<StyleLink>, w: int, h: int, x: int, y: int, j: int, i: int)
    requires
        0 <= j <= i,
    ensures
        layout_children(c, rules, w, h, x, y, i).len() <= layout_children(c, rules, w, h, x, y, j).len(),
        forall|t: int| 0 <= t < layout_children(c, rules, w, h, x, y, i).len() ==>
            layout_children(c, rules, w, h, x, y, j)[layout_children(c, rules, w, h, x, y, j).len()
                - layout_children(c, rules, w, h, x, y, i).len() + t]
                == #[trigger] layout_children(c, rules, w, h, x, y, i)[t],
    decreases i - j,
{
    if j < i {
        lemma_children_suffix(c, rules, w, h, x, y, j + 1, i);
        if j >= c.children.len() {
            assert(layout_children(c, rules, w, h, x, y, j + 1).len() == 0);
        }
    }
}

/// In the parts of a tree, a child without a margin attribute has its first part at the
/// index that precedes the parts of its later siblings, and that part keeps the offset of its
/// parent's part across the parent's active axis.
pub proof fn lemma_unmargined_child_part(
    c: ContainerView,
    rules: Seq<StyleLink>,
    w: int,
    h: int,
    x: int,
    y: int,
    i: int,
)
    requires
        0 <= i < c.children.len(),
        forall|k: int| 0 <= k < styles_for(rules, c.children[i]).len() ==>
            !(#[trigger] styles_for(rules, c.children[i])[k] is Margin),
    ensures
        ({
            let parts = layout(c, rules, w, h, x, y);
            let k = parts.len() - layout_children(c, rules, w, h, x, y, i).len();
            let g = child_rect(c, rules, w, h, x, y, i);
            &&& 1 <= k < parts.len()
            &&& parts[k] == own_part(c.children[i], rules, g.0, g.1, g.2, g.3)
            &&& is_horizontal(rules, c) ==> parts[k].y == parts[0].y
            &&& !is_horizontal(rules, c) ==> parts[k].x == parts[0].x
        }),
{
    let parts = layout(c, rules, w, h, x, y);
    let all = layout_children(c, rules, w, h, x, y, 0);
    let rest = layout_children(c, rules, w, h, x, y, i);
    let g = child_rect(c, rules, w, h, x, y, i);
    lemma_children_suffix(c, rules, w, h, x, y, 0, i);
    assert(rest[0] == layout(c.children[i], rules, g.0, g.1, g.2, g.3)[0]);
    assert(all[all.len() - rest.len() + 0] == rest[0]);
    assert(parts[parts.len() - rest.len()] == all[all.len() - rest.len()]);
    lemma_unmargined_child_offset(c, rules, w, h, x, y, i);
}

/// Every part of a layout is at least one cell wide and one cell high, whatever rectangle the
/// root is given, a zero-sized one included.
pub proof fn lemma_parts_at_least_one_cell(c: ContainerView, rules: Seq<StyleLink>, w: int, h: int, x: int, y: int)
    ensures
        forall|k: int| 0 <= k < layout(c, rules, w, h, x, y).len() ==>
            (#[trigger] layout(c, rules, w, h, x, y)[k]).width >= 1 && layout(c, rules, w, h, x, y)[k].height >= 1,
    decreases c, c.children.len() + 1,
{
    lemma_children_at_least_one_cell(c, rules, w, h, x, y, 0);
}

proof fn lemma_children_at_least_one_cell(c: ContainerView, rules: Seq<StyleLink>, w: int, h: int, x: int, y: int, i: int)
    ensures
        forall|k: int| 0 <= k < layout_children(c, rules, w, h, x, y, i).len() ==>
            (#[trigger] layout_children(c, rules, w, h, x, y, i)[k]).width >= 1
                && layout_children(c, rules, w, h, x, y, i)[k].height >= 1,
    decreases c, c.children.len() - i,
{
    if 0 <= i < c.children.len() {
        let g = child_rect(c, rules, w, h, x, y, i);
        lemma_parts_at_least_one_cell(c.children[i], rules, g.0, g.1, g.2, g.3);
        lemma_children_at_least_one_cell(c, rules, w, h, x, y, i + 1);
    }
}

} // verus!
