//! The box tree and the layout engine.
//!
//! The builder turns a styled tree into a tree of block, inline and anonymous
//! boxes; the engine then assigns every box absolute dimensions, resolving
//! widths top-down and heights bottom-up in one depth-first sweep.

use vstd::prelude::*;
use crate::css::Value;
use crate::style::{spec_style_find, style_value, Display, StyledNode};

verus! {

/// Any single style length fits strictly below this bound.
pub const MAX_PX: u64 = 0x1_0000_0000;

/// Coordinates handed to and produced by layout stay below this bound, which
/// keeps every sum computed here inside a `u64`.
pub const POS_LIMIT: u64 = 0x4000_0000_0000_0000;

/// A rectangle in viewport coordinates, in integer pixel units.
#[derive(Clone, Copy, PartialEq, Eq, Structural, Debug)]
pub struct Rect {
    pub x: u64,
    pub y: u64,
    pub width: u64,
    pub height: u64,
}

/// The sizes of one ring of the box model on each of the four sides.
#[derive(Clone, Copy, PartialEq, Eq, Structural, Debug)]
pub struct EdgeSizes {
    pub left: u64,
    pub right: u64,
    pub top: u64,
    pub bottom: u64,
}

/// A box's content rectangle and its padding, border and margin rings. The
/// content origin is always in viewport coordinates, never parent-relative.
#[derive(Clone, Copy, PartialEq, Eq, Structural, Debug)]
pub struct Dimensions {
    pub content: Rect,
    pub padding: EdgeSizes,
    pub border: EdgeSizes,
    pub margin: EdgeSizes,
}

impl Dimensions {
    /// All-zero dimensions, the state of every box before layout.
    pub fn zero() -> (d: Dimensions)
        ensures
            d == spec_zero_dimensions(),
    {
        Dimensions {
            content: Rect { x: 0, y: 0, width: 0, height: 0 },
            padding: EdgeSizes { left: 0, right: 0, top: 0, bottom: 0 },
            border: EdgeSizes { left: 0, right: 0, top: 0, bottom: 0 },
            margin: EdgeSizes { left: 0, right: 0, top: 0, bottom: 0 },
        }
    }
}

pub open spec fn spec_zero_dimensions() -> Dimensions {
    Dimensions {
        content: Rect { x: 0, y: 0, width: 0, height: 0 },
        padding: EdgeSizes { left: 0, right: 0, top: 0, bottom: 0 },
        border: EdgeSizes { left: 0, right: 0, top: 0, bottom: 0 },
        margin: EdgeSizes { left: 0, right: 0, top: 0, bottom: 0 },
    }
}

/// The three kinds of layout box.
#[derive(Clone, Copy, PartialEq, Eq, Structural, Debug)]
pub enum BoxType {
    BlockNode,
    InlineNode,
    AnonymousBlock,
}

/// One node of the layout tree. Anonymous boxes carry an empty style and no
/// text; the others carry the resolved style of their originating node.
pub struct LayoutBox {
    pub box_type: BoxType,
    pub specified: Vec<(String, Value)>,
    pub text: Option<String>,
    pub dimensions: Dimensions,
    pub children: Vec<LayoutBox>,
}

/// The style and structure of a box tree, with dimensions erased: what the
/// builder determines and the layout engine must preserve.
pub ghost struct BoxM {
    pub box_type: BoxType,
    pub specified: Seq<(String, Value)>,
    pub text: Option<Seq<char>>,
    pub children: Seq<BoxM>,
}

pub open spec fn spec_text_view(t: Option<String>) -> Option<Seq<char>> {
    match t {
        Some(s) => Some(s@),
        None => None,
    }
}

pub open spec fn box_view(b: LayoutBox) -> BoxM
    decreases b,
{
    BoxM {
        box_type: b.box_type,
        specified: b.specified@,
        text: spec_text_view(b.text),
        children: boxes_view(b.children@),
    }
}

pub open spec fn boxes_view(s: Seq<LayoutBox>) -> Seq<BoxM>
    decreases s,
{
    if s.len() == 0 {
        Seq::empty()
    } else {
        boxes_view(s.drop_last()).push(box_view(s.last()))
    }
}

pub proof fn lemma_boxes_view_index(s: Seq<LayoutBox>)
    ensures
        boxes_view(s).len() == s.len(),
        forall|i: int| 0 <= i < s.len() ==> boxes_view(s)[i] == box_view(s[i]),
    decreases s.len(),
{
    if s.len() > 0 {
        lemma_boxes_view_index(s.drop_last());
    }
}

/// The number of boxes in a tree and in a forest.
pub open spec fn box_count(b: LayoutBox) -> nat
    decreases b,
{
    1 + box_count_boxes(b.children@)
}

pub open spec fn box_count_boxes(s: Seq<LayoutBox>) -> nat
    decreases s,
{
    if s.len() == 0 {
        0
    } else {
        box_count(s.first()) + box_count_boxes(s.drop_first())
    }
}

pub open spec fn box_count_m(m: BoxM) -> nat
    decreases m,
{
    1 + box_count_m_seq(m.children)
}

pub open spec fn box_count_m_seq(s: Seq<BoxM>) -> nat
    decreases s,
{
    if s.len() == 0 {
        0
    } else {
        box_count_m(s.first()) + box_count_m_seq(s.drop_first())
    }
}

pub proof fn lemma_box_count_view(b: LayoutBox)
    ensures
        box_count(b) == box_count_m(box_view(b)),
    decreases b,
{
    lemma_box_count_view_seq(b.children@);
}

pub proof fn lemma_box_count_view_seq(s: Seq<LayoutBox>)
    ensures
        box_count_boxes(s) == box_count_m_seq(boxes_view(s)),
    decreases s,
{
    lemma_boxes_view_index(s);
    if s.len() > 0 {
        lemma_box_count_view(s.first());
        lemma_box_count_view_seq(s.drop_first());
        lemma_boxes_view_index(s.drop_first());
        assert(boxes_view(s).first() == box_view(s.first()));
        assert(boxes_view(s).drop_first() =~= boxes_view(s.drop_first()));
    }
}

pub proof fn lemma_box_count_member(s: Seq<LayoutBox>, i: int)
    requires
        0 <= i < s.len(),
    ensures
        box_count(s[i]) <= box_count_boxes(s),
    decreases s.len(),
{
    if i > 0 {
        lemma_box_count_member(s.drop_first(), i - 1);
    }
}

// ------------------------------------------------------------------
// Box tree construction
// ------------------------------------------------------------------

/// The kind of box a display classification produces.
pub open spec fn spec_box_type(d: Display) -> BoxType {
    match d {
        Display::Block => BoxType::BlockNode,
        _ => BoxType::InlineNode,
    }
}

/// Appending one built child box to a forest under a given parent kind:
/// blocks are pushed as they are; inline boxes under a block parent are
/// gathered into a trailing anonymous block, reusing it while one is open.
pub open spec fn spec_append_box(acc: Seq<BoxM>, bm: BoxM, d: Display, parent_block: bool) -> Seq<BoxM> {
    match d {
        Display::DisplayNone => acc,
        Display::Block => acc.push(bm),
        Display::Inline => if !parent_block {
            acc.push(bm)
        } else if acc.len() > 0 && acc.last().box_type == BoxType::AnonymousBlock {
            acc.update(
                acc.len() - 1,
                BoxM {
                    box_type: BoxType::AnonymousBlock,
                    specified: Seq::empty(),
                    text: None,
                    children: acc.last().children.push(bm),
                },
            )
        } else {
            acc.push(
                BoxM {
                    box_type: BoxType::AnonymousBlock,
                    specified: Seq::empty(),
                    text: None,
                    children: Seq::empty().push(bm),
                },
            )
        },
    }
}

/// The box forest a sequence of styled children produces.
pub open spec fn spec_build_children(s: Seq<StyledNode>, parent_block: bool) -> Seq<BoxM>
    decreases s,
{
    if s.len() == 0 {
        Seq::empty()
    } else {
        spec_append_box(
            spec_build_children(s.drop_last(), parent_block),
            spec_build_box(s.last()),
            s.last().display,
            parent_block,
        )
    }
}

/// The box tree a styled node produces. Nodes whose display is `none` never
/// reach this function: the builder drops them, subtree and all.
pub open spec fn spec_build_box(sn: StyledNode) -> BoxM
    decreases sn,
{
    BoxM {
        box_type: spec_box_type(sn.display),
        specified: sn.specified@,
        text: spec_text_view(sn.text),
        children: spec_build_children(sn.children@, sn.display == Display::Block),
    }
}

/// Every anonymous box in a built forest carries an empty style and no text.
pub proof fn lemma_built_anon_empty(s: Seq<StyledNode>, pb: bool)
    ensures
        forall|k: int| 0 <= k < spec_build_children(s, pb).len()
            && (#[trigger] spec_build_children(s, pb)[k]).box_type == BoxType::AnonymousBlock
            ==> spec_build_children(s, pb)[k].specified == Seq::<(String, Value)>::empty()
                && spec_build_children(s, pb)[k].text is None,
    decreases s,
{
    if s.len() > 0 {
        lemma_built_anon_empty(s.drop_last(), pb);
        let acc = spec_build_children(s.drop_last(), pb);
        let bm = spec_build_box(s.last());
        assert(bm.box_type != BoxType::AnonymousBlock);
        assert(spec_build_children(s, pb) == spec_append_box(acc, bm, s.last().display, pb));
    }
}

/// Law: a styled child with display `none` contributes nothing to the built
/// forest — no box of its own, none for its descendants, and no anonymous
/// wrapper standing in for it.
pub proof fn lemma_display_none_removed(s: Seq<StyledNode>, c: StyledNode, parent_block: bool)
    requires
        c.display == Display::DisplayNone,
    ensures
        spec_build_children(s.push(c), parent_block) == spec_build_children(s, parent_block),
{
    assert(s.push(c).drop_last() =~= s);
    assert(s.push(c).last() == c);
}

/// Copy a resolved property list.
fn clone_specified(s: &Vec<(String, Value)>) -> (r: Vec<(String, Value)>)
    ensures
        r@ == s@,
{
    let mut r: Vec<(String, Value)> = Vec::new();
    let mut i: usize = 0;
    while i < s.len()
        invariant
            0 <= i <= s@.len(),
            r@ =~= s@.take(i as int),
        decreases s@.len() - i,
    {
        r.push((s[i].0.clone(), s[i].1.dup()));
        proof {
            assert(r@ =~= s@.take(i + 1));
        }
        i = i + 1;
    }
    proof {
        assert(s@.take(s@.len() as int) =~= s@);
    }
    r
}

fn clone_text(t: &Option<String>) -> (r: Option<String>)
    ensures
        r == *t,
{
    match t {
        Some(s) => Some(s.clone()),
        None => None,
    }
}

/// Build the layout box tree for a styled node. A node with `display: none`
/// produces no box, so the root must not be one; `none` descendants are
/// omitted along with their whole subtrees, and runs of inline children of a
/// block parent are wrapped in anonymous block boxes.
#[verifier::loop_isolation(false)]
pub fn build_layout_tree(sn: &StyledNode) -> (r: LayoutBox)
    requires
        sn.display != Display::DisplayNone,
    ensures
        box_view(r) == spec_build_box(*sn),
    decreases *sn,
{
    let box_type = if sn.display == Display::Block {
        BoxType::BlockNode
    } else {
        BoxType::InlineNode
    };
    let parent_block = sn.display == Display::Block;
    let mut children: Vec<LayoutBox> = Vec::new();
    let mut i: usize = 0;
    while i < sn.children.len()
        invariant
            0 <= i <= sn.children@.len(),
            parent_block == (sn.display == Display::Block),
            boxes_view(children@) == spec_build_children(sn.children@.take(i as int), parent_block),
        decreases sn.children@.len() - i,
    {
        let ghost acc0 = boxes_view(children@);
        proof {
            assert(sn.children@.take(i + 1).drop_last() =~= sn.children@.take(i as int));
            assert(sn.children@.take(i + 1).last() == sn.children@[i as int]);
        }
        let c = &sn.children[i];
        match c.display {
            Display::DisplayNone => {},
            Display::Block => {
                let cb = build_layout_tree(c);
                let ghost cbv = box_view(cb);
                let ghost kids_pre = children@;
                children.push(cb);
                proof {
                    assert(children@.drop_last() =~= kids_pre);
                    assert(children@.last() == cb);
                    assert(boxes_view(children@) == acc0.push(cbv));
                }
            },
            Display::Inline => {
                let cb = build_layout_tree(c);
                let ghost cbv = box_view(cb);
                if !parent_block {
                    let ghost kids_pre = children@;
                    children.push(cb);
                    proof {
                        assert(children@.drop_last() =~= kids_pre);
                        assert(children@.last() == cb);
                        assert(boxes_view(children@) == acc0.push(cbv));
                    }
                } else {
                    let n = children.len();
                    let reuse = if n > 0 {
                        children[n - 1].box_type == BoxType::AnonymousBlock
                    } else {
                        false
                    };
                    proof {
                        lemma_boxes_view_index(children@);
                        if n > 0 {
                            assert(acc0.last() == box_view(children@.last()));
                        }
                    }
                    if reuse {
                        let ghost kids0 = children@;
                        let mut last = match children.pop() {
                            Some(l) => l,
                            None => unreached(),
                        };
                        let ghost last0 = last;
                        last.children.push(cb);
                        let ghost last1 = last;
                        children.push(last);
                        proof {
                            lemma_built_anon_empty(sn.children@.take(i as int), parent_block);
                            assert(last0 == kids0.last());
                            assert(acc0.last() == box_view(last0));
                            assert(acc0[acc0.len() - 1] == acc0.last());
                            assert(last0.specified@ == Seq::<(String, Value)>::empty());
                            assert(last0.text is None);
                            assert(last0.box_type == BoxType::AnonymousBlock);
                            assert(last1.children@.drop_last() =~= last0.children@);
                            assert(last1.children@.last() == cb);
                            assert(boxes_view(last1.children@) == boxes_view(last0.children@).push(cbv));
                            assert(children@.drop_last() =~= kids0.drop_last());
                            assert(children@.last() == last1);
                            assert(boxes_view(children@) == boxes_view(kids0.drop_last()).push(box_view(last1)));
                            assert(acc0 == boxes_view(kids0.drop_last()).push(box_view(last0)));
                            assert(boxes_view(children@) =~= acc0.update(
                                acc0.len() - 1,
                                BoxM {
                                    box_type: BoxType::AnonymousBlock,
                                    specified: Seq::empty(),
                                    text: None,
                                    children: acc0.last().children.push(cbv),
                                },
                            ));
                        }
                    } else {
                        let mut anon_children: Vec<LayoutBox> = Vec::new();
                        anon_children.push(cb);
                        let anon = LayoutBox {
                            box_type: BoxType::AnonymousBlock,
                            specified: Vec::new(),
                            text: None,
                            dimensions: Dimensions::zero(),
                            children: anon_children,
                        };
                        let ghost anon_v = box_view(anon);
                        proof {
                            assert(anon_v.children =~= Seq::empty().push(cbv)) by {
                                assert(anon.children@.drop_last() =~= Seq::<LayoutBox>::empty());
                                assert(boxes_view(anon.children@.drop_last()) =~= Seq::<BoxM>::empty());
                            };
                        }
                        let ghost kids_pre = children@;
                        children.push(anon);
                        proof {
                            assert(children@.drop_last() =~= kids_pre);
                            assert(children@.last() == anon);
                            assert(boxes_view(children@) == acc0.push(anon_v));
                        }
                    }
                }
            },
        }
        i = i + 1;
    }
    proof {
        assert(sn.children@.take(sn.children@.len() as int) =~= sn.children@);
    }
    LayoutBox {
        box_type,
        specified: clone_specified(&sn.specified),
        text: clone_text(&sn.text),
        dimensions: Dimensions::zero(),
        children,
    }
}

// ------------------------------------------------------------------
// Style lookups used by layout
// ------------------------------------------------------------------

/// The value of `name`, falling back to the shorthand `fallback`, then to a
/// zero length.
pub open spec fn spec_lookup(s: Seq<(String, Value)>, name: Seq<char>, fallback: Seq<char>) -> Value {
    match spec_style_find(s, name) {
        Some(v) => v,
        None => match spec_style_find(s, fallback) {
            Some(v) => v,
            None => Value::Length(0),
        },
    }
}

pub fn lookup_val(s: &Vec<(String, Value)>, name: &String, fallback: &String) -> (v: Value)
    ensures
        v == spec_lookup(s@, name@, fallback@),
{
    match style_value(s, name) {
        Some(v) => v,
        None => match style_value(s, fallback) {
            Some(v) => v,
            None => Value::Length(0),
        },
    }
}

/// An edge length in pixels.
pub open spec fn spec_edge(s: Seq<(String, Value)>, name: Seq<char>, fallback: Seq<char>) -> int {
    spec_lookup(s, name, fallback).spec_to_px() as int
}

/// The explicitly declared content height, if any.
pub open spec fn spec_explicit_height(s: Seq<(String, Value)>) -> Option<int> {
    match spec_style_find(s, "height"@) {
        Some(Value::Length(h)) => Some(h as int),
        _ => None,
    }
}

// ------------------------------------------------------------------
// Width resolution
// ------------------------------------------------------------------

/// The seven resolved horizontal quantities of one block box.
pub ghost struct WidthParts {
    pub margin_left: int,
    pub border_left: int,
    pub padding_left: int,
    pub width: int,
    pub padding_right: int,
    pub border_right: int,
    pub margin_right: int,
}

/// Resolve a box's horizontal quantities against containing-block width `cw`.
///
/// `auto` values count as zero in the trial sum. When the sum is under `cw`,
/// an auto width absorbs the remainder (auto margins becoming zero); with an
/// explicit width, two auto margins split the remainder equally, one auto
/// margin takes it all, and with no auto at all it goes to the right margin.
/// When the sum exceeds `cw`, auto margins stay zero and the width is reduced
/// to absorb the excess, stopping at zero: width yields, never the margins.
pub open spec fn spec_width_parts(s: Seq<(String, Value)>, cw: int) -> WidthParts {
    let width_opt = spec_style_find(s, "width"@);
    let w_auto = match width_opt {
        None => true,
        Some(v) => v.spec_is_auto(),
    };
    let w0 = (match width_opt {
        None => Value::Length(0),
        Some(v) => v,
    }).spec_to_px() as int;
    let ml_v = spec_lookup(s, "margin-left"@, "margin"@);
    let mr_v = spec_lookup(s, "margin-right"@, "margin"@);
    let ml0 = ml_v.spec_to_px() as int;
    let mr0 = mr_v.spec_to_px() as int;
    let bl = spec_edge(s, "border-left-width"@, "border-width"@);
    let br = spec_edge(s, "border-right-width"@, "border-width"@);
    let pl = spec_edge(s, "padding-left"@, "padding"@);
    let pr = spec_edge(s, "padding-right"@, "padding"@);
    let total = ml0 + mr0 + bl + br + pl + pr + w0;
    if total <= cw {
        let underflow = cw - total;
        if w_auto {
            WidthParts {
                margin_left: ml0,
                border_left: bl,
                padding_left: pl,
                width: underflow,
                padding_right: pr,
                border_right: br,
                margin_right: mr0,
            }
        } else if ml_v.spec_is_auto() && mr_v.spec_is_auto() {
            WidthParts {
                margin_left: underflow / 2,
                border_left: bl,
                padding_left: pl,
                width: w0,
                padding_right: pr,
                border_right: br,
                margin_right: underflow - underflow / 2,
            }
        } else if ml_v.spec_is_auto() {
            WidthParts {
                margin_left: underflow,
                border_left: bl,
                padding_left: pl,
                width: w0,
                padding_right: pr,
                border_right: br,
                margin_right: mr0,
            }
        } else if mr_v.spec_is_auto() {
            WidthParts {
                margin_left: ml0,
                border_left: bl,
                padding_left: pl,
                width: w0,
                padding_right: pr,
                border_right: br,
                margin_right: underflow,
            }
        } else {
            WidthParts {
                margin_left: ml0,
                border_left: bl,
                padding_left: pl,
                width: w0,
                padding_right: pr,
                border_right: br,
                margin_right: mr0 + underflow,
            }
        }
    } else {
        let excess = total - cw;
        WidthParts {
            margin_left: ml0,
            border_left: bl,
            padding_left: pl,
            width: if w0 >= excess {
                w0 - excess
            } else {
                0
            },
            padding_right: pr,
            border_right: br,
            margin_right: mr0,
        }
    }
}

/// Law: after width resolution the seven horizontal quantities sum exactly to
/// the containing block's width, except when the fixed margins, borders and
/// paddings alone overconstrain it — then the width has been reduced to zero
/// and the margins kept, so width yielded rather than the margins.
pub proof fn lemma_width_constraint(s: Seq<(String, Value)>, cw: int)
    requires
        cw >= 0,
    ensures
        ({
            let wp = spec_width_parts(s, cw);
            let fixed = wp.margin_left + wp.border_left + wp.padding_left + wp.padding_right
                + wp.border_right + wp.margin_right;
            fixed + wp.width == cw || (fixed > cw && wp.width == 0)
        }),
{
}

// ------------------------------------------------------------------
// The layout pass
// ------------------------------------------------------------------

/// A box's margin-box height: its content height plus its vertical margins,
/// borders and paddings.
pub open spec fn spec_mbh(b: LayoutBox) -> int {
    b.dimensions.content.height + b.dimensions.margin.top + b.dimensions.margin.bottom
        + b.dimensions.border.top + b.dimensions.border.bottom + b.dimensions.padding.top
        + b.dimensions.padding.bottom
}

/// The total margin-box height of a forest, in order.
pub open spec fn spec_sum_mbh(s: Seq<LayoutBox>) -> int
    decreases s,
{
    if s.len() == 0 {
        0
    } else {
        spec_sum_mbh(s.drop_last()) + spec_mbh(s.last())
    }
}

pub proof fn lemma_sum_mbh_prefix(s: Seq<LayoutBox>, i: int, j: int)
    requires
        0 <= i <= j <= s.len(),
    ensures
        spec_sum_mbh(s.take(i)) <= spec_sum_mbh(s.take(j)),
    decreases j - i,
{
    if i < j {
        lemma_sum_mbh_prefix(s, i, j - 1);
        assert(s.take(j).drop_last() =~= s.take(j - 1));
        assert(spec_mbh(s.take(j).last()) >= 0);
    }
}

/// What the layout engine owes of every box it has positioned, given its
/// containing block's content left edge `cbx`, the running vertical cursor
/// `cursor` it was placed at, and the containing block's content width `cw`:
/// the seven horizontal quantities are the resolved width parts; the vertical
/// edges come straight from the style; the content origin is the containing
/// block's origin pushed in by the left/top margin, border and padding; each
/// child is laid against this box's content box, placed below the margin
/// boxes of its preceding siblings; and the content height is the declared
/// height if any, else the sum of the children's margin-box heights.
pub open spec fn dims_ok(b: LayoutBox, cbx: int, cursor: int, cw: int) -> bool
    decreases b,
{
    let s = b.specified@;
    let wp = spec_width_parts(s, cw);
    let mt = spec_edge(s, "margin-top"@, "margin"@);
    let mb = spec_edge(s, "margin-bottom"@, "margin"@);
    let bt = spec_edge(s, "border-top-width"@, "border-width"@);
    let bb = spec_edge(s, "border-bottom-width"@, "border-width"@);
    let pt = spec_edge(s, "padding-top"@, "padding"@);
    let pb = spec_edge(s, "padding-bottom"@, "padding"@);
    let d = b.dimensions;
    &&& d.margin.left == wp.margin_left
    &&& d.border.left == wp.border_left
    &&& d.padding.left == wp.padding_left
    &&& d.content.width == wp.width
    &&& d.padding.right == wp.padding_right
    &&& d.border.right == wp.border_right
    &&& d.margin.right == wp.margin_right
    &&& d.margin.top == mt
    &&& d.margin.bottom == mb
    &&& d.border.top == bt
    &&& d.border.bottom == bb
    &&& d.padding.top == pt
    &&& d.padding.bottom == pb
    &&& d.content.x == cbx + wp.margin_left + wp.border_left + wp.padding_left
    &&& d.content.y == cursor + mt + bt + pt
    &&& (forall|i: int| 0 <= i < b.children@.len() ==> dims_ok(
        #[trigger] b.children@[i],
        d.content.x as int,
        d.content.y + spec_sum_mbh(b.children@.take(i)),
        d.content.width as int,
    ))
    &&& d.content.height == (match spec_explicit_height(s) {
        Some(h) => h,
        None => spec_sum_mbh(b.children@),
    })
}

/// Dimensions the painter can take box-model differences and sums of without
/// leaving `u64`: the content origin lies inside the padding and border
/// rings, and the outer edges stay below the machine bound.
pub open spec fn paint_safe(d: Dimensions) -> bool {
    &&& d.content.x >= d.padding.left + d.border.left
    &&& d.content.y >= d.padding.top + d.border.top
    &&& d.content.x + d.content.width + d.padding.right + d.border.right <= u64::MAX
    &&& d.content.y + d.content.height + d.padding.bottom + d.border.bottom <= u64::MAX
}

/// Paint safety of every box of a tree.
pub open spec fn tree_paint_safe(b: LayoutBox) -> bool
    decreases b,
{
    paint_safe(b.dimensions) && (forall|i: int| 0 <= i < b.children@.len()
        ==> tree_paint_safe(#[trigger] b.children@[i]))
}

/// A positioned box's margin-box height, read off its dimensions.
pub fn margin_box_height(b: &LayoutBox) -> (r: u64)
    requires
        spec_mbh(*b) <= u64::MAX,
    ensures
        r as int == spec_mbh(*b),
{
    let d = &b.dimensions;
    d.content.height + d.margin.top + d.margin.bottom + d.border.top + d.border.bottom
        + d.padding.top + d.padding.bottom
}

/// Lay out one box and, recursively, its subtree.
///
/// `cbx` and `cw` are the containing block's content left edge and width;
/// `cursor` is the vertical position this box's margin box starts at. Inline
/// and anonymous boxes use the same block algorithm, a documented
/// simplification: there is no line breaking in this engine.
#[verifier::rlimit(100)]
#[verifier::loop_isolation(false)]
pub fn layout(b: LayoutBox, cbx: u64, cursor: u64, cw: u64) -> (r: LayoutBox)
    requires
        cw <= MAX_PX,
        cbx + 0x8_0000_0000 * box_count(b) <= POS_LIMIT,
        cursor + 0x8_0000_0000 * box_count(b) <= POS_LIMIT,
    ensures
        box_view(r) == box_view(b),
        dims_ok(r, cbx as int, cursor as int, cw as int),
        spec_mbh(r) <= 0x8_0000_0000 * box_count(b),
        r.dimensions.content.width <= MAX_PX,
        tree_paint_safe(r),
    decreases box_count(b),
{
    let ghost b0 = b;
    let LayoutBox { box_type, specified, text, dimensions: _, children } = b;
    proof {
        assert(box_type == b0.box_type);
        assert(specified == b0.specified);
        assert(children == b0.children);
    }

    // Horizontal resolution against the containing block width.
    let k_margin: String = "margin".to_owned();
    let k_border: String = "border-width".to_owned();
    let k_padding: String = "padding".to_owned();
    let ml_v = lookup_val(&specified, &"margin-left".to_owned(), &k_margin);
    let mr_v = lookup_val(&specified, &"margin-right".to_owned(), &k_margin);
    let bl = lookup_val(&specified, &"border-left-width".to_owned(), &k_border).to_px() as u64;
    let br = lookup_val(&specified, &"border-right-width".to_owned(), &k_border).to_px() as u64;
    let pl = lookup_val(&specified, &"padding-left".to_owned(), &k_padding).to_px() as u64;
    let pr = lookup_val(&specified, &"padding-right".to_owned(), &k_padding).to_px() as u64;
    let width_opt = style_value(&specified, &"width".to_owned());
    let w_auto = match &width_opt {
        None => true,
        Some(v) => v.is_auto(),
    };
    let w0 = match &width_opt {
        None => 0u64,
        Some(v) => v.to_px() as u64,
    };
    let ml_auto = ml_v.is_auto();
    let mr_auto = mr_v.is_auto();
    let ml0 = ml_v.to_px() as u64;
    let mr0 = mr_v.to_px() as u64;
    let total = ml0 + mr0 + bl + br + pl + pr + w0;
    let ml: u64;
    let mr: u64;
    let w: u64;
    if total <= cw {
        let underflow = cw - total;
        if w_auto {
            ml = ml0;
            mr = mr0;
            w = underflow;
        } else if ml_auto && mr_auto {
            ml = underflow / 2;
            mr = underflow - underflow / 2;
            w = w0;
        } else if ml_auto {
            ml = underflow;
            mr = mr0;
            w = w0;
        } else if mr_auto {
            ml = ml0;
            mr = underflow;
            w = w0;
        } else {
            ml = ml0;
            mr = mr0 + underflow;
            w = w0;
        }
    } else {
        let excess = total - cw;
        ml = ml0;
        mr = mr0;
        w = if w0 >= excess {
            w0 - excess
        } else {
            0
        };
    }
    proof {
        let wp = spec_width_parts(specified@, cw as int);
        assert(ml == wp.margin_left && mr == wp.margin_right && w == wp.width);
        assert(bl == wp.border_left && br == wp.border_right);
        assert(pl == wp.padding_left && pr == wp.padding_right);
        assert(ml <= MAX_PX && w <= MAX_PX);
    }

    // Vertical edges, straight from the style.
    let mt = lookup_val(&specified, &"margin-top".to_owned(), &k_margin).to_px() as u64;
    let mbm = lookup_val(&specified, &"margin-bottom".to_owned(), &k_margin).to_px() as u64;
    let bt = lookup_val(&specified, &"border-top-width".to_owned(), &k_border).to_px() as u64;
    let bb = lookup_val(&specified, &"border-bottom-width".to_owned(), &k_border).to_px() as u64;
    let pt = lookup_val(&specified, &"padding-top".to_owned(), &k_padding).to_px() as u64;
    let pb = lookup_val(&specified, &"padding-bottom".to_owned(), &k_padding).to_px() as u64;

    proof {
        assert(box_count(b0) >= 1);
    }
    let x = cbx + ml + bl + pl;
    let y = cursor + mt + bt + pt;

    // Children: each laid against this box's content box, the cursor
    // advancing past the margin box of every child laid so far.
    let ghost kids0 = children@;
    let mut rest = children;
    let mut out: Vec<LayoutBox> = Vec::new();
    let mut hsf: u64 = 0;
    proof {
        assert(rest@ =~= kids0.skip(0));
        assert(out@.take(out@.len() as int) =~= out@);
        assert(box_count(b0) == 1 + box_count_boxes(kids0));
        assert(x <= cbx + 0x3_0000_0000);
        assert(y <= cursor + 0x3_0000_0000);
    }
    while rest.len() > 0
        invariant
            cw <= MAX_PX,
            w <= MAX_PX,
            x == cbx + ml + bl + pl,
            y == cursor + mt + bt + pt,
            ml <= MAX_PX,
            bl < MAX_PX,
            pl < MAX_PX,
            mt < MAX_PX,
            bt < MAX_PX,
            pt < MAX_PX,
            cbx + 0x8_0000_0000 * box_count(b0) <= POS_LIMIT,
            cursor + 0x8_0000_0000 * box_count(b0) <= POS_LIMIT,
            out@.len() + rest@.len() == kids0.len(),
            rest@ =~= kids0.skip(out@.len() as int),
            forall|j: int| 0 <= j < out@.len() ==> box_view(#[trigger] out@[j]) == box_view(kids0[j]),
            forall|j: int| 0 <= j < out@.len() ==> tree_paint_safe(#[trigger] out@[j]),
            forall|j: int| 0 <= j < out@.len() ==> dims_ok(
                #[trigger] out@[j],
                x as int,
                y + spec_sum_mbh(out@.take(j)),
                w as int,
            ),
            hsf as int == spec_sum_mbh(out@),
            x + 0x8_0000_0000 * box_count_boxes(rest@) <= POS_LIMIT,
            y + hsf + 0x8_0000_0000 * box_count_boxes(rest@) <= POS_LIMIT,
            hsf + 0x8_0000_0000 * box_count_boxes(rest@) <= 0x8_0000_0000 * box_count_boxes(kids0),
        decreases rest@.len(),
    {
        let ghost rest0 = rest@;
        let ghost out0 = out@;
        proof {
            assert(rest0.first() == kids0[out0.len() as int]);
            assert(box_count(rest0.first()) + box_count_boxes(rest0.drop_first())
                == box_count_boxes(rest0));
            lemma_box_count_member(kids0, out0.len() as int);
            assert(box_count(b0) == 1 + box_count_boxes(kids0));
        }
        let c = rest.remove(0);
        let ghost c0 = c;
        proof {
            assert(rest@ =~= rest0.drop_first());
            assert(rest@ =~= kids0.skip(out0.len() as int + 1));
            assert(box_count(c0) >= 1);
        }
        let lc = layout(c, x, y + hsf, w);
        let mh = margin_box_height(&lc);
        proof {
            assert(mh <= 0x8_0000_0000 * box_count(c0));
            assert(box_count_boxes(rest@) == box_count_boxes(rest0) - box_count(c0));
        }
        hsf = hsf + mh;
        out.push(lc);
        proof {
            assert(out@.drop_last() =~= out0);
            assert(out@.take(out@.len() - 1) =~= out0);
            assert(spec_sum_mbh(out@) == spec_sum_mbh(out0) + spec_mbh(out@.last()));
            assert forall|j: int| 0 <= j < out@.len() implies dims_ok(
                #[trigger] out@[j],
                x as int,
                y + spec_sum_mbh(out@.take(j)),
                w as int,
            ) by {
                if j < out@.len() - 1 {
                    assert(out@.take(j) =~= out0.take(j));
                    assert(out@[j] == out0[j]);
                }
            };
        }
    }
    proof {
        assert(rest@.len() == 0);
        assert(out@.len() == kids0.len());
        assert(hsf as int == spec_sum_mbh(out@));
        assert(hsf <= 0x8_0000_0000 * box_count_boxes(kids0));
    }

    // Height: explicit if declared, else the accumulated children height.
    let height_opt = style_value(&specified, &"height".to_owned());
    let height: u64 = match &height_opt {
        Some(Value::Length(h)) => *h as u64,
        _ => hsf,
    };

    let r = LayoutBox {
        box_type,
        specified,
        text,
        dimensions: Dimensions {
            content: Rect { x, y, width: w, height },
            padding: EdgeSizes { left: pl, right: pr, top: pt, bottom: pb },
            border: EdgeSizes { left: bl, right: br, top: bt, bottom: bb },
            margin: EdgeSizes { left: ml, right: mr, top: mt, bottom: mbm },
        },
        children: out,
    };
    proof {
        lemma_boxes_view_index(r.children@);
        lemma_boxes_view_index(b0.children@);
        assert(boxes_view(r.children@) =~= boxes_view(b0.children@));
        assert(box_view(r) == box_view(b0));
        assert forall|i: int| 0 <= i < r.children@.len() implies dims_ok(
            #[trigger] r.children@[i],
            r.dimensions.content.x as int,
            r.dimensions.content.y + spec_sum_mbh(r.children@.take(i)),
            r.dimensions.content.width as int,
        ) by {
            assert(r.children@[i] == out@[i]);
            assert(r.children@.take(i) =~= out@.take(i));
        };
        assert(dims_ok(r, cbx as int, cursor as int, cw as int));
        assert(spec_mbh(r) <= 0x8_0000_0000 * box_count(b0));
        assert(paint_safe(r.dimensions));
        assert(tree_paint_safe(r));
    }
    r
}

/// Build and lay out the whole box tree for a styled tree, against a
/// viewport-sized containing block whose content origin is the viewport
/// origin. As in any block formatting here, the viewport's height does not
/// constrain layout: content may run past it.
pub fn layout_tree(root: &StyledNode, containing_block: Dimensions) -> (r: LayoutBox)
    requires
        root.display != Display::DisplayNone,
        containing_block.content.x == 0,
        containing_block.content.y == 0,
        containing_block.content.width <= MAX_PX,
        0x8_0000_0000 * box_count_m(spec_build_box(*root)) <= POS_LIMIT,
    ensures
        box_view(r) == spec_build_box(*root),
        dims_ok(r, 0, 0, containing_block.content.width as int),
        tree_paint_safe(r),
{
    let root_box = build_layout_tree(root);
    proof {
        lemma_box_count_view(root_box);
        assert(box_count(root_box) == box_count_m(spec_build_box(*root)));
    }
    layout(root_box, 0, 0, containing_block.content.width)
}

// ------------------------------------------------------------------
// Laws of the laid-out tree
// ------------------------------------------------------------------

/// Law: a childless box with no declared height lays out with height zero.
pub proof fn lemma_childless_height_zero(b: LayoutBox, cbx: int, cursor: int, cw: int)
    requires
        dims_ok(b, cbx, cursor, cw),
        b.children@.len() == 0,
        spec_explicit_height(b.specified@) is None,
    ensures
        b.dimensions.content.height == 0,
{
}

/// Law: a child's content top is its parent's content top plus the margin-box
/// heights of all its preceding siblings plus its own top margin, border and
/// padding.
pub proof fn lemma_child_position(b: LayoutBox, cbx: int, cursor: int, cw: int, i: int)
    requires
        dims_ok(b, cbx, cursor, cw),
        0 <= i < b.children@.len(),
    ensures
        ({
            // The child's margin box starts at the parent's content top plus
            // the margin-box heights of all its preceding siblings; its
            // content starts below its own top margin, border and padding.
            let c = b.children@[i];
            let d = c.dimensions;
            d.content.y - d.margin.top - d.border.top - d.padding.top
                == b.dimensions.content.y + spec_sum_mbh(b.children@.take(i))
        }),
{
    assert(dims_ok(
        b.children@[i],
        b.dimensions.content.x as int,
        b.dimensions.content.y + spec_sum_mbh(b.children@.take(i)),
        b.dimensions.content.width as int,
    ));
}

/// Law: siblings do not overlap in the block direction — a later sibling's
/// margin box starts at or below the end of an earlier sibling's margin box.
pub proof fn lemma_no_sibling_overlap(b: LayoutBox, cbx: int, cursor: int, cw: int, i: int, j: int)
    requires
        dims_ok(b, cbx, cursor, cw),
        0 <= i < j < b.children@.len(),
    ensures
        ({
            let top = b.dimensions.content.y;
            top + spec_sum_mbh(b.children@.take(i)) + spec_mbh(b.children@[i])
                <= top + spec_sum_mbh(b.children@.take(j))
        }),
{
    assert(b.children@.take(i + 1).drop_last() =~= b.children@.take(i));
    assert(b.children@.take(i + 1).last() == b.children@[i]);
    lemma_sum_mbh_prefix(b.children@, i + 1, j);
}

} // verus!
