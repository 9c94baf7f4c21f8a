//! The painting engine: walks the positioned box tree in document order,
//! emits solid-rectangle display commands for backgrounds and borders, and
//! rasterizes them last-writer-wins into an RGBA canvas, clipping every
//! rectangle to the canvas bounds.

use vstd::prelude::*;
use crate::css::{Color, Value};
use crate::layout::{paint_safe, tree_paint_safe, Dimensions, LayoutBox, Rect};
use crate::style::{spec_style_find, style_value};

verus! {

/// One drawing instruction: fill a rectangle with a solid color.
#[derive(Clone, Copy, PartialEq, Eq, Structural, Debug)]
pub enum DisplayCommand {
    SolidColor(Color, Rect),
}

/// A fixed-size RGBA pixel buffer, row-major, origin top-left.
pub struct Canvas {
    pub pixels: Vec<Color>,
    pub width: usize,
    pub height: usize,
}

pub open spec fn spec_white() -> Color {
    Color { r: 255, g: 255, b: 255, a: 255 }
}

pub open spec fn canvas_wf(c: Canvas) -> bool {
    c.pixels@.len() == c.width * c.height
}

/// The color a property resolves to, if it is a color at all.
pub open spec fn spec_color(s: Seq<(String, Value)>, name: Seq<char>) -> Option<Color> {
    match spec_style_find(s, name) {
        Some(Value::ColorValue(c)) => Some(c),
        _ => None,
    }
}

pub fn get_color(b: &LayoutBox, name: &String) -> (r: Option<Color>)
    ensures
        r == spec_color(b.specified@, name@),
{
    match style_value(&b.specified, name) {
        Some(Value::ColorValue(c)) => Some(c),
        _ => None,
    }
}

/// The border box: the content box grown by the padding and border rings.
pub open spec fn spec_border_box(d: Dimensions) -> Rect {
    Rect {
        x: (d.content.x - d.padding.left - d.border.left) as u64,
        y: (d.content.y - d.padding.top - d.border.top) as u64,
        width: (d.content.width + d.padding.left + d.padding.right + d.border.left
            + d.border.right) as u64,
        height: (d.content.height + d.padding.top + d.padding.bottom + d.border.top
            + d.border.bottom) as u64,
    }
}

pub fn border_box(d: &Dimensions) -> (r: Rect)
    requires
        paint_safe(*d),
    ensures
        r == spec_border_box(*d),
{
    Rect {
        x: d.content.x - d.padding.left - d.border.left,
        y: d.content.y - d.padding.top - d.border.top,
        width: d.content.width + d.padding.left + d.padding.right + d.border.left
            + d.border.right,
        height: d.content.height + d.padding.top + d.padding.bottom + d.border.top
            + d.border.bottom,
    }
}

/// The commands one box contributes, before its children: its background over
/// the whole border box when a background color is set, then its four border
/// edge rectangles when a border color is set.
pub open spec fn spec_box_commands(b: LayoutBox) -> Seq<DisplayCommand> {
    let bb = spec_border_box(b.dimensions);
    let bg = match spec_color(b.specified@, "background"@) {
        Some(c) => seq![DisplayCommand::SolidColor(c, bb)],
        None => Seq::empty(),
    };
    match spec_color(b.specified@, "border-color"@) {
        Some(c) => bg + seq![
            DisplayCommand::SolidColor(
                c,
                Rect { x: bb.x, y: bb.y, width: b.dimensions.border.left, height: bb.height },
            ),
            DisplayCommand::SolidColor(
                c,
                Rect {
                    x: (bb.x + bb.width - b.dimensions.border.right) as u64,
                    y: bb.y,
                    width: b.dimensions.border.right,
                    height: bb.height,
                },
            ),
            DisplayCommand::SolidColor(
                c,
                Rect { x: bb.x, y: bb.y, width: bb.width, height: b.dimensions.border.top },
            ),
            DisplayCommand::SolidColor(
                c,
                Rect {
                    x: bb.x,
                    y: (bb.y + bb.height - b.dimensions.border.bottom) as u64,
                    width: bb.width,
                    height: b.dimensions.border.bottom,
                },
            ),
        ],
        None => bg,
    }
}

/// The whole display list of a tree: a box's own commands, then its
/// children's lists in document order — document order is paint order.
pub open spec fn spec_display_list(b: LayoutBox) -> Seq<DisplayCommand>
    decreases b,
{
    spec_box_commands(b) + spec_display_list_seq(b.children@)
}

pub open spec fn spec_display_list_seq(s: Seq<LayoutBox>) -> Seq<DisplayCommand>
    decreases s,
{
    if s.len() == 0 {
        Seq::empty()
    } else {
        spec_display_list(s.first()) + spec_display_list_seq(s.drop_first())
    }
}

proof fn lemma_display_list_snoc(s: Seq<LayoutBox>, i: int)
    requires
        0 <= i < s.len(),
    ensures
        spec_display_list_seq(s.take(i + 1)) == spec_display_list_seq(s.take(i))
            + spec_display_list(s[i]),
    decreases i,
{
    if i == 0 {
        assert(s.take(1).first() == s[0]);
        assert(s.take(1).drop_first() =~= Seq::<LayoutBox>::empty());
        assert(s.take(0) =~= Seq::<LayoutBox>::empty());
        assert(spec_display_list_seq(s.take(1)) =~= spec_display_list_seq(s.take(0))
            + spec_display_list(s[0]));
    } else {
        lemma_display_list_snoc(s.drop_first(), i - 1);
        assert(s.take(i + 1).first() == s[0]);
        assert(s.take(i + 1).drop_first() =~= s.drop_first().take(i));
        assert(s.take(i).first() == s[0]);
        assert(s.take(i).drop_first() =~= s.drop_first().take(i - 1));
        assert(s.drop_first()[i - 1] == s[i]);
        assert(spec_display_list_seq(s.take(i + 1)) == spec_display_list(s[0])
            + spec_display_list_seq(s.drop_first().take(i)));
        assert(spec_display_list_seq(s.take(i)) == spec_display_list(s[0])
            + spec_display_list_seq(s.drop_first().take(i - 1)));
        assert(spec_display_list(s[0]) + (spec_display_list_seq(s.drop_first().take(i - 1))
            + spec_display_list(s[i])) =~= (spec_display_list(s[0])
            + spec_display_list_seq(s.drop_first().take(i - 1))) + spec_display_list(s[i]));
    }
}

/// Every rectangle of every command keeps its corner sums inside `u64`.
pub open spec fn cmds_safe(cmds: Seq<DisplayCommand>) -> bool {
    forall|i: int| 0 <= i < cmds.len() ==> {
        let DisplayCommand::SolidColor(_, r) = #[trigger] cmds[i];
        r.x + r.width <= u64::MAX && r.y + r.height <= u64::MAX
    }
}

/// Emit the display commands of one subtree onto the end of `list`.
#[verifier::loop_isolation(false)]
fn render_box(list: &mut Vec<DisplayCommand>, b: &LayoutBox)
    requires
        tree_paint_safe(*b),
    ensures
        final(list)@ == old(list)@ + spec_display_list(*b),
    decreases *b,
{
    let bb = border_box(&b.dimensions);
    let bg_key: String = "background".to_owned();
    match get_color(b, &bg_key) {
        Some(c) => {
            list.push(DisplayCommand::SolidColor(c, bb));
        },
        None => {},
    }
    let bc_key: String = "border-color".to_owned();
    match get_color(b, &bc_key) {
        Some(c) => {
            let d = &b.dimensions;
            list.push(DisplayCommand::SolidColor(
                c,
                Rect { x: bb.x, y: bb.y, width: d.border.left, height: bb.height },
            ));
            list.push(DisplayCommand::SolidColor(
                c,
                Rect {
                    x: bb.x + bb.width - d.border.right,
                    y: bb.y,
                    width: d.border.right,
                    height: bb.height,
                },
            ));
            list.push(DisplayCommand::SolidColor(
                c,
                Rect { x: bb.x, y: bb.y, width: bb.width, height: d.border.top },
            ));
            list.push(DisplayCommand::SolidColor(
                c,
                Rect {
                    x: bb.x,
                    y: bb.y + bb.height - d.border.bottom,
                    width: bb.width,
                    height: d.border.bottom,
                },
            ));
        },
        None => {},
    }
    proof {
        assert(list@ =~= old(list)@ + spec_box_commands(*b));
    }
    let ghost base = list@;
    let mut i: usize = 0;
    while i < b.children.len()
        invariant
            0 <= i <= b.children@.len(),
            list@ == base + spec_display_list_seq(b.children@.take(i as int)),
        decreases b.children@.len() - i,
    {
        render_box(list, &b.children[i]);
        proof {
            lemma_display_list_snoc(b.children@, i as int);
            assert(list@ =~= base + spec_display_list_seq(b.children@.take(i + 1)));
        }
        i = i + 1;
    }
    proof {
        assert(b.children@.take(b.children@.len() as int) =~= b.children@);
        assert(base + spec_display_list_seq(b.children@) =~= old(list)@ + spec_display_list(*b));
    }
}

/// Build the display list of a positioned box tree, in paint order.
pub fn build_display_list(root: &LayoutBox) -> (list: Vec<DisplayCommand>)
    requires
        tree_paint_safe(*root),
    ensures
        list@ == spec_display_list(*root),
        cmds_safe(list@),
{
    let mut list: Vec<DisplayCommand> = Vec::new();
    render_box(&mut list, root);
    proof {
        assert(list@ =~= spec_display_list(*root));
        lemma_display_list_safe(*root);
    }
    list
}

/// Paint safety of the tree carries to every emitted rectangle.
proof fn lemma_display_list_safe(b: LayoutBox)
    requires
        tree_paint_safe(b),
    ensures
        cmds_safe(spec_display_list(b)),
    decreases b,
{
    assert(cmds_safe(spec_box_commands(b)));
    lemma_display_list_seq_safe(b.children@);
}

proof fn lemma_display_list_seq_safe(s: Seq<LayoutBox>)
    requires
        forall|i: int| 0 <= i < s.len() ==> tree_paint_safe(#[trigger] s[i]),
    ensures
        cmds_safe(spec_display_list_seq(s)),
    decreases s,
{
    if s.len() > 0 {
        lemma_display_list_safe(s.first());
        lemma_display_list_seq_safe(s.drop_first());
    }
}

/// Whether rectangle `r` covers the pixel at `(x, y)`.
pub open spec fn spec_in_rect(r: Rect, x: int, y: int) -> bool {
    r.x <= x < r.x + r.width && r.y <= y < r.y + r.height
}

pub open spec fn cmd_rect(cmd: DisplayCommand) -> Rect {
    let DisplayCommand::SolidColor(_, r) = cmd;
    r
}

pub open spec fn cmd_color(cmd: DisplayCommand) -> Color {
    let DisplayCommand::SolidColor(c, _) = cmd;
    c
}

/// The color a pixel shows after a command list is rasterized over a white
/// canvas: the color of the last command covering it — later commands
/// overwrite earlier ones.
pub open spec fn spec_painted(cmds: Seq<DisplayCommand>, x: int, y: int) -> Color
    decreases cmds,
{
    if cmds.len() == 0 {
        spec_white()
    } else if spec_in_rect(cmd_rect(cmds.last()), x, y) {
        cmd_color(cmds.last())
    } else {
        spec_painted(cmds.drop_last(), x, y)
    }
}

/// Law: document order is paint order. If command `j` covers a pixel and no
/// later command does, the pixel shows command `j`'s color — in particular a
/// later sibling's pixels win wherever two boxes overlap.
pub proof fn lemma_later_command_wins(cmds: Seq<DisplayCommand>, j: int, x: int, y: int)
    requires
        0 <= j < cmds.len(),
        spec_in_rect(cmd_rect(cmds[j]), x, y),
        forall|k: int| j < k < cmds.len() ==> !spec_in_rect(cmd_rect(#[trigger] cmds[k]), x, y),
    ensures
        spec_painted(cmds, x, y) == cmd_color(cmds[j]),
    decreases cmds.len(),
{
    if j == cmds.len() - 1 {
    } else {
        assert(cmds.drop_last()[j] == cmds[j]);
        lemma_later_command_wins(cmds.drop_last(), j, x, y);
    }
}

impl Canvas {
    /// A canvas of the given pixel size, filled with opaque white.
    pub fn new(width: usize, height: usize) -> (c: Canvas)
        requires
            width * height <= usize::MAX,
        ensures
            c.width == width,
            c.height == height,
            canvas_wf(c),
            forall|k: int| 0 <= k < c.pixels@.len() ==> c.pixels@[k] == spec_white(),
    {
        let n = width * height;
        let mut pixels: Vec<Color> = Vec::new();
        while pixels.len() < n
            invariant
                pixels@.len() <= n,
                forall|k: int| 0 <= k < pixels@.len() ==> pixels@[k] == spec_white(),
            decreases n - pixels@.len(),
        {
            pixels.push(Color { r: 255, g: 255, b: 255, a: 255 });
        }
        Canvas { pixels, width, height }
    }

    /// Rasterize one command, clipped to the canvas bounds: every covered
    /// pixel inside the canvas takes the command's color, every other pixel
    /// keeps its value. Rectangles partly or wholly outside are truncated or
    /// skipped, never an error.
    #[verifier::loop_isolation(false)]
    pub fn paint_item(&mut self, item: &DisplayCommand)
        requires
            canvas_wf(*old(self)),
            cmd_rect(*item).x + cmd_rect(*item).width <= u64::MAX,
            cmd_rect(*item).y + cmd_rect(*item).height <= u64::MAX,
        ensures
            canvas_wf(*final(self)),
            final(self).width == old(self).width,
            final(self).height == old(self).height,
            forall|px: int, py: int| 0 <= px < old(self).width && 0 <= py < old(self).height
                ==> #[trigger] final(self).pixels@[py * old(self).width + px] == (
                    if spec_in_rect(cmd_rect(*item), px, py) {
                        cmd_color(*item)
                    } else {
                        old(self).pixels@[py * old(self).width + px]
                    }),
    {
        let DisplayCommand::SolidColor(color, rect) = *item;
        let w = self.width;
        let h = self.height;
        let n = self.pixels.len();
        proof {
            assert(n == w * h);
        }
        let x0: usize = if rect.x < w as u64 {
            rect.x as usize
        } else {
            w
        };
        let x1: usize = if rect.x + rect.width < w as u64 {
            (rect.x + rect.width) as usize
        } else {
            w
        };
        let y0: usize = if rect.y < h as u64 {
            rect.y as usize
        } else {
            h
        };
        let y1: usize = if rect.y + rect.height < h as u64 {
            (rect.y + rect.height) as usize
        } else {
            h
        };
        proof {
            assert(forall|px: int, py: int| 0 <= px < w && 0 <= py < h
                ==> (spec_in_rect(rect, px, py) <==> (x0 <= px < x1 && y0 <= py < y1)));
        }
        let ghost pix0 = self.pixels@;
        let mut yy: usize = y0;
        while yy < y1
            invariant
                canvas_wf(*self),
                self.width == w,
                self.height == h,
                x0 <= w,
                x1 <= w,
                y0 <= yy <= y1,
                y1 <= h,
                pix0.len() == self.pixels@.len(),
                forall|px: int, py: int| 0 <= px < w && 0 <= py < h
                    ==> #[trigger] self.pixels@[py * w + px] == (
                        if x0 <= px < x1 && y0 <= py < yy {
                            color
                        } else {
                            pix0[py * w + px]
                        }),
            decreases y1 - yy,
        {
            let ghost row0 = self.pixels@;
            let mut xx: usize = x0;
            while xx < x1
                invariant
                    canvas_wf(*self),
                    self.width == w,
                    self.height == h,
                    x0 <= xx <= x1,
                    x1 <= w,
                    yy < y1 <= h,
                    row0.len() == self.pixels@.len(),
                    forall|px: int, py: int| 0 <= px < w && 0 <= py < h
                        ==> #[trigger] self.pixels@[py * w + px] == (
                            if py == yy && x0 <= px < xx {
                                color
                            } else {
                                row0[py * w + px]
                            }),
                decreases x1 - xx,
            {
                proof {
                    assert(yy * w <= yy * w + xx < w * h) by (nonlinear_arith)
                        requires
                            0 <= yy < h,
                            0 <= xx < w,
                    ;
                }
                let idx = yy * w + xx;
                let ghost pre = self.pixels@;
                self.pixels.set(idx, color);
                proof {
                    assert forall|px: int, py: int| 0 <= px < w && 0 <= py < h
                        implies #[trigger] self.pixels@[py * w + px] == (
                            if py == yy && x0 <= px < xx + 1 {
                                color
                            } else {
                                row0[py * w + px]
                            }) by {
                        assert((py * w + px == yy * w + xx) <==> (py == yy && px == xx))
                            by (nonlinear_arith)
                            requires
                                0 <= px < w,
                                0 <= py < h,
                                0 <= xx < w,
                                0 <= yy < h,
                        ;
                        assert(0 <= py * w + px < w * h) by (nonlinear_arith)
                            requires
                                0 <= px < w,
                                0 <= py < h,
                        ;
                        if py == yy && px == xx {
                            assert(self.pixels@[py * w + px] == color);
                        } else {
                            assert(py * w + px != idx);
                            assert(self.pixels@[py * w + px] == pre[py * w + px]);
                        }
                    };
                }
                xx = xx + 1;
            }
            proof {
                assert forall|px: int, py: int| 0 <= px < w && 0 <= py < h
                    implies #[trigger] self.pixels@[py * w + px] == (
                        if x0 <= px < x1 && y0 <= py < yy + 1 {
                            color
                        } else {
                            pix0[py * w + px]
                        }) by {
                    assert(self.pixels@[py * w + px] == if py == yy && x0 <= px < x1 {
                        color
                    } else {
                        row0[py * w + px]
                    });
                };
            }
            yy = yy + 1;
        }
    }
}

/// Rasterize the display list of a positioned box tree onto a fresh canvas of
/// `bounds`' pixel size. Every pixel shows the last command covering it, or
/// white where nothing paints.
#[verifier::loop_isolation(false)]
pub fn paint(root: &LayoutBox, bounds: Rect) -> (c: Canvas)
    requires
        tree_paint_safe(*root),
        bounds.width <= usize::MAX,
        bounds.height <= usize::MAX,
        bounds.width * bounds.height <= usize::MAX,
    ensures
        c.width == bounds.width,
        c.height == bounds.height,
        canvas_wf(c),
        forall|px: int, py: int| 0 <= px < c.width && 0 <= py < c.height
            ==> #[trigger] c.pixels@[py * c.width + px]
                == spec_painted(spec_display_list(*root), px, py),
{
    let list = build_display_list(root);
    let mut canvas = Canvas::new(bounds.width as usize, bounds.height as usize);
    proof {
        assert(list@.take(0) =~= Seq::<DisplayCommand>::empty());
        assert forall|px: int, py: int| 0 <= px < canvas.width && 0 <= py < canvas.height
            implies #[trigger] canvas.pixels@[py * canvas.width + px]
                == spec_painted(list@.take(0), px, py) by {
            assert(0 <= py * canvas.width + px < canvas.width * canvas.height)
                by (nonlinear_arith)
                requires
                    0 <= px < canvas.width,
                    0 <= py < canvas.height,
            ;
        };
    }
    let mut i: usize = 0;
    while i < list.len()
        invariant
            canvas_wf(canvas),
            canvas.width == bounds.width,
            canvas.height == bounds.height,
            0 <= i <= list@.len(),
            list@ == spec_display_list(*root),
            cmds_safe(list@),
            forall|px: int, py: int| 0 <= px < canvas.width && 0 <= py < canvas.height
                ==> #[trigger] canvas.pixels@[py * canvas.width + px]
                    == spec_painted(list@.take(i as int), px, py),
        decreases list@.len() - i,
    {
        proof {
            assert(list@.take(i + 1).drop_last() =~= list@.take(i as int));
            assert(list@.take(i + 1).last() == list@[i as int]);
        }
        canvas.paint_item(&list[i]);
        i = i + 1;
    }
    proof {
        assert(list@.take(list@.len() as int) =~= list@);
    }
    canvas
}

} // verus!
