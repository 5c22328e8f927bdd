use vstd::prelude::*;

use crate::text::{decimal, decimal_text};

verus! {

/// A rectangle of terminal cells, as Herdr reports it.
#[derive(Clone, Copy, Debug, PartialEq, Eq, Structural)]
pub struct Rect {
    pub x: u16,
    pub y: u16,
    pub width: u16,
    pub height: u16,
}

/// The side on which a split places its second child.
#[derive(Clone, Copy, Debug, PartialEq, Eq, Structural)]
pub enum SplitDirection {
    Right,
    Down,
}

impl SplitDirection {
    /// The word Herdr uses for this direction.
    pub open spec fn text(self) -> Seq<char> {
        match self {
            SplitDirection::Right => "right"@,
            SplitDirection::Down => "down"@,
        }
    }

    pub fn as_str(self) -> (r: &'static str)
        ensures
            r@ == self.text(),
    {
        match self {
            SplitDirection::Right => "right",
            SplitDirection::Down => "down",
        }
    }
}

/// A pane of a reported layout.
#[derive(Debug, PartialEq, Eq)]
pub struct SnapshotPane {
    pub pane_id: String,
    pub rect: Rect,
    pub focused: bool,
}

/// A split of a reported layout. The split ratio is carried as the bit pattern of the
/// `f32` that Herdr reported; nothing here reads it.
#[derive(Debug, PartialEq, Eq)]
pub struct SnapshotSplit {
    pub direction: SplitDirection,
    pub ratio_bits: u32,
    pub rect: Rect,
}

/// The layout of one tab, as Herdr reports it: every pane and split with its rectangle.
#[derive(Debug, PartialEq, Eq)]
pub struct LayoutSnapshot {
    pub workspace_id: String,
    pub tab_id: String,
    pub zoomed: bool,
    pub area: Rect,
    pub focused_pane_id: String,
    pub panes: Vec<SnapshotPane>,
    pub splits: Vec<SnapshotSplit>,
}

/// A split tree: panes at the leaves, splits (with direction and ratio bits) inside.
#[derive(Debug, PartialEq, Eq)]
pub enum LayoutNode {
    Pane { pane_id: String },
    Split {
        direction: SplitDirection,
        ratio_bits: u32,
        first: Box<LayoutNode>,
        second: Box<LayoutNode>,
    },
}

/// Why a snapshot could not be turned into a split tree.
#[derive(Clone, Copy, Debug, PartialEq, Eq, Structural)]
pub enum LayoutError {
    /// No split and no pane has exactly this rectangle.
    Unmapped { area: Rect },
    /// The split at this rectangle has no rectangle that can be its second child.
    MissingSecondChild { direction: SplitDirection, area: Rect },
    /// The first child of the split at this rectangle is the rectangle itself, so
    /// rebuilding it would never end.
    NoProgress { area: Rect },
}

/// `u16::saturating_add` on the spec level.
pub open spec fn sat_add(a: u16, b: u16) -> int {
    if a + b > u16::MAX { u16::MAX as int } else { a + b }
}

/// Whether `r` can be the second child of a split at `area` in `direction`: it shares
/// the split's far edge and the whole cross extent, and starts after the split's start.
pub open spec fn is_second_child(r: Rect, area: Rect, direction: SplitDirection) -> bool {
    match direction {
        SplitDirection::Right => r.y == area.y && r.height == area.height && r.x > area.x
            && sat_add(r.x, r.width) == sat_add(area.x, area.width),
        SplitDirection::Down => r.x == area.x && r.width == area.width && r.y > area.y
            && sat_add(r.y, r.height) == sat_add(area.y, area.height),
    }
}

pub open spec fn cell_count(r: Rect) -> int {
    r.width * r.height
}

/// Among the first `n` of `rects`, the candidate second child with the most cells; the
/// last one of those with equally many (as `Iterator::max_by_key` picks).
pub open spec fn largest_second_child(rects: Seq<Rect>, area: Rect, direction: SplitDirection, n: int) -> Option<Rect>
    decreases n,
{
    if n <= 0 {
        None
    } else {
        let best = largest_second_child(rects, area, direction, n - 1);
        let r = rects[n - 1];
        if is_second_child(r, area, direction) {
            match best {
                None => Some(r),
                Some(b) => if cell_count(r) >= cell_count(b) { Some(r) } else { Some(b) },
            }
        } else {
            best
        }
    }
}

/// The rectangle of the first child, from the split's rectangle and its second child.
pub open spec fn first_child_rect(area: Rect, second: Rect, direction: SplitDirection) -> Rect {
    match direction {
        SplitDirection::Right => Rect {
            x: area.x,
            y: area.y,
            width: if second.x >= area.x { (second.x - area.x) as u16 } else { 0 },
            height: area.height,
        },
        SplitDirection::Down => Rect {
            x: area.x,
            y: area.y,
            width: area.width,
            height: if second.y >= area.y { (second.y - area.y) as u16 } else { 0 },
        },
    }
}

/// Index of the first split at or after `i` whose rectangle is `area`.
pub open spec fn split_at(splits: Seq<SnapshotSplit>, area: Rect, i: int) -> Option<int>
    decreases splits.len() - i,
{
    if i < 0 || i >= splits.len() {
        None
    } else if splits[i].rect == area {
        Some(i)
    } else {
        split_at(splits, area, i + 1)
    }
}

/// Index of the first pane at or after `i` whose rectangle is `area`.
pub open spec fn pane_at(panes: Seq<SnapshotPane>, area: Rect, i: int) -> Option<int>
    decreases panes.len() - i,
{
    if i < 0 || i >= panes.len() {
        None
    } else if panes[i].rect == area {
        Some(i)
    } else {
        pane_at(panes, area, i + 1)
    }
}

/// Extent of `r` that lies on the screen, in both directions.
pub open spec fn on_screen_extent(r: Rect) -> int {
    (sat_add(r.x, r.width) - r.x) + (sat_add(r.y, r.height) - r.y)
}

pub open spec fn raw_extent(r: Rect) -> int {
    r.width + r.height
}

pub proof fn lemma_largest_is_candidate(rects: Seq<Rect>, area: Rect, direction: SplitDirection, n: int)
    requires
        n <= rects.len(),
    ensures
        largest_second_child(rects, area, direction, n) matches Some(r) ==> is_second_child(
            r,
            area,
            direction,
        ),
    decreases n,
{
    if n > 0 {
        lemma_largest_is_candidate(rects, area, direction, n - 1);
    }
}

/// The rectangles of all panes, then of all splits.
pub open spec fn all_rects(s: LayoutSnapshot) -> Seq<Rect> {
    s.panes@.map_values(|p: SnapshotPane| p.rect) + s.splits@.map_values(|q: SnapshotSplit| q.rect)
}

/// The split tree that a snapshot describes below `area`: a split at `area` becomes a
/// split node whose children are rebuilt from its two child rectangles; otherwise a pane
/// at `area` becomes a leaf.
pub open spec fn tree_at(s: LayoutSnapshot, rects: Seq<Rect>, area: Rect) -> Result<LayoutNode, LayoutError>
    decreases on_screen_extent(area), raw_extent(area),
{
    match split_at(s.splits@, area, 0) {
        None => match pane_at(s.panes@, area, 0) {
            None => Err(LayoutError::Unmapped { area }),
            Some(i) => Ok(LayoutNode::Pane { pane_id: s.panes@[i].pane_id }),
        },
        Some(j) => {
            let split = s.splits@[j];
            match largest_second_child(rects, area, split.direction, rects.len() as int) {
                None => Err(LayoutError::MissingSecondChild { direction: split.direction, area }),
                Some(second) => {
                    proof {
                        lemma_largest_is_candidate(rects, area, split.direction, rects.len() as int);
                    }
                    let first = first_child_rect(area, second, split.direction);
                    if first == area {
                        Err(LayoutError::NoProgress { area })
                    } else {
                        match tree_at(s, rects, first) {
                            Err(e) => Err(e),
                            Ok(f) => match tree_at(s, rects, second) {
                                Err(e) => Err(e),
                                Ok(g) => Ok(
                                    LayoutNode::Split {
                                        direction: split.direction,
                                        ratio_bits: split.ratio_bits,
                                        first: Box::new(f),
                                        second: Box::new(g),
                                    },
                                ),
                            },
                        }
                    }
                },
            }
        },
    }
}

fn find_split(splits: &Vec<SnapshotSplit>, area: Rect) -> (r: Option<usize>)
    ensures
        r is None ==> split_at(splits@, area, 0) is None,
        r matches Some(i) ==> i < splits@.len() && split_at(splits@, area, 0) == Some(i as int),
{
    let mut i: usize = 0;
    while i < splits.len()
        invariant
            i <= splits@.len(),
            split_at(splits@, area, 0) == split_at(splits@, area, i as int),
        decreases splits.len() - i,
    {
        if splits[i].rect == area {
            return Some(i);
        }
        i += 1;
    }
    None
}

fn find_pane(panes: &Vec<SnapshotPane>, area: Rect) -> (r: Option<usize>)
    ensures
        r is None ==> pane_at(panes@, area, 0) is None,
        r matches Some(i) ==> i < panes@.len() && pane_at(panes@, area, 0) == Some(i as int),
{
    let mut i: usize = 0;
    while i < panes.len()
        invariant
            i <= panes@.len(),
            pane_at(panes@, area, 0) == pane_at(panes@, area, i as int),
        decreases panes.len() - i,
    {
        if panes[i].rect == area {
            return Some(i);
        }
        i += 1;
    }
    None
}

fn second_child_exec(r: Rect, area: Rect, direction: SplitDirection) -> (b: bool)
    ensures
        b == is_second_child(r, area, direction),
{
    match direction {
        SplitDirection::Right => r.y == area.y && r.height == area.height && r.x > area.x
            && r.x.saturating_add(r.width) == area.x.saturating_add(area.width),
        SplitDirection::Down => r.x == area.x && r.width == area.width && r.y > area.y
            && r.y.saturating_add(r.height) == area.y.saturating_add(area.height),
    }
}

fn cells(r: Rect) -> (n: u32)
    ensures
        n == cell_count(r),
{
    assert(r.width * r.height <= 65535 * 65535) by (nonlinear_arith)
        requires
            r.width <= 65535,
            r.height <= 65535,
    ;
    (r.width as u32) * (r.height as u32)
}

/// The second child of the split at `area`: the candidate rectangle with the most cells.
pub fn second_child_rect(rects: &Vec<Rect>, area: Rect, direction: SplitDirection) -> (r: Result<Rect, LayoutError>)
    ensures
        match largest_second_child(rects@, area, direction, rects@.len() as int) {
            None => r == Err::<Rect, LayoutError>(LayoutError::MissingSecondChild { direction, area }),
            Some(best) => r == Ok::<Rect, LayoutError>(best),
        },
{
    let mut best: Option<Rect> = None;
    let mut i: usize = 0;
    while i < rects.len()
        invariant
            i <= rects@.len(),
            best == largest_second_child(rects@, area, direction, i as int),
        decreases rects.len() - i,
    {
        let candidate = rects[i];
        if second_child_exec(candidate, area, direction) {
            match best {
                None => {
                    best = Some(candidate);
                },
                Some(b) => {
                    if cells(candidate) >= cells(b) {
                        best = Some(candidate);
                    }
                },
            }
        }
        i += 1;
    }
    match best {
        None => Err(LayoutError::MissingSecondChild { direction, area }),
        Some(b) => Ok(b),
    }
}

fn first_child_exec(area: Rect, second: Rect, direction: SplitDirection) -> (r: Rect)
    ensures
        r == first_child_rect(area, second, direction),
{
    match direction {
        SplitDirection::Right => Rect {
            x: area.x,
            y: area.y,
            width: second.x.saturating_sub(area.x),
            height: area.height,
        },
        SplitDirection::Down => Rect {
            x: area.x,
            y: area.y,
            width: area.width,
            height: second.y.saturating_sub(area.y),
        },
    }
}

fn build(snapshot: &LayoutSnapshot, rects: &Vec<Rect>, area: Rect) -> (r: Result<LayoutNode, LayoutError>)
    ensures
        r == tree_at(*snapshot, rects@, area),
    decreases on_screen_extent(area), raw_extent(area),
{
    match find_split(&snapshot.splits, area) {
        None => match find_pane(&snapshot.panes, area) {
            None => Err(LayoutError::Unmapped { area }),
            Some(i) => Ok(LayoutNode::Pane { pane_id: snapshot.panes[i].pane_id.clone() }),
        },
        Some(j) => {
            let direction = snapshot.splits[j].direction;
            let ratio_bits = snapshot.splits[j].ratio_bits;
            let second = match second_child_rect(rects, area, direction) {
                Ok(second) => second,
                Err(e) => {
                    return Err(e);
                },
            };
            proof {
                lemma_largest_is_candidate(rects@, area, direction, rects@.len() as int);
            }
            let first = first_child_exec(area, second, direction);
            if first == area {
                return Err(LayoutError::NoProgress { area });
            }
            let f = match build(snapshot, rects, first) {
                Ok(f) => f,
                Err(e) => {
                    return Err(e);
                },
            };
            let g = match build(snapshot, rects, second) {
                Ok(g) => g,
                Err(e) => {
                    return Err(e);
                },
            };
            Ok(LayoutNode::Split { direction, ratio_bits, first: Box::new(f), second: Box::new(g) })
        },
    }
}

/// The pane at the far top-left of a tree: the first leaf.
pub open spec fn anchor_of(n: LayoutNode) -> Seq<char>
    decreases n,
{
    match n {
        LayoutNode::Pane { pane_id } => pane_id@,
        LayoutNode::Split { first, .. } => anchor_of(*first),
    }
}

/// The pane ids of a tree's leaves, first child before second child.
pub open spec fn leaf_ids(n: LayoutNode) -> Seq<Seq<char>>
    decreases n,
{
    match n {
        LayoutNode::Pane { pane_id } => seq![pane_id@],
        LayoutNode::Split { first, second, .. } => leaf_ids(*first) + leaf_ids(*second),
    }
}

pub open spec fn str_views(v: Seq<&str>) -> Seq<Seq<char>> {
    v.map_values(|t: &str| t@)
}

impl LayoutNode {
    /// The id of the tree's first leaf.
    pub fn anchor(&self) -> (r: &str)
        ensures
            r@ == anchor_of(*self),
        decreases self,
    {
        match self {
            LayoutNode::Pane { pane_id } => pane_id.as_str(),
            LayoutNode::Split { first, .. } => first.anchor(),
        }
    }

    /// The ids of all leaves, in tree order.
    pub fn leaves(&self) -> (r: Vec<&str>)
        ensures
            str_views(r@) == leaf_ids(*self),
    {
        let mut leaves: Vec<&str> = Vec::new();
        self.collect_leaves(&mut leaves);
        assert(str_views(leaves@) =~= leaf_ids(*self));
        leaves
    }

    fn collect_leaves<'a>(&'a self, leaves: &mut Vec<&'a str>)
        ensures
            str_views(final(leaves)@) =~= str_views(old(leaves)@) + leaf_ids(*self),
        decreases self,
    {
        match self {
            LayoutNode::Pane { pane_id } => {
                leaves.push(pane_id.as_str());
                assert(str_views(leaves@) =~= str_views(old(leaves)@).push(pane_id@));
            },
            LayoutNode::Split { first, second, .. } => {
                first.collect_leaves(leaves);
                second.collect_leaves(leaves);
            },
        }
    }

    /// Rebuilds the split tree of a tab from the rectangles Herdr reported for its panes
    /// and splits, starting at the tab's whole area.
    pub fn from_snapshot(snapshot: &LayoutSnapshot) -> (r: Result<LayoutNode, LayoutError>)
        ensures
            r == tree_at(*snapshot, all_rects(*snapshot), snapshot.area),
    {
        let mut rects: Vec<Rect> = Vec::new();
        let mut i: usize = 0;
        while i < snapshot.panes.len()
            invariant
                i <= snapshot.panes@.len(),
                rects@ == snapshot.panes@.take(i as int).map_values(|p: SnapshotPane| p.rect),
            decreases snapshot.panes.len() - i,
        {
            rects.push(snapshot.panes[i].rect);
            assert(snapshot.panes@.take(i + 1).map_values(|p: SnapshotPane| p.rect)
                =~= snapshot.panes@.take(i as int).map_values(|p: SnapshotPane| p.rect).push(snapshot.panes@[i as int].rect));
            i += 1;
        }
        assert(snapshot.panes@.take(i as int) =~= snapshot.panes@);
        let mut k: usize = 0;
        while k < snapshot.splits.len()
            invariant
                k <= snapshot.splits@.len(),
                rects@ == snapshot.panes@.map_values(|p: SnapshotPane| p.rect)
                    + snapshot.splits@.take(k as int).map_values(|q: SnapshotSplit| q.rect),
            decreases snapshot.splits.len() - k,
        {
            rects.push(snapshot.splits[k].rect);
            assert(snapshot.splits@.take(k + 1).map_values(|q: SnapshotSplit| q.rect)
                =~= snapshot.splits@.take(k as int).map_values(|q: SnapshotSplit| q.rect).push(snapshot.splits@[k as int].rect));
            k += 1;
        }
        assert(snapshot.splits@.take(k as int) =~= snapshot.splits@);
        assert(rects@ =~= all_rects(*snapshot));
        build(snapshot, &rects, snapshot.area)
    }
}

/// `format!("{r:?}")` for a rectangle.
pub open spec fn rect_text(r: Rect) -> Seq<char> {
    "Rect { x: "@ + decimal(r.x as nat) + ", y: "@ + decimal(r.y as nat) + ", width: "@ + decimal(r.width as nat)
        + ", height: "@ + decimal(r.height as nat) + " }"@
}

impl LayoutError {
    /// What went wrong, in words.
    pub open spec fn text(self) -> Seq<char> {
        match self {
            LayoutError::Unmapped { area } => "layout area does not map to a pane or split: "@ + rect_text(area),
            LayoutError::MissingSecondChild { direction, area } => "could not find the second child of the "@
                + direction.text() + " split at "@ + rect_text(area),
            LayoutError::NoProgress { area } => "the split at "@ + rect_text(area) + " does not divide its area"@,
        }
    }

    pub fn message(&self) -> (r: String)
        ensures
            r@ == self.text(),
    {
        match self {
            LayoutError::Unmapped { area } => {
                let mut m = "layout area does not map to a pane or split: ".to_owned();
                m.append(rect_debug(*area).as_str());
                m
            },
            LayoutError::MissingSecondChild { direction, area } => {
                let mut m = "could not find the second child of the ".to_owned();
                m.append(direction.as_str());
                m.append(" split at ");
                m.append(rect_debug(*area).as_str());
                m
            },
            LayoutError::NoProgress { area } => {
                let mut m = "the split at ".to_owned();
                m.append(rect_debug(*area).as_str());
                m.append(" does not divide its area");
                m
            },
        }
    }
}

/// `format!("{r:?}")` for a rectangle.
pub fn rect_debug(r: Rect) -> (s: String)
    ensures
        s@ == rect_text(r),
{
    let mut s = "Rect { x: ".to_owned();
    s.append(decimal_text(r.x as usize).as_str());
    s.append(", y: ");
    s.append(decimal_text(r.y as usize).as_str());
    s.append(", width: ");
    s.append(decimal_text(r.width as usize).as_str());
    s.append(", height: ");
    s.append(decimal_text(r.height as usize).as_str());
    s.append(" }");
    s
}

/// The anchor of a tree is its first leaf.
pub proof fn lemma_anchor_is_first_leaf(n: LayoutNode)
    ensures
        leaf_ids(n).len() >= 1,
        leaf_ids(n)[0] == anchor_of(n),
    decreases n,
{
    match n {
        LayoutNode::Pane { .. } => {},
        LayoutNode::Split { first, second, .. } => {
            lemma_anchor_is_first_leaf(*first);
            lemma_anchor_is_first_leaf(*second);
        },
    }
}

proof fn lemma_pane_at_bounds(panes: Seq<SnapshotPane>, area: Rect, i: int)
    requires
        0 <= i,
    ensures
        pane_at(panes, area, i) matches Some(j) ==> i <= j < panes.len(),
    decreases panes.len() - i,
{
    if i < panes.len() && panes[i].rect != area {
        lemma_pane_at_bounds(panes, area, i + 1);
    }
}

/// Whether `id` is the id of one of the panes a snapshot reports.
pub open spec fn reports_pane(s: LayoutSnapshot, id: Seq<char>) -> bool {
    exists|j: int| 0 <= j < s.panes@.len() && (#[trigger] s.panes@[j]).pane_id@ == id
}

/// Every leaf of a tree rebuilt from a snapshot is a pane that the snapshot reports.
pub proof fn lemma_leaves_are_reported_panes(s: LayoutSnapshot, rects: Seq<Rect>, area: Rect)
    ensures
        tree_at(s, rects, area) matches Ok(n) ==> forall|i: int| 0 <= i < leaf_ids(n).len() ==> reports_pane(
            s,
            #[trigger] leaf_ids(n)[i],
        ),
    decreases on_screen_extent(area), raw_extent(area),
{
    match split_at(s.splits@, area, 0) {
        None => {
            lemma_pane_at_bounds(s.panes@, area, 0);
            if let Some(j) = pane_at(s.panes@, area, 0) {
                let n = LayoutNode::Pane { pane_id: s.panes@[j].pane_id };
                assert(leaf_ids(n)[0] == s.panes@[j].pane_id@);
            }
        },
        Some(j) => {
            let split = s.splits@[j];
            if let Some(second) = largest_second_child(rects, area, split.direction, rects.len() as int) {
                lemma_largest_is_candidate(rects, area, split.direction, rects.len() as int);
                let first = first_child_rect(area, second, split.direction);
                if first != area {
                    lemma_leaves_are_reported_panes(s, rects, first);
                    lemma_leaves_are_reported_panes(s, rects, second);
                    if let Ok(f) = tree_at(s, rects, first) {
                        if let Ok(g) = tree_at(s, rects, second) {
                            let n = LayoutNode::Split {
                                direction: split.direction,
                                ratio_bits: split.ratio_bits,
                                first: Box::new(f),
                                second: Box::new(g),
                            };
                            assert forall|i: int| 0 <= i < leaf_ids(n).len() implies reports_pane(
                                s,
                                #[trigger] leaf_ids(n)[i],
                            ) by {
                                if i < leaf_ids(f).len() {
                                    assert(leaf_ids(n)[i] == leaf_ids(f)[i]);
                                } else {
                                    assert(leaf_ids(n)[i] == leaf_ids(g)[i - leaf_ids(f).len()]);
                                }
                            }
                        }
                    }
                }
            }
        },
    }
}


/// How the rectangle of each split node is cut between its two children.
pub ghost enum Cuts {
    Leaf,
    Split { first_area: Rect, second_area: Rect, first: Box<Cuts>, second: Box<Cuts> },
}

/// Whether the tree `n`, cut as `c` says, lays out the rectangle `area` of the snapshot
/// `s`: a leaf is a reported pane with exactly that rectangle; a split node sits on a
/// reported split of that rectangle, with that direction and ratio, and `c` divides the
/// rectangle in two (see `divides`), the first child laying out the part at the
/// top-left, the second child the rest.
pub open spec fn lays_out(s: LayoutSnapshot, n: LayoutNode, area: Rect, c: Cuts) -> bool
    decreases n,
{
    match n {
        LayoutNode::Pane { pane_id } => exists|j: int|
            0 <= j < s.panes@.len() && (#[trigger] s.panes@[j]).pane_id == pane_id && s.panes@[j].rect == area,
        LayoutNode::Split { direction, ratio_bits, first, second } => match c {
            Cuts::Leaf => false,
            Cuts::Split { first_area, second_area, first: first_cuts, second: second_cuts } => {
                &&& exists|k: int|
                    0 <= k < s.splits@.len() && (#[trigger] s.splits@[k]).rect == area && s.splits@[k].direction
                        == direction && s.splits@[k].ratio_bits == ratio_bits
                &&& divides(area, direction, first_area, second_area)
                &&& lays_out(s, *first, first_area, *first_cuts)
                &&& lays_out(s, *second, second_area, *second_cuts)
            },
        },
    }
}

/// Whether `r1` and `r2` cut `area` in two in `direction`: `r1` starts at the area's
/// top-left corner and spans it across, `r2` starts where `r1` ends (further right for
/// a right split, further down for a down split) and reaches the area's far edges.
pub open spec fn divides(area: Rect, direction: SplitDirection, r1: Rect, r2: Rect) -> bool {
    &&& r1.x == area.x && r1.y == area.y
    &&& sat_add(r2.x, r2.width) == sat_add(area.x, area.width)
    &&& sat_add(r2.y, r2.height) == sat_add(area.y, area.height)
    &&& match direction {
        SplitDirection::Right => r1.height == area.height && r2.y == area.y && r2.height == area.height && r2.x > area.x
            && r1.x + r1.width == r2.x,
        SplitDirection::Down => r1.width == area.width && r2.x == area.x && r2.width == area.width && r2.y > area.y
            && r1.y + r1.height == r2.y,
    }
}

proof fn lemma_pane_at_found(panes: Seq<SnapshotPane>, area: Rect, i: int)
    requires
        0 <= i,
    ensures
        pane_at(panes, area, i) matches Some(j) ==> i <= j < panes.len() && panes[j].rect == area,
    decreases panes.len() - i,
{
    if i < panes.len() && panes[i].rect != area {
        lemma_pane_at_found(panes, area, i + 1);
    }
}

proof fn lemma_split_at_found(splits: Seq<SnapshotSplit>, area: Rect, i: int)
    requires
        0 <= i,
    ensures
        split_at(splits, area, i) matches Some(j) ==> i <= j < splits.len() && splits[j].rect == area,
    decreases splits.len() - i,
{
    if i < splits.len() && splits[i].rect != area {
        lemma_split_at_found(splits, area, i + 1);
    }
}

proof fn lemma_rebuilt_cuts(s: LayoutSnapshot, rects: Seq<Rect>, area: Rect) -> (c: Cuts)
    ensures
        tree_at(s, rects, area) matches Ok(n) ==> lays_out(s, n, area, c),
    decreases on_screen_extent(area), raw_extent(area),
{
    lemma_split_at_found(s.splits@, area, 0);
    match split_at(s.splits@, area, 0) {
        None => {
            lemma_pane_at_found(s.panes@, area, 0);
            if let Some(j) = pane_at(s.panes@, area, 0) {
                assert(s.panes@[j].rect == area);
            }
            Cuts::Leaf
        },
        Some(j) => {
            let split = s.splits@[j];
            if let Some(second) = largest_second_child(rects, area, split.direction, rects.len() as int) {
                lemma_largest_is_candidate(rects, area, split.direction, rects.len() as int);
                let first = first_child_rect(area, second, split.direction);
                if first != area {
                    let cf = lemma_rebuilt_cuts(s, rects, first);
                    let cs = lemma_rebuilt_cuts(s, rects, second);
                    match split.direction {
                        SplitDirection::Right => {
                            assert(first.width == second.x - area.x);
                        },
                        SplitDirection::Down => {
                            assert(first.height == second.y - area.y);
                        },
                    }
                    assert(divides(area, split.direction, first, second));
                    assert(s.splits@[j].rect == area);
                    Cuts::Split { first_area: first, second_area: second, first: Box::new(cf), second: Box::new(cs) }
                } else {
                    Cuts::Leaf
                }
            } else {
                Cuts::Leaf
            }
        },
    }
}

/// A tree rebuilt from a snapshot lays out the area it was rebuilt from: every leaf is a
/// reported pane at its own rectangle, and every split node is a reported split whose
/// first child is the part of its area at the top-left and whose second child is the
/// rest, to the right or below.
pub proof fn lemma_rebuilt_tree_lays_out_the_area(s: LayoutSnapshot, rects: Seq<Rect>, area: Rect)
    ensures
        tree_at(s, rects, area) matches Ok(n) ==> exists|c: Cuts| lays_out(s, n, area, c),
{
    let c = lemma_rebuilt_cuts(s, rects, area);
    if let Ok(n) = tree_at(s, rects, area) {
        assert(lays_out(s, n, area, c));
    }
}

} // verus!
