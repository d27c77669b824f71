use vstd::prelude::*;

verus! {

/// A horizontal run of wall cells in one row, columns `left..=right`.
#[derive(Clone, Copy, PartialEq, Eq, Structural, Debug)]
pub struct Plate {
    pub left: usize,
    pub right: usize,
}

/// A rectangle of wall cells, columns `left..=right`, rows `bottom..=top`.
#[derive(Clone, Copy, PartialEq, Eq, Structural, Debug)]
pub struct WallRect {
    pub left: usize,
    pub right: usize,
    pub top: usize,
    pub bottom: usize,
}

/// `p` is a maximal run of wall cells of `row`.
pub open spec fn is_run(row: Seq<bool>, p: Plate) -> bool {
    &&& p.left <= p.right < row.len()
    &&& forall|x: int| p.left <= x <= p.right ==> row[x]
    &&& (p.left == 0 || !row[p.left - 1])
    &&& (p.right + 1 == row.len() || !row[p.right + 1])
}

/// The plates are in order from left to right, with gaps between them.
pub open spec fn plates_ordered(ps: Seq<Plate>) -> bool {
    forall|i: int, j: int| 0 <= i < j < ps.len() ==> #[trigger] ps[i].right < #[trigger] ps[j].left
}

/// The plates of a row: its maximal runs, in order, covering every wall
/// cell.
pub open spec fn row_plates_of(row: Seq<bool>, ps: Seq<Plate>) -> bool {
    &&& forall|i: int| 0 <= i < ps.len() ==> is_run(row, #[trigger] ps[i])
    &&& plates_ordered(ps)
    &&& forall|x: int| 0 <= x < row.len() && row[x] ==> exists|i: int| 0 <= i < ps.len() && #[trigger] ps[i].left <= x <= ps[i].right
}

/// Cell `(x, y)` lies in the rectangle.
pub open spec fn covers(r: WallRect, x: int, y: int) -> bool {
    r.left <= x <= r.right && r.bottom <= y <= r.top
}

/// Cell `(x, y)` of the grid is a wall.
pub open spec fn is_wall(rows: Seq<Vec<bool>>, x: int, y: int) -> bool {
    0 <= y < rows.len() && 0 <= x < rows[y]@.len() && rows[y]@[x]
}

/// Closes the run that started at `s` and ends at `end - 1`.
proof fn lemma_close_run(row: Seq<bool>, old_plates: Seq<Plate>, plates: Seq<Plate>, s: usize, end: usize)
    requires
        0 <= s < end <= row.len(),
        end == row.len() || !row[end as int],
        forall|k: int| s <= k < end ==> row[k],
        s == 0 || !row[s - 1],
        forall|i: int| 0 <= i < old_plates.len() ==> is_run(row, #[trigger] old_plates[i]),
        plates_ordered(old_plates),
        forall|i: int| 0 <= i < old_plates.len() ==> #[trigger] old_plates[i].right + 1 < s,
        forall|k: int| 0 <= k < end && row[k] ==> (exists|i: int| 0 <= i < old_plates.len() && #[trigger] old_plates[i].left <= k <= old_plates[i].right) || s <= k,
        plates == old_plates.push(Plate { left: s, right: (end - 1) as usize }),
    ensures
        forall|i: int| 0 <= i < plates.len() ==> is_run(row, #[trigger] plates[i]),
        plates_ordered(plates),
        forall|i: int| 0 <= i < plates.len() ==> #[trigger] plates[i].right + 1 <= end,
        forall|k: int| 0 <= k < end && row[k] ==> exists|i: int| 0 <= i < plates.len() && #[trigger] plates[i].left <= k <= plates[i].right,
{
    let last = old_plates.len() as int;
    assert(plates[last] == Plate { left: s, right: (end - 1) as usize });
    assert(is_run(row, plates[last]));
    assert forall|i: int| 0 <= i < plates.len() implies is_run(row, #[trigger] plates[i]) by {
        if i < last {
            assert(plates[i] == old_plates[i]);
        }
    }
    assert forall|i: int, j: int| 0 <= i < j < plates.len() implies #[trigger] plates[i].right < #[trigger] plates[j].left by {
        assert(plates[i] == old_plates[i]);
        if j < last {
            assert(plates[j] == old_plates[j]);
        } else {
            assert(old_plates[i].right + 1 < s);
        }
    }
    assert forall|k: int| 0 <= k < end && row[k] implies exists|i: int| 0 <= i < plates.len() && #[trigger] plates[i].left <= k <= plates[i].right by {
        if s <= k {
            assert(plates[last].left <= k <= plates[last].right);
        } else {
            let i = choose|i: int| 0 <= i < old_plates.len() && #[trigger] old_plates[i].left <= k <= old_plates[i].right;
            assert(plates[i] == old_plates[i]);
        }
    }
    assert forall|i: int| 0 <= i < plates.len() implies #[trigger] plates[i].right + 1 <= end by {
        if i < last {
            assert(plates[i] == old_plates[i]);
        }
    }
}

/// Splits a row into its plates.
pub fn row_plates(row: &Vec<bool>) -> (r: Vec<Plate>)
    ensures
        row_plates_of(row@, r@),
{
    let n = row.len();
    let mut plates: Vec<Plate> = Vec::new();
    let mut start: Option<usize> = None;
    let mut x: usize = 0;
    while x < n
        invariant
            n == row@.len(),
            x <= n,
            forall|i: int| 0 <= i < plates@.len() ==> is_run(row@, #[trigger] plates@[i]),
            plates_ordered(plates@),
            forall|i: int| 0 <= i < plates@.len() ==> #[trigger] plates@[i].right + 1 <= x,
            match start {
                Some(s) => {
                    &&& s < x
                    &&& forall|k: int| s <= k < x ==> row@[k]
                    &&& (s == 0 || !row@[s - 1])
                    &&& forall|i: int| 0 <= i < plates@.len() ==> #[trigger] plates@[i].right + 1 < s
                },
                None => x == 0 || !row@[x - 1],
            },
            forall|k: int| 0 <= k < x && row@[k] ==> (exists|i: int| 0 <= i < plates@.len() && #[trigger] plates@[i].left <= k <= plates@[i].right) || (match start {
                Some(s) => s <= k,
                None => false,
            }),
        decreases n - x,
    {
        let wall = row[x];
        match start {
            Some(s) => {
                if !wall {
                    let ghost old_plates = plates@;
                    plates.push(Plate { left: s, right: x - 1 });
                    start = None;
                    proof {
                        lemma_close_run(row@, old_plates, plates@, s, x);
                    }
                }
            },
            None => {
                if wall {
                    start = Some(x);
                }
            },
        }
        x = x + 1;
    }
    match start {
        Some(s) => {
            let ghost old_plates = plates@;
            plates.push(Plate { left: s, right: n - 1 });
            proof {
                lemma_close_run(row@, old_plates, plates@, s, n);
            }
        },
        None => {},
    }
    plates
}

/// The plates are ordered and none is empty.
pub open spec fn plates_ok(ps: Seq<Plate>) -> bool {
    &&& plates_ordered(ps)
    &&& forall|i: int| 0 <= i < ps.len() ==> #[trigger] ps[i].left <= ps[i].right
}

/// The columns of a rectangle, as a plate.
pub open spec fn plate_of(r: WallRect) -> Plate {
    Plate { left: r.left, right: r.right }
}

/// The rectangle is one plate repeated in every row from `bottom` to `top`.
pub open spec fn stacked(plate_rows: Seq<Vec<Plate>>, r: WallRect) -> bool {
    &&& r.bottom <= r.top < plate_rows.len()
    &&& forall|yy: int| r.bottom <= yy <= r.top ==> (#[trigger] plate_rows[yy])@.contains(plate_of(r))
}

/// The rectangle holds plate `p` of row `yy`.
pub open spec fn covers_plate(r: WallRect, yy: int, p: Plate) -> bool {
    r.left == p.left && r.right == p.right && r.bottom <= yy <= r.top
}

/// Some rectangle of `next` is `r` grown up to row `y`.
pub open spec fn grown(next: Seq<WallRect>, r: WallRect, y: usize) -> bool {
    exists|m: int| 0 <= m < next.len() && next[m] == (WallRect { top: y, ..r })
}

/// Plate `p` occurs among the first `upto` plates of `ps`.
pub open spec fn occurs_before(ps: Seq<Plate>, upto: int, p: Plate) -> bool {
    exists|m: int| 0 <= m < upto && ps[m] == p
}

/// An ordered row holds each plate once.
proof fn lemma_plates_distinct(ps: Seq<Plate>, a: int, b: int)
    requires
        plates_ok(ps),
        0 <= a < ps.len(),
        0 <= b < ps.len(),
        ps[a] == ps[b],
    ensures
        a == b,
{
    if a < b {
        assert(ps[a].right < ps[b].left);
    } else if b < a {
        assert(ps[b].right < ps[a].left);
    }
}

fn find_plate(ps: &Vec<Plate>, p: Plate) -> (r: Option<usize>)
    ensures
        match r {
            Some(k) => k < ps@.len() && ps@[k as int] == p,
            None => !ps@.contains(p),
        },
{
    let mut k: usize = 0;
    while k < ps.len()
        invariant
            k <= ps@.len(),
            forall|i: int| 0 <= i < k ==> ps@[i] != p,
        decreases ps@.len() - k,
    {
        if ps[k] == p {
            return Some(k);
        }
        k = k + 1;
    }
    None
}

/// Moves the rectangles under construction from one row to the next.
/// Rectangles whose plate does not go on into `current` are finished and
/// appended to `closed`; the others grow by one row; a plate of `current`
/// that does not go on from `prev` starts a rectangle of its own.
fn advance_row(closed: &mut Vec<WallRect>, open: &Vec<WallRect>, prev: &Vec<Plate>, current: &Vec<Plate>, y: usize) -> (next: Vec<WallRect>)
    requires
        plates_ok(prev@),
        open@.len() == prev@.len(),
        forall|k: int| 0 <= k < open@.len() ==> plate_of(#[trigger] open@[k]) == prev@[k] && open@[k].top + 1 == y,
    ensures
        next@.len() == current@.len(),
        forall|j: int| 0 <= j < next@.len() ==> {
            &&& plate_of(#[trigger] next@[j]) == current@[j]
            &&& next@[j].top == y
            &&& (next@[j].bottom == y || exists|k: int| 0 <= k < open@.len() && next@[j] == (WallRect { top: y, ..#[trigger] open@[k] }))
        },
        final(closed)@.subrange(0, old(closed)@.len() as int) == old(closed)@,
        old(closed)@.len() <= final(closed)@.len(),
        forall|i: int| old(closed)@.len() <= i < final(closed)@.len() ==> open@.contains(#[trigger] final(closed)@[i]),
        forall|k: int| 0 <= k < open@.len() ==> final(closed)@.contains(#[trigger] open@[k]) || grown(next@, open@[k], y),
{
    let ghost start = closed@;
    let mut i: usize = 0;
    while i < prev.len()
        invariant
            open@.len() == prev@.len(),
            i <= prev@.len(),
            closed@.subrange(0, start.len() as int) == start,
            start.len() <= closed@.len(),
            forall|m: int| start.len() <= m < closed@.len() ==> open@.contains(#[trigger] closed@[m]),
            forall|k: int| 0 <= k < i ==> closed@.contains(#[trigger] open@[k]) || current@.contains(prev@[k]),
        decreases prev@.len() - i,
    {
        let ghost before = closed@;
        if find_plate(current, prev[i]).is_none() {
            closed.push(open[i]);
            assert(closed@[before.len() as int] == open@[i as int]);
            assert(closed@.subrange(0, start.len() as int) =~= before.subrange(0, start.len() as int));
            assert forall|k: int| 0 <= k < i implies closed@.contains(#[trigger] open@[k]) || current@.contains(prev@[k]) by {
                if before.contains(open@[k]) {
                    let m = choose|m: int| 0 <= m < before.len() && before[m] == open@[k];
                    assert(closed@[m] == open@[k]);
                }
            }
            assert forall|m: int| start.len() <= m < closed@.len() implies open@.contains(#[trigger] closed@[m]) by {
                if m < before.len() {
                    assert(closed@[m] == before[m]);
                } else {
                    assert(open@[i as int] == closed@[m]);
                }
            }
        }
        i = i + 1;
    }
    let mut next: Vec<WallRect> = Vec::new();
    let mut j: usize = 0;
    while j < current.len()
        invariant
            plates_ok(prev@),
            open@.len() == prev@.len(),
            forall|k: int| 0 <= k < open@.len() ==> plate_of(#[trigger] open@[k]) == prev@[k] && open@[k].top + 1 == y,
            j <= current@.len(),
            next@.len() == j,
            forall|m: int| 0 <= m < next@.len() ==> {
                &&& plate_of(#[trigger] next@[m]) == current@[m]
                &&& next@[m].top == y
                &&& (next@[m].bottom == y || exists|k: int| 0 <= k < open@.len() && next@[m] == (WallRect { top: y, ..#[trigger] open@[k] }))
            },
            forall|k: int| #![trigger open@[k]] 0 <= k < open@.len() && occurs_before(current@, j as int, prev@[k]) ==> grown(next@, open@[k], y),
        decreases current@.len() - j,
    {
        let plate = current[j];
        let ghost before = next@;
        match find_plate(prev, plate) {
            Some(k) => {
                let r = open[k];
                next.push(WallRect { left: r.left, right: r.right, top: y, bottom: r.bottom });
                assert(next@[j as int] == (WallRect { top: y, ..open@[k as int] }));
            },
            None => {
                next.push(WallRect { left: plate.left, right: plate.right, top: y, bottom: y });
            },
        }
        assert forall|m: int| 0 <= m < before.len() implies next@[m] == before[m] by {}
        assert forall|kk: int| #![trigger open@[kk]] 0 <= kk < open@.len() && occurs_before(current@, j + 1, prev@[kk]) implies grown(next@, open@[kk], y) by {
            let m = choose|m: int| 0 <= m < j + 1 && current@[m] == prev@[kk];
            if m == j {
                let k = choose|k: int| 0 <= k < prev@.len() && prev@[k] == plate;
                lemma_plates_distinct(prev@, k, kk);
                assert(next@[j as int] == (WallRect { top: y, ..open@[kk] }));
            } else {
                assert(occurs_before(current@, j as int, prev@[kk]));
                assert(grown(before, open@[kk], y));
                let m2 = choose|m2: int| 0 <= m2 < before.len() && before[m2] == (WallRect { top: y, ..open@[kk] });
                assert(next@[m2] == before[m2]);
            }
        }
        j = j + 1;
    }
    assert forall|k: int| 0 <= k < open@.len() implies closed@.contains(#[trigger] open@[k]) || grown(next@, open@[k], y) by {
        if current@.contains(prev@[k]) {
            let m = choose|m: int| 0 <= m < current@.len() && current@[m] == prev@[k];
            assert(occurs_before(current@, current@.len() as int, prev@[k]));
        }
    }
    next
}

/// The plates of the row below `y`; none below the first row.
pub open spec fn prev_plates(plate_rows: Seq<Vec<Plate>>, y: int) -> Seq<Plate> {
    if y == 0 {
        Seq::empty()
    } else {
        plate_rows[y - 1]@
    }
}

/// Some rectangle of `rs` holds plate `p` of row `yy`.
pub open spec fn plate_covered(rs: Seq<WallRect>, yy: int, p: Plate) -> bool {
    exists|i: int| 0 <= i < rs.len() && covers_plate(rs[i], yy, p)
}

/// After `advance_row`, whatever the finished and the open rectangles held
/// before is held by the finished and the grown ones.
proof fn lemma_cover_kept(old_closed: Seq<WallRect>, open: Seq<WallRect>, closed: Seq<WallRect>, next: Seq<WallRect>, y: usize, yy: int, p: Plate)
    requires
        plate_covered(old_closed + open, yy, p),
        yy < y,
        closed.subrange(0, old_closed.len() as int) == old_closed,
        old_closed.len() <= closed.len(),
        forall|k: int| 0 <= k < open.len() ==> closed.contains(#[trigger] open[k]) || grown(next, open[k], y),
    ensures
        plate_covered(closed + next, yy, p),
{
    let i = choose|i: int| 0 <= i < (old_closed + open).len() && covers_plate((old_closed + open)[i], yy, p);
    let all = closed + next;
    if i < old_closed.len() {
        assert(closed[i] == closed.subrange(0, old_closed.len() as int)[i]);
        assert(all[i] == closed[i]);
    } else {
        let k = i - old_closed.len();
        assert(open[k] == (old_closed + open)[i]);
        if closed.contains(open[k]) {
            let m = choose|m: int| 0 <= m < closed.len() && closed[m] == open[k];
            assert(all[m] == closed[m]);
        } else {
            let m = choose|m: int| 0 <= m < next.len() && next[m] == (WallRect { top: y, ..open[k] });
            assert(all[closed.len() + m] == next[m]);
        }
    }
}

/// Combines the plates of successive rows into rectangles: a plate that
/// repeats with the same columns in consecutive rows becomes one
/// rectangle. Each rectangle is one plate stacked over its rows, and every
/// plate of every row lies in some rectangle.
pub fn merge_wall_plates(plate_rows: &Vec<Vec<Plate>>) -> (rects: Vec<WallRect>)
    requires
        forall|y: int| 0 <= y < plate_rows@.len() ==> plates_ok(#[trigger] plate_rows@[y]@),
    ensures
        forall|i: int| 0 <= i < rects@.len() ==> stacked(plate_rows@, #[trigger] rects@[i]),
        forall|yy: int, j: int| 0 <= yy < plate_rows@.len() && 0 <= j < plate_rows@[yy]@.len() ==>
            plate_covered(rects@, yy, #[trigger] plate_rows@[yy]@[j]),
{
    let empty: Vec<Plate> = Vec::new();
    let mut closed: Vec<WallRect> = Vec::new();
    let mut open: Vec<WallRect> = Vec::new();
    let h = plate_rows.len();
    let mut y: usize = 0;
    while y < h
        invariant
            h == plate_rows@.len(),
            y <= h,
            empty@.len() == 0,
            forall|y2: int| 0 <= y2 < plate_rows@.len() ==> plates_ok(#[trigger] plate_rows@[y2]@),
            open@.len() == prev_plates(plate_rows@, y as int).len(),
            forall|k: int| 0 <= k < open@.len() ==> {
                &&& plate_of(#[trigger] open@[k]) == prev_plates(plate_rows@, y as int)[k]
                &&& open@[k].top + 1 == y
                &&& stacked(plate_rows@, open@[k])
            },
            forall|i: int| 0 <= i < closed@.len() ==> stacked(plate_rows@, #[trigger] closed@[i]),
            forall|yy: int, j: int| 0 <= yy < y && 0 <= j < plate_rows@[yy]@.len() ==>
                plate_covered(closed@ + open@, yy, #[trigger] plate_rows@[yy]@[j]),
        decreases h - y,
    {
        let prev = if y == 0 { &empty } else { &plate_rows[y - 1] };
        assert(prev@ == prev_plates(plate_rows@, y as int));
        let current = &plate_rows[y];
        let ghost old_closed = closed@;
        let next = advance_row(&mut closed, &open, prev, current, y);
        assert forall|m: int| 0 <= m < next@.len() implies stacked(plate_rows@, #[trigger] next@[m]) by {
            assert(plate_rows@[y as int]@[m] == plate_of(next@[m]));
            assert(plate_rows@[y as int]@.contains(plate_of(next@[m])));
            if next@[m].bottom != y {
                let k = choose|k: int| 0 <= k < open@.len() && next@[m] == (WallRect { top: y, ..#[trigger] open@[k] });
                assert(stacked(plate_rows@, open@[k]));
            }
        }
        assert forall|i: int| 0 <= i < closed@.len() implies stacked(plate_rows@, #[trigger] closed@[i]) by {
            if i < old_closed.len() {
                assert(closed@[i] == closed@.subrange(0, old_closed.len() as int)[i]);
            } else {
                let k = choose|k: int| 0 <= k < open@.len() && open@[k] == closed@[i];
            }
        }
        assert forall|yy: int, j: int| 0 <= yy < y + 1 && 0 <= j < plate_rows@[yy]@.len() implies
            plate_covered(closed@ + next@, yy, #[trigger] plate_rows@[yy]@[j]) by {
            if yy < y {
                lemma_cover_kept(old_closed, open@, closed@, next@, y, yy, plate_rows@[yy]@[j]);
            } else {
                if next@[j].bottom != y {
                    let k = choose|k: int| 0 <= k < open@.len() && next@[j] == (WallRect { top: y, ..#[trigger] open@[k] });
                }
                assert((closed@ + next@)[closed@.len() + j] == next@[j]);
                assert(covers_plate(next@[j], yy, plate_rows@[yy]@[j]));
            }
        }
        open = next;
        y = y + 1;
    }
    let prev = if h == 0 { &empty } else { &plate_rows[h - 1] };
    assert(prev@ == prev_plates(plate_rows@, h as int));
    let ghost old_closed = closed@;
    let rest = advance_row(&mut closed, &open, prev, &empty, h);
    assert forall|i: int| 0 <= i < closed@.len() implies stacked(plate_rows@, #[trigger] closed@[i]) by {
        if i < old_closed.len() {
            assert(closed@[i] == closed@.subrange(0, old_closed.len() as int)[i]);
        } else {
            let k = choose|k: int| 0 <= k < open@.len() && open@[k] == closed@[i];
        }
    }
    assert forall|yy: int, j: int| 0 <= yy < plate_rows@.len() && 0 <= j < plate_rows@[yy]@.len() implies
        plate_covered(closed@, yy, #[trigger] plate_rows@[yy]@[j]) by {
        lemma_cover_kept(old_closed, open@, closed@, rest@, h, yy, plate_rows@[yy]@[j]);
        assert(closed@ + rest@ =~= closed@);
    }
    closed
}

/// The collision rectangles of a grid of wall cells (`rows[y][x]`): wall
/// cells are joined into horizontal plates per row, and plates with the
/// same columns in consecutive rows into rectangles. The rectangles hold
/// wall cells only, and every wall cell lies in one of them.
pub fn wall_collision_rects(rows: &Vec<Vec<bool>>) -> (rects: Vec<WallRect>)
    ensures
        forall|i: int, x: int, y: int| 0 <= i < rects@.len() && #[trigger] covers(rects@[i], x, y) ==> is_wall(rows@, x, y),
        forall|x: int, y: int| #[trigger] is_wall(rows@, x, y) ==> exists|i: int| 0 <= i < rects@.len() && covers(#[trigger] rects@[i], x, y),
{
    let mut plate_rows: Vec<Vec<Plate>> = Vec::new();
    let mut y: usize = 0;
    while y < rows.len()
        invariant
            y <= rows@.len(),
            plate_rows@.len() == y,
            forall|y2: int| 0 <= y2 < y ==> row_plates_of(rows@[y2]@, #[trigger] plate_rows@[y2]@),
        decreases rows@.len() - y,
    {
        let ps = row_plates(&rows[y]);
        plate_rows.push(ps);
        y = y + 1;
    }
    assert forall|y2: int| 0 <= y2 < plate_rows@.len() implies plates_ok(#[trigger] plate_rows@[y2]@) by {
        assert(row_plates_of(rows@[y2]@, plate_rows@[y2]@));
        assert forall|i: int| 0 <= i < plate_rows@[y2]@.len() implies #[trigger] plate_rows@[y2]@[i].left <= plate_rows@[y2]@[i].right by {
            assert(is_run(rows@[y2]@, plate_rows@[y2]@[i]));
        }
    }
    let rects = merge_wall_plates(&plate_rows);
    assert forall|i: int, x: int, y: int| 0 <= i < rects@.len() && #[trigger] covers(rects@[i], x, y) implies is_wall(rows@, x, y) by {
        assert(stacked(plate_rows@, rects@[i]));
        assert(plate_rows@[y]@.contains(plate_of(rects@[i])));
        let k = choose|k: int| 0 <= k < plate_rows@[y]@.len() && plate_rows@[y]@[k] == plate_of(rects@[i]);
        assert(row_plates_of(rows@[y]@, plate_rows@[y]@));
        assert(is_run(rows@[y]@, plate_rows@[y]@[k]));
    }
    assert forall|x: int, y: int| #[trigger] is_wall(rows@, x, y) implies exists|i: int| 0 <= i < rects@.len() && covers(#[trigger] rects@[i], x, y) by {
        assert(row_plates_of(rows@[y]@, plate_rows@[y]@));
        let j = choose|j: int| 0 <= j < plate_rows@[y]@.len() && #[trigger] plate_rows@[y]@[j].left <= x <= plate_rows@[y]@[j].right;
        assert(plate_covered(rects@, y, plate_rows@[y]@[j]));
        let i = choose|i: int| 0 <= i < rects@.len() && covers_plate(rects@[i], y, plate_rows@[y]@[j]);
        assert(covers(rects@[i], x, y));
    }
    rects
}

} // verus!
