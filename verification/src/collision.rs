//! Pluggable collision resolution when an item overlaps others after move/resize.

use vstd::prelude::*;
use crate::compact::at_row;
use crate::ids::{index_of_id, index_of_id_meaning, position_of_id, str_eq};
use crate::item::{LayoutItem, collides, collision};

verus! {

/// Resolves overlaps after the focused item has been placed.
pub trait CollisionResolver {
    /// The layout that resolving the overlaps of the item `moved_id` produces.
    spec fn resolution(&self, layout: Seq<LayoutItem>, moved_id: Seq<char>) -> Seq<LayoutItem>;

    /// The layouts on which resolution finishes without an arithmetic overflow.
    spec fn accepts(&self, layout: Seq<LayoutItem>, moved_id: Seq<char>) -> bool;

    fn resolve_collisions(&self, layout: &mut Vec<LayoutItem>, moved_id: &str)
        requires
            self.accepts(old(layout)@, moved_id@),
        ensures
            final(layout)@ == self.resolution(old(layout)@, moved_id@),
    ;

    /// A test that can be made before resolving: when it holds, this strategy
    /// accepts the layout.
    spec fn surely_accepts(&self, layout: Seq<LayoutItem>, moved_id: Seq<char>) -> bool;

    /// Makes the test [`CollisionResolver::surely_accepts`].
    fn can_resolve(&self, layout: &Vec<LayoutItem>, moved_id: &str) -> (r: bool)
        ensures
            r == self.surely_accepts(layout@, moved_id@),
            r ==> self.accepts(layout@, moved_id@),
    ;
}

// ---------------------------------------------------------------------------
// Push down
// ---------------------------------------------------------------------------

/// The ids, in layout order, of the items whose id is not `id` and that collide
/// with `moved`.
pub open spec fn colliding_ids(layout: Seq<LayoutItem>, id: Seq<char>, moved: LayoutItem) -> Seq<
    Seq<char>,
>
    decreases layout.len(),
{
    if layout.len() == 0 {
        seq![]
    } else {
        let prev = colliding_ids(layout.drop_last(), id, moved);
        let it = layout.last();
        if it.id@ != id && collision(moved, it) {
            prev.push(it.id@)
        } else {
            prev
        }
    }
}

/// Push-down resolution of the item `id`, allowed `fuel` levels of nested
/// resolution: `None` when the fuel runs out or a row leaves the `i32` range.
///
/// The first item with id `id` is the pushing item. Every other item that
/// collides with it is, in layout order, looked up again by its id; if that item
/// is not static it is moved to the row just below the pushing item, and the
/// overlaps it now causes are resolved in turn.
pub open spec fn push_down(layout: Seq<LayoutItem>, id: Seq<char>, fuel: nat) -> Option<
    Seq<LayoutItem>,
>
    decreases fuel, 1nat, 0nat,
{
    let i = index_of_id(layout, id);
    if i < 0 {
        Some(layout)
    } else {
        push_each(layout, layout[i], colliding_ids(layout, id, layout[i]), fuel)
    }
}

/// Pushes the items named by `ids` below `moved`, one after the other.
pub open spec fn push_each(
    layout: Seq<LayoutItem>,
    moved: LayoutItem,
    ids: Seq<Seq<char>>,
    fuel: nat,
) -> Option<Seq<LayoutItem>>
    decreases fuel, 0nat, ids.len(),
{
    if ids.len() == 0 {
        Some(layout)
    } else {
        let k = index_of_id(layout, ids[0]);
        if k < 0 || layout[k].is_static {
            push_each(layout, moved, ids.drop_first(), fuel)
        } else if fuel == 0 || !(i32::MIN <= moved.y + moved.h <= i32::MAX) {
            None
        } else {
            let l1 = layout.update(k, at_row(layout[k], moved.y + moved.h));
            match push_down(l1, ids[0], (fuel - 1) as nat) {
                Some(l2) => push_each(l2, moved, ids.drop_first(), fuel),
                None => None,
            }
        }
    }
}

/// Push-down resolution of `id` finishes: its nesting is finite and every row
/// stays within `i32`.
pub open spec fn push_down_finishes(layout: Seq<LayoutItem>, id: Seq<char>) -> bool {
    exists|fuel: nat| #[trigger] push_down(layout, id, fuel) is Some
}

/// The layout push-down resolution of `id` produces.
pub open spec fn pushed_down(layout: Seq<LayoutItem>, id: Seq<char>) -> Seq<LayoutItem> {
    push_down(layout, id, choose|fuel: nat| #[trigger] push_down(layout, id, fuel) is Some).unwrap()
}

/// A layout on which push-down resolution of `id` surely finishes (see
/// [`push_down_finishes_on_sound_layouts`]): no two items share an id, every
/// item is at least one row high, and the pushing item's row plus the total
/// height of all items fits in an `i32`.
pub open spec fn sound_for_push(layout: Seq<LayoutItem>, id: Seq<char>) -> bool {
    &&& unique_ids(layout)
    &&& positive_heights(layout)
    &&& index_of_id(layout, id) >= 0 ==> layout[index_of_id(layout, id)].y + total_height(layout)
        <= i32::MAX
}

/// Tests [`sound_for_push`].
fn check_sound_for_push(layout: &Vec<LayoutItem>, id: &str) -> (r: bool)
    ensures
        r == sound_for_push(layout@, id@),
{
    let n = layout.len();
    let mut i: usize = 0;
    while i < n
        invariant
            n == layout@.len(),
            i <= n,
            forall|k: int| 0 <= k < i ==> (#[trigger] layout@[k]).h >= 1,
        decreases n - i,
    {
        if layout[i].h < 1 {
            return false;
        }
        i = i + 1;
    }
    let mut a: usize = 0;
    while a < n
        invariant
            n == layout@.len(),
            a <= n,
            forall|x: int, y: int|
                0 <= x < a && x < y < n ==> (#[trigger] layout@[x]).id@ != (#[trigger] layout@[y]).id@,
        decreases n - a,
    {
        let mut b: usize = a + 1;
        while b < n
            invariant
                n == layout@.len(),
                a < n,
                a < b <= n,
                forall|x: int, y: int|
                    0 <= x < a && x < y < n ==> (#[trigger] layout@[x]).id@ != (
                    #[trigger] layout@[y]).id@,
                forall|y: int| a < y < b ==> layout@[a as int].id@ != (#[trigger] layout@[y]).id@,
            decreases n - b,
        {
            if str_eq(layout[a].id.as_str(), layout[b].id.as_str()) {
                assert(!unique_ids(layout@)) by {
                    assert(layout@[a as int].id@ == layout@[b as int].id@);
                }
                return false;
            }
            b = b + 1;
        }
        a = a + 1;
    }
    assert(unique_ids(layout@)) by {
        assert forall|x: int, y: int| 0 <= x < n && 0 <= y < n && x != y implies (
        #[trigger] layout@[x]).id@ != (#[trigger] layout@[y]).id@ by {
            if y < x {
                assert(layout@[y].id@ != layout@[x].id@);
            }
        }
    }
    let mut total: i128 = 0;
    let mut k: usize = 0;
    while k < n
        invariant
            n == layout@.len(),
            k <= n,
            total == total_height(layout@.take(k as int)),
            -0x8000_0000 * k <= total <= 0x8000_0000 * k,
        decreases n - k,
    {
        assert(layout@.take(k + 1).drop_last() =~= layout@.take(k as int));
        total = total + layout[k].h as i128;
        k = k + 1;
    }
    assert(layout@.take(n as int) =~= layout@);
    match position_of_id(layout, id) {
        Some(p) => layout[p].y as i128 + total <= i32::MAX as i128,
        None => true,
    }
}

/// Default RGL-style behavior: overlapping non-static items are pushed downward.
#[derive(Debug, Clone, Copy, PartialEq, Eq, Structural)]
pub struct PushDownResolver;

impl PushDownResolver {
    fn push_down_with(&self, layout: &mut Vec<LayoutItem>, moved_id: &str, Ghost(fuel): Ghost<nat>)
        requires
            push_down(old(layout)@, moved_id@, fuel) is Some,
        ensures
            final(layout)@ == push_down(old(layout)@, moved_id@, fuel).unwrap(),
        decreases fuel,
    {
        let ghost start = layout@;
        let i = match position_of_id(layout, moved_id) {
            Some(i) => i,
            None => {
                return ;
            },
        };
        proof {
            index_of_id_meaning(layout@, moved_id@);
        }
        let moved = layout[i].clone();
        let n = layout.len();
        let mut to_move: Vec<String> = Vec::new();
        let mut j: usize = 0;
        while j < n
            invariant
                layout@ == start,
                n == start.len(),
                j <= n,
                i < n,
                moved == start[i as int],
                to_move@.map_values(|s: String| s@) =~= colliding_ids(
                    start.take(j as int),
                    moved_id@,
                    moved,
                ),
            decreases n - j,
        {
            proof {
                assert(start.take(j + 1).drop_last() =~= start.take(j as int));
                assert(start.take(j + 1).last() == start[j as int]);
            }
            if !str_eq(layout[j].id.as_str(), moved_id) && collides(&moved, &layout[j]) {
                to_move.push(layout[j].id.clone());
            }
            j = j + 1;
        }
        let ghost ids = to_move@.map_values(|s: String| s@);
        proof {
            assert(start.take(n as int) =~= start);
            assert(ids.skip(0) =~= ids);
            assert(push_down(start, moved_id@, fuel) == push_each(start, moved, ids, fuel));
        }
        let m = to_move.len();
        let mut t: usize = 0;
        while t < m
            invariant
                m == to_move@.len(),
                ids == to_move@.map_values(|s: String| s@),
                t <= m,
                push_each(layout@, moved, ids.skip(t as int), fuel) == push_down(
                    start,
                    moved_id@,
                    fuel,
                ),
                push_down(start, moved_id@, fuel) is Some,
            decreases m - t,
        {
            let ghost cur = layout@;
            let ghost rest = ids.skip(t as int);
            proof {
                assert(rest[0] == to_move@[t as int]@);
                assert(rest.drop_first() =~= ids.skip(t + 1));
                index_of_id_meaning(cur, rest[0]);
            }
            match position_of_id(layout, to_move[t].as_str()) {
                Some(k) => {
                    if !layout[k].is_static {
                        let v = moved.y + moved.h;
                        let mut pushed = layout[k].clone();
                        pushed.y = v;
                        layout.set(k, pushed);
                        let next_id = layout[k].id.clone();
                        self.push_down_with(layout, next_id.as_str(), Ghost((fuel - 1) as nat));
                    }
                },
                None => {},
            }
            t = t + 1;
        }
        proof {
            assert(ids.skip(m as int) =~= Seq::<Seq<char>>::empty());
        }
    }
}

impl CollisionResolver for PushDownResolver {
    open spec fn resolution(&self, layout: Seq<LayoutItem>, moved_id: Seq<char>) -> Seq<LayoutItem> {
        pushed_down(layout, moved_id)
    }

    open spec fn accepts(&self, layout: Seq<LayoutItem>, moved_id: Seq<char>) -> bool {
        push_down_finishes(layout, moved_id)
    }

    fn resolve_collisions(&self, layout: &mut Vec<LayoutItem>, moved_id: &str) {
        let ghost fuel = choose|fuel: nat| #[trigger] push_down(layout@, moved_id@, fuel) is Some;
        self.push_down_with(layout, moved_id, Ghost(fuel));
    }

    open spec fn surely_accepts(&self, layout: Seq<LayoutItem>, moved_id: Seq<char>) -> bool {
        sound_for_push(layout, moved_id)
    }

    fn can_resolve(&self, layout: &Vec<LayoutItem>, moved_id: &str) -> (r: bool) {
        let r = check_sound_for_push(layout, moved_id);
        proof {
            if r {
                push_down_finishes_on_sound_layouts(layout@, moved_id@);
            }
        }
        r
    }
}

// ---------------------------------------------------------------------------
// No resolution
// ---------------------------------------------------------------------------

/// No automatic displacement; overlaps remain until the next compaction.
#[derive(Debug, Clone, Copy, PartialEq, Eq, Structural)]
pub struct NoopCollisionResolver;

impl CollisionResolver for NoopCollisionResolver {
    open spec fn resolution(&self, layout: Seq<LayoutItem>, moved_id: Seq<char>) -> Seq<LayoutItem> {
        layout
    }

    open spec fn accepts(&self, layout: Seq<LayoutItem>, moved_id: Seq<char>) -> bool {
        true
    }

    fn resolve_collisions(&self, _layout: &mut Vec<LayoutItem>, _moved_id: &str) {
    }

    open spec fn surely_accepts(&self, layout: Seq<LayoutItem>, moved_id: Seq<char>) -> bool {
        true
    }

    fn can_resolve(&self, _layout: &Vec<LayoutItem>, _moved_id: &str) -> (r: bool) {
        true
    }
}

/// Built-in strategies for [`crate::LayoutEngine`].
#[derive(Debug, Clone, Copy, PartialEq, Eq, Structural)]
pub enum CollisionStrategy {
    PushDown,
    /// Skip collision resolution (may leave overlaps until compaction).
    Noop,
}

impl Default for CollisionStrategy {
    fn default() -> (r: Self)
        ensures
            r == CollisionStrategy::PushDown,
    {
        CollisionStrategy::PushDown
    }
}

impl CollisionResolver for CollisionStrategy {
    open spec fn resolution(&self, layout: Seq<LayoutItem>, moved_id: Seq<char>) -> Seq<LayoutItem> {
        match self {
            CollisionStrategy::PushDown => pushed_down(layout, moved_id),
            CollisionStrategy::Noop => layout,
        }
    }

    open spec fn accepts(&self, layout: Seq<LayoutItem>, moved_id: Seq<char>) -> bool {
        match self {
            CollisionStrategy::PushDown => push_down_finishes(layout, moved_id),
            CollisionStrategy::Noop => true,
        }
    }

    fn resolve_collisions(&self, layout: &mut Vec<LayoutItem>, moved_id: &str) {
        match self {
            CollisionStrategy::PushDown => PushDownResolver.resolve_collisions(layout, moved_id),
            CollisionStrategy::Noop => NoopCollisionResolver.resolve_collisions(layout, moved_id),
        }
    }

    open spec fn surely_accepts(&self, layout: Seq<LayoutItem>, moved_id: Seq<char>) -> bool {
        match self {
            CollisionStrategy::PushDown => sound_for_push(layout, moved_id),
            CollisionStrategy::Noop => true,
        }
    }

    fn can_resolve(&self, layout: &Vec<LayoutItem>, moved_id: &str) -> (r: bool) {
        match self {
            CollisionStrategy::PushDown => PushDownResolver.can_resolve(layout, moved_id),
            CollisionStrategy::Noop => true,
        }
    }
}


// ---------------------------------------------------------------------------
// Laws of push-down resolution
// ---------------------------------------------------------------------------

/// `b` is `a` with at most the rows of non-static items changed.
pub open spec fn rows_changed_only(a: Seq<LayoutItem>, b: Seq<LayoutItem>) -> bool {
    &&& a.len() == b.len()
    &&& forall|k: int| 0 <= k < a.len() ==> #[trigger] b[k] == at_row(a[k], b[k].y as int)
    &&& forall|k: int| 0 <= k < a.len() && a[k].is_static ==> #[trigger] b[k] == a[k]
}

/// No two items share an id.
pub open spec fn unique_ids(s: Seq<LayoutItem>) -> bool {
    forall|i: int, j: int| 0 <= i < s.len() && 0 <= j < s.len() && i != j ==> (#[trigger] s[i]).id@
        != (#[trigger] s[j]).id@
}

/// Every item is at least one row high.
pub open spec fn positive_heights(s: Seq<LayoutItem>) -> bool {
    forall|k: int| 0 <= k < s.len() ==> (#[trigger] s[k]).h >= 1
}

proof fn rows_changed_only_trans(a: Seq<LayoutItem>, b: Seq<LayoutItem>, c: Seq<LayoutItem>)
    requires
        rows_changed_only(a, b),
        rows_changed_only(b, c),
    ensures
        rows_changed_only(a, c),
{
    assert forall|k: int| 0 <= k < a.len() implies #[trigger] c[k] == at_row(a[k], c[k].y as int) by {
        assert(b[k] == at_row(a[k], b[k].y as int));
        assert(c[k] == at_row(b[k], c[k].y as int));
    }
    assert forall|k: int| 0 <= k < a.len() && a[k].is_static implies #[trigger] c[k] == a[k] by {
        assert(b[k] == a[k]);
    }
}

proof fn rows_changed_only_keeps(a: Seq<LayoutItem>, b: Seq<LayoutItem>)
    requires
        rows_changed_only(a, b),
    ensures
        forall|k: int| 0 <= k < a.len() ==> (#[trigger] b[k]).id@ == a[k].id@ && b[k].h == a[k].h,
        unique_ids(a) ==> unique_ids(b),
        positive_heights(a) ==> positive_heights(b),
        forall|x: Seq<char>| index_of_id(a, x) == #[trigger] index_of_id(b, x),
{
    assert forall|k: int| 0 <= k < a.len() implies (#[trigger] b[k]).id@ == a[k].id@ && b[k].h
        == a[k].h by {
        assert(b[k] == at_row(a[k], b[k].y as int));
    }
    assert forall|x: Seq<char>| index_of_id(a, x) == #[trigger] index_of_id(b, x) by {
        crate::ids::index_of_id_same_ids(a, b, x);
    }
}

/// The pushed items of a push-down step differ from the input in rows only.
proof fn push_down_rows_only(l: Seq<LayoutItem>, id: Seq<char>, fuel: nat)
    requires
        push_down(l, id, fuel) is Some,
    ensures
        rows_changed_only(l, push_down(l, id, fuel).unwrap()),
    decreases fuel, 1nat, 0nat,
{
    let i = index_of_id(l, id);
    if i >= 0 {
        push_each_rows_only(l, l[i], colliding_ids(l, id, l[i]), fuel);
    }
}

proof fn push_each_rows_only(l: Seq<LayoutItem>, moved: LayoutItem, ids: Seq<Seq<char>>, fuel: nat)
    requires
        push_each(l, moved, ids, fuel) is Some,
    ensures
        rows_changed_only(l, push_each(l, moved, ids, fuel).unwrap()),
    decreases fuel, 0nat, ids.len(),
{
    if ids.len() > 0 {
        let k = index_of_id(l, ids[0]);
        index_of_id_meaning(l, ids[0]);
        if k < 0 || l[k].is_static {
            push_each_rows_only(l, moved, ids.drop_first(), fuel);
        } else {
            let l1 = l.update(k, at_row(l[k], moved.y + moved.h));
            assert(rows_changed_only(l, l1));
            push_down_rows_only(l1, ids[0], (fuel - 1) as nat);
            let l2 = push_down(l1, ids[0], (fuel - 1) as nat).unwrap();
            rows_changed_only_trans(l, l1, l2);
            push_each_rows_only(l2, moved, ids.drop_first(), fuel);
            rows_changed_only_trans(l, l2, push_each(l2, moved, ids.drop_first(), fuel).unwrap());
        }
    }
}

/// Every id listed by [`colliding_ids`] names an item that collides with
/// `moved`, and every item that collides with `moved` (and does not have id
/// `id`) has its id listed.
proof fn colliding_ids_meaning(l: Seq<LayoutItem>, id: Seq<char>, moved: LayoutItem)
    ensures
        forall|q: int|
            #![trigger colliding_ids(l, id, moved)[q]]
            0 <= q < colliding_ids(l, id, moved).len() ==> exists|c: int|
                0 <= c < l.len() && (#[trigger] l[c]).id@ == colliding_ids(l, id, moved)[q]
                    && collision(moved, l[c]) && l[c].id@ != id,
        forall|c: int|
            0 <= c < l.len() && (#[trigger] l[c]).id@ != id && collision(moved, l[c])
                ==> colliding_ids(l, id, moved).contains(l[c].id@),
    decreases l.len(),
{
    if l.len() > 0 {
        let t = l.drop_last();
        colliding_ids_meaning(t, id, moved);
        let prev = colliding_ids(t, id, moved);
        let now = colliding_ids(l, id, moved);
        assert forall|q: int| #![trigger now[q]] 0 <= q < now.len() implies exists|c: int|
            0 <= c < l.len() && (#[trigger] l[c]).id@ == now[q] && collision(moved, l[c])
                && l[c].id@ != id by {
            if q < prev.len() {
                let c = choose|c: int|
                    0 <= c < t.len() && (#[trigger] t[c]).id@ == prev[q] && collision(moved, t[c])
                        && t[c].id@ != id;
                assert(l[c] == t[c]);
            } else {
                assert(l[l.len() - 1].id@ == now[q]);
            }
        }
        assert forall|c: int|
            0 <= c < l.len() && (#[trigger] l[c]).id@ != id && collision(moved, l[c]) implies now.contains(
            l[c].id@,
        ) by {
            if c < l.len() - 1 {
                assert(t[c] == l[c]);
                let q = choose|q: int| 0 <= q < prev.len() && prev[q] == l[c].id@;
                assert(now[q] == prev[q]);
            } else {
                assert(now[now.len() - 1] == l[c].id@);
            }
        }
    }
}

/// Inside the resolution of an item at row `b` or below: every item either
/// keeps its place or ends at row `b` or below, and an item whose bottom edge
/// is at or above row `b` keeps its place.
proof fn push_down_stays_below(l: Seq<LayoutItem>, id: Seq<char>, fuel: nat, b: int)
    requires
        push_down(l, id, fuel) is Some,
        unique_ids(l),
        positive_heights(l),
        index_of_id(l, id) >= 0 ==> l[index_of_id(l, id)].y >= b,
    ensures
        forall|k: int|
            0 <= k < l.len() ==> #[trigger] push_down(l, id, fuel).unwrap()[k] == l[k]
                || push_down(l, id, fuel).unwrap()[k].y >= b,
        forall|k: int|
            0 <= k < l.len() && l[k].y + l[k].h <= b ==> #[trigger] push_down(
                l,
                id,
                fuel,
            ).unwrap()[k] == l[k],
    decreases fuel, 1nat, 0nat,
{
    let i = index_of_id(l, id);
    index_of_id_meaning(l, id);
    if i >= 0 {
        let moved = l[i];
        let ids = colliding_ids(l, id, moved);
        colliding_ids_meaning(l, id, moved);
        assert forall|q: int| 0 <= q < ids.len() && index_of_id(l, ids[q]) >= 0 implies l[index_of_id(
            l,
            ids[q],
        )].y + l[index_of_id(l, ids[q])].h > b by {
            let c = choose|c: int|
                0 <= c < l.len() && (#[trigger] l[c]).id@ == ids[q] && collision(moved, l[c])
                    && l[c].id@ != id;
            index_of_id_meaning(l, ids[q]);
            let x = index_of_id(l, ids[q]);
            if x != c {
                assert(l[x].id@ != l[c].id@);
            }
        }
        push_each_stays_below(l, moved, ids, fuel, b);
    }
}

proof fn push_each_stays_below(
    l: Seq<LayoutItem>,
    moved: LayoutItem,
    ids: Seq<Seq<char>>,
    fuel: nat,
    b: int,
)
    requires
        push_each(l, moved, ids, fuel) is Some,
        unique_ids(l),
        positive_heights(l),
        moved.y >= b,
        moved.h >= 1,
        forall|q: int|
            0 <= q < ids.len() && index_of_id(l, #[trigger] ids[q]) >= 0 ==> l[index_of_id(
                l,
                ids[q],
            )].y + l[index_of_id(l, ids[q])].h > b,
    ensures
        forall|k: int|
            0 <= k < l.len() ==> #[trigger] push_each(l, moved, ids, fuel).unwrap()[k] == l[k]
                || push_each(l, moved, ids, fuel).unwrap()[k].y >= b,
        forall|k: int|
            0 <= k < l.len() && l[k].y + l[k].h <= b ==> #[trigger] push_each(
                l,
                moved,
                ids,
                fuel,
            ).unwrap()[k] == l[k],
    decreases fuel, 0nat, ids.len(),
{
    if ids.len() > 0 {
        let k = index_of_id(l, ids[0]);
        index_of_id_meaning(l, ids[0]);
        let rest = ids.drop_first();
        if k < 0 || l[k].is_static {
            assert forall|q: int| 0 <= q < rest.len() && index_of_id(l, #[trigger] rest[q]) >= 0 implies l[index_of_id(
                l,
                rest[q],
            )].y + l[index_of_id(l, rest[q])].h > b by {
                assert(rest[q] == ids[q + 1]);
            }
            push_each_stays_below(l, moved, rest, fuel, b);
        } else {
            assert(l[k].y + l[k].h > b) by {
                assert(ids[0] == ids[0]);
            }
            let l1 = l.update(k, at_row(l[k], moved.y + moved.h));
            assert(rows_changed_only(l, l1));
            rows_changed_only_keeps(l, l1);
            assert(index_of_id(l1, ids[0]) == k);
            push_down_stays_below(l1, ids[0], (fuel - 1) as nat, b);
            push_down_rows_only(l1, ids[0], (fuel - 1) as nat);
            let l2 = push_down(l1, ids[0], (fuel - 1) as nat).unwrap();
            rows_changed_only_keeps(l1, l2);
            assert forall|q: int| 0 <= q < rest.len() && index_of_id(l2, #[trigger] rest[q]) >= 0 implies l2[index_of_id(
                l2,
                rest[q],
            )].y + l2[index_of_id(l2, rest[q])].h > b by {
                assert(rest[q] == ids[q + 1]);
                let x = index_of_id(l2, rest[q]);
                index_of_id_meaning(l2, rest[q]);
                assert(index_of_id(l, ids[q + 1]) == x);
                assert(l2[x] == l1[x] || l2[x].y >= b);
                assert(l2[x].h == l1[x].h && l1[x].h == l[x].h);
            }
            push_each_stays_below(l2, moved, rest, fuel, b);
            let r = push_each(l2, moved, rest, fuel).unwrap();
            assert forall|j: int| 0 <= j < l.len() implies #[trigger] r[j] == l[j] || r[j].y >= b by {
                assert(r[j] == l2[j] || r[j].y >= b);
                assert(l2[j] == l1[j] || l2[j].y >= b);
            }
            assert forall|j: int| 0 <= j < l.len() && l[j].y + l[j].h <= b implies #[trigger] r[j]
                == l[j] by {
                assert(j != k);
                assert(l1[j] == l[j]);
                assert(l2[j] == l1[j]);
            }
        }
    }
}

/// The top level of push-down resolution: the pushing item keeps its place and
/// no movable item still collides with it.
proof fn push_each_clears(
    l: Seq<LayoutItem>,
    a: int,
    moved: LayoutItem,
    ids: Seq<Seq<char>>,
    fuel: nat,
)
    requires
        push_each(l, moved, ids, fuel) is Some,
        unique_ids(l),
        positive_heights(l),
        0 <= a < l.len(),
        l[a] == moved,
        !ids.contains(moved.id@),
        forall|k: int|
            0 <= k < l.len() && k != a && !l[k].is_static && collision(moved, #[trigger] l[k])
                ==> ids.contains(l[k].id@),
    ensures
        push_each(l, moved, ids, fuel).unwrap()[a] == moved,
        forall|k: int|
            0 <= k < l.len() && k != a && !(#[trigger] push_each(
                l,
                moved,
                ids,
                fuel,
            ).unwrap()[k]).is_static ==> !collision(
                moved,
                push_each(l, moved, ids, fuel).unwrap()[k],
            ),
    decreases ids.len(),
{
    push_each_rows_only(l, moved, ids, fuel);
    let r = push_each(l, moved, ids, fuel).unwrap();
    if ids.len() == 0 {
        assert forall|k: int|
            0 <= k < l.len() && k != a && !(#[trigger] r[k]).is_static implies !collision(
            moved,
            r[k],
        ) by {
            assert(r[k] == l[k]);
        }
    } else {
        let k0 = index_of_id(l, ids[0]);
        index_of_id_meaning(l, ids[0]);
        let rest = ids.drop_first();
        assert forall|x: Seq<char>| ids.contains(x) && x != ids[0] implies rest.contains(x) by {
            let q = choose|q: int| 0 <= q < ids.len() && ids[q] == x;
            assert(rest[q - 1] == x);
        }
        assert(!rest.contains(moved.id@)) by {
            if rest.contains(moved.id@) {
                let q = choose|q: int| 0 <= q < rest.len() && rest[q] == moved.id@;
                assert(ids[q + 1] == moved.id@);
            }
        }
        if k0 < 0 || l[k0].is_static {
            assert forall|k: int|
                0 <= k < l.len() && k != a && !l[k].is_static && collision(moved, #[trigger] l[k])
                    implies rest.contains(l[k].id@) by {
                assert(ids.contains(l[k].id@));
                if l[k].id@ == ids[0] {
                    assert(k0 >= 0);
                    if k != k0 {
                        assert(l[k].id@ != l[k0].id@);
                    }
                }
            }
            push_each_clears(l, a, moved, rest, fuel);
        } else {
            let bottom = moved.y + moved.h;
            assert(k0 != a) by {
                if k0 == a {
                    assert(ids.contains(moved.id@));
                }
            }
            let l1 = l.update(k0, at_row(l[k0], bottom));
            assert(rows_changed_only(l, l1));
            rows_changed_only_keeps(l, l1);
            assert(index_of_id(l1, ids[0]) == k0);
            push_down_stays_below(l1, ids[0], (fuel - 1) as nat, bottom);
            push_down_rows_only(l1, ids[0], (fuel - 1) as nat);
            let l2 = push_down(l1, ids[0], (fuel - 1) as nat).unwrap();
            rows_changed_only_keeps(l1, l2);
            assert(l1[a] == moved);
            assert(l2[a] == l1[a]);
            assert forall|k: int|
                0 <= k < l2.len() && k != a && !l2[k].is_static && collision(moved, #[trigger] l2[k])
                    implies rest.contains(l2[k].id@) by {
                assert(l2[k] == l1[k] || l2[k].y >= bottom);
                assert(l2[k] == l1[k]);
                assert(k != k0);
                assert(l1[k] == l[k]);
                assert(ids.contains(l[k].id@));
                assert(l[k].id@ != l[k0].id@);
            }
            push_each_clears(l2, a, moved, rest, fuel);
        }
    }
}

/// Push-down resolution on a layout with unique ids and positive heights
/// changes nothing but the rows of movable items, leaves the pushing item where
/// it is, and afterwards no movable item collides with it (static items are
/// never pushed, so they may still overlap it).
pub proof fn push_down_clears_moved_item(layout: Seq<LayoutItem>, id: Seq<char>)
    requires
        push_down_finishes(layout, id),
        unique_ids(layout),
        positive_heights(layout),
    ensures
        rows_changed_only(layout, pushed_down(layout, id)),
        index_of_id(layout, id) >= 0 ==> pushed_down(layout, id)[index_of_id(layout, id)]
            == layout[index_of_id(layout, id)],
        index_of_id(layout, id) >= 0 ==> forall|k: int|
            0 <= k < layout.len() && !(#[trigger] pushed_down(layout, id)[k]).is_static
                ==> !collision(pushed_down(layout, id)[index_of_id(layout, id)], pushed_down(layout, id)[k]),
{
    let fuel = choose|fuel: nat| #[trigger] push_down(layout, id, fuel) is Some;
    push_down_rows_only(layout, id, fuel);
    let a = index_of_id(layout, id);
    index_of_id_meaning(layout, id);
    if a >= 0 {
        let moved = layout[a];
        let ids = colliding_ids(layout, id, moved);
        colliding_ids_meaning(layout, id, moved);
        assert(!ids.contains(moved.id@)) by {
            if ids.contains(moved.id@) {
                let q = choose|q: int| 0 <= q < ids.len() && ids[q] == moved.id@;
                let c = choose|c: int|
                    0 <= c < layout.len() && (#[trigger] layout[c]).id@ == ids[q] && collision(
                        moved,
                        layout[c],
                    ) && layout[c].id@ != id;
            }
        }
        assert forall|k: int|
            0 <= k < layout.len() && k != a && !layout[k].is_static && collision(
                moved,
                #[trigger] layout[k],
            ) implies ids.contains(layout[k].id@) by {
            assert(layout[k].id@ != layout[a].id@);
        }
        push_each_clears(layout, a, moved, ids, fuel);
        let r = pushed_down(layout, id);
        assert forall|k: int| 0 <= k < layout.len() && !(#[trigger] r[k]).is_static implies !collision(
            r[a],
            r[k],
        ) by {
            if k == a {
                crate::item::same_id_never_collides(r[a], r[k]);
            }
        }
    }
}

/// The number of items whose bottom edge is below row `b`.
pub open spec fn count_below(s: Seq<LayoutItem>, b: int) -> nat
    decreases s.len(),
{
    if s.len() == 0 {
        0
    } else {
        count_below(s.drop_last(), b) + if s.last().y + s.last().h > b {
            1nat
        } else {
            0nat
        }
    }
}

/// The total height of the items whose bottom edge is below row `b`.
pub open spec fn height_below(s: Seq<LayoutItem>, b: int) -> int
    decreases s.len(),
{
    if s.len() == 0 {
        0
    } else {
        height_below(s.drop_last(), b) + if s.last().y + s.last().h > b {
            s.last().h as int
        } else {
            0
        }
    }
}

/// The total height of all items.
pub open spec fn total_height(s: Seq<LayoutItem>) -> int
    decreases s.len(),
{
    if s.len() == 0 {
        0
    } else {
        total_height(s.drop_last()) + s.last().h
    }
}

/// Two layouts with the same heights, whose items are below row `b` at the same
/// positions, have the same count and height below `b`.
proof fn below_same(s: Seq<LayoutItem>, t: Seq<LayoutItem>, b: int)
    requires
        s.len() == t.len(),
        forall|k: int| 0 <= k < s.len() ==> (#[trigger] s[k]).h == t[k].h,
        forall|k: int| 0 <= k < s.len() ==> ((#[trigger] s[k]).y + s[k].h > b) == (t[k].y + t[k].h > b),
    ensures
        count_below(s, b) == count_below(t, b),
        height_below(s, b) == height_below(t, b),
    decreases s.len(),
{
    if s.len() > 0 {
        below_same(s.drop_last(), t.drop_last(), b);
    }
}

/// Raising the threshold from `b` to `c` drops at least the item `a`, whose
/// bottom edge lies in between.
proof fn below_shrinks(s: Seq<LayoutItem>, b: int, c: int, a: int)
    requires
        b <= c,
        positive_heights(s),
        0 <= a < s.len(),
        b < s[a].y + s[a].h <= c,
    ensures
        count_below(s, c) + 1 <= count_below(s, b),
        height_below(s, c) + s[a].h <= height_below(s, b),
    decreases s.len(),
{
    let t = s.drop_last();
    assert forall|k: int| 0 <= k < t.len() implies (#[trigger] t[k]).h >= 1 by {
        assert(t[k] == s[k]);
    }
    if a < s.len() - 1 {
        assert(t[a] == s[a]);
        below_shrinks(t, b, c, a);
    } else {
        below_grows(t, b, c);
    }
}

proof fn below_grows(s: Seq<LayoutItem>, b: int, c: int)
    requires
        b <= c,
        positive_heights(s),
    ensures
        count_below(s, c) <= count_below(s, b),
        height_below(s, c) <= height_below(s, b),
    decreases s.len(),
{
    if s.len() > 0 {
        let t = s.drop_last();
        assert forall|k: int| 0 <= k < t.len() implies (#[trigger] t[k]).h >= 1 by {
            assert(t[k] == s[k]);
        }
        below_grows(t, b, c);
    }
}

proof fn below_bounded(s: Seq<LayoutItem>, b: int)
    requires
        positive_heights(s),
    ensures
        count_below(s, b) <= s.len(),
        height_below(s, b) <= total_height(s),
        height_below(s, b) >= 0,
    decreases s.len(),
{
    if s.len() > 0 {
        let t = s.drop_last();
        assert forall|k: int| 0 <= k < t.len() implies (#[trigger] t[k]).h >= 1 by {
            assert(t[k] == s[k]);
        }
        below_bounded(t, b);
    }
}

proof fn item_counted_below(s: Seq<LayoutItem>, b: int, a: int)
    requires
        positive_heights(s),
        0 <= a < s.len(),
        s[a].y + s[a].h > b,
    ensures
        count_below(s, b) >= 1,
        height_below(s, b) >= s[a].h,
    decreases s.len(),
{
    let t = s.drop_last();
    assert forall|k: int| 0 <= k < t.len() implies (#[trigger] t[k]).h >= 1 by {
        assert(t[k] == s[k]);
    }
    below_bounded(t, b);
    if a < s.len() - 1 {
        assert(t[a] == s[a]);
        item_counted_below(t, b, a);
    }
}

/// Push-down from an item at row `b` or below finishes when the fuel exceeds
/// the number of items below row `b` and no row can pass `i32::MAX`.
proof fn push_down_ends(l: Seq<LayoutItem>, id: Seq<char>, fuel: nat, b: int)
    requires
        unique_ids(l),
        positive_heights(l),
        index_of_id(l, id) >= 0 ==> l[index_of_id(l, id)].y >= b && l[index_of_id(l, id)].y
            + height_below(l, b) <= i32::MAX,
        fuel > count_below(l, b),
    ensures
        push_down(l, id, fuel) is Some,
    decreases fuel, 1nat, 0nat,
{
    let i = index_of_id(l, id);
    index_of_id_meaning(l, id);
    if i >= 0 {
        let moved = l[i];
        let ids = colliding_ids(l, id, moved);
        colliding_ids_meaning(l, id, moved);
        assert forall|q: int| 0 <= q < ids.len() && index_of_id(l, #[trigger] ids[q]) >= 0 implies l[index_of_id(
            l,
            ids[q],
        )].y + l[index_of_id(l, ids[q])].h > b by {
            let c = choose|c: int|
                0 <= c < l.len() && (#[trigger] l[c]).id@ == ids[q] && collision(moved, l[c])
                    && l[c].id@ != id;
            index_of_id_meaning(l, ids[q]);
            let x = index_of_id(l, ids[q]);
            if x != c {
                assert(l[x].id@ != l[c].id@);
            }
        }
        assert forall|q: int| 0 <= q < ids.len() implies #[trigger] ids[q] != moved.id@ by {
            let c = choose|c: int|
                0 <= c < l.len() && (#[trigger] l[c]).id@ == ids[q] && collision(moved, l[c])
                    && l[c].id@ != id;
        }
        push_each_ends(l, i, moved, ids, fuel, b);
    }
}

proof fn push_each_ends(
    l: Seq<LayoutItem>,
    a: int,
    moved: LayoutItem,
    ids: Seq<Seq<char>>,
    fuel: nat,
    b: int,
)
    requires
        unique_ids(l),
        positive_heights(l),
        0 <= a < l.len(),
        l[a] == moved,
        moved.y >= b,
        moved.y + height_below(l, b) <= i32::MAX,
        fuel > count_below(l, b),
        forall|q: int| 0 <= q < ids.len() ==> #[trigger] ids[q] != moved.id@,
        forall|q: int|
            0 <= q < ids.len() && index_of_id(l, #[trigger] ids[q]) >= 0 ==> l[index_of_id(
                l,
                ids[q],
            )].y + l[index_of_id(l, ids[q])].h > b,
    ensures
        push_each(l, moved, ids, fuel) is Some,
    decreases fuel, 0nat, ids.len(),
{
    if ids.len() > 0 {
        let k = index_of_id(l, ids[0]);
        index_of_id_meaning(l, ids[0]);
        let rest = ids.drop_first();
        if k < 0 || l[k].is_static {
            assert forall|q: int| 0 <= q < rest.len() && index_of_id(l, #[trigger] rest[q]) >= 0 implies l[index_of_id(
                l,
                rest[q],
            )].y + l[index_of_id(l, rest[q])].h > b by {
                assert(rest[q] == ids[q + 1]);
            }
            assert forall|q: int| 0 <= q < rest.len() implies #[trigger] rest[q] != moved.id@ by {
                assert(rest[q] == ids[q + 1]);
            }
            push_each_ends(l, a, moved, rest, fuel, b);
        } else {
            assert(l[k].y + l[k].h > b) by {
                assert(ids[0] == ids[0]);
            }
            let bottom = moved.y + moved.h;
            item_counted_below(l, b, a);
            let l1 = l.update(k, at_row(l[k], bottom));
            assert(rows_changed_only(l, l1));
            rows_changed_only_keeps(l, l1);
            below_same(l, l1, b);
            assert(index_of_id(l1, ids[0]) == k);
            assert(k != a) by {
                assert(ids[0] != moved.id@);
            }
            assert(l1[a] == moved);
            below_shrinks(l1, b, bottom, a);
            push_down_ends(l1, ids[0], (fuel - 1) as nat, bottom);
            push_down_stays_below(l1, ids[0], (fuel - 1) as nat, bottom);
            push_down_rows_only(l1, ids[0], (fuel - 1) as nat);
            let l2 = push_down(l1, ids[0], (fuel - 1) as nat).unwrap();
            rows_changed_only_keeps(l1, l2);
            assert forall|j: int| 0 <= j < l1.len() implies ((#[trigger] l1[j]).y + l1[j].h > b) == (l2[j].y
                + l2[j].h > b) by {
                assert(l2[j] == l1[j] || l2[j].y >= bottom);
            }
            assert forall|j: int| 0 <= j < l1.len() implies (#[trigger] l1[j]).h == l2[j].h by {}
            below_same(l1, l2, b);
            assert(l2[a] == moved);
            assert forall|q: int| 0 <= q < rest.len() && index_of_id(l2, #[trigger] rest[q]) >= 0 implies l2[index_of_id(
                l2,
                rest[q],
            )].y + l2[index_of_id(l2, rest[q])].h > b by {
                assert(rest[q] == ids[q + 1]);
                let x = index_of_id(l2, rest[q]);
                index_of_id_meaning(l2, rest[q]);
                assert(index_of_id(l, ids[q + 1]) == x);
                assert(l2[x] == l1[x] || l2[x].y >= bottom);
                assert(l2[x].h == l1[x].h && l1[x].h == l[x].h);
            }
            assert forall|q: int| 0 <= q < rest.len() implies #[trigger] rest[q] != moved.id@ by {
                assert(rest[q] == ids[q + 1]);
            }
            push_each_ends(l2, a, moved, rest, fuel, b);
        }
    }
}

/// On a layout with unique ids and positive heights, push-down resolution
/// always finishes, provided the pushing item's row plus the total height of
/// all items fits in an `i32` (no row can grow past that).
pub proof fn push_down_finishes_on_sound_layouts(layout: Seq<LayoutItem>, id: Seq<char>)
    requires
        unique_ids(layout),
        positive_heights(layout),
        index_of_id(layout, id) >= 0 ==> layout[index_of_id(layout, id)].y + total_height(layout)
            <= i32::MAX,
    ensures
        push_down_finishes(layout, id),
{
    let i = index_of_id(layout, id);
    let b = if i >= 0 {
        layout[i].y as int
    } else {
        0
    };
    index_of_id_meaning(layout, id);
    below_bounded(layout, b);
    push_down_ends(layout, id, (layout.len() + 1) as nat, b);
}

/// Push-down resolution changes nothing but the rows of movable items.
pub proof fn pushed_down_changes_only_rows(layout: Seq<LayoutItem>, id: Seq<char>)
    requires
        push_down_finishes(layout, id),
    ensures
        rows_changed_only(layout, pushed_down(layout, id)),
{
    let fuel = choose|fuel: nat| #[trigger] push_down(layout, id, fuel) is Some;
    push_down_rows_only(layout, id, fuel);
}

proof fn push_down_only_lowers(l: Seq<LayoutItem>, id: Seq<char>, fuel: nat)
    requires
        push_down(l, id, fuel) is Some,
        unique_ids(l),
    ensures
        forall|k: int| 0 <= k < l.len() ==> l[k].y <= (#[trigger] push_down(l, id, fuel).unwrap()[k]).y,
    decreases fuel, 1nat, 0nat,
{
    push_down_rows_only(l, id, fuel);
    let i = index_of_id(l, id);
    if i >= 0 {
        index_of_id_meaning(l, id);
        let moved = l[i];
        let ids = colliding_ids(l, id, moved);
        colliding_ids_meaning(l, id, moved);
        assert forall|q: int| 0 <= q < ids.len() && index_of_id(l, #[trigger] ids[q]) >= 0 implies l[index_of_id(
            l,
            ids[q],
        )].y < moved.y + moved.h by {
            let c = choose|c: int|
                0 <= c < l.len() && (#[trigger] l[c]).id@ == ids[q] && collision(moved, l[c])
                    && l[c].id@ != id;
            index_of_id_meaning(l, ids[q]);
            let d = index_of_id(l, ids[q]);
            assert(d == c) by {
                if d != c {
                    assert(l[d].id@ == l[c].id@);
                }
            }
        }
        assert(rows_changed_only(l, l)) by {
            assert forall|k: int| 0 <= k < l.len() implies #[trigger] l[k] == at_row(l[k], l[k].y as int) by {
            }
        }
        push_each_only_lowers(l, l, moved, ids, fuel);
    }
}

proof fn push_each_only_lowers(
    f: Seq<LayoutItem>,
    l: Seq<LayoutItem>,
    moved: LayoutItem,
    ids: Seq<Seq<char>>,
    fuel: nat,
)
    requires
        push_each(l, moved, ids, fuel) is Some,
        unique_ids(f),
        rows_changed_only(f, l),
        forall|k: int| 0 <= k < f.len() ==> f[k].y <= (#[trigger] l[k]).y,
        forall|q: int|
            0 <= q < ids.len() && index_of_id(f, #[trigger] ids[q]) >= 0 ==> f[index_of_id(
                f,
                ids[q],
            )].y < moved.y + moved.h,
    ensures
        forall|k: int|
            0 <= k < f.len() ==> f[k].y <= (#[trigger] push_each(l, moved, ids, fuel).unwrap()[k]).y,
    decreases fuel, 0nat, ids.len(),
{
    if ids.len() > 0 {
        rows_changed_only_keeps(f, l);
        let k = index_of_id(l, ids[0]);
        assert(index_of_id(f, ids[0]) == k);
        index_of_id_meaning(l, ids[0]);
        let rest = ids.drop_first();
        assert forall|q: int| 0 <= q < rest.len() && index_of_id(f, #[trigger] rest[q]) >= 0 implies f[index_of_id(
            f,
            rest[q],
        )].y < moved.y + moved.h by {
            assert(rest[q] == ids[q + 1]);
        }
        if k < 0 || l[k].is_static {
            push_each_only_lowers(f, l, moved, rest, fuel);
        } else {
            let l1 = l.update(k, at_row(l[k], moved.y + moved.h));
            assert(rows_changed_only(l, l1));
            rows_changed_only_trans(f, l, l1);
            rows_changed_only_keeps(f, l1);
            assert(f[k].y < moved.y + moved.h);
            assert forall|j: int| 0 <= j < f.len() implies f[j].y <= (#[trigger] l1[j]).y by {
                if j != k {
                    assert(l1[j] == l[j]);
                }
            }
            push_down_only_lowers(l1, ids[0], (fuel - 1) as nat);
            push_down_rows_only(l1, ids[0], (fuel - 1) as nat);
            let l2 = push_down(l1, ids[0], (fuel - 1) as nat).unwrap();
            rows_changed_only_trans(f, l1, l2);
            assert forall|j: int| 0 <= j < f.len() implies f[j].y <= (#[trigger] l2[j]).y by {
                assert(f[j].y <= l1[j].y);
            }
            push_each_only_lowers(f, l2, moved, rest, fuel);
        }
    }
}

/// On a layout with unique ids, push-down resolution only pushes items down:
/// no item ends above the row it had.
pub proof fn push_down_only_lowers_items(layout: Seq<LayoutItem>, id: Seq<char>)
    requires
        push_down_finishes(layout, id),
        unique_ids(layout),
    ensures
        forall|k: int|
            0 <= k < layout.len() ==> layout[k].y <= (#[trigger] pushed_down(layout, id)[k]).y,
{
    let fuel = choose|fuel: nat| #[trigger] push_down(layout, id, fuel) is Some;
    push_down_only_lowers(layout, id, fuel);
}

/// Resolution with a built-in strategy changes nothing but the rows of movable items.
pub proof fn strategy_changes_only_rows(strategy: CollisionStrategy, layout: Seq<LayoutItem>, id: Seq<char>)
    requires
        strategy.accepts(layout, id),
    ensures
        rows_changed_only(layout, strategy.resolution(layout, id)),
{
    match strategy {
        CollisionStrategy::PushDown => pushed_down_changes_only_rows(layout, id),
        CollisionStrategy::Noop => {},
    }
}

} // verus!
