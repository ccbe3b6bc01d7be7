//! Layout validation and automatic repair for persisted or imported grids.

use vstd::prelude::*;
use crate::engine::{at_least_one, clamp_by, clamp_opt, max_i32};
use crate::ids::str_eq;
use crate::item::{LayoutItem, collides, collision};
use vstd::string::StringExecFns;

verus! {

/// Issues found by [`validate_layout`].
#[derive(Debug, PartialEq, Eq)]
pub enum LayoutIssue {
    DuplicateId { id: String },
    NonPositiveSize { id: String, w: i32, h: i32 },
    OutOfHorizontalBounds { id: String, x: i32, w: i32, cols: i32 },
    MinMaxWidth { id: String, w: i32, min_w: Option<i32>, max_w: Option<i32> },
    MinMaxHeight { id: String, h: i32, min_h: Option<i32>, max_h: Option<i32> },
    Overlap { a: String, b: String },
}

/// Some item before position `i` has the same id as item `i`.
pub open spec fn seen_before(layout: Seq<LayoutItem>, i: int) -> bool {
    exists|j: int| 0 <= j < i && #[trigger] layout[j].id@ == layout[i].id@
}

/// `s` with `issue` added at the end if `cond` holds.
pub open spec fn add_when(s: Seq<LayoutIssue>, cond: bool, issue: LayoutIssue) -> Seq<LayoutIssue> {
    if cond {
        s.push(issue)
    } else {
        s
    }
}

/// `s` followed by the issues of item `i` on its own (and as a repeat of an
/// earlier id), in the order they are reported.
pub open spec fn add_item_issues(s: Seq<LayoutIssue>, layout: Seq<LayoutItem>, i: int, cols: int) -> Seq<
    LayoutIssue,
> {
    let it = layout[i];
    let s1 = add_when(s, seen_before(layout, i), LayoutIssue::DuplicateId { id: it.id });
    let s2 = add_when(
        s1,
        it.w < 1 || it.h < 1,
        LayoutIssue::NonPositiveSize { id: it.id, w: it.w, h: it.h },
    );
    let s3 = add_when(
        s2,
        it.x < 0 || it.x + it.w > cols,
        LayoutIssue::OutOfHorizontalBounds { id: it.id, x: it.x, w: it.w, cols: cols as i32 },
    );
    let s4 = add_when(
        s3,
        it.min_w matches Some(m) && it.w < m,
        LayoutIssue::MinMaxWidth { id: it.id, w: it.w, min_w: it.min_w, max_w: it.max_w },
    );
    let s5 = add_when(
        s4,
        it.max_w matches Some(m) && it.w > m,
        LayoutIssue::MinMaxWidth { id: it.id, w: it.w, min_w: it.min_w, max_w: it.max_w },
    );
    let s6 = add_when(
        s5,
        it.min_h matches Some(m) && it.h < m,
        LayoutIssue::MinMaxHeight { id: it.id, h: it.h, min_h: it.min_h, max_h: it.max_h },
    );
    add_when(
        s6,
        it.max_h matches Some(m) && it.h > m,
        LayoutIssue::MinMaxHeight { id: it.id, h: it.h, min_h: it.min_h, max_h: it.max_h },
    )
}

/// The item issues of the first `k` items.
pub open spec fn items_issues(layout: Seq<LayoutItem>, k: nat, cols: int) -> Seq<LayoutIssue>
    decreases k,
{
    if k == 0 {
        seq![]
    } else {
        add_item_issues(items_issues(layout, (k - 1) as nat, cols), layout, k - 1, cols)
    }
}

/// The overlaps of item `i` with items `i + 1 .. k`.
pub open spec fn overlaps_after(layout: Seq<LayoutItem>, i: int, k: int) -> Seq<LayoutIssue>
    decreases k - i,
{
    if k <= i + 1 {
        seq![]
    } else {
        add_when(
            overlaps_after(layout, i, k - 1),
            collision(layout[i], layout[k - 1]),
            LayoutIssue::Overlap { a: layout[i].id, b: layout[k - 1].id },
        )
    }
}

/// The overlaps of items `0 .. k` with the items after them.
pub open spec fn all_overlaps(layout: Seq<LayoutItem>, k: nat) -> Seq<LayoutIssue>
    decreases k,
{
    if k == 0 {
        seq![]
    } else {
        all_overlaps(layout, (k - 1) as nat) + overlaps_after(layout, k - 1, layout.len() as int)
    }
}

/// Every issue of the layout: the item issues, item by item, then the overlaps
/// of each pair, in index order.
pub open spec fn layout_issues(layout: Seq<LayoutItem>, cols: int) -> Seq<LayoutIssue> {
    items_issues(layout, layout.len(), cols) + all_overlaps(layout, layout.len())
}

fn push_when(issues: &mut Vec<LayoutIssue>, cond: bool, issue: LayoutIssue)
    ensures
        final(issues)@ == add_when(old(issues)@, cond, issue),
{
    if cond {
        issues.push(issue);
    }
}

fn is_repeat(layout: &[LayoutItem], i: usize) -> (r: bool)
    requires
        i < layout@.len(),
    ensures
        r == seen_before(layout@, i as int),
{
    let mut j: usize = 0;
    while j < i
        invariant
            j <= i < layout@.len(),
            forall|k: int| 0 <= k < j ==> #[trigger] layout@[k].id@ != layout@[i as int].id@,
        decreases i - j,
    {
        if str_eq(layout[j].id.as_str(), layout[i].id.as_str()) {
            return true;
        }
        j = j + 1;
    }
    false
}

fn push_item_issues(issues: &mut Vec<LayoutIssue>, layout: &[LayoutItem], i: usize, cols: i32)
    requires
        i < layout@.len(),
    ensures
        final(issues)@ == add_item_issues(old(issues)@, layout@, i as int, cols as int),
{
    let it = &layout[i];
    let ghost start = issues@;
    let repeat = is_repeat(layout, i);
    push_when(issues, repeat, LayoutIssue::DuplicateId { id: it.id.clone() });
    push_when(
        issues,
        it.w < 1 || it.h < 1,
        LayoutIssue::NonPositiveSize { id: it.id.clone(), w: it.w, h: it.h },
    );
    push_when(
        issues,
        it.x < 0 || it.x as i64 + it.w as i64 > cols as i64,
        LayoutIssue::OutOfHorizontalBounds { id: it.id.clone(), x: it.x, w: it.w, cols },
    );
    let low_w = match it.min_w {
        Some(m) => it.w < m,
        None => false,
    };
    push_when(
        issues,
        low_w,
        LayoutIssue::MinMaxWidth { id: it.id.clone(), w: it.w, min_w: it.min_w, max_w: it.max_w },
    );
    let high_w = match it.max_w {
        Some(m) => it.w > m,
        None => false,
    };
    push_when(
        issues,
        high_w,
        LayoutIssue::MinMaxWidth { id: it.id.clone(), w: it.w, min_w: it.min_w, max_w: it.max_w },
    );
    let low_h = match it.min_h {
        Some(m) => it.h < m,
        None => false,
    };
    push_when(
        issues,
        low_h,
        LayoutIssue::MinMaxHeight { id: it.id.clone(), h: it.h, min_h: it.min_h, max_h: it.max_h },
    );
    let high_h = match it.max_h {
        Some(m) => it.h > m,
        None => false,
    };
    push_when(
        issues,
        high_h,
        LayoutIssue::MinMaxHeight { id: it.id.clone(), h: it.h, min_h: it.min_h, max_h: it.max_h },
    );
}

/// Full validation pass (does not mutate): `Ok` exactly when the layout has no
/// issue, otherwise every issue, in the order of [`layout_issues`].
pub fn validate_layout(layout: &[LayoutItem], cols: i32) -> (r: Result<(), Vec<LayoutIssue>>)
    ensures
        match r {
            Ok(()) => layout_issues(layout@, cols as int).len() == 0,
            Err(issues) => issues@ == layout_issues(layout@, cols as int) && issues@.len() > 0,
        },
{
    let n = layout.len();
    let mut issues: Vec<LayoutIssue> = Vec::new();
    let mut i: usize = 0;
    while i < n
        invariant
            n == layout@.len(),
            i <= n,
            issues@ == items_issues(layout@, i as nat, cols as int),
        decreases n - i,
    {
        push_item_issues(&mut issues, layout, i, cols);
        i = i + 1;
    }
    let ghost item_part = issues@;
    let mut i: usize = 0;
    while i < n
        invariant
            n == layout@.len(),
            i <= n,
            issues@ == item_part + all_overlaps(layout@, i as nat),
        decreases n - i,
    {
        let mut j: usize = i + 1;
        let ghost before = issues@;
        while j < n
            invariant
                n == layout@.len(),
                i < n,
                i + 1 <= j <= n,
                    issues@ == before + overlaps_after(layout@, i as int, j as int),
                before == item_part + all_overlaps(layout@, i as nat),
            decreases n - j,
        {
            let hit = collides(&layout[i], &layout[j]);
            push_when(
                &mut issues,
                hit,
                LayoutIssue::Overlap { a: layout[i].id.clone(), b: layout[j].id.clone() },
            );
            assert(issues@ =~= before + overlaps_after(layout@, i as int, j + 1));
            j = j + 1;
        }
        assert(issues@ =~= item_part + all_overlaps(layout@, (i + 1) as nat));
        i = i + 1;
    }
    assert(issues@ =~= layout_issues(layout@, cols as int));
    if issues.len() == 0 {
        Ok(())
    } else {
        Err(issues)
    }
}

// ---------------------------------------------------------------------------
// Repair
// ---------------------------------------------------------------------------

/// The decimal digit `d` (0 to 9).
pub open spec fn digit_char(d: int) -> char {
    if d == 0 {
        '0'
    } else if d == 1 {
        '1'
    } else if d == 2 {
        '2'
    } else if d == 3 {
        '3'
    } else if d == 4 {
        '4'
    } else if d == 5 {
        '5'
    } else if d == 6 {
        '6'
    } else if d == 7 {
        '7'
    } else if d == 8 {
        '8'
    } else {
        '9'
    }
}

/// The decimal writing of `n`, without leading zeros.
pub open spec fn decimal(n: nat) -> Seq<char>
    decreases n,
{
    if n < 10 {
        seq![digit_char(n as int)]
    } else {
        decimal(n / 10) + seq![digit_char((n % 10) as int)]
    }
}

fn digit_str(d: usize) -> (s: &'static str)
    requires
        d < 10,
    ensures
        s@ == seq![digit_char(d as int)],
{
    proof {
        reveal_strlit("0");
        reveal_strlit("1");
        reveal_strlit("2");
        reveal_strlit("3");
        reveal_strlit("4");
        reveal_strlit("5");
        reveal_strlit("6");
        reveal_strlit("7");
        reveal_strlit("8");
        reveal_strlit("9");
    }
    if d == 0 {
        "0"
    } else if d == 1 {
        "1"
    } else if d == 2 {
        "2"
    } else if d == 3 {
        "3"
    } else if d == 4 {
        "4"
    } else if d == 5 {
        "5"
    } else if d == 6 {
        "6"
    } else if d == 7 {
        "7"
    } else if d == 8 {
        "8"
    } else {
        "9"
    }
}

fn append_decimal(s: &mut String, n: usize)
    ensures
        final(s)@ == old(s)@ + decimal(n as nat),
    decreases n,
{
    if n >= 10 {
        append_decimal(s, n / 10);
    }
    s.append(digit_str(n % 10));
    assert(final(s)@ =~= old(s)@ + decimal(n as nat)) by {
        if n >= 10 {
            assert(decimal(n as nat) == decimal((n / 10) as nat) + seq![digit_char((n % 10) as int)]);
        }
    };
}

/// `base`, then `-` and the number `k`.
pub open spec fn with_suffix(base: Seq<char>, k: nat) -> Seq<char> {
    base + seq!['-'] + decimal(k)
}

/// The ids of the items of `layout`, in order.
pub open spec fn input_ids(layout: Seq<LayoutItem>) -> Seq<Seq<char>> {
    Seq::new(layout.len(), |k: int| layout[k].id@)
}

/// The first number from `k` on whose suffix on `base` is not in `used`; the
/// search stops at `used.len()` (when `used` holds `base`, some suffix up to
/// there is always free).
pub open spec fn first_unused(base: Seq<char>, used: Seq<Seq<char>>, k: nat) -> nat
    decreases used.len() - k,
{
    if k >= used.len() || !used.contains(with_suffix(base, k)) {
        k
    } else {
        first_unused(base, used, k + 1)
    }
}

/// The ids repair gives to the items at positions `0 .. i`: an item keeps its
/// id unless an earlier item was already given that id; it then gets its id
/// followed by `-` and the smallest number from 1 on for which that id is
/// neither an input id nor given already.
pub open spec fn repaired_ids(layout: Seq<LayoutItem>, i: nat) -> Seq<Seq<char>>
    decreases i,
{
    if i == 0 {
        Seq::empty()
    } else {
        let done = repaired_ids(layout, (i - 1) as nat);
        let id = layout[i - 1].id@;
        let r = if done.contains(id) {
            with_suffix(id, first_unused(id, input_ids(layout) + done, 1))
        } else {
            id
        };
        done.push(r)
    }
}

/// The id item `i` gets from repair.
pub open spec fn repaired_id(layout: Seq<LayoutItem>, i: int) -> Seq<char> {
    repaired_ids(layout, layout.len())[i]
}

/// `v` lowered to `cols`.
pub open spec fn at_most(v: int, cols: int) -> int {
    if v > cols {
        cols
    } else {
        v
    }
}

/// `x` kept in `0 ..= max(cols - w, 0)`, with `x` already not negative.
pub open spec fn fit_x(x: int, w: int, cols: int) -> int {
    let room = if cols - w < 0 {
        0
    } else {
        cols - w
    };
    if x > room {
        room
    } else {
        x
    }
}

/// The geometry repair gives `item` (everything but the id): sizes at least 1,
/// the width at most `cols`, the bounds applied, and the position inside the
/// columns.
pub open spec fn repaired_geometry(item: LayoutItem, cols: int) -> LayoutItem {
    let w1 = at_most(at_least_one(item.w as int), cols);
    let h1 = at_least_one(item.h as int);
    let x1 = fit_x(if item.x < 0 {
        0
    } else {
        item.x as int
    }, w1, cols);
    let w2 = at_most(clamp_opt(w1, item.min_w, item.max_w), cols);
    let h2 = clamp_opt(h1, item.min_h, item.max_h);
    let x2 = fit_x(x1, w2, cols);
    LayoutItem { x: x2 as i32, w: w2 as i32, h: h2 as i32, ..item }
}

/// Repair stays within `i32`: `cols` minus the bounded width fits.
pub open spec fn repair_fits(item: LayoutItem, cols: int) -> bool {
    let w1 = at_most(at_least_one(item.w as int), cols);
    cols - at_most(clamp_opt(w1, item.min_w, item.max_w), cols) <= i32::MAX
}

fn at_most_i32(v: i32, cols: i32) -> (r: i32)
    ensures
        r == at_most(v as int, cols as int),
{
    if v > cols {
        cols
    } else {
        v
    }
}

fn fit_x_i32(x: i32, w: i32, cols: i32) -> (r: i32)
    requires
        i32::MIN <= cols - w <= i32::MAX,
    ensures
        r == fit_x(x as int, w as int, cols as int),
{
    let room = if cols - w < 0 {
        0
    } else {
        cols - w
    };
    if x > room {
        room
    } else {
        x
    }
}

/// Applies [`repaired_geometry`] to `item`.
fn repair_geometry(item: &mut LayoutItem, cols: i32)
    requires
        repair_fits(*old(item), cols as int),
    ensures
        *final(item) == repaired_geometry(*old(item), cols as int),
{
    let w1 = at_most_i32(max_i32(item.w, 1), cols);
    let h1 = max_i32(item.h, 1);
    let x1 = fit_x_i32(max_i32(item.x, 0), w1, cols);
    let w2 = at_most_i32(clamp_by(w1, item.min_w, item.max_w), cols);
    let h2 = clamp_by(h1, item.min_h, item.max_h);
    let x2 = fit_x_i32(x1, w2, cols);
    item.x = x2;
    item.w = w2;
    item.h = h2;
}

/// The views of a list of strings.
pub open spec fn string_views(v: Seq<String>) -> Seq<Seq<char>> {
    Seq::new(v.len(), |k: int| v[k]@)
}

/// Whether `id` is one of the strings of `list`.
fn contains_id(list: &Vec<String>, id: &String) -> (r: bool)
    ensures
        r == string_views(list@).contains(id@),
{
    let mut j: usize = 0;
    while j < list.len()
        invariant
            j <= list@.len(),
            forall|k: int| 0 <= k < j ==> list@[k]@ != id@,
        decreases list@.len() - j,
    {
        if str_eq(list[j].as_str(), id.as_str()) {
            assert(string_views(list@)[j as int] == id@);
            return true;
        }
        j = j + 1;
    }
    assert(!string_views(list@).contains(id@)) by {
        if string_views(list@).contains(id@) {
            let k = choose|k: int| 0 <= k < string_views(list@).len() && string_views(list@)[k] == id@;
            assert(list@[k]@ == id@);
        }
    }
    false
}

/// The first number from 1 on whose suffix on `base` is not in `used`.
fn first_unused_suffix(base: &String, used: &Vec<String>) -> (k: usize)
    requires
        string_views(used@).contains(base@),
    ensures
        k == first_unused(base@, string_views(used@), 1),
{
    let ghost u = string_views(used@);
    let mut k: usize = 1;
    loop
        invariant
            u == string_views(used@),
            1 <= k <= used@.len(),
            first_unused(base@, u, k as nat) == first_unused(base@, u, 1),
        ensures
            first_unused(base@, u, k as nat) == k,
            first_unused(base@, u, 1) == k,
        decreases used@.len() - k,
    {
        if k >= used.len() {
            break;
        }
        let cand = suffixed(base, k);
        if !contains_id(used, &cand) {
            break;
        }
        k = k + 1;
    }
    k
}

/// `base`, then `-` and `n`.
fn suffixed(base: &String, n: usize) -> (s: String)
    ensures
        s@ == base@ + seq!['-'] + decimal(n as nat),
{
    let mut s = base.clone();
    proof {
        reveal_strlit("-");
    }
    s.append("-");
    append_decimal(&mut s, n);
    s
}

/// Clamp positions/sizes into grid and min/max bounds; dedupe ids by suffixing.
pub fn repair_layout(layout: &mut [LayoutItem], cols: i32)
    requires
        forall|k: int| 0 <= k < old(layout)@.len() ==> repair_fits(#[trigger] old(layout)@[k], cols as int),
    ensures
        final(layout)@.len() == old(layout)@.len(),
        forall|k: int|
            0 <= k < old(layout)@.len() ==> #[trigger] final(layout)@[k] == (LayoutItem {
                id: final(layout)@[k].id,
                ..repaired_geometry(old(layout)@[k], cols as int)
            }),
        forall|k: int|
            0 <= k < old(layout)@.len() ==> (#[trigger] final(layout)@[k]).id@ == repaired_id(
                old(layout)@,
                k,
            ),
{
    let ghost before = layout@;
    let n = layout.len();
    let mut used: Vec<String> = Vec::new();
    let mut j: usize = 0;
    while j < n
        invariant
            n == layout@.len(),
            layout@ == before,
            j <= n,
            used@.len() == j,
            string_views(used@) == input_ids(before).take(j as int),
        decreases n - j,
    {
        let ghost prev = used@;
        let id = layout[j].id.clone();
        assert(id@ == input_ids(before)[j as int]);
        used.push(id);
        assert(used@ == prev.push(id));
        j = j + 1;
        assert(string_views(used@) =~= input_ids(before).take(j as int)) by {
            assert forall|k: int| 0 <= k < j implies string_views(used@)[k] == input_ids(before).take(
                j as int,
            )[k] by {
                if k < j - 1 {
                    assert(string_views(prev)[k] == input_ids(before).take(j - 1)[k]);
                }
            }
        }
    }
    assert(input_ids(before).take(n as int) =~= input_ids(before));
    let mut given: Vec<String> = Vec::new();
    assert(string_views(given@) =~= repaired_ids(before, 0));
    assert(string_views(used@) =~= input_ids(before) + repaired_ids(before, 0));
    let mut i: usize = 0;
    while i < n
        invariant
            n == layout@.len(),
            n == before.len(),
            i <= n,
            given@.len() == i,
            used@.len() == n + i,
            string_views(given@) == repaired_ids(before, i as nat),
            string_views(used@) == input_ids(before) + repaired_ids(before, i as nat),
            forall|k: int| i <= k < n ==> #[trigger] layout@[k] == before[k],
            forall|k: int| 0 <= k < n ==> repair_fits(#[trigger] before[k], cols as int),
            forall|k: int|
                0 <= k < i ==> #[trigger] layout@[k] == (LayoutItem {
                    id: layout@[k].id,
                    ..repaired_geometry(before[k], cols as int)
                }),
            forall|k: int| 0 <= k < i ==> (#[trigger] layout@[k]).id@ == repaired_ids(before, i as nat)[k],
        decreases n - i,
    {
        let ghost done = repaired_ids(before, i as nat);
        let mut item = layout[i].clone();
        let id = item.id.clone();
        assert(id@ == before[i as int].id@);
        if contains_id(&given, &id) {
            assert(string_views(used@).contains(id@)) by {
                let k = choose|k: int| 0 <= k < done.len() && done[k] == id@;
                assert(string_views(used@)[input_ids(before).len() + k] == id@);
            }
            let k = first_unused_suffix(&id, &used);
            item.id = suffixed(&id, k);
        }
        let ghost r = item.id@;
        assert(repaired_ids(before, (i + 1) as nat) == done.push(r));
        let given_id = item.id.clone();
        let used_id = item.id.clone();
        let ghost given0 = given@;
        let ghost used0 = used@;
        assert(string_views(used0) == input_ids(before) + done);
        given.push(given_id);
        used.push(used_id);
        assert(string_views(given@) =~= done.push(r)) by {
            assert(given@ == given0.push(given_id));
            assert forall|k: int| 0 <= k < given@.len() implies string_views(given@)[k] == done.push(
                r,
            )[k] by {
                if k < given0.len() {
                    assert(string_views(given0)[k] == done[k]);
                }
            }
        }
        assert(string_views(used@) =~= input_ids(before) + done.push(r)) by {
            assert(used@ == used0.push(used_id));
            assert forall|k: int| 0 <= k < used@.len() implies string_views(used@)[k] == (input_ids(
                before,
            ) + done.push(r))[k] by {
                if k < used0.len() {
                    assert(string_views(used0)[k] == (input_ids(before) + done)[k]);
                }
            }
        }
        repair_geometry(&mut item, cols);
        assert(item == (LayoutItem { id: item.id, ..repaired_geometry(before[i as int], cols as int) }));
        assert(item.id@ == r);
        layout[i] = item;
        assert forall|k: int| 0 <= k <= i implies (#[trigger] layout@[k]).id@ == done.push(r)[k] by {
            if k < i {
                assert(layout@[k].id@ == done[k]);
            }
        }
        i = i + 1;
    }
}

/// A repaired item lies inside the columns (`x >= 0` and `x + w <= cols`), so
/// validation finds no horizontal-bounds issue on it; its size respects each
/// maximum, and each minimum that does not exceed the maximum (nor, for the
/// width, the column count).
pub proof fn repaired_item_in_bounds(item: LayoutItem, cols: int)
    requires
        i32::MIN <= cols <= i32::MAX,
        repair_fits(item, cols),
    ensures
        ({
            let r = repaired_geometry(item, cols);
            &&& r.x >= 0
            &&& r.x + r.w <= cols
            &&& item.max_w matches Some(m) ==> r.w <= m
            &&& item.max_h matches Some(m) ==> r.h <= m
            &&& item.min_w matches Some(m) ==> (m <= cols && (item.max_w matches Some(n) ==> m <= n)
                ==> r.w >= m)
            &&& item.min_h matches Some(m) ==> ((item.max_h matches Some(n) ==> m <= n) ==> r.h >= m)
        }),
{
}

proof fn digit_char_injective(a: int, b: int)
    requires
        0 <= a < 10,
        0 <= b < 10,
        digit_char(a) == digit_char(b),
    ensures
        a == b,
{
}

/// Different numbers are written differently.
pub proof fn decimal_injective(a: nat, b: nat)
    requires
        decimal(a) == decimal(b),
    ensures
        a == b,
    decreases a,
{
    decimal_not_empty(a);
    decimal_not_empty(b);
    if a < 10 && b < 10 {
        assert(decimal(a) == seq![digit_char(a as int)]);
        assert(decimal(b) == seq![digit_char(b as int)]);
        assert(decimal(a)[0] == decimal(b)[0]);
        assert(decimal(a)[0] == digit_char(a as int));
        assert(decimal(b)[0] == digit_char(b as int));
        digit_char_injective(a as int, b as int);
    } else if a >= 10 && b >= 10 {
        let pa = decimal(a / 10);
        let pb = decimal(b / 10);
        decimal_not_empty(a / 10);
        decimal_not_empty(b / 10);
        assert(pa.len() == pb.len());
        assert(pa =~= decimal(a).drop_last());
        assert(pb =~= decimal(b).drop_last());
        decimal_injective(a / 10, b / 10);
        assert(decimal(a) == pa + seq![digit_char((a % 10) as int)]);
        assert(decimal(b) == pb + seq![digit_char((b % 10) as int)]);
        assert(decimal(a).last() == digit_char((a % 10) as int));
        assert(decimal(b).last() == digit_char((b % 10) as int));
        digit_char_injective((a % 10) as int, (b % 10) as int);
    } else {
        assert(decimal(a).len() != decimal(b).len()) by {
            if a >= 10 {
                decimal_not_empty(a / 10);
            } else {
                decimal_not_empty(b / 10);
            }
        }
    }
}

proof fn decimal_not_empty(n: nat)
    ensures
        decimal(n).len() >= 1,
        n >= 10 ==> decimal(n).len() >= 2,
    decreases n,
{
    if n >= 10 {
        decimal_not_empty(n / 10);
    }
}

/// A number's suffix on `base` is longer than `base`, and different numbers
/// give different suffixed ids.
proof fn suffix_injective(base: Seq<char>, a: nat, b: nat)
    ensures
        with_suffix(base, a).len() > base.len(),
        with_suffix(base, a) == with_suffix(base, b) ==> a == b,
{
    decimal_not_empty(a);
    if with_suffix(base, a) == with_suffix(base, b) {
        let pre = base + seq!['-'];
        let sa = with_suffix(base, a);
        let sb = with_suffix(base, b);
        assert(decimal(a) =~= sa.subrange(pre.len() as int, sa.len() as int));
        assert(decimal(b) =~= sb.subrange(pre.len() as int, sb.len() as int));
        decimal_injective(a, b);
    }
}

/// When `used` holds `base`, some suffix from 1 to `used.len()` on `base` is
/// not in `used`.
proof fn some_suffix_free(base: Seq<char>, used: Seq<Seq<char>>)
    requires
        used.contains(base),
    ensures
        exists|j: nat| 1 <= j <= used.len() && !used.contains(#[trigger] with_suffix(base, j)),
{
    broadcast use vstd::set::group_set_axioms, vstd::seq_lib::seq_to_set_is_finite;

    if forall|j: nat| 1 <= j <= used.len() ==> used.contains(#[trigger] with_suffix(base, j)) {
        suffixes_fill_too_few(base, used);
    }
}

/// The suffixes 1 to `used.len()` on `base` are more than the ids of `used`
/// other than `base`.
proof fn suffixes_fill_too_few(base: Seq<char>, used: Seq<Seq<char>>)
    requires
        used.contains(base),
        forall|j: nat| 1 <= j <= used.len() ==> used.contains(#[trigger] with_suffix(base, j)),
    ensures
        used.to_set().remove(base).len() >= used.len(),
        used.to_set().remove(base).len() < used.len(),
{
    broadcast use vstd::set::group_set_axioms, vstd::seq_lib::seq_to_set_is_finite;

    let l = used.len() as int;
    let f = |j: int| with_suffix(base, j as nat);
    let x = vstd::set_lib::set_int_range(1, l + 1);
    vstd::set_lib::lemma_int_range(1, l + 1);
    assert(vstd::relations::injective_on(f, x)) by {
        assert forall|a: int, b: int| x.contains(a) && x.contains(b) && #[trigger] f(a) == #[trigger] f(
            b,
        ) implies a == b by {
            suffix_injective(base, a as nat, b as nat);
        }
    }
    let y = x.map(f);
    vstd::set_lib::lemma_map_size(x, y, f);
    let t = used.to_set().remove(base);
    used.lemma_cardinality_of_set();
    assert(used.to_set().contains(base));
    assert(y.subset_of(t)) by {
        assert forall|v: Seq<char>| y.contains(v) implies t.contains(v) by {
            let j = choose|j: int| x.contains(j) && f(j) == v;
            assert(used.contains(with_suffix(base, j as nat)));
            suffix_injective(base, j as nat, j as nat);
        }
    }
    vstd::set_lib::lemma_len_subset(y, t);
}

/// The number [`first_unused`] finds is at least 1 and its suffix is free.
proof fn first_unused_free(base: Seq<char>, used: Seq<Seq<char>>, k: nat)
    requires
        used.contains(base),
        1 <= k <= used.len(),
        forall|j: nat| 1 <= j < k ==> used.contains(#[trigger] with_suffix(base, j)),
    ensures
        first_unused(base, used, k) >= 1,
        !used.contains(with_suffix(base, first_unused(base, used, k))),
    decreases used.len() - k,
{
    if k >= used.len() {
        if used.contains(with_suffix(base, k)) {
            assert forall|j: nat| 1 <= j <= used.len() implies used.contains(
                #[trigger] with_suffix(base, j),
            ) by {
                if j == k {
                } else {
                    assert(j < k);
                }
            }
            some_suffix_free(base, used);
            let j = choose|j: nat| 1 <= j <= used.len() && !used.contains(#[trigger] with_suffix(base, j));
            assert(j < k);
        }
    } else if used.contains(with_suffix(base, k)) {
        assert forall|j: nat| 1 <= j < k + 1 implies used.contains(#[trigger] with_suffix(base, j)) by {
            if j < k {
            }
        }
        first_unused_free(base, used, k + 1);
    }
}

/// The repaired ids of the first `i` items are all different, and each is the
/// item's own id or an id that no input item has.
proof fn repaired_ids_facts(layout: Seq<LayoutItem>, i: nat)
    requires
        i <= layout.len(),
    ensures
        repaired_ids(layout, i).len() == i,
        repaired_ids(layout, i).no_duplicates(),
        forall|k: int|
            0 <= k < i ==> (#[trigger] repaired_ids(layout, i)[k]) == layout[k].id@ || !input_ids(
                layout,
            ).contains(repaired_ids(layout, i)[k]),
    decreases i,
{
    if i > 0 {
        let p = (i - 1) as nat;
        repaired_ids_facts(layout, p);
        let done = repaired_ids(layout, p);
        let id = layout[p as int].id@;
        let now = repaired_ids(layout, i);
        let r = now[p as int];
        assert(now == done.push(r));
        if done.contains(id) {
            let used = input_ids(layout) + done;
            assert(used[p as int] == id);
            assert(used.contains(id));
            first_unused_free(id, used, 1);
            let w = with_suffix(id, first_unused(id, used, 1));
            assert(r == w);
            assert(!done.contains(r)) by {
                if done.contains(r) {
                    let q = choose|q: int| 0 <= q < done.len() && done[q] == r;
                    assert(used[input_ids(layout).len() + q] == r);
                }
            }
            assert(!input_ids(layout).contains(r)) by {
                if input_ids(layout).contains(r) {
                    let q = choose|q: int| 0 <= q < input_ids(layout).len() && input_ids(layout)[q] == r;
                    assert(used[q] == r);
                }
            }
        }
        assert forall|a: int, b: int| 0 <= a < now.len() && 0 <= b < now.len() && a != b implies now[a]
            != now[b] by {
            if a < p && b < p {
                assert(now[a] == done[a] && now[b] == done[b]);
            } else if a == p {
                assert(now[b] == done[b]);
                assert(done.contains(now[b]));
            } else {
                assert(now[a] == done[a]);
                assert(done.contains(now[a]));
            }
        }
        assert forall|k: int| 0 <= k < i implies (#[trigger] now[k]) == layout[k].id@ || !input_ids(
            layout,
        ).contains(now[k]) by {
            if k < p {
                assert(now[k] == done[k]);
            }
        }
    }
}

/// Giving ids to more items does not change the ids already given.
proof fn repaired_ids_prefix(layout: Seq<LayoutItem>, k: int, j: nat)
    requires
        0 <= k < j <= layout.len(),
    ensures
        repaired_ids(layout, j)[k] == repaired_ids(layout, (k + 1) as nat)[k],
    decreases j,
{
    if j > k + 1 {
        repaired_ids_facts(layout, (j - 1) as nat);
        repaired_ids_prefix(layout, k, (j - 1) as nat);
    }
}

/// Repair gives every item a different id.
pub proof fn repaired_ids_are_distinct(layout: Seq<LayoutItem>)
    ensures
        forall|i: int, j: int|
            0 <= i < layout.len() && 0 <= j < layout.len() && i != j ==> repaired_id(layout, i)
                != repaired_id(layout, j),
{
    repaired_ids_facts(layout, layout.len());
}

/// Repair keeps the id of an item whose id no earlier item has; an item it
/// renames gets its id followed by `-` and a number from 1 on, an id that no
/// input item has.
pub proof fn repair_keeps_first_ids(layout: Seq<LayoutItem>, i: int)
    requires
        0 <= i < layout.len(),
    ensures
        (forall|j: int| 0 <= j < i ==> layout[j].id@ != layout[i].id@) ==> repaired_id(layout, i)
            == layout[i].id@,
        repaired_id(layout, i) == layout[i].id@ || ({
            &&& exists|k: nat| k >= 1 && repaired_id(layout, i) == with_suffix(layout[i].id@, k)
            &&& !input_ids(layout).contains(repaired_id(layout, i))
        }),
{
    repaired_ids_facts(layout, layout.len());
    repaired_ids_facts(layout, i as nat);
    repaired_ids_prefix(layout, i, layout.len());
    let done = repaired_ids(layout, i as nat);
    let id = layout[i].id@;
    let r = repaired_ids(layout, (i + 1) as nat)[i];
    assert(repaired_ids(layout, (i + 1) as nat) == done.push(r));
    if forall|j: int| 0 <= j < i ==> layout[j].id@ != layout[i].id@ {
        assert(!done.contains(id)) by {
            if done.contains(id) {
                let q = choose|q: int| 0 <= q < done.len() && done[q] == id;
                assert(layout[q].id@ != id);
                assert(input_ids(layout)[i] == id);
                assert(input_ids(layout).contains(id));
            }
        }
    }
    if done.contains(id) {
        let used = input_ids(layout) + done;
        assert(used[i] == id);
        first_unused_free(id, used, 1);
        let k = first_unused(id, used, 1);
        assert(r == with_suffix(id, k));
        assert(!input_ids(layout).contains(r)) by {
            if input_ids(layout).contains(r) {
                let q = choose|q: int| 0 <= q < input_ids(layout).len() && input_ids(layout)[q] == r;
                assert(used[q] == r);
            }
        }
    }
}

/// The bounds of `item` are consistent: each minimum is at most its maximum,
/// and each maximum is at least 1.
pub open spec fn bounds_consistent(item: LayoutItem) -> bool {
    &&& (item.max_w matches Some(m) ==> m >= 1)
    &&& (item.max_h matches Some(m) ==> m >= 1)
    &&& (item.min_w matches Some(a) ==> (item.max_w matches Some(b) ==> a <= b))
    &&& (item.min_h matches Some(a) ==> (item.max_h matches Some(b) ==> a <= b))
}

/// Repaired geometry is already repaired: on at least one column, with
/// consistent bounds, repairing it again changes nothing.
proof fn repaired_geometry_stays(item: LayoutItem, cols: int)
    requires
        1 <= cols <= i32::MAX,
        repair_fits(item, cols),
        bounds_consistent(item),
    ensures
        repair_fits(repaired_geometry(item, cols), cols),
        repaired_geometry(repaired_geometry(item, cols), cols) == repaired_geometry(item, cols),
{
}

/// Repair is idempotent: on at least one column, when every item's bounds are
/// consistent, the layout that repair produces (see [`repair_layout`]) is one
/// that a second repair leaves exactly as it is, ids included.
pub proof fn repair_is_idempotent(layout: Seq<LayoutItem>, repaired: Seq<LayoutItem>, cols: int)
    requires
        1 <= cols <= i32::MAX,
        forall|k: int|
            0 <= k < layout.len() ==> repair_fits(#[trigger] layout[k], cols) && bounds_consistent(
                layout[k],
            ),
        repaired.len() == layout.len(),
        forall|k: int|
            0 <= k < layout.len() ==> #[trigger] repaired[k] == (LayoutItem {
                id: repaired[k].id,
                ..repaired_geometry(layout[k], cols)
            }),
        forall|k: int| 0 <= k < layout.len() ==> (#[trigger] repaired[k]).id@ == repaired_id(layout, k),
    ensures
        forall|k: int| 0 <= k < repaired.len() ==> repair_fits(#[trigger] repaired[k], cols),
        forall|k: int|
            0 <= k < repaired.len() ==> #[trigger] repaired[k] == (LayoutItem {
                id: repaired[k].id,
                ..repaired_geometry(repaired[k], cols)
            }),
        forall|k: int| 0 <= k < repaired.len() ==> repaired_id(repaired, k) == (#[trigger] repaired[k]).id@,
{
    repaired_ids_are_distinct(layout);
    assert forall|k: int| 0 <= k < repaired.len() implies repair_fits(#[trigger] repaired[k], cols)
        && repaired[k] == (LayoutItem { id: repaired[k].id, ..repaired_geometry(repaired[k], cols) }) by {
        repaired_geometry_stays(layout[k], cols);
        assert(repaired_geometry(repaired[k], cols) == (LayoutItem {
            id: repaired[k].id,
            ..repaired_geometry(repaired_geometry(layout[k], cols), cols)
        }));
    }
    assert forall|k: int| 0 <= k < repaired.len() implies repaired_id(repaired, k) == (
    #[trigger] repaired[k]).id@ by {
        assert forall|j: int| 0 <= j < k implies repaired[j].id@ != repaired[k].id@ by {
            assert(repaired[j].id@ == repaired_id(layout, j));
        }
        repair_keeps_first_ids(repaired, k);
    }
}

/// The overlaps of item `i` with items `i + 1 .. k` report every collision
/// among them, and nothing else.
proof fn overlaps_after_reports(layout: Seq<LayoutItem>, i: int, k: int)
    ensures
        forall|j: int|
            i < j < k && collision(layout[i], layout[j]) ==> overlaps_after(layout, i, k).contains(
                LayoutIssue::Overlap { a: layout[i].id, b: layout[j].id },
            ),
        forall|q: int|
            0 <= q < overlaps_after(layout, i, k).len() ==> exists|j: int|
                i < j < k && collision(layout[i], layout[j]) && #[trigger] overlaps_after(
                    layout,
                    i,
                    k,
                )[q] == (LayoutIssue::Overlap { a: layout[i].id, b: layout[j].id }),
    decreases k - i,
{
    if k > i + 1 {
        overlaps_after_reports(layout, i, k - 1);
        let prev = overlaps_after(layout, i, k - 1);
        let now = overlaps_after(layout, i, k);
        let issue = LayoutIssue::Overlap { a: layout[i].id, b: layout[k - 1].id };
        assert forall|j: int| i < j < k && collision(layout[i], layout[j]) implies now.contains(
            LayoutIssue::Overlap { a: layout[i].id, b: layout[j].id },
        ) by {
            if j < k - 1 {
                let target = LayoutIssue::Overlap { a: layout[i].id, b: layout[j].id };
                assert(prev.contains(target));
                let q = choose|q: int| 0 <= q < prev.len() && prev[q] == target;
                assert(now[q] == target);
            } else {
                assert(now[now.len() - 1] == issue);
            }
        }
        assert forall|q: int| 0 <= q < now.len() implies exists|j: int|
            i < j < k && collision(layout[i], layout[j]) && #[trigger] now[q] == (
            LayoutIssue::Overlap { a: layout[i].id, b: layout[j].id }) by {
            if q < prev.len() {
                assert(now[q] == prev[q]);
                let j = choose|j: int|
                    i < j < k - 1 && collision(layout[i], layout[j]) && #[trigger] prev[q] == (
                    LayoutIssue::Overlap { a: layout[i].id, b: layout[j].id });
                assert(i < j < k);
            } else {
                assert(now[q] == issue);
                assert(collision(layout[i], layout[k - 1]));
            }
        }
    }
}

/// The overlaps of items `0 .. m` report every collision of one of them with a
/// later item, and nothing else.
proof fn all_overlaps_reports(layout: Seq<LayoutItem>, m: nat)
    ensures
        forall|i: int, j: int|
            0 <= i < m && i < j < layout.len() && collision(layout[i], layout[j]) ==> all_overlaps(
                layout,
                m,
            ).contains(LayoutIssue::Overlap { a: layout[i].id, b: layout[j].id }),
        forall|q: int|
            0 <= q < all_overlaps(layout, m).len() ==> exists|i: int, j: int|
                0 <= i < m && i < j < layout.len() && collision(layout[i], layout[j])
                    && #[trigger] all_overlaps(layout, m)[q] == (LayoutIssue::Overlap {
                    a: layout[i].id,
                    b: layout[j].id,
                }),
    decreases m,
{
    if m > 0 {
        let p = (m - 1) as nat;
        all_overlaps_reports(layout, p);
        overlaps_after_reports(layout, p as int, layout.len() as int);
        let prev = all_overlaps(layout, p);
        let tail = overlaps_after(layout, p as int, layout.len() as int);
        let now = all_overlaps(layout, m);
        assert(now == prev + tail);
        assert forall|i: int, j: int|
            0 <= i < m && i < j < layout.len() && collision(layout[i], layout[j]) implies now.contains(
            LayoutIssue::Overlap { a: layout[i].id, b: layout[j].id },
        ) by {
            let target = LayoutIssue::Overlap { a: layout[i].id, b: layout[j].id };
            if i < p {
                assert(prev.contains(target));
                let q = choose|q: int| 0 <= q < prev.len() && prev[q] == target;
                assert(now[q] == target);
            } else {
                assert(tail.contains(target));
                let q = choose|q: int| 0 <= q < tail.len() && tail[q] == target;
                assert(now[prev.len() + q] == target);
            }
        }
        assert forall|q: int| 0 <= q < now.len() implies exists|i: int, j: int|
            0 <= i < m && i < j < layout.len() && collision(layout[i], layout[j]) && #[trigger] now[q]
                == (LayoutIssue::Overlap { a: layout[i].id, b: layout[j].id }) by {
            if q < prev.len() {
                assert(now[q] == prev[q]);
                let (i, j) = choose|i: int, j: int|
                    0 <= i < p && i < j < layout.len() && collision(layout[i], layout[j])
                        && #[trigger] prev[q] == (LayoutIssue::Overlap {
                        a: layout[i].id,
                        b: layout[j].id,
                    });
                assert(0 <= i < m);
            } else {
                let r = q - prev.len();
                assert(now[q] == tail[r]);
                let j = choose|j: int|
                    p < j < layout.len() && collision(layout[p as int], layout[j]) && #[trigger] tail[r]
                        == (LayoutIssue::Overlap { a: layout[p as int].id, b: layout[j].id });
                assert(0 <= p < m);
            }
        }
    }
}

/// Validation reports every overlap: for each pair of items `i < j` that
/// collide, the issues hold `Overlap { a: id of i, b: id of j }`. So a layout
/// that validates has no two colliding items.
pub proof fn validation_reports_every_overlap(layout: Seq<LayoutItem>, cols: int)
    ensures
        forall|i: int, j: int|
            0 <= i < j < layout.len() && collision(layout[i], layout[j]) ==> layout_issues(
                layout,
                cols,
            ).contains(LayoutIssue::Overlap { a: layout[i].id, b: layout[j].id }),
        layout_issues(layout, cols).len() == 0 ==> forall|i: int, j: int|
            0 <= i < j < layout.len() ==> !collision(#[trigger] layout[i], #[trigger] layout[j]),
{
    all_overlaps_reports(layout, layout.len());
    let items = items_issues(layout, layout.len(), cols);
    let ov = all_overlaps(layout, layout.len());
    assert forall|i: int, j: int|
        0 <= i < j < layout.len() && collision(layout[i], layout[j]) implies layout_issues(
        layout,
        cols,
    ).contains(LayoutIssue::Overlap { a: layout[i].id, b: layout[j].id }) by {
        let target = LayoutIssue::Overlap { a: layout[i].id, b: layout[j].id };
        assert(ov.contains(target));
        let q = choose|q: int| 0 <= q < ov.len() && ov[q] == target;
        assert(layout_issues(layout, cols)[items.len() + q] == target);
    }
}

/// The item issues of the first `k` items hold no overlap.
proof fn items_issues_hold_no_overlap(layout: Seq<LayoutItem>, k: nat, cols: int)
    ensures
        forall|q: int|
            0 <= q < items_issues(layout, k, cols).len() ==> !(#[trigger] items_issues(
                layout,
                k,
                cols,
            )[q] is Overlap),
    decreases k,
{
    if k > 0 {
        let p = (k - 1) as nat;
        items_issues_hold_no_overlap(layout, p, cols);
        let prev = items_issues(layout, p, cols);
        let now = items_issues(layout, k, cols);
        assert forall|q: int| 0 <= q < now.len() implies !(#[trigger] now[q] is Overlap) by {
            if q < prev.len() {
                assert(now[q] == prev[q]);
            }
        }
    }
}

/// Validation reports an overlap only for two items that collide: every
/// `Overlap { a, b }` issue names the ids of items `i < j` that collide.
pub proof fn validation_reports_only_overlaps(layout: Seq<LayoutItem>, cols: int)
    ensures
        forall|q: int|
            0 <= q < layout_issues(layout, cols).len() && (#[trigger] layout_issues(layout, cols)[q]) is Overlap
                ==> exists|i: int, j: int|
                0 <= i < j < layout.len() && collision(layout[i], layout[j]) && layout_issues(
                    layout,
                    cols,
                )[q] == (LayoutIssue::Overlap { a: layout[i].id, b: layout[j].id }),
{
    all_overlaps_reports(layout, layout.len());
    items_issues_hold_no_overlap(layout, layout.len(), cols);
    let items = items_issues(layout, layout.len(), cols);
    let ov = all_overlaps(layout, layout.len());
    let all = layout_issues(layout, cols);
    assert forall|q: int| 0 <= q < all.len() && (#[trigger] all[q]) is Overlap implies exists|
        i: int,
        j: int,
    |
        0 <= i < j < layout.len() && collision(layout[i], layout[j]) && all[q] == (
        LayoutIssue::Overlap { a: layout[i].id, b: layout[j].id }) by {
        if q < items.len() {
            assert(all[q] == items[q]);
        } else {
            let r = q - items.len();
            assert(all[q] == ov[r]);
            let (i, j) = choose|i: int, j: int|
                0 <= i < layout.len() && i < j < layout.len() && collision(layout[i], layout[j])
                    && #[trigger] ov[r] == (LayoutIssue::Overlap { a: layout[i].id, b: layout[j].id });
        }
    }
}

/// Adding an issue keeps the issues already there.
proof fn add_when_keeps(s: Seq<LayoutIssue>, cond: bool, issue: LayoutIssue, x: LayoutIssue)
    ensures
        s.contains(x) ==> add_when(s, cond, issue).contains(x),
        cond ==> add_when(s, cond, issue).contains(issue),
{
    if cond && s.contains(x) {
        let q = choose|q: int| 0 <= q < s.len() && s[q] == x;
        assert(add_when(s, cond, issue)[q] == x);
    }
    if cond {
        assert(add_when(s, cond, issue)[s.len() as int] == issue);
    }
}

/// The issues of one item include each defect it has, on top of `s`.
proof fn add_item_issues_reports(s: Seq<LayoutIssue>, layout: Seq<LayoutItem>, i: int, cols: int, x: LayoutIssue)
    requires
        0 <= i < layout.len(),
    ensures
        ({
            let it = layout[i];
            let out = add_item_issues(s, layout, i, cols);
            &&& s.contains(x) ==> out.contains(x)
            &&& seen_before(layout, i) ==> out.contains(LayoutIssue::DuplicateId { id: it.id })
            &&& (it.w < 1 || it.h < 1) ==> out.contains(
                LayoutIssue::NonPositiveSize { id: it.id, w: it.w, h: it.h },
            )
            &&& (it.x < 0 || it.x + it.w > cols) ==> out.contains(
                LayoutIssue::OutOfHorizontalBounds { id: it.id, x: it.x, w: it.w, cols: cols as i32 },
            )
            &&& ((it.min_w matches Some(m) && it.w < m) || (it.max_w matches Some(m) && it.w > m))
                ==> out.contains(
                LayoutIssue::MinMaxWidth { id: it.id, w: it.w, min_w: it.min_w, max_w: it.max_w },
            )
            &&& ((it.min_h matches Some(m) && it.h < m) || (it.max_h matches Some(m) && it.h > m))
                ==> out.contains(
                LayoutIssue::MinMaxHeight { id: it.id, h: it.h, min_h: it.min_h, max_h: it.max_h },
            )
        }),
{
    let it = layout[i];
    let d = LayoutIssue::DuplicateId { id: it.id };
    let np = LayoutIssue::NonPositiveSize { id: it.id, w: it.w, h: it.h };
    let ob = LayoutIssue::OutOfHorizontalBounds { id: it.id, x: it.x, w: it.w, cols: cols as i32 };
    let mw = LayoutIssue::MinMaxWidth { id: it.id, w: it.w, min_w: it.min_w, max_w: it.max_w };
    let mh = LayoutIssue::MinMaxHeight { id: it.id, h: it.h, min_h: it.min_h, max_h: it.max_h };
    let c1 = seen_before(layout, i);
    let c2 = it.w < 1 || it.h < 1;
    let c3 = it.x < 0 || it.x + it.w > cols;
    let c4 = it.min_w matches Some(m) && it.w < m;
    let c5 = it.max_w matches Some(m) && it.w > m;
    let c6 = it.min_h matches Some(m) && it.h < m;
    let c7 = it.max_h matches Some(m) && it.h > m;
    let s1 = add_when(s, c1, d);
    let s2 = add_when(s1, c2, np);
    let s3 = add_when(s2, c3, ob);
    let s4 = add_when(s3, c4, mw);
    let s5 = add_when(s4, c5, mw);
    let s6 = add_when(s5, c6, mh);
    let s7 = add_when(s6, c7, mh);
    assert(s7 == add_item_issues(s, layout, i, cols));
    let targets = seq![x, d, np, ob, mw, mh];
    assert forall|t: int| 0 <= t < 6 implies {
        let y = #[trigger] targets[t];
        &&& s.contains(y) ==> s1.contains(y)
        &&& s1.contains(y) ==> s2.contains(y)
        &&& s2.contains(y) ==> s3.contains(y)
        &&& s3.contains(y) ==> s4.contains(y)
        &&& s4.contains(y) ==> s5.contains(y)
        &&& s5.contains(y) ==> s6.contains(y)
        &&& s6.contains(y) ==> s7.contains(y)
    } by {
        let y = targets[t];
        add_when_keeps(s, c1, d, y);
        add_when_keeps(s1, c2, np, y);
        add_when_keeps(s2, c3, ob, y);
        add_when_keeps(s3, c4, mw, y);
        add_when_keeps(s4, c5, mw, y);
        add_when_keeps(s5, c6, mh, y);
        add_when_keeps(s6, c7, mh, y);
    }
    assert(targets[0] == x && targets[1] == d && targets[2] == np && targets[3] == ob
        && targets[4] == mw && targets[5] == mh);
    add_when_keeps(s, c1, d, x);
    add_when_keeps(s1, c2, np, x);
    add_when_keeps(s2, c3, ob, x);
    add_when_keeps(s3, c4, mw, x);
    add_when_keeps(s4, c5, mw, x);
    add_when_keeps(s5, c6, mh, x);
    add_when_keeps(s6, c7, mh, x);
}

/// The item issues of the first `k` items report each defect of each of them.
proof fn items_issues_report(layout: Seq<LayoutItem>, k: nat, cols: int, i: int)
    requires
        0 <= i < k <= layout.len(),
    ensures
        ({
            let it = layout[i];
            let out = items_issues(layout, k, cols);
            &&& seen_before(layout, i) ==> out.contains(LayoutIssue::DuplicateId { id: it.id })
            &&& (it.w < 1 || it.h < 1) ==> out.contains(
                LayoutIssue::NonPositiveSize { id: it.id, w: it.w, h: it.h },
            )
            &&& (it.x < 0 || it.x + it.w > cols) ==> out.contains(
                LayoutIssue::OutOfHorizontalBounds { id: it.id, x: it.x, w: it.w, cols: cols as i32 },
            )
            &&& ((it.min_w matches Some(m) && it.w < m) || (it.max_w matches Some(m) && it.w > m))
                ==> out.contains(
                LayoutIssue::MinMaxWidth { id: it.id, w: it.w, min_w: it.min_w, max_w: it.max_w },
            )
            &&& ((it.min_h matches Some(m) && it.h < m) || (it.max_h matches Some(m) && it.h > m))
                ==> out.contains(
                LayoutIssue::MinMaxHeight { id: it.id, h: it.h, min_h: it.min_h, max_h: it.max_h },
            )
        }),
    decreases k,
{
    let it = layout[i];
    let p = (k - 1) as nat;
    let prev = items_issues(layout, p, cols);
    assert(items_issues(layout, k, cols) == add_item_issues(prev, layout, p as int, cols));
    if i == p {
        add_item_issues_reports(prev, layout, i, cols, LayoutIssue::DuplicateId { id: it.id });
    } else {
        items_issues_report(layout, p, cols, i);
        add_item_issues_reports(prev, layout, p as int, cols, LayoutIssue::DuplicateId { id: it.id });
        add_item_issues_reports(
            prev,
            layout,
            p as int,
            cols,
            LayoutIssue::NonPositiveSize { id: it.id, w: it.w, h: it.h },
        );
        add_item_issues_reports(
            prev,
            layout,
            p as int,
            cols,
            LayoutIssue::OutOfHorizontalBounds { id: it.id, x: it.x, w: it.w, cols: cols as i32 },
        );
        add_item_issues_reports(
            prev,
            layout,
            p as int,
            cols,
            LayoutIssue::MinMaxWidth { id: it.id, w: it.w, min_w: it.min_w, max_w: it.max_w },
        );
        add_item_issues_reports(
            prev,
            layout,
            p as int,
            cols,
            LayoutIssue::MinMaxHeight { id: it.id, h: it.h, min_h: it.min_h, max_h: it.max_h },
        );
    }
}

/// Validation reports each defect of each item: an id used by an earlier
/// item, a width or height under 1, a position outside the columns, and a
/// width or height outside its bounds. So a layout that validates has none.
pub proof fn validation_reports_every_item_defect(layout: Seq<LayoutItem>, cols: int, i: int)
    requires
        0 <= i < layout.len(),
    ensures
        ({
            let it = layout[i];
            let out = layout_issues(layout, cols);
            &&& (exists|j: int| 0 <= j < i && layout[j].id@ == it.id@) ==> out.contains(
                LayoutIssue::DuplicateId { id: it.id },
            )
            &&& (it.w < 1 || it.h < 1) ==> out.contains(
                LayoutIssue::NonPositiveSize { id: it.id, w: it.w, h: it.h },
            )
            &&& (it.x < 0 || it.x + it.w > cols) ==> out.contains(
                LayoutIssue::OutOfHorizontalBounds { id: it.id, x: it.x, w: it.w, cols: cols as i32 },
            )
            &&& ((it.min_w matches Some(m) && it.w < m) || (it.max_w matches Some(m) && it.w > m))
                ==> out.contains(
                LayoutIssue::MinMaxWidth { id: it.id, w: it.w, min_w: it.min_w, max_w: it.max_w },
            )
            &&& ((it.min_h matches Some(m) && it.h < m) || (it.max_h matches Some(m) && it.h > m))
                ==> out.contains(
                LayoutIssue::MinMaxHeight { id: it.id, h: it.h, min_h: it.min_h, max_h: it.max_h },
            )
        }),
{
    let it = layout[i];
    let items = items_issues(layout, layout.len(), cols);
    let out = layout_issues(layout, cols);
    items_issues_report(layout, layout.len(), cols, i);
    assert forall|y: LayoutIssue| items.contains(y) implies out.contains(y) by {
        let q = choose|q: int| 0 <= q < items.len() && items[q] == y;
        assert(out[q] == y);
    }
    if exists|j: int| 0 <= j < i && layout[j].id@ == it.id@ {
        assert(seen_before(layout, i));
    }
}

/// Repair changes a height only to raise it to 1 and into its bounds: the
/// repaired height does not depend on the column count, and a height of at
/// least 1 within its bounds is kept.
pub proof fn repair_keeps_fitting_heights(item: LayoutItem, c1: int, c2: int)
    ensures
        repaired_geometry(item, c1).h == repaired_geometry(item, c2).h,
        item.h >= 1 && (item.min_h matches Some(m) ==> m <= item.h) && (item.max_h matches Some(m)
            ==> item.h <= m) ==> repaired_geometry(item, c1).h == item.h,
{
}

} // verus!
