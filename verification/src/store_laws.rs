//! What every operation on the history keeps: the cap, the pins, the
//! uniqueness of identifiers, and what a later lookup gives back.
use vstd::prelude::*;

use crate::store::{
    bump_moves, bumped, ids_unique, image_stored_at, keep_within, lemma_counts, lemma_position_of,
    lemma_position_of_is, lemma_without_id, lookup, pinned_count, pinned_only, position_of,
    references_image, refreshed, toggled, trimmed, unpinned_budget, unpinned_count, unpinned_only,
    unreferenced, upserted, without_id, ClipItem, MAX_ITEMS,
};

verus! {

// ---------------------------------------------------------------------------
// Membership and counting.
// ---------------------------------------------------------------------------

proof fn lemma_keep_within_members(s: Seq<ClipItem>, b: int)
    ensures
        forall|k: int| 0 <= k < keep_within(s, b).len() ==> s.contains(#[trigger] keep_within(s, b)[k]),
        forall|k: int| 0 <= k < s.len() && s[k].pinned ==> keep_within(s, b).contains(#[trigger] s[k]),
    decreases s.len(),
{
    if s.len() > 0 {
        let rest = s.drop_last();
        lemma_keep_within_members(rest, b);
        let w = keep_within(rest, b);
        assert forall|k: int| 0 <= k < keep_within(s, b).len() implies s.contains(
            #[trigger] keep_within(s, b)[k],
        ) by {
            if k < w.len() {
                let x = w[k];
                assert(rest.contains(x));
                let m = choose|m: int| 0 <= m < rest.len() && rest[m] == x;
                assert(s[m] == x);
            } else {
                assert(s[s.len() - 1] == s.last());
            }
        }
        assert forall|k: int| 0 <= k < s.len() && s[k].pinned implies keep_within(s, b).contains(
            #[trigger] s[k],
        ) by {
            if k < s.len() - 1 {
                assert(rest[k] == s[k]);
                assert(w.contains(rest[k]));
                let m = choose|m: int| 0 <= m < w.len() && w[m] == rest[k];
                assert(keep_within(s, b)[m] == s[k]);
            } else {
                assert(keep_within(s, b)[w.len() as int] == s[k]);
            }
        }
    }
}

proof fn lemma_keep_within_split(s: Seq<ClipItem>, b: int)
    requires
        b >= 0,
    ensures
        pinned_only(keep_within(s, b)) == pinned_only(s),
        unpinned_only(keep_within(s, b)) == unpinned_only(s).take(
            if unpinned_count(s) <= b {
                unpinned_count(s) as int
            } else {
                b
            },
        ),
    decreases s.len(),
{
    lemma_counts(s);
    if s.len() > 0 {
        let rest = s.drop_last();
        lemma_keep_within_split(rest, b);
        lemma_counts(rest);
        let u = unpinned_only(rest);
        let k = keep_within(rest, b);
        assert(k.push(s.last()).drop_last() =~= k);
        if s.last().pinned {
        } else if unpinned_count(s) <= b {
            assert(u.take(unpinned_count(rest) as int) =~= u);
            assert(unpinned_only(s).take(unpinned_count(s) as int) =~= unpinned_only(s));
        } else {
            assert(unpinned_only(s) == u.push(s.last()));
            assert(u.push(s.last()).take(b) =~= u.take(b));
        }
    } else {
        assert(unpinned_only(s).take(0) =~= unpinned_only(s));
    }
}

proof fn lemma_pinned_only_members(s: Seq<ClipItem>)
    ensures
        forall|k: int| 0 <= k < pinned_only(s).len() ==> s.contains(#[trigger] pinned_only(s)[k]),
        forall|k: int| 0 <= k < pinned_only(s).len() ==> (#[trigger] pinned_only(s)[k]).pinned,
        forall|k: int| 0 <= k < s.len() && s[k].pinned ==> pinned_only(s).contains(#[trigger] s[k]),
    decreases s.len(),
{
    if s.len() > 0 {
        let rest = s.drop_last();
        lemma_pinned_only_members(rest);
        let w = pinned_only(rest);
        assert forall|k: int| 0 <= k < pinned_only(s).len() implies s.contains(
            #[trigger] pinned_only(s)[k],
        ) by {
            if k < w.len() {
                let x = w[k];
                assert(rest.contains(x));
                let m = choose|m: int| 0 <= m < rest.len() && rest[m] == x;
                assert(s[m] == x);
            } else {
                assert(s[s.len() - 1] == s.last());
            }
        }
        assert forall|k: int| 0 <= k < s.len() && s[k].pinned implies pinned_only(s).contains(
            #[trigger] s[k],
        ) by {
            if k < s.len() - 1 {
                assert(rest[k] == s[k]);
                assert(w.contains(rest[k]));
                let m = choose|m: int| 0 <= m < w.len() && w[m] == rest[k];
                assert(pinned_only(s)[m] == s[k]);
            } else {
                assert(pinned_only(s)[w.len() as int] == s[k]);
            }
        }
    }
}

proof fn lemma_pinned_count_without(s: Seq<ClipItem>, id: Seq<char>)
    ensures
        pinned_count(without_id(s, id)) <= pinned_count(s),
    decreases s.len(),
{
    if s.len() > 0 {
        let w = without_id(s.drop_last(), id);
        assert(w.push(s.last()).drop_last() =~= w);
        lemma_pinned_count_without(s.drop_last(), id);
    }
}

/// A list whose elements all come from a list with unique identifiers has
/// unique identifiers too, when it repeats no element's identifier.
proof fn lemma_unique_push(w: Seq<ClipItem>, s: Seq<ClipItem>, x: ClipItem)
    requires
        ids_unique(w),
        forall|k: int| 0 <= k < w.len() ==> #[trigger] w[k].id@ != x.id@,
    ensures
        ids_unique(w.push(x)),
{
    let v = w.push(x);
    assert forall|i: int, j: int|
        0 <= i < v.len() && 0 <= j < v.len() && i != j implies v[i].id@ != v[j].id@ by {
        if i < w.len() && j < w.len() {
            assert(v[i] == w[i] && v[j] == w[j]);
        } else if i < w.len() {
            assert(v[i] == w[i]);
        } else {
            assert(v[j] == w[j]);
        }
    }
}

proof fn lemma_keep_within_unique(s: Seq<ClipItem>, b: int)
    requires
        ids_unique(s),
    ensures
        ids_unique(keep_within(s, b)),
    decreases s.len(),
{
    if s.len() > 0 {
        let rest = s.drop_last();
        assert(ids_unique(rest)) by {
            assert forall|i: int, j: int|
                0 <= i < rest.len() && 0 <= j < rest.len() && i != j implies rest[i].id@
                != rest[j].id@ by {
                assert(rest[i] == s[i] && rest[j] == s[j]);
            }
        }
        lemma_keep_within_unique(rest, b);
        lemma_keep_within_members(rest, b);
        let w = keep_within(rest, b);
        if s.last().pinned || unpinned_count(s) <= b {
            assert forall|k: int| 0 <= k < w.len() implies #[trigger] w[k].id@ != s.last().id@ by {
                assert(rest.contains(w[k]));
                let m = choose|m: int| 0 <= m < rest.len() && rest[m] == w[k];
                assert(s[m] == w[k]);
                assert(s[s.len() - 1] == s.last());
            }
            lemma_unique_push(w, rest, s.last());
        }
    }
}

proof fn lemma_without_unique(s: Seq<ClipItem>, id: Seq<char>)
    requires
        ids_unique(s),
    ensures
        ids_unique(without_id(s, id)),
    decreases s.len(),
{
    if s.len() > 0 {
        let rest = s.drop_last();
        assert(ids_unique(rest)) by {
            assert forall|i: int, j: int|
                0 <= i < rest.len() && 0 <= j < rest.len() && i != j implies rest[i].id@
                != rest[j].id@ by {
                assert(rest[i] == s[i] && rest[j] == s[j]);
            }
        }
        lemma_without_unique(rest, id);
        lemma_without_id(rest, id);
        let w = without_id(rest, id);
        if s.last().id@ != id {
            assert forall|k: int| 0 <= k < w.len() implies #[trigger] w[k].id@ != s.last().id@ by {
                assert(rest.contains(w[k]));
                let m = choose|m: int| 0 <= m < rest.len() && rest[m] == w[k];
                assert(s[m] == w[k]);
                assert(s[s.len() - 1] == s.last());
            }
            lemma_unique_push(w, rest, s.last());
        }
    }
}

proof fn lemma_keep_within_first(s: Seq<ClipItem>, b: int)
    requires
        s.len() > 0,
        s[0].pinned || b >= 1,
    ensures
        keep_within(s, b).len() > 0,
        keep_within(s, b)[0] == s[0],
    decreases s.len(),
{
    let rest = s.drop_last();
    if s.len() == 1 {
        assert(rest.len() == 0);
        assert(unpinned_count(rest) == 0);
        assert(keep_within(rest, b) =~= Seq::<ClipItem>::empty());
        assert(s.last() == s[0]);
        assert(keep_within(s, b) == keep_within(rest, b).push(s[0]));
    } else {
        assert(rest[0] == s[0]);
        lemma_keep_within_first(rest, b);
        let k = keep_within(rest, b);
        assert(k.push(s.last())[0] == k[0]);
    }
}

// ---------------------------------------------------------------------------
// The laws.
// ---------------------------------------------------------------------------

/// The size cap: cutting the list to the cap keeps every pinned item, keeps
/// the newest unpinned items that fit beside them, and leaves at most
/// `MAX_ITEMS` items unless the pinned ones alone are more.
pub proof fn law_cap_keeps_pins_and_newest(items: Seq<ClipItem>)
    ensures
        pinned_only(trimmed(items)) == pinned_only(items),
        unpinned_only(trimmed(items)) == unpinned_only(items).take(
            if unpinned_count(items) <= unpinned_budget(items) {
                unpinned_count(items) as int
            } else {
                unpinned_budget(items)
            },
        ),
        trimmed(items).len() <= if pinned_count(items) > MAX_ITEMS {
            pinned_count(items) as int
        } else {
            MAX_ITEMS as int
        },
{
    let b = unpinned_budget(items);
    lemma_keep_within_split(items, b);
    lemma_counts(items);
    lemma_counts(trimmed(items));
}

/// Recording an item never drops a pinned item: each pinned item of the list
/// before, other than one the record replaces, is still in the list after.
pub proof fn law_record_keeps_pins(items: Seq<ClipItem>, item: ClipItem, now: u64, k: int)
    requires
        0 <= k < items.len(),
        items[k].pinned,
        items[k].id@ != item.id@,
    ensures
        upserted(items, item, now).contains(items[k]),
{
    let p = position_of(items, item.id@);
    lemma_position_of(items, item.id@);
    let front = if p >= 0 {
        refreshed(item, items[p], now)
    } else {
        item
    };
    let w = without_id(items, item.id@);
    lemma_without_id(items, item.id@);
    let list = seq![front] + w;
    assert(w.contains(items[k]));
    let m = choose|m: int| 0 <= m < w.len() && w[m] == items[k];
    assert(list[m + 1] == items[k]);
    lemma_keep_within_members(list, unpinned_budget(list));
}

/// Recording an item keeps identifiers unique: a second record of the same
/// content replaces the first instead of adding a duplicate.
pub proof fn law_record_keeps_ids_unique(items: Seq<ClipItem>, item: ClipItem, now: u64)
    requires
        ids_unique(items),
    ensures
        ids_unique(upserted(items, item, now)),
{
    let id = item.id@;
    let p = position_of(items, id);
    lemma_position_of(items, id);
    let front = if p >= 0 {
        refreshed(item, items[p], now)
    } else {
        item
    };
    let w = without_id(items, id);
    lemma_without_id(items, id);
    lemma_without_unique(items, id);
    let list = seq![front] + w;
    assert(ids_unique(list)) by {
        assert forall|i: int, j: int|
            0 <= i < list.len() && 0 <= j < list.len() && i != j implies list[i].id@
            != list[j].id@ by {
            if i > 0 && j > 0 {
                assert(list[i] == w[i - 1] && list[j] == w[j - 1]);
            } else if i == 0 {
                assert(list[j] == w[j - 1]);
            } else {
                assert(list[i] == w[i - 1]);
            }
        }
    }
    lemma_keep_within_unique(list, unpinned_budget(list));
}

/// What a lookup gives back after a record: the recorded item, carrying the
/// pin of the item it replaced, and at the front of the list. This holds
/// unless `MAX_ITEMS` pinned items leave no room for an unpinned one.
pub proof fn law_lookup_after_record(items: Seq<ClipItem>, item: ClipItem, now: u64)
    requires
        pinned_count(items) < MAX_ITEMS,
    ensures
        upserted(items, item, now).len() > 0,
        upserted(items, item, now)[0] == (if position_of(items, item.id@) >= 0 {
            refreshed(item, items[position_of(items, item.id@)], now)
        } else {
            item
        }),
        lookup(upserted(items, item, now), item.id@) == Some(
            upserted(items, item, now)[0],
        ),
{
    let id = item.id@;
    let p = position_of(items, id);
    lemma_position_of(items, id);
    let front = if p >= 0 {
        refreshed(item, items[p], now)
    } else {
        item
    };
    let w = without_id(items, id);
    let list = seq![front] + w;
    lemma_pinned_count_without(items, id);
    lemma_pinned_count_prepend(front, w);
    lemma_keep_within_first(list, unpinned_budget(list));
    let r = keep_within(list, unpinned_budget(list));
    lemma_position_of_is(r, id, 0);
}

proof fn lemma_pinned_count_prepend(x: ClipItem, s: Seq<ClipItem>)
    ensures
        pinned_count(seq![x] + s) == pinned_count(s) + if x.pinned {
            1int
        } else {
            0int
        },
    decreases s.len(),
{
    let xs = seq![x] + s;
    if s.len() == 0 {
        assert(xs.drop_last() =~= Seq::<ClipItem>::empty());
        assert(xs.last() == x);
        assert(pinned_count(xs.drop_last()) == 0);
        assert(pinned_count(s) == 0);
    } else {
        assert(xs.drop_last() =~= seq![x] + s.drop_last());
        assert(xs.last() == s.last());
        lemma_pinned_count_prepend(x, s.drop_last());
        assert(pinned_count(xs) == pinned_count(xs.drop_last()) + if s.last().pinned {
            1nat
        } else {
            0nat
        });
    }
}

proof fn lemma_position_same_ids(s: Seq<ClipItem>, t: Seq<ClipItem>, id: Seq<char>)
    requires
        s.len() == t.len(),
        forall|i: int| 0 <= i < s.len() ==> s[i].id@ == t[i].id@,
    ensures
        position_of(s, id) == position_of(t, id),
{
    lemma_position_of(s, id);
    lemma_position_of_is(t, id, position_of(s, id));
}

/// Pinning is undone by a second toggle: toggling the same identifier twice
/// gives back the list it started from.
pub proof fn law_toggle_twice_restores(items: Seq<ClipItem>, id: Seq<char>)
    ensures
        toggled(toggled(items, id), id) == items,
{
    lemma_position_of(items, id);
    let once = toggled(items, id);
    lemma_position_same_ids(items, once, id);
    assert(toggled(once, id) =~= items);
}

/// Toggling a pin changes only that pin: a lookup afterwards finds the same
/// item with its pin flipped.
pub proof fn law_lookup_after_toggle(items: Seq<ClipItem>, id: Seq<char>)
    ensures
        lookup(toggled(items, id), id) == match lookup(items, id) {
            Some(item) => Some(ClipItem { pinned: !item.pinned, ..item }),
            None => None,
        },
{
    lemma_position_of(items, id);
    lemma_position_same_ids(items, toggled(items, id), id);
}

/// Clearing drops exactly the unpinned items: what is left is every pinned
/// item, in order, and nothing else.
pub proof fn law_clear_keeps_exactly_pins(items: Seq<ClipItem>)
    ensures
        forall|k: int|
            0 <= k < pinned_only(items).len() ==> (#[trigger] pinned_only(items)[k]).pinned
                && items.contains(pinned_only(items)[k]),
        forall|k: int|
            0 <= k < items.len() && items[k].pinned ==> pinned_only(items).contains(
                #[trigger] items[k],
            ),
{
    lemma_pinned_only_members(items);
}

/// Every operation on the list keeps identifiers unique.
pub proof fn law_operations_keep_ids_unique(
    items: Seq<ClipItem>,
    id: Seq<char>,
    now: u64,
)
    requires
        ids_unique(items),
    ensures
        ids_unique(bumped(items, id, now)),
        ids_unique(toggled(items, id)),
        ids_unique(pinned_only(items)),
        ids_unique(trimmed(items)),
{
    lemma_position_of(items, id);
    lemma_keep_within_unique(items, unpinned_budget(items));
    let t = toggled(items, id);
    assert forall|i: int, j: int|
        0 <= i < t.len() && 0 <= j < t.len() && i != j implies t[i].id@ != t[j].id@ by {
        assert(t[i].id@ == items[i].id@ && t[j].id@ == items[j].id@);
    }
    lemma_pinned_only_unique(items);
    if bump_moves(items, id) {
        let p = position_of(items, id);
        let r = items.remove(p);
        let b = bumped(items, id, now);
        assert forall|i: int, j: int|
            0 <= i < b.len() && 0 <= j < b.len() && i != j implies b[i].id@ != b[j].id@ by {
            let oi = if i == 0 {
                p
            } else if i - 1 < p {
                i - 1
            } else {
                i
            };
            let oj = if j == 0 {
                p
            } else if j - 1 < p {
                j - 1
            } else {
                j
            };
            assert(b[i].id@ == items[oi].id@);
            assert(b[j].id@ == items[oj].id@);
        }
    }
}

proof fn lemma_pinned_only_unique(s: Seq<ClipItem>)
    requires
        ids_unique(s),
    ensures
        ids_unique(pinned_only(s)),
    decreases s.len(),
{
    if s.len() > 0 {
        let rest = s.drop_last();
        assert(ids_unique(rest)) by {
            assert forall|i: int, j: int|
                0 <= i < rest.len() && 0 <= j < rest.len() && i != j implies rest[i].id@
                != rest[j].id@ by {
                assert(rest[i] == s[i] && rest[j] == s[j]);
            }
        }
        lemma_pinned_only_unique(rest);
        lemma_pinned_only_members(rest);
        let w = pinned_only(rest);
        if s.last().pinned {
            assert forall|k: int| 0 <= k < w.len() implies #[trigger] w[k].id@ != s.last().id@ by {
                assert(rest.contains(w[k]));
                let m = choose|m: int| 0 <= m < rest.len() && rest[m] == w[k];
                assert(s[m] == w[k]);
                assert(s[s.len() - 1] == s.last());
            }
            lemma_unique_push(w, rest, s.last());
        }
    }
}

/// Bumping moves one item to the front and keeps the rest in order: the list
/// afterwards has the same length, the bumped item first with time `now`, and
/// a lookup finds it unchanged but for its time.
pub proof fn law_bump_moves_to_front(items: Seq<ClipItem>, id: Seq<char>, now: u64)
    requires
        position_of(items, id) >= 0,
    ensures
        bumped(items, id, now).len() == items.len(),
        bumped(items, id, now)[0].id@ == id,
        lookup(bumped(items, id, now), id) == Some(
            if bump_moves(items, id) {
                ClipItem { time: now, ..items[position_of(items, id)] }
            } else {
                items[0]
            },
        ),
{
    lemma_position_of(items, id);
    let b = bumped(items, id, now);
    if bump_moves(items, id) {
        lemma_position_of_is(b, id, 0);
    } else {
        assert(items[0].id@ == id);
        lemma_position_of_is(items, id, 0);
    }
}

/// Collecting image files removes exactly what no item refers to: a name is
/// listed for removal if and only if it is among the files found and no item
/// has its image stored under it.
pub proof fn law_collect_only_unreferenced(items: Seq<ClipItem>, names: Seq<String>)
    ensures
        forall|k: int|
            0 <= k < unreferenced(items, names).len() ==> names.contains(
                #[trigger] unreferenced(items, names)[k],
            ) && !references_image(items, "images/"@ + unreferenced(items, names)[k]@),
        forall|k: int|
            0 <= k < names.len() && !references_image(items, "images/"@ + names[k]@)
                ==> unreferenced(items, names).contains(#[trigger] names[k]),
    decreases names.len(),
{
    if names.len() > 0 {
        let rest = names.drop_last();
        law_collect_only_unreferenced(items, rest);
        let w = unreferenced(items, rest);
        assert forall|k: int| 0 <= k < unreferenced(items, names).len() implies names.contains(
            #[trigger] unreferenced(items, names)[k],
        ) && !references_image(items, "images/"@ + unreferenced(items, names)[k]@) by {
            if k < w.len() {
                let x = w[k];
                assert(rest.contains(x));
                let m = choose|m: int| 0 <= m < rest.len() && rest[m] == x;
                assert(names[m] == x);
            } else {
                assert(names[names.len() - 1] == names.last());
            }
        }
        assert forall|k: int|
            0 <= k < names.len() && !references_image(
                items,
                "images/"@ + names[k]@,
            ) implies unreferenced(items, names).contains(#[trigger] names[k]) by {
            if k < names.len() - 1 {
                assert(rest[k] == names[k]);
                assert(w.contains(rest[k]));
                let m = choose|m: int| 0 <= m < w.len() && w[m] == rest[k];
                assert(unreferenced(items, names)[m] == names[k]);
            } else {
                assert(unreferenced(items, names)[w.len() as int] == names[k]);
            }
        }
    }
}

/// Clearing the history releases the images of the items it drops: once only
/// the pinned items are left, a file in the images directory is collected
/// unless a pinned item refers to it.
pub proof fn law_clear_releases_images(items: Seq<ClipItem>, names: Seq<String>, k: int)
    requires
        0 <= k < names.len(),
        forall|i: int|
            0 <= i < items.len() && items[i].pinned ==> !image_stored_at(
                #[trigger] items[i],
                "images/"@ + names[k]@,
            ),
    ensures
        unreferenced(pinned_only(items), names).contains(names[k]),
{
    let path = "images/"@ + names[k]@;
    let kept = pinned_only(items);
    lemma_pinned_only_members(items);
    assert(!references_image(kept, path)) by {
        if references_image(kept, path) {
            let i = choose|i: int| 0 <= i < kept.len() && image_stored_at(#[trigger] kept[i], path);
            assert(items.contains(kept[i]));
            let j = choose|j: int| 0 <= j < items.len() && items[j] == kept[i];
            assert(items[j].pinned);
        }
    }
    law_collect_only_unreferenced(kept, names);
}

proof fn lemma_keep_within_all(s: Seq<ClipItem>, b: int)
    requires
        unpinned_count(s) <= b,
    ensures
        keep_within(s, b) == s,
    decreases s.len(),
{
    if s.len() > 0 {
        lemma_keep_within_all(s.drop_last(), b);
        assert(s.drop_last().push(s.last()) =~= s);
    }
}

/// Capping is idempotent and leaves a list within the cap alone: cutting a
/// list to the cap twice gives what cutting it once gives, and a list of at
/// most `MAX_ITEMS` items is not cut at all.
pub proof fn law_cap_is_idempotent(items: Seq<ClipItem>)
    ensures
        trimmed(trimmed(items)) == trimmed(items),
        items.len() <= MAX_ITEMS ==> trimmed(items) == items,
{
    let b = unpinned_budget(items);
    let t = trimmed(items);
    lemma_counts(items);
    if items.len() <= MAX_ITEMS {
        lemma_keep_within_all(items, b);
    }
    law_cap_keeps_pins_and_newest(items);
    lemma_counts(t);
    assert(unpinned_budget(t) == b);
    lemma_keep_within_all(t, b);
}

/// Some item of `items` has identifier `id`.
pub open spec fn has_id(items: Seq<ClipItem>, id: Seq<char>) -> bool {
    exists|j: int| 0 <= j < items.len() && (#[trigger] items[j]).id@ == id
}

/// Every item pinned in `before` is still in `after`, found by its identifier.
pub open spec fn pins_kept(before: Seq<ClipItem>, after: Seq<ClipItem>) -> bool {
    forall|k: int| 0 <= k < before.len() && (#[trigger] before[k]).pinned ==> has_id(after, before[k].id@)
}

/// The history is sound: within the cap, with no identifier twice.
pub open spec fn within_cap(items: Seq<ClipItem>) -> bool {
    items.len() <= MAX_ITEMS && ids_unique(items)
}

proof fn lemma_without_id_shorter(items: Seq<ClipItem>, id: Seq<char>, k: int)
    requires
        0 <= k < items.len(),
        items[k].id@ == id,
    ensures
        without_id(items, id).len() < items.len(),
    decreases items.len(),
{
    lemma_without_id(items.drop_last(), id);
    if items.last().id@ != id {
        lemma_without_id_shorter(items.drop_last(), id, k);
    }
}

proof fn lemma_contains_has_id(items: Seq<ClipItem>, x: ClipItem)
    requires
        items.contains(x),
    ensures
        has_id(items, x.id@),
{
    let j = choose|j: int| 0 <= j < items.len() && items[j] == x;
    assert(items[j].id@ == x.id@);
}

proof fn lemma_record_sound(items: Seq<ClipItem>, item: ClipItem, now: u64)
    requires
        within_cap(items),
        !item.pinned,
    ensures
        within_cap(upserted(items, item, now)),
        pins_kept(items, upserted(items, item, now)),
{
    let id = item.id@;
    let p = position_of(items, id);
    lemma_position_of(items, id);
    let front = if p >= 0 {
        refreshed(item, items[p], now)
    } else {
        item
    };
    let w = without_id(items, id);
    let list = seq![front] + w;
    lemma_without_id(items, id);
    lemma_counts(list);
    lemma_counts(items);
    lemma_pinned_count_prepend(front, w);
    lemma_pinned_count_without(items, id);
    if p >= 0 {
        lemma_without_id_shorter(items, id, p);
    }
    law_cap_keeps_pins_and_newest(list);
    law_record_keeps_ids_unique(items, item, now);
    lemma_keep_within_members(list, unpinned_budget(list));
    let after = upserted(items, item, now);
    assert forall|k: int| 0 <= k < items.len() && (#[trigger] items[k]).pinned implies has_id(
        after,
        items[k].id@,
    ) by {
        if items[k].id@ != id {
            law_record_keeps_pins(items, item, now, k);
            lemma_contains_has_id(after, items[k]);
        } else {
            assert(p == k);
            assert(list[0] == front);
            assert(front.pinned);
            assert(after.contains(list[0]));
            lemma_contains_has_id(after, front);
        }
    }
}

proof fn lemma_bump_sound(items: Seq<ClipItem>, id: Seq<char>, now: u64)
    requires
        within_cap(items),
    ensures
        within_cap(bumped(items, id, now)),
        pins_kept(items, bumped(items, id, now)),
{
    law_operations_keep_ids_unique(items, id, now);
    let after = bumped(items, id, now);
    lemma_position_of(items, id);
    let p = position_of(items, id);
    assert forall|k: int| 0 <= k < items.len() && (#[trigger] items[k]).pinned implies has_id(
        after,
        items[k].id@,
    ) by {
        if !bump_moves(items, id) {
            assert(after[k] == items[k]);
        } else if k == p {
            assert(after[0].id@ == items[k].id@);
        } else if k < p {
            assert(after[k + 1] == items[k]);
        } else {
            assert(after[k] == items[k]);
        }
    }
}

proof fn lemma_toggle_sound(items: Seq<ClipItem>, id: Seq<char>, now: u64)
    requires
        within_cap(items),
    ensures
        within_cap(toggled(items, id)),
        pins_kept(items, toggled(items, id)),
{
    law_operations_keep_ids_unique(items, id, now);
    lemma_position_of(items, id);
    let after = toggled(items, id);
    assert forall|k: int| 0 <= k < items.len() && (#[trigger] items[k]).pinned implies has_id(
        after,
        items[k].id@,
    ) by {
        assert(after[k].id@ == items[k].id@);
    }
}

proof fn lemma_clear_sound(items: Seq<ClipItem>, id: Seq<char>, now: u64)
    requires
        within_cap(items),
    ensures
        within_cap(pinned_only(items)),
        pins_kept(items, pinned_only(items)),
{
    law_operations_keep_ids_unique(items, id, now);
    lemma_counts(items);
    lemma_pinned_only_members(items);
    assert forall|k: int| 0 <= k < items.len() && (#[trigger] items[k]).pinned implies has_id(
        pinned_only(items),
        items[k].id@,
    ) by {
        lemma_contains_has_id(pinned_only(items), items[k]);
    }
}

/// Every operation that changes the history keeps it sound: recording text or
/// an image (which arrive unpinned), bumping, toggling a pin and clearing each
/// leave at most `MAX_ITEMS` items with no identifier twice, and every item
/// that was pinned is still there. Setting the channel leaves the items as
/// they are.
pub proof fn law_operations_keep_the_history_sound(
    items: Seq<ClipItem>,
    item: ClipItem,
    id: Seq<char>,
    now: u64,
)
    requires
        within_cap(items),
        !item.pinned,
    ensures
        within_cap(upserted(items, item, now)),
        pins_kept(items, upserted(items, item, now)),
        within_cap(bumped(items, id, now)),
        pins_kept(items, bumped(items, id, now)),
        within_cap(toggled(items, id)),
        pins_kept(items, toggled(items, id)),
        within_cap(pinned_only(items)),
        pins_kept(items, pinned_only(items)),
{
    lemma_record_sound(items, item, now);
    lemma_bump_sound(items, id, now);
    lemma_toggle_sound(items, id, now);
    lemma_clear_sound(items, id, now);
}

// ---------------------------------------------------------------------------
// The operations stated by filtering: what stays, and in which order.
// ---------------------------------------------------------------------------

/// The items whose identifier is `id`.
pub open spec fn has_the_id(id: Seq<char>) -> spec_fn(ClipItem) -> bool {
    |x: ClipItem| x.id@ == id
}

/// The items whose identifier is not `id`.
pub open spec fn lacks_the_id(id: Seq<char>) -> spec_fn(ClipItem) -> bool {
    |x: ClipItem| x.id@ != id
}

/// Dropping the items with an identifier keeps every other item, in its
/// order: it is filtering the list by identifier.
pub proof fn law_without_id_is_a_filter(items: Seq<ClipItem>, id: Seq<char>)
    ensures
        without_id(items, id) == items.filter(lacks_the_id(id)),
    decreases items.len(),
{
    reveal(Seq::filter);
    if items.len() > 0 {
        law_without_id_is_a_filter(items.drop_last(), id);
    }
}

/// Clearing keeps exactly the pinned items, in their order: it is filtering
/// the list by pin. Likewise the unpinned items are those the filter drops.
pub proof fn law_clear_keeps_pins_in_order(items: Seq<ClipItem>)
    ensures
        pinned_only(items) == items.filter(|x: ClipItem| x.pinned),
        unpinned_only(items) == items.filter(|x: ClipItem| !x.pinned),
    decreases items.len(),
{
    reveal(Seq::filter);
    if items.len() > 0 {
        law_clear_keeps_pins_in_order(items.drop_last());
    }
}

proof fn lemma_first_match(items: Seq<ClipItem>, id: Seq<char>)
    ensures
        (position_of(items, id) >= 0) == (items.filter(has_the_id(id)).len() > 0),
        position_of(items, id) >= 0 ==> items[position_of(items, id)] == items.filter(
            has_the_id(id),
        )[0],
    decreases items.len(),
{
    reveal(Seq::filter);
    lemma_position_of(items, id);
    if items.len() > 0 {
        lemma_first_match(items.drop_last(), id);
        lemma_position_of(items.drop_last(), id);
    }
}

proof fn lemma_filter_none(items: Seq<ClipItem>, id: Seq<char>)
    requires
        forall|k: int| 0 <= k < items.len() ==> (#[trigger] items[k]).id@ != id,
    ensures
        items.filter(lacks_the_id(id)) == items,
    decreases items.len(),
{
    reveal(Seq::filter);
    if items.len() > 0 {
        lemma_filter_none(items.drop_last(), id);
        assert(items.drop_last().push(items.last()) =~= items);
    }
}

proof fn lemma_remove_is_filter(items: Seq<ClipItem>, id: Seq<char>, p: int)
    requires
        ids_unique(items),
        0 <= p < items.len(),
        items[p].id@ == id,
    ensures
        items.remove(p) == items.filter(lacks_the_id(id)),
    decreases items.len(),
{
    reveal(Seq::filter);
    let rest = items.drop_last();
    if p == items.len() - 1 {
        assert forall|k: int| 0 <= k < rest.len() implies (#[trigger] rest[k]).id@ != id by {
            assert(rest[k] == items[k]);
        }
        lemma_filter_none(rest, id);
        assert(items.remove(p) =~= rest);
    } else {
        assert(ids_unique(rest)) by {
            assert forall|i: int, j: int|
                0 <= i < rest.len() && 0 <= j < rest.len() && i != j implies rest[i].id@
                != rest[j].id@ by {
                assert(rest[i] == items[i] && rest[j] == items[j]);
            }
        }
        assert(rest[p] == items[p]);
        lemma_remove_is_filter(rest, id, p);
        assert(items.last().id@ != id) by {
            assert(items[items.len() - 1] == items.last());
        }
        assert(items.remove(p) =~= rest.remove(p).push(items.last()));
    }
}

/// Recording an item puts it first and keeps every other item in its
/// previous relative order, the old copy of the item dropped; a copy that was
/// there lends its pin and the record is stamped `now`. Only then is the
/// list cut to the cap, so a list with room left is not cut at all.
pub proof fn law_record_keeps_the_rest_in_order(items: Seq<ClipItem>, item: ClipItem, now: u64)
    ensures
        ({
            let same = items.filter(has_the_id(item.id@));
            let front = if same.len() > 0 {
                ClipItem { pinned: same[0].pinned, time: now, ..item }
            } else {
                item
            };
            let rest = items.filter(lacks_the_id(item.id@));
            &&& upserted(items, item, now) == trimmed(seq![front] + rest)
            &&& items.len() < MAX_ITEMS ==> upserted(items, item, now) == seq![front] + rest
        }),
{
    lemma_first_match(items, item.id@);
    law_without_id_is_a_filter(items, item.id@);
    let rest = items.filter(lacks_the_id(item.id@));
    items.lemma_filter_len(lacks_the_id(item.id@));
    let same = items.filter(has_the_id(item.id@));
    let front = if same.len() > 0 {
        ClipItem { pinned: same[0].pinned, time: now, ..item }
    } else {
        item
    };
    let p = position_of(items, item.id@);
    let old_front = if p >= 0 {
        refreshed(item, items[p], now)
    } else {
        item
    };
    assert(old_front == front);
    assert(without_id(items, item.id@) == rest);
    assert(seq![old_front] + without_id(items, item.id@) =~= seq![front] + rest);
    assert(upserted(items, item, now) == trimmed(seq![front] + rest));
    if items.len() < MAX_ITEMS {
        assert((seq![front] + rest).len() <= MAX_ITEMS);
        law_cap_is_idempotent(seq![front] + rest);
        assert(trimmed(seq![front] + rest) == seq![front] + rest);
    }
}

/// Bumping moves the item with identifier `id` to the front, stamped `now`,
/// and keeps every other item in its previous relative order; a list whose
/// first item already has `id`, or that lacks it, is left as it is.
pub proof fn law_bump_keeps_the_rest_in_order(items: Seq<ClipItem>, id: Seq<char>, now: u64)
    requires
        ids_unique(items),
    ensures
        ({
            let same = items.filter(has_the_id(id));
            if same.len() == 0 || items[0].id@ == id {
                bumped(items, id, now) == items
            } else {
                bumped(items, id, now) == seq![ClipItem { time: now, ..same[0] }] + items.filter(
                    lacks_the_id(id),
                )
            }
        }),
{
    lemma_first_match(items, id);
    lemma_position_of(items, id);
    let p = position_of(items, id);
    if p >= 0 && items[0].id@ != id {
        lemma_remove_is_filter(items, id, p);
    }
}

/// Looking up an identifier finds the first item that has it, and nothing
/// when none has it.
pub proof fn law_lookup_finds_the_first_match(items: Seq<ClipItem>, id: Seq<char>)
    ensures
        lookup(items, id) == if items.filter(has_the_id(id)).len() > 0 {
            Some(items.filter(has_the_id(id))[0])
        } else {
            None::<ClipItem>
        },
{
    lemma_first_match(items, id);
}

/// Toggling a pin flips the pin of the item with that identifier and changes
/// nothing else: every other item, and the order, stay as they were.
pub proof fn law_toggle_flips_only_that_pin(items: Seq<ClipItem>, id: Seq<char>)
    requires
        ids_unique(items),
    ensures
        toggled(items, id).len() == items.len(),
        forall|k: int|
            0 <= k < items.len() ==> #[trigger] toggled(items, id)[k] == if items[k].id@ == id {
                ClipItem { pinned: !items[k].pinned, ..items[k] }
            } else {
                items[k]
            },
{
    lemma_position_of(items, id);
}

/// `keep_within(s, b)` is `s` up to index `c`, then only its pinned items.
spec fn cut_at(s: Seq<ClipItem>, b: int, c: int) -> bool {
    &&& 0 <= c <= s.len()
    &&& keep_within(s, b) == s.take(c) + s.skip(c).filter(|x: ClipItem| x.pinned)
    &&& s.take(c).filter(|x: ClipItem| !x.pinned).len() <= b
    &&& c == s.len() || (!s[c].pinned && s.take(c).filter(|x: ClipItem| !x.pinned).len() == b)
}

proof fn lemma_keep_within_order(s: Seq<ClipItem>, b: int) -> (c: int)
    requires
        b >= 0,
    ensures
        cut_at(s, b, c),
    decreases s.len(),
{
    reveal(Seq::filter);
    law_clear_keeps_pins_in_order(s);
    lemma_counts(s);
    if unpinned_count(s) <= b {
        lemma_keep_within_all(s, b);
        assert(s.take(s.len() as int) =~= s);
        assert(s.skip(s.len() as int) =~= Seq::<ClipItem>::empty());
        assert(s.skip(s.len() as int).filter(|x: ClipItem| x.pinned) =~= Seq::<ClipItem>::empty());
        assert(keep_within(s, b) =~= s.take(s.len() as int) + s.skip(s.len() as int).filter(
            |x: ClipItem| x.pinned,
        ));
        s.len() as int
    } else {
        let r = s.drop_last();
        let x = s.last();
        law_clear_keeps_pins_in_order(r);
        lemma_counts(r);
        if unpinned_count(r) <= b {
            lemma_keep_within_all(r, b);
            let c = r.len() as int;
            assert(s.take(c) =~= r);
            assert(!x.pinned);
            assert(s.skip(c).drop_last() =~= Seq::<ClipItem>::empty());
            assert(s.skip(c).last() == x);
            assert(Seq::<ClipItem>::empty().filter(|x: ClipItem| x.pinned) =~= Seq::<ClipItem>::empty());
            assert(s.skip(c).filter(|x: ClipItem| x.pinned) =~= Seq::<ClipItem>::empty());
            assert(keep_within(s, b) =~= s.take(c) + s.skip(c).filter(|x: ClipItem| x.pinned));
            assert(s[c] == x);
            c
        } else {
            let c = lemma_keep_within_order(r, b);
            if c == r.len() {
                assert(r.take(c) =~= r);
                assert(false);
            }
            assert(s.take(c) =~= r.take(c));
            assert(s.skip(c) =~= r.skip(c).push(x));
            assert(s.skip(c).drop_last() =~= r.skip(c));
            assert(s.skip(c).last() == x);
            assert(s[c] == r[c]);
            assert(keep_within(s, b) =~= s.take(c) + s.skip(c).filter(|x: ClipItem| x.pinned));
            c
        }
    }
}

/// Cutting to the cap keeps the list's order: it keeps every item up to the
/// point where the unpinned items allowed beside the pinned ones run out, and
/// after that only the pinned items, in their order.
pub proof fn law_cap_keeps_the_order(items: Seq<ClipItem>)
    ensures
        ({
            let pins = items.filter(|x: ClipItem| x.pinned).len();
            let budget = if pins >= MAX_ITEMS {
                0
            } else {
                MAX_ITEMS - pins
            };
            exists|c: int|
                {
                    &&& 0 <= c <= items.len()
                    &&& trimmed(items) == items.take(c) + items.skip(c).filter(
                        |x: ClipItem| x.pinned,
                    )
                    &&& items.take(c).filter(|x: ClipItem| !x.pinned).len() <= budget
                    &&& c == items.len() || (!items[c].pinned && items.take(c).filter(
                        |x: ClipItem| !x.pinned,
                    ).len() == budget)
                }
        }),
{
    law_clear_keeps_pins_in_order(items);
    lemma_counts(items);
    let c = lemma_keep_within_order(items, unpinned_budget(items));
    assert(cut_at(items, unpinned_budget(items), c));
}

/// The image files collected are exactly those found that no item refers
/// to, in the order they were found: filtering the names found by whether an
/// item's image is stored under `images/` and that name.
pub proof fn law_collect_keeps_the_order_found(items: Seq<ClipItem>, names: Seq<String>)
    ensures
        unreferenced(items, names) == names.filter(
            |n: String| !references_image(items, "images/"@ + n@),
        ),
    decreases names.len(),
{
    reveal(Seq::filter);
    if names.len() > 0 {
        law_collect_keeps_the_order_found(items, names.drop_last());
    }
}

} // verus!
