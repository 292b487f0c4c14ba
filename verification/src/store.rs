//! The clipboard history: its items, their order, pinning, the size cap, and
//! the update channel kept beside them.
use vstd::prelude::*;

use crate::hash::{content_id, hash_bytes};
use crate::text::push_str;

verus! {

/// The most items the history keeps, pinned items aside.
pub const MAX_ITEMS: usize = 100;

/// Which release stream the updater follows.
#[derive(Clone, Copy, PartialEq, Eq, Structural, Debug)]
pub enum UpdateChannel {
    Stable,
    Beta,
}

impl Default for UpdateChannel {
    fn default() -> (r: Self)
        ensures
            r == UpdateChannel::Stable,
    {
        UpdateChannel::Stable
    }
}

/// Where a captured image is stored, relative to the history file's
/// directory, and what is known of it.
#[derive(Debug)]
pub struct ImageEntry {
    pub path: String,
    pub width: u32,
    pub height: u32,
    pub name: String,
}

/// One history entry.
#[derive(Debug)]
pub struct ClipItem {
    pub id: String,
    pub text: String,
    pub kind: String,
    pub time: u64,
    pub pinned: bool,
    pub image: Option<ImageEntry>,
}

/// Everything the history file holds.
#[derive(Debug)]
pub struct History {
    pub version: u32,
    pub hotkey: String,
    pub items: Vec<ClipItem>,
    pub channel: UpdateChannel,
}

/// The history that a missing or unreadable history file stands for.
pub open spec fn is_default_history(h: History) -> bool {
    &&& h.version == 1
    &&& h.hotkey@ == "CommandOrControl+Shift+V"@
    &&& h.items@.len() == 0
    &&& h.channel == UpdateChannel::Stable
}

impl Default for History {
    fn default() -> (r: Self)
        ensures
            is_default_history(r),
    {
        History {
            version: 1,
            hotkey: "CommandOrControl+Shift+V".to_owned(),
            items: Vec::new(),
            channel: UpdateChannel::Stable,
        }
    }
}

impl ImageEntry {
    /// A copy of this entry, field for field.
    pub fn duplicate(&self) -> (r: Self)
        ensures
            r == *self,
    {
        ImageEntry {
            path: self.path.clone(),
            width: self.width,
            height: self.height,
            name: self.name.clone(),
        }
    }
}

impl ClipItem {
    /// A copy of this item, field for field.
    pub fn duplicate(&self) -> (r: Self)
        ensures
            r == *self,
    {
        let image = match &self.image {
            Some(entry) => Some(entry.duplicate()),
            None => None,
        };
        ClipItem {
            id: self.id.clone(),
            text: self.text.clone(),
            kind: self.kind.clone(),
            time: self.time,
            pinned: self.pinned,
            image,
        }
    }
}

// ---------------------------------------------------------------------------
// The model of the item list.
// ---------------------------------------------------------------------------

/// The index of the first item with identifier `id`, or -1 when none has it.
pub open spec fn position_of(items: Seq<ClipItem>, id: Seq<char>) -> int
    decreases items.len(),
{
    if items.len() == 0 {
        -1
    } else {
        let p = position_of(items.drop_last(), id);
        if p >= 0 {
            p
        } else if items.last().id@ == id {
            items.len() - 1
        } else {
            -1
        }
    }
}

/// The items whose identifier is not `id`, in their order.
pub open spec fn without_id(items: Seq<ClipItem>, id: Seq<char>) -> Seq<ClipItem>
    decreases items.len(),
{
    if items.len() == 0 {
        seq![]
    } else if items.last().id@ == id {
        without_id(items.drop_last(), id)
    } else {
        without_id(items.drop_last(), id).push(items.last())
    }
}

/// The number of pinned items.
pub open spec fn pinned_count(items: Seq<ClipItem>) -> nat
    decreases items.len(),
{
    if items.len() == 0 {
        0
    } else {
        pinned_count(items.drop_last()) + if items.last().pinned {
            1nat
        } else {
            0nat
        }
    }
}

/// The number of unpinned items.
pub open spec fn unpinned_count(items: Seq<ClipItem>) -> nat
    decreases items.len(),
{
    if items.len() == 0 {
        0
    } else {
        unpinned_count(items.drop_last()) + if items.last().pinned {
            0nat
        } else {
            1nat
        }
    }
}

/// The pinned items, in their order.
pub open spec fn pinned_only(items: Seq<ClipItem>) -> Seq<ClipItem>
    decreases items.len(),
{
    if items.len() == 0 {
        seq![]
    } else if items.last().pinned {
        pinned_only(items.drop_last()).push(items.last())
    } else {
        pinned_only(items.drop_last())
    }
}

/// The unpinned items, in their order.
pub open spec fn unpinned_only(items: Seq<ClipItem>) -> Seq<ClipItem>
    decreases items.len(),
{
    if items.len() == 0 {
        seq![]
    } else if items.last().pinned {
        unpinned_only(items.drop_last())
    } else {
        unpinned_only(items.drop_last()).push(items.last())
    }
}

/// How many unpinned items may stay: what `MAX_ITEMS` leaves beside the pinned
/// ones, and none once they fill it.
pub open spec fn unpinned_budget(items: Seq<ClipItem>) -> int {
    if pinned_count(items) >= MAX_ITEMS {
        0
    } else {
        MAX_ITEMS - pinned_count(items)
    }
}

/// Every pinned item, and the first `budget` unpinned ones, in their order.
pub open spec fn keep_within(items: Seq<ClipItem>, budget: int) -> Seq<ClipItem>
    decreases items.len(),
{
    if items.len() == 0 {
        seq![]
    } else if items.last().pinned || unpinned_count(items) <= budget {
        keep_within(items.drop_last(), budget).push(items.last())
    } else {
        keep_within(items.drop_last(), budget)
    }
}

/// The list cut down to the cap: every pinned item and the newest unpinned
/// ones that fit.
pub open spec fn trimmed(items: Seq<ClipItem>) -> Seq<ClipItem> {
    keep_within(items, unpinned_budget(items))
}

/// `item` as the history keeps it when an item with its identifier is
/// already there at `existing`: pinned as that one was, stamped `now`.
pub open spec fn refreshed(item: ClipItem, existing: ClipItem, now: u64) -> ClipItem {
    ClipItem { pinned: existing.pinned, time: now, ..item }
}

/// The list after `item` is recorded at time `now`: it goes first, replacing
/// any item with its identifier (whose pin it keeps, with time `now`), and
/// the list is cut to the cap.
pub open spec fn upserted(items: Seq<ClipItem>, item: ClipItem, now: u64) -> Seq<ClipItem> {
    let p = position_of(items, item.id@);
    let front = if p >= 0 {
        refreshed(item, items[p], now)
    } else {
        item
    };
    trimmed(seq![front] + without_id(items, item.id@))
}

/// The path, relative to the history file's directory, under which the
/// image with identifier `id` is stored.
pub open spec fn image_file_name(id: Seq<char>) -> Seq<char> {
    "images/"@ + id + ".png"@
}

/// `item` holds an image stored at `path`.
pub open spec fn image_stored_at(item: ClipItem, path: Seq<char>) -> bool {
    match item.image {
        Some(e) => e.path@ == path,
        None => false,
    }
}

/// Some item's image is stored at `path`.
pub open spec fn references_image(items: Seq<ClipItem>, path: Seq<char>) -> bool {
    exists|i: int| 0 <= i < items.len() && image_stored_at(#[trigger] items[i], path)
}

/// The file names, among `names` in the images directory, that no item
/// refers to, in their order.
pub open spec fn unreferenced(items: Seq<ClipItem>, names: Seq<String>) -> Seq<String>
    decreases names.len(),
{
    if names.len() == 0 {
        seq![]
    } else if references_image(items, "images/"@ + names.last()@) {
        unreferenced(items, names.drop_last())
    } else {
        unreferenced(items, names.drop_last()).push(names.last())
    }
}

/// Whether bumping `id` moves an item: some item has it, and not the first.
pub open spec fn bump_moves(items: Seq<ClipItem>, id: Seq<char>) -> bool {
    !(items.len() > 0 && items[0].id@ == id) && position_of(items, id) >= 0
}

/// The list after the item with identifier `id` is moved to the front with
/// time `now`; unchanged when it is already first or absent.
pub open spec fn bumped(items: Seq<ClipItem>, id: Seq<char>, now: u64) -> Seq<ClipItem> {
    if bump_moves(items, id) {
        let p = position_of(items, id);
        seq![ClipItem { time: now, ..items[p] }] + items.remove(p)
    } else {
        items
    }
}

/// The list with the pin of the first item with identifier `id` flipped.
pub open spec fn toggled(items: Seq<ClipItem>, id: Seq<char>) -> Seq<ClipItem> {
    let p = position_of(items, id);
    if p >= 0 {
        items.update(p, ClipItem { pinned: !items[p].pinned, ..items[p] })
    } else {
        items
    }
}

/// The first item with identifier `id`, if any.
pub open spec fn lookup(items: Seq<ClipItem>, id: Seq<char>) -> Option<ClipItem> {
    let p = position_of(items, id);
    if p >= 0 {
        Some(items[p])
    } else {
        None
    }
}

/// No two items share an identifier.
pub open spec fn ids_unique(items: Seq<ClipItem>) -> bool {
    forall|i: int, j: int|
        0 <= i < items.len() && 0 <= j < items.len() && i != j ==> items[i].id@ != items[j].id@
}

// ---------------------------------------------------------------------------
// Facts about the model.
// ---------------------------------------------------------------------------

pub proof fn lemma_position_of(items: Seq<ClipItem>, id: Seq<char>)
    ensures
        -1 <= position_of(items, id) < items.len(),
        position_of(items, id) >= 0 ==> items[position_of(items, id)].id@ == id,
        forall|j: int|
            0 <= j < items.len() && (position_of(items, id) < 0 || j < position_of(items, id))
                ==> items[j].id@ != id,
    decreases items.len(),
{
    if items.len() > 0 {
        let rest = items.drop_last();
        lemma_position_of(rest, id);
        assert forall|j: int|
            0 <= j < items.len() && (position_of(items, id) < 0 || j < position_of(items, id))
                implies items[j].id@ != id by {
            if j < items.len() - 1 {
                assert(items[j] == rest[j]);
            }
        }
    }
}

/// The position of the first item with `id` is fixed by where `id` first
/// occurs.
pub proof fn lemma_position_of_is(items: Seq<ClipItem>, id: Seq<char>, p: int)
    requires
        -1 <= p < items.len(),
        p >= 0 ==> items[p].id@ == id,
        forall|j: int| 0 <= j < items.len() && (p < 0 || j < p) ==> items[j].id@ != id,
    ensures
        position_of(items, id) == p,
{
    lemma_position_of(items, id);
    let q = position_of(items, id);
    if q >= 0 && p >= 0 {
        if q < p {
            assert(items[q].id@ == id);
        } else if p < q {
            assert(items[p].id@ == id);
        }
    } else if q >= 0 {
        assert(items[q].id@ == id);
    } else if p >= 0 {
        assert(items[p].id@ == id);
    }
}

pub proof fn lemma_without_id(items: Seq<ClipItem>, id: Seq<char>)
    ensures
        without_id(items, id).len() <= items.len(),
        forall|k: int|
            0 <= k < without_id(items, id).len() ==> #[trigger] without_id(items, id)[k].id@
                != id,
        forall|k: int|
            0 <= k < without_id(items, id).len() ==> items.contains(
                #[trigger] without_id(items, id)[k],
            ),
        forall|k: int|
            0 <= k < items.len() && items[k].id@ != id ==> without_id(items, id).contains(
                #[trigger] items[k],
            ),
    decreases items.len(),
{
    if items.len() > 0 {
        let rest = items.drop_last();
        lemma_without_id(rest, id);
        let w = without_id(rest, id);
        assert forall|k: int|
            0 <= k < without_id(items, id).len() implies items.contains(
            #[trigger] without_id(items, id)[k],
        ) by {
            if k < w.len() {
                let x = w[k];
                assert(rest.contains(x));
                let m = choose|m: int| 0 <= m < rest.len() && rest[m] == x;
                assert(items[m] == x);
            } else {
                assert(items[items.len() - 1] == items.last());
            }
        }
        assert forall|k: int| 0 <= k < items.len() && items[k].id@ != id implies without_id(
            items,
            id,
        ).contains(#[trigger] items[k]) by {
            if k < items.len() - 1 {
                assert(rest[k] == items[k]);
                let m = choose|m: int| 0 <= m < w.len() && w[m] == items[k];
                if items.last().id@ != id {
                    assert(without_id(items, id)[m] == items[k]);
                }
            } else {
                assert(without_id(items, id)[w.len() as int] == items[k]);
            }
        }
    }
}

pub proof fn lemma_counts(items: Seq<ClipItem>)
    ensures
        pinned_count(items) + unpinned_count(items) == items.len(),
        pinned_only(items).len() == pinned_count(items),
        unpinned_only(items).len() == unpinned_count(items),
    decreases items.len(),
{
    if items.len() > 0 {
        lemma_counts(items.drop_last());
    }
}

pub proof fn lemma_count_prefix(items: Seq<ClipItem>, k: int)
    requires
        0 <= k < items.len(),
    ensures
        unpinned_count(items.take(k + 1)) == unpinned_count(items.take(k)) + if items[k].pinned {
            0int
        } else {
            1int
        },
        pinned_count(items.take(k + 1)) == pinned_count(items.take(k)) + if items[k].pinned {
            1int
        } else {
            0int
        },
{
    assert(items.take(k + 1).drop_last() =~= items.take(k));
}


// ---------------------------------------------------------------------------
// The store.
// ---------------------------------------------------------------------------

/// Milliseconds since the Unix epoch by the system clock
/// (`SystemTime::elapsed` on `UNIX_EPOCH`), or 0 when the clock reads earlier.
/// Nothing is claimed of the value: it is whatever the clock says.
#[verifier::external_body]
fn now_ms() -> u64 {
    std::time::UNIX_EPOCH.elapsed().map_or(0, |d| d.as_millis() as u64)
}

/// The history together with the path of the file it is kept in.
#[derive(Debug)]
pub struct Store {
    pub path: String,
    pub history: History,
}

/// The item list of `s` changed to `items`, all else as in `old`.
pub open spec fn only_items_changed(old: Store, s: Store, items: Seq<ClipItem>) -> bool {
    &&& s.path == old.path
    &&& s.history.version == old.history.version
    &&& s.history.hotkey == old.history.hotkey
    &&& s.history.channel == old.history.channel
    &&& s.history.items@ == items
}

/// The index of the first item with identifier `key`.
fn find_position(items: &Vec<ClipItem>, key: &String) -> (r: Option<usize>)
    ensures
        match r {
            Some(p) => position_of(items@, key@) == p as int,
            None => position_of(items@, key@) == -1,
        },
{
    let mut i: usize = 0;
    while i < items.len()
        invariant
            i <= items@.len(),
            forall|j: int| 0 <= j < i ==> items@[j].id@ != key@,
        decreases items@.len() - i,
    {
        if items[i].id == *key {
            proof {
                lemma_position_of_is(items@, key@, i as int);
            }
            return Some(i);
        }
        i = i + 1;
    }
    proof {
        lemma_position_of_is(items@, key@, -1);
    }
    None
}

/// The items of `items` whose identifier is not `key`, copied in order.
fn items_without(items: &Vec<ClipItem>, key: &String) -> (r: Vec<ClipItem>)
    ensures
        r@ == without_id(items@, key@),
{
    let mut out: Vec<ClipItem> = Vec::new();
    let mut i: usize = 0;
    while i < items.len()
        invariant
            i <= items@.len(),
            out@ == without_id(items@.take(i as int), key@),
        decreases items@.len() - i,
    {
        assert(items@.take(i + 1).drop_last() =~= items@.take(i as int));
        if items[i].id != *key {
            out.push(items[i].duplicate());
        }
        i = i + 1;
    }
    assert(items@.take(items@.len() as int) =~= items@);
    out
}

/// Every pinned item and the first `MAX_ITEMS` less the pinned count of the
/// unpinned ones, in order.
fn trim_items(items: &Vec<ClipItem>) -> (r: Vec<ClipItem>)
    ensures
        r@ == trimmed(items@),
{
    let mut pinned: usize = 0;
    let mut i: usize = 0;
    while i < items.len()
        invariant
            i <= items@.len(),
            pinned == pinned_count(items@.take(i as int)),
            pinned <= i,
        decreases items@.len() - i,
    {
        proof {
            lemma_count_prefix(items@, i as int);
        }
        if items[i].pinned {
            pinned = pinned + 1;
        }
        i = i + 1;
    }
    assert(items@.take(items@.len() as int) =~= items@);
    let budget = MAX_ITEMS.saturating_sub(pinned);
    assert(budget == unpinned_budget(items@));
    let mut seen: usize = 0;
    let mut out: Vec<ClipItem> = Vec::new();
    let mut k: usize = 0;
    while k < items.len()
        invariant
            k <= items@.len(),
            seen == unpinned_count(items@.take(k as int)),
            seen <= k,
            out@ == keep_within(items@.take(k as int), budget as int),
        decreases items@.len() - k,
    {
        proof {
            lemma_count_prefix(items@, k as int);
        }
        assert(items@.take(k + 1).drop_last() =~= items@.take(k as int));
        if items[k].pinned {
            out.push(items[k].duplicate());
        } else {
            seen = seen + 1;
            if seen <= budget {
                out.push(items[k].duplicate());
            }
        }
        k = k + 1;
    }
    out
}

impl Store {
    /// A store for the history file at `path`, holding `loaded`, the history
    /// read from that file, or the default history when there was none to
    /// read.
    pub fn new(path: String, loaded: Option<History>) -> (r: Store)
        ensures
            r.path == path,
            loaded matches Some(h) ==> r.history == h,
            loaded is None ==> is_default_history(r.history),
    {
        let history = match loaded {
            Some(h) => h,
            None => History::default(),
        };
        Store { path, history }
    }

    /// Records `item` at time `now`: it goes first, replacing any item with
    /// its identifier (keeping that one's pin, with time `now`), and the list
    /// is cut to the cap.
    pub fn upsert(&mut self, item: ClipItem, now: u64)
        ensures
            only_items_changed(*old(self), *final(self), upserted(old(self).history.items@, item, now)),
    {
        let ghost given = item;
        proof {
            lemma_position_of(self.history.items@, item.id@);
        }
        let front = match find_position(&self.history.items, &item.id) {
            Some(p) => {
                let mut bumped = item;
                bumped.pinned = self.history.items[p].pinned;
                bumped.time = now;
                bumped
            },
            None => item,
        };
        let rest = items_without(&self.history.items, &front.id);
        let ghost first = front;
        let mut list: Vec<ClipItem> = Vec::new();
        list.push(front);
        let mut i: usize = 0;
        while i < rest.len()
            invariant
                i <= rest@.len(),
                list@ == seq![first] + rest@.take(i as int),
            decreases rest@.len() - i,
        {
            list.push(rest[i].duplicate());
            i = i + 1;
            assert(list@ =~= seq![first] + rest@.take(i as int));
        }
        assert(rest@.take(rest@.len() as int) =~= rest@);
        proof {
            let p = position_of(old(self).history.items@, given.id@);
            if p >= 0 {
                assert(list@[0] == refreshed(given, old(self).history.items@[p], now));
            } else {
                assert(list@[0] == given);
            }
            assert(list@ =~= seq![list@[0]] + without_id(old(self).history.items@, given.id@));
        }
        self.history.items = trim_items(&list);
    }

    /// Records text captured at `created`, identified by the digest of its
    /// bytes, with `now` as the time of a record it replaces; returns the
    /// identifier.
    pub fn add_text_at(&mut self, text: &str, kind: &str, created: u64, now: u64) -> (r: String)
        ensures
            r@ == content_id(vstd::utf8::encode_utf8(text@)),
            exists|item: ClipItem|
                {
                    &&& item.id@ == r@
                    &&& item.text@ == text@
                    &&& item.kind@ == kind@
                    &&& item.time == created
                    &&& !item.pinned
                    &&& item.image is None
                    &&& only_items_changed(
                        *old(self),
                        *final(self),
                        upserted(old(self).history.items@, item, now),
                    )
                },
    {
        let id = hash_bytes(text.as_bytes());
        let item = ClipItem {
            id: id.clone(),
            text: text.to_owned(),
            kind: kind.to_owned(),
            time: created,
            pinned: false,
            image: None,
        };
        let ghost recorded = item;
        self.upsert(item, now);
        assert(recorded.id@ == id@);
        id
    }

    /// Records text read off the clipboard, stamped by the system clock, and
    /// returns its identifier (the digest of its bytes).
    pub fn add_text(&mut self, text: &str, kind: &str) -> (r: String)
        ensures
            r@ == content_id(vstd::utf8::encode_utf8(text@)),
            exists|item: ClipItem, now: u64|
                {
                    &&& item.id@ == r@
                    &&& item.text@ == text@
                    &&& item.kind@ == kind@
                    &&& !item.pinned
                    &&& item.image is None
                    &&& only_items_changed(
                        *old(self),
                        *final(self),
                        upserted(old(self).history.items@, item, now),
                    )
                },
    {
        let created = now_ms();
        let now = now_ms();
        self.add_text_at(text, kind, created, now)
    }

    /// Records the image with identifier `id` (the digest of its PNG bytes),
    /// stored at `images/{id}.png`, captured at `created`, with `now` as the
    /// time of a record it replaces.
    pub fn add_image_at(
        &mut self,
        id: &str,
        width: u32,
        height: u32,
        name: String,
        created: u64,
        now: u64,
    )
        ensures
            exists|item: ClipItem|
                {
                    &&& item.id@ == id@
                    &&& item.text@.len() == 0
                    &&& item.kind@ == "image"@
                    &&& item.time == created
                    &&& !item.pinned
                    &&& item.image matches Some(e) && e.path@ == image_file_name(id@) && e.width
                        == width && e.height == height && e.name == name
                    &&& only_items_changed(
                        *old(self),
                        *final(self),
                        upserted(old(self).history.items@, item, now),
                    )
                },
    {
        let path = image_path_for(id);
        let item = ClipItem {
            id: id.to_owned(),
            text: String::new(),
            kind: "image".to_owned(),
            time: created,
            pinned: false,
            image: Some(ImageEntry { path, width, height, name }),
        };
        let ghost recorded = item;
        self.upsert(item, now);
        assert(recorded.id@ == id@);
    }

    /// Records the image with identifier `id`, stamped by the system clock.
    /// Its PNG bytes are written to `image_path_for(id)` beforehand.
    pub fn add_image(&mut self, id: &str, width: u32, height: u32, name: String)
        ensures
            exists|item: ClipItem, now: u64|
                {
                    &&& item.id@ == id@
                    &&& item.text@.len() == 0
                    &&& item.kind@ == "image"@
                    &&& !item.pinned
                    &&& item.image matches Some(e) && e.path@ == image_file_name(id@) && e.width
                        == width && e.height == height && e.name == name
                    &&& only_items_changed(
                        *old(self),
                        *final(self),
                        upserted(old(self).history.items@, item, now),
                    )
                },
    {
        let created = now_ms();
        let now = now_ms();
        self.add_image_at(id, width, height, name, created, now);
    }

    /// Moves the item with identifier `id` to the front with time `now`, and
    /// reports whether anything moved: nothing does when it is already first
    /// or absent, and then the history file need not be written.
    pub fn bump_at(&mut self, id: &str, now: u64) -> (moved: bool)
        ensures
            moved == bump_moves(old(self).history.items@, id@),
            only_items_changed(*old(self), *final(self), bumped(old(self).history.items@, id@, now)),
    {
        let key = id.to_owned();
        if self.history.items.len() > 0 && self.history.items[0].id == key {
            return false;
        }
        proof {
            lemma_position_of(self.history.items@, key@);
        }
        match find_position(&self.history.items, &key) {
            None => false,
            Some(p) => {
                let ghost before = self.history.items@;
                let mut item = self.history.items.remove(p);
                item.time = now;
                self.history.items.insert(0, item);
                assert(self.history.items@ =~= seq![ClipItem { time: now, ..before[p as int] }]
                    + before.remove(p as int));
                true
            },
        }
    }

    /// Moves the item with identifier `id` to the front, stamped by the
    /// system clock, and reports whether anything moved.
    pub fn bump(&mut self, id: &str) -> (moved: bool)
        ensures
            moved == bump_moves(old(self).history.items@, id@),
            exists|now: u64|
                only_items_changed(
                    *old(self),
                    *final(self),
                    #[trigger] bumped(old(self).history.items@, id@, now),
                ),
    {
        let now = now_ms();
        self.bump_at(id, now)
    }

    /// Flips the pin of the item with identifier `id`, if there is one.
    pub fn toggle_pin(&mut self, id: &str)
        ensures
            only_items_changed(*old(self), *final(self), toggled(old(self).history.items@, id@)),
    {
        let key = id.to_owned();
        proof {
            lemma_position_of(self.history.items@, key@);
        }
        if let Some(p) = find_position(&self.history.items, &key) {
            let mut item = self.history.items[p].duplicate();
            item.pinned = !item.pinned;
            self.history.items.set(p, item);
        }
    }

    /// Drops every unpinned item.
    pub fn clear_unpinned(&mut self)
        ensures
            only_items_changed(*old(self), *final(self), pinned_only(old(self).history.items@)),
    {
        let mut kept: Vec<ClipItem> = Vec::new();
        let mut i: usize = 0;
        while i < self.history.items.len()
            invariant
                i <= self.history.items@.len(),
                kept@ == pinned_only(self.history.items@.take(i as int)),
            decreases self.history.items@.len() - i,
        {
            assert(self.history.items@.take(i + 1).drop_last() =~= self.history.items@.take(
                i as int,
            ));
            if self.history.items[i].pinned {
                kept.push(self.history.items[i].duplicate());
            }
            i = i + 1;
        }
        assert(self.history.items@.take(self.history.items@.len() as int)
            =~= self.history.items@);
        self.history.items = kept;
    }

    /// A copy of the first item with identifier `id`.
    pub fn get(&self, id: &str) -> (r: Option<ClipItem>)
        ensures
            r == lookup(self.history.items@, id@),
    {
        let key = id.to_owned();
        proof {
            lemma_position_of(self.history.items@, key@);
        }
        match find_position(&self.history.items, &key) {
            Some(p) => Some(self.history.items[p].duplicate()),
            None => None,
        }
    }

    /// Where the image of the item with identifier `id` is stored, relative to
    /// the history file's directory; `None` when there is no such item or it
    /// holds no image.
    pub fn image_file(&self, id: &str) -> (r: Option<String>)
        ensures
            r == match lookup(self.history.items@, id@) {
                Some(item) => match item.image {
                    Some(e) => Some(e.path),
                    None => None,
                },
                None => None,
            },
    {
        let key = id.to_owned();
        proof {
            lemma_position_of(self.history.items@, key@);
        }
        match find_position(&self.history.items, &key) {
            Some(p) => match &self.history.items[p].image {
                Some(e) => Some(e.path.clone()),
                None => None,
            },
            None => None,
        }
    }

    /// The update channel the history records.
    pub fn channel(&self) -> (r: UpdateChannel)
        ensures
            r == self.history.channel,
    {
        self.history.channel
    }

    /// Records `channel` as the update channel.
    pub fn set_channel(&mut self, channel: UpdateChannel)
        ensures
            final(self).history.channel == channel,
            final(self).path == old(self).path,
            final(self).history.version == old(self).history.version,
            final(self).history.hotkey == old(self).history.hotkey,
            final(self).history.items == old(self).history.items,
    {
        self.history.channel = channel;
    }

    /// The names, among `file_names` found in the images directory, of the
    /// files that no item refers to any more, in their order.
    pub fn unreferenced_images(&self, file_names: &Vec<String>) -> (r: Vec<String>)
        ensures
            r@ == unreferenced(self.history.items@, file_names@),
    {
        let items = &self.history.items;
        let mut out: Vec<String> = Vec::new();
        let mut i: usize = 0;
        while i < file_names.len()
            invariant
                i <= file_names@.len(),
                out@ == unreferenced(items@, file_names@.take(i as int)),
            decreases file_names@.len() - i,
        {
            assert(file_names@.take(i + 1).drop_last() =~= file_names@.take(i as int));
            let mut rel = "images/".to_owned();
            push_str(&mut rel, file_names[i].as_str());
            let mut found = false;
            let mut k: usize = 0;
            while k < items.len()
                invariant
                    k <= items@.len(),
                    found ==> references_image(items@, rel@),
                    !found ==> forall|j: int|
                        0 <= j < k ==> !image_stored_at(#[trigger] items@[j], rel@),
                decreases items@.len() - k,
            {
                if let Some(e) = &items[k].image {
                    if e.path == rel {
                        found = true;
                    }
                }
                k = k + 1;
            }
            if !found {
                out.push(file_names[i].clone());
            }
            i = i + 1;
        }
        assert(file_names@.take(file_names@.len() as int) =~= file_names@);
        out
    }
}

/// The path, relative to the history file's directory, under which the image
/// with identifier `id` is stored: `images/{id}.png`.
pub fn image_path_for(id: &str) -> (r: String)
    ensures
        r@ == image_file_name(id@),
{
    let mut r = "images/".to_owned();
    push_str(&mut r, id);
    push_str(&mut r, ".png");
    r
}

} // verus!
