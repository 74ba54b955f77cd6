//! The clipboard history, the collections and their saved entries, kept as
//! three tables with the rules that the application's SQL statements state:
//! the history keeps every pinned entry and the newest others up to a limit,
//! lists pinned entries first and then by recency, and is searched with SQL
//! `LIKE`.
use vstd::prelude::*;

use crate::like::{contains_like, contains_pattern, like, pattern_fits, MAX_LIKE_PATTERN_BYTES};
use crate::models::{
    kind_from_name, ClipboardItem, ClipboardItemType, Collection, CollectionEntry, CollectionView,
    EntryView, ItemView,
};
use crate::seqs::{
    first_n, lemma_select_all, lemma_select_members, lemma_select_pairwise, lemma_select_step,
    pairwise, select, window,
};
use crate::text::{copy_opt, copy_str, decimal, decimal_string, lemma_text_order, opt_view, str_eq, text_le, text_less, text_lt};

verus! {

broadcast use vstd::string::group_string_axioms;

/// How many unpinned entries the history keeps at most.
pub const MAX_CLIPBOARD_ITEMS: usize = 20;

/// How many entries a search returns at most.
pub const SEARCH_LIMIT: usize = 50;

/// The mathematical value of the store: its three tables, each in the
/// order in which the store keeps it.
pub struct DbView {
    /// The history, newest first.
    pub items: Seq<ItemView>,
    /// The collections, oldest first.
    pub collections: Seq<CollectionView>,
    /// The saved entries of all collections, newest first.
    pub entries: Seq<EntryView>,
}

// ===== Orders and well-formedness =====

/// Of two history rows, the first is listed before the second: their ids
/// differ and the first is not older.
pub open spec fn item_order() -> spec_fn(ItemView, ItemView) -> bool {
    |a: ItemView, b: ItemView| a.id != b.id && text_le(b.created_at, a.created_at)
}

/// Of two collections, the first is listed before the second: their ids
/// differ and the first is not newer.
pub open spec fn collection_order() -> spec_fn(CollectionView, CollectionView) -> bool {
    |a: CollectionView, b: CollectionView| a.id != b.id && text_le(a.created_at, b.created_at)
}

/// Of two saved entries, the first is listed before the second: their item
/// ids differ and the first is not older.
pub open spec fn entry_order() -> spec_fn(EntryView, EntryView) -> bool {
    |a: EntryView, b: EntryView| a.item_id != b.item_id && text_le(b.added_at, a.added_at)
}

impl DbView {
    /// Ids are unique in each table, and each table is in its order.
    pub open spec fn wf(self) -> bool {
        &&& pairwise(self.items, item_order())
        &&& pairwise(self.collections, collection_order())
        &&& pairwise(self.entries, entry_order())
    }
}

// ===== Lookups =====

/// The first position at or after `i` of the history row with `id`
/// (the length when there is none).
pub open spec fn item_pos(s: Seq<ItemView>, id: Seq<char>, i: int) -> int
    decreases s.len() - i,
{
    if 0 <= i < s.len() && s[i].id != id {
        item_pos(s, id, i + 1)
    } else {
        i
    }
}

/// The first position at or after `i` of the collection with `id`.
pub open spec fn collection_pos(s: Seq<CollectionView>, id: Seq<char>, i: int) -> int
    decreases s.len() - i,
{
    if 0 <= i < s.len() && s[i].id != id {
        collection_pos(s, id, i + 1)
    } else {
        i
    }
}

/// The first position at or after `i` of the saved entry with `item_id`.
pub open spec fn entry_pos(s: Seq<EntryView>, item_id: Seq<char>, i: int) -> int
    decreases s.len() - i,
{
    if 0 <= i < s.len() && s[i].item_id != item_id {
        entry_pos(s, item_id, i + 1)
    } else {
        i
    }
}

/// The colour of the collection that holds the entry `item_id`, if the
/// entry is saved and its collection exists (the LEFT JOIN of the listing).
pub open spec fn color_of(m: DbView, item_id: Seq<char>) -> Option<Seq<char>> {
    let e = entry_pos(m.entries, item_id, 0);
    if e < m.entries.len() {
        let c = collection_pos(m.collections, m.entries[e].collection_id, 0);
        if c < m.collections.len() {
            Some(m.collections[c].color)
        } else {
            None
        }
    } else {
        None
    }
}

/// A history row as listings return it: with the colour of its
/// collection, and no title.
pub open spec fn listed(m: DbView, r: ItemView) -> ItemView {
    ItemView { collection_color: color_of(m, r.id), title: None, ..r }
}

/// Every row of `s` as listings return it.
pub open spec fn listed_seq(m: DbView, s: Seq<ItemView>) -> Seq<ItemView> {
    s.map_values(|r: ItemView| listed(m, r))
}

/// A saved entry as listings return it, under the colour of its collection.
pub open spec fn entry_item(e: EntryView, color: Seq<char>) -> ItemView {
    ItemView {
        id: e.item_id,
        content: e.content,
        item_type: kind_from_name(e.item_type),
        source_app: None,
        preview: e.preview,
        is_pinned: false,
        created_at: e.added_at,
        collection_color: Some(color),
        title: None,
    }
}

/// A history row as the table stores it: the listing-only fields left out.
pub open spec fn stored(v: ItemView) -> ItemView {
    ItemView { collection_color: None, title: None, ..v }
}

// ===== Selections =====

/// Rows that are pinned.
pub open spec fn pinned_row() -> spec_fn(ItemView) -> bool {
    |r: ItemView| r.is_pinned
}

/// Rows that are not pinned.
pub open spec fn unpinned_row() -> spec_fn(ItemView) -> bool {
    |r: ItemView| !r.is_pinned
}

/// Rows whose id is not `id`.
pub open spec fn item_not(id: Seq<char>) -> spec_fn(ItemView) -> bool {
    |r: ItemView| r.id != id
}

/// Collections whose id is not `id`.
pub open spec fn collection_not(id: Seq<char>) -> spec_fn(CollectionView) -> bool {
    |c: CollectionView| c.id != id
}

/// Saved entries whose item id is not `item_id`.
pub open spec fn entry_not(item_id: Seq<char>) -> spec_fn(EntryView) -> bool {
    |e: EntryView| e.item_id != item_id
}

/// Saved entries that are not in the collection `collection_id`.
pub open spec fn entry_outside(collection_id: Seq<char>) -> spec_fn(EntryView) -> bool {
    |e: EntryView| e.collection_id != collection_id
}

/// Saved entries in the collection `collection_id`.
pub open spec fn entry_inside(collection_id: Seq<char>) -> spec_fn(EntryView) -> bool {
    |e: EntryView| e.collection_id == collection_id
}

/// Rows whose content matches `%query%`.
pub open spec fn item_matches(query: Seq<char>) -> spec_fn(ItemView) -> bool {
    |r: ItemView| like(contains_pattern(query), r.content)
}

/// The history in listing order: pinned rows first, each part newest first
/// (`ORDER BY is_pinned DESC, created_at DESC`).
pub open spec fn pinned_first(s: Seq<ItemView>) -> Seq<ItemView> {
    select(s, pinned_row()) + select(s, unpinned_row())
}

// ===== Keeping the tables in order =====

/// Where a row with creation time `k` goes among the history rows from `i`
/// on: after every row strictly newer than it.
pub open spec fn newer_items(s: Seq<ItemView>, k: Seq<char>, i: int) -> int
    decreases s.len() - i,
{
    if 0 <= i < s.len() && text_lt(k, s[i].created_at) {
        newer_items(s, k, i + 1)
    } else {
        i
    }
}

/// Where a collection created at `k` goes among the collections from `i`
/// on: after every collection not newer than it.
pub open spec fn older_collections(s: Seq<CollectionView>, k: Seq<char>, i: int) -> int
    decreases s.len() - i,
{
    if 0 <= i < s.len() && !text_lt(k, s[i].created_at) {
        older_collections(s, k, i + 1)
    } else {
        i
    }
}

/// Where an entry added at `k` goes among the saved entries from `i` on:
/// after every entry strictly newer than it.
pub open spec fn newer_entries(s: Seq<EntryView>, k: Seq<char>, i: int) -> int
    decreases s.len() - i,
{
    if 0 <= i < s.len() && text_lt(k, s[i].added_at) {
        newer_entries(s, k, i + 1)
    } else {
        i
    }
}

/// The history with `r` put in its place by creation time.
pub open spec fn put_item(s: Seq<ItemView>, r: ItemView) -> Seq<ItemView> {
    s.insert(newer_items(s, r.created_at, 0), r)
}

/// The collections with `c` put in its place by creation time.
pub open spec fn put_collection(s: Seq<CollectionView>, c: CollectionView) -> Seq<CollectionView> {
    s.insert(older_collections(s, c.created_at, 0), c)
}

/// The saved entries with `e` put in its place by time of saving.
pub open spec fn put_entry(s: Seq<EntryView>, e: EntryView) -> Seq<EntryView> {
    s.insert(newer_entries(s, e.added_at, 0), e)
}

/// How many rows of `s` from `i` on are pinned.
pub open spec fn pinned_from(s: Seq<ItemView>, i: int) -> int
    decreases s.len() - i,
{
    if 0 <= i < s.len() {
        pinned_from(s, i + 1) + if s[i].is_pinned {
            1int
        } else {
            0
        }
    } else {
        0
    }
}

/// The rows of `s` from `i` on that survive when, besides every pinned
/// row, the first `q` unpinned ones are kept.
pub open spec fn prune_from(s: Seq<ItemView>, i: int, q: int) -> Seq<ItemView>
    decreases s.len() - i,
{
    if i < 0 || i >= s.len() {
        Seq::empty()
    } else if s[i].is_pinned {
        seq![s[i]] + prune_from(s, i + 1, q)
    } else if q > 0 {
        seq![s[i]] + prune_from(s, i + 1, q - 1)
    } else {
        prune_from(s, i + 1, q)
    }
}

/// How many unpinned rows fit besides the pinned ones in the first
/// `MAX_CLIPBOARD_ITEMS` places of the listing.
pub open spec fn unpinned_quota(s: Seq<ItemView>) -> int {
    if pinned_from(s, 0) >= MAX_CLIPBOARD_ITEMS {
        0
    } else {
        MAX_CLIPBOARD_ITEMS - pinned_from(s, 0)
    }
}

/// The history after old unpinned rows beyond the limit are dropped: an
/// unpinned row stays when it is among the first `MAX_CLIPBOARD_ITEMS` of
/// the listing.
pub open spec fn retain(s: Seq<ItemView>) -> Seq<ItemView> {
    prune_from(s, 0, unpinned_quota(s))
}

// ===== The operations, on the mathematical value =====

/// `content` put into the rows with `id`.
pub open spec fn with_content(s: Seq<ItemView>, id: Seq<char>, content: Seq<char>) -> Seq<ItemView> {
    s.map_values(|r: ItemView| if r.id == id { ItemView { content: content, ..r } } else { r })
}

/// The pinned flag of the rows with `id` flipped.
pub open spec fn with_pin_flipped(s: Seq<ItemView>, id: Seq<char>) -> Seq<ItemView> {
    s.map_values(|r: ItemView| if r.id == id { ItemView { is_pinned: !r.is_pinned, ..r } } else { r })
}

/// `content` put into the saved entries with `item_id`.
pub open spec fn with_entry_content(s: Seq<EntryView>, item_id: Seq<char>, content: Seq<char>) -> Seq<EntryView> {
    s.map_values(|e: EntryView| if e.item_id == item_id { EntryView { content: content, ..e } } else { e })
}

/// `name` given to the collections with `id`.
pub open spec fn with_name(s: Seq<CollectionView>, id: Seq<char>, name: Seq<char>) -> Seq<CollectionView> {
    s.map_values(|c: CollectionView| if c.id == id { CollectionView { name: name, ..c } } else { c })
}

/// `color` given to the collections with `id`.
pub open spec fn with_color(s: Seq<CollectionView>, id: Seq<char>, color: Seq<char>) -> Seq<CollectionView> {
    s.map_values(|c: CollectionView| if c.id == id { CollectionView { color: color, ..c } } else { c })
}

/// The saved entries, newest first and as listed, that contain `%query%`
/// and belong to an existing collection, of colour `color` when one is
/// given.
pub open spec fn entry_hits(m: DbView, query: Seq<char>, color: Option<Seq<char>>) -> Seq<ItemView> {
    m.entries.filter_map(entry_hit(m, query, color))
}

/// A saved entry as listed, when it contains `%query%` and belongs to an
/// existing collection, of colour `color` when one is given.
pub open spec fn entry_hit(m: DbView, query: Seq<char>, color: Option<Seq<char>>) -> spec_fn(EntryView) -> Option<ItemView> {
    |e: EntryView|
        {
            let c = collection_pos(m.collections, e.collection_id, 0);
            if c < m.collections.len() && (color is None || color == Some(m.collections[c].color))
                && like(contains_pattern(query), e.content) {
                Some(entry_item(e, m.collections[c].color))
            } else {
                None
            }
        }
}

/// Listed rows whose colour is `color`; every row when no colour is given.
pub open spec fn in_color(color: Option<Seq<char>>) -> spec_fn(ItemView) -> bool {
    |r: ItemView| color is None || r.collection_color == color
}

/// The history rows, newest first and as listed, that contain `%query%`
/// and, when a colour is given, are listed under it.
pub open spec fn history_hits(m: DbView, query: Seq<char>, color: Option<Seq<char>>) -> Seq<ItemView> {
    select(select(listed_seq(m, m.items), item_matches(query)), in_color(color))
}

/// Two runs of rows, each newest first, merged newest first; of two rows
/// made at the same time the one of `a` comes first.
pub open spec fn merge_newest(a: Seq<ItemView>, b: Seq<ItemView>) -> Seq<ItemView>
    decreases a.len() + b.len(),
{
    if a.len() == 0 {
        b
    } else if b.len() == 0 {
        a
    } else if text_lt(a[0].created_at, b[0].created_at) {
        seq![b[0]] + merge_newest(a, b.drop_first())
    } else {
        seq![a[0]] + merge_newest(a.drop_first(), b)
    }
}

/// Saved entries as listed under the colour `color`.
pub open spec fn entry_items(color: Seq<char>) -> spec_fn(EntryView) -> ItemView {
    |e: EntryView| entry_item(e, color)
}

impl DbView {
    /// The empty store.
    pub open spec fn empty() -> DbView {
        DbView { items: Seq::empty(), collections: Seq::empty(), entries: Seq::empty() }
    }

    /// Saving `item` in the history: a row with the same id is replaced, and
    /// unpinned rows beyond the limit are dropped.
    pub open spec fn insert_item(self, item: ItemView) -> DbView {
        DbView {
            items: retain(put_item(select(self.items, item_not(item.id)), stored(item))),
            ..self
        }
    }

    /// The history in listing order, as listed.
    pub open spec fn listing(self) -> Seq<ItemView> {
        listed_seq(self, pinned_first(self.items))
    }

    /// `limit` rows of the listing from position `offset` on.
    pub open spec fn get_items(self, limit: int, offset: int) -> Seq<ItemView> {
        window(self.listing(), offset, limit)
    }

    /// The first `SEARCH_LIMIT` rows of the listing whose content contains
    /// `query` (as SQL `LIKE '%query%'`); none when the pattern is too long.
    pub open spec fn search_items(self, query: Seq<char>) -> Seq<ItemView> {
        if crate::like::pattern_within_limit(query) {
            first_n(select(self.listing(), item_matches(query)), SEARCH_LIMIT as int)
        } else {
            Seq::empty()
        }
    }

    /// The newest `SEARCH_LIMIT` rows, of the history and of the saved
    /// entries together, that contain `query`; when a colour is given, only
    /// those listed under that colour. None when the pattern is too long.
    /// "Newest" is by the text of the times, as SQL `ORDER BY` compares
    /// them: history times are RFC 3339 (`...T...`) and saving times are
    /// `YYYY-MM-DD HH:MM:SS`, so on the same day a history row sorts before
    /// a saved entry. An entry that is both in the history and saved in a
    /// collection is found in each table and comes back twice, once from
    /// each, with the same id.
    pub open spec fn search_all(self, query: Seq<char>, color: Option<Seq<char>>) -> Seq<ItemView> {
        if !crate::like::pattern_within_limit(query) {
            Seq::empty()
        } else {
            first_n(
                merge_newest(history_hits(self, query, color), entry_hits(self, query, color)),
                SEARCH_LIMIT as int,
            )
        }
    }

    /// Is there a history row with `id`?
    pub open spec fn has_item(self, id: Seq<char>) -> bool {
        item_pos(self.items, id, 0) < self.items.len()
    }

    /// Is there a collection with `id`?
    pub open spec fn has_collection(self, id: Seq<char>) -> bool {
        collection_pos(self.collections, id, 0) < self.collections.len()
    }

    /// The contents of the collection `collection_id`, newest first, as
    /// listed; empty when the collection does not exist.
    pub open spec fn collection_items(self, collection_id: Seq<char>) -> Seq<ItemView> {
        let c = collection_pos(self.collections, collection_id, 0);
        if c < self.collections.len() {
            select(self.entries, entry_inside(collection_id)).map_values(
                entry_items(self.collections[c].color),
            )
        } else {
            Seq::empty()
        }
    }

    /// How many saved entries name `collection_id`.
    pub open spec fn collection_count(self, collection_id: Seq<char>) -> int {
        select(self.entries, entry_inside(collection_id)).len() as int
    }

    /// The content of the newest history row.
    pub open spec fn last_content(self) -> Option<Seq<char>> {
        if self.items.len() == 0 {
            None
        } else {
            Some(self.items[0].content)
        }
    }
}

// ===== Facts about keeping order =====

pub(crate) proof fn lemma_newer_items(s: Seq<ItemView>, k: Seq<char>, i: int)
    requires
        0 <= i <= s.len(),
    ensures
        i <= newer_items(s, k, i) <= s.len(),
        forall|m: int| i <= m < newer_items(s, k, i) ==> text_lt(k, #[trigger] s[m].created_at),
        newer_items(s, k, i) < s.len() ==> !text_lt(k, s[newer_items(s, k, i)].created_at),
    decreases s.len() - i,
{
    if i < s.len() && text_lt(k, s[i].created_at) {
        lemma_newer_items(s, k, i + 1);
    }
}

pub(crate) proof fn lemma_older_collections(s: Seq<CollectionView>, k: Seq<char>, i: int)
    requires
        0 <= i <= s.len(),
    ensures
        i <= older_collections(s, k, i) <= s.len(),
        forall|m: int|
            i <= m < older_collections(s, k, i) ==> !text_lt(k, #[trigger] s[m].created_at),
        older_collections(s, k, i) < s.len() ==> text_lt(k, s[older_collections(s, k, i)].created_at),
    decreases s.len() - i,
{
    if i < s.len() && !text_lt(k, s[i].created_at) {
        lemma_older_collections(s, k, i + 1);
    }
}

pub(crate) proof fn lemma_newer_entries(s: Seq<EntryView>, k: Seq<char>, i: int)
    requires
        0 <= i <= s.len(),
    ensures
        i <= newer_entries(s, k, i) <= s.len(),
        forall|m: int| i <= m < newer_entries(s, k, i) ==> text_lt(k, #[trigger] s[m].added_at),
        newer_entries(s, k, i) < s.len() ==> !text_lt(k, s[newer_entries(s, k, i)].added_at),
    decreases s.len() - i,
{
    if i < s.len() && text_lt(k, s[i].added_at) {
        lemma_newer_entries(s, k, i + 1);
    }
}

/// Putting a row with a new id in its place keeps the history in order.
pub(crate) proof fn lemma_put_item(s: Seq<ItemView>, r: ItemView)
    requires
        pairwise(s, item_order()),
        forall|m: int| 0 <= m < s.len() ==> #[trigger] s[m].id != r.id,
    ensures
        pairwise(put_item(s, r), item_order()),
        put_item(s, r).len() == s.len() + 1,
{
    lemma_text_order();
    let p = newer_items(s, r.created_at, 0);
    lemma_newer_items(s, r.created_at, 0);
    s.insert_ensures(p, r);
    let t = put_item(s, r);
    assert forall|i: int, j: int| 0 <= i < j < t.len() implies #[trigger] item_order()(t[i], t[j]) by {
        if j < p {
            assert(item_order()(s[i], s[j]));
        } else if j == p {
            assert(t[j] == r);
            assert(text_lt(r.created_at, s[i].created_at));
        } else if i < p {
            assert(t[j] == s[j - 1]);
            assert(item_order()(s[i], s[j - 1]));
        } else if i == p {
            assert(t[i] == r);
            assert(t[j] == s[j - 1]);
            if j - 1 > p {
                assert(item_order()(s[p], s[j - 1]));
                let (a, b, c) = (r.created_at, s[j - 1].created_at, s[p].created_at);
                if text_lt(a, b) {
                    if text_lt(b, c) {
                        assert(text_lt(a, c));
                    } else {
                        assert(b == c);
                    }
                }
            }
        } else {
            assert(t[i] == s[i - 1]);
            assert(t[j] == s[j - 1]);
            assert(item_order()(s[i - 1], s[j - 1]));
        }
    }
}

/// Putting a collection with a new id in its place keeps the collections
/// in order.
proof fn lemma_put_collection(s: Seq<CollectionView>, c: CollectionView)
    requires
        pairwise(s, collection_order()),
        forall|m: int| 0 <= m < s.len() ==> #[trigger] s[m].id != c.id,
    ensures
        pairwise(put_collection(s, c), collection_order()),
        put_collection(s, c).len() == s.len() + 1,
{
    lemma_text_order();
    let p = older_collections(s, c.created_at, 0);
    lemma_older_collections(s, c.created_at, 0);
    s.insert_ensures(p, c);
    let t = put_collection(s, c);
    assert forall|i: int, j: int| 0 <= i < j < t.len() implies #[trigger] collection_order()(
        t[i],
        t[j],
    ) by {
        if j < p {
            assert(collection_order()(s[i], s[j]));
        } else if j == p {
            assert(t[j] == c);
            assert(!text_lt(c.created_at, s[i].created_at));
        } else if i < p {
            assert(t[j] == s[j - 1]);
            assert(collection_order()(s[i], s[j - 1]));
        } else if i == p {
            assert(t[i] == c);
            assert(t[j] == s[j - 1]);
            assert(text_lt(c.created_at, s[p].created_at));
            if j - 1 > p {
                assert(collection_order()(s[p], s[j - 1]));
            }
        } else {
            assert(t[i] == s[i - 1]);
            assert(t[j] == s[j - 1]);
            assert(collection_order()(s[i - 1], s[j - 1]));
        }
    }
}

/// Putting an entry with a new item id in its place keeps the saved entries
/// in order.
pub(crate) proof fn lemma_put_entry(s: Seq<EntryView>, e: EntryView)
    requires
        pairwise(s, entry_order()),
        forall|m: int| 0 <= m < s.len() ==> #[trigger] s[m].item_id != e.item_id,
    ensures
        pairwise(put_entry(s, e), entry_order()),
        put_entry(s, e).len() == s.len() + 1,
{
    lemma_text_order();
    let p = newer_entries(s, e.added_at, 0);
    lemma_newer_entries(s, e.added_at, 0);
    s.insert_ensures(p, e);
    let t = put_entry(s, e);
    assert forall|i: int, j: int| 0 <= i < j < t.len() implies #[trigger] entry_order()(t[i], t[j]) by {
        if j < p {
            assert(entry_order()(s[i], s[j]));
        } else if j == p {
            assert(t[j] == e);
            assert(text_lt(e.added_at, s[i].added_at));
        } else if i < p {
            assert(t[j] == s[j - 1]);
            assert(entry_order()(s[i], s[j - 1]));
        } else if i == p {
            assert(t[i] == e);
            assert(t[j] == s[j - 1]);
            if j - 1 > p {
                assert(entry_order()(s[p], s[j - 1]));
                let (a, b, c) = (e.added_at, s[j - 1].added_at, s[p].added_at);
                if text_lt(a, b) {
                    if text_lt(b, c) {
                        assert(text_lt(a, c));
                    } else {
                        assert(b == c);
                    }
                }
            }
        } else {
            assert(t[i] == s[i - 1]);
            assert(t[j] == s[j - 1]);
            assert(entry_order()(s[i - 1], s[j - 1]));
        }
    }
}

/// Dropping rows keeps the history in order; what stays comes from `s`.
pub(crate) proof fn lemma_prune(s: Seq<ItemView>, i: int, q: int)
    requires
        pairwise(s, item_order()),
        0 <= i,
    ensures
        pairwise(prune_from(s, i, q), item_order()),
        forall|k: int|
            0 <= k < prune_from(s, i, q).len() ==> exists|m: int|
                i <= m < s.len() && s[m] == #[trigger] prune_from(s, i, q)[k],
    decreases s.len() - i,
{
    if i < s.len() {
        let q2 = if s[i].is_pinned {
            q
        } else if q > 0 {
            q - 1
        } else {
            q
        };
        lemma_prune(s, i + 1, q2);
        let rest = prune_from(s, i + 1, q2);
        let t = prune_from(s, i, q);
        if s[i].is_pinned || q > 0 {
            assert(t == seq![s[i]] + rest);
            assert forall|a: int, b: int| 0 <= a < b < t.len() implies #[trigger] item_order()(
                t[a],
                t[b],
            ) by {
                assert(t[b] == rest[b - 1]);
                if a == 0 {
                    let m = choose|m: int| i + 1 <= m < s.len() && s[m] == rest[b - 1];
                    assert(item_order()(s[i], s[m]));
                } else {
                    assert(t[a] == rest[a - 1]);
                    assert(item_order()(rest[a - 1], rest[b - 1]));
                }
            }
            assert forall|k: int| 0 <= k < t.len() implies exists|m: int|
                i <= m < s.len() && s[m] == #[trigger] t[k] by {
                if k == 0 {
                    assert(s[i] == t[k]);
                } else {
                    assert(t[k] == rest[k - 1]);
                }
            }
        } else {
            assert(t == rest);
        }
    }
}

// ===== The store =====

/// The views of a run of history rows.
pub open spec fn items_view(v: Seq<ClipboardItem>) -> Seq<ItemView> {
    v.map_values(|x: ClipboardItem| x@)
}

/// The views of a run of collections.
pub open spec fn collections_view(v: Seq<Collection>) -> Seq<CollectionView> {
    v.map_values(|x: Collection| x@)
}

/// The views of a run of saved entries.
pub open spec fn entries_view(v: Seq<CollectionEntry>) -> Seq<EntryView> {
    v.map_values(|x: CollectionEntry| x@)
}

/// The clipboard history together with the collections.
pub struct Database {
    items: Vec<ClipboardItem>,
    collections: Vec<Collection>,
    entries: Vec<CollectionEntry>,
}

impl View for Database {
    type V = DbView;

    closed spec fn view(&self) -> DbView {
        DbView {
            items: items_view(self.items@),
            collections: collections_view(self.collections@),
            entries: entries_view(self.entries@),
        }
    }
}

/// Cuts `v` to `first_n(v, n)`.
fn keep_first<T>(v: Vec<T>, n: usize) -> (r: Vec<T>)
    ensures
        r@ == first_n(v@, n as int),
{
    let mut v = v;
    v.truncate(n);
    v
}

/// `window(v, offset, limit)` of `v`.
fn take_window<T>(v: Vec<T>, offset: u32, limit: u32) -> (r: Vec<T>)
    ensures
        r@ == window(v@, offset as int, limit as int),
{
    let mut v = v;
    let off = offset as usize;
    if off >= v.len() {
        return Vec::new();
    }
    let mut tail = v.split_off(off);
    let lim = limit as usize;
    if lim < tail.len() {
        tail.truncate(lim);
    }
    tail
}

impl Database {
    #[verifier::type_invariant]
    pub(crate) open spec fn well_formed(&self) -> bool {
        self@.wf()
    }

    /// An empty store.
    pub fn new() -> (r: Self)
        ensures
            r@ == DbView::empty(),
            r@.wf(),
    {
        let r = Database { items: Vec::new(), collections: Vec::new(), entries: Vec::new() };
        assert(r@ =~= DbView::empty()) by {
            assert(items_view(r.items@) =~= Seq::empty());
            assert(collections_view(r.collections@) =~= Seq::empty());
            assert(entries_view(r.entries@) =~= Seq::empty());
        }
        r
    }

    /// The position of the history row with `id` (the length when none).
    fn item_index(&self, id: &str) -> (r: usize)
        ensures
            r == item_pos(self@.items, id@, 0),
    {
        let ghost s = self@.items;
        let mut i: usize = 0;
        while i < self.items.len() && !str_eq(self.items[i].id.as_str(), id)
            invariant
                s == self@.items,
                s.len() == self.items.len(),
                i <= self.items.len(),
                item_pos(s, id@, 0) == item_pos(s, id@, i as int),
            decreases self.items.len() - i,
        {
            i = i + 1;
        }
        i
    }

    /// The position of the collection with `id` (the length when none).
    fn collection_index(&self, id: &str) -> (r: usize)
        ensures
            r == collection_pos(self@.collections, id@, 0),
    {
        let ghost s = self@.collections;
        let mut i: usize = 0;
        while i < self.collections.len() && !str_eq(self.collections[i].id.as_str(), id)
            invariant
                s == self@.collections,
                s.len() == self.collections.len(),
                i <= self.collections.len(),
                collection_pos(s, id@, 0) == collection_pos(s, id@, i as int),
            decreases self.collections.len() - i,
        {
            i = i + 1;
        }
        i
    }

    /// The position of the saved entry with `item_id` (the length when none).
    fn entry_index(&self, item_id: &str) -> (r: usize)
        ensures
            r == entry_pos(self@.entries, item_id@, 0),
    {
        let ghost s = self@.entries;
        let mut i: usize = 0;
        while i < self.entries.len() && !str_eq(self.entries[i].item_id.as_str(), item_id)
            invariant
                s == self@.entries,
                s.len() == self.entries.len(),
                i <= self.entries.len(),
                entry_pos(s, item_id@, 0) == entry_pos(s, item_id@, i as int),
            decreases self.entries.len() - i,
        {
            i = i + 1;
        }
        i
    }

    /// The colour shown with the history row `item_id`.
    fn color_for(&self, item_id: &str) -> (r: Option<String>)
        ensures
            opt_view(r) == color_of(self@, item_id@),
    {
        let e = self.entry_index(item_id);
        if e < self.entries.len() {
            let c = self.collection_index(self.entries[e].collection_id.as_str());
            if c < self.collections.len() {
                Some(self.collections[c].color.clone())
            } else {
                None
            }
        } else {
            None
        }
    }

    /// The history row `r` as listings return it.
    fn listed_item(&self, r: &ClipboardItem) -> (out: ClipboardItem)
        ensures
            out@ == listed(self@, r@),
    {
        ClipboardItem {
            id: r.id.clone(),
            content: r.content.clone(),
            item_type: r.item_type,
            source_app: copy_opt(&r.source_app),
            preview: copy_opt(&r.preview),
            is_pinned: r.is_pinned,
            created_at: r.created_at.clone(),
            collection_color: self.color_for(r.id.as_str()),
            title: None,
        }
    }

    /// The whole history in listing order, as listed.
    fn listing_rows(&self) -> (out: Vec<ClipboardItem>)
        ensures
            items_view(out@) == self@.listing(),
    {
        let ghost m = self@;
        let ghost s = self@.items;
        let mut out: Vec<ClipboardItem> = Vec::new();
        let mut i: usize = 0;
        while i < self.items.len()
            invariant
                m == self@,
                s == m.items,
                s.len() == self.items.len(),
                i <= self.items.len(),
                items_view(out@) == listed_seq(m, select(s.take(i as int), pinned_row())),
            decreases self.items.len() - i,
        {
            proof {
                lemma_select_step(s, pinned_row(), i as int);
            }
            if self.items[i].is_pinned {
                let x = self.listed_item(&self.items[i]);
                let ghost before = out@;
                out.push(x);
                assert(items_view(out@) =~= items_view(before).push(x@));
                assert(listed_seq(m, select(s.take(i + 1), pinned_row())) =~= listed_seq(
                    m,
                    select(s.take(i as int), pinned_row()),
                ).push(listed(m, s[i as int])));
            }
            i = i + 1;
        }
        proof {
            lemma_select_all(s, pinned_row());
        }
        let ghost pinned_part = listed_seq(m, select(s, pinned_row()));
        let mut i: usize = 0;
        while i < self.items.len()
            invariant
                m == self@,
                s == m.items,
                s.len() == self.items.len(),
                i <= self.items.len(),
                pinned_part == listed_seq(m, select(s, pinned_row())),
                items_view(out@) == pinned_part + listed_seq(
                    m,
                    select(s.take(i as int), unpinned_row()),
                ),
            decreases self.items.len() - i,
        {
            proof {
                lemma_select_step(s, unpinned_row(), i as int);
            }
            if !self.items[i].is_pinned {
                let x = self.listed_item(&self.items[i]);
                let ghost before = out@;
                out.push(x);
                assert(items_view(out@) =~= items_view(before).push(x@));
                assert(listed_seq(m, select(s.take(i + 1), unpinned_row())) =~= listed_seq(
                    m,
                    select(s.take(i as int), unpinned_row()),
                ).push(listed(m, s[i as int])));
            }
            i = i + 1;
        }
        proof {
            lemma_select_all(s, unpinned_row());
            assert(listed_seq(m, pinned_first(s)) =~= pinned_part + listed_seq(
                m,
                select(s, unpinned_row()),
            ));
        }
        out
    }

    /// `limit` entries of the listing from position `offset` on: pinned
    /// entries first, each part newest first, each with the colour of the
    /// collection that holds it.
    pub fn get_items(&self, limit: u32, offset: u32) -> (r: Result<Vec<ClipboardItem>, String>)
        ensures
            r matches Ok(v) && items_view(v@) == self@.get_items(limit as int, offset as int),
    {
        let all = self.listing_rows();
        let ghost all_v = all@;
        let w = take_window(all, offset, limit);
        assert(items_view(w@) =~= window(items_view(all_v), offset as int, limit as int));
        Ok(w)
    }

    /// The rows of `rows` whose content contains `query` (SQL `LIKE`).
    fn matching(rows: &Vec<ClipboardItem>, query: &str) -> (out: Vec<ClipboardItem>)
        ensures
            items_view(out@) == select(items_view(rows@), item_matches(query@)),
    {
        let ghost s = items_view(rows@);
        let mut out: Vec<ClipboardItem> = Vec::new();
        let mut i: usize = 0;
        while i < rows.len()
            invariant
                s == items_view(rows@),
                i <= rows.len(),
                items_view(out@) == select(s.take(i as int), item_matches(query@)),
            decreases rows.len() - i,
        {
            proof {
                lemma_select_step(s, item_matches(query@), i as int);
            }
            if contains_like(query, rows[i].content.as_str()) {
                let x = rows[i].copy();
                let ghost before = out@;
                out.push(x);
                assert(items_view(out@) =~= items_view(before).push(x@));
            }
            i = i + 1;
        }
        proof {
            lemma_select_all(s, item_matches(query@));
        }
        out
    }

    /// The first `SEARCH_LIMIT` entries of the listing whose content
    /// contains `query`, with SQL `LIKE` semantics (`%` and `_` are
    /// wildcards, ASCII letters match either case).
    pub fn search_items(&self, query: &str) -> (r: Result<Vec<ClipboardItem>, String>)
        ensures
            r matches Ok(v) && items_view(v@) == self@.search_items(query@),
    {
        if !pattern_fits(query) {
            return Ok(Vec::new());
        }
        let all = self.listing_rows();
        let hits = Self::matching(&all, query);
        let ghost hv = hits@;
        let out = keep_first(hits, SEARCH_LIMIT);
        assert(items_view(out@) =~= first_n(items_view(hv), SEARCH_LIMIT as int));
        Ok(out)
    }

    /// The whole history newest first, as listed.
    fn recent_rows(&self) -> (out: Vec<ClipboardItem>)
        ensures
            items_view(out@) == listed_seq(self@, self@.items),
    {
        let ghost m = self@;
        let mut out: Vec<ClipboardItem> = Vec::new();
        let mut i: usize = 0;
        while i < self.items.len()
            invariant
                m == self@,
                m.items.len() == self.items.len(),
                i <= self.items.len(),
                items_view(out@) == listed_seq(m, m.items.take(i as int)),
            decreases self.items.len() - i,
        {
            let x = self.listed_item(&self.items[i]);
            let ghost before = out@;
            out.push(x);
            assert(items_view(out@) =~= items_view(before).push(x@));
            assert(m.items.take(i + 1) =~= m.items.take(i as int).push(m.items[i as int]));
            assert(listed_seq(m, m.items.take(i + 1)) =~= listed_seq(m, m.items.take(i as int)).push(
                listed(m, m.items[i as int]),
            ));
            i = i + 1;
        }
        assert(m.items.take(m.items.len() as int) =~= m.items);
        out
    }

    /// The saved entries that contain `query` and belong to a collection, of
    /// colour `color` when one is given, newest first, as listed.
    fn entry_matching(&self, query: &str, color: Option<&str>) -> (out: Vec<ClipboardItem>)
        ensures
            items_view(out@) == entry_hits(self@, query@, str_opt_view(color)),
    {
        let ghost m = self@;
        let ghost f = entry_hit(m, query@, str_opt_view(color));
        let mut out: Vec<ClipboardItem> = Vec::new();
        let mut i: usize = 0;
        while i < self.entries.len()
            invariant
                m == self@,
                m.entries.len() == self.entries.len(),
                m.collections.len() == self.collections.len(),
                i <= self.entries.len(),
                f == entry_hit(m, query@, str_opt_view(color)),
                items_view(out@) == m.entries.take(i as int).filter_map(f),
            decreases self.entries.len() - i,
        {
            let e = &self.entries[i];
            assert(m.entries[i as int] == e@);
            assert(m.entries.take(i + 1).drop_last() =~= m.entries.take(i as int));
            assert(m.entries.take(i + 1).last() == m.entries[i as int]);
            let c = self.collection_index(e.collection_id.as_str());
            assert(c < self.collections.len() ==> m.collections[c as int] == self.collections[c as int]@);
            let hit = c < self.collections.len() && match color {
                None => true,
                Some(want) => str_eq(self.collections[c].color.as_str(), want),
            } && contains_like(query, e.content.as_str());
            if hit {
                let x = ClipboardItem {
                    id: e.item_id.clone(),
                    content: e.content.clone(),
                    item_type: ClipboardItemType::from_str(e.item_type.as_str()),
                    source_app: None,
                    preview: copy_opt(&e.preview),
                    is_pinned: false,
                    created_at: e.added_at.clone(),
                    collection_color: Some(self.collections[c].color.clone()),
                    title: None,
                };
                assert(f(m.entries[i as int]) == Some(x@));
                let ghost before = out@;
                out.push(x);
                assert(items_view(out@) =~= items_view(before).push(x@));
                assert(m.entries.take(i + 1).filter_map(f) =~= m.entries.take(i as int).filter_map(
                    f,
                ).push(x@));
            } else {
                assert(f(m.entries[i as int]) is None);
                assert(m.entries.take(i + 1).filter_map(f) =~= m.entries.take(i as int).filter_map(
                    f,
                ));
            }
            i = i + 1;
        }
        assert(m.entries.take(m.entries.len() as int) =~= m.entries);
        out
    }

    /// The rows listed under `color`; all of them when no colour is given.
    fn keep_color(rows: Vec<ClipboardItem>, color: Option<&str>) -> (out: Vec<ClipboardItem>)
        ensures
            items_view(out@) == select(items_view(rows@), in_color(str_opt_view(color))),
    {
        let ghost s = items_view(rows@);
        let ghost keep = in_color(str_opt_view(color));
        let mut out: Vec<ClipboardItem> = Vec::new();
        let mut i: usize = 0;
        while i < rows.len()
            invariant
                s == items_view(rows@),
                keep == in_color(str_opt_view(color)),
                i <= rows.len(),
                items_view(out@) == select(s.take(i as int), keep),
            decreases rows.len() - i,
        {
            proof {
                lemma_select_step(s, keep, i as int);
            }
            let wanted = match color {
                None => true,
                Some(want) => match &rows[i].collection_color {
                    Some(have) => str_eq(have.as_str(), want),
                    None => false,
                },
            };
            assert(wanted == keep(s[i as int]));
            if wanted {
                let x = rows[i].copy();
                let ghost before = out@;
                out.push(x);
                assert(items_view(out@) =~= items_view(before).push(x@));
            }
            i = i + 1;
        }
        proof {
            lemma_select_all(s, keep);
        }
        out
    }

    /// Two runs of rows, each newest first, merged newest first.
    fn merge_rows(a: Vec<ClipboardItem>, b: Vec<ClipboardItem>) -> (out: Vec<ClipboardItem>)
        ensures
            items_view(out@) == merge_newest(items_view(a@), items_view(b@)),
    {
        let ghost av = items_view(a@);
        let ghost bv = items_view(b@);
        let mut out: Vec<ClipboardItem> = Vec::new();
        let mut i: usize = 0;
        let mut j: usize = 0;
        assert(av.skip(0) =~= av);
        assert(bv.skip(0) =~= bv);
        assert(items_view(out@) + merge_newest(av, bv) =~= merge_newest(av, bv));
        while i < a.len() || j < b.len()
            invariant
                av == items_view(a@),
                bv == items_view(b@),
                i <= a.len(),
                j <= b.len(),
                items_view(out@) + merge_newest(av.skip(i as int), bv.skip(j as int))
                    == merge_newest(av, bv),
            decreases a.len() - i + b.len() - j,
        {
            let ghost sa = av.skip(i as int);
            let ghost sb = bv.skip(j as int);
            let ghost before = out@;
            let take_b = if i == a.len() {
                true
            } else if j == b.len() {
                false
            } else {
                text_less(a[i].created_at.as_str(), b[j].created_at.as_str())
            };
            if take_b {
                let x = b[j].copy();
                proof {
                    assert(sb.drop_first() =~= bv.skip(j + 1));
                    if sa.len() == 0 {
                        assert(merge_newest(sa, sb) == sb);
                        assert(sb =~= seq![sb[0]] + sb.drop_first());
                        assert(merge_newest(sa, sb.drop_first()) == sb.drop_first());
                    } else {
                        assert(merge_newest(sa, sb) == seq![sb[0]] + merge_newest(sa, sb.drop_first()));
                    }
                }
                out.push(x);
                assert(items_view(out@) =~= items_view(before).push(x@));
                j = j + 1;
                assert(items_view(out@) + merge_newest(av.skip(i as int), bv.skip(j as int))
                    =~= items_view(before) + merge_newest(sa, sb));
            } else {
                let x = a[i].copy();
                proof {
                    assert(sa.drop_first() =~= av.skip(i + 1));
                    if sb.len() == 0 {
                        assert(merge_newest(sa, sb) == sa);
                        assert(sa =~= seq![sa[0]] + sa.drop_first());
                        assert(merge_newest(sa.drop_first(), sb) == sa.drop_first());
                    } else {
                        assert(merge_newest(sa, sb) == seq![sa[0]] + merge_newest(sa.drop_first(), sb));
                    }
                }
                out.push(x);
                assert(items_view(out@) =~= items_view(before).push(x@));
                i = i + 1;
                assert(items_view(out@) + merge_newest(av.skip(i as int), bv.skip(j as int))
                    =~= items_view(before) + merge_newest(sa, sb));
            }
        }
        assert(av.skip(i as int) =~= Seq::<ItemView>::empty());
        assert(bv.skip(j as int) =~= Seq::<ItemView>::empty());
        assert(items_view(out@) + merge_newest(av.skip(i as int), bv.skip(j as int)) =~= items_view(out@));
        out
    }

    /// The newest `SEARCH_LIMIT` entries, of the history and of the
    /// collections together, whose content contains `query`; with a colour,
    /// only those listed under it. Times are compared as text, and an entry
    /// kept in both tables is returned once from each (see
    /// `DbView::search_all`).
    pub fn search_all(&self, query: &str, color: Option<&str>) -> (r: Result<
        Vec<ClipboardItem>,
        String,
    >)
        ensures
            r matches Ok(v) && items_view(v@) == self@.search_all(query@, str_opt_view(color)),
    {
        if !pattern_fits(query) {
            return Ok(Vec::new());
        }
        let all = self.recent_rows();
        let hits = Self::matching(&all, query);
        let history = Self::keep_color(hits, color);
        let saved = self.entry_matching(query, color);
        let merged = Self::merge_rows(history, saved);
        let ghost mv = merged@;
        let out = keep_first(merged, SEARCH_LIMIT);
        assert(items_view(out@) =~= first_n(items_view(mv), SEARCH_LIMIT as int));
        Ok(out)
    }

    /// The content of the newest history entry, if any.
    pub fn get_last_content(&self) -> (r: Result<Option<String>, String>)
        ensures
            r matches Ok(o) && opt_view(o) == self@.last_content(),
    {
        if self.items.len() == 0 {
            Ok(None)
        } else {
            Ok(Some(self.items[0].content.clone()))
        }
    }

    /// All collections, oldest first.
    pub fn get_collections(&self) -> (r: Result<Vec<Collection>, String>)
        ensures
            r matches Ok(v) && collections_view(v@) == self@.collections,
    {
        let mut out: Vec<Collection> = Vec::new();
        let mut i: usize = 0;
        while i < self.collections.len()
            invariant
                i <= self.collections.len(),
                collections_view(out@) == collections_view(self.collections@.take(i as int)),
            decreases self.collections.len() - i,
        {
            let x = self.collections[i].copy();
            let ghost before = out@;
            out.push(x);
            assert(collections_view(out@) =~= collections_view(before).push(x@));
            assert(self.collections@.take(i + 1) =~= self.collections@.take(i as int).push(
                self.collections@[i as int],
            ));
            assert(collections_view(self.collections@.take(i + 1)) =~= collections_view(
                self.collections@.take(i as int),
            ).push(self.collections@[i as int]@));
            i = i + 1;
        }
        assert(self.collections@.take(self.collections.len() as int) =~= self.collections@);
        Ok(out)
    }

    /// The entries saved in the collection `collection_id`, newest first,
    /// under its colour; none when the collection does not exist.
    pub fn get_collection_items(&self, collection_id: &str) -> (r: Result<Vec<ClipboardItem>, String>)
        ensures
            r matches Ok(v) && items_view(v@) == self@.collection_items(collection_id@),
    {
        let ghost m = self@;
        let c = self.collection_index(collection_id);
        if c >= self.collections.len() {
            let none: Vec<ClipboardItem> = Vec::new();
            assert(items_view(none@) =~= Seq::<ItemView>::empty());
            return Ok(none);
        }
        let color = &self.collections[c].color;
        assert(m.collections[c as int] == self.collections[c as int]@);
        let ghost f = entry_items(m.collections[c as int].color);
        let mut out: Vec<ClipboardItem> = Vec::new();
        let mut i: usize = 0;
        while i < self.entries.len()
            invariant
                m == self@,
                c < m.collections.len(),
                color@ == m.collections[c as int].color,
                f == entry_items(m.collections[c as int].color),
                m.entries.len() == self.entries.len(),
                i <= self.entries.len(),
                items_view(out@) == select(m.entries.take(i as int), entry_inside(collection_id@)).map_values(f),
            decreases self.entries.len() - i,
        {
            proof {
                lemma_select_step(m.entries, entry_inside(collection_id@), i as int);
            }
            let e = &self.entries[i];
            assert(m.entries[i as int] == e@);
            if str_eq(e.collection_id.as_str(), collection_id) {
                let x = ClipboardItem {
                    id: e.item_id.clone(),
                    content: e.content.clone(),
                    item_type: ClipboardItemType::from_str(e.item_type.as_str()),
                    source_app: None,
                    preview: copy_opt(&e.preview),
                    is_pinned: false,
                    created_at: e.added_at.clone(),
                    collection_color: Some(color.clone()),
                    title: None,
                };
                assert(x@ == f(m.entries[i as int]));
                let ghost before = out@;
                out.push(x);
                assert(items_view(out@) =~= items_view(before).push(x@));
                assert(select(m.entries.take(i + 1), entry_inside(collection_id@)).map_values(f)
                    =~= select(m.entries.take(i as int), entry_inside(collection_id@)).map_values(
                    f,
                ).push(f(m.entries[i as int])));
            }
            i = i + 1;
        }
        proof {
            lemma_select_all(m.entries, entry_inside(collection_id@));
        }
        Ok(out)
    }

    /// How many saved entries name the collection `collection_id`; an error
    /// when the number does not fit a `u32`.
    pub fn get_collection_item_count(&self, collection_id: &str) -> (r: Result<u32, String>)
        ensures
            self@.collection_count(collection_id@) <= u32::MAX ==> r == Ok::<u32, String>(
                self@.collection_count(collection_id@) as u32,
            ),
            self@.collection_count(collection_id@) > u32::MAX ==> r is Err,
            r matches Err(e) ==> e@ == "Sayım yapılamadı: Integer "@ + decimal(
                self@.collection_count(collection_id@) as nat,
            ) + " out of range at index 0"@,
    {
        let ghost m = self@;
        let mut n: usize = 0;
        let mut i: usize = 0;
        while i < self.entries.len()
            invariant
                m == self@,
                m.entries.len() == self.entries.len(),
                i <= self.entries.len(),
                n == select(m.entries.take(i as int), entry_inside(collection_id@)).len(),
                n <= i,
            decreases self.entries.len() - i,
        {
            proof {
                lemma_select_step(m.entries, entry_inside(collection_id@), i as int);
            }
            if str_eq(self.entries[i].collection_id.as_str(), collection_id) {
                n = n + 1;
            }
            i = i + 1;
        }
        proof {
            lemma_select_all(m.entries, entry_inside(collection_id@));
        }
        if n > 4294967295usize {
            let mut msg = "Sayım yapılamadı: Integer ".to_string();
            msg.append(decimal_string(n as u64).as_str());
            msg.append(" out of range at index 0");
            Err(msg)
        } else {
            Ok(n as u32)
        }
    }
}

// ===== Changing the store =====

/// The history rows of `rows` other than `id`.
fn items_without(rows: &Vec<ClipboardItem>, id: &str) -> (out: Vec<ClipboardItem>)
    ensures
        items_view(out@) == select(items_view(rows@), item_not(id@)),
{
    let ghost s = items_view(rows@);
    let mut out: Vec<ClipboardItem> = Vec::new();
    let mut i: usize = 0;
    while i < rows.len()
        invariant
            s == items_view(rows@),
            i <= rows.len(),
            items_view(out@) == select(s.take(i as int), item_not(id@)),
        decreases rows.len() - i,
    {
        proof {
            lemma_select_step(s, item_not(id@), i as int);
        }
        if !str_eq(rows[i].id.as_str(), id) {
            let x = rows[i].copy();
            let ghost before = out@;
            out.push(x);
            assert(items_view(out@) =~= items_view(before).push(x@));
        }
        i = i + 1;
    }
    proof {
        lemma_select_all(s, item_not(id@));
    }
    out
}

/// The collections of `rows` other than `id`.
fn collections_without(rows: &Vec<Collection>, id: &str) -> (out: Vec<Collection>)
    ensures
        collections_view(out@) == select(collections_view(rows@), collection_not(id@)),
{
    let ghost s = collections_view(rows@);
    let mut out: Vec<Collection> = Vec::new();
    let mut i: usize = 0;
    while i < rows.len()
        invariant
            s == collections_view(rows@),
            i <= rows.len(),
            collections_view(out@) == select(s.take(i as int), collection_not(id@)),
        decreases rows.len() - i,
    {
        proof {
            lemma_select_step(s, collection_not(id@), i as int);
        }
        if !str_eq(rows[i].id.as_str(), id) {
            let x = rows[i].copy();
            let ghost before = out@;
            out.push(x);
            assert(collections_view(out@) =~= collections_view(before).push(x@));
        }
        i = i + 1;
    }
    proof {
        lemma_select_all(s, collection_not(id@));
    }
    out
}

/// The saved entries of `rows` whose item id (when `by_item`) or whose
/// collection id (otherwise) is not `key`.
fn entries_except(rows: &Vec<CollectionEntry>, key: &str, by_item: bool) -> (out: Vec<CollectionEntry>)
    ensures
        entries_view(out@) == select(
            entries_view(rows@),
            if by_item {
                entry_not(key@)
            } else {
                entry_outside(key@)
            },
        ),
{
    let ghost s = entries_view(rows@);
    let ghost keep = if by_item {
        entry_not(key@)
    } else {
        entry_outside(key@)
    };
    let mut out: Vec<CollectionEntry> = Vec::new();
    let mut i: usize = 0;
    while i < rows.len()
        invariant
            s == entries_view(rows@),
            keep == (if by_item {
                entry_not(key@)
            } else {
                entry_outside(key@)
            }),
            i <= rows.len(),
            entries_view(out@) == select(s.take(i as int), keep),
        decreases rows.len() - i,
    {
        proof {
            lemma_select_step(s, keep, i as int);
        }
        let same = if by_item {
            str_eq(rows[i].item_id.as_str(), key)
        } else {
            str_eq(rows[i].collection_id.as_str(), key)
        };
        if !same {
            let x = rows[i].copy();
            let ghost before = out@;
            out.push(x);
            assert(entries_view(out@) =~= entries_view(before).push(x@));
        }
        i = i + 1;
    }
    proof {
        lemma_select_all(s, keep);
    }
    out
}

/// Where a row created at `k` goes in `rows`.
fn newer_item_count(rows: &Vec<ClipboardItem>, k: &str) -> (p: usize)
    ensures
        p == newer_items(items_view(rows@), k@, 0),
{
    let ghost s = items_view(rows@);
    let mut i: usize = 0;
    while i < rows.len() && text_less(k, rows[i].created_at.as_str())
        invariant
            s == items_view(rows@),
            i <= rows.len(),
            newer_items(s, k@, 0) == newer_items(s, k@, i as int),
        decreases rows.len() - i,
    {
        i = i + 1;
    }
    i
}

/// Where a collection created at `k` goes in `rows`.
fn older_collection_count(rows: &Vec<Collection>, k: &str) -> (p: usize)
    ensures
        p == older_collections(collections_view(rows@), k@, 0),
{
    let ghost s = collections_view(rows@);
    let mut i: usize = 0;
    while i < rows.len() && !text_less(k, rows[i].created_at.as_str())
        invariant
            s == collections_view(rows@),
            i <= rows.len(),
            older_collections(s, k@, 0) == older_collections(s, k@, i as int),
        decreases rows.len() - i,
    {
        i = i + 1;
    }
    i
}

/// Where an entry added at `k` goes in `rows`.
fn newer_entry_count(rows: &Vec<CollectionEntry>, k: &str) -> (p: usize)
    ensures
        p == newer_entries(entries_view(rows@), k@, 0),
{
    let ghost s = entries_view(rows@);
    let mut i: usize = 0;
    while i < rows.len() && text_less(k, rows[i].added_at.as_str())
        invariant
            s == entries_view(rows@),
            i <= rows.len(),
            newer_entries(s, k@, 0) == newer_entries(s, k@, i as int),
        decreases rows.len() - i,
    {
        i = i + 1;
    }
    i
}

/// `rows` after old unpinned rows beyond the limit are dropped.
fn retain_rows(rows: &Vec<ClipboardItem>) -> (out: Vec<ClipboardItem>)
    ensures
        items_view(out@) == retain(items_view(rows@)),
{
    let ghost s = items_view(rows@);
    let mut pinned: usize = 0;
    let mut i: usize = 0;
    while i < rows.len()
        invariant
            s == items_view(rows@),
            i <= rows.len(),
            pinned <= i,
            pinned_from(s, 0) == pinned + pinned_from(s, i as int),
        decreases rows.len() - i,
    {
        if rows[i].is_pinned {
            pinned = pinned + 1;
        }
        i = i + 1;
    }
    let quota: usize = if pinned >= MAX_CLIPBOARD_ITEMS {
        0
    } else {
        MAX_CLIPBOARD_ITEMS - pinned
    };
    assert(quota == unpinned_quota(s));
    let mut q = quota;
    let mut out: Vec<ClipboardItem> = Vec::new();
    let mut i: usize = 0;
    while i < rows.len()
        invariant
            s == items_view(rows@),
            i <= rows.len(),
            items_view(out@) + prune_from(s, i as int, q as int) == prune_from(s, 0, quota as int),
        decreases rows.len() - i,
    {
        let ghost before = out@;
        let ghost rest = prune_from(s, i + 1, if rows[i as int].is_pinned || q == 0 {
            q as int
        } else {
            q - 1
        });
        if rows[i].is_pinned || q > 0 {
            if !rows[i].is_pinned {
                q = q - 1;
            }
            let x = rows[i].copy();
            out.push(x);
            assert(items_view(out@) =~= items_view(before).push(x@));
            assert(items_view(before) + (seq![s[i as int]] + rest) =~= items_view(before).push(
                x@,
            ) + rest);
        }
        i = i + 1;
    }
    assert(items_view(out@) =~= items_view(out@) + prune_from(s, rows.len() as int, q as int));
    out
}

impl Database {
    /// Saves `item` in the history (replacing a row with the same id) and
    /// then drops the unpinned rows that are not among the first
    /// `MAX_CLIPBOARD_ITEMS` of the listing.
    pub fn insert_item(&mut self, item: &ClipboardItem) -> (r: Result<(), String>)
        ensures
            r is Ok,
            final(self)@ == old(self)@.insert_item(item@),
            final(self)@.wf(),
    {
        proof {
            use_type_invariant(&*self);
        }
        let ghost m = self@;
        let mut rest = items_without(&self.items, item.id.as_str());
        let row = ClipboardItem {
            id: item.id.clone(),
            content: item.content.clone(),
            item_type: item.item_type,
            source_app: copy_opt(&item.source_app),
            preview: copy_opt(&item.preview),
            is_pinned: item.is_pinned,
            created_at: item.created_at.clone(),
            collection_color: None,
            title: None,
        };
        assert(row@ == stored(item@));
        let p = newer_item_count(&rest, item.created_at.as_str());
        let ghost rv = items_view(rest@);
        proof {
            lemma_newer_items(rv, item@.created_at, 0);
        }
        rest.insert(p, row);
        assert(items_view(rest@) =~= put_item(rv, stored(item@)));
        let kept = retain_rows(&rest);
        proof {
            lemma_select_pairwise(m.items, item_not(item@.id), item_order());
            lemma_select_members(m.items, item_not(item@.id));
            assert forall|k: int| 0 <= k < rv.len() implies #[trigger] rv[k].id != stored(item@).id by {
                assert(item_not(item@.id)(rv[k]));
            }
            lemma_put_item(rv, stored(item@));
            lemma_prune(items_view(rest@), 0, unpinned_quota(items_view(rest@)));
        }
        self.items = kept;
        assert(self@ =~= m.insert_item(item@));
        Ok(())
    }

    /// Puts `content` into the history row `id` (nothing changes when there
    /// is none).
    pub fn update_item_content(&mut self, id: &str, content: &str) -> (r: Result<(), String>)
        ensures
            r is Ok,
            final(self)@ == (DbView { items: with_content(old(self)@.items, id@, content@), ..old(self)@ }),
            final(self)@.wf(),
    {
        proof {
            use_type_invariant(&*self);
        }
        let ghost m = self@;
        let ghost t = with_content(m.items, id@, content@);
        let mut out: Vec<ClipboardItem> = Vec::new();
        let mut i: usize = 0;
        while i < self.items.len()
            invariant
                m == self@,
                t == with_content(m.items, id@, content@),
                m.items.len() == self.items.len(),
                i <= self.items.len(),
                items_view(out@) == t.take(i as int),
            decreases self.items.len() - i,
        {
            let mut x = self.items[i].copy();
            assert(m.items[i as int] == self.items[i as int]@);
            if str_eq(x.id.as_str(), id) {
                x.content = copy_str(content);
            }
            assert(x@ == t[i as int]);
            let ghost before = out@;
            out.push(x);
            assert(items_view(out@) =~= items_view(before).push(x@));
            assert(items_view(out@) =~= t.take(i + 1));
            i = i + 1;
        }
        proof {
            assert(t.take(t.len() as int) =~= t);
            assert forall|a: int, b: int| 0 <= a < b < t.len() implies #[trigger] item_order()(
                t[a],
                t[b],
            ) by {
                assert(item_order()(m.items[a], m.items[b]));
            }
        }
        self.items = out;
        assert(self@ =~= (DbView { items: t, ..m }));
        Ok(())
    }

    /// Removes the history row `id`, if any.
    pub fn delete_item(&mut self, id: &str) -> (r: Result<(), String>)
        ensures
            r is Ok,
            final(self)@ == (DbView { items: select(old(self)@.items, item_not(id@)), ..old(self)@ }),
            final(self)@.wf(),
    {
        proof {
            use_type_invariant(&*self);
        }
        let ghost m = self@;
        let out = items_without(&self.items, id);
        proof {
            lemma_select_pairwise(m.items, item_not(id@), item_order());
        }
        self.items = out;
        assert(self@ =~= (DbView { items: select(m.items, item_not(id@)), ..m }));
        Ok(())
    }

    /// Flips the pinned flag of the history row `id` and returns its new
    /// value; an error when there is no such row.
    pub fn toggle_pin(&mut self, id: &str) -> (r: Result<bool, String>)
        ensures
            final(self)@ == (DbView { items: with_pin_flipped(old(self)@.items, id@), ..old(self)@ }),
            final(self)@.wf(),
            r is Ok <==> old(self)@.has_item(id@),
            r matches Ok(b) ==> b == !old(self)@.items[item_pos(old(self)@.items, id@, 0)].is_pinned,
            r matches Err(e) ==> e@ == "Pin durumu okunamadı: Query returned no rows"@,
    {
        proof {
            use_type_invariant(&*self);
        }
        let ghost m = self@;
        let ghost t = with_pin_flipped(m.items, id@);
        let pos = self.item_index(id);
        let mut out: Vec<ClipboardItem> = Vec::new();
        let mut i: usize = 0;
        while i < self.items.len()
            invariant
                m == self@,
                t == with_pin_flipped(m.items, id@),
                m.items.len() == self.items.len(),
                i <= self.items.len(),
                items_view(out@) == t.take(i as int),
            decreases self.items.len() - i,
        {
            let mut x = self.items[i].copy();
            assert(m.items[i as int] == self.items[i as int]@);
            if str_eq(x.id.as_str(), id) {
                x.is_pinned = !x.is_pinned;
            }
            assert(x@ == t[i as int]);
            let ghost before = out@;
            out.push(x);
            assert(items_view(out@) =~= items_view(before).push(x@));
            assert(items_view(out@) =~= t.take(i + 1));
            i = i + 1;
        }
        let result = if pos < self.items.len() {
            Ok(!self.items[pos].is_pinned)
        } else {
            Err("Pin durumu okunamadı: Query returned no rows".to_string())
        };
        proof {
            assert(t.take(t.len() as int) =~= t);
            assert forall|a: int, b: int| 0 <= a < b < t.len() implies #[trigger] item_order()(
                t[a],
                t[b],
            ) by {
                assert(item_order()(m.items[a], m.items[b]));
            }
        }
        self.items = out;
        assert(self@ =~= (DbView { items: t, ..m }));
        result
    }

    /// Removes every unpinned history row and returns how many there were.
    pub fn clear_history(&mut self) -> (r: Result<u64, String>)
        ensures
            final(self)@ == (DbView { items: select(old(self)@.items, pinned_row()), ..old(self)@ }),
            final(self)@.wf(),
            r == Ok::<u64, String>(select(old(self)@.items, unpinned_row()).len() as u64),
    {
        proof {
            use_type_invariant(&*self);
        }
        let ghost m = self@;
        let ghost s = m.items;
        let mut out: Vec<ClipboardItem> = Vec::new();
        let mut removed: usize = 0;
        let mut i: usize = 0;
        while i < self.items.len()
            invariant
                m == self@,
                s == m.items,
                s.len() == self.items.len(),
                i <= self.items.len(),
                removed <= i,
                items_view(out@) == select(s.take(i as int), pinned_row()),
                removed == select(s.take(i as int), unpinned_row()).len(),
            decreases self.items.len() - i,
        {
            proof {
                lemma_select_step(s, pinned_row(), i as int);
                lemma_select_step(s, unpinned_row(), i as int);
            }
            if self.items[i].is_pinned {
                let x = self.items[i].copy();
                let ghost before = out@;
                out.push(x);
                assert(items_view(out@) =~= items_view(before).push(x@));
            } else {
                removed = removed + 1;
            }
            i = i + 1;
        }
        proof {
            lemma_select_all(s, pinned_row());
            lemma_select_all(s, unpinned_row());
            lemma_select_pairwise(s, pinned_row(), item_order());
        }
        self.items = out;
        assert(self@ =~= (DbView { items: select(s, pinned_row()), ..m }));
        Ok(removed as u64)
    }
}

pub(crate) proof fn lemma_collection_pos(s: Seq<CollectionView>, id: Seq<char>, i: int)
    requires
        0 <= i <= s.len(),
    ensures
        i <= collection_pos(s, id, i) <= s.len(),
        forall|k: int| i <= k < collection_pos(s, id, i) ==> #[trigger] s[k].id != id,
        collection_pos(s, id, i) < s.len() ==> s[collection_pos(s, id, i)].id == id,
    decreases s.len() - i,
{
    if i < s.len() && s[i].id != id {
        lemma_collection_pos(s, id, i + 1);
    }
}

pub(crate) proof fn lemma_entry_pos(s: Seq<EntryView>, id: Seq<char>, i: int)
    requires
        0 <= i <= s.len(),
    ensures
        i <= entry_pos(s, id, i) <= s.len(),
        forall|k: int| i <= k < entry_pos(s, id, i) ==> #[trigger] s[k].item_id != id,
        entry_pos(s, id, i) < s.len() ==> s[entry_pos(s, id, i)].item_id == id,
    decreases s.len() - i,
{
    if i < s.len() && s[i].item_id != id {
        lemma_entry_pos(s, id, i + 1);
    }
}

/// The view of an optional string slice.
pub open spec fn str_opt_view(o: Option<&str>) -> Option<Seq<char>> {
    match o {
        Some(s) => Some(s@),
        None => None,
    }
}

/// A saved entry made of these fields.
pub open spec fn new_entry(
    collection_id: Seq<char>,
    item_id: Seq<char>,
    content: Seq<char>,
    item_type: Seq<char>,
    preview: Option<Seq<char>>,
    added_at: Seq<char>,
) -> EntryView {
    EntryView { collection_id, item_id, content, item_type, preview, added_at }
}

/// The error of creating a collection whose id is taken.
pub open spec fn duplicate_collection_error() -> Seq<char> {
    "Koleksiyon oluşturulamadı: UNIQUE constraint failed: collections.id"@
}

impl DbView {
    /// Adding the collection `c` in its place by creation time.
    pub open spec fn create_collection(self, c: CollectionView) -> DbView {
        DbView { collections: put_collection(self.collections, c), ..self }
    }

    /// Removing the collection `id` together with the entries saved in it.
    pub open spec fn delete_collection(self, id: Seq<char>) -> DbView {
        DbView {
            collections: select(self.collections, collection_not(id)),
            entries: select(self.entries, entry_outside(id)),
            ..self
        }
    }

    /// Saving an entry into a collection (replacing an entry with the same
    /// item id), in its place by time of saving.
    pub open spec fn add_to_collection(self, e: EntryView) -> DbView {
        DbView { entries: put_entry(select(self.entries, entry_not(e.item_id)), e), ..self }
    }

    /// Removing the saved entry `item_id`.
    pub open spec fn remove_from_collection(self, item_id: Seq<char>) -> DbView {
        DbView { entries: select(self.entries, entry_not(item_id)), ..self }
    }

    /// Putting a history row back as it was stored (replacing a row with the
    /// same id), without dropping old rows.
    pub open spec fn restore_item(self, item: ItemView) -> DbView {
        DbView { items: put_item(select(self.items, item_not(item.id)), stored(item)), ..self }
    }

    /// Putting a collection back (replacing one with the same id).
    pub open spec fn restore_collection(self, c: CollectionView) -> DbView {
        DbView { collections: put_collection(select(self.collections, collection_not(c.id)), c), ..self }
    }
}

impl Database {
    /// The collections with `value` as the name (when `set_name`) or as the
    /// colour (otherwise) of the collection `id`.
    fn collections_with(&self, id: &str, value: &str, set_name: bool) -> (out: Vec<Collection>)
        ensures
            collections_view(out@) == if set_name {
                with_name(self@.collections, id@, value@)
            } else {
                with_color(self@.collections, id@, value@)
            },
            pairwise(collections_view(out@), collection_order()),
    {
        proof {
            use_type_invariant(self);
        }
        let ghost m = self@;
        let ghost t = if set_name {
            with_name(m.collections, id@, value@)
        } else {
            with_color(m.collections, id@, value@)
        };
        let mut out: Vec<Collection> = Vec::new();
        let mut i: usize = 0;
        while i < self.collections.len()
            invariant
                m == self@,
                t == (if set_name {
                    with_name(m.collections, id@, value@)
                } else {
                    with_color(m.collections, id@, value@)
                }),
                m.collections.len() == self.collections.len(),
                i <= self.collections.len(),
                collections_view(out@) == t.take(i as int),
            decreases self.collections.len() - i,
        {
            let mut x = self.collections[i].copy();
            assert(m.collections[i as int] == self.collections[i as int]@);
            if str_eq(x.id.as_str(), id) {
                if set_name {
                    x.name = copy_str(value);
                } else {
                    x.color = copy_str(value);
                }
            }
            assert(x@ == t[i as int]);
            let ghost before = out@;
            out.push(x);
            assert(collections_view(out@) =~= collections_view(before).push(x@));
            assert(collections_view(out@) =~= t.take(i + 1));
            i = i + 1;
        }
        proof {
            assert(t.take(t.len() as int) =~= t);
            assert forall|a: int, b: int| 0 <= a < b < t.len() implies #[trigger] collection_order()(
                t[a],
                t[b],
            ) by {
                assert(collection_order()(m.collections[a], m.collections[b]));
            }
        }
        out
    }

    /// Adds `collection`; an error, and no change, when its id is taken.
    pub fn create_collection(&mut self, collection: &Collection) -> (r: Result<(), String>)
        ensures
            r is Ok <==> !old(self)@.has_collection(collection@.id),
            r is Ok ==> final(self)@ == old(self)@.create_collection(collection@),
            r matches Err(e) ==> e@ == duplicate_collection_error() && final(self)@ == old(self)@,
            final(self)@.wf(),
    {
        proof {
            use_type_invariant(&*self);
        }
        let ghost m = self@;
        if self.collection_index(collection.id.as_str()) < self.collections.len() {
            return Err("Koleksiyon oluşturulamadı: UNIQUE constraint failed: collections.id".to_string());
        }
        let p = older_collection_count(&self.collections, collection.created_at.as_str());
        proof {
            assert forall|k: int| 0 <= k < m.collections.len() implies #[trigger] m.collections[k].id
                != collection@.id by {
                lemma_collection_pos(m.collections, collection@.id, 0);
            }
            lemma_put_collection(m.collections, collection@);
            lemma_older_collections(m.collections, collection@.created_at, 0);
        }
        let mut cs: Vec<Collection> = Vec::new();
        std::mem::swap(&mut cs, &mut self.collections);
        let ghost before = cs@;
        cs.insert(p, collection.copy());
        assert(collections_view(cs@) =~= collections_view(before).insert(p as int, collection@));
        self.collections = cs;
        assert(self@ =~= m.create_collection(collection@));
        Ok(())
    }
}

impl Database {
    /// Removes the collection `id` and every entry saved in it.
    pub fn delete_collection(&mut self, id: &str) -> (r: Result<(), String>)
        ensures
            r is Ok,
            final(self)@ == old(self)@.delete_collection(id@),
            final(self)@.wf(),
    {
        proof {
            use_type_invariant(&*self);
        }
        let ghost m = self@;
        let es = entries_except(&self.entries, id, false);
        let cs = collections_without(&self.collections, id);
        proof {
            lemma_select_pairwise(m.entries, entry_outside(id@), entry_order());
            lemma_select_pairwise(m.collections, collection_not(id@), collection_order());
        }
        self.entries = es;
        self.collections = cs;
        assert(self@ =~= m.delete_collection(id@));
        Ok(())
    }

    /// Gives the collection `id` the name `name`.
    pub fn rename_collection(&mut self, id: &str, name: &str) -> (r: Result<(), String>)
        ensures
            r is Ok,
            final(self)@ == (DbView {
                collections: with_name(old(self)@.collections, id@, name@),
                ..old(self)@
            }),
            final(self)@.wf(),
    {
        proof {
            use_type_invariant(&*self);
        }
        let ghost m = self@;
        let cs = self.collections_with(id, name, true);
        self.collections = cs;
        assert(self@ =~= (DbView { collections: with_name(m.collections, id@, name@), ..m }));
        Ok(())
    }

    /// Gives the collection `id` the colour `color`.
    pub fn update_collection_color(&mut self, id: &str, color: &str) -> (r: Result<(), String>)
        ensures
            r is Ok,
            final(self)@ == (DbView {
                collections: with_color(old(self)@.collections, id@, color@),
                ..old(self)@
            }),
            final(self)@.wf(),
    {
        proof {
            use_type_invariant(&*self);
        }
        let ghost m = self@;
        let cs = self.collections_with(id, color, false);
        self.collections = cs;
        assert(self@ =~= (DbView { collections: with_color(m.collections, id@, color@), ..m }));
        Ok(())
    }

    /// Saves an entry into the collection `collection_id` at the time
    /// `added_at`, replacing a saved entry with the same `item_id`. The
    /// collection need not exist.
    pub fn add_to_collection_at(
        &mut self,
        collection_id: &str,
        item_id: &str,
        content: &str,
        item_type: &str,
        preview: Option<&str>,
        added_at: &str,
    ) -> (r: Result<(), String>)
        ensures
            r is Ok,
            final(self)@ == old(self)@.add_to_collection(
                new_entry(collection_id@, item_id@, content@, item_type@, str_opt_view(preview), added_at@),
            ),
            final(self)@.wf(),
    {
        proof {
            use_type_invariant(&*self);
        }
        let ghost m = self@;
        let e = CollectionEntry {
            collection_id: copy_str(collection_id),
            item_id: copy_str(item_id),
            content: copy_str(content),
            item_type: copy_str(item_type),
            preview: match preview {
                Some(p) => Some(copy_str(p)),
                None => None,
            },
            added_at: copy_str(added_at),
        };
        let ghost ev = e@;
        let mut rest = entries_except(&self.entries, item_id, true);
        let ghost rv = entries_view(rest@);
        let p = newer_entry_count(&rest, added_at);
        proof {
            lemma_newer_entries(rv, added_at@, 0);
            lemma_select_pairwise(m.entries, entry_not(item_id@), entry_order());
            lemma_select_members(m.entries, entry_not(item_id@));
            assert forall|k: int| 0 <= k < rv.len() implies #[trigger] rv[k].item_id != ev.item_id by {
                assert(entry_not(item_id@)(rv[k]));
            }
            lemma_put_entry(rv, ev);
        }
        let ghost before = rest@;
        rest.insert(p, e);
        assert(entries_view(rest@) =~= entries_view(before).insert(p as int, ev));
        self.entries = rest;
        assert(self@ =~= m.add_to_collection(ev));
        Ok(())
    }

    /// Saves an entry into the collection `collection_id` at the present
    /// time, replacing a saved entry with the same `item_id`.
    pub fn add_to_collection(
        &mut self,
        collection_id: &str,
        item_id: &str,
        content: &str,
        item_type: &str,
        preview: Option<&str>,
    ) -> (r: Result<(), String>)
        ensures
            r is Ok,
            exists|t: Seq<char>|
                crate::clock::sql_datetime_text(t) && final(self)@ == old(self)@.add_to_collection(
                    #[trigger] new_entry(collection_id@, item_id@, content@, item_type@, str_opt_view(preview), t),
                ),
            final(self)@.wf(),
    {
        let now = crate::clock::now_sql_datetime();
        self.add_to_collection_at(collection_id, item_id, content, item_type, preview, now.as_str())
    }

    /// Puts `content` into the saved entry `item_id`.
    pub fn update_collection_item_content(&mut self, item_id: &str, content: &str) -> (r: Result<
        (),
        String,
    >)
        ensures
            r is Ok,
            final(self)@ == (DbView {
                entries: with_entry_content(old(self)@.entries, item_id@, content@),
                ..old(self)@
            }),
            final(self)@.wf(),
    {
        proof {
            use_type_invariant(&*self);
        }
        let ghost m = self@;
        let ghost t = with_entry_content(m.entries, item_id@, content@);
        let mut out: Vec<CollectionEntry> = Vec::new();
        let mut i: usize = 0;
        while i < self.entries.len()
            invariant
                m == self@,
                t == with_entry_content(m.entries, item_id@, content@),
                m.entries.len() == self.entries.len(),
                i <= self.entries.len(),
                entries_view(out@) == t.take(i as int),
            decreases self.entries.len() - i,
        {
            let mut x = self.entries[i].copy();
            assert(m.entries[i as int] == self.entries[i as int]@);
            if str_eq(x.item_id.as_str(), item_id) {
                x.content = copy_str(content);
            }
            assert(x@ == t[i as int]);
            let ghost before = out@;
            out.push(x);
            assert(entries_view(out@) =~= entries_view(before).push(x@));
            assert(entries_view(out@) =~= t.take(i + 1));
            i = i + 1;
        }
        proof {
            assert(t.take(t.len() as int) =~= t);
            assert forall|a: int, b: int| 0 <= a < b < t.len() implies #[trigger] entry_order()(
                t[a],
                t[b],
            ) by {
                assert(entry_order()(m.entries[a], m.entries[b]));
            }
        }
        self.entries = out;
        assert(self@ =~= (DbView { entries: t, ..m }));
        Ok(())
    }

    /// Removes the saved entry `item_id`, if any.
    pub fn remove_from_collection(&mut self, item_id: &str) -> (r: Result<(), String>)
        ensures
            r is Ok,
            final(self)@ == old(self)@.remove_from_collection(item_id@),
            final(self)@.wf(),
    {
        proof {
            use_type_invariant(&*self);
        }
        let ghost m = self@;
        let es = entries_except(&self.entries, item_id, true);
        proof {
            lemma_select_pairwise(m.entries, entry_not(item_id@), entry_order());
        }
        self.entries = es;
        assert(self@ =~= m.remove_from_collection(item_id@));
        Ok(())
    }

    /// Puts back a history row read from storage (replacing a row with the
    /// same id), without dropping old rows.
    pub fn restore_item(&mut self, item: &ClipboardItem)
        ensures
            final(self)@ == old(self)@.restore_item(item@),
            final(self)@.wf(),
    {
        proof {
            use_type_invariant(&*self);
        }
        let ghost m = self@;
        let mut rest = items_without(&self.items, item.id.as_str());
        let row = ClipboardItem {
            id: item.id.clone(),
            content: item.content.clone(),
            item_type: item.item_type,
            source_app: copy_opt(&item.source_app),
            preview: copy_opt(&item.preview),
            is_pinned: item.is_pinned,
            created_at: item.created_at.clone(),
            collection_color: None,
            title: None,
        };
        let p = newer_item_count(&rest, item.created_at.as_str());
        let ghost rv = items_view(rest@);
        proof {
            lemma_newer_items(rv, item@.created_at, 0);
            lemma_select_pairwise(m.items, item_not(item@.id), item_order());
            lemma_select_members(m.items, item_not(item@.id));
            assert forall|k: int| 0 <= k < rv.len() implies #[trigger] rv[k].id != stored(item@).id by {
                assert(item_not(item@.id)(rv[k]));
            }
            lemma_put_item(rv, stored(item@));
        }
        rest.insert(p, row);
        assert(items_view(rest@) =~= put_item(rv, stored(item@)));
        self.items = rest;
        assert(self@ =~= m.restore_item(item@));
    }

    /// Puts back a collection read from storage (replacing a collection
    /// with the same id).
    pub fn restore_collection(&mut self, collection: &Collection)
        ensures
            final(self)@ == old(self)@.restore_collection(collection@),
            final(self)@.wf(),
    {
        proof {
            use_type_invariant(&*self);
        }
        let ghost m = self@;
        let mut rest = collections_without(&self.collections, collection.id.as_str());
        let ghost rv = collections_view(rest@);
        let p = older_collection_count(&rest, collection.created_at.as_str());
        proof {
            lemma_older_collections(rv, collection@.created_at, 0);
            lemma_select_pairwise(m.collections, collection_not(collection@.id), collection_order());
            lemma_select_members(m.collections, collection_not(collection@.id));
            assert forall|k: int| 0 <= k < rv.len() implies #[trigger] rv[k].id != collection@.id by {
                assert(collection_not(collection@.id)(rv[k]));
            }
            lemma_put_collection(rv, collection@);
        }
        let ghost before = rest@;
        rest.insert(p, collection.copy());
        assert(collections_view(rest@) =~= collections_view(before).insert(p as int, collection@));
        self.collections = rest;
        assert(self@ =~= m.restore_collection(collection@));
    }

    /// The history rows as stored, newest first.
    pub fn stored_items(&self) -> (r: Vec<ClipboardItem>)
        ensures
            items_view(r@) == self@.items,
    {
        let mut out: Vec<ClipboardItem> = Vec::new();
        let mut i: usize = 0;
        while i < self.items.len()
            invariant
                i <= self.items.len(),
                items_view(out@) == items_view(self.items@.take(i as int)),
            decreases self.items.len() - i,
        {
            let x = self.items[i].copy();
            let ghost before = out@;
            out.push(x);
            assert(items_view(out@) =~= items_view(before).push(x@));
            assert(self.items@.take(i + 1) =~= self.items@.take(i as int).push(self.items@[i as int]));
            assert(items_view(self.items@.take(i + 1)) =~= items_view(self.items@.take(i as int)).push(
                self.items@[i as int]@,
            ));
            i = i + 1;
        }
        assert(self.items@.take(self.items.len() as int) =~= self.items@);
        out
    }

    /// The saved entries of all collections, newest first.
    pub fn stored_entries(&self) -> (r: Vec<CollectionEntry>)
        ensures
            entries_view(r@) == self@.entries,
    {
        let mut out: Vec<CollectionEntry> = Vec::new();
        let mut i: usize = 0;
        while i < self.entries.len()
            invariant
                i <= self.entries.len(),
                entries_view(out@) == entries_view(self.entries@.take(i as int)),
            decreases self.entries.len() - i,
        {
            let x = self.entries[i].copy();
            let ghost before = out@;
            out.push(x);
            assert(entries_view(out@) =~= entries_view(before).push(x@));
            assert(self.entries@.take(i + 1) =~= self.entries@.take(i as int).push(
                self.entries@[i as int],
            ));
            assert(entries_view(self.entries@.take(i + 1)) =~= entries_view(
                self.entries@.take(i as int),
            ).push(self.entries@[i as int]@));
            i = i + 1;
        }
        assert(self.entries@.take(self.entries.len() as int) =~= self.entries@);
        out
    }
}

} // verus!
