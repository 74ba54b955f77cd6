//! Properties of the library that span several operations or every state.
use vstd::prelude::*;

use crate::database::{
    item_not, item_order, lemma_prune, pinned_first, pinned_from, pinned_row, prune_from, put_item, stored,
    unpinned_quota, unpinned_row, with_pin_flipped, DbView, SEARCH_LIMIT,
};
use crate::content::{content_kind, is_new_text};
use crate::database::{collection_not, collection_pos, entry_inside, entry_item, entry_not, entry_outside, entry_pos};
use crate::models::{CollectionView, EntryView, ItemView};
use crate::sync::{replay_route, send_route, HttpMethod, QueueView};
use crate::commands::full_sync_of;
use crate::models::{kind_name, ClipboardItemType};
use crate::database::{with_color, with_content, with_entry_content, with_name};
use crate::seqs::{pairwise, lemma_select_everything, lemma_select_members, lemma_select_pairwise, select, window};
use crate::text::{is_ws, lemma_skip_back_bounds, lemma_skip_fwd_bounds, skip_ws_back, skip_ws_fwd, text_lt, trim};

verus! {

proof fn lemma_prune_keeps_pinned(s: Seq<ItemView>, i: int, q: int)
    requires
        0 <= i,
    ensures
        forall|k: int| i <= k < s.len() && s[k].is_pinned ==> prune_from(s, i, q).contains(#[trigger] s[k]),
    decreases s.len() - i,
{
    if i < s.len() {
        let q2 = if s[i].is_pinned {
            q
        } else if q > 0 {
            q - 1
        } else {
            q
        };
        lemma_prune_keeps_pinned(s, i + 1, q2);
        let rest = prune_from(s, i + 1, q2);
        let t = prune_from(s, i, q);
        assert forall|k: int| i <= k < s.len() && s[k].is_pinned implies t.contains(#[trigger] s[k]) by {
            if k == i {
                assert(t[0] == s[i]);
            } else {
                assert(rest.contains(s[k]));
                let w = choose|w: int| 0 <= w < rest.len() && rest[w] == s[k];
                if s[i].is_pinned || q > 0 {
                    assert(t[w + 1] == s[k]);
                } else {
                    assert(t[w] == s[k]);
                }
            }
        }
    }
}

proof fn lemma_prune_size(s: Seq<ItemView>, i: int, q: int)
    requires
        0 <= i,
        0 <= q,
    ensures
        prune_from(s, i, q).len() <= pinned_from(s, i) + q,
        q == 0 ==> forall|k: int| 0 <= k < prune_from(s, i, q).len() ==> #[trigger] prune_from(
            s,
            i,
            q,
        )[k].is_pinned,
    decreases s.len() - i,
{
    if i < s.len() {
        let q2 = if s[i].is_pinned {
            q
        } else if q > 0 {
            q - 1
        } else {
            q
        };
        lemma_prune_size(s, i + 1, q2);
        let rest = prune_from(s, i + 1, q2);
        let t = prune_from(s, i, q);
        if q == 0 {
            assert forall|k: int| 0 <= k < t.len() implies #[trigger] t[k].is_pinned by {
                if s[i].is_pinned {
                    if k > 0 {
                        assert(t[k] == rest[k - 1]);
                    }
                } else {
                    assert(t[k] == rest[k]);
                }
            }
        }
    }
}

/// Saving an entry never drops a pinned entry: every pinned entry of the
/// history with another id is still there afterwards.
pub proof fn law_insert_keeps_pinned(m: DbView, item: ItemView, k: int)
    requires
        0 <= k < m.items.len(),
        m.items[k].is_pinned,
        m.items[k].id != item.id,
    ensures
        m.insert_item(item).items.contains(m.items[k]),
{
    let rest = select(m.items, item_not(item.id));
    lemma_select_members(m.items, item_not(item.id));
    assert(rest.contains(m.items[k]));
    let w = choose|w: int| 0 <= w < rest.len() && rest[w] == m.items[k];
    let p = crate::database::newer_items(rest, stored(item).created_at, 0);
    crate::database::lemma_newer_items(rest, stored(item).created_at, 0);
    rest.insert_ensures(p, stored(item));
    let put = put_item(rest, stored(item));
    let w2 = if w < p {
        w
    } else {
        w + 1
    };
    assert(put[w2] == m.items[k]);
    lemma_prune_keeps_pinned(put, 0, unpinned_quota(put));
}

/// After saving an entry the history holds at most 20
/// entries, unless every entry it holds is pinned.
pub proof fn law_insert_bounded(m: DbView, item: ItemView)
    ensures
        m.insert_item(item).items.len() <= 20 || forall|k: int|
            0 <= k < m.insert_item(item).items.len() ==> #[trigger] m.insert_item(item).items[k].is_pinned,
{
    let put = put_item(select(m.items, item_not(item.id)), stored(item));
    lemma_pinned_from_bounds(put, 0);
    lemma_prune_size(put, 0, unpinned_quota(put));
}

proof fn lemma_pinned_from_bounds(s: Seq<ItemView>, i: int)
    requires
        0 <= i,
    ensures
        0 <= pinned_from(s, i),
    decreases s.len() - i,
{
    if i < s.len() {
        lemma_pinned_from_bounds(s, i + 1);
    }
}

/// Pinning an entry twice leaves the history as it was.
pub proof fn law_toggle_pin_twice(s: Seq<ItemView>, id: Seq<char>)
    ensures
        with_pin_flipped(with_pin_flipped(s, id), id) == s,
{
    assert(with_pin_flipped(with_pin_flipped(s, id), id) =~= s);
}

/// The listing shows every pinned entry before every unpinned one.
pub proof fn law_listing_pinned_first(m: DbView, i: int, j: int)
    requires
        0 <= i < j < m.listing().len(),
        m.listing()[j].is_pinned,
    ensures
        m.listing()[i].is_pinned,
{
    let a = select(m.items, pinned_row());
    let b = select(m.items, unpinned_row());
    lemma_select_members(m.items, pinned_row());
    lemma_select_members(m.items, unpinned_row());
    assert(pinned_first(m.items) == a + b);
    if j >= a.len() {
        assert(m.listing()[j].is_pinned == b[j - a.len()].is_pinned);
        assert(unpinned_row()(b[j - a.len()]));
    }
    if i < a.len() {
        assert(pinned_row()(a[i]));
    }
}

/// Within the pinned entries, and within the others, the listing shows
/// newer entries first.
pub proof fn law_listing_newest_first(m: DbView, i: int, j: int)
    requires
        m.wf(),
        0 <= i < j < m.listing().len(),
        m.listing()[i].is_pinned == m.listing()[j].is_pinned,
    ensures
        !text_lt(m.listing()[i].created_at, m.listing()[j].created_at),
{
    let a = select(m.items, pinned_row());
    let b = select(m.items, unpinned_row());
    lemma_select_members(m.items, pinned_row());
    lemma_select_members(m.items, unpinned_row());
    lemma_select_pairwise(m.items, pinned_row(), item_order());
    lemma_select_pairwise(m.items, unpinned_row(), item_order());
    let s = a + b;
    assert(pinned_first(m.items) == s);
    if j < a.len() {
        assert(item_order()(a[i], a[j]));
    } else if i >= a.len() {
        assert(item_order()(b[i - a.len()], b[j - a.len()]));
    } else {
        assert(pinned_row()(a[i]));
        assert(unpinned_row()(b[j - a.len()]));
    }
}

/// Searching for the empty text gives the first 50 entries of
/// the listing.
pub proof fn law_search_empty_is_listing(m: DbView)
    ensures
        m.search_items(Seq::empty()) == m.get_items(50, 0),
{
    crate::like::lemma_everything_contains_empty();
    lemma_select_everything(m.listing(), crate::database::item_matches(Seq::empty()));
    assert(crate::like::pattern_within_limit(Seq::empty())) by {
        assert(vstd::utf8::encode_utf8(Seq::<char>::empty()) =~= Seq::<u8>::empty());
    }
    let l = m.listing();
    if l.len() == 0 {
        assert(window(l, 0, SEARCH_LIMIT as int) =~= l);
    } else if l.len() <= SEARCH_LIMIT {
        assert(window(l, 0, SEARCH_LIMIT as int) =~= l);
    }
}


/// A saved entry shows in the contents of its collection, when that
/// collection exists.
pub proof fn law_added_entry_listed(m: DbView, e: EntryView)
    requires
        m.has_collection(e.collection_id),
    ensures
        m.add_to_collection(e).collection_items(e.collection_id).contains(
            entry_item(e, m.collections[collection_pos(m.collections, e.collection_id, 0)].color),
        ),
{
    let n = m.add_to_collection(e);
    let rest = select(m.entries, entry_not(e.item_id));
    let p = crate::database::newer_entries(rest, e.added_at, 0);
    crate::database::lemma_newer_entries(rest, e.added_at, 0);
    rest.insert_ensures(p, e);
    assert(n.entries[p] == e);
    lemma_select_members(n.entries, entry_inside(e.collection_id));
    assert(entry_inside(e.collection_id)(n.entries[p]));
    let sel = select(n.entries, entry_inside(e.collection_id));
    assert(sel.contains(e));
    let w = choose|w: int| 0 <= w < sel.len() && sel[w] == e;
    let c = collection_pos(m.collections, e.collection_id, 0);
    assert(n.collection_items(e.collection_id)[w] == entry_item(e, m.collections[c].color));
}

proof fn lemma_no_collection(s: Seq<CollectionView>, id: Seq<char>, i: int)
    requires
        0 <= i <= s.len(),
        forall|k: int| 0 <= k < s.len() ==> #[trigger] s[k].id != id,
    ensures
        collection_pos(s, id, i) == s.len(),
    decreases s.len() - i,
{
    if i < s.len() {
        lemma_no_collection(s, id, i + 1);
    }
}

/// After a collection is deleted it no longer exists and no saved entry
/// names it.
pub proof fn law_deleted_collection_gone(m: DbView, id: Seq<char>)
    ensures
        !m.delete_collection(id).has_collection(id),
        m.delete_collection(id).collection_count(id) == 0,
{
    let n = m.delete_collection(id);
    lemma_select_members(m.collections, collection_not(id));
    assert forall|k: int| 0 <= k < n.collections.len() implies #[trigger] n.collections[k].id != id by {
        assert(collection_not(id)(n.collections[k]));
    }
    lemma_no_collection(n.collections, id, 0);
    lemma_select_members(m.entries, entry_outside(id));
    lemma_select_members(n.entries, entry_inside(id));
    let sel = select(n.entries, entry_inside(id));
    if sel.len() > 0 {
        assert(entry_inside(id)(sel[0]));
        assert(n.entries.contains(sel[0]));
        let w = choose|w: int| 0 <= w < n.entries.len() && n.entries[w] == sel[0];
        assert(entry_outside(id)(n.entries[w]));
    }
}

/// After an entry is taken out of its collection, no saved entry has its
/// item id.
pub proof fn law_removed_entry_gone(m: DbView, item_id: Seq<char>)
    ensures
        entry_pos(m.remove_from_collection(item_id).entries, item_id, 0) == m.remove_from_collection(
            item_id,
        ).entries.len(),
{
    let n = m.remove_from_collection(item_id);
    lemma_select_members(m.entries, entry_not(item_id));
    crate::database::lemma_entry_pos(n.entries, item_id, 0);
    let p = entry_pos(n.entries, item_id, 0);
    if p < n.entries.len() {
        assert(entry_not(item_id)(n.entries[p]));
    }
}

/// The count of an existing collection is the number of entries listed
/// in it.
pub proof fn law_count_is_listed(m: DbView, collection_id: Seq<char>)
    requires
        m.has_collection(collection_id),
    ensures
        m.collection_count(collection_id) == m.collection_items(collection_id).len(),
{
}

/// Trimming twice is trimming once.
pub proof fn law_trim_idempotent(s: Seq<char>)
    ensures
        trim(trim(s)) == trim(s),
{
    let st = skip_ws_fwd(s, 0);
    lemma_skip_fwd_bounds(s, 0);
    let en = skip_ws_back(s, s.len() as int, st);
    lemma_skip_back_bounds(s, s.len() as int, st);
    let t = trim(s);
    assert(t == s.subrange(st, en));
    if t.len() > 0 {
        assert(t[0] == s[st]);
        assert(!is_ws(t[0]));
        assert(skip_ws_fwd(t, 0) == 0);
        assert(t[t.len() - 1] == s[en - 1]);
        assert(skip_ws_back(t, t.len() as int, 0) == t.len());
    } else {
        assert(skip_ws_fwd(t, 0) == 0);
        assert(skip_ws_back(t, 0, 0) == 0);
    }
    assert(trim(t) =~= t);
}

/// The kind of a copied text does not depend on the whitespace around it.
pub proof fn law_kind_ignores_whitespace(s: Seq<char>)
    ensures
        content_kind(trim(s)) == content_kind(s),
{
    law_trim_idempotent(s);
}

/// A text seen last is not recorded again: the watcher records a text
/// only when it differs from the one it saw last.
pub proof fn law_same_text_not_new(text: Seq<char>, stored_last: Option<Seq<char>>)
    ensures
        !is_new_text(Some(text), stored_last, text),
{
}


proof fn lemma_pinned_from_insert(s: Seq<ItemView>, p: int, r: ItemView, i: int)
    requires
        0 <= p <= s.len(),
        0 <= i <= s.len() + 1,
    ensures
        i <= p ==> pinned_from(s.insert(p, r), i) == pinned_from(s, i) + if r.is_pinned {
            1int
        } else {
            0
        },
        i > p ==> pinned_from(s.insert(p, r), i) == pinned_from(s, i - 1),
    decreases s.len() + 1 - i,
{
    s.insert_ensures(p, r);
    if i < s.len() + 1 {
        lemma_pinned_from_insert(s, p, r, i + 1);
    }
}

proof fn lemma_pinned_from_select(s: Seq<ItemView>, keep: spec_fn(ItemView) -> bool)
    ensures
        pinned_from(select(s, keep), 0) <= pinned_from(s, 0),
    decreases s.len(),
{
    if s.len() > 0 {
        let t = s.drop_last();
        lemma_pinned_from_select(t, keep);
        assert(t.insert(t.len() as int, s.last()) =~= s);
        lemma_pinned_from_insert(t, t.len() as int, s.last(), 0);
        let r = select(t, keep);
        if keep(s.last()) {
            assert(r.insert(r.len() as int, s.last()) =~= r.push(s.last()));
            lemma_pinned_from_insert(r, r.len() as int, s.last(), 0);
        }
    }
}

/// What is saved is what is read back: an entry not older than any other
/// becomes the newest entry of the history, unless it is unpinned while
/// 20 or more entries are pinned.
pub proof fn law_insert_newest_read_back(m: DbView, item: ItemView)
    requires
        forall|k: int| 0 <= k < m.items.len() ==> !text_lt(item.created_at, #[trigger] m.items[k].created_at),
        item.is_pinned || pinned_from(m.items, 0) < 20,
    ensures
        m.insert_item(item).items.len() > 0,
        m.insert_item(item).items[0] == stored(item),
        m.insert_item(item).last_content() == Some(item.content),
{
    let rest = select(m.items, item_not(item.id));
    let r = stored(item);
    lemma_select_members(m.items, item_not(item.id));
    if rest.len() > 0 {
        assert(item_not(item.id)(rest[0]));
        assert(m.items.contains(rest[0]));
        let w = choose|w: int| 0 <= w < m.items.len() && m.items[w] == rest[0];
        assert(!text_lt(item.created_at, m.items[w].created_at));
    }
    assert(crate::database::newer_items(rest, r.created_at, 0) == 0);
    let put = put_item(rest, r);
    rest.insert_ensures(0, r);
    assert(put[0] == r);
    lemma_pinned_from_select(m.items, item_not(item.id));
    lemma_pinned_from_insert(rest, 0, r, 0);
    lemma_pinned_from_bounds(put, 1);
    assert(prune_from(put, 0, unpinned_quota(put))[0] == r);
}

/// A created collection is among the collections afterwards.
pub proof fn law_created_collection_listed(m: DbView, c: CollectionView)
    ensures
        m.create_collection(c).collections.contains(c),
{
    let p = crate::database::older_collections(m.collections, c.created_at, 0);
    crate::database::lemma_older_collections(m.collections, c.created_at, 0);
    m.collections.insert_ensures(p, c);
    assert(m.create_collection(c).collections[p] == c);
}

/// The waiting list after each of `items` is queued in turn on `q`, as
/// `SyncManager::enqueue` states one step.
pub open spec fn enqueue_all(q: Seq<QueueView>, items: Seq<QueueView>) -> Seq<QueueView>
    decreases items.len(),
{
    if items.len() == 0 {
        q
    } else {
        enqueue_all(q, items.drop_last()).push(items.last())
    }
}

/// Changes come out in the order they were queued: after queueing `items`
/// one by one, the waiting list (which `drain_queue` returns whole, leaving
/// it empty) is the earlier list followed by `items`.
pub proof fn law_queue_keeps_order(q: Seq<QueueView>, items: Seq<QueueView>)
    ensures
        enqueue_all(q, items) == q + items,
    decreases items.len(),
{
    if items.len() > 0 {
        law_queue_keeps_order(q, items.drop_last());
        assert(q + items =~= (q + items.drop_last()).push(items.last()));
    } else {
        assert(q + items =~= q);
    }
}

/// How many of the rows `i .. k` of `s` are unpinned.
pub open spec fn unpinned_between(s: Seq<ItemView>, i: int, k: int) -> int
    decreases k - i,
{
    if i < k {
        unpinned_between(s, i + 1, k) + if s[i].is_pinned {
            0int
        } else {
            1
        }
    } else {
        0
    }
}

proof fn lemma_unpinned_between_nonneg(s: Seq<ItemView>, i: int, k: int)
    ensures
        unpinned_between(s, i, k) >= 0,
    decreases k - i,
{
    if i < k {
        lemma_unpinned_between_nonneg(s, i + 1, k);
    }
}

proof fn lemma_prune_unpinned(s: Seq<ItemView>, i: int, q: int, k: int)
    requires
        pairwise(s, item_order()),
        0 <= i <= k < s.len(),
        !s[k].is_pinned,
    ensures
        prune_from(s, i, q).contains(s[k]) <==> unpinned_between(s, i, k) < q,
    decreases k - i,
{
    let q2 = if s[i].is_pinned {
        q
    } else if q > 0 {
        q - 1
    } else {
        q
    };
    let rest = prune_from(s, i + 1, q2);
    let t = prune_from(s, i, q);
    lemma_prune(s, i + 1, q2);
    lemma_unpinned_between_nonneg(s, i + 1, k);
    if rest.contains(s[k]) && i == k {
        let w = choose|w: int| 0 <= w < rest.len() && rest[w] == s[k];
        let o = choose|o: int| i + 1 <= o < s.len() && s[o] == #[trigger] rest[w];
        assert(item_order()(s[k], s[o]));
    }
    if i < k {
        lemma_prune_unpinned(s, i + 1, q2, k);
        assert(item_order()(s[i], s[k]));
    }
    if s[i].is_pinned || q > 0 {
        assert(t == seq![s[i]] + rest);
        if rest.contains(s[k]) {
            let w = choose|w: int| 0 <= w < rest.len() && rest[w] == s[k];
            assert(t[w + 1] == s[k]);
        }
        if t.contains(s[k]) && i < k {
            let w = choose|w: int| 0 <= w < t.len() && t[w] == s[k];
            assert(w > 0);
            assert(rest[w - 1] == s[k]);
        }
        if i == k {
            assert(t[0] == s[k]);
        }
    } else {
        assert(t == rest);
    }
}

/// Saving keeps an unpinned entry exactly when it is among the first
/// 20 of the listing of the history with the new entry
/// put in (`s` below): every pinned entry, then the `k`-th entry after the
/// unpinned ones before it.
pub proof fn law_insert_keeps_first_listed(m: DbView, item: ItemView, k: int)
    requires
        m.wf(),
        0 <= k < put_item(select(m.items, item_not(item.id)), stored(item)).len(),
        !put_item(select(m.items, item_not(item.id)), stored(item))[k].is_pinned,
    ensures
        ({
            let s = put_item(select(m.items, item_not(item.id)), stored(item));
            m.insert_item(item).items.contains(s[k]) <==> pinned_from(s, 0) + unpinned_between(s, 0, k)
                < 20
        }),
{
    let rest = select(m.items, item_not(item.id));
    lemma_select_pairwise(m.items, item_not(item.id), item_order());
    lemma_select_members(m.items, item_not(item.id));
    assert forall|x: int| 0 <= x < rest.len() implies #[trigger] rest[x].id != stored(item).id by {
        assert(item_not(item.id)(rest[x]));
    }
    crate::database::lemma_put_item(rest, stored(item));
    let s = put_item(rest, stored(item));
    lemma_prune_unpinned(s, 0, unpinned_quota(s), k);
    lemma_unpinned_between_nonneg(s, 0, k);
    lemma_pinned_from_bounds(s, 0);
}

/// Saving an entry stores it as given: any entry of the history with its
/// id afterwards is the new one, and a pinned new entry is always there.
pub proof fn law_insert_stores_item(m: DbView, item: ItemView)
    ensures
        forall|k: int|
            0 <= k < m.insert_item(item).items.len() && #[trigger] m.insert_item(item).items[k].id
                == item.id ==> m.insert_item(item).items[k] == stored(item),
        item.is_pinned ==> m.insert_item(item).items.contains(stored(item)),
{
    let rest = select(m.items, item_not(item.id));
    lemma_select_members(m.items, item_not(item.id));
    let r = stored(item);
    let p = crate::database::newer_items(rest, r.created_at, 0);
    crate::database::lemma_newer_items(rest, r.created_at, 0);
    rest.insert_ensures(p, r);
    let s = put_item(rest, r);
    let out = m.insert_item(item).items;
    lemma_prune_origin(s, 0, unpinned_quota(s));
    assert forall|k: int| 0 <= k < out.len() && #[trigger] out[k].id == item.id implies out[k] == r by {
        let o = choose|o: int| 0 <= o < s.len() && s[o] == out[k];
        if o < p {
            assert(item_not(item.id)(rest[o]));
        } else if o > p {
            assert(item_not(item.id)(rest[o - 1]));
        }
    }
    if item.is_pinned {
        assert(s[p] == r);
        lemma_prune_keeps_pinned(s, 0, unpinned_quota(s));
    }
}

/// Every row that pruning keeps is a row of `s` from `i` on.
proof fn lemma_prune_origin(s: Seq<ItemView>, i: int, q: int)
    requires
        0 <= i,
    ensures
        forall|k: int|
            0 <= k < prune_from(s, i, q).len() ==> exists|o: int|
                i <= o < s.len() && s[o] == #[trigger] prune_from(s, i, q)[k],
    decreases s.len() - i,
{
    if i < s.len() {
        let q2 = if s[i].is_pinned {
            q
        } else if q > 0 {
            q - 1
        } else {
            q
        };
        lemma_prune_origin(s, i + 1, q2);
        let rest = prune_from(s, i + 1, q2);
        let t = prune_from(s, i, q);
        assert forall|k: int| 0 <= k < t.len() implies exists|o: int|
            i <= o < s.len() && s[o] == #[trigger] t[k] by {
            if s[i].is_pinned || q > 0 {
                if k == 0 {
                    assert(s[i] == t[0]);
                } else {
                    assert(t[k] == rest[k - 1]);
                }
            } else {
                assert(t[k] == rest[k]);
            }
        }
    }
}

// ===== What each operation returns, in terms of its inputs =====

/// A page of the listing shows stored history rows as they were saved:
/// every row of `get_items` has the id, content, kind, source, preview,
/// pin and time of a row of the history; only the colour of its collection
/// and the title are the listing's own.
pub proof fn law_listing_keeps_stored_fields(m: DbView, limit: int, offset: int, j: int)
    requires
        0 <= offset,
        0 <= limit,
        0 <= j < m.get_items(limit, offset).len(),
    ensures
        exists|k: int|
            0 <= k < m.items.len() && {
                let r = m.get_items(limit, offset)[j];
                let s = #[trigger] m.items[k];
                &&& r.id == s.id
                &&& r.content == s.content
                &&& r.item_type == s.item_type
                &&& r.source_app == s.source_app
                &&& r.preview == s.preview
                &&& r.is_pinned == s.is_pinned
                &&& r.created_at == s.created_at
            },
{
    let l = m.listing();
    let pf = pinned_first(m.items);
    let a = select(m.items, pinned_row());
    let b = select(m.items, unpinned_row());
    lemma_select_members(m.items, pinned_row());
    lemma_select_members(m.items, unpinned_row());
    let i = offset + j;
    assert(l.len() == pf.len());
    assert(pf.len() == a.len() + b.len());
    assert(0 <= i < l.len());
    assert(m.get_items(limit, offset)[j] == l[i]);
    assert(l[i] == crate::database::listed(m, pf[i]));
    let x = pf[i];
    if i < a.len() {
        assert(x == a[i]);
        assert(pinned_row()(a[i]) && m.items.contains(a[i]));
    } else {
        let w = i - a.len();
        assert(0 <= w < b.len());
        assert(x == b[w]);
        lemma_select_members(m.items, unpinned_row());
        assert(unpinned_row()(b[w]));
        assert(m.items.contains(b[w]));
    }
    let k = choose|k: int| 0 <= k < m.items.len() && m.items[k] == x;
    assert(m.items[k] == x);
}

/// The listing shows every row of the history, pinned or not.
pub proof fn law_listing_shows_every_row(m: DbView, k: int)
    requires
        0 <= k < m.items.len(),
    ensures
        exists|j: int|
            0 <= j < m.listing().len() && (#[trigger] m.listing()[j]).id == m.items[k].id
                && m.listing()[j].content == m.items[k].content,
{
    let a = select(m.items, pinned_row());
    let b = select(m.items, unpinned_row());
    lemma_select_members(m.items, pinned_row());
    lemma_select_members(m.items, unpinned_row());
    let pf = pinned_first(m.items);
    let x = m.items[k];
    if x.is_pinned {
        assert(pinned_row()(x));
        assert(a.contains(x));
        let w = choose|w: int| 0 <= w < a.len() && a[w] == x;
        assert(pf[w] == x);
        assert(m.listing()[w] == crate::database::listed(m, x));
    } else {
        assert(unpinned_row()(x));
        assert(b.contains(x));
        let w = choose|w: int| 0 <= w < b.len() && b[w] == x;
        assert(pf[a.len() + w] == x);
        assert(m.listing()[a.len() + w] == crate::database::listed(m, x));
    }
}

/// The kind of a copied text follows from how its trimmed text begins: a
/// link when it begins with `http://`, `https://` or `www.`; otherwise a
/// file path when its second and third characters are `:\` or it begins
/// with `\\`; plain text in every other case.
pub proof fn law_kind_by_leading_text(text: Seq<char>)
    ensures
        ({
            let u = trim(text);
            let link = (u.len() >= 7 && u.subrange(0, 7) == seq!['h', 't', 't', 'p', ':', '/', '/'])
                || (u.len() >= 8 && u.subrange(0, 8) == seq!['h', 't', 't', 'p', 's', ':', '/', '/'])
                || (u.len() >= 4 && u.subrange(0, 4) == seq!['w', 'w', 'w', '.']);
            let path = (u.len() >= 3 && u[1] == ':' && u[2] == '\\') || (u.len() >= 2 && u[0] == '\\'
                && u[1] == '\\');
            &&& (content_kind(text) == ClipboardItemType::Link <==> link)
            &&& (content_kind(text) == ClipboardItemType::FilePath <==> !link && path)
            &&& (content_kind(text) == ClipboardItemType::Text <==> !link && !path)
        }),
{
    reveal_strlit("http://");
    reveal_strlit("https://");
    reveal_strlit("www.");
    reveal_strlit("\\\\");
    let u = trim(text);
    assert("http://"@ =~= seq!['h', 't', 't', 'p', ':', '/', '/']);
    assert("https://"@ =~= seq!['h', 't', 't', 'p', 's', ':', '/', '/']);
    assert("www."@ =~= seq!['w', 'w', 'w', '.']);
    assert("\\\\"@ =~= seq!['\\', '\\']);
    if u.len() >= 2 {
        if u[0] == '\\' && u[1] == '\\' {
            assert(u.subrange(0, 2) =~= seq!['\\', '\\']);
        }
        if u.subrange(0, 2) == seq!['\\', '\\'] {
            assert(u.subrange(0, 2)[0] == u[0]);
            assert(u.subrange(0, 2)[1] == u[1]);
        }
    }
}

/// A copied time or a note with a colon is plain text: `9:30 standup`.
pub proof fn law_colon_text_is_plain()
    ensures
        content_kind(seq!['9', ':', '3', '0', ' ', 's', 't', 'a', 'n', 'd', 'u', 'p']) == ClipboardItemType::Text,
{
    let t = seq!['9', ':', '3', '0', ' ', 's', 't', 'a', 'n', 'd', 'u', 'p'];
    law_trim_keeps_inner(t);
    law_kind_by_leading_text(t);
    let u = trim(t);
    assert(u[2] == '3');
    assert(u[0] == '9');
    assert(u.subrange(0, 4)[0] == '9');
    assert(u.len() >= 7 ==> u.subrange(0, 7)[0] == '9');
    assert(u.len() >= 8 ==> u.subrange(0, 8)[0] == '9');
}

/// Trimming takes off whitespace at both ends and nothing else: the result
/// is a run `s[a..b]` of the text, everything before `a` and from `b` on is
/// whitespace, and the run neither begins nor ends with whitespace.
pub proof fn law_trim_keeps_inner(s: Seq<char>)
    ensures
        exists|a: int, b: int|
            {
                &&& 0 <= a <= b <= s.len()
                &&& #[trigger] s.subrange(a, b) == trim(s)
                &&& forall|k: int| 0 <= k < a ==> is_ws(#[trigger] s[k])
                &&& forall|k: int| b <= k < s.len() ==> is_ws(#[trigger] s[k])
                &&& a < b ==> !is_ws(s[a]) && !is_ws(s[b - 1])
            },
        trim(s).len() > 0 && !is_ws(s[0]) ==> trim(s)[0] == s[0],
{
    let a = skip_ws_fwd(s, 0);
    lemma_skip_fwd_bounds(s, 0);
    let b = skip_ws_back(s, s.len() as int, a);
    lemma_skip_back_bounds(s, s.len() as int, a);
    assert(s.subrange(a, b) == trim(s));
    if trim(s).len() > 0 && !is_ws(s[0]) {
        assert(a == 0);
    }
}

/// Only deleting changes are sent with `DELETE`: deleting a collection and
/// taking an entry out of one. Renaming and recolouring a collection are
/// sent with `PUT` to the collection's own address, both as they happen
/// and when replayed.
pub proof fn law_only_deletions_delete(api: Seq<char>, action: Seq<char>, local_id: Seq<char>)
    ensures
        send_route(api, action, local_id) matches Some(r) && r.0 == HttpMethod::Delete ==> action
            == "delete_collection"@ || action == "remove_from_collection"@,
        replay_route(api, action, local_id) matches Some(r) && r.0 == HttpMethod::Delete ==> action
            == "delete_collection"@ || action == "remove_from_collection"@,
        action == "rename_collection"@ || action == "update_color"@ ==> {
            &&& send_route(api, action, local_id) matches Some(r) && r.0 == HttpMethod::Put && r.1
                == api + "/collections/local/"@ + local_id
            &&& replay_route(api, action, local_id) matches Some(r) && r.0 == HttpMethod::Put && r.1
                == api + "/collections/local/"@ + local_id
        },
        action == "delete_collection"@ ==> {
            &&& send_route(api, action, local_id) matches Some(r) && r.0 == HttpMethod::Delete
            &&& replay_route(api, action, local_id) matches Some(r) && r.0 == HttpMethod::Delete
        },
{
    reveal_strlit("push_clipboard");
    reveal_strlit("create_collection");
    reveal_strlit("delete_collection");
    reveal_strlit("rename_collection");
    reveal_strlit("update_color");
    reveal_strlit("add_to_collection");
    reveal_strlit("remove_from_collection");
    reveal_strlit("edit_sync_item");
    reveal_strlit("edit_collection_item");
    if action == "rename_collection"@ || action == "update_color"@ || action == "delete_collection"@ {
        assert(action[0] != "push_clipboard"@[0]);
        assert(action[0] != "create_collection"@[0]);
        if action != "delete_collection"@ {
            assert(action[0] != "delete_collection"@[0]);
        }
    }
}

/// A full sync sends the first 20 entries of the listing,
/// pinned or not, each as its content and kind name, in listing order;
/// and every collection, oldest first, with its id, name, colour and the
/// content and kind name of each of its entries.
pub proof fn law_full_sync_sends_listed_page(m: DbView)
    ensures
        ({
            let page = m.get_items(20, 0);
            let f = full_sync_of(m);
            &&& f.clipboard_items.len() == page.len()
            &&& forall|k: int|
                0 <= k < page.len() ==> #[trigger] f.clipboard_items[k] == (
                    page[k].content,
                    kind_name(page[k].item_type),
                )
            &&& f.collections.len() == m.collections.len()
            &&& forall|k: int|
                0 <= k < m.collections.len() ==> {
                    let c = #[trigger] f.collections[k];
                    let items = m.collection_items(m.collections[k].id);
                    &&& c.id == m.collections[k].id
                    &&& c.name == m.collections[k].name
                    &&& c.color == m.collections[k].color
                    &&& c.items.len() == items.len()
                    &&& forall|i: int|
                        0 <= i < items.len() ==> #[trigger] c.items[i] == (
                            items[i].content,
                            kind_name(items[i].item_type),
                        )
                }
        }),
{
}

/// Renaming touches only the named collection: it takes the new name and
/// keeps its id, colour and time; every other collection stays as it was.
pub proof fn law_rename_touches_only_named(s: Seq<CollectionView>, id: Seq<char>, name: Seq<char>)
    ensures
        with_name(s, id, name).len() == s.len(),
        forall|k: int|
            0 <= k < s.len() ==> (s[k].id != id ==> #[trigger] with_name(s, id, name)[k] == s[k]) && (
            s[k].id == id ==> with_name(s, id, name)[k] == CollectionView { name: name, ..s[k] }),
{
}

/// Recolouring touches only the named collection: it takes the new colour
/// and keeps its id, name and time; every other collection stays as it was.
pub proof fn law_recolour_touches_only_named(s: Seq<CollectionView>, id: Seq<char>, color: Seq<char>)
    ensures
        with_color(s, id, color).len() == s.len(),
        forall|k: int|
            0 <= k < s.len() ==> (s[k].id != id ==> #[trigger] with_color(s, id, color)[k] == s[k]) && (
            s[k].id == id ==> with_color(s, id, color)[k] == CollectionView { color: color, ..s[k] }),
{
}

/// Editing an entry's content touches only rows with its id, and only
/// their content.
pub proof fn law_edit_touches_only_named(s: Seq<ItemView>, id: Seq<char>, content: Seq<char>)
    ensures
        with_content(s, id, content).len() == s.len(),
        forall|k: int|
            0 <= k < s.len() ==> (s[k].id != id ==> #[trigger] with_content(s, id, content)[k] == s[k])
                && (s[k].id == id ==> with_content(s, id, content)[k] == ItemView {
                content: content,
                ..s[k]
            }),
{
}

/// Editing a saved entry's content touches only entries with its item id,
/// and only their content.
pub proof fn law_edit_saved_touches_only_named(s: Seq<EntryView>, item_id: Seq<char>, content: Seq<char>)
    ensures
        with_entry_content(s, item_id, content).len() == s.len(),
        forall|k: int|
            0 <= k < s.len() ==> (s[k].item_id != item_id ==> #[trigger] with_entry_content(
                s,
                item_id,
                content,
            )[k] == s[k]) && (s[k].item_id == item_id ==> with_entry_content(s, item_id, content)[k]
                == EntryView { content: content, ..s[k] }),
{
}

/// Pinning touches only rows with the id, and only their pin, which flips.
pub proof fn law_pin_touches_only_named(s: Seq<ItemView>, id: Seq<char>)
    ensures
        with_pin_flipped(s, id).len() == s.len(),
        forall|k: int|
            0 <= k < s.len() ==> (s[k].id != id ==> #[trigger] with_pin_flipped(s, id)[k] == s[k]) && (
            s[k].id == id ==> with_pin_flipped(s, id)[k] == ItemView {
                is_pinned: !s[k].is_pinned,
                ..s[k]
            }),
{
}

} // verus!
