//! What the operations give back, stated over all inputs in terms of those
//! inputs: which rows a deletion, a clearing or a search leaves or finds,
//! what a card preview holds, which monitor is chosen, and how the two
//! ways of sending a change to the sync service relate.
use vstd::prelude::*;

use crate::content::{captured, content_kind, preview_of, scheme_sep_from, slash_from, last_sep_before};
use crate::database::{
    entry_hit, entry_hits, history_hits, in_color, item_matches, item_not, listed, merge_newest,
    pinned_row, unpinned_row, DbView,
};
use crate::layout::{monitor_pos, MonitorArea};
use crate::like::{contains_pattern, like};
use crate::models::{ClipboardItemType, EntryView, ItemView};
use crate::seqs::{lemma_select_members, pairwise, select};
use crate::sync::{replay_route, send_route};

verus! {

// ===== Selections and merges keep their elements =====

/// Every element of `s.filter_map(f)` is what `f` gives for an element of
/// `s`.
proof fn lemma_filter_map_origin<A, B>(s: Seq<A>, f: spec_fn(A) -> Option<B>)
    ensures
        forall|k: int|
            0 <= k < s.filter_map(f).len() ==> exists|j: int|
                0 <= j < s.len() && f(s[j]) == Some(#[trigger] s.filter_map(f)[k]),
    decreases s.len(),
{
    if s.len() > 0 {
        let t = s.drop_last();
        lemma_filter_map_origin(t, f);
        let tf = t.filter_map(f);
        let r = s.filter_map(f);
        assert forall|k: int| 0 <= k < r.len() implies exists|j: int|
            0 <= j < s.len() && f(s[j]) == Some(#[trigger] r[k]) by {
            match f(s.last()) {
                Some(x) => {
                    assert(r == tf + seq![x]);
                },
                None => {
                    assert(r == tf);
                },
            }
            if k < tf.len() {
                assert(r[k] == tf[k]);
                let j = choose|j: int| 0 <= j < t.len() && f(t[j]) == Some(#[trigger] tf[k]);
                assert(s[j] == t[j]);
            } else {
                assert(f(s[s.len() - 1]) == Some(r[k]));
            }
        }
    }
}

/// Every element of a merge comes from one of the two runs.
proof fn lemma_merge_origin(a: Seq<ItemView>, b: Seq<ItemView>)
    ensures
        forall|k: int|
            0 <= k < merge_newest(a, b).len() ==> a.contains(#[trigger] merge_newest(a, b)[k])
                || b.contains(merge_newest(a, b)[k]),
    decreases a.len() + b.len(),
{
    let r = merge_newest(a, b);
    if a.len() == 0 || b.len() == 0 {
        assert forall|k: int| 0 <= k < r.len() implies a.contains(#[trigger] r[k]) || b.contains(
            r[k],
        ) by {
            if a.len() == 0 {
                assert(b[k] == r[k]);
            } else {
                assert(a[k] == r[k]);
            }
        }
    } else if crate::text::text_lt(a[0].created_at, b[0].created_at) {
        let b1 = b.drop_first();
        lemma_merge_origin(a, b1);
        assert forall|k: int| 0 <= k < r.len() implies a.contains(#[trigger] r[k]) || b.contains(
            r[k],
        ) by {
            if k == 0 {
                assert(b[0] == r[0]);
            } else {
                let x = merge_newest(a, b1)[k - 1];
                assert(r[k] == x);
                if b1.contains(x) {
                    let w = choose|w: int| 0 <= w < b1.len() && b1[w] == x;
                    assert(b[w + 1] == x);
                }
            }
        }
    } else {
        let a1 = a.drop_first();
        lemma_merge_origin(a1, b);
        assert forall|k: int| 0 <= k < r.len() implies a.contains(#[trigger] r[k]) || b.contains(
            r[k],
        ) by {
            if k == 0 {
                assert(a[0] == r[0]);
            } else {
                let x = merge_newest(a1, b)[k - 1];
                assert(r[k] == x);
                if a1.contains(x) {
                    let w = choose|w: int| 0 <= w < a1.len() && a1[w] == x;
                    assert(a[w + 1] == x);
                }
            }
        }
    }
}

/// The `k`-th element of a selection is kept by `keep` and is in `s`.
proof fn lemma_select_elem<A>(s: Seq<A>, keep: spec_fn(A) -> bool, k: int)
    requires
        0 <= k < select(s, keep).len(),
    ensures
        keep(select(s, keep)[k]),
        s.contains(select(s, keep)[k]),
{
    lemma_select_members(s, keep);
    assert(keep(select(s, keep)[k]) && s.contains(select(s, keep)[k]));
}

proof fn lemma_select_partition<A>(s: Seq<A>, keep: spec_fn(A) -> bool)
    ensures
        select(s, keep).len() + select(s, |x: A| !keep(x)).len() == s.len(),
    decreases s.len(),
{
    if s.len() > 0 {
        lemma_select_partition(s.drop_last(), keep);
    }
}

// ===== The history =====

/// Deleting an entry removes exactly the rows with its id: none is left,
/// and every other row stays.
pub proof fn law_delete_removes_only_named(m: DbView, id: Seq<char>)
    ensures
        ({
            let r = select(m.items, item_not(id));
            &&& forall|k: int| 0 <= k < r.len() ==> (#[trigger] r[k]).id != id && m.items.contains(r[k])
            &&& forall|k: int| 0 <= k < m.items.len() && m.items[k].id != id ==> r.contains(
                #[trigger] m.items[k],
            )
        }),
{
    let r = select(m.items, item_not(id));
    lemma_select_members(m.items, item_not(id));
    assert forall|k: int| 0 <= k < r.len() implies (#[trigger] r[k]).id != id && m.items.contains(r[k]) by {
        assert(item_not(id)(r[k]));
    }
    assert forall|k: int| 0 <= k < m.items.len() && m.items[k].id != id implies r.contains(
        #[trigger] m.items[k],
    ) by {
        assert(item_not(id)(m.items[k]));
    }
}

/// Clearing the history keeps exactly the pinned rows, and the count it
/// reports is the number of rows it removed.
pub proof fn law_clear_keeps_only_pinned(m: DbView)
    ensures
        ({
            let kept = select(m.items, pinned_row());
            &&& forall|k: int| 0 <= k < kept.len() ==> (#[trigger] kept[k]).is_pinned && m.items.contains(kept[k])
            &&& forall|k: int| 0 <= k < m.items.len() && m.items[k].is_pinned ==> kept.contains(
                #[trigger] m.items[k],
            )
            &&& select(m.items, unpinned_row()).len() == m.items.len() - kept.len()
        }),
{
    let kept = select(m.items, pinned_row());
    lemma_select_members(m.items, pinned_row());
    assert forall|k: int| 0 <= k < kept.len() implies (#[trigger] kept[k]).is_pinned && m.items.contains(kept[k]) by {
        assert(pinned_row()(kept[k]));
    }
    assert forall|k: int| 0 <= k < m.items.len() && m.items[k].is_pinned implies kept.contains(
        #[trigger] m.items[k],
    ) by {
        assert(pinned_row()(m.items[k]));
    }
    lemma_select_partition(m.items, pinned_row());
    assert(select(m.items, unpinned_row()) == select(m.items, |x: ItemView| !pinned_row()(x))) by {
        assert(unpinned_row() =~= (|x: ItemView| !pinned_row()(x)));
    }
}

/// A search gives at most 50 rows, each a row of the listing
/// whose content contains the query (as SQL `LIKE '%query%'`).
pub proof fn law_search_finds_matching_listed_rows(m: DbView, query: Seq<char>)
    ensures
        m.search_items(query).len() <= 50,
        forall|k: int|
            0 <= k < m.search_items(query).len() ==> like(
                contains_pattern(query),
                (#[trigger] m.search_items(query)[k]).content,
            ) && m.listing().contains(m.search_items(query)[k]),
{
    let sel = select(m.listing(), item_matches(query));
    lemma_select_members(m.listing(), item_matches(query));
    let r = m.search_items(query);
    assert forall|k: int| 0 <= k < r.len() implies like(contains_pattern(query), (#[trigger] r[k]).content)
        && m.listing().contains(r[k]) by {
        assert(r[k] == sel[k]);
        assert(item_matches(query)(sel[k]));
    }
}

/// Searching everywhere gives at most 50 rows, each containing
/// the query and, when a colour is given, listed under it. Each is either
/// a history row as listed or a saved entry of an existing collection.
pub proof fn law_search_all_finds_matching_rows(m: DbView, query: Seq<char>, color: Option<Seq<char>>)
    ensures
        m.search_all(query, color).len() <= 50,
        forall|k: int|
            0 <= k < m.search_all(query, color).len() ==> {
                let r = #[trigger] m.search_all(query, color)[k];
                &&& like(contains_pattern(query), r.content)
                &&& (color matches Some(c) ==> r.collection_color == Some(c))
                &&& (exists|j: int| 0 <= j < m.items.len() && r == listed(m, #[trigger] m.items[j]))
                    || (exists|j: int|
                    0 <= j < m.entries.len() && r.id == (#[trigger] m.entries[j]).item_id && r.content
                        == m.entries[j].content && r.created_at == m.entries[j].added_at
                        && r.preview == m.entries[j].preview)
            },
{
    let h = history_hits(m, query, color);
    let e = entry_hits(m, query, color);
    let mg = merge_newest(h, e);
    lemma_merge_origin(h, e);
    let ls = crate::database::listed_seq(m, m.items);
    let s1 = select(ls, item_matches(query));
    lemma_select_members(ls, item_matches(query));
    lemma_select_members(s1, in_color(color));
    lemma_filter_map_origin(m.entries, entry_hit(m, query, color));
    let r = m.search_all(query, color);
    assert forall|k: int| 0 <= k < r.len() implies {
        let x = #[trigger] r[k];
        &&& like(contains_pattern(query), x.content)
        &&& (color matches Some(c) ==> x.collection_color == Some(c))
        &&& (exists|j: int| 0 <= j < m.items.len() && x == listed(m, #[trigger] m.items[j]))
            || (exists|j: int|
            0 <= j < m.entries.len() && x.id == (#[trigger] m.entries[j]).item_id && x.content
                == m.entries[j].content && x.created_at == m.entries[j].added_at && x.preview
                == m.entries[j].preview)
    } by {
        let x = r[k];
        assert(x == mg[k]);
        if h.contains(x) {
            let w = choose|w: int| 0 <= w < h.len() && h[w] == x;
            lemma_select_elem(s1, in_color(color), w);
            let w1 = choose|w1: int| 0 <= w1 < s1.len() && s1[w1] == x;
            lemma_select_elem(ls, item_matches(query), w1);
            let j = choose|j: int| 0 <= j < ls.len() && ls[j] == x;
            assert(x == listed(m, m.items[j]));
        } else {
            assert(e.contains(x));
            let w = choose|w: int| 0 <= w < e.len() && e[w] == x;
            let j = choose|j: int|
                0 <= j < m.entries.len() && entry_hit(m, query, color)(m.entries[j]) == Some(
                    #[trigger] e[w],
                );
            assert(entry_hit(m, query, color)(m.entries[j]) == Some(x));
            assert(x.id == m.entries[j].item_id);
        }
    }
}

/// The rows of a collection are its saved entries: each has the entry's
/// item id, content, preview and time of saving, the kind its stored name
/// stands for, and the collection's colour.
pub proof fn law_collection_rows_are_its_entries(m: DbView, collection_id: Seq<char>)
    ensures
        forall|k: int|
            0 <= k < m.collection_items(collection_id).len() ==> exists|j: int|
                0 <= j < m.entries.len() && {
                    let r = #[trigger] m.collection_items(collection_id)[k];
                    let e = #[trigger] m.entries[j];
                    &&& e.collection_id == collection_id
                    &&& r.id == e.item_id
                    &&& r.content == e.content
                    &&& r.preview == e.preview
                    &&& r.created_at == e.added_at
                    &&& r.item_type == crate::models::kind_from_name(e.item_type)
                    &&& !r.is_pinned
                    &&& r.collection_color == Some(
                        m.collections[crate::database::collection_pos(m.collections, collection_id, 0)].color,
                    )
                },
{
    let sel = select(m.entries, crate::database::entry_inside(collection_id));
    lemma_select_members(m.entries, crate::database::entry_inside(collection_id));
    let r = m.collection_items(collection_id);
    assert forall|k: int| 0 <= k < r.len() implies exists|j: int|
        0 <= j < m.entries.len() && {
            let x = #[trigger] r[k];
            let e = #[trigger] m.entries[j];
            &&& e.collection_id == collection_id
            &&& x.id == e.item_id
            &&& x.content == e.content
            &&& x.preview == e.preview
            &&& x.created_at == e.added_at
            &&& x.item_type == crate::models::kind_from_name(e.item_type)
            &&& !x.is_pinned
            &&& x.collection_color == Some(
                m.collections[crate::database::collection_pos(m.collections, collection_id, 0)].color,
            )
        } by {
        lemma_select_elem(m.entries, crate::database::entry_inside(collection_id), k);
        let j = choose|j: int| 0 <= j < m.entries.len() && m.entries[j] == sel[k];
        assert(m.entries[j] == sel[k]);
    }
}

// ===== Newest first =====

/// Of two rows, the first is not older than the second.
pub open spec fn not_older() -> spec_fn(ItemView, ItemView) -> bool {
    |a: ItemView, b: ItemView| !crate::text::text_lt(a.created_at, b.created_at)
}

proof fn lemma_filter_map_order<A>(s: Seq<A>, f: spec_fn(A) -> Option<ItemView>)
    requires
        forall|i: int, j: int|
            0 <= i < j < s.len() && #[trigger] f(s[i]) is Some && #[trigger] f(s[j]) is Some ==> not_older()(
                f(s[i])->0,
                f(s[j])->0,
            ),
    ensures
        pairwise(s.filter_map(f), not_older()),
    decreases s.len(),
{
    if s.len() > 0 {
        let t = s.drop_last();
        assert forall|i: int, j: int|
            0 <= i < j < t.len() && #[trigger] f(t[i]) is Some && #[trigger] f(t[j]) is Some implies not_older()(
                f(t[i])->0,
                f(t[j])->0,
            ) by {
            assert(t[i] == s[i] && t[j] == s[j]);
        }
        lemma_filter_map_order(t, f);
        lemma_filter_map_origin(t, f);
        let tf = t.filter_map(f);
        match f(s.last()) {
            Some(y) => {
                let r = s.filter_map(f);
                assert(r == tf + seq![y]);
                assert forall|i: int, j: int| 0 <= i < j < r.len() implies #[trigger] not_older()(r[i], r[j]) by {
                    if j < tf.len() {
                        assert(r[i] == tf[i] && r[j] == tf[j]);
                    } else {
                        assert(r[i] == tf[i]);
                        let w = choose|w: int| 0 <= w < t.len() && f(t[w]) == Some(#[trigger] tf[i]);
                        assert(s[w] == t[w]);
                        assert(f(s[w]) is Some && f(s[s.len() - 1]) is Some);
                    }
                }
            },
            None => {
                assert(s.filter_map(f) == tf);
            },
        }
    }
}

proof fn lemma_merge_order(a: Seq<ItemView>, b: Seq<ItemView>)
    requires
        pairwise(a, not_older()),
        pairwise(b, not_older()),
    ensures
        pairwise(merge_newest(a, b), not_older()),
    decreases a.len() + b.len(),
{
    crate::text::lemma_text_order();
    let r = merge_newest(a, b);
    if a.len() == 0 || b.len() == 0 {
    } else if crate::text::text_lt(a[0].created_at, b[0].created_at) {
        let b1 = b.drop_first();
        assert(pairwise(b1, not_older())) by {
            assert forall|i: int, j: int| 0 <= i < j < b1.len() implies #[trigger] not_older()(b1[i], b1[j]) by {
                assert(not_older()(b[i + 1], b[j + 1]));
            }
        }
        lemma_merge_order(a, b1);
        lemma_merge_origin(a, b1);
        let rest = merge_newest(a, b1);
        assert forall|i: int, j: int| 0 <= i < j < r.len() implies #[trigger] not_older()(r[i], r[j]) by {
            if i > 0 {
                assert(r[i] == rest[i - 1] && r[j] == rest[j - 1]);
            } else {
                let x = rest[j - 1];
                assert(r[j] == x);
                if a.contains(x) {
                    let w = choose|w: int| 0 <= w < a.len() && a[w] == x;
                    if w > 0 {
                        assert(not_older()(a[0], a[w]));
                    }
                } else {
                    let w = choose|w: int| 0 <= w < b1.len() && b1[w] == x;
                    assert(not_older()(b[0], b[w + 1]));
                }
            }
        }
    } else {
        let a1 = a.drop_first();
        assert(pairwise(a1, not_older())) by {
            assert forall|i: int, j: int| 0 <= i < j < a1.len() implies #[trigger] not_older()(a1[i], a1[j]) by {
                assert(not_older()(a[i + 1], a[j + 1]));
            }
        }
        lemma_merge_order(a1, b);
        lemma_merge_origin(a1, b);
        let rest = merge_newest(a1, b);
        assert forall|i: int, j: int| 0 <= i < j < r.len() implies #[trigger] not_older()(r[i], r[j]) by {
            if i > 0 {
                assert(r[i] == rest[i - 1] && r[j] == rest[j - 1]);
            } else {
                let x = rest[j - 1];
                assert(r[j] == x);
                if a1.contains(x) {
                    let w = choose|w: int| 0 <= w < a1.len() && a1[w] == x;
                    assert(not_older()(a[0], a[w + 1]));
                } else {
                    let w = choose|w: int| 0 <= w < b.len() && b[w] == x;
                    if w > 0 {
                        assert(not_older()(b[0], b[w]));
                        let (p, q, z) = (a[0].created_at, b[0].created_at, b[w].created_at);
                        if crate::text::text_lt(p, z) {
                            if crate::text::text_lt(q, p) {
                                assert(crate::text::text_lt(q, z));
                            } else {
                                assert(p == q);
                            }
                        }
                    }
                }
            }
        }
    }
}

/// Searching everywhere lists its rows newest first: no row is older than
/// the one after it.
pub proof fn law_search_all_newest_first(m: DbView, query: Seq<char>, color: Option<Seq<char>>)
    requires
        m.wf(),
    ensures
        forall|i: int, j: int|
            0 <= i < j < m.search_all(query, color).len() ==> !crate::text::text_lt(
                (#[trigger] m.search_all(query, color)[i]).created_at,
                (#[trigger] m.search_all(query, color)[j]).created_at,
            ),
{
    let ls = crate::database::listed_seq(m, m.items);
    assert(pairwise(ls, not_older())) by {
        assert forall|i: int, j: int| 0 <= i < j < ls.len() implies #[trigger] not_older()(ls[i], ls[j]) by {
            assert(crate::database::item_order()(m.items[i], m.items[j]));
        }
    }
    crate::seqs::lemma_select_pairwise(ls, item_matches(query), not_older());
    let s1 = select(ls, item_matches(query));
    crate::seqs::lemma_select_pairwise(s1, in_color(color), not_older());
    let h = history_hits(m, query, color);
    let f = entry_hit(m, query, color);
    assert forall|i: int, j: int|
        0 <= i < j < m.entries.len() && #[trigger] f(m.entries[i]) is Some && #[trigger] f(m.entries[j]) is Some implies not_older()(
            f(m.entries[i])->0,
            f(m.entries[j])->0,
        ) by {
        assert(crate::database::entry_order()(m.entries[i], m.entries[j]));
    }
    lemma_filter_map_order(m.entries, f);
    let e = entry_hits(m, query, color);
    lemma_merge_order(h, e);
    let mg = merge_newest(h, e);
    let r = m.search_all(query, color);
    assert forall|i: int, j: int| 0 <= i < j < r.len() implies !crate::text::text_lt(
        (#[trigger] r[i]).created_at,
        (#[trigger] r[j]).created_at,
    ) by {
        assert(r[i] == mg[i] && r[j] == mg[j]);
        assert(not_older()(mg[i], mg[j]));
    }
}

/// A page of the listing is the run of the listing that starts at the
/// offset and holds at most `limit` rows.
pub proof fn law_page_is_run_of_listing(m: DbView, limit: int, offset: int)
    requires
        0 <= offset,
        0 <= limit,
    ensures
        m.get_items(limit, offset).len() <= limit,
        offset + limit <= m.listing().len() ==> m.get_items(limit, offset).len() == limit,
        forall|j: int|
            0 <= j < m.get_items(limit, offset).len() ==> #[trigger] m.get_items(limit, offset)[j]
                == m.listing()[offset + j],
{
}

// ===== Card previews =====

proof fn lemma_slash_from(t: Seq<char>, i: int)
    requires
        0 <= i <= t.len(),
    ensures
        i <= slash_from(t, i) <= t.len(),
        forall|k: int| i <= k < slash_from(t, i) ==> #[trigger] t[k] != '/',
        slash_from(t, i) < t.len() ==> t[slash_from(t, i)] == '/',
    decreases t.len() - i,
{
    if i < t.len() && t[i] != '/' {
        lemma_slash_from(t, i + 1);
    }
}

proof fn lemma_scheme_sep_from(t: Seq<char>, i: int)
    requires
        0 <= i,
    ensures
        scheme_sep_from(t, i) == -1 || i <= scheme_sep_from(t, i),
        scheme_sep_from(t, i) >= 0 ==> crate::content::scheme_sep_at(t, scheme_sep_from(t, i)),
        forall|k: int|
            i <= k && (scheme_sep_from(t, i) == -1 || k < scheme_sep_from(t, i)) ==> !#[trigger] crate::content::scheme_sep_at(t, k),
    decreases t.len() - i,
{
    if i + 3 <= t.len() && !crate::content::scheme_sep_at(t, i) {
        lemma_scheme_sep_from(t, i + 1);
    }
}

proof fn lemma_last_sep_before(t: Seq<char>, j: int)
    requires
        0 <= j <= t.len(),
    ensures
        -1 <= last_sep_before(t, j) < j,
        last_sep_before(t, j) >= 0 ==> crate::content::is_path_sep(t[last_sep_before(t, j)]),
        forall|k: int| last_sep_before(t, j) < k < j ==> !crate::content::is_path_sep(#[trigger] t[k]),
    decreases j,
{
    if j > 0 && !crate::content::is_path_sep(t[j - 1]) {
        lemma_last_sep_before(t, j - 1);
    }
}

/// The preview of a link is its host: when `://` first stands at `i`, the
/// preview is the run after it up to the next `/` (or the end), and holds
/// no `/`. A link without `://` shows its first 50
/// characters.
pub proof fn law_link_preview_is_host(text: Seq<char>, i: int)
    requires
        0 <= i && i + 3 <= text.len(),
        text[i] == ':' && text[i + 1] == '/' && text[i + 2] == '/',
        forall|k: int|
            0 <= k < i ==> !(k + 3 <= text.len() && text[k] == ':' && #[trigger] text[k + 1] == '/'
                && text[k + 2] == '/'),
    ensures
        preview_of(text, ClipboardItemType::Link) matches Some(p) && {
            let end = i + 3 + p.len();
            &&& end <= text.len()
            &&& text.subrange(i + 3, end) == p
            &&& (end == text.len() || text[end] == '/')
            &&& forall|k: int| 0 <= k < p.len() ==> #[trigger] p[k] != '/'
        },
{
    lemma_scheme_sep_from(text, 0);
    let s = scheme_sep_from(text, 0);
    if s == -1 || s > i {
        assert(!crate::content::scheme_sep_at(text, i));
    }
    if 0 <= s < i {
        assert(crate::content::scheme_sep_at(text, s));
        assert(text[s + 1] == '/');
    }
    assert(s == i);
    lemma_slash_from(text, i + 3);
    let p = text.subrange(i + 3, slash_from(text, i + 3));
    assert forall|k: int| 0 <= k < p.len() implies #[trigger] p[k] != '/' by {
        assert(p[k] == text[i + 3 + k]);
    }
}

/// A link without `://` shows its first 50 characters.
pub proof fn law_link_preview_without_scheme(text: Seq<char>)
    requires
        forall|k: int|
            0 <= k ==> !(k + 3 <= text.len() && text[k] == ':' && #[trigger] text[k + 1] == '/'
                && text[k + 2] == '/'),
    ensures
        preview_of(text, ClipboardItemType::Link) == Some(
            if text.len() <= 50 {
                text
            } else {
                text.subrange(0, 50)
            },
        ),
{
    lemma_scheme_sep_from(text, 0);
    let s = scheme_sep_from(text, 0);
    if s >= 0 {
        assert(crate::content::scheme_sep_at(text, s));
        assert(text[s + 1] == '/');
    }
}

/// The preview of a file path is its last name: a tail of the path with
/// no `\` or `/` in it, which is the whole path or follows a separator.
pub proof fn law_path_preview_is_name(text: Seq<char>)
    ensures
        preview_of(text, ClipboardItemType::FilePath) matches Some(p) && {
            let start = text.len() - p.len();
            &&& 0 <= start
            &&& text.subrange(start, text.len() as int) == p
            &&& (start == 0 || text[start - 1] == '\\' || text[start - 1] == '/')
            &&& forall|k: int| 0 <= k < p.len() ==> #[trigger] p[k] != '\\' && p[k] != '/'
        },
{
    lemma_last_sep_before(text, text.len() as int);
    let j = last_sep_before(text, text.len() as int);
    let p = text.subrange(j + 1, text.len() as int);
    assert forall|k: int| 0 <= k < p.len() implies #[trigger] p[k] != '\\' && p[k] != '/' by {
        assert(p[k] == text[j + 1 + k]);
    }
}

/// A plain text gets a preview only when it is longer than
/// 100 bytes in UTF-8; the preview is then its first
/// 100 characters followed by `...`. An image shows
/// `Resim`.
pub proof fn law_text_preview(text: Seq<char>)
    requires
        vstd::utf8::encode_utf8(text).len() <= usize::MAX,
    ensures
        preview_of(text, ClipboardItemType::Text) is Some <==> vstd::utf8::encode_utf8(text).len()
            > 100,
        preview_of(text, ClipboardItemType::Text) matches Some(p) ==> {
            let n = if text.len() <= 100 {
                text.len() as int
            } else {
                100
            };
            &&& p.len() == n + 3
            &&& p.subrange(0, n) == text.subrange(0, n)
            &&& p[n] == '.' && p[n + 1] == '.' && p[n + 2] == '.'
        },
        preview_of(text, ClipboardItemType::Image) == Some(seq!['R', 'e', 's', 'i', 'm']),
{
    reveal_strlit("...");
    reveal_strlit("Resim");
    assert("Resim"@ =~= seq!['R', 'e', 's', 'i', 'm']);
    if let Some(p) = preview_of(text, ClipboardItemType::Text) {
        let n = if text.len() <= 100 {
            text.len() as int
        } else {
            100
        };
        assert(p.subrange(0, n) =~= text.subrange(0, n));
    }
}

/// A new entry made by the clipboard watcher is unpinned, from no known
/// source and in no collection, and has the kind and preview that
/// `detect_content_type` and `create_preview` give for its text.
pub proof fn law_captured_entry(text: Seq<char>, id: Seq<char>, created_at: Seq<char>)
    ensures
        ({
            let r = captured(text, id, created_at);
            &&& r.id == id && r.content == text && r.created_at == created_at
            &&& !r.is_pinned && r.source_app is None && r.collection_color is None
            &&& r.item_type == content_kind(text)
            &&& r.preview == preview_of(text, content_kind(text))
        }),
{
}

// ===== Placement =====

/// The monitor chosen for the cursor is the first one the cursor lies on;
/// when none is chosen, the cursor lies on no monitor.
pub proof fn law_monitor_is_first_under_cursor(ms: Seq<MonitorArea>, cx: i32, cy: i32)
    ensures
        ({
            let p = monitor_pos(ms, cx, cy, 0);
            let on = |m: MonitorArea|
                cx >= m.x && cx < m.x + (m.width as i32) && cy >= m.y && cy < m.y + (m.height as i32);
            &&& 0 <= p <= ms.len()
            &&& p < ms.len() ==> on(ms[p])
            &&& forall|j: int| 0 <= j < p ==> !on(#[trigger] ms[j])
        }),
{
    lemma_monitor_pos(ms, cx, cy, 0);
}

proof fn lemma_monitor_pos(ms: Seq<MonitorArea>, cx: i32, cy: i32, i: int)
    requires
        0 <= i <= ms.len(),
    ensures
        i <= monitor_pos(ms, cx, cy, i) <= ms.len(),
        monitor_pos(ms, cx, cy, i) < ms.len() ==> crate::layout::on_monitor(
            ms[monitor_pos(ms, cx, cy, i)],
            cx,
            cy,
        ),
        forall|j: int| i <= j < monitor_pos(ms, cx, cy, i) ==> !crate::layout::on_monitor(#[trigger] ms[j], cx, cy),
    decreases ms.len() - i,
{
    if i < ms.len() && !crate::layout::on_monitor(ms[i], cx, cy) {
        lemma_monitor_pos(ms, cx, cy, i + 1);
    }
}

// ===== Sync =====

/// A change is sent the same way as it happens and when it is replayed,
/// except adding an entry to a collection (replayed as a new entry of the
/// collections list) and the edits, which are not replayed.
pub proof fn law_send_and_replay_agree(api: Seq<char>, action: Seq<char>, local_id: Seq<char>)
    requires
        action != "add_to_collection"@,
        action != "edit_sync_item"@,
        action != "edit_collection_item"@,
    ensures
        send_route(api, action, local_id) == replay_route(api, action, local_id),
{
}

/// Every change goes to an address under the service's address.
pub proof fn law_routes_under_api(api: Seq<char>, action: Seq<char>, local_id: Seq<char>)
    ensures
        send_route(api, action, local_id) matches Some(r) ==> r.1.len() >= api.len() && r.1.subrange(
            0,
            api.len() as int,
        ) == api,
        replay_route(api, action, local_id) matches Some(r) ==> r.1.len() >= api.len()
            && r.1.subrange(0, api.len() as int) == api,
{
    let a = api;
    assert forall|t: Seq<char>| (a + t).subrange(0, a.len() as int) == a by {
        assert((a + t).subrange(0, a.len() as int) =~= a);
    }
    assert forall|t: Seq<char>, u: Seq<char>| (a + t + u).subrange(0, a.len() as int) == a by {
        assert((a + t + u).subrange(0, a.len() as int) =~= a);
    }
    assert forall|t: Seq<char>, u: Seq<char>, v: Seq<char>|
        (a + t + u + v).subrange(0, a.len() as int) == a by {
        assert((a + t + u + v).subrange(0, a.len() as int) =~= a);
    }
}

} // verus!
