//! The requests of the user interface that do more than pass their
//! arguments on to the store.
use vstd::prelude::*;

use crate::database::{items_view, Database, DbView};
use crate::models::{kind_name, ClipboardItem, Collection, CollectionView, ItemView};
use crate::text::{copy_str, str_eq};

verus! {

broadcast use vstd::string::group_string_axioms;

/// How many history entries a page holds when the interface names none.
pub const DEFAULT_PAGE_SIZE: u32 = 50;

/// The colour of a new collection when the interface names none.
pub open spec fn default_collection_color() -> Seq<char> {
    "#6c5ce7"@
}

/// A page of the history listing; by default the first `DEFAULT_PAGE_SIZE`
/// entries.
pub fn get_clipboard_items(db: &Database, limit: Option<u32>, offset: Option<u32>) -> (r: Result<
    Vec<ClipboardItem>,
    String,
>)
    ensures
        r matches Ok(v) && items_view(v@) == db@.get_items(
            match limit {
                Some(l) => l as int,
                None => DEFAULT_PAGE_SIZE as int,
            },
            match offset {
                Some(o) => o as int,
                None => 0,
            },
        ),
{
    let l = match limit {
        Some(l) => l,
        None => DEFAULT_PAGE_SIZE,
    };
    let o = match offset {
        Some(o) => o,
        None => 0,
    };
    db.get_items(l, o)
}

/// Puts edited `content` into a history entry, or into a saved entry when
/// `is_collection_item` holds.
pub fn update_clipboard_content(db: &mut Database, id: &str, content: &str, is_collection_item: bool) -> (r: Result<
    (),
    String,
>)
    ensures
        r is Ok,
        is_collection_item ==> final(db)@ == (DbView {
            entries: crate::database::with_entry_content(old(db)@.entries, id@, content@),
            ..old(db)@
        }),
        !is_collection_item ==> final(db)@ == (DbView {
            items: crate::database::with_content(old(db)@.items, id@, content@),
            ..old(db)@
        }),
        final(db)@.wf(),
{
    if is_collection_item {
        db.update_collection_item_content(id, content)
    } else {
        db.update_item_content(id, content)
    }
}

/// The collection made of these fields; its colour is `color`, or the
/// default colour when none is given.
pub open spec fn new_collection(
    id: Seq<char>,
    name: Seq<char>,
    color: Option<Seq<char>>,
    created_at: Seq<char>,
) -> CollectionView {
    CollectionView {
        id,
        name,
        color: match color {
            Some(c) => c,
            None => default_collection_color(),
        },
        created_at,
    }
}

/// Creates the collection `id` named `name` at `created_at` and returns it;
/// an error, and no change, when the id is taken.
pub fn create_collection_with(
    db: &mut Database,
    id: String,
    name: &str,
    color: Option<&str>,
    created_at: String,
) -> (r: Result<Collection, String>)
    ensures
        r is Ok <==> !old(db)@.has_collection(id@),
        r matches Ok(c) ==> c@ == new_collection(
            id@,
            name@,
            crate::database::str_opt_view(color),
            created_at@,
        ) && final(db)@ == old(db)@.create_collection(c@),
        r is Err ==> final(db)@ == old(db)@,
        final(db)@.wf(),
{
    let collection = Collection {
        id,
        name: copy_str(name),
        color: match color {
            Some(c) => copy_str(c),
            None => "#6c5ce7".to_string(),
        },
        created_at,
    };
    match db.create_collection(&collection) {
        Ok(()) => Ok(collection),
        Err(e) => Err(e),
    }
}

/// Creates a collection named `name` with a fresh random id at the present
/// time and returns it. It fails only when a collection already has the id
/// drawn, so on a store without collections it always succeeds.
pub fn create_collection(db: &mut Database, name: &str, color: Option<&str>) -> (r: Result<
    Collection,
    String,
>)
    ensures
        r matches Ok(c) ==> c@.name == name@ && c@.color == match color {
            Some(x) => x@,
            None => default_collection_color(),
        } && !old(db)@.has_collection(c@.id) && final(db)@ == old(db)@.create_collection(c@),
        r matches Ok(c) ==> crate::clock::uuid_v4_text(c@.id) && crate::clock::rfc3339_utc_text(
            c@.created_at,
        ),
        r is Err ==> final(db)@ == old(db)@,
        r is Err ==> exists|id: Seq<char>|
            crate::clock::uuid_v4_text(id) && #[trigger] old(db)@.has_collection(id),
        final(db)@.wf(),
{
    let id = crate::clock::new_id();
    let created_at = crate::clock::now_rfc3339();
    create_collection_with(db, id, name, color, created_at)
}

/// The first position at or after `i` in `s` of an entry with `id`.
pub open spec fn listed_pos(s: Seq<ItemView>, id: Seq<char>, i: int) -> int
    decreases s.len() - i,
{
    if 0 <= i < s.len() && s[i].id != id {
        listed_pos(s, id, i + 1)
    } else {
        i
    }
}

/// The content of the entry `item_id` among the contents of the
/// collection `collection_id`, if both are given and it is there: what is
/// reported to the sync service when the entry is taken out.
pub open spec fn entry_content_in(m: DbView, item_id: Seq<char>, collection_id: Option<Seq<char>>) -> Option<Seq<char>> {
    match collection_id {
        None => None,
        Some(cid) => {
            let s = m.collection_items(cid);
            let k = listed_pos(s, item_id, 0);
            if k < s.len() {
                Some(s[k].content)
            } else {
                None
            }
        },
    }
}

/// Finds the content of the saved entry `item_id` in the collection
/// `collection_id`, as `entry_content_in` says.
pub fn collection_entry_content(db: &Database, item_id: &str, collection_id: Option<&str>) -> (r: Option<String>)
    ensures
        crate::text::opt_view(r) == entry_content_in(
            db@,
            item_id@,
            crate::database::str_opt_view(collection_id),
        ),
{
    match collection_id {
        None => None,
        Some(cid) => {
            match db.get_collection_items(cid) {
                Ok(items) => {
                    let ghost s = items_view(items@);
                    let mut i: usize = 0;
                    while i < items.len() && !str_eq(items[i].id.as_str(), item_id)
                        invariant
                            s == items_view(items@),
                            i <= items.len(),
                            listed_pos(s, item_id@, 0) == listed_pos(s, item_id@, i as int),
                        decreases items.len() - i,
                    {
                        i = i + 1;
                    }
                    if i < items.len() {
                        Some(items[i].content.clone())
                    } else {
                        None
                    }
                },
                Err(_) => None,
            }
        },
    }
}


/// How many history entries a full sync sends.
pub const FULL_SYNC_ITEMS: u32 = 20;

/// An entry as a full sync sends it: its content and the name of its kind.
#[derive(Debug)]
pub struct SyncEntry {
    pub content: String,
    pub item_type: String,
}

/// A collection as a full sync sends it, with its entries.
#[derive(Debug)]
pub struct SyncCollection {
    pub id: String,
    pub name: String,
    pub color: String,
    pub items: Vec<SyncEntry>,
}

/// Everything a full sync sends: the newest history entries and every
/// collection with its entries.
#[derive(Debug)]
pub struct FullSync {
    pub clipboard_items: Vec<SyncEntry>,
    pub collections: Vec<SyncCollection>,
}

/// The mathematical value of a `SyncCollection`.
pub struct CollectionSummary {
    pub id: Seq<char>,
    pub name: Seq<char>,
    pub color: Seq<char>,
    pub items: Seq<(Seq<char>, Seq<char>)>,
}

/// The mathematical value of a `FullSync`.
pub struct FullSyncView {
    pub clipboard_items: Seq<(Seq<char>, Seq<char>)>,
    pub collections: Seq<CollectionSummary>,
}

impl View for SyncCollection {
    type V = CollectionSummary;

    open spec fn view(&self) -> CollectionSummary {
        CollectionSummary { id: self.id@, name: self.name@, color: self.color@, items: sent(self.items@) }
    }
}

impl View for FullSync {
    type V = FullSyncView;

    open spec fn view(&self) -> FullSyncView {
        FullSyncView {
            clipboard_items: sent(self.clipboard_items@),
            collections: self.collections@.map_values(|c: SyncCollection| c@),
        }
    }
}

/// A collection of `m` as a full sync describes it.
pub open spec fn collection_summary(m: DbView, c: CollectionView) -> CollectionSummary {
    CollectionSummary { id: c.id, name: c.name, color: c.color, items: summaries(m.collection_items(c.id)) }
}

/// What a full sync of `m` sends: the first `FULL_SYNC_ITEMS` entries of
/// the listing, and each collection, oldest first, with its entries.
pub open spec fn full_sync_of(m: DbView) -> FullSyncView {
    FullSyncView {
        clipboard_items: summaries(m.get_items(FULL_SYNC_ITEMS as int, 0)),
        collections: m.collections.map_values(|c: CollectionView| collection_summary(m, c)),
    }
}

/// An entry as a full sync describes it.
pub open spec fn summary(r: ItemView) -> (Seq<char>, Seq<char>) {
    (r.content, kind_name(r.item_type))
}

/// Entries as a full sync describes them.
pub open spec fn summaries(s: Seq<ItemView>) -> Seq<(Seq<char>, Seq<char>)> {
    s.map_values(|r: ItemView| summary(r))
}

/// The values of sent entries.
pub open spec fn sent(v: Seq<SyncEntry>) -> Seq<(Seq<char>, Seq<char>)> {
    v.map_values(|e: SyncEntry| (e.content@, e.item_type@))
}

/// The descriptions of `items`, in their order.
fn summarize(items: &Vec<ClipboardItem>) -> (r: Vec<SyncEntry>)
    ensures
        sent(r@) == summaries(items_view(items@)),
{
    let ghost s = items_view(items@);
    let mut out: Vec<SyncEntry> = Vec::new();
    let mut i: usize = 0;
    while i < items.len()
        invariant
            s == items_view(items@),
            i <= items.len(),
            sent(out@) == summaries(s.take(i as int)),
        decreases items.len() - i,
    {
        let e = SyncEntry { content: items[i].content.clone(), item_type: items[i].item_type.as_str().to_string() };
        let ghost before = out@;
        out.push(e);
        assert(sent(out@) =~= sent(before).push((items[i as int].content@, kind_name(items[i as int].item_type))));
        assert(s.take(i + 1) =~= s.take(i as int).push(s[i as int]));
        assert(summaries(s.take(i + 1)) =~= summaries(s.take(i as int)).push(summary(s[i as int])));
        i = i + 1;
    }
    assert(s.take(s.len() as int) =~= s);
    out
}

/// What a full sync sends after signing in: the first `FULL_SYNC_ITEMS`
/// entries of the listing, and each collection, oldest first, with its
/// entries.
pub fn full_sync_snapshot(db: &Database) -> (r: FullSync)
    ensures
        r@ == full_sync_of(db@),
{
    let recent = match db.get_items(FULL_SYNC_ITEMS, 0) {
        Ok(v) => v,
        Err(_) => Vec::new(),
    };
    let clipboard_items = summarize(&recent);
    let cols = match db.get_collections() {
        Ok(v) => v,
        Err(_) => Vec::new(),
    };
    let ghost cv = db@.collections;
    let mut collections: Vec<SyncCollection> = Vec::new();
    let mut i: usize = 0;
    while i < cols.len()
        invariant
            crate::database::collections_view(cols@) == cv,
            cv == db@.collections,
            i <= cols.len(),
            collections@.len() == i,
            forall|k: int|
                0 <= k < i ==> {
                    &&& (#[trigger] collections@[k]).id@ == cv[k].id
                    &&& collections@[k].name@ == cv[k].name
                    &&& collections@[k].color@ == cv[k].color
                    &&& sent(collections@[k].items@) == summaries(db@.collection_items(cv[k].id))
                },
        decreases cols.len() - i,
    {
        let c = &cols[i];
        assert(c@ == cv[i as int]);
        let items = match db.get_collection_items(c.id.as_str()) {
            Ok(v) => v,
            Err(_) => Vec::new(),
        };
        let entry = SyncCollection {
            id: c.id.clone(),
            name: c.name.clone(),
            color: c.color.clone(),
            items: summarize(&items),
        };
        collections.push(entry);
        i = i + 1;
    }
    let r = FullSync { clipboard_items, collections };
    assert(r@.collections =~= full_sync_of(db@).collections);
    r
}

} // verus!
