//! The records that the clipboard history is made of.
use vstd::prelude::*;

use crate::text::{copy_opt, opt_view, str_eq};

verus! {

broadcast use vstd::string::group_string_axioms;

/// The kind of a clipboard entry.
#[derive(Debug, Clone, Copy, PartialEq, Eq, Structural)]
pub enum ClipboardItemType {
    Text,
    Image,
    Link,
    FilePath,
}

/// The name under which a kind is stored.
pub open spec fn kind_name(t: ClipboardItemType) -> Seq<char> {
    match t {
        ClipboardItemType::Text => seq!['t', 'e', 'x', 't'],
        ClipboardItemType::Image => seq!['i', 'm', 'a', 'g', 'e'],
        ClipboardItemType::Link => seq!['l', 'i', 'n', 'k'],
        ClipboardItemType::FilePath => seq!['f', 'i', 'l', 'e', 'p', 'a', 't', 'h'],
    }
}

/// The kind that a stored name stands for; any unknown name is text.
pub open spec fn kind_from_name(s: Seq<char>) -> ClipboardItemType {
    if s == kind_name(ClipboardItemType::Image) {
        ClipboardItemType::Image
    } else if s == kind_name(ClipboardItemType::Link) {
        ClipboardItemType::Link
    } else if s == kind_name(ClipboardItemType::FilePath) {
        ClipboardItemType::FilePath
    } else {
        ClipboardItemType::Text
    }
}

impl ClipboardItemType {
    /// The stored name of this kind.
    pub fn as_str(&self) -> (r: &str)
        ensures
            r@ == kind_name(*self),
    {
        match self {
            ClipboardItemType::Text => {
                proof {
                    reveal_strlit("text");
                    assert("text"@ =~= kind_name(ClipboardItemType::Text));
                }
                "text"
            },
            ClipboardItemType::Image => {
                proof {
                    reveal_strlit("image");
                    assert("image"@ =~= kind_name(ClipboardItemType::Image));
                }
                "image"
            },
            ClipboardItemType::Link => {
                proof {
                    reveal_strlit("link");
                    assert("link"@ =~= kind_name(ClipboardItemType::Link));
                }
                "link"
            },
            ClipboardItemType::FilePath => {
                proof {
                    reveal_strlit("filepath");
                    assert("filepath"@ =~= kind_name(ClipboardItemType::FilePath));
                }
                "filepath"
            },
        }
    }

    /// The kind named by `s`; names other than "image", "link" and
    /// "filepath" give `Text`.
    pub fn from_str(s: &str) -> (r: Self)
        ensures
            r == kind_from_name(s@),
    {
        proof {
            reveal_strlit("image");
            reveal_strlit("link");
            reveal_strlit("filepath");
            assert("image"@ =~= kind_name(ClipboardItemType::Image));
            assert("link"@ =~= kind_name(ClipboardItemType::Link));
            assert("filepath"@ =~= kind_name(ClipboardItemType::FilePath));
        }
        if str_eq(s, "image") {
            ClipboardItemType::Image
        } else if str_eq(s, "link") {
            ClipboardItemType::Link
        } else if str_eq(s, "filepath") {
            ClipboardItemType::FilePath
        } else {
            ClipboardItemType::Text
        }
    }
}

/// Reading back the stored name of a kind gives the same kind.
pub proof fn lemma_kind_name_roundtrip(t: ClipboardItemType)
    ensures
        kind_from_name(kind_name(t)) == t,
{
    let img = kind_name(ClipboardItemType::Image);
    let lnk = kind_name(ClipboardItemType::Link);
    let fp = kind_name(ClipboardItemType::FilePath);
    let txt = kind_name(ClipboardItemType::Text);
    assert(txt[0] != img[0]);
    assert(txt[0] != lnk[0]);
    assert(txt[0] != fp[0]);
    assert(lnk[0] != img[0]);
    assert(fp[0] != img[0]);
    assert(fp[0] != lnk[0]);
}

/// An entry of the clipboard history, as the library hands it out.
#[derive(Debug)]
pub struct ClipboardItem {
    pub id: String,
    pub content: String,
    pub item_type: ClipboardItemType,
    pub source_app: Option<String>,
    pub preview: Option<String>,
    pub is_pinned: bool,
    pub created_at: String,
    pub collection_color: Option<String>,
    pub title: Option<String>,
}

/// The mathematical value of a `ClipboardItem`.
pub struct ItemView {
    pub id: Seq<char>,
    pub content: Seq<char>,
    pub item_type: ClipboardItemType,
    pub source_app: Option<Seq<char>>,
    pub preview: Option<Seq<char>>,
    pub is_pinned: bool,
    pub created_at: Seq<char>,
    pub collection_color: Option<Seq<char>>,
    pub title: Option<Seq<char>>,
}

impl View for ClipboardItem {
    type V = ItemView;

    open spec fn view(&self) -> ItemView {
        ItemView {
            id: self.id@,
            content: self.content@,
            item_type: self.item_type,
            source_app: opt_view(self.source_app),
            preview: opt_view(self.preview),
            is_pinned: self.is_pinned,
            created_at: self.created_at@,
            collection_color: opt_view(self.collection_color),
            title: opt_view(self.title),
        }
    }
}

impl ClipboardItem {
    /// A field-by-field copy.
    pub fn copy(&self) -> (r: Self)
        ensures
            r@ == self@,
    {
        ClipboardItem {
            id: self.id.clone(),
            content: self.content.clone(),
            item_type: self.item_type,
            source_app: copy_opt(&self.source_app),
            preview: copy_opt(&self.preview),
            is_pinned: self.is_pinned,
            created_at: self.created_at.clone(),
            collection_color: copy_opt(&self.collection_color),
            title: copy_opt(&self.title),
        }
    }
}

/// A named, coloured group of saved entries.
#[derive(Debug)]
pub struct Collection {
    pub id: String,
    pub name: String,
    pub color: String,
    pub created_at: String,
}

/// The mathematical value of a `Collection`.
pub struct CollectionView {
    pub id: Seq<char>,
    pub name: Seq<char>,
    pub color: Seq<char>,
    pub created_at: Seq<char>,
}

impl View for Collection {
    type V = CollectionView;

    open spec fn view(&self) -> CollectionView {
        CollectionView {
            id: self.id@,
            name: self.name@,
            color: self.color@,
            created_at: self.created_at@,
        }
    }
}

impl Collection {
    /// A field-by-field copy.
    pub fn copy(&self) -> (r: Self)
        ensures
            r@ == self@,
    {
        Collection {
            id: self.id.clone(),
            name: self.name.clone(),
            color: self.color.clone(),
            created_at: self.created_at.clone(),
        }
    }
}

/// An entry saved into a collection (a row of the collection contents).
#[derive(Debug)]
pub struct CollectionEntry {
    pub collection_id: String,
    pub item_id: String,
    pub content: String,
    pub item_type: String,
    pub preview: Option<String>,
    pub added_at: String,
}

/// The mathematical value of a `CollectionEntry`.
pub struct EntryView {
    pub collection_id: Seq<char>,
    pub item_id: Seq<char>,
    pub content: Seq<char>,
    pub item_type: Seq<char>,
    pub preview: Option<Seq<char>>,
    pub added_at: Seq<char>,
}

impl View for CollectionEntry {
    type V = EntryView;

    open spec fn view(&self) -> EntryView {
        EntryView {
            collection_id: self.collection_id@,
            item_id: self.item_id@,
            content: self.content@,
            item_type: self.item_type@,
            preview: opt_view(self.preview),
            added_at: self.added_at@,
        }
    }
}

impl CollectionEntry {
    /// A field-by-field copy.
    pub fn copy(&self) -> (r: Self)
        ensures
            r@ == self@,
    {
        CollectionEntry {
            collection_id: self.collection_id.clone(),
            item_id: self.item_id.clone(),
            content: self.content.clone(),
            item_type: self.item_type.clone(),
            preview: copy_opt(&self.preview),
            added_at: self.added_at.clone(),
        }
    }
}

} // verus!
