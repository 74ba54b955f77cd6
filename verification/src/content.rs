//! What a copied text is (a link, a file path, plain text), the short
//! preview shown on its card, and the watcher that turns changes of the
//! system clipboard into history entries.
use vstd::prelude::*;

use crate::database::{Database, DbView};
use crate::models::{ClipboardItem, ClipboardItemType, ItemView};
use crate::text::{
    chars_of, opt_view, starts_with, string_of, string_of_range, trim, trim_bounds, trim_str,
    vec_starts_with,
};

verus! {

broadcast use vstd::string::group_string_axioms;

/// How many characters the preview of a link without a scheme keeps.
pub const LINK_PREVIEW_CHARS: usize = 50;

/// How many characters the preview of a long text keeps.
pub const TEXT_PREVIEW_CHARS: usize = 100;

/// From how many bytes on a text gets a preview.
pub const TEXT_PREVIEW_MIN_BYTES: usize = 100;

/// The kind of a copied text, judged on the text without surrounding
/// whitespace: a link when it starts with `http://`, `https://` or `www.`;
/// a file path when its second and third characters are `:\` or it starts
/// with `\\`; plain text otherwise.
pub open spec fn content_kind(text: Seq<char>) -> ClipboardItemType {
    let t = trim(text);
    if starts_with(t, "http://"@) || starts_with(t, "https://"@) || starts_with(t, "www."@) {
        ClipboardItemType::Link
    } else if (t.len() >= 3 && t[1] == ':' && t[2] == '\\') || starts_with(t, "\\\\"@) {
        ClipboardItemType::FilePath
    } else {
        ClipboardItemType::Text
    }
}

/// Detects the kind of a copied text.
pub fn detect_content_type(text: &str) -> (r: ClipboardItemType)
    ensures
        r == content_kind(text@),
{
    let all = chars_of(text);
    let (a, b) = trim_bounds(&all);
    let mut t: Vec<char> = Vec::new();
    let mut i = a;
    while i < b
        invariant
            a <= i <= b <= all.len(),
            t@ == all@.subrange(a as int, i as int),
        decreases b - i,
    {
        t.push(all[i]);
        assert(all@.subrange(a as int, i + 1) == all@.subrange(a as int, i as int).push(
            all@[i as int],
        ));
        i = i + 1;
    }
    if vec_starts_with(&t, "http://") || vec_starts_with(&t, "https://") || vec_starts_with(
        &t,
        "www.",
    ) {
        return ClipboardItemType::Link;
    }
    if (t.len() >= 3 && t[1] == ':' && t[2] == '\\') || vec_starts_with(&t, "\\\\") {
        return ClipboardItemType::FilePath;
    }
    ClipboardItemType::Text
}

/// `://` stands at position `i` of `t`.
pub open spec fn scheme_sep_at(t: Seq<char>, i: int) -> bool {
    0 <= i && i + 3 <= t.len() && t[i] == ':' && t[i + 1] == '/' && t[i + 2] == '/'
}

/// The first position at or after `i` where `://` stands, or -1.
pub open spec fn scheme_sep_from(t: Seq<char>, i: int) -> int
    decreases t.len() - i,
{
    if i < 0 || i + 3 > t.len() {
        -1
    } else if scheme_sep_at(t, i) {
        i
    } else {
        scheme_sep_from(t, i + 1)
    }
}

/// The first position at or after `i` where `/` stands, or the length.
pub open spec fn slash_from(t: Seq<char>, i: int) -> int
    decreases t.len() - i,
{
    if 0 <= i < t.len() && t[i] != '/' {
        slash_from(t, i + 1)
    } else {
        i
    }
}

/// Is `c` a path separator?
pub open spec fn is_path_sep(c: char) -> bool {
    c == '\\' || c == '/'
}

/// The last position before `j` where a path separator stands, or -1.
pub open spec fn last_sep_before(t: Seq<char>, j: int) -> int
    decreases j,
{
    if j <= 0 || j > t.len() {
        -1
    } else if is_path_sep(t[j - 1]) {
        j - 1
    } else {
        last_sep_before(t, j - 1)
    }
}

/// At most the first `n` characters of `s`.
pub open spec fn prefix(s: Seq<char>, n: int) -> Seq<char> {
    if s.len() <= n {
        s
    } else {
        s.subrange(0, n)
    }
}

/// The preview of a text of kind `kind`: for a link, the host (what stands
/// between `://` and the next `/`), or its first 50 characters when it has
/// no `://`; for a file path, the name after its last `\` or `/`; for a text
/// of more than 100 bytes, its first 100 characters and `...`; for shorter
/// text, none; for an image, `Resim`.
pub open spec fn preview_of(text: Seq<char>, kind: ClipboardItemType) -> Option<Seq<char>> {
    match kind {
        ClipboardItemType::Link => {
            let k = scheme_sep_from(text, 0);
            if k >= 0 {
                Some(text.subrange(k + 3, slash_from(text, k + 3)))
            } else {
                Some(prefix(text, LINK_PREVIEW_CHARS as int))
            }
        },
        ClipboardItemType::FilePath => Some(
            text.subrange(last_sep_before(text, text.len() as int) + 1, text.len() as int),
        ),
        ClipboardItemType::Text => {
            if (vstd::utf8::encode_utf8(text).len() as usize) > TEXT_PREVIEW_MIN_BYTES {
                Some(prefix(text, TEXT_PREVIEW_CHARS as int) + "..."@)
            } else {
                None
            }
        },
        ClipboardItemType::Image => Some("Resim"@),
    }
}




/// The first `n` characters of `cs` (all of them when there are fewer).
fn prefix_string(cs: &Vec<char>, n: usize) -> (r: String)
    ensures
        r@ == prefix(cs@, n as int),
{
    if cs.len() <= n {
        string_of(cs)
    } else {
        string_of_range(cs, 0, n)
    }
}

/// Makes the preview shown on the card of a copied text.
pub fn create_preview(text: &str, item_type: &ClipboardItemType) -> (r: Option<String>)
    ensures
        opt_view(r) == preview_of(text@, *item_type),
{
    let cs = chars_of(text);
    match item_type {
        ClipboardItemType::Link => {
            let mut k: usize = 0;
            let mut found = false;
            while k < cs.len() && cs.len() - k >= 3 && !found
                invariant
                    cs@ == text@,
                    found ==> k + 3 <= cs.len() && scheme_sep_at(cs@, k as int),
                    !found ==> scheme_sep_from(cs@, 0) == scheme_sep_from(cs@, k as int),
                    found ==> scheme_sep_from(cs@, 0) == k,
                decreases cs.len() - k, if found {
                    0int
                } else {
                    1int
                },
            {
                if cs[k] == ':' && cs[k + 1] == '/' && cs[k + 2] == '/' {
                    found = true;
                } else {
                    k = k + 1;
                }
            }
            if found {
                let start = k + 3;
                let mut e = start;
                while e < cs.len() && cs[e] != '/'
                    invariant
                        start <= e <= cs.len(),
                        slash_from(cs@, start as int) == slash_from(cs@, e as int),
                    decreases cs.len() - e,
                {
                    e = e + 1;
                }
                Some(string_of_range(&cs, start, e))
            } else {
                Some(prefix_string(&cs, LINK_PREVIEW_CHARS))
            }
        },
        ClipboardItemType::FilePath => {
            let mut j = cs.len();
            while j > 0 && cs[j - 1] != '\\' && cs[j - 1] != '/'
                invariant
                    j <= cs.len(),
                    cs@ == text@,
                    last_sep_before(cs@, cs.len() as int) == last_sep_before(cs@, j as int),
                decreases j,
            {
                j = j - 1;
            }
            Some(string_of_range(&cs, j, cs.len()))
        },
        ClipboardItemType::Text => {
            if text.len() > TEXT_PREVIEW_MIN_BYTES {
                let mut p = prefix_string(&cs, TEXT_PREVIEW_CHARS);
                p.append("...");
                Some(p)
            } else {
                None
            }
        },
        ClipboardItemType::Image => Some("Resim".to_string()),
    }
}

/// The history entry made of a newly copied (already trimmed) text.
pub open spec fn captured(text: Seq<char>, id: Seq<char>, created_at: Seq<char>) -> ItemView {
    ItemView {
        id,
        content: text,
        item_type: content_kind(text),
        source_app: None,
        preview: preview_of(text, content_kind(text)),
        is_pinned: false,
        created_at,
        collection_color: None,
        title: None,
    }
}

/// Is the copied text `text` new, given the text last seen (if any) and,
/// when none was seen yet, the content of the newest stored entry?
pub open spec fn is_new_text(
    last: Option<Seq<char>>,
    stored_last: Option<Seq<char>>,
    text: Seq<char>,
) -> bool {
    match last {
        Some(l) => l != text,
        None => match stored_last {
            Some(d) => d != text,
            None => true,
        },
    }
}

/// Watches the system clipboard: remembers the text it saw last, and
/// records each new non-empty text in the history.
#[derive(Debug)]
pub struct ClipboardWatcher {
    last_text: Option<String>,
}

impl ClipboardWatcher {
    /// The text seen last, if any.
    pub closed spec fn last_seen(self) -> Option<Seq<char>> {
        opt_view(self.last_text)
    }

    /// A watcher that has seen nothing yet.
    pub fn new() -> (r: Self)
        ensures
            r.last_seen() == None::<Seq<char>>,
    {
        ClipboardWatcher { last_text: None }
    }

    /// Handles a text read from the clipboard, with `id` and `created_at`
    /// for the entry it may create. The text is trimmed; when it is not
    /// empty and is new, it becomes the text last seen, is saved in the
    /// history, and the saved entry is returned.
    pub fn observe_with(
        &mut self,
        db: &mut Database,
        clipboard_text: &str,
        id: String,
        created_at: String,
    ) -> (r: Option<ClipboardItem>)
        ensures
            ({
                let text = trim(clipboard_text@);
                let fresh = text.len() > 0 && is_new_text(
                    old(self).last_seen(),
                    old(db)@.last_content(),
                    text,
                );
                &&& fresh ==> {
                    &&& r matches Some(item) && item@ == captured(text, id@, created_at@)
                    &&& final(self).last_seen() == Some(text)
                    &&& final(db)@ == old(db)@.insert_item(captured(text, id@, created_at@))
                }
                &&& !fresh ==> {
                    &&& r is None
                    &&& final(self).last_seen() == old(self).last_seen()
                    &&& final(db)@ == old(db)@
                }
            }),
            final(db)@.wf(),
    {
        proof {
            use_type_invariant(&*db);
        }
        let text = trim_str(clipboard_text);
        if text.as_str().is_empty() {
            return None;
        }
        let is_new = match &self.last_text {
            Some(last) => !crate::text::str_eq(last.as_str(), text.as_str()),
            None => match db.get_last_content() {
                Ok(Some(last_db)) => !crate::text::str_eq(last_db.as_str(), text.as_str()),
                _ => true,
            },
        };
        if !is_new {
            return None;
        }
        self.last_text = Some(text.clone());
        let item_type = detect_content_type(text.as_str());
        let preview = create_preview(text.as_str(), &item_type);
        let item = ClipboardItem {
            id,
            content: text,
            item_type,
            source_app: None,
            preview,
            is_pinned: false,
            created_at,
            collection_color: None,
            title: None,
        };
        match db.insert_item(&item) {
            Ok(()) => Some(item),
            Err(_) => None,
        }
    }

    /// Handles a text read from the clipboard, as `observe_with` does, with
    /// a fresh random id and the present time for a new entry.
    pub fn observe(&mut self, db: &mut Database, clipboard_text: &str) -> (r: Option<ClipboardItem>)
        ensures
            ({
                let text = trim(clipboard_text@);
                let fresh = text.len() > 0 && is_new_text(
                    old(self).last_seen(),
                    old(db)@.last_content(),
                    text,
                );
                &&& fresh ==> exists|id: Seq<char>, t: Seq<char>|
                    {
                        &&& crate::clock::uuid_v4_text(id)
                        &&& crate::clock::rfc3339_utc_text(t)
                        &&& r matches Some(item) && item@ == #[trigger] captured(text, id, t)
                        &&& final(self).last_seen() == Some(text)
                        &&& final(db)@ == old(db)@.insert_item(captured(text, id, t))
                    }
                &&& !fresh ==> {
                    &&& r is None
                    &&& final(self).last_seen() == old(self).last_seen()
                    &&& final(db)@ == old(db)@
                }
            }),
            final(db)@.wf(),
    {
        let id = crate::clock::new_id();
        let created_at = crate::clock::now_rfc3339();
        let ghost (iv, tv) = (id@, created_at@);
        let r = self.observe_with(db, clipboard_text, id, created_at);
        proof {
            let text = trim(clipboard_text@);
            let _ = captured(text, iv, tv);
        }
        r
    }
}

} // verus!
