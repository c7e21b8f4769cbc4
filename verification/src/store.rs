//! The persisted session: how recent files, reading positions, bookmarks, open
//! tabs and preferences are laid out as key/value bytes, and how they are read
//! back. A store is read as its `(key, value)` pairs in key order.

use vstd::prelude::*;

use crate::codec::{
    be_u32_bytes, be_u32_of, be_u64_bytes, be_u64_of, lemma_be_u32_round_trip,
    lemma_be_u64_round_trip, lemma_utf8_round_trip, string_from_utf8, text_bytes, u32_from_be_bytes,
    u32_to_be_bytes, u64_as_usize, u64_from_be_bytes, u64_to_be_bytes, u64_to_usize, utf8_bytes,
    utf8_text,
};
use crate::tab::{PdfTab, TabBar};
use crate::types::{
    BookmarkEntry, BookmarkView, MarkdownNoteEntry, TextMarkupEntry, ThemeMode,
    TitleBarVisibilityPreferences,
};

verus! {

broadcast use vstd::string::group_string_axioms;

/// How many recent files are kept.
pub const MAX_RECENT_FILES: usize = 12;

/// Key/value pairs as plain byte sequences.
pub open spec fn entries_view(entries: Seq<(Vec<u8>, Vec<u8>)>) -> Seq<(Seq<u8>, Seq<u8>)> {
    entries.map_values(|e: (Vec<u8>, Vec<u8>)| (e.0@, e.1@))
}

// ----- ordering by a 4-byte index key -----

/// `s` with `x` placed after every entry whose index is not larger.
pub open spec fn insert_by_index<T>(s: Seq<(u32, T)>, x: (u32, T)) -> Seq<(u32, T)>
    decreases s.len(),
{
    if s.len() == 0 {
        seq![x]
    } else if s.last().0 <= x.0 {
        s.push(x)
    } else {
        insert_by_index(s.drop_last(), x).push(s.last())
    }
}

/// The entries ordered by index; entries with equal index keep their order.
pub open spec fn sort_by_index<T>(s: Seq<(u32, T)>) -> Seq<(u32, T)>
    decreases s.len(),
{
    if s.len() == 0 {
        s
    } else {
        insert_by_index(sort_by_index(s.drop_last()), s.last())
    }
}

pub open spec fn index_sorted<T>(s: Seq<(u32, T)>) -> bool {
    forall|i: int, j: int| 0 <= i <= j < s.len() ==> s[i].0 <= s[j].0
}

proof fn lemma_insert_at<T>(s: Seq<(u32, T)>, x: (u32, T), j: int)
    requires
        0 <= j <= s.len(),
        forall|k: int| j <= k < s.len() ==> s[k].0 > x.0,
        j == 0 || s[j - 1].0 <= x.0,
    ensures
        insert_by_index(s, x) == s.insert(j, x),
    decreases s.len(),
{
    if s.len() == 0 {
        assert(s.insert(j, x) =~= seq![x]);
    } else if j == s.len() {
        assert(s.insert(j, x) =~= s.push(x));
    } else {
        lemma_insert_at(s.drop_last(), x, j);
        assert(s.drop_last().insert(j, x).push(s.last()) =~= s.insert(j, x));
    }
}

proof fn lemma_insert_sorted<T>(s: Seq<(u32, T)>, x: (u32, T))
    requires
        index_sorted(s),
    ensures
        index_sorted(insert_by_index(s, x)),
        insert_by_index(s, x).len() == s.len() + 1,
    decreases s.len(),
{
    if s.len() > 0 && s.last().0 > x.0 {
        let p = s.drop_last();
        lemma_insert_sorted(p, x);
        let q = insert_by_index(p, x);
        assert forall|i: int, j: int| 0 <= i <= j < q.len() + 1 implies q.push(s.last())[i].0
            <= q.push(s.last())[j].0 by {
            if j == q.len() && i < q.len() {
                lemma_insert_members(p, x, i);
            }
        }
    }
}

proof fn lemma_insert_members<T>(s: Seq<(u32, T)>, x: (u32, T), i: int)
    requires
        0 <= i < s.len() + 1,
        index_sorted(s),
        s.len() > 0 ==> true,
    ensures
        insert_by_index(s, x).len() == s.len() + 1,
        insert_by_index(s, x)[i] == x || exists|k: int| 0 <= k < s.len() && insert_by_index(s, x)[i] == s[k],
    decreases s.len(),
{
    if s.len() == 0 {
    } else if s.last().0 <= x.0 {
        if i < s.len() {
            assert(s.push(x)[i] == s[i]);
        }
    } else {
        let p = s.drop_last();
        if i < s.len() {
            lemma_insert_members(p, x, i);
            if insert_by_index(p, x)[i] != x {
                let k = choose|k: int| 0 <= k < p.len() && insert_by_index(p, x)[i] == p[k];
                assert(s[k] == p[k]);
            }
        } else {
            lemma_insert_len(p, x);
            assert(insert_by_index(s, x)[i] == s.last());
        }
    }
}

proof fn lemma_insert_len<T>(s: Seq<(u32, T)>, x: (u32, T))
    ensures
        insert_by_index(s, x).len() == s.len() + 1,
    decreases s.len(),
{
    if s.len() > 0 && s.last().0 > x.0 {
        lemma_insert_len(s.drop_last(), x);
    }
}

/// Sorting entries that are already in index order leaves them as they are.
pub proof fn lemma_sort_sorted<T>(s: Seq<(u32, T)>)
    requires
        index_sorted(s),
    ensures
        sort_by_index(s) == s,
    decreases s.len(),
{
    if s.len() > 0 {
        let p = s.drop_last();
        lemma_sort_sorted(p);
        assert(s.drop_last().push(s.last()) =~= s);
    }
}

/// Places `x` after every entry whose index is not larger.
pub fn insert_by_index_exec<T>(v: &mut Vec<(u32, T)>, x: (u32, T))
    ensures
        final(v)@ == insert_by_index(old(v)@, x),
{
    let mut j = v.len();
    while j > 0 && v[j - 1].0 > x.0
        invariant
            j <= v@.len(),
            v@ == old(v)@,
            forall|k: int| j <= k < v@.len() ==> v@[k].0 > x.0,
        decreases j,
    {
        j -= 1;
    }
    proof {
        lemma_insert_at(v@, x, j as int);
    }
    v.insert(j, x);
}

// ----- notes -----

/// The notes held by stored entries (each read by the caller from its JSON
/// value, `None` when that failed), with the index in their keys; keys that
/// are not four bytes long, unreadable values and notes whose text is blank
/// are passed over.
pub open spec fn indexed_notes(entries: Seq<(Seq<u8>, Option<MarkdownNoteEntry>)>) -> Seq<
    (u32, MarkdownNoteEntry),
>
    decreases entries.len(),
{
    if entries.len() == 0 {
        Seq::empty()
    } else {
        let rest = indexed_notes(entries.drop_last());
        let (key, value) = entries.last();
        if key.len() == 4 && value is Some && crate::strings::trim(value->0.markdown@).len() > 0 {
            rest.push((be_u32_of(key), value->0))
        } else {
            rest
        }
    }
}

/// The notes a store holds, in the order of their indices.
pub open spec fn loaded_notes(entries: Seq<(Seq<u8>, Option<MarkdownNoteEntry>)>) -> Seq<MarkdownNoteEntry> {
    sort_by_index(indexed_notes(entries)).map_values(|p: (u32, MarkdownNoteEntry)| p.1)
}

/// Keys as plain bytes.
pub open spec fn note_entries_view(entries: Seq<(Vec<u8>, Option<MarkdownNoteEntry>)>) -> Seq<
    (Seq<u8>, Option<MarkdownNoteEntry>),
> {
    entries.map_values(|e: (Vec<u8>, Option<MarkdownNoteEntry>)| (e.0@, e.1))
}

/// Reads the notes of a store, ordered by their index keys.
pub fn load_markdown_notes_from_store(entries: &[(Vec<u8>, Option<MarkdownNoteEntry>)]) -> (r: Vec<
    MarkdownNoteEntry,
>)
    ensures
        r@ == loaded_notes(note_entries_view(entries@)),
{
    let ghost ev = note_entries_view(entries@);
    let mut indexed: Vec<(u32, MarkdownNoteEntry)> = Vec::new();
    let mut i: usize = 0;
    while i < entries.len()
        invariant
            i <= entries@.len(),
            ev == note_entries_view(entries@),
            indexed@ == sort_by_index(indexed_notes(ev.take(i as int))),
        decreases entries@.len() - i,
    {
        assert(ev.take(i + 1).drop_last() =~= ev.take(i as int));
        let (key, value) = &entries[i];
        let ghost prev = indexed_notes(ev.take(i as int));
        assert(ev.take(i + 1).last() == (key@, *value));
        if key.len() == 4 {
            match value {
                Some(n) => {
                    let text = crate::strings::trim_string(n.markdown.as_str());
                    if !text.as_str().is_empty() {
                        let index = u32_from_be_bytes(key.as_slice());
                        let item = (index, n.clone());
                        proof {
                            assert(indexed_notes(ev.take(i + 1)) == prev.push(item));
                            assert(prev.push(item).drop_last() =~= prev);
                        }
                        insert_by_index_exec(&mut indexed, item);
                    } else {
                        assert(indexed_notes(ev.take(i + 1)) == prev);
                    }
                },
                None => {
                    assert(indexed_notes(ev.take(i + 1)) == prev);
                },
            }
        } else {
            assert(indexed_notes(ev.take(i + 1)) == prev);
        }
        i += 1;
    }
    assert(ev.take(entries@.len() as int) =~= ev);
    let mut r: Vec<MarkdownNoteEntry> = Vec::new();
    let ghost sorted = indexed@;
    let ghost k: int = 0;
    while indexed.len() > 0
        invariant
            0 <= k <= sorted.len(),
            indexed@ == sorted.skip(k),
            r@ == sorted.take(k).map_values(|p: (u32, MarkdownNoteEntry)| p.1),
        decreases indexed@.len(),
    {
        let (_, n) = indexed.remove(0);
        r.push(n);
        proof {
            k = k + 1;
        }
        assert(indexed@ =~= sorted.skip(k));
        assert(r@ =~= sorted.take(k).map_values(|p: (u32, MarkdownNoteEntry)| p.1));
    }
    assert(sorted.take(k) =~= sorted);
    r
}

// ----- text markups -----

/// The markups held by stored entries (each read by the caller from its JSON
/// value, `None` when that failed), with the index in their keys; keys that
/// are not four bytes long, unreadable values and markups that cover no
/// rectangle are passed over.
pub open spec fn indexed_markups(entries: Seq<(Seq<u8>, Option<TextMarkupEntry>)>) -> Seq<
    (u32, TextMarkupEntry),
>
    decreases entries.len(),
{
    if entries.len() == 0 {
        Seq::empty()
    } else {
        let rest = indexed_markups(entries.drop_last());
        let (key, value) = entries.last();
        if key.len() == 4 && value is Some && value->0.rect_count > 0 {
            rest.push((be_u32_of(key), value->0))
        } else {
            rest
        }
    }
}

/// The markups a store holds, in the order of their indices.
pub open spec fn loaded_markups(entries: Seq<(Seq<u8>, Option<TextMarkupEntry>)>) -> Seq<TextMarkupEntry> {
    sort_by_index(indexed_markups(entries)).map_values(|p: (u32, TextMarkupEntry)| p.1)
}

/// Keys as plain bytes.
pub open spec fn markup_entries_view(entries: Seq<(Vec<u8>, Option<TextMarkupEntry>)>) -> Seq<
    (Seq<u8>, Option<TextMarkupEntry>),
> {
    entries.map_values(|e: (Vec<u8>, Option<TextMarkupEntry>)| (e.0@, e.1))
}

/// Reads the text markups of a store, ordered by their index keys.
pub fn load_text_markups_from_store(entries: &[(Vec<u8>, Option<TextMarkupEntry>)]) -> (r: Vec<
    TextMarkupEntry,
>)
    ensures
        r@ == loaded_markups(markup_entries_view(entries@)),
{
    let ghost ev = markup_entries_view(entries@);
    let mut indexed: Vec<(u32, TextMarkupEntry)> = Vec::new();
    let mut i: usize = 0;
    while i < entries.len()
        invariant
            i <= entries@.len(),
            ev == markup_entries_view(entries@),
            indexed@ == sort_by_index(indexed_markups(ev.take(i as int))),
        decreases entries@.len() - i,
    {
        assert(ev.take(i + 1).drop_last() =~= ev.take(i as int));
        let (key, value) = &entries[i];
        let ghost prev = indexed_markups(ev.take(i as int));
        assert(ev.take(i + 1).last() == (key@, *value));
        if key.len() == 4 {
            match value {
                Some(m) => {
                    if m.rect_count > 0 {
                        let index = u32_from_be_bytes(key.as_slice());
                        let item = (index, m.clone());
                        proof {
                            assert(indexed_markups(ev.take(i + 1)) == prev.push(item));
                            assert(prev.push(item).drop_last() =~= prev);
                        }
                        insert_by_index_exec(&mut indexed, item);
                    } else {
                        assert(indexed_markups(ev.take(i + 1)) == prev);
                    }
                },
                None => {
                    assert(indexed_markups(ev.take(i + 1)) == prev);
                },
            }
        } else {
            assert(indexed_markups(ev.take(i + 1)) == prev);
        }
        i += 1;
    }
    assert(ev.take(entries@.len() as int) =~= ev);
    let mut r: Vec<TextMarkupEntry> = Vec::new();
    let ghost sorted = indexed@;
    let ghost k: int = 0;
    while indexed.len() > 0
        invariant
            0 <= k <= sorted.len(),
            indexed@ == sorted.skip(k),
            r@ == sorted.take(k).map_values(|p: (u32, TextMarkupEntry)| p.1),
        decreases indexed@.len(),
    {
        let (_, m) = indexed.remove(0);
        r.push(m);
        proof {
            k = k + 1;
        }
        assert(indexed@ =~= sorted.skip(k));
        assert(r@ =~= sorted.take(k).map_values(|p: (u32, TextMarkupEntry)| p.1));
    }
    assert(sorted.take(k) =~= sorted);
    r
}

/// The keys under which a list of `count` notes is stored: the `i`-th under
/// its position as four big-endian bytes.
pub fn notes_store_keys(count: usize) -> (r: Vec<[u8; 4]>)
    requires
        count <= u32::MAX as usize + 1,
    ensures
        r@.len() == count,
        forall|i: int| 0 <= i < count ==> (#[trigger] r@[i])@ == index_key(i),
{
    let mut r: Vec<[u8; 4]> = Vec::new();
    let mut i: usize = 0;
    while i < count
        invariant
            i <= count,
            count <= u32::MAX as usize + 1,
            r@.len() == i,
            forall|j: int| 0 <= j < i ==> (#[trigger] r@[j])@ == index_key(j),
        decreases count - i,
    {
        let key = u32_to_be_bytes(i as u32);
        r.push(key);
        i += 1;
    }
    r
}

// ----- reading positions -----

/// How a reading position (a page index) is stored.
pub open spec fn encoded_file_position(page_index: usize) -> Seq<u8> {
    be_u64_bytes(page_index as u64)
}

/// The page index a stored reading position holds: eight bytes, big-endian,
/// fitting in a `usize`.
pub open spec fn decoded_file_position(value: Seq<u8>) -> Option<usize> {
    if value.len() != 8 {
        None
    } else {
        u64_as_usize(be_u64_of(value))
    }
}

/// The bytes stored for a reading position.
pub fn encode_file_position(page_index: usize) -> (r: [u8; 8])
    ensures
        r@ == encoded_file_position(page_index),
{
    u64_to_be_bytes(page_index as u64)
}

/// Reads a stored reading position.
pub fn decode_file_position(value: &[u8]) -> (r: Option<usize>)
    ensures
        r == decoded_file_position(value@),
{
    if value.len() != 8 {
        return None;
    }
    u64_to_usize(u64_from_be_bytes(value))
}

/// A stored reading position reads back as the page that was stored.
pub proof fn lemma_file_position_round_trip(page_index: usize)
    ensures
        decoded_file_position(encoded_file_position(page_index)) == Some(page_index),
{
    lemma_be_u64_round_trip(page_index as u64);
}

// ----- bookmarks -----

/// How a bookmark is stored: page (8 bytes), creation time (8 bytes), then the
/// path's UTF-8 bytes.
pub open spec fn encoded_bookmark(b: BookmarkView) -> Seq<u8> {
    be_u64_bytes(b.page_index as u64) + be_u64_bytes(b.created_at_unix_secs) + utf8_bytes(b.path)
}

/// The bookmark a stored value holds. Values of up to 16 bytes use the older
/// layout without a creation time (which then reads as 0); the path must be
/// valid UTF-8 and not empty.
pub open spec fn decoded_bookmark(value: Seq<u8>) -> Option<BookmarkView> {
    if value.len() < 9 {
        None
    } else {
        match u64_as_usize(be_u64_of(value)) {
            None => None,
            Some(page_index) => {
                let created = if value.len() >= 17 {
                    be_u64_of(value.subrange(8, 16))
                } else {
                    0
                };
                let path_bytes = if value.len() >= 17 {
                    value.subrange(16, value.len() as int)
                } else {
                    value.subrange(8, value.len() as int)
                };
                match utf8_text(path_bytes) {
                    Some(path) => if path.len() == 0 {
                        None
                    } else {
                        Some(BookmarkView { path, page_index, created_at_unix_secs: created })
                    },
                    None => None,
                }
            },
        }
    }
}

fn copy_range(v: &[u8], from: usize, to: usize) -> (r: Vec<u8>)
    requires
        from <= to <= v@.len(),
    ensures
        r@ == v@.subrange(from as int, to as int),
{
    let mut r: Vec<u8> = Vec::new();
    let mut i = from;
    while i < to
        invariant
            from <= i <= to <= v@.len(),
            r@ == v@.subrange(from as int, i as int),
        decreases to - i,
    {
        r.push(v[i]);
        i += 1;
        assert(r@ =~= v@.subrange(from as int, i as int));
    }
    r
}

/// Reads one stored bookmark.
pub fn decode_bookmark_entry_from_store(value: &[u8]) -> (r: Option<BookmarkEntry>)
    ensures
        match r {
            Some(b) => decoded_bookmark(value@) == Some(b@),
            None => decoded_bookmark(value@) is None,
        },
{
    if value.len() < 9 {
        return None;
    }
    let page_index = match u64_to_usize(u64_from_be_bytes(value)) {
        Some(p) => p,
        None => return None,
    };
    let (created_at_unix_secs, path_bytes) = if value.len() >= 17 {
        let created_bytes = copy_range(value, 8, 16);
        (u64_from_be_bytes(created_bytes.as_slice()), copy_range(value, 16, value.len()))
    } else {
        (0u64, copy_range(value, 8, value.len()))
    };
    let path = match string_from_utf8(path_bytes) {
        Some(p) => p,
        None => return None,
    };
    if path.as_str().is_empty() {
        return None;
    }
    Some(BookmarkEntry { path, page_index, created_at_unix_secs })
}

/// The bytes stored for a bookmark.
pub fn encode_bookmark_entry(b: &BookmarkEntry) -> (r: Vec<u8>)
    ensures
        r@ == encoded_bookmark(b@),
{
    let page = u64_to_be_bytes(b.page_index as u64);
    let created = u64_to_be_bytes(b.created_at_unix_secs);
    let path = text_bytes(b.path.as_str());
    let mut r: Vec<u8> = Vec::new();
    let mut i: usize = 0;
    while i < 8
        invariant
            i <= 8,
            r@ == page@.take(i as int),
        decreases 8 - i,
    {
        r.push(page[i]);
        i += 1;
        assert(r@ =~= page@.take(i as int));
    }
    let mut i: usize = 0;
    while i < 8
        invariant
            i <= 8,
            r@ == page@ + created@.take(i as int),
        decreases 8 - i,
    {
        r.push(created[i]);
        i += 1;
        assert(r@ =~= page@ + created@.take(i as int));
    }
    let mut i: usize = 0;
    while i < path.len()
        invariant
            i <= path@.len(),
            r@ == page@ + created@ + path@.take(i as int),
        decreases path@.len() - i,
    {
        r.push(path[i]);
        i += 1;
        assert(r@ =~= page@ + created@ + path@.take(i as int));
    }
    assert(page@.take(8) =~= page@);
    assert(created@.take(8) =~= created@);
    assert(path@.take(path@.len() as int) =~= path@);
    r
}

/// A stored bookmark reads back as it was, provided its path is not empty.
pub proof fn lemma_bookmark_round_trip(b: BookmarkView)
    requires
        b.path.len() > 0,
    ensures
        decoded_bookmark(encoded_bookmark(b)) == Some(b),
{
    let v = encoded_bookmark(b);
    let pb = be_u64_bytes(b.page_index as u64);
    let cb = be_u64_bytes(b.created_at_unix_secs);
    lemma_utf8_round_trip(b.path);
    lemma_be_u64_round_trip(b.page_index as u64);
    lemma_be_u64_round_trip(b.created_at_unix_secs);
    assert(v.len() >= 17);
    assert(be_u64_of(v) == be_u64_of(pb));
    assert(v.subrange(8, 16) =~= cb);
    assert(v.subrange(16, v.len() as int) =~= utf8_bytes(b.path));
}

/// The key of the `index`-th entry of a list store: its position as four
/// big-endian bytes.
pub open spec fn index_key(index: int) -> Seq<u8> {
    be_u32_bytes(index as u32)
}

/// The bookmarks held by stored entries, each with the index in its key; keys
/// that are not four bytes long and values that do not decode are passed over.
pub open spec fn indexed_bookmarks(entries: Seq<(Seq<u8>, Seq<u8>)>) -> Seq<(u32, BookmarkView)>
    decreases entries.len(),
{
    if entries.len() == 0 {
        Seq::empty()
    } else {
        let rest = indexed_bookmarks(entries.drop_last());
        let (key, value) = entries.last();
        if key.len() == 4 && decoded_bookmark(value) is Some {
            rest.push((be_u32_of(key), decoded_bookmark(value)->0))
        } else {
            rest
        }
    }
}

/// The bookmarks a store holds, in the order of their indices.
pub open spec fn loaded_bookmarks(entries: Seq<(Seq<u8>, Seq<u8>)>) -> Seq<BookmarkView> {
    sort_by_index(indexed_bookmarks(entries)).map_values(|p: (u32, BookmarkView)| p.1)
}

/// The entries stored for a list of bookmarks: the `i`-th under key `i`.
pub open spec fn stored_bookmarks(bookmarks: Seq<BookmarkView>) -> Seq<(Seq<u8>, Seq<u8>)> {
    Seq::new(bookmarks.len(), |i: int| (index_key(i), encoded_bookmark(bookmarks[i])))
}

/// Reads the bookmarks of a store, ordered by their index keys.
pub fn load_bookmarks_from_store(entries: &[(Vec<u8>, Vec<u8>)]) -> (r: Vec<BookmarkEntry>)
    ensures
        r@.map_values(|b: BookmarkEntry| b@) == loaded_bookmarks(entries_view(entries@)),
{
    let ghost ev = entries_view(entries@);
    let mut indexed: Vec<(u32, BookmarkEntry)> = Vec::new();
    let mut i: usize = 0;
    while i < entries.len()
        invariant
            i <= entries@.len(),
            ev == entries_view(entries@),
            indexed@.map_values(|p: (u32, BookmarkEntry)| (p.0, p.1@)) == sort_by_index(
                indexed_bookmarks(ev.take(i as int)),
            ),
        decreases entries@.len() - i,
    {
        let ghost before = indexed@;
        assert(ev.take(i + 1).drop_last() =~= ev.take(i as int));
        let (key, value) = &entries[i];
        let ghost prev = indexed_bookmarks(ev.take(i as int));
        assert(ev.take(i + 1).last() == (key@, value@));
        if key.len() == 4 {
            match decode_bookmark_entry_from_store(value.as_slice()) {
                Some(b) => {
                    let index = u32_from_be_bytes(key.as_slice());
                    let ghost item = (index, b@);
                    insert_by_index_exec(&mut indexed, (index, b));
                    proof {
                        lemma_insert_view(before, (index, b));
                        assert(indexed_bookmarks(ev.take(i + 1)) == prev.push(item));
                        assert(prev.push(item).drop_last() =~= prev);
                    }
                },
                None => {
                    assert(indexed_bookmarks(ev.take(i + 1)) == prev);
                },
            }
        } else {
            assert(indexed_bookmarks(ev.take(i + 1)) == prev);
        }
        i += 1;
    }
    assert(ev.take(entries@.len() as int) =~= ev);
    let mut r: Vec<BookmarkEntry> = Vec::new();
    let ghost sorted = indexed@;
    let ghost k: int = 0;
    while indexed.len() > 0
        invariant
            0 <= k <= sorted.len(),
            indexed@ == sorted.skip(k),
            r@ == sorted.take(k).map_values(|p: (u32, BookmarkEntry)| p.1),
        decreases indexed@.len(),
    {
        let (_, b) = indexed.remove(0);
        r.push(b);
        proof {
            k = k + 1;
        }
        assert(indexed@ =~= sorted.skip(k));
        assert(r@ =~= sorted.take(k).map_values(|p: (u32, BookmarkEntry)| p.1));
    }
    assert(sorted.take(k) =~= sorted);
    assert(r@.map_values(|b: BookmarkEntry| b@) =~= sorted.map_values(|p: (u32, BookmarkEntry)| (p.0, p.1@)).map_values(|p: (u32, BookmarkView)| p.1));
    r
}

proof fn lemma_insert_view(s: Seq<(u32, BookmarkEntry)>, x: (u32, BookmarkEntry))
    ensures
        insert_by_index(s, x).map_values(|p: (u32, BookmarkEntry)| (p.0, p.1@)) == insert_by_index(
            s.map_values(|p: (u32, BookmarkEntry)| (p.0, p.1@)),
            (x.0, x.1@),
        ),
    decreases s.len(),
{
    let f = |p: (u32, BookmarkEntry)| (p.0, p.1@);
    if s.len() == 0 {
        assert(seq![x].map_values(f) =~= seq![(x.0, x.1@)]);
    } else if s.last().0 <= x.0 {
        assert(s.push(x).map_values(f) =~= s.map_values(f).push((x.0, x.1@)));
    } else {
        lemma_insert_view(s.drop_last(), x);
        assert(s.map_values(f).drop_last() =~= s.drop_last().map_values(f));
        assert(insert_by_index(s.drop_last(), x).push(s.last()).map_values(f) =~= insert_by_index(
            s.drop_last(),
            x,
        ).map_values(f).push(f(s.last())));
    }
}

/// The entries to store for a list of bookmarks: the `i`-th under key `i`.
pub fn bookmarks_store_entries(bookmarks: &[BookmarkEntry]) -> (r: Vec<(Vec<u8>, Vec<u8>)>)
    ensures
        entries_view(r@) == stored_bookmarks(bookmarks@.map_values(|b: BookmarkEntry| b@)),
{
    let ghost views = bookmarks@.map_values(|b: BookmarkEntry| b@);
    let mut r: Vec<(Vec<u8>, Vec<u8>)> = Vec::new();
    let mut i: usize = 0;
    while i < bookmarks.len()
        invariant
            i <= bookmarks@.len(),
            views == bookmarks@.map_values(|b: BookmarkEntry| b@),
            entries_view(r@) == stored_bookmarks(views).take(i as int),
        decreases bookmarks@.len() - i,
    {
        let key = u32_to_be_bytes(#[verifier::truncate] (i as u32));
        let value = encode_bookmark_entry(&bookmarks[i]);
        let key_vec = copy_range(key.as_slice(), 0, 4);
        assert(key@.subrange(0, 4) =~= key@);
        let ghost before = r@;
        r.push((key_vec, value));
        proof {
            assert(views[i as int] == bookmarks@[i as int]@);
            assert(stored_bookmarks(views)[i as int] == (index_key(i as int), encoded_bookmark(views[i as int])));
            assert(key_vec@ == index_key(i as int));
            assert(entries_view(r@) =~= entries_view(before).push((key_vec@, value@)));
        }
        i += 1;
        assert(entries_view(r@) =~= stored_bookmarks(views).take(i as int));
    }
    assert(stored_bookmarks(views).take(i as int) =~= stored_bookmarks(views));
    r
}

proof fn lemma_indexed_bookmarks_stored(bookmarks: Seq<BookmarkView>, k: int)
    requires
        0 <= k <= bookmarks.len(),
        bookmarks.len() <= u32::MAX + 1,
        forall|i: int| 0 <= i < bookmarks.len() ==> (#[trigger] bookmarks[i]).path.len() > 0,
    ensures
        indexed_bookmarks(stored_bookmarks(bookmarks).take(k)) == Seq::new(
            k as nat,
            |i: int| (i as u32, bookmarks[i]),
        ),
    decreases k,
{
    let st = stored_bookmarks(bookmarks);
    if k == 0 {
        assert(st.take(0) =~= Seq::<(Seq<u8>, Seq<u8>)>::empty());
        assert(Seq::new(0, |i: int| (i as u32, bookmarks[i])) =~= Seq::<(u32, BookmarkView)>::empty());
    } else {
        lemma_indexed_bookmarks_stored(bookmarks, k - 1);
        assert(st.take(k).drop_last() =~= st.take(k - 1));
        lemma_bookmark_round_trip(bookmarks[k - 1]);
        lemma_be_u32_round_trip((k - 1) as u32);
        assert(Seq::new((k - 1) as nat, |i: int| (i as u32, bookmarks[i])).push(((k - 1) as u32, bookmarks[k - 1]))
            =~= Seq::new(k as nat, |i: int| (i as u32, bookmarks[i])));
    }
}

/// Bookmarks read back from what was stored for them are the same bookmarks
/// in the same order (as long as none has an empty path and the indices fit in
/// the four-byte keys).
pub proof fn lemma_bookmarks_round_trip(bookmarks: Seq<BookmarkView>)
    requires
        bookmarks.len() <= u32::MAX + 1,
        forall|i: int| 0 <= i < bookmarks.len() ==> (#[trigger] bookmarks[i]).path.len() > 0,
    ensures
        loaded_bookmarks(stored_bookmarks(bookmarks)) == bookmarks,
{
    let st = stored_bookmarks(bookmarks);
    lemma_indexed_bookmarks_stored(bookmarks, bookmarks.len() as int);
    assert(st.take(bookmarks.len() as int) =~= st);
    let idx = Seq::new(bookmarks.len(), |i: int| (i as u32, bookmarks[i]));
    assert(index_sorted(idx));
    lemma_sort_sorted(idx);
    assert(idx.map_values(|p: (u32, BookmarkView)| p.1) =~= bookmarks);
}

// ----- stored paths (recent files, open tabs) -----

/// The path a stored value holds: valid UTF-8 and not empty.
pub open spec fn decoded_path(value: Seq<u8>) -> Option<Seq<char>> {
    match utf8_text(value) {
        Some(p) => if p.len() == 0 {
            None
        } else {
            Some(p)
        },
        None => None,
    }
}

/// Reads a stored path.
pub fn decode_stored_path(value: &[u8]) -> (r: Option<String>)
    ensures
        match r {
            Some(p) => decoded_path(value@) == Some(p@),
            None => decoded_path(value@) is None,
        },
{
    let bytes = copy_range(value, 0, value.len());
    assert(value@.subrange(0, value@.len() as int) =~= value@);
    match string_from_utf8(bytes) {
        Some(p) => if p.as_str().is_empty() {
            None
        } else {
            Some(p)
        },
        None => None,
    }
}

proof fn lemma_path_round_trip(p: Seq<char>)
    requires
        p.len() > 0,
    ensures
        decoded_path(utf8_bytes(p)) == Some(p),
{
    lemma_utf8_round_trip(p);
}

/// At most the first `n` elements.
pub open spec fn first_n<T>(s: Seq<T>, n: int) -> Seq<T> {
    if s.len() <= n {
        s
    } else {
        s.take(n)
    }
}

/// The paths held by stored values, in order, passing over the ones that do
/// not decode.
pub open spec fn decoded_paths(values: Seq<Seq<u8>>) -> Seq<Seq<char>>
    decreases values.len(),
{
    if values.len() == 0 {
        Seq::empty()
    } else {
        let rest = decoded_paths(values.drop_last());
        match decoded_path(values.last()) {
            Some(p) => rest.push(p),
            None => rest,
        }
    }
}

/// The recent files a store holds: the first twelve of its paths.
pub open spec fn loaded_recent_files(values: Seq<Seq<u8>>) -> Seq<Seq<char>> {
    first_n(decoded_paths(values), MAX_RECENT_FILES as int)
}

/// Reads the recent files from the store's values, in key order.
pub fn load_recent_files_from_store(values: &[Vec<u8>]) -> (r: Vec<String>)
    ensures
        r@.map_values(|p: String| p@) == loaded_recent_files(values@.map_values(|v: Vec<u8>| v@)),
{
    let ghost vs = values@.map_values(|v: Vec<u8>| v@);
    let mut r: Vec<String> = Vec::new();
    let mut i: usize = 0;
    while i < values.len() && r.len() < MAX_RECENT_FILES
        invariant
            i <= values@.len(),
            vs == values@.map_values(|v: Vec<u8>| v@),
            r@.len() <= MAX_RECENT_FILES,
            r@.map_values(|p: String| p@) == decoded_paths(vs.take(i as int)),
        decreases values@.len() - i,
    {
        assert(vs.take(i + 1).drop_last() =~= vs.take(i as int));
        assert(vs.take(i + 1).last() == values@[i as int]@);
        let ghost before = r@;
        match decode_stored_path(values[i].as_slice()) {
            Some(p) => {
                r.push(p);
                assert(r@.map_values(|p: String| p@) =~= before.map_values(|p: String| p@).push(
                    r@.last()@,
                ));
            },
            None => {},
        }
        i += 1;
    }
    proof {
        lemma_decoded_paths_prefix(vs, i as int);
        assert(vs.take(values@.len() as int) =~= vs);
    }
    r
}

/// Once twelve paths are found, later values do not change the first twelve.
proof fn lemma_decoded_paths_prefix(vs: Seq<Seq<u8>>, i: int)
    requires
        0 <= i <= vs.len(),
        i < vs.len() ==> decoded_paths(vs.take(i)).len() >= MAX_RECENT_FILES,
        decoded_paths(vs.take(i)).len() <= MAX_RECENT_FILES,
    ensures
        first_n(decoded_paths(vs), MAX_RECENT_FILES as int) == decoded_paths(vs.take(i)),
    decreases vs.len() - i,
{
    if i == vs.len() {
        assert(vs.take(i) =~= vs);
    } else {
        lemma_decoded_paths_extends(vs, i, vs.len() as int);
        assert(vs.take(vs.len() as int) =~= vs);
        let a = decoded_paths(vs.take(i));
        let b = decoded_paths(vs);
        assert(b.take(MAX_RECENT_FILES as int) =~= a);
    }
}

proof fn lemma_decoded_paths_extends(vs: Seq<Seq<u8>>, i: int, j: int)
    requires
        0 <= i <= j <= vs.len(),
    ensures
        decoded_paths(vs.take(j)).len() >= decoded_paths(vs.take(i)).len(),
        decoded_paths(vs.take(j)).take(decoded_paths(vs.take(i)).len() as int) == decoded_paths(
            vs.take(i),
        ),
    decreases j - i,
{
    if i < j {
        lemma_decoded_paths_extends(vs, i, j - 1);
        assert(vs.take(j).drop_last() =~= vs.take(j - 1));
        let a = decoded_paths(vs.take(i));
        let b = decoded_paths(vs.take(j - 1));
        let c = decoded_paths(vs.take(j));
        assert(c.take(a.len() as int) =~= b.take(a.len() as int));
    } else {
        let a = decoded_paths(vs.take(i));
        assert(a.take(a.len() as int) =~= a);
    }
}

/// The entries stored for a list of paths: the `i`-th under key `i`.
pub open spec fn stored_paths(paths: Seq<Seq<char>>) -> Seq<(Seq<u8>, Seq<u8>)> {
    Seq::new(paths.len(), |i: int| (index_key(i), utf8_bytes(paths[i])))
}

fn store_paths(paths: &[String]) -> (r: Vec<(Vec<u8>, Vec<u8>)>)
    ensures
        entries_view(r@) == stored_paths(paths@.map_values(|p: String| p@)),
{
    let ghost views = paths@.map_values(|p: String| p@);
    let mut r: Vec<(Vec<u8>, Vec<u8>)> = Vec::new();
    let mut i: usize = 0;
    while i < paths.len()
        invariant
            i <= paths@.len(),
            views == paths@.map_values(|p: String| p@),
            entries_view(r@) == stored_paths(views).take(i as int),
        decreases paths@.len() - i,
    {
        let key = u32_to_be_bytes(#[verifier::truncate] (i as u32));
        let key_vec = copy_range(key.as_slice(), 0, 4);
        assert(key@.subrange(0, 4) =~= key@);
        let value = text_bytes(paths[i].as_str());
        let ghost before = r@;
        r.push((key_vec, value));
        proof {
            assert(key_vec@ == index_key(i as int));
            assert(entries_view(r@) =~= entries_view(before).push((key_vec@, value@)));
        }
        i += 1;
        assert(entries_view(r@) =~= stored_paths(views).take(i as int));
    }
    assert(stored_paths(views).take(i as int) =~= stored_paths(views));
    r
}

/// The entries to store for the recent files: the first twelve, the `i`-th
/// under key `i`.
pub fn recent_files_store_entries(recent_files: &[String]) -> (r: Vec<(Vec<u8>, Vec<u8>)>)
    ensures
        entries_view(r@) == stored_paths(
            first_n(recent_files@.map_values(|p: String| p@), MAX_RECENT_FILES as int),
        ),
{
    let mut kept: Vec<String> = Vec::new();
    let mut i: usize = 0;
    while i < recent_files.len() && i < MAX_RECENT_FILES
        invariant
            i <= recent_files@.len(),
            i <= MAX_RECENT_FILES,
            kept@ == recent_files@.take(i as int),
        decreases recent_files@.len() - i,
    {
        kept.push(recent_files[i].clone());
        i += 1;
        assert(kept@ =~= recent_files@.take(i as int));
    }
    proof {
        if recent_files@.len() <= MAX_RECENT_FILES {
            assert(recent_files@.take(i as int) =~= recent_files@);
        }
        assert(kept@.map_values(|p: String| p@) =~= first_n(
            recent_files@.map_values(|p: String| p@),
            MAX_RECENT_FILES as int,
        ));
    }
    store_paths(kept.as_slice())
}

proof fn lemma_decoded_stored_paths(paths: Seq<Seq<char>>, k: int)
    requires
        0 <= k <= paths.len(),
        forall|i: int| 0 <= i < paths.len() ==> (#[trigger] paths[i]).len() > 0,
    ensures
        decoded_paths(stored_paths(paths).map_values(|e: (Seq<u8>, Seq<u8>)| e.1).take(k))
            == paths.take(k),
    decreases k,
{
    let vs = stored_paths(paths).map_values(|e: (Seq<u8>, Seq<u8>)| e.1);
    if k == 0 {
        assert(vs.take(0) =~= Seq::<Seq<u8>>::empty());
        assert(paths.take(0) =~= Seq::<Seq<char>>::empty());
    } else {
        lemma_decoded_stored_paths(paths, k - 1);
        assert(vs.take(k).drop_last() =~= vs.take(k - 1));
        lemma_path_round_trip(paths[k - 1]);
        assert(paths.take(k - 1).push(paths[k - 1]) =~= paths.take(k));
    }
}

/// The recent files read back from what was stored for them are the first
/// twelve of them, in order (as long as none is empty).
pub proof fn lemma_recent_files_round_trip(recent_files: Seq<Seq<char>>)
    requires
        forall|i: int| 0 <= i < recent_files.len() ==> (#[trigger] recent_files[i]).len() > 0,
    ensures
        loaded_recent_files(
            stored_paths(first_n(recent_files, MAX_RECENT_FILES as int)).map_values(
                |e: (Seq<u8>, Seq<u8>)| e.1,
            ),
        ) == first_n(recent_files, MAX_RECENT_FILES as int),
{
    let kept = first_n(recent_files, MAX_RECENT_FILES as int);
    assert forall|i: int| 0 <= i < kept.len() implies (#[trigger] kept[i]).len() > 0 by {
        assert(kept[i] == recent_files[i]);
    }
    lemma_decoded_stored_paths(kept, kept.len() as int);
    let vs = stored_paths(kept).map_values(|e: (Seq<u8>, Seq<u8>)| e.1);
    assert(vs.take(kept.len() as int) =~= vs);
    assert(kept.take(kept.len() as int) =~= kept);
}

// ----- open tabs -----

/// The paths of the tabs that show a file, in tab order.
pub open spec fn open_tab_paths(tabs: Seq<PdfTab>) -> Seq<Seq<char>>
    decreases tabs.len(),
{
    if tabs.len() == 0 {
        Seq::empty()
    } else {
        let rest = open_tab_paths(tabs.drop_last());
        match tabs.last().path {
            Some(p) => rest.push(p@),
            None => rest,
        }
    }
}

/// Position of the active tab among the tabs that show a file.
pub open spec fn open_tab_active_position(tabs: Seq<PdfTab>, active: Option<usize>) -> Option<usize>
    decreases tabs.len(),
{
    if tabs.len() == 0 {
        None
    } else if tabs.last().path is Some && active == Some(tabs.last().id) {
        Some(open_tab_paths(tabs.drop_last()).len() as usize)
    } else {
        open_tab_active_position(tabs.drop_last(), active)
    }
}

/// What is stored for the open tabs: one entry per tab that shows a file, and
/// the position of the active one among them.
pub struct OpenTabsRecord {
    pub entries: Vec<(Vec<u8>, Vec<u8>)>,
    pub active_index: Option<[u8; 8]>,
}

/// The record to store for the open tabs.
pub fn open_tabs_store_record(tab_bar: &TabBar) -> (r: OpenTabsRecord)
    ensures
        entries_view(r.entries@) == stored_paths(open_tab_paths(tab_bar.spec_tabs())),
        match open_tab_active_position(tab_bar.spec_tabs(), tab_bar.spec_active_tab_id()) {
            Some(p) => r.active_index is Some && r.active_index->0@ == be_u64_bytes(p as u64),
            None => r.active_index is None,
        },
{
    let tabs = tab_bar.tabs();
    let active_tab_id = tab_bar.active_tab_id();
    let mut active_index: Option<usize> = None;
    let mut open_paths: Vec<String> = Vec::new();
    let mut i: usize = 0;
    while i < tabs.len()
        invariant
            i <= tabs@.len(),
            tabs@ == tab_bar.spec_tabs(),
            active_tab_id == tab_bar.spec_active_tab_id(),
            open_paths@.map_values(|p: String| p@) == open_tab_paths(tabs@.take(i as int)),
            active_index == open_tab_active_position(tabs@.take(i as int), active_tab_id),
        decreases tabs@.len() - i,
    {
        assert(tabs@.take(i + 1).drop_last() =~= tabs@.take(i as int));
        let ghost before = open_paths@;
        match &tabs[i].path {
            Some(path) => {
                if active_tab_id == Some(tabs[i].id) {
                    active_index = Some(open_paths.len());
                }
                open_paths.push(path.clone());
                assert(open_paths@.map_values(|p: String| p@) =~= before.map_values(
                    |p: String| p@,
                ).push(path@));
            },
            None => {},
        }
        i += 1;
    }
    assert(tabs@.take(tabs@.len() as int) =~= tabs@);
    let entries = store_paths(open_paths.as_slice());
    let active_index = match active_index {
        Some(p) => Some(u64_to_be_bytes(p as u64)),
        None => None,
    };
    OpenTabsRecord { entries, active_index }
}

/// The paths a store of open tabs holds, each with the index in its key.
pub open spec fn indexed_paths(entries: Seq<(Seq<u8>, Seq<u8>)>) -> Seq<(u32, Seq<char>)>
    decreases entries.len(),
{
    if entries.len() == 0 {
        Seq::empty()
    } else {
        let rest = indexed_paths(entries.drop_last());
        let (key, value) = entries.last();
        if key.len() == 4 && decoded_path(value) is Some {
            rest.push((be_u32_of(key), decoded_path(value)->0))
        } else {
            rest
        }
    }
}

/// The open tabs a store holds, in the order of their indices, and the stored
/// position of the active one (eight bytes, big-endian).
pub open spec fn loaded_open_tabs(entries: Seq<(Seq<u8>, Seq<u8>)>, active: Option<Seq<u8>>) -> (
    Seq<Seq<char>>,
    Option<usize>,
) {
    (
        sort_by_index(indexed_paths(entries)).map_values(|p: (u32, Seq<char>)| p.1),
        match active {
            Some(raw) => decoded_file_position(raw),
            None => None,
        },
    )
}

proof fn lemma_insert_path_view(s: Seq<(u32, String)>, x: (u32, String))
    ensures
        insert_by_index(s, x).map_values(|p: (u32, String)| (p.0, p.1@)) == insert_by_index(
            s.map_values(|p: (u32, String)| (p.0, p.1@)),
            (x.0, x.1@),
        ),
    decreases s.len(),
{
    let f = |p: (u32, String)| (p.0, p.1@);
    if s.len() == 0 {
        assert(seq![x].map_values(f) =~= seq![(x.0, x.1@)]);
    } else if s.last().0 <= x.0 {
        assert(s.push(x).map_values(f) =~= s.map_values(f).push((x.0, x.1@)));
    } else {
        lemma_insert_path_view(s.drop_last(), x);
        assert(s.map_values(f).drop_last() =~= s.drop_last().map_values(f));
        assert(insert_by_index(s.drop_last(), x).push(s.last()).map_values(f) =~= insert_by_index(
            s.drop_last(),
            x,
        ).map_values(f).push(f(s.last())));
    }
}

/// Reads the open tabs: their paths ordered by index key, and the active
/// tab's position.
pub fn load_open_tabs_from_store(entries: &[(Vec<u8>, Vec<u8>)], active_index: Option<&[u8]>) -> (r: (
    Vec<String>,
    Option<usize>,
))
    ensures
        (r.0@.map_values(|p: String| p@), r.1) == loaded_open_tabs(
            entries_view(entries@),
            match active_index {
                Some(a) => Some(a@),
                None => None,
            },
        ),
{
    let ghost ev = entries_view(entries@);
    let mut indexed: Vec<(u32, String)> = Vec::new();
    let mut i: usize = 0;
    while i < entries.len()
        invariant
            i <= entries@.len(),
            ev == entries_view(entries@),
            indexed@.map_values(|p: (u32, String)| (p.0, p.1@)) == sort_by_index(
                indexed_paths(ev.take(i as int)),
            ),
        decreases entries@.len() - i,
    {
        let ghost before = indexed@;
        assert(ev.take(i + 1).drop_last() =~= ev.take(i as int));
        let (key, value) = &entries[i];
        let ghost prev = indexed_paths(ev.take(i as int));
        assert(ev.take(i + 1).last() == (key@, value@));
        if key.len() == 4 {
            match decode_stored_path(value.as_slice()) {
                Some(p) => {
                    let index = u32_from_be_bytes(key.as_slice());
                    let ghost item = (index, p@);
                    insert_by_index_exec(&mut indexed, (index, p));
                    proof {
                        lemma_insert_path_view(before, (index, p));
                        assert(indexed_paths(ev.take(i + 1)) == prev.push(item));
                        assert(prev.push(item).drop_last() =~= prev);
                    }
                },
                None => {
                    assert(indexed_paths(ev.take(i + 1)) == prev);
                },
            }
        } else {
            assert(indexed_paths(ev.take(i + 1)) == prev);
        }
        i += 1;
    }
    assert(ev.take(entries@.len() as int) =~= ev);
    let mut paths: Vec<String> = Vec::new();
    let ghost sorted = indexed@;
    let ghost k: int = 0;
    while indexed.len() > 0
        invariant
            0 <= k <= sorted.len(),
            indexed@ == sorted.skip(k),
            paths@ == sorted.take(k).map_values(|p: (u32, String)| p.1),
        decreases indexed@.len(),
    {
        let (_, p) = indexed.remove(0);
        paths.push(p);
        proof {
            k = k + 1;
        }
        assert(indexed@ =~= sorted.skip(k));
        assert(paths@ =~= sorted.take(k).map_values(|p: (u32, String)| p.1));
    }
    assert(sorted.take(k) =~= sorted);
    assert(paths@.map_values(|p: String| p@) =~= sorted.map_values(
        |p: (u32, String)| (p.0, p.1@),
    ).map_values(|p: (u32, Seq<char>)| p.1));
    let active = match active_index {
        Some(raw) => decode_file_position(raw),
        None => None,
    };
    (paths, active)
}

proof fn lemma_indexed_paths_stored(paths: Seq<Seq<char>>, k: int)
    requires
        0 <= k <= paths.len(),
        paths.len() <= u32::MAX + 1,
        forall|i: int| 0 <= i < paths.len() ==> (#[trigger] paths[i]).len() > 0,
    ensures
        indexed_paths(stored_paths(paths).take(k)) == Seq::new(k as nat, |i: int| (i as u32, paths[i])),
    decreases k,
{
    let st = stored_paths(paths);
    if k == 0 {
        assert(st.take(0) =~= Seq::<(Seq<u8>, Seq<u8>)>::empty());
        assert(Seq::new(0, |i: int| (i as u32, paths[i])) =~= Seq::<(u32, Seq<char>)>::empty());
    } else {
        lemma_indexed_paths_stored(paths, k - 1);
        assert(st.take(k).drop_last() =~= st.take(k - 1));
        lemma_path_round_trip(paths[k - 1]);
        lemma_be_u32_round_trip((k - 1) as u32);
        assert(Seq::new((k - 1) as nat, |i: int| (i as u32, paths[i])).push(((k - 1) as u32, paths[k - 1]))
            =~= Seq::new(k as nat, |i: int| (i as u32, paths[i])));
    }
}

/// Open tabs read back from what was stored for them are the paths of the tabs
/// that show a file, in tab order, with the active one's position (as long as
/// no path is empty and the positions fit in the four-byte keys).
pub proof fn lemma_open_tabs_round_trip(paths: Seq<Seq<char>>, active: Option<usize>)
    requires
        paths.len() <= u32::MAX + 1,
        forall|i: int| 0 <= i < paths.len() ==> (#[trigger] paths[i]).len() > 0,
    ensures
        loaded_open_tabs(
            stored_paths(paths),
            match active {
                Some(p) => Some(be_u64_bytes(p as u64)),
                None => None,
            },
        ) == (paths, active),
{
    let st = stored_paths(paths);
    lemma_indexed_paths_stored(paths, paths.len() as int);
    assert(st.take(paths.len() as int) =~= st);
    let idx = Seq::new(paths.len(), |i: int| (i as u32, paths[i]));
    assert(index_sorted(idx));
    lemma_sort_sorted(idx);
    assert(idx.map_values(|p: (u32, Seq<char>)| p.1) =~= paths);
    if let Some(p) = active {
        lemma_file_position_round_trip(p);
    }
}

// ----- preferences -----

/// A stored flag: its first byte is non-zero; the default when nothing (or an
/// empty value) is stored.
pub open spec fn decoded_bool(value: Option<Seq<u8>>, default: bool) -> bool {
    match value {
        Some(raw) => if raw.len() > 0 {
            raw[0] != 0
        } else {
            default
        },
        None => default,
    }
}

pub fn decode_stored_bool(value: Option<&[u8]>, default: bool) -> (r: bool)
    ensures
        r == decoded_bool(
            match value {
                Some(v) => Some(v@),
                None => None,
            },
            default,
        ),
{
    match value {
        Some(raw) => if raw.len() > 0 {
            raw[0] != 0
        } else {
            default
        },
        None => default,
    }
}

/// The byte stored for a flag.
pub fn encode_stored_bool(value: bool) -> (r: [u8; 1])
    ensures
        r@ == seq![if value { 1u8 } else { 0u8 }],
{
    let r = [if value {
        1u8
    } else {
        0u8
    }];
    assert(r@ =~= seq![if value { 1u8 } else { 0u8 }]);
    r
}

/// A stored flag reads back as the flag.
pub proof fn lemma_bool_round_trip(value: bool, default: bool)
    ensures
        decoded_bool(Some(seq![if value { 1u8 } else { 0u8 }]), default) == value,
{
}

/// The title-bar preferences a store holds; each flag defaults to shown.
pub fn load_titlebar_preferences_from_store(
    show_navigation: Option<&[u8]>,
    show_zoom: Option<&[u8]>,
) -> (r: TitleBarVisibilityPreferences)
    ensures
        r.show_navigation == decoded_bool(
            match show_navigation {
                Some(v) => Some(v@),
                None => None,
            },
            true,
        ),
        r.show_zoom == decoded_bool(
            match show_zoom {
                Some(v) => Some(v@),
                None => None,
            },
            true,
        ),
{
    let default = TitleBarVisibilityPreferences::default();
    TitleBarVisibilityPreferences {
        show_navigation: decode_stored_bool(show_navigation, default.show_navigation),
        show_zoom: decode_stored_bool(show_zoom, default.show_zoom),
    }
}

/// The stored spelling of a theme mode.
pub open spec fn theme_mode_text(mode: ThemeMode) -> Seq<u8> {
    match mode {
        ThemeMode::Light => seq![108u8, 105u8, 103u8, 104u8, 116u8],
        ThemeMode::Dark => seq![100u8, 97u8, 114u8, 107u8],
    }
}

/// The theme mode a stored value names (`light` or `dark`), else the default.
pub open spec fn decoded_theme_mode(value: Option<Seq<u8>>, default_mode: ThemeMode) -> ThemeMode {
    match value {
        Some(raw) => if raw == theme_mode_text(ThemeMode::Light) {
            ThemeMode::Light
        } else if raw == theme_mode_text(ThemeMode::Dark) {
            ThemeMode::Dark
        } else {
            default_mode
        },
        None => default_mode,
    }
}

/// The bytes stored for a theme mode.
pub fn encode_theme_mode(mode: ThemeMode) -> (r: Vec<u8>)
    ensures
        r@ == theme_mode_text(mode),
{
    match mode {
        ThemeMode::Light => {
            let r = vec![108u8, 105u8, 103u8, 104u8, 116u8];
            assert(r@ =~= theme_mode_text(mode));
            r
        },
        ThemeMode::Dark => {
            let r = vec![100u8, 97u8, 114u8, 107u8];
            assert(r@ =~= theme_mode_text(mode));
            r
        },
    }
}

fn bytes_equal(a: &[u8], b: &[u8]) -> (r: bool)
    ensures
        r == (a@ == b@),
{
    if a.len() != b.len() {
        return false;
    }
    let mut i: usize = 0;
    while i < a.len()
        invariant
            i <= a@.len(),
            a@.len() == b@.len(),
            forall|k: int| 0 <= k < i ==> a@[k] == b@[k],
        decreases a@.len() - i,
    {
        if a[i] != b[i] {
            return false;
        }
        i += 1;
    }
    assert(a@ =~= b@);
    true
}

/// Reads a stored theme mode.
pub fn decode_theme_mode(value: Option<&[u8]>, default_mode: ThemeMode) -> (r: ThemeMode)
    ensures
        r == decoded_theme_mode(
            match value {
                Some(v) => Some(v@),
                None => None,
            },
            default_mode,
        ),
{
    match value {
        Some(raw) => {
            let light = encode_theme_mode(ThemeMode::Light);
            let dark = encode_theme_mode(ThemeMode::Dark);
            if bytes_equal(raw, light.as_slice()) {
                ThemeMode::Light
            } else if bytes_equal(raw, dark.as_slice()) {
                ThemeMode::Dark
            } else {
                default_mode
            }
        },
        None => default_mode,
    }
}

/// A stored theme mode reads back as the mode.
pub proof fn lemma_theme_mode_round_trip(mode: ThemeMode, default_mode: ThemeMode)
    ensures
        decoded_theme_mode(Some(theme_mode_text(mode)), default_mode) == mode,
{
    assert(theme_mode_text(ThemeMode::Light) != theme_mode_text(ThemeMode::Dark)) by {
        assert(theme_mode_text(ThemeMode::Light).len() != theme_mode_text(ThemeMode::Dark).len());
    }
}

/// A stored name: valid UTF-8 and not empty.
pub fn decode_stored_string(value: Option<&[u8]>) -> (r: Option<String>)
    ensures
        match r {
            Some(s) => value is Some && decoded_path(value->0@) == Some(s@),
            None => value is None || decoded_path(value->0@) is None,
        },
{
    match value {
        Some(raw) => decode_stored_path(raw),
        None => None,
    }
}

/// The theme preferences a store holds: the mode (the default when none is
/// stored) and the preferred light and dark theme names.
pub fn load_theme_preferences_from_store(
    mode: Option<&[u8]>,
    light_name: Option<&[u8]>,
    dark_name: Option<&[u8]>,
    default_mode: ThemeMode,
) -> (r: (ThemeMode, Option<String>, Option<String>))
    ensures
        r.0 == decoded_theme_mode(
            match mode {
                Some(v) => Some(v@),
                None => None,
            },
            default_mode,
        ),
        match r.1 {
            Some(s) => light_name is Some && decoded_path(light_name->0@) == Some(s@),
            None => light_name is None || decoded_path(light_name->0@) is None,
        },
        match r.2 {
            Some(s) => dark_name is Some && decoded_path(dark_name->0@) == Some(s@),
            None => dark_name is None || decoded_path(dark_name->0@) is None,
        },
{
    (decode_theme_mode(mode, default_mode), decode_stored_string(light_name), decode_stored_string(dark_name))
}

} // verus!
