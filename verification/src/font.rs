//! Fonts as the engine sees them: a loaded font file's table of face names,
//! a face selected out of it, and a bounded most-recently-used cache of
//! measured text rectangles.
//!
//! Reading font files from disk and measuring text (shaping) are the
//! embedding's business; the engine only holds the resulting plain values.

use vstd::prelude::*;
use std::sync::Arc;
use crate::geometry::LogicalRect;

verus! {

/// Relies on `alloc::sync::Arc::clone`: the clone is a handle to the same
/// allocation, so it carries the same value.
#[verifier::external_body]
fn share_file(v: &Arc<FontFile>) -> (res: Arc<FontFile>)
    ensures
        res == *v,
{
    v.clone()
}

/// A font's failure modes.
#[derive(Clone, Copy, PartialEq, Eq, Structural, Debug)]
pub enum FontError {
    NotFound,
}

/// The contents of one loaded font file: where it came from, its raw bytes,
/// and the family name of each face it contains.
#[derive(Debug)]
pub struct FontFile {
    path: String,
    data: Vec<u8>,
    collection: Vec<String>,
}

impl FontFile {
    pub closed spec fn path_spec(&self) -> Seq<char> {
        self.path@
    }

    pub closed spec fn data_spec(&self) -> Seq<u8> {
        self.data@
    }

    /// The family names of the faces in the file, in face order.
    pub closed spec fn collection_spec(&self) -> Seq<Seq<char>> {
        self.collection@.map_values(|s: String| s@)
    }

    /// Builds the record from plain values (the embedding reads and parses
    /// the file itself).
    pub fn from_parts(path: String, data: Vec<u8>, collection: Vec<String>) -> (r: Self)
        ensures
            r.path_spec() == path@,
            r.data_spec() == data@,
            r.collection_spec() == collection@.map_values(|s: String| s@),
    {
        FontFile { path, data, collection }
    }

    pub fn path(&self) -> (r: &String)
        ensures
            r@ == self.path_spec(),
    {
        &self.path
    }

    /// The raw bytes of the file.
    pub fn data(&self) -> (r: &Vec<u8>)
        ensures
            r@ == self.data_spec(),
    {
        &self.data
    }

    /// The family names of the faces in the file.
    pub fn iter(&self) -> (r: &Vec<String>)
        ensures
            r@.map_values(|s: String| s@) == self.collection_spec(),
            r@.len() == self.collection_spec().len(),
    {
        &self.collection
    }
}

/// One face of a loaded font file.
#[derive(Debug)]
pub struct FontFace {
    file: Arc<FontFile>,
    index: usize,
}

impl FontFace {
    pub closed spec fn file_spec(&self) -> FontFile {
        *self.file
    }

    pub closed spec fn index_spec(&self) -> int {
        self.index as int
    }

    pub open spec fn wf(&self) -> bool {
        0 <= self.index_spec() < self.file_spec().collection_spec().len()
    }

    /// Selects the face at `index`; fails exactly when the file has no such
    /// face.
    pub fn new(file: &Arc<FontFile>, index: usize) -> (r: Result<Self, FontError>)
        ensures
            r is Ok <==> index < file.collection_spec().len(),
            r is Ok ==> {
                &&& r->Ok_0.file_spec() == **file
                &&& r->Ok_0.index_spec() == index as int
                &&& r->Ok_0.wf()
            },
            r is Err ==> r->Err_0 == FontError::NotFound,
    {
        if index < file.iter().len() {
            Ok(FontFace { file: share_file(file), index })
        } else {
            Err(FontError::NotFound)
        }
    }

    /// Selects the first face whose family name equals `name`; fails exactly
    /// when no face has that name.
    pub fn from_font_family_name(file: &Arc<FontFile>, name: &String) -> (r: Result<Self, FontError>)
        ensures
            r is Ok <==> (exists|i: int|
                0 <= i < file.collection_spec().len() && file.collection_spec()[i] == name@),
            r is Ok ==> {
                &&& r->Ok_0.file_spec() == **file
                &&& r->Ok_0.wf()
                &&& file.collection_spec()[r->Ok_0.index_spec()] == name@
                &&& forall|j: int|
                    0 <= j < r->Ok_0.index_spec() ==> file.collection_spec()[j] != name@
            },
            r is Err ==> r->Err_0 == FontError::NotFound,
    {
        let names = file.iter();
        let n = names.len();
        let mut i: usize = 0;
        while i < n
            invariant
                n == file.collection_spec().len(),
                i <= n,
                names@.map_values(|s: String| s@) == file.collection_spec(),
                forall|j: int| 0 <= j < i ==> file.collection_spec()[j] != name@,
            decreases n - i,
        {
            proof {
                assert((**file).collection_spec()[i as int] == names@[i as int]@);
            }
            if names[i] == *name {
                proof {
                    assert((**file).collection_spec()[i as int] == name@);
                }
                return Ok(FontFace { file: share_file(file), index: i });
            }
            i = i + 1;
        }
        Err(FontError::NotFound)
    }

    pub fn font_family_name(&self) -> (r: &String)
        requires
            self.wf(),
        ensures
            r@ == self.file_spec().collection_spec()[self.index_spec()],
    {
        &self.file.iter()[self.index]
    }

    pub fn font_file(&self) -> (r: &Arc<FontFile>)
        ensures
            **r == self.file_spec(),
    {
        &self.file
    }

    /// The face index inside its file.
    pub fn index(&self) -> (r: usize)
        ensures
            r as int == self.index_spec(),
    {
        self.index
    }

    /// Whether two faces denote the same face of the same file (files are
    /// identified by their path).
    pub open spec fn same_face(a: FontFace, b: FontFace) -> bool {
        a.file_spec().path_spec() == b.file_spec().path_spec() && a.index_spec() == b.index_spec()
    }
}

impl Clone for FontFace {
    fn clone(&self) -> (r: Self)
        ensures
            r == *self,
    {
        FontFace { file: share_file(&self.file), index: self.index }
    }
}

/// A face at a size (whole logical units).
#[derive(Clone, Debug)]
pub struct Font {
    pub face: FontFace,
    pub size: u32,
}

impl Font {
    pub fn new(face: &FontFace, size: u32) -> (r: Self)
        ensures
            r.face == *face,
            r.size == size,
    {
        Font { face: face.clone(), size }
    }

    /// Whether two fonts measure text identically: same face, same size.
    pub open spec fn same_font(a: Font, b: Font) -> bool {
        FontFace::same_face(a.face, b.face) && a.size == b.size
    }

    /// Compares by file path, face index and size.
    pub fn key_eq(&self, other: &Font) -> (r: bool)
        ensures
            r == Font::same_font(*self, *other),
    {
        let pa = self.face.font_file().path();
        let pb = other.face.font_file().path();
        *pa == *pb && self.face.index() == other.face.index() && self.size == other.size
    }
}

/// The measured rectangles of one font, most recently used first.
pub struct CacheEntry {
    pub font: Font,
    pub rects: Vec<(String, LogicalRect)>,
}

/// The position of the first entry for `font`.
pub open spec fn font_pos(entries: Seq<CacheEntry>, font: Font) -> Option<int>
    decreases entries.len(),
{
    if entries.len() == 0 {
        None
    } else if Font::same_font(entries.first().font, font) {
        Some(0)
    } else {
        match font_pos(entries.drop_first(), font) {
            Some(i) => Some(i + 1),
            None => None,
        }
    }
}

/// The position of the first measured rectangle for the string `s`.
pub open spec fn pair_pos(pairs: Seq<(String, LogicalRect)>, s: Seq<char>) -> Option<int>
    decreases pairs.len(),
{
    if pairs.len() == 0 {
        None
    } else if pairs.first().0@ == s {
        Some(0)
    } else {
        match pair_pos(pairs.drop_first(), s) {
            Some(i) => Some(i + 1),
            None => None,
        }
    }
}

/// A bounded most-recently-used cache of measured text rectangles, keyed
/// by font and string. The engine treats measurement as a pure function of
/// `(font, string)`, so a cached rectangle may stand in for a fresh
/// measurement; each font's list keeps at most `max_size` strings, the
/// most recently used in front.
pub struct Cache {
    entries: Vec<CacheEntry>,
    max_size: usize,
}

impl Cache {
    pub closed spec fn entries_spec(&self) -> Seq<CacheEntry> {
        self.entries@
    }

    pub closed spec fn max_size_spec(&self) -> usize {
        self.max_size
    }

    pub fn new(max_size: usize) -> (r: Self)
        ensures
            r.entries_spec() == Seq::<CacheEntry>::empty(),
            r.max_size_spec() == max_size,
    {
        Cache { entries: Vec::new(), max_size }
    }

    /// Looks `(font, s)` up. On a hit the pair moves to the front of its
    /// font's list (most recently used) and its rectangle is returned; on
    /// a miss nothing changes.
    pub fn get(&mut self, font: &Font, s: &String) -> (r: Option<LogicalRect>)
        ensures
            ({
                let fp = font_pos(old(self).entries_spec(), *font);
                match fp {
                    None => r is None && *final(self) == *old(self),
                    Some(i) => {
                        let pairs = old(self).entries_spec()[i].rects@;
                        match pair_pos(pairs, s@) {
                            None => r is None && *final(self) == *old(self),
                            Some(j) => {
                                &&& r == Some(pairs[j].1)
                                &&& final(self).max_size_spec() == old(self).max_size_spec()
                                &&& final(self).entries_spec().len() == old(self).entries_spec().len()
                                &&& final(self).entries_spec()[i].font == old(self).entries_spec()[i].font
                                &&& final(self).entries_spec()[i].rects@ == seq![pairs[j]]
                                    + pairs.remove(j)
                                &&& forall|k: int|
                                    0 <= k < old(self).entries_spec().len() && k != i
                                        ==> final(self).entries_spec()[k] == old(self).entries_spec()[k]
                            },
                        }
                    },
                }
            }),
    {
        let fp = self.find_font(font);
        let i = match fp {
            Some(i) => i,
            None => {
                return None;
            },
        };
        let jp = Self::find_pair(&self.entries[i].rects, s);
        let j = match jp {
            Some(j) => j,
            None => {
                return None;
            },
        };
        let ghost pre = self.entries@;
        let entry = &mut self.entries[i];
        let pair = entry.rects.remove(j);
        let rect = pair.1;
        entry.rects.insert(0, pair);
        proof {
            assert(entry.rects@ =~= seq![pre[i as int].rects@[j as int]]
                + pre[i as int].rects@.remove(j as int));
        }
        Some(rect)
    }

    /// Stores a measured rectangle for `(font, s)`: a new font gets a new
    /// entry at the back; an existing font's list gains the pair in front,
    /// dropping its least recently used pair when `max_size` is reached.
    pub fn insert(&mut self, font: Font, s: String, rect: LogicalRect)
        ensures
            ({
                let fp = font_pos(old(self).entries_spec(), font);
                match fp {
                    None => {
                        &&& final(self).entries_spec().len() == old(self).entries_spec().len() + 1
                        &&& final(self).entries_spec().last().font == font
                        &&& final(self).entries_spec().last().rects@.len() == 1
                        &&& final(self).entries_spec().last().rects@[0].0@ == s@
                        &&& final(self).entries_spec().last().rects@[0].1 == rect
                        &&& forall|k: int|
                            0 <= k < old(self).entries_spec().len() ==> final(self).entries_spec()[k] == old(self).entries_spec()[k]
                    },
                    Some(i) => {
                        let pairs = old(self).entries_spec()[i].rects@;
                        let kept = if pairs.len() >= old(self).max_size_spec() && pairs.len() > 0 {
                            pairs.drop_last()
                        } else {
                            pairs
                        };
                        &&& final(self).entries_spec().len() == old(self).entries_spec().len()
                        &&& final(self).entries_spec()[i].font == old(self).entries_spec()[i].font
                        &&& final(self).entries_spec()[i].rects@.len() == kept.len() + 1
                        &&& final(self).entries_spec()[i].rects@[0].0@ == s@
                        &&& final(self).entries_spec()[i].rects@[0].1 == rect
                        &&& final(self).entries_spec()[i].rects@.drop_first() == kept
                        &&& forall|k: int|
                            0 <= k < old(self).entries_spec().len() && k != i ==> final(self).entries_spec()[k] == old(self).entries_spec()[k]
                    },
                }
            }),
            final(self).max_size_spec() == old(self).max_size_spec(),
    {
        let fp = self.find_font(&font);
        match fp {
            None => {
                let mut rects: Vec<(String, LogicalRect)> = Vec::new();
                rects.push((s, rect));
                self.entries.push(CacheEntry { font, rects });
            },
            Some(i) => {
                let ghost pre = self.entries@;
                let max = self.max_size;
                let entry = &mut self.entries[i];
                let ghost kept = if pre[i as int].rects@.len() >= max && pre[i as int].rects@.len()
                    > 0 {
                    pre[i as int].rects@.drop_last()
                } else {
                    pre[i as int].rects@
                };
                if entry.rects.len() >= max {
                    let _ = entry.rects.pop();
                }
                proof {
                    assert(entry.rects@ =~= kept);
                }
                entry.rects.insert(0, (s, rect));
                proof {
                    assert(entry.rects@ =~= kept.insert(0, entry.rects@[0]));
                    assert(entry.rects@.drop_first() =~= kept);
                }
            },
        }
    }

    /// The position of the first entry for `font`.
    fn find_font(&self, font: &Font) -> (r: Option<usize>)
        ensures
            ({
                let fp = font_pos(self.entries_spec(), *font);
                match r {
                    Some(i) => fp == Some(i as int) && i < self.entries_spec().len(),
                    None => fp is None,
                }
            }),
    {
        let n = self.entries.len();
        let mut i: usize = 0;
        while i < n
            invariant
                i <= n,
                n == self.entries_spec().len(),
                forall|j: int|
                    0 <= j < i ==> !Font::same_font(
                        #[trigger] self.entries_spec()[j].font,
                        *font,
                    ),
            decreases n - i,
        {
            if self.entries[i].font.key_eq(font) {
                proof {
                    lemma_font_pos_at(self.entries_spec(), *font, i as int);
                }
                return Some(i);
            }
            i = i + 1;
        }
        proof {
            lemma_font_pos_none(self.entries_spec(), *font);
        }
        None
    }

    /// The position of the first pair for the string `s`.
    fn find_pair(pairs: &Vec<(String, LogicalRect)>, s: &String) -> (r: Option<usize>)
        ensures
            ({
                let pp = pair_pos(pairs@, s@);
                match r {
                    Some(j) => pp == Some(j as int) && j < pairs@.len(),
                    None => pp is None,
                }
            }),
    {
        let n = pairs.len();
        let mut j: usize = 0;
        while j < n
            invariant
                j <= n,
                n == pairs@.len(),
                forall|k: int| 0 <= k < j ==> (#[trigger] pairs@[k].0)@ != s@,
            decreases n - j,
        {
            if pairs[j].0 == *s {
                proof {
                    lemma_pair_pos_at(pairs@, s@, j as int);
                }
                return Some(j);
            }
            j = j + 1;
        }
        proof {
            lemma_pair_pos_none(pairs@, s@);
        }
        None
    }
}

proof fn lemma_font_pos_at(entries: Seq<CacheEntry>, font: Font, i: int)
    requires
        0 <= i < entries.len(),
        Font::same_font(entries[i].font, font),
        forall|j: int| 0 <= j < i ==> !Font::same_font(#[trigger] entries[j].font, font),
    ensures
        font_pos(entries, font) == Some(i),
    decreases entries.len(),
{
    if i > 0 {
        assert(forall|j: int|
            0 <= j < i - 1 ==> entries.drop_first()[j] == entries[j + 1]);
        lemma_font_pos_at(entries.drop_first(), font, i - 1);
    }
}

proof fn lemma_font_pos_none(entries: Seq<CacheEntry>, font: Font)
    requires
        forall|j: int| 0 <= j < entries.len() ==> !Font::same_font(#[trigger] entries[j].font, font),
    ensures
        font_pos(entries, font) is None,
    decreases entries.len(),
{
    if entries.len() > 0 {
        assert(forall|j: int|
            0 <= j < entries.len() - 1 ==> entries.drop_first()[j] == entries[j + 1]);
        lemma_font_pos_none(entries.drop_first(), font);
    }
}

proof fn lemma_pair_pos_at(pairs: Seq<(String, LogicalRect)>, s: Seq<char>, j: int)
    requires
        0 <= j < pairs.len(),
        pairs[j].0@ == s,
        forall|k: int| 0 <= k < j ==> (#[trigger] pairs[k].0)@ != s,
    ensures
        pair_pos(pairs, s) == Some(j),
    decreases pairs.len(),
{
    if j > 0 {
        assert(forall|k: int| 0 <= k < j - 1 ==> pairs.drop_first()[k] == pairs[k + 1]);
        lemma_pair_pos_at(pairs.drop_first(), s, j - 1);
    }
}

proof fn lemma_pair_pos_none(pairs: Seq<(String, LogicalRect)>, s: Seq<char>)
    requires
        forall|k: int| 0 <= k < pairs.len() ==> (#[trigger] pairs[k].0)@ != s,
    ensures
        pair_pos(pairs, s) is None,
    decreases pairs.len(),
{
    if pairs.len() > 0 {
        assert(forall|k: int| 0 <= k < pairs.len() - 1 ==> pairs.drop_first()[k] == pairs[k + 1]);
        lemma_pair_pos_none(pairs.drop_first(), s);
    }
}

} // verus!
