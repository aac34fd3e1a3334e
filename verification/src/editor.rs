//! The byte editor: a read-only mapping of the file with an overlay of
//! modified bytes. Only modified bytes are held in memory; every other byte
//! is read from the mapping.

use std::collections::HashMap;
use std::path::PathBuf;

use memmap2::Mmap;
use vstd::prelude::*;
use vstd::std_specs::iter::IteratorSpec;

use crate::mapped::mapped_byte;
use crate::mapped::mapped_bytes;
use crate::mapped::mapped_len;

verus! {

broadcast use vstd::std_specs::hash::group_hash_axioms;

/// A filesystem path, carried by the editor for saving and display.
#[verifier::external_type_specification]
#[verifier::external_body]
pub struct ExPathBuf(std::path::PathBuf);

/// Why a mapping cannot become an editor.
#[derive(Debug, Clone, Copy, PartialEq, Eq, Structural)]
pub enum OpenError {
    /// The file has no bytes.
    EmptyFile,
}

/// Why a save cannot start.
#[derive(Debug, Clone, Copy, PartialEq, Eq, Structural)]
pub enum SaveError {
    /// The editor was opened read-only.
    ReadOnly,
}

/// Memory-mapped file editor with an overlay of modified bytes.
pub struct Editor {
    path: PathBuf,
    mmap: Option<Mmap>,
    file_size: usize,
    /// Overlay: offset -> modified byte
    edits: HashMap<usize, u8>,
    pub readonly: bool,
}

/// The byte shown at a position of the editor's view, or 0 where none is available.
pub open spec fn byte_or_zero(b: Option<u8>) -> u8 {
    match b {
        Some(v) => v,
        None => 0,
    }
}

/// The bytes `[start, start + len)` of a view, clamped to its end; empty when
/// `start` is at or past the end. Positions with no byte read as 0.
pub open spec fn range_of(view: Seq<Option<u8>>, start: int, len: int) -> Seq<u8> {
    if start >= view.len() {
        Seq::empty()
    } else {
        let end = if start + len < view.len() { start + len } else { view.len() as int };
        Seq::new((end - start) as nat, |k: int| byte_or_zero(view[start + k]))
    }
}

/// The first offset at or after `start` where `pattern` occurs, if any; an empty
/// pattern, or a start at or past the end, finds nothing.
pub open spec fn first_match(view: Seq<Option<u8>>, pattern: Seq<u8>, start: int) -> Option<int> {
    if pattern.len() > 0 && start < view.len() && exists|k: int| start <= k && #[trigger] occurs_at(view, pattern, k) {
        Some(choose|k: int| is_first_match(view, pattern, start, k))
    } else {
        None
    }
}

/// `k` is the first offset at or after `start` where `pattern` occurs.
pub open spec fn is_first_match(view: Seq<Option<u8>>, pattern: Seq<u8>, start: int, k: int) -> bool {
    &&& start <= k
    &&& occurs_at(view, pattern, k)
    &&& forall|j: int| start <= j < k ==> !#[trigger] occurs_at(view, pattern, j)
}

/// A first match is unique, and exists whenever some match does.
pub proof fn lemma_first_match(view: Seq<Option<u8>>, pattern: Seq<u8>, start: int, k: int)
    requires
        pattern.len() > 0,
        start < view.len(),
        is_first_match(view, pattern, start, k),
    ensures
        first_match(view, pattern, start) == Some(k),
{
    assert(occurs_at(view, pattern, k));
    let c = choose|c: int| is_first_match(view, pattern, start, c);
    assert(is_first_match(view, pattern, start, c));
    if c < k {
        assert(!occurs_at(view, pattern, c));
    } else if c > k {
        assert(!occurs_at(view, pattern, k));
    }
}

/// Whenever `pattern` occurs at or after `start`, there is a first such
/// occurrence, and `first_match` gives it.
pub proof fn lemma_first_match_exists(view: Seq<Option<u8>>, pattern: Seq<u8>, start: int, k: int)
    requires
        pattern.len() > 0,
        start < view.len(),
        start <= k,
        occurs_at(view, pattern, k),
    ensures
        first_match(view, pattern, start) matches Some(f) && is_first_match(view, pattern, start, f),
    decreases k - start,
{
    if exists|j: int| start <= j < k && #[trigger] occurs_at(view, pattern, j) {
        let j = choose|j: int| start <= j < k && #[trigger] occurs_at(view, pattern, j);
        lemma_first_match_exists(view, pattern, start, j);
    } else {
        lemma_first_match(view, pattern, start, k);
    }
}

/// `pattern` occurs in the view at offset `i`.
pub open spec fn occurs_at(view: Seq<Option<u8>>, pattern: Seq<u8>, i: int) -> bool {
    &&& 0 <= i
    &&& i + pattern.len() <= view.len()
    &&& forall|j: int| 0 <= j < pattern.len() ==> #[trigger] view[i + j] == Some(pattern[j])
}

/// The abstract state of an editor: the file's length, the modified bytes,
/// the mapped content (absent while unmapped) and whether writes are refused.
pub struct EditorState {
    pub size: nat,
    pub overlay: Map<usize, u8>,
    pub base: Option<Seq<u8>>,
    pub readonly: bool,
    pub path: PathBuf,
}

impl EditorState {
    /// The byte shown at offset `i`: the modified byte if there is one, else the
    /// mapped byte, else nothing.
    pub open spec fn byte_at(self, i: int) -> Option<u8> {
        if 0 <= i < self.size {
            if self.overlay.contains_key(i as usize) {
                Some(self.overlay[i as usize])
            } else {
                match self.base {
                    Some(b) => Some(b[i]),
                    None => None,
                }
            }
        } else {
            None
        }
    }

    /// The bytes shown, one per offset of the file.
    pub open spec fn shown(self) -> Seq<Option<u8>> {
        Seq::new(self.size, |i: int| self.byte_at(i))
    }

    /// A write of `value` at `offset` is accepted.
    pub open spec fn accepts_write(self, offset: usize) -> bool {
        !self.readonly && offset < self.size
    }

    /// The state after a write of `value` at `offset`: recorded in the overlay when
    /// accepted, otherwise nothing changes.
    pub open spec fn write(self, offset: usize, value: u8) -> EditorState {
        if self.accepts_write(offset) {
            EditorState { overlay: self.overlay.insert(offset, value), ..self }
        } else {
            self
        }
    }
}

impl Editor {
    /// The abstract state of the editor.
    pub open spec fn state(&self) -> EditorState {
        EditorState {
            size: self.size(),
            overlay: self.overlay(),
            base: self.base(),
            readonly: self.is_readonly(),
            path: self.spec_path(),
        }
    }

    /// Number of bytes in the file.
    pub closed spec fn size(&self) -> nat {
        self.file_size as nat
    }

    /// The modified bytes, by offset.
    pub closed spec fn overlay(&self) -> Map<usize, u8> {
        self.edits@
    }

    /// The mapped file content, or `None` while the file is unmapped.
    pub closed spec fn base(&self) -> Option<Seq<u8>> {
        match self.mmap {
            Some(m) => Some(mapped_bytes(m)),
            None => None,
        }
    }

    /// Whether the editor refuses writes.
    pub closed spec fn is_readonly(&self) -> bool {
        self.readonly
    }

    /// The path the editor was opened with.
    pub closed spec fn spec_path(&self) -> PathBuf {
        self.path
    }

    /// Well-formedness: the file is not empty, the mapping covers exactly the
    /// file, and every modified offset lies inside the file.
    pub closed spec fn wf(&self) -> bool {
        &&& self.file_size > 0
        &&& self.file_size <= isize::MAX
        &&& (self.mmap matches Some(m) ==> mapped_bytes(m).len() == self.file_size)
        &&& forall|k: usize| #[trigger] self.edits@.contains_key(k) ==> k < self.file_size
    }

    /// The byte at offset `i` as the editor shows it.
    pub open spec fn byte_at(&self, i: int) -> Option<u8> {
        self.state().byte_at(i)
    }

    /// The bytes as the editor shows them, one per offset of the file.
    pub open spec fn shown(&self) -> Seq<Option<u8>> {
        self.state().shown()
    }

    /// Facts that callers may rely on from well-formedness.
    pub proof fn lemma_wf(&self)
        requires
            self.wf(),
        ensures
            self.size() > 0,
            self.size() <= isize::MAX,
            forall|k: usize| #[trigger] self.overlay().contains_key(k) ==> k < self.size(),
            self.base() matches Some(b) ==> b.len() == self.size(),
    {
    }

    /// An editor over a mapping of the file at `path`. The file must not be empty.
    pub fn from_mapping(path: PathBuf, mmap: Mmap, readonly: bool) -> (r: Result<Editor, OpenError>)
        ensures
            mapped_bytes(mmap).len() == 0 <==> r == Err::<Editor, OpenError>(OpenError::EmptyFile),
            r matches Ok(e) ==> {
                &&& e.wf()
                &&& e.size() == mapped_bytes(mmap).len()
                &&& e.base() == Some(mapped_bytes(mmap))
                &&& e.overlay().is_empty()
                &&& e.is_readonly() == readonly
                &&& e.spec_path() == path
                &&& e@ == mapped_bytes(mmap).map_values(|b: u8| Some(b))
            },
    {
        let file_size = mapped_len(&mmap);
        if file_size == 0 {
            return Err(OpenError::EmptyFile);
        }
        let e = Editor { path, mmap: Some(mmap), file_size, edits: HashMap::new(), readonly };
        assert(e@ =~= mapped_bytes(mmap).map_values(|b: u8| Some(b)));
        Ok(e)
    }

    /// Number of bytes in the file.
    pub fn file_size(&self) -> (n: usize)
        ensures
            n == self.size(),
    {
        self.file_size
    }

    /// Whether writes are refused.
    pub fn readonly(&self) -> (r: bool)
        ensures
            r == self.is_readonly(),
    {
        self.readonly
    }

    /// The path the editor was opened with.
    pub fn path(&self) -> (p: &PathBuf)
        ensures
            *p == self.spec_path(),
    {
        &self.path
    }

    /// Read a single byte (overlay takes priority).
    pub fn read_byte(&self, offset: usize) -> (r: Option<u8>)
        requires
            self.wf(),
        ensures
            r == self.byte_at(offset as int),
            offset < self@.len() ==> r == self@[offset as int],
            offset >= self@.len() ==> r is None,
    {
        if offset >= self.file_size {
            return None;
        }
        match self.edits.get(&offset) {
            Some(b) => Some(*b),
            None => match &self.mmap {
                Some(m) => Some(mapped_byte(m, offset)),
                None => None,
            },
        }
    }

    /// Read a range of bytes into a Vec.
    ///
    /// The range is clamped to the file. If `start` is past EOF, an empty
    /// Vec is returned (callers treat a short read as "field unavailable").
    pub fn read_range(&self, start: usize, len: usize) -> (buf: Vec<u8>)
        requires
            self.wf(),
        ensures
            buf@ == range_of(self@, start as int, len as int),
    {
        if start >= self.file_size {
            return Vec::new();
        }
        let end = if len < self.file_size - start { start + len } else { self.file_size };
        let mut buf: Vec<u8> = Vec::new();
        let mut i = start;
        while i < end
            invariant
                self.wf(),
                start <= i <= end <= self@.len(),
                buf@ =~= Seq::new((i - start) as nat, |k: int| byte_or_zero(self@[start + k])),
            decreases end - i,
        {
            let b = match self.read_byte(i) {
                Some(v) => v,
                None => 0,
            };
            buf.push(b);
            i = i + 1;
        }
        buf
    }

    /// Check if a byte at the given offset has been modified.
    pub fn is_modified(&self, offset: usize) -> (r: bool)
        ensures
            r == self.overlay().contains_key(offset),
    {
        self.edits.contains_key(&offset)
    }

    /// Write a byte (stores in overlay). Refused, with nothing changed, when the
    /// editor is read-only or the offset lies outside the file.
    pub fn write_byte(&mut self, offset: usize, value: u8) -> (ok: bool)
        requires
            old(self).wf(),
        ensures
            final(self).wf(),
            ok == old(self).state().accepts_write(offset),
            final(self).state() == old(self).state().write(offset, value),
            ok ==> final(self).overlay() == old(self).overlay().insert(offset, value),
            !ok ==> final(self).overlay() == old(self).overlay(),
            final(self).overlay() == (EditEvent::Write { offset, value, accepted: ok }).apply(
                old(self).overlay(),
            ),
            ok ==> final(self)@ == old(self)@.update(offset as int, Some(value)),
            !ok ==> final(self)@ == old(self)@,
            final(self).size() == old(self).size(),
            final(self).base() == old(self).base(),
            final(self).is_readonly() == old(self).is_readonly(),
            final(self).spec_path() == old(self).spec_path(),
    {
        if self.readonly || offset >= self.file_size {
            return false;
        }
        self.edits.insert(offset, value);
        assert(self@ =~= old(self)@.update(offset as int, Some(value)));
        true
    }

    /// Whether there are unsaved changes: some byte is modified.
    pub fn has_edits(&self) -> (r: bool)
        ensures
            r == !self.overlay().is_empty(),
            r == exists|o: usize| #[trigger] self.overlay().contains_key(o),
    {
        let r = !self.edits.is_empty();
        proof {
            if !r {
                assert forall|o: usize| !#[trigger] self.overlay().contains_key(o) by {
                    assert(!self.overlay().dom().contains(o));
                }
            } else {
                assert(self.overlay().dom() != Set::<usize>::empty());
                let o = choose|o: usize| !(self.overlay().dom().contains(o) == Set::<usize>::empty().contains(o));
                assert(self.overlay().contains_key(o));
            }
        }
        r
    }

    /// Whether `m` maps as many bytes as the editor's file has, as `end_save` requires.
    pub fn mapping_fits(&self, m: &Mmap) -> (r: bool)
        ensures
            r == (mapped_bytes(*m).len() == self.size()),
    {
        mapped_len(m) == self.file_size
    }

    /// First step of saving. Refused when read-only. With no modified bytes there
    /// is nothing to write and nothing changes. Otherwise the mapping is released
    /// (so that the file can be written) and the modified bytes are handed out, each
    /// offset once; they stay in the overlay until the save is finished.
    pub fn begin_save(&mut self) -> (r: Result<Vec<(usize, u8)>, SaveError>)
        requires
            old(self).wf(),
        ensures
            final(self).wf(),
            final(self).size() == old(self).size(),
            final(self).overlay() == old(self).overlay(),
            final(self).is_readonly() == old(self).is_readonly(),
            final(self).spec_path() == old(self).spec_path(),
            old(self).is_readonly() <==> r == Err::<Vec<(usize, u8)>, SaveError>(SaveError::ReadOnly),
            old(self).is_readonly() || old(self).overlay().is_empty() ==> final(self).base() == old(
                self,
            ).base(),
            r matches Ok(writes) ==> {
                &&& writes@.len() == old(self).overlay().dom().len()
                &&& forall|i: int|
                    0 <= i < writes@.len() ==> #[trigger] old(self).overlay().contains_key(
                        writes@[i].0,
                    ) && old(self).overlay()[writes@[i].0] == writes@[i].1
                &&& forall|k: usize| #[trigger]
                    old(self).overlay().contains_key(k) ==> writes@.contains(
                        (k, old(self).overlay()[k]),
                    )
                &&& forall|i: int, j: int|
                    0 <= i < j < writes@.len() ==> #[trigger] writes@[i].0 != #[trigger] writes@[j].0
                &&& (writes@.len() > 0 ==> final(self).base() is None)
            },
    {
        if self.readonly {
            return Err(SaveError::ReadOnly);
        }
        let mut writes: Vec<(usize, u8)> = Vec::new();
        if self.edits.is_empty() {
            return Ok(writes);
        }
        let ghost m = self.edits@;
        let entries = self.edits.iter();
        let ghost all = entries.remaining();
        assert(all.len() == m.dom().len());
        for pair in it: entries
            invariant
                it.seq() == all,
                writes@ == it.seq().take(it.index() as int).map_values(
                    |p: (&usize, &u8)| (*p.0, *p.1),
                ),
        {
            let (k, v) = pair;
            writes.push((*k, *v));
        }
        proof {
            assert(writes@ =~= all.map_values(|p: (&usize, &u8)| (*p.0, *p.1)));
            assert(all.no_duplicates());
            assert forall|i: int| 0 <= i < writes@.len() implies #[trigger] m.contains_key(
                writes@[i].0,
            ) && m[writes@[i].0] == writes@[i].1 by {
                assert(m.contains_key(*all[i].0));
            }
            assert forall|k: usize| #[trigger] m.contains_key(k) implies writes@.contains(
                (k, m[k]),
            ) by {
                assert(all.contains((&k, &m[k])));
                let i = choose|i: int| 0 <= i < all.len() && all[i] == (&k, &m[k]);
                assert(writes@[i] == (k, m[k]));
            }
            assert forall|i: int, j: int| 0 <= i < j < writes@.len() implies #[trigger] writes@[i].0
                != #[trigger] writes@[j].0 by {
                assert(m.contains_key(*all[i].0));
                assert(m.contains_key(*all[j].0));
                if writes@[i].0 == writes@[j].0 {
                    assert(all[i] == all[j]);
                }
            }
        }
        self.mmap = None;
        Ok(writes)
    }

    /// Last step of saving, once the writes were attempted and the file mapped
    /// again. `written` tells whether every write reached the file; `remapped` is the
    /// new mapping, if mapping succeeded, and becomes the editor's mapping either
    /// way. The save succeeded when both steps did: the overlay is then cleared.
    /// Otherwise the modified bytes stay in the overlay, so that none is lost.
    pub fn end_save(&mut self, written: bool, remapped: Option<Mmap>) -> (saved: bool)
        requires
            old(self).wf(),
            remapped matches Some(m) ==> mapped_bytes(m).len() == old(self).size(),
        ensures
            final(self).wf(),
            saved == (written && remapped is Some),
            saved ==> final(self).overlay().is_empty(),
            !saved ==> final(self).overlay() == old(self).overlay(),
            final(self).overlay() == (EditEvent::Save { saved }).apply(old(self).overlay()),
            final(self).base() == (match remapped {
                Some(m) => Some(mapped_bytes(m)),
                None => None::<Seq<u8>>,
            }),
            final(self).size() == old(self).size(),
            final(self).is_readonly() == old(self).is_readonly(),
            final(self).spec_path() == old(self).spec_path(),
    {
        let saved = written && remapped.is_some();
        self.mmap = remapped;
        if saved {
            self.edits.clear();
            assert(self.edits@ =~= Map::<usize, u8>::empty());
        }
        saved
    }

    /// Search for a byte pattern starting from a given offset.
    /// Returns the offset of the first match at or after `start`, or None.
    pub fn search(&self, pattern: &[u8], start: usize) -> (r: Option<usize>)
        requires
            self.wf(),
        ensures
            pattern@.len() == 0 || start >= self@.len() ==> r is None,
            r matches Some(i) ==> {
                &&& start <= i
                &&& occurs_at(self@, pattern@, i as int)
                &&& forall|k: int| start <= k < i ==> !occurs_at(self@, pattern@, k)
            },
            r is None && pattern@.len() > 0 && start < self@.len() ==> forall|k: int|
                start <= k ==> !occurs_at(self@, pattern@, k),
            r matches Some(i) ==> first_match(self@, pattern@, start as int) == Some(i as int),
            r is None ==> first_match(self@, pattern@, start as int) is None,
    {
        let plen = pattern.len();
        if plen == 0 || start >= self.file_size {
            return None;
        }
        let end = if self.file_size >= plen { self.file_size - plen } else { 0 };
        let mut i = start;
        while i <= end
            invariant
                self.wf(),
                plen == pattern@.len(),
                plen > 0,
                start < self@.len(),
                end == (if self@.len() >= plen { self@.len() - plen } else { 0 }),
                end < self@.len(),
                start <= i,
                forall|k: int| start <= k < i ==> !occurs_at(self@, pattern@, k),
            decreases end + 1 - i,
        {
            let mut found = true;
            let mut j: usize = 0;
            while j < plen
                invariant
                    self.wf(),
                    plen == pattern@.len(),
                    i <= end,
                    end == (if self@.len() >= plen { self@.len() - plen } else { 0 }),
                    j <= plen,
                    found ==> forall|jj: int| 0 <= jj < j ==> #[trigger] self@[i + jj] == Some(
                        pattern@[jj],
                    ) && i + jj < self@.len(),
                    !found ==> !occurs_at(self@, pattern@, i as int),
                ensures
                    found ==> j == plen && forall|jj: int| 0 <= jj < plen ==> #[trigger] self@[i
                        + jj] == Some(pattern@[jj]) && i + jj < self@.len(),
                    !found ==> !occurs_at(self@, pattern@, i as int),
                decreases plen - j,
            {
                if self.read_byte(i + j) != Some(pattern[j]) {
                    found = false;
                    break;
                }
                j = j + 1;
            }
            if found {
                assert(occurs_at(self@, pattern@, i as int)) by {
                    assert(self@[i + (plen - 1)] == Some(pattern@[plen - 1]));
                }
                proof {
                    lemma_first_match(self@, pattern@, start as int, i as int);
                }
                return Some(i);
            }
            i = i + 1;
        }
        proof {
            assert forall|k: int| start <= k implies !occurs_at(self@, pattern@, k) by {
                if k >= i {
                    assert(k > end);
                }
            }
            assert(!exists|k: int| start <= k && #[trigger] occurs_at(self@, pattern@, k));
        }
        None
    }
}

/// What happens to the modified bytes in one step of editing: a write of
/// `value` at `offset` that was accepted or refused, or a save that succeeded
/// or failed.
pub enum EditEvent {
    Write { offset: usize, value: u8, accepted: bool },
    Save { saved: bool },
}

impl EditEvent {
    /// The modified bytes after this step: an accepted write records its byte, a
    /// successful save clears them all, and anything else keeps them.
    pub open spec fn apply(self, overlay: Map<usize, u8>) -> Map<usize, u8> {
        match self {
            EditEvent::Write { offset, value, accepted } => if accepted {
                overlay.insert(offset, value)
            } else {
                overlay
            },
            EditEvent::Save { saved } => if saved {
                Map::empty()
            } else {
                overlay
            },
        }
    }

    /// This step is a successful save.
    pub open spec fn is_saved(self) -> bool {
        self matches EditEvent::Save { saved: true }
    }

    /// This step is an accepted write at `o`.
    pub open spec fn writes_at(self, o: usize) -> bool {
        self matches EditEvent::Write { offset, accepted: true, .. } && offset == o
    }
}

/// The modified bytes after a sequence of steps on a freshly opened editor
/// (whose overlay is empty).
pub open spec fn replay(events: Seq<EditEvent>) -> Map<usize, u8>
    decreases events.len(),
{
    if events.len() == 0 {
        Map::empty()
    } else {
        events.last().apply(replay(events.drop_last()))
    }
}

/// Some accepted write at `o` came after the last successful save.
pub open spec fn written_since_save(events: Seq<EditEvent>, o: usize) -> bool {
    exists|i: int|
        0 <= i < events.len() && #[trigger] events[i].writes_at(o) && forall|j: int|
            i < j < events.len() ==> !#[trigger] events[j].is_saved()
}

/// Edit history: after any sequence of writes and saves on a freshly opened
/// editor, a byte is modified exactly when an accepted write reached it after the
/// last successful save; so an editor whose writes were all refused (one opened
/// read-only) has no modified byte.
pub proof fn lemma_modified_iff_written_since_save(events: Seq<EditEvent>, o: usize)
    ensures
        replay(events).contains_key(o) <==> written_since_save(events, o),
        (forall|i: int| 0 <= i < events.len() ==> !(#[trigger] events[i] matches EditEvent::Write {
            accepted: true,
            ..
        })) ==> replay(events).is_empty(),
    decreases events.len(),
{
    if events.len() == 0 {
        assert(replay(events) =~= Map::<usize, u8>::empty());
    } else {
        let prev = events.drop_last();
        let n = events.len() - 1;
        lemma_modified_iff_written_since_save(prev, o);
        assert forall|i: int| 0 <= i < n implies #[trigger] events[i] == prev[i] by {}
        if written_since_save(prev, o) && !events[n].is_saved() {
            let i = choose|i: int|
                0 <= i < prev.len() && #[trigger] prev[i].writes_at(o) && forall|j: int|
                    i < j < prev.len() ==> !#[trigger] prev[j].is_saved();
            assert(events[i].writes_at(o));
            assert forall|j: int| i < j < events.len() implies !#[trigger] events[j].is_saved() by {
                if j < n {
                    assert(!prev[j].is_saved());
                }
            }
        }
        if written_since_save(events, o) {
            let i = choose|i: int|
                0 <= i < events.len() && #[trigger] events[i].writes_at(o) && forall|j: int|
                    i < j < events.len() ==> !#[trigger] events[j].is_saved();
            if i < n {
                assert(!events[n].is_saved());
                assert(prev[i].writes_at(o));
                assert forall|j: int| i < j < prev.len() implies !#[trigger] prev[j].is_saved() by {
                    assert(!events[j].is_saved());
                }
                assert(written_since_save(prev, o));
            }
        }
        if events[n].writes_at(o) {
            assert(events[n].writes_at(o) && forall|j: int|
                n < j < events.len() ==> !#[trigger] events[j].is_saved());
        }
        if forall|i: int| 0 <= i < events.len() ==> !(#[trigger] events[i] matches EditEvent::Write {
            accepted: true,
            ..
        }) {
            assert forall|i: int| 0 <= i < prev.len() implies !(#[trigger] prev[i] matches EditEvent::Write {
                accepted: true,
                ..
            }) by {
                assert(events[i] == prev[i]);
            }
            assert(replay(events) =~= Map::<usize, u8>::empty());
        }
    }
}

/// What a read gives back of a write: an accepted write shows its byte at its
/// offset, every other offset shows what it showed before, and a refused write
/// (read-only editor, or offset past the end) changes nothing.
pub proof fn lemma_read_after_write(s: EditorState, offset: usize, value: u8, i: usize)
    ensures
        s.accepts_write(offset) ==> s.write(offset, value).byte_at(offset as int) == Some(value),
        i != offset ==> s.write(offset, value).byte_at(i as int) == s.byte_at(i as int),
        !s.accepts_write(offset) ==> s.write(offset, value) == s,
        s.write(offset, value).size == s.size,
{
}

/// A save loses nothing: when the file was mapped before saving, and the file
/// mapped afterwards holds the modified bytes over the old content, the editor
/// shows after the save exactly the bytes it showed before it.
pub proof fn lemma_save_shows_same_bytes(before: EditorState, after: EditorState, file: Seq<u8>)
    requires
        before.base matches Some(b) && b.len() == before.size,
        file.len() == before.size,
        forall|i: int|
            0 <= i < before.size ==> #[trigger] file[i] == (if before.overlay.contains_key(
                i as usize,
            ) {
                before.overlay[i as usize]
            } else {
                before.base->0[i]
            }),
        after == (EditorState { overlay: Map::empty(), base: Some(file), ..before }),
    ensures
        after.shown() == before.shown(),
{
    assert(after.shown() =~= before.shown());
}

impl View for Editor {
    type V = Seq<Option<u8>>;

    open spec fn view(&self) -> Seq<Option<u8>> {
        self.shown()
    }
}

} // verus!
