//! Open clips, their undo history, and the clipboard.

pub mod decode;
pub mod edit;
pub mod engine;
pub mod export;
pub mod recording;

use std::collections::HashMap;
use std::sync::Arc;

use vstd::prelude::*;

use crate::text::{decimal, decimal_text};
use decode::DecodedAudio;

verus! {

broadcast use vstd::std_specs::hash::group_hash_axioms;

/// How many edits back a clip can be undone. Each step holds a whole copy of
/// the clip, so this is deliberately bounded.
pub const MAX_HISTORY: usize = 12;

/// One open clip: its current audio, where it came from, and its undo stack.
pub struct ClipEntry<S> {
    pub audio: Arc<DecodedAudio<S>>,
    pub name: String,
    pub path: String,
    pub file_size_bytes: u64,
    /// Bumped on every edit, so the UI knows its cached peaks are stale.
    pub version: u32,
    /// Earlier versions of the audio, oldest first. Entries are only ever
    /// handed out by shared reference, so the store alone changes it.
    pub history: Vec<Arc<DecodedAudio<S>>>,
}

impl<S> ClipEntry<S> {
    /// Earlier versions of the audio, oldest first.
    pub open spec fn history(&self) -> Seq<Arc<DecodedAudio<S>>> {
        self.history@
    }

    pub fn can_undo(&self) -> (b: bool)
        ensures
            b == (self.history().len() > 0),
    {
        !self.history.is_empty()
    }
}

/// The undo stack after `previous` is pushed onto `history`, dropping the
/// oldest version once more than `MAX_HISTORY` are held.
pub open spec fn pushed_history<S>(history: Seq<S>, previous: S) -> Seq<S> {
    if history.len() + 1 > MAX_HISTORY {
        history.push(previous).drop_first()
    } else {
        history.push(previous)
    }
}

/// `after` is `before` with its audio replaced by `audio` through an edit.
pub open spec fn edited_entry<S>(after: ClipEntry<S>, before: ClipEntry<S>, audio: DecodedAudio<S>) -> bool {
    &&& *after.audio == audio
    &&& after.name == before.name
    &&& after.path == before.path
    &&& after.file_size_bytes == before.file_size_bytes
    &&& after.version == before.version + 1
    &&& after.history() == pushed_history(before.history(), before.audio)
}

/// `after` is `before` with its last edit undone.
pub open spec fn undone_entry<S>(after: ClipEntry<S>, before: ClipEntry<S>) -> bool {
    &&& before.history().len() > 0
    &&& after.audio == before.history().last()
    &&& after.name == before.name
    &&& after.path == before.path
    &&& after.file_size_bytes == before.file_size_bytes
    &&& after.version == before.version + 1
    &&& after.history() == before.history().drop_last()
}

/// A clip just opened: version 0 and nothing to undo.
pub open spec fn fresh_entry<S>(
    entry: ClipEntry<S>,
    audio: DecodedAudio<S>,
    name: String,
    path: String,
    size: u64,
) -> bool {
    &&& *entry.audio == audio
    &&& entry.name == name
    &&& entry.path == path
    &&& entry.file_size_bytes == size
    &&& entry.version == 0
    &&& entry.history().len() == 0
}

/// The message for an operation on a clip id that is not open.
pub open spec fn not_open_message(id: u64) -> Seq<char> {
    "clip "@ + decimal(id as nat) + " is not open"@
}

fn not_open(id: u64) -> (m: String)
    ensures
        m@ == not_open_message(id),
{
    let mut m = String::from_str("clip ");
    let digits = decimal_text(id);
    m.append(digits.as_str());
    m.append(" is not open");
    m
}

/// Another handle on the same audio, through `Arc::clone`, which returns a
/// pointer to the same allocation and so to the same value.
#[verifier::external_body]
fn share<S>(audio: &Arc<DecodedAudio<S>>) -> (shared: Arc<DecodedAudio<S>>)
    ensures
        shared == *audio,
{
    Arc::clone(audio)
}

/// Audio copied out of a clip, waiting to be pasted. It is a copy, so it
/// survives edits to, or closing of, the clip it came from.
pub struct Clipboard<S>(pub Option<Arc<DecodedAudio<S>>>);

impl<S> Clipboard<S> {
    pub fn new() -> (board: Self)
        ensures
            board.0 is None,
    {
        Clipboard(None)
    }
}

impl<S> Default for Clipboard<S> {
    fn default() -> (board: Self)
        ensures
            board.0 is None,
    {
        Clipboard::new()
    }
}

/// Every clip the session has open, keyed by the id handed to the frontend.
///
/// Decoded audio stays on the Rust side: the UI only ever pulls the peaks it
/// needs to draw, and the mixer shares the very same buffers by `Arc`.
pub struct ClipStore<S> {
    clips: HashMap<u64, ClipEntry<S>>,
    next_id: u64,
}

impl<S> View for ClipStore<S> {
    type V = Map<u64, ClipEntry<S>>;

    closed spec fn view(&self) -> Map<u64, ClipEntry<S>> {
        self.clips@
    }
}

impl<S> ClipStore<S> {
    pub closed spec fn spec_last_id(&self) -> u64 {
        self.next_id
    }

    /// The id most recently handed out (0 before the first).
    #[verifier::when_used_as_spec(spec_last_id)]
    pub fn last_id(&self) -> (id: u64)
        ensures
            id == self.spec_last_id(),
    {
        self.next_id
    }

    /// Every open id was handed out by `insert`, and no undo stack is longer
    /// than `MAX_HISTORY`.
    pub closed spec fn wf(&self) -> bool {
        forall|id: u64|
            #[trigger] self.clips@.contains_key(id) ==> 1 <= id <= self.next_id
                && self.clips@[id].history@.len() <= MAX_HISTORY
    }

    /// Every undo stack in a well-formed store holds at most `MAX_HISTORY`
    /// versions, and every open id is one that has been handed out.
    pub proof fn lemma_wf_bounds(&self)
        requires
            self.wf(),
        ensures
            forall|id: u64|
                #[trigger] self@.contains_key(id) ==> 1 <= id <= self.last_id()
                    && self@[id].history().len() <= MAX_HISTORY,
    {
    }

    pub fn new() -> (store: Self)
        ensures
            store.wf(),
            store@ == Map::<u64, ClipEntry<S>>::empty(),
            store.last_id() == 0,
    {
        ClipStore { clips: HashMap::new(), next_id: 0 }
    }

    /// Opens a clip under a fresh id, one more than the last id handed out.
    pub fn insert(&mut self, audio: DecodedAudio<S>, name: String, path: String, size: u64) -> (id: u64)
        requires
            old(self).wf(),
            old(self).last_id() < u64::MAX,
        ensures
            final(self).wf(),
            id == old(self).last_id() + 1,
            final(self).last_id() == id,
            !old(self)@.contains_key(id),
            final(self)@.contains_key(id),
            fresh_entry(final(self)@[id], audio, name, path, size),
            final(self)@ == old(self)@.insert(id, final(self)@[id]),
    {
        let id = self.next_id + 1;
        self.next_id = id;
        let entry = ClipEntry {
            audio: Arc::new(audio),
            name,
            path,
            file_size_bytes: size,
            version: 0,
            history: Vec::new(),
        };
        self.clips.insert(id, entry);
        id
    }

    pub fn remove(&mut self, id: u64)
        requires
            old(self).wf(),
        ensures
            final(self).wf(),
            final(self).last_id() == old(self).last_id(),
            final(self)@ == old(self)@.remove(id),
    {
        self.clips.remove(&id);
    }

    pub fn audio(&self, id: u64) -> (audio: Option<Arc<DecodedAudio<S>>>)
        ensures
            match audio {
                Some(a) => self@.contains_key(id) && a == self@[id].audio,
                None => !self@.contains_key(id),
            },
    {
        match self.clips.get(&id) {
            Some(entry) => Some(share(&entry.audio)),
            None => None,
        }
    }

    /// Run `f` against a clip, or fail if it is no longer open.
    pub fn with<T, F: FnOnce(&ClipEntry<S>) -> T>(&self, id: u64, f: F) -> (result: Result<T, String>)
        requires
            self@.contains_key(id) ==> f.requires((&self@[id],)),
        ensures
            match result {
                Ok(t) => self@.contains_key(id) && f.ensures((&self@[id],), t),
                Err(m) => !self@.contains_key(id) && m@ == not_open_message(id),
            },
    {
        match self.clips.get(&id) {
            Some(entry) => Ok(f(entry)),
            None => Err(not_open(id)),
        }
    }

    /// Replaces a clip's audio with the result of `f`, keeping the old version
    /// for undo. The clip is left untouched if `f` fails.
    pub fn edit<
        T,
        F: FnOnce(&DecodedAudio<S>) -> Result<DecodedAudio<S>, String>,
        G: FnOnce(&ClipEntry<S>) -> T,
    >(&mut self, id: u64, f: F, then: G) -> (result: Result<T, String>)
        requires
            old(self).wf(),
            old(self)@.contains_key(id) ==> f.requires((&*old(self)@[id].audio,)),
            old(self)@.contains_key(id) && (exists|edited: DecodedAudio<S>|
                #[trigger] f.ensures((&*old(self)@[id].audio,), Ok(edited)))
                ==> old(self)@[id].version < u32::MAX,
            forall|entry: &ClipEntry<S>| then.requires((entry,)),
        ensures
            final(self).wf(),
            final(self).last_id() == old(self).last_id(),
            match result {
                Err(m) => {
                    &&& final(self)@ == old(self)@
                    &&& {
                        ||| !old(self)@.contains_key(id) && m@ == not_open_message(id)
                        ||| old(self)@.contains_key(id) && f.ensures(
                            (&*old(self)@[id].audio,),
                            Err(m),
                        )
                    }
                },
                Ok(t) => {
                    &&& old(self)@.contains_key(id)
                    &&& final(self)@ == old(self)@.insert(id, final(self)@[id])
                    &&& f.ensures((&*old(self)@[id].audio,), Ok(*final(self)@[id].audio))
                    &&& edited_entry(final(self)@[id], old(self)@[id], *final(self)@[id].audio)
                    &&& then.ensures((&final(self)@[id],), t)
                },
            },
    {
        let removed = self.clips.remove(&id);
        let entry = match removed {
            Some(entry) => entry,
            None => {
                return Err(not_open(id));
            },
        };
        let ghost before = entry;
        match f(&entry.audio) {
            Err(m) => {
                self.clips.insert(id, entry);
                assert(self.clips@ =~= old(self).clips@);
                Err(m)
            },
            Ok(edited) => {
                assert(f.ensures((&*before.audio,), Ok(edited)));
                let ClipEntry { audio, name, path, file_size_bytes, version, mut history } = entry;
                history.push(audio);
                if history.len() > MAX_HISTORY {
                    history.remove(0);
                }
                let after = ClipEntry {
                    audio: Arc::new(edited),
                    name,
                    path,
                    file_size_bytes,
                    version: version + 1,
                    history,
                };
                assert(after.history@ == pushed_history(before.history@, before.audio));
                let out = then(&after);
                self.clips.insert(id, after);
                Ok(out)
            },
        }
    }

    /// Puts back the version before the last edit.
    pub fn undo<T, G: FnOnce(&ClipEntry<S>) -> T>(&mut self, id: u64, then: G) -> (result: Result<
        T,
        String,
    >)
        requires
            old(self).wf(),
            old(self)@.contains_key(id) && old(self)@[id].history().len() > 0
                ==> old(self)@[id].version < u32::MAX,
            forall|entry: &ClipEntry<S>| then.requires((entry,)),
        ensures
            final(self).wf(),
            final(self).last_id() == old(self).last_id(),
            match result {
                Err(m) => {
                    &&& final(self)@ == old(self)@
                    &&& {
                        ||| !old(self)@.contains_key(id) && m@ == not_open_message(id)
                        ||| old(self)@.contains_key(id) && old(self)@[id].history().len() == 0
                            && m@ == "there is nothing to undo"@
                    }
                },
                Ok(t) => {
                    &&& old(self)@.contains_key(id)
                    &&& final(self)@ == old(self)@.insert(id, final(self)@[id])
                    &&& undone_entry(final(self)@[id], old(self)@[id])
                    &&& then.ensures((&final(self)@[id],), t)
                },
            },
    {
        let removed = self.clips.remove(&id);
        let entry = match removed {
            Some(entry) => entry,
            None => {
                return Err(not_open(id));
            },
        };
        if entry.history.len() == 0 {
            self.clips.insert(id, entry);
            assert(self.clips@ =~= old(self).clips@);
            return Err(String::from_str("there is nothing to undo"));
        }
        let ClipEntry { audio: _, name, path, file_size_bytes, version, mut history } = entry;
        let previous = history.pop().unwrap();
        let after = ClipEntry {
            audio: previous,
            name,
            path,
            file_size_bytes,
            version: version + 1,
            history,
        };
        let out = then(&after);
        self.clips.insert(id, after);
        Ok(out)
    }
}

impl<S> Default for ClipStore<S> {
    fn default() -> (store: Self)
        ensures
            store.wf(),
            store@ == Map::<u64, ClipEntry<S>>::empty(),
            store.last_id() == 0,
    {
        ClipStore::new()
    }
}

/// Undoing an edit puts back the audio the clip had before it, two versions
/// on; the undo stack is back where it was unless the edit pushed the oldest
/// version off a full stack.
pub proof fn lemma_undo_reverts_edit<S>(
    before: ClipEntry<S>,
    audio: DecodedAudio<S>,
    edited: ClipEntry<S>,
    undone: ClipEntry<S>,
)
    requires
        edited_entry(edited, before, audio),
        undone_entry(undone, edited),
    ensures
        undone.audio == before.audio,
        undone.name == before.name,
        undone.path == before.path,
        undone.version == before.version + 2,
        before.history().len() < MAX_HISTORY ==> undone.history() == before.history(),
{
    assert(before.history().push(before.audio).drop_last() =~= before.history());
}

/// An edit, undo or insert that stores `entry` under `id` leaves every other
/// open clip exactly as it was, and opens or closes nothing else.
pub proof fn lemma_other_clips_untouched<S>(
    before: Map<u64, ClipEntry<S>>,
    id: u64,
    entry: ClipEntry<S>,
    other: u64,
)
    requires
        other != id,
    ensures
        before.insert(id, entry).contains_key(other) == before.contains_key(other),
        before.contains_key(other) ==> before.insert(id, entry)[other] == before[other],
{
}

/// A clip with nothing to undo can be undone once an edit has succeeded.
pub proof fn lemma_edit_enables_undo<S>(before: ClipEntry<S>, audio: DecodedAudio<S>, edited: ClipEntry<S>)
    requires
        edited_entry(edited, before, audio),
    ensures
        edited.history().len() > 0,
        edited.history().last() == before.audio,
{
}

/// Each entry is the one before it after a successful edit.
pub open spec fn edit_chain<S>(entries: Seq<ClipEntry<S>>) -> bool {
    forall|i: int|
        0 <= i < entries.len() - 1 ==> #[trigger] edited_entry(
            entries[i + 1],
            entries[i],
            *entries[i + 1].audio,
        )
}

/// Each entry is the one before it after a successful undo.
pub open spec fn undo_chain<S>(entries: Seq<ClipEntry<S>>) -> bool {
    forall|i: int| 0 <= i < entries.len() - 1 ==> #[trigger] undone_entry(entries[i + 1], entries[i])
}

/// The audio of each entry, in order.
pub open spec fn audios<S>(entries: Seq<ClipEntry<S>>) -> Seq<Arc<DecodedAudio<S>>> {
    entries.map_values(|e: ClipEntry<S>| e.audio)
}

/// The first of `i` and `MAX_HISTORY` steps back from `i`.
pub open spec fn oldest_kept(i: int) -> int {
    if i <= MAX_HISTORY {
        0
    } else {
        i - MAX_HISTORY
    }
}

proof fn lemma_edit_chain_history<S>(entries: Seq<ClipEntry<S>>)
    requires
        entries.len() >= 1,
        entries[0].history().len() == 0,
        edit_chain(entries),
    ensures
        forall|i: int|
            0 <= i < entries.len() ==> #[trigger] entries[i].history() == audios(entries).subrange(
                oldest_kept(i),
                i,
            ),
    decreases entries.len(),
{
    if entries.len() == 1 {
        assert(entries[0].history() =~= audios(entries).subrange(0, 0));
    } else {
        let n = entries.len() - 1;
        let init = entries.take(n);
        assert forall|i: int| 0 <= i < init.len() - 1 implies #[trigger] edited_entry(
            init[i + 1],
            init[i],
            *init[i + 1].audio,
        ) by {
            assert(edited_entry(entries[i + 1], entries[i], *entries[i + 1].audio));
        }
        lemma_edit_chain_history(init);
        assert(audios(init) =~= audios(entries).take(n));
        let last = n - 1;
        assert(edited_entry(entries[last + 1], entries[last], *entries[last + 1].audio));
        assert(last + 1 == n);
        let h = entries[n - 1].history();
        assert(init[last] == entries[last]);
        assert(init[last].history() == audios(init).subrange(oldest_kept(last), last));
        assert(h =~= audios(entries).subrange(oldest_kept(n - 1), n - 1));
        assert(audios(entries)[n - 1] == entries[n - 1].audio);
        assert(entries[n].history() =~= audios(entries).subrange(oldest_kept(n), n));
        assert forall|i: int| 0 <= i < entries.len() implies #[trigger] entries[i].history()
            == audios(entries).subrange(oldest_kept(i), i) by {
            if i < n {
                assert(init[i] == entries[i]);
                assert(audios(init).subrange(oldest_kept(i), i) =~= audios(entries).subrange(
                    oldest_kept(i),
                    i,
                ));
            }
        }
    }
}

/// Undo walks back through the edits: after `k` edits of a freshly opened
/// clip, undo succeeds exactly `min(k, MAX_HISTORY)` times in a row, the
/// `j`-th time putting back the audio from before the `j`-th most recent edit
/// and bumping the version once more each time; after that there is nothing
/// left to undo.
pub proof fn lemma_undo_walks_back<S>(edits: Seq<ClipEntry<S>>, undos: Seq<ClipEntry<S>>)
    requires
        edits.len() >= 1,
        edits[0].history().len() == 0,
        edit_chain(edits),
        undos.len() >= 1,
        undos[0] == edits.last(),
        undo_chain(undos),
    ensures
        ({
            let k = edits.len() - 1;
            let kept = k - oldest_kept(k);
            &&& kept == if k <= MAX_HISTORY {
                k
            } else {
                MAX_HISTORY as int
            }
            &&& undos.len() - 1 <= kept
            &&& forall|j: int|
                0 <= j < undos.len() ==> #[trigger] undos[j].audio == edits[k - j].audio
                    && undos[j].version == edits[k].version + j
            &&& undos.last().history().len() == kept - (undos.len() - 1)
        }),
    decreases undos.len(),
{
    let k = edits.len() - 1;
    let lo = oldest_kept(k);
    lemma_edit_chain_history(edits);
    if undos.len() == 1 {
        assert(undos[0].history() == audios(edits).subrange(lo, k));
    } else {
        let m = undos.len() - 1;
        let init = undos.take(m);
        assert forall|i: int| 0 <= i < init.len() - 1 implies #[trigger] undone_entry(
            init[i + 1],
            init[i],
        ) by {
            assert(undone_entry(undos[i + 1], undos[i]));
        }
        lemma_undo_walks_back(edits, init);
        assert(init.last() == undos[m - 1]);
        let last = m - 1;
        assert(undone_entry(undos[last + 1], undos[last]));
        assert(last + 1 == m);
        // The history of every entry in the undo run is a prefix of the
        // history after the last edit.
        lemma_undo_chain_history(edits, undos);
        assert forall|j: int| 0 <= j < undos.len() implies #[trigger] undos[j].audio == edits[k
            - j].audio && undos[j].version == edits[k].version + j by {
            if j < m {
                assert(init[j] == undos[j]);
                assert(init[j].audio == edits[k - j].audio);
            } else {
                assert(init[m - 1] == undos[m - 1]);
                assert(init[m - 1].audio == edits[k - (m - 1)].audio);
                assert(undos[m].audio == undos[m - 1].history().last());
                assert(undos[m - 1].history() == audios(edits).subrange(lo, k - (m - 1)));
                assert(audios(edits)[k - m] == edits[k - m].audio);
            }
        }
    }
}

proof fn lemma_undo_chain_history<S>(edits: Seq<ClipEntry<S>>, undos: Seq<ClipEntry<S>>)
    requires
        edits.len() >= 1,
        edits[0].history().len() == 0,
        edit_chain(edits),
        undos.len() >= 1,
        undos[0] == edits.last(),
        undo_chain(undos),
    ensures
        undos.len() - 1 <= (edits.len() - 1) - oldest_kept(edits.len() - 1),
        forall|j: int|
            0 <= j < undos.len() ==> #[trigger] undos[j].history() == audios(edits).subrange(
                oldest_kept(edits.len() - 1),
                edits.len() - 1 - j,
            ),
    decreases undos.len(),
{
    let k = edits.len() - 1;
    let lo = oldest_kept(k);
    lemma_edit_chain_history(edits);
    assert(edits[k].history() == audios(edits).subrange(lo, k));
    if undos.len() > 1 {
        let m = undos.len() - 1;
        let init = undos.take(m);
        assert forall|i: int| 0 <= i < init.len() - 1 implies #[trigger] undone_entry(
            init[i + 1],
            init[i],
        ) by {
            assert(undone_entry(undos[i + 1], undos[i]));
        }
        lemma_undo_chain_history(edits, init);
        assert(init[m - 1] == undos[m - 1]);
        let last = m - 1;
        assert(undone_entry(undos[last + 1], undos[last]));
        assert(last + 1 == m);
        assert(undos[m - 1].history() == audios(edits).subrange(lo, k - (m - 1)));
        assert(undos[m].history() =~= audios(edits).subrange(lo, k - m));
        assert forall|j: int| 0 <= j < undos.len() implies #[trigger] undos[j].history()
            == audios(edits).subrange(lo, k - j) by {
            if j < m {
                assert(init[j] == undos[j]);
            }
        }
    }
}

} // verus!
