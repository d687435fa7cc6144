//! Keyed registry of on-screen debug text lines.
//!
//! Each key owns at most one entry: a visual entity handle, a stable line
//! slot, the frame it was last touched, a sticky persistence flag and the
//! displayed message. Slots are handed out by a monotonically increasing
//! allocator and are never reused for a different key, even after the
//! original entry is evicted. Once per frame the registry advances its
//! frame counter and evicts every ephemeral entry that has not been
//! refreshed for more than one frame.
//!
//! The registry is modelled by maps from key to slot and from key to entry;
//! every operation's contract states exactly how the model changes.

use crate::level::DebugLevel;
use crate::queue::DebugRequest;
use vstd::prelude::*;

verus! {

/// One on-screen debug text line.
pub struct DebugEntry {
    /// Handle of the visual entity displaying the line, as the host knows it.
    pub entity: u64,
    /// The line slot (vertical position index) assigned to the key.
    pub line: usize,
    /// The frame this entry was last written.
    pub last_frame: u64,
    /// Whether the entry survives without being refreshed.
    pub persistent: bool,
    /// The displayed text.
    pub message: String,
}

/// Mathematical image of one entry.
#[verifier::ext_equal]
pub ghost struct EntryModel {
    pub entity: u64,
    pub line: nat,
    pub last_frame: u64,
    pub persistent: bool,
    pub message: Seq<char>,
}

/// The abstraction of one concrete entry.
pub open spec fn entry_model(e: DebugEntry) -> EntryModel {
    EntryModel {
        entity: e.entity,
        line: e.line as nat,
        last_frame: e.last_frame,
        persistent: e.persistent,
        message: e.message@,
    }
}

/// Mathematical image of the whole registry.
#[verifier::ext_equal]
pub ghost struct RegistryModel {
    /// The current frame counter.
    pub frame: u64,
    /// The next slot index the allocator will hand out.
    pub next_line: nat,
    /// Every slot ever assigned, by key; never shrinks.
    pub lookup: Map<Seq<char>, nat>,
    /// The live entries, by key.
    pub entries: Map<Seq<char>, EntryModel>,
}

/// Keys of an association list are pairwise distinct.
pub open spec fn keys_unique<T>(s: Seq<(String, T)>) -> bool {
    forall|i: int, j: int| 0 <= i < j < s.len() ==> s[i].0@ != s[j].0@
}

/// The map an association list of slots denotes (later pairs win).
pub open spec fn lookup_map(s: Seq<(String, usize)>) -> Map<Seq<char>, nat>
    decreases s.len(),
{
    if s.len() == 0 {
        Map::empty()
    } else {
        lookup_map(s.drop_last()).insert(s.last().0@, s.last().1 as nat)
    }
}

/// The map an association list of entries denotes (later pairs win).
pub open spec fn entries_map(s: Seq<(String, DebugEntry)>) -> Map<Seq<char>, EntryModel>
    decreases s.len(),
{
    if s.len() == 0 {
        Map::empty()
    } else {
        entries_map(s.drop_last()).insert(s.last().0@, entry_model(s.last().1))
    }
}

proof fn lemma_lookup_map_contains(s: Seq<(String, usize)>, k: Seq<char>)
    ensures
        lookup_map(s).dom().contains(k) <==> exists|i: int| 0 <= i < s.len() && s[i].0@ == k,
    decreases s.len(),
{
    if s.len() > 0 {
        lemma_lookup_map_contains(s.drop_last(), k);
        if s.last().0@ != k {
            if lookup_map(s).dom().contains(k) {
                let i = choose|i: int| 0 <= i < s.drop_last().len() && s.drop_last()[i].0@ == k;
                assert(s[i].0@ == k);
            }
            if exists|i: int| 0 <= i < s.len() && s[i].0@ == k {
                let i = choose|i: int| 0 <= i < s.len() && s[i].0@ == k;
                assert(s.drop_last()[i].0@ == k);
            }
        }
    }
}

proof fn lemma_lookup_map_index(s: Seq<(String, usize)>, i: int)
    requires
        keys_unique(s),
        0 <= i < s.len(),
    ensures
        lookup_map(s).dom().contains(s[i].0@),
        lookup_map(s)[s[i].0@] == s[i].1 as nat,
    decreases s.len(),
{
    if i < s.len() - 1 {
        lemma_lookup_map_index(s.drop_last(), i);
    }
}

proof fn lemma_entries_map_contains(s: Seq<(String, DebugEntry)>, k: Seq<char>)
    ensures
        entries_map(s).dom().contains(k) <==> exists|i: int| 0 <= i < s.len() && s[i].0@ == k,
    decreases s.len(),
{
    if s.len() > 0 {
        lemma_entries_map_contains(s.drop_last(), k);
        if s.last().0@ != k {
            if entries_map(s).dom().contains(k) {
                let i = choose|i: int| 0 <= i < s.drop_last().len() && s.drop_last()[i].0@ == k;
                assert(s[i].0@ == k);
            }
            if exists|i: int| 0 <= i < s.len() && s[i].0@ == k {
                let i = choose|i: int| 0 <= i < s.len() && s[i].0@ == k;
                assert(s.drop_last()[i].0@ == k);
            }
        }
    }
}

proof fn lemma_entries_map_index(s: Seq<(String, DebugEntry)>, i: int)
    requires
        keys_unique(s),
        0 <= i < s.len(),
    ensures
        entries_map(s).dom().contains(s[i].0@),
        entries_map(s)[s[i].0@] == entry_model(s[i].1),
    decreases s.len(),
{
    if i < s.len() - 1 {
        lemma_entries_map_index(s.drop_last(), i);
    }
}

proof fn lemma_entries_map_update(s: Seq<(String, DebugEntry)>, i: int, e: DebugEntry)
    requires
        keys_unique(s),
        0 <= i < s.len(),
    ensures
        entries_map(s.update(i, (s[i].0, e))) == entries_map(s).insert(s[i].0@, entry_model(e)),
    decreases s.len(),
{
    let t = s.update(i, (s[i].0, e));
    if i == s.len() - 1 {
        assert(t.drop_last() =~= s.drop_last());
        assert(entries_map(t) =~= entries_map(s).insert(s[i].0@, entry_model(e)));
    } else {
        lemma_entries_map_update(s.drop_last(), i, e);
        assert(t.drop_last() =~= s.drop_last().update(i, (s[i].0, e)));
        assert(t.last() == s.last());
        lemma_entries_map_contains(s.drop_last(), s[i].0@);
        assert(entries_map(t) =~= entries_map(s).insert(s[i].0@, entry_model(e)));
    }
}

/// Slot assignment is injective and entries agree with it: every entry's
/// key has a slot, that slot is the entry's line, every assigned slot is
/// below the allocator's next slot, and no two keys share a slot.
pub open spec fn model_wf(m: RegistryModel) -> bool {
    &&& forall|k: Seq<char>| #[trigger]
        m.entries.dom().contains(k) ==> m.lookup.dom().contains(k) && m.entries[k].line
            == m.lookup[k]
    &&& forall|k: Seq<char>| #[trigger] m.lookup.dom().contains(k) ==> m.lookup[k] < m.next_line
    &&& forall|k1: Seq<char>, k2: Seq<char>|
        m.lookup.dom().contains(k1) && m.lookup.dom().contains(k2) && k1 != k2
            ==> #[trigger] m.lookup[k1] != #[trigger] m.lookup[k2]
}

/// How one write transforms the registry model: an existing entry is
/// updated in place (text replaced, last-touched frame refreshed,
/// persistence OR-ed); a new entry reuses the key's old slot if one was
/// ever assigned, else takes the next slot; the frame counter never moves.
pub open spec fn write_model(
    m: RegistryModel,
    key: Seq<char>,
    message: Seq<char>,
    persistent: bool,
    new_entity: u64,
) -> RegistryModel {
    if m.entries.dom().contains(key) {
        let e = m.entries[key];
        RegistryModel {
            frame: m.frame,
            next_line: m.next_line,
            lookup: m.lookup,
            entries: m.entries.insert(
                key,
                EntryModel {
                    entity: e.entity,
                    line: e.line,
                    last_frame: m.frame,
                    persistent: e.persistent || persistent,
                    message,
                },
            ),
        }
    } else if m.lookup.dom().contains(key) {
        RegistryModel {
            frame: m.frame,
            next_line: m.next_line,
            lookup: m.lookup,
            entries: m.entries.insert(
                key,
                EntryModel {
                    entity: new_entity,
                    line: m.lookup[key],
                    last_frame: m.frame,
                    persistent,
                    message,
                },
            ),
        }
    } else {
        RegistryModel {
            frame: m.frame,
            next_line: m.next_line + 1,
            lookup: m.lookup.insert(key, m.next_line),
            entries: m.entries.insert(
                key,
                EntryModel {
                    entity: new_entity,
                    line: m.next_line,
                    last_frame: m.frame,
                    persistent,
                    message,
                },
            ),
        }
    }
}

/// What a write asks of the host scene graph.
#[derive(Clone, Copy, Debug, PartialEq, Eq, Structural)]
pub enum WriteEffect {
    /// An existing line was updated: replace this entity's displayed text.
    Updated { entity: u64 },
    /// A new line was registered under the entity handed in: spawn its text
    /// entity at the slot, visible or hidden as stated.
    Spawned { slot: usize, visible: bool },
}

/// The effect a write has on the host scene, as a function of the state
/// before the write.
pub open spec fn write_effect_of(
    m: RegistryModel,
    key: Seq<char>,
    level: DebugLevel,
) -> WriteEffect {
    if m.entries.dom().contains(key) {
        WriteEffect::Updated { entity: m.entries[key].entity }
    } else {
        let slot = if m.lookup.dom().contains(key) {
            m.lookup[key]
        } else {
            m.next_line
        };
        WriteEffect::Spawned { slot: slot as usize, visible: level == DebugLevel::Full }
    }
}

/// The frame counter after one frame advance (wrapping).
pub open spec fn next_frame(f: u64) -> u64 {
    if f == u64::MAX {
        0
    } else {
        (f + 1) as u64
    }
}

/// Whether an entry survives eviction once the counter stands at `frame`:
/// persistent entries always do, ephemeral ones only when last written at
/// most one frame earlier.
pub open spec fn keeps(e: EntryModel, frame: u64) -> bool {
    e.persistent || e.last_frame as int + 1 >= frame as int
}

/// The entry map after eviction at `frame`: the surviving entries, unchanged.
pub open spec fn cleanup_entries(
    entries: Map<Seq<char>, EntryModel>,
    frame: u64,
) -> Map<Seq<char>, EntryModel> {
    Map::new(
        |k: Seq<char>| entries.dom().contains(k) && keeps(entries[k], frame),
        |k: Seq<char>| entries[k],
    )
}

/// How one frame advance transforms the registry model: the counter moves
/// on, stale ephemeral entries disappear, and the slot table is untouched.
pub open spec fn cleanup_model(m: RegistryModel) -> RegistryModel {
    let f = next_frame(m.frame);
    RegistryModel {
        frame: f,
        next_line: m.next_line,
        lookup: m.lookup,
        entries: cleanup_entries(m.entries, f),
    }
}

/// The surviving pairs of an entry list after eviction at `frame`, in order.
pub open spec fn kept_pairs(s: Seq<(String, DebugEntry)>, frame: u64) -> Seq<(String, DebugEntry)>
    decreases s.len(),
{
    if s.len() == 0 {
        Seq::empty()
    } else {
        let rest = kept_pairs(s.drop_last(), frame);
        if keeps(entry_model(s.last().1), frame) {
            rest.push(s.last())
        } else {
            rest
        }
    }
}

/// The entity handles of the evicted entries, in registry order.
pub open spec fn evicted_entities(s: Seq<(String, DebugEntry)>, frame: u64) -> Seq<u64>
    decreases s.len(),
{
    if s.len() == 0 {
        Seq::empty()
    } else {
        let rest = evicted_entities(s.drop_last(), frame);
        if keeps(entry_model(s.last().1), frame) {
            rest
        } else {
            rest.push(s.last().1.entity)
        }
    }
}

/// Eviction on the association list refines eviction on the map: the
/// surviving list keeps distinct keys and denotes exactly the surviving map.
proof fn lemma_kept_pairs(s: Seq<(String, DebugEntry)>, frame: u64)
    requires
        keys_unique(s),
    ensures
        keys_unique(kept_pairs(s, frame)),
        entries_map(kept_pairs(s, frame)) == cleanup_entries(entries_map(s), frame),
        forall|j: int|
            0 <= j < kept_pairs(s, frame).len() ==> exists|l: int|
                0 <= l < s.len() && #[trigger] kept_pairs(s, frame)[j] == s[l],
    decreases s.len(),
{
    let k = kept_pairs(s, frame);
    if s.len() == 0 {
        assert(entries_map(k) =~= cleanup_entries(entries_map(s), frame));
    } else {
        let d = s.drop_last();
        let x = s.last();
        lemma_kept_pairs(d, frame);
        let kd = kept_pairs(d, frame);
        lemma_entries_map_contains(d, x.0@);
        assert(forall|j: int| 0 <= j < d.len() ==> d[j] == s[j]);
        assert(!entries_map(d).dom().contains(x.0@));
        if keeps(entry_model(x.1), frame) {
            assert(forall|j: int| 0 <= j < kd.len() ==> exists|l: int|
                0 <= l < d.len() && #[trigger] kd[j] == d[l]);
            assert(forall|j: int| 0 <= j < kd.len() ==> kd[j].0@ != x.0@) by {
                assert forall|j: int| 0 <= j < kd.len() implies kd[j].0@ != x.0@ by {
                    let l = choose|l: int| 0 <= l < d.len() && kd[j] == d[l];
                    assert(s[l].0@ != s[s.len() - 1].0@);
                }
            }
            assert(k == kd.push(x));
            assert(k.drop_last() =~= kd);
            assert(keys_unique(k));
            assert(entries_map(k) =~= cleanup_entries(entries_map(s), frame));
            assert(forall|j: int|
                0 <= j < k.len() ==> exists|l: int| 0 <= l < s.len() && #[trigger] k[j] == s[l])
                by {
                assert forall|j: int| 0 <= j < k.len() implies exists|l: int|
                    0 <= l < s.len() && #[trigger] k[j] == s[l] by {
                    if j < kd.len() {
                        let l = choose|l: int| 0 <= l < d.len() && kd[j] == d[l];
                        assert(k[j] == s[l]);
                    } else {
                        assert(k[j] == s[s.len() - 1]);
                    }
                }
            }
        } else {
            assert(k == kd);
            assert(entries_map(k) =~= cleanup_entries(entries_map(s), frame));
        }
    }
}

/// How a drained batch transforms the registry model: the writes are
/// applied one by one, in submission order.
pub open spec fn apply_model(
    m: RegistryModel,
    reqs: Seq<DebugRequest>,
    ents: Seq<u64>,
) -> RegistryModel
    decreases reqs.len(),
{
    if reqs.len() == 0 {
        m
    } else {
        write_model(
            apply_model(m, reqs.drop_last(), ents.drop_last()),
            reqs.last().key@,
            reqs.last().message@,
            reqs.last().persistent,
            ents.last(),
        )
    }
}

/// The effects a drained batch asks of the host, one per request, in
/// submission order.
pub open spec fn apply_effects(
    m: RegistryModel,
    reqs: Seq<DebugRequest>,
    level: DebugLevel,
    ents: Seq<u64>,
) -> Seq<WriteEffect>
    decreases reqs.len(),
{
    if reqs.len() == 0 {
        Seq::empty()
    } else {
        apply_effects(m, reqs.drop_last(), level, ents.drop_last()).push(
            write_effect_of(
                apply_model(m, reqs.drop_last(), ents.drop_last()),
                reqs.last().key@,
                level,
            ),
        )
    }
}

/// The registry: frame counter, slot allocator, slot table and live entries.
pub struct DebugTextWriter {
    /// Frame counter, advanced once per frame before eviction.
    pub frame: u64,
    /// Next slot index to allocate.
    pub next_line: usize,
    /// Every slot ever assigned, keyed by the key string.
    pub line_lookup: Vec<(String, usize)>,
    /// The live entries, keyed by the key string.
    pub entries: Vec<(String, DebugEntry)>,
}

impl DebugTextWriter {
    /// The registry's mathematical image.
    pub open spec fn model(&self) -> RegistryModel {
        RegistryModel {
            frame: self.frame,
            next_line: self.next_line as nat,
            lookup: lookup_map(self.line_lookup@),
            entries: entries_map(self.entries@),
        }
    }

    /// Both association lists have distinct keys and the model is
    /// well-formed.
    pub open spec fn wf(&self) -> bool {
        &&& keys_unique(self.line_lookup@)
        &&& keys_unique(self.entries@)
        &&& model_wf(self.model())
    }

    /// An empty registry at frame zero.
    pub fn new() -> (r: Self)
        ensures
            r.wf(),
            r.model() == (RegistryModel {
                frame: 0,
                next_line: 0,
                lookup: Map::<Seq<char>, nat>::empty(),
                entries: Map::<Seq<char>, EntryModel>::empty(),
            }),
    {
        let r = DebugTextWriter {
            frame: 0,
            next_line: 0,
            line_lookup: Vec::new(),
            entries: Vec::new(),
        };
        proof {
            assert(r.model() =~= (RegistryModel {
                frame: 0,
                next_line: 0,
                lookup: Map::<Seq<char>, nat>::empty(),
                entries: Map::<Seq<char>, EntryModel>::empty(),
            }));
        }
        r
    }

    /// Index of the key's entry, if it has one.
    fn find_entry(&self, key: &String) -> (r: Option<usize>)
        ensures
            match r {
                Some(i) => i < self.entries@.len() && self.entries@[i as int].0@ == key@,
                None => forall|i: int| 0 <= i < self.entries@.len() ==> self.entries@[i].0@ != key@,
            },
    {
        let n = self.entries.len();
        let mut i: usize = 0;
        while i < n
            invariant
                i <= n,
                n == self.entries@.len(),
                forall|j: int| 0 <= j < i ==> self.entries@[j].0@ != key@,
            decreases n - i,
        {
            let pair = &self.entries[i];
            if pair.0.eq(key) {
                return Some(i);
            }
            i = i + 1;
        }
        None
    }

    /// Slot assigned to the key earlier in the run, if any.
    fn find_slot(&self, key: &String) -> (r: Option<usize>)
        ensures
            match r {
                Some(line) => lookup_map(self.line_lookup@).dom().contains(key@) && (keys_unique(
                    self.line_lookup@,
                ) ==> line as nat == lookup_map(self.line_lookup@)[key@]),
                None => forall|i: int|
                    0 <= i < self.line_lookup@.len() ==> self.line_lookup@[i].0@ != key@,
            },
    {
        let n = self.line_lookup.len();
        let mut i: usize = 0;
        while i < n
            invariant
                i <= n,
                n == self.line_lookup@.len(),
                forall|j: int| 0 <= j < i ==> self.line_lookup@[j].0@ != key@,
            decreases n - i,
        {
            let pair = &self.line_lookup[i];
            if pair.0.eq(key) {
                proof {
                    lemma_lookup_map_contains(self.line_lookup@, key@);
                    if keys_unique(self.line_lookup@) {
                        lemma_lookup_map_index(self.line_lookup@, i as int);
                    }
                }
                return Some(pair.1);
            }
            i = i + 1;
        }
        None
    }

    /// Write a debug text line under a key. An existing entry is updated in
    /// place; otherwise a new entry is registered, on the key's old slot if
    /// it ever had one, else on a freshly allocated slot. `new_entity` is
    /// the handle the host would give the new line's visual entity; it is
    /// recorded only in the spawn case, which the returned effect reports.
    pub fn write_with_persistence(
        &mut self,
        key: String,
        message: String,
        persistent: bool,
        level: DebugLevel,
        new_entity: u64,
    ) -> (r: WriteEffect)
        requires
            old(self).wf(),
            old(self).next_line < usize::MAX,
        ensures
            final(self).wf(),
            final(self).model() == write_model(
                old(self).model(),
                key@,
                message@,
                persistent,
                new_entity,
            ),
            r == write_effect_of(old(self).model(), key@, level),
    {
        let ghost m0 = self.model();
        proof {
            lemma_entries_map_contains(self.entries@, key@);
        }
        match self.find_entry(&key) {
            Some(i) => {
                proof {
                    lemma_entries_map_index(self.entries@, i as int);
                }
                let entity = self.entries[i].1.entity;
                let was_persistent = self.entries[i].1.persistent;
                let frame = self.frame;
                self.entries[i].1.message = message;
                self.entries[i].1.last_frame = frame;
                self.entries[i].1.persistent = was_persistent || persistent;
                proof {
                    let s = old(self).entries@;
                    let e2 = self.entries@[i as int].1;
                    assert(self.entries@ =~= s.update(i as int, (s[i as int].0, e2)));
                    lemma_entries_map_update(s, i as int, e2);
                    assert(forall|a: int, b: int|
                        0 <= a < b < self.entries@.len() ==> self.entries@[a].0@ == s[a].0@
                            && self.entries@[b].0@ == s[b].0@);
                    assert(self.model() =~= write_model(m0, key@, message@, persistent, new_entity));
                }
                WriteEffect::Updated { entity }
            },
            None => {
                proof {
                    lemma_lookup_map_contains(self.line_lookup@, key@);
                }
                let visible = level.overlays_enabled();
                let line: usize = match self.find_slot(&key) {
                    Some(line) => line,
                    None => {
                        let line = self.next_line;
                        self.next_line = self.next_line + 1;
                        self.line_lookup.push((key.clone(), line));
                        proof {
                            assert(self.line_lookup@.drop_last() =~= old(self).line_lookup@);
                            assert(forall|j: int|
                                0 <= j < old(self).line_lookup@.len()
                                    ==> old(self).line_lookup@[j].0@ != key@);
                        }
                        line
                    },
                };
                let entry = DebugEntry {
                    entity: new_entity,
                    line,
                    last_frame: self.frame,
                    persistent,
                    message,
                };
                let ghost s_before = self.entries@;
                let ghost key_view = key@;
                self.entries.push((key, entry));
                proof {
                    assert(self.entries@.drop_last() =~= s_before);
                    assert(self.entries@.last() == (self.entries@.last().0, entry));
                    assert(self.entries@.last().0@ == key_view);
                    assert(forall|j: int| 0 <= j < s_before.len() ==> s_before[j].0@ != key_view);
                    assert(keys_unique(self.entries@));
                    assert(self.model().entries =~= m0.entries.insert(
                        key_view,
                        entry_model(entry),
                    ));
                    if m0.lookup.dom().contains(key_view) {
                        assert(self.model() =~= write_model(
                            m0,
                            key_view,
                            message@,
                            persistent,
                            new_entity,
                        ));
                    } else {
                        assert(self.model().lookup =~= m0.lookup.insert(
                            key_view,
                            m0.next_line,
                        ));
                        assert(self.model() =~= write_model(
                            m0,
                            key_view,
                            message@,
                            persistent,
                            new_entity,
                        ));
                    }
                    assert(model_wf(self.model()));
                }
                WriteEffect::Spawned { slot: line, visible }
            },
        }
    }

    /// Advance the frame counter (wrapping) and evict every stale entry:
    /// one that is not persistent and was last written more than one frame
    /// before the new counter. Returns the entity handles of the evicted
    /// entries, in registry order, for the host to despawn. Slot
    /// assignments are never reclaimed.
    pub fn cleanup_stale_debug_texts(&mut self) -> (despawned: Vec<u64>)
        requires
            old(self).wf(),
        ensures
            final(self).wf(),
            final(self).model() == cleanup_model(old(self).model()),
            final(self).frame == next_frame(old(self).frame),
            final(self).entries@ == kept_pairs(old(self).entries@, final(self).frame),
            despawned@ == evicted_entities(old(self).entries@, final(self).frame),
    {
        self.frame = self.frame.wrapping_add(1);
        let frame = self.frame;
        let ghost s = self.entries@;
        let mut remaining: Vec<(String, DebugEntry)> = Vec::new();
        core::mem::swap(&mut remaining, &mut self.entries);
        let n = remaining.len();
        let mut kept: Vec<(String, DebugEntry)> = Vec::new();
        let mut despawned: Vec<u64> = Vec::new();
        let mut i: usize = 0;
        proof {
            assert(s.take(0) =~= Seq::<(String, DebugEntry)>::empty());
            assert(remaining@.skip(0) =~= s);
        }
        while i < n
            invariant
                i <= n,
                n == s.len(),
                remaining@ == s.skip(i as int),
                kept@ == kept_pairs(s.take(i as int), frame),
                despawned@ == evicted_entities(s.take(i as int), frame),
            decreases n - i,
        {
            let pair = remaining.remove(0);
            proof {
                assert(s.skip(i as int)[0] == s[i as int]);
                assert(s.skip(i as int).drop_first() =~= s.skip(i + 1));
                assert(s.take(i + 1).drop_last() =~= s.take(i as int));
                assert(s.take(i + 1).last() == s[i as int]);
            }
            let keep = pair.1.persistent || pair.1.last_frame as u128 + 1 >= frame as u128;
            if keep {
                kept.push(pair);
            } else {
                despawned.push(pair.1.entity);
            }
            i = i + 1;
        }
        proof {
            assert(s.take(n as int) =~= s);
        }
        self.entries = kept;
        proof {
            lemma_kept_pairs(s, frame);
            assert(self.model().entries =~= cleanup_model(old(self).model()).entries);
            assert(self.model() =~= cleanup_model(old(self).model()));
            assert(model_wf(self.model()));
        }
        despawned
    }

    /// Apply a batch of drained requests in submission order: request `i`
    /// is written with `entities[i]` offered as its fresh entity handle.
    /// Returns one effect per request, in the same order, for the host to
    /// carry out.
    pub fn apply_requests(
        &mut self,
        requests: Vec<DebugRequest>,
        level: DebugLevel,
        entities: Vec<u64>,
    ) -> (effects: Vec<WriteEffect>)
        requires
            old(self).wf(),
            entities@.len() == requests@.len(),
            old(self).next_line + requests@.len() <= usize::MAX,
        ensures
            final(self).wf(),
            final(self).model() == apply_model(old(self).model(), requests@, entities@),
            effects@ == apply_effects(old(self).model(), requests@, level, entities@),
    {
        let ghost m0 = self.model();
        let ghost rs = requests@;
        let ghost es = entities@;
        let mut requests = requests;
        let mut entities = entities;
        let n = requests.len();
        let mut effects: Vec<WriteEffect> = Vec::new();
        let mut i: usize = 0;
        proof {
            assert(rs.take(0) =~= Seq::<DebugRequest>::empty());
            assert(es.take(0) =~= Seq::<u64>::empty());
            assert(requests@.skip(0) =~= rs);
            assert(entities@.skip(0) =~= es);
        }
        while i < n
            invariant
                i <= n,
                n == rs.len(),
                es.len() == rs.len(),
                requests@ == rs.skip(i as int),
                entities@ == es.skip(i as int),
                self.wf(),
                self.next_line as int <= m0.next_line + i,
                m0.next_line + rs.len() <= usize::MAX,
                self.model() == apply_model(m0, rs.take(i as int), es.take(i as int)),
                effects@ == apply_effects(m0, rs.take(i as int), level, es.take(i as int)),
            decreases n - i,
        {
            let req = requests.remove(0);
            let ent = entities.remove(0);
            proof {
                assert(rs.skip(i as int)[0] == rs[i as int]);
                assert(rs.skip(i as int).drop_first() =~= rs.skip(i + 1));
                assert(es.skip(i as int)[0] == es[i as int]);
                assert(es.skip(i as int).drop_first() =~= es.skip(i + 1));
                assert(rs.take(i + 1).drop_last() =~= rs.take(i as int));
                assert(rs.take(i + 1).last() == rs[i as int]);
                assert(es.take(i + 1).drop_last() =~= es.take(i as int));
                assert(es.take(i + 1).last() == es[i as int]);
            }
            let DebugRequest { key, message, persistent } = req;
            let eff = self.write_with_persistence(key, message, persistent, level, ent);
            effects.push(eff);
            i = i + 1;
        }
        proof {
            assert(rs.take(n as int) =~= rs);
            assert(es.take(n as int) =~= es);
        }
        effects
    }

    /// Write an ephemeral debug text line: the entry must be refreshed
    /// every frame (or the one after) to stay visible.
    pub fn write(&mut self, key: String, message: String, level: DebugLevel, new_entity: u64) -> (r:
        WriteEffect)
        requires
            old(self).wf(),
            old(self).next_line < usize::MAX,
        ensures
            final(self).wf(),
            final(self).model() == write_model(old(self).model(), key@, message@, false, new_entity),
            r == write_effect_of(old(self).model(), key@, level),
    {
        self.write_with_persistence(key, message, false, level, new_entity)
    }
}

/// Law: writing the same key twice within a frame leaves exactly one entry
/// and allocates no second slot; the second write overwrites the displayed
/// text in place on the same visual entity, refreshes the last-touched
/// frame, and leaves the slot table exactly as the first write left it.
pub proof fn lemma_same_key_twice(
    m: RegistryModel,
    key: Seq<char>,
    msg1: Seq<char>,
    msg2: Seq<char>,
    p1: bool,
    p2: bool,
    e1: u64,
    e2: u64,
)
    ensures
        ({
            let m1 = write_model(m, key, msg1, p1, e1);
            let m2 = write_model(m1, key, msg2, p2, e2);
            &&& m2.entries.dom() =~= m.entries.dom().insert(key)
            &&& m2.lookup == m1.lookup
            &&& m2.next_line == m1.next_line
            &&& m2.frame == m.frame
            &&& m2.entries[key].entity == m1.entries[key].entity
            &&& m2.entries[key].line == m1.entries[key].line
            &&& m2.entries[key].message == msg2
            &&& m2.entries[key].last_frame == m.frame
        }),
{
}

/// Law: an ephemeral entry not refreshed for two or more consecutive
/// frames is removed by the next eviction pass, while its slot assignment
/// survives for the key.
pub proof fn lemma_stale_ephemeral_evicted(m: RegistryModel, key: Seq<char>)
    requires
        m.entries.dom().contains(key),
        !m.entries[key].persistent,
        m.entries[key].last_frame as int + 1 < next_frame(m.frame) as int,
    ensures
        !cleanup_model(m).entries.dom().contains(key),
        cleanup_model(m).lookup == m.lookup,
{
}

/// Law: a persistent entry is never auto-evicted, whatever its refresh
/// gap; eviction leaves it untouched.
pub proof fn lemma_persistent_never_evicted(m: RegistryModel, key: Seq<char>)
    requires
        m.entries.dom().contains(key),
        m.entries[key].persistent,
    ensures
        cleanup_model(m).entries.dom().contains(key),
        cleanup_model(m).entries[key] == m.entries[key],
{
}

/// Law: in a well-formed registry, distinct keys never share a slot.
pub proof fn lemma_slots_unique(m: RegistryModel, k1: Seq<char>, k2: Seq<char>)
    requires
        model_wf(m),
        m.lookup.dom().contains(k1),
        m.lookup.dom().contains(k2),
        k1 != k2,
    ensures
        m.lookup[k1] != m.lookup[k2],
{
}

/// Law: a write preserves well-formedness, so slots stay unique under any
/// sequence of writes.
pub proof fn lemma_write_preserves_wf(
    m: RegistryModel,
    key: Seq<char>,
    message: Seq<char>,
    persistent: bool,
    new_entity: u64,
)
    requires
        model_wf(m),
    ensures
        model_wf(write_model(m, key, message, persistent, new_entity)),
{
}

/// Law: eviction preserves well-formedness and never shrinks the slot
/// table, so a slot freed by evicting its key's entry is still never
/// reassigned to another key.
pub proof fn lemma_cleanup_preserves_wf(m: RegistryModel)
    requires
        model_wf(m),
    ensures
        model_wf(cleanup_model(m)),
        cleanup_model(m).lookup == m.lookup,
        cleanup_model(m).next_line == m.next_line,
{
}

} // verus!
