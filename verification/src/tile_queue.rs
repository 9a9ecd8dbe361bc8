//! The viewer's tile loading queue: which tiles are wanted around the camera, which are
//! waiting for a download or a scene load, and which are shown. The viewer performs what the
//! queue decides (downloads, scene spawns, despawns) and reports back what happened.
use vstd::prelude::*;

use crate::map_tiles::TileKey;

verus! {

/// Where a tile stands on its way from the tile server to the screen.
#[derive(Clone, Copy, Debug, PartialEq, Eq, Structural)]
pub enum TileLoadState {
    Unrequested,
    Queued,
    Downloading,
    Cached,
    SceneQueued,
    LoadingScene,
    Loaded,
    Failed,
}

/// The most tile downloads running at once.
pub const MAX_CONCURRENT_TILE_DOWNLOADS: usize = 16;

/// The most tile scenes loading at once.
pub const MAX_CONCURRENT_TILE_SCENE_LOADS: usize = 4;

/// Some entry of `s` is for `k`.
pub open spec fn has_key<V>(s: Seq<(TileKey, V)>, k: TileKey) -> bool {
    exists|i: int| 0 <= i < s.len() && #[trigger] s[i].0 == k
}

/// The value recorded for `k` in a list of entries, where there is one.
pub open spec fn lookup<V>(s: Seq<(TileKey, V)>, k: TileKey) -> Option<V> {
    if has_key(s, k) {
        Some(s[choose|i: int| 0 <= i < s.len() && #[trigger] s[i].0 == k].1)
    } else {
        None
    }
}

/// No two entries are for the same tile.
pub open spec fn keys_distinct<V>(s: Seq<(TileKey, V)>) -> bool {
    forall|i: int, j: int| 0 <= i < s.len() && 0 <= j < s.len() && #[trigger] s[i].0 == #[trigger] s[j].0 ==> i == j
}

proof fn lemma_lookup_at<V>(s: Seq<(TileKey, V)>, i: int)
    requires
        keys_distinct(s),
        0 <= i < s.len(),
    ensures
        lookup(s, s[i].0) == Some(s[i].1),
{
    assert(has_key(s, s[i].0));
}

proof fn lemma_lookup_absent<V>(s: Seq<(TileKey, V)>, k: TileKey)
    requires
        forall|i: int| 0 <= i < s.len() ==> s[i].0 != k,
    ensures
        lookup(s, k) is None,
{
}

proof fn lemma_lookup_update<V>(s: Seq<(TileKey, V)>, i: int, v: V)
    requires
        keys_distinct(s),
        0 <= i < s.len(),
    ensures
        keys_distinct(s.update(i, (s[i].0, v))),
        forall|k: TileKey|
            #[trigger] lookup(s.update(i, (s[i].0, v)), k) == if k == s[i].0 {
                Some(v)
            } else {
                lookup(s, k)
            },
{
    let t = s.update(i, (s[i].0, v));
    assert forall|a: int, b: int| 0 <= a < t.len() && 0 <= b < t.len() && #[trigger] t[a].0 == #[trigger] t[b].0 implies a == b by {
        assert(t[a].0 == s[a].0);
        assert(t[b].0 == s[b].0);
    }
    assert forall|k: TileKey| #[trigger] lookup(t, k) == if k == s[i].0 { Some(v) } else { lookup(s, k) } by {
        if k == s[i].0 {
            lemma_lookup_at(t, i);
        } else if has_key(s, k) {
            let j = choose|j: int| 0 <= j < s.len() && #[trigger] s[j].0 == k;
            lemma_lookup_at(s, j);
            assert(t[j] == s[j]);
            lemma_lookup_at(t, j);
        } else {
            assert forall|j: int| 0 <= j < t.len() implies t[j].0 != k by {
                if j != i {
                    assert(t[j] == s[j]);
                }
            }
            lemma_lookup_absent(t, k);
        }
    }
}

proof fn lemma_lookup_push<V>(s: Seq<(TileKey, V)>, k0: TileKey, v: V)
    requires
        keys_distinct(s),
        !has_key(s, k0),
    ensures
        keys_distinct(s.push((k0, v))),
        forall|k: TileKey| #[trigger] lookup(s.push((k0, v)), k) == if k == k0 { Some(v) } else { lookup(s, k) },
{
    let t = s.push((k0, v));
    assert forall|a: int, b: int| 0 <= a < t.len() && 0 <= b < t.len() && #[trigger] t[a].0 == #[trigger] t[b].0 implies a == b by {
        if a < s.len() {
            assert(t[a] == s[a]);
        }
        if b < s.len() {
            assert(t[b] == s[b]);
        }
    }
    assert forall|k: TileKey| #[trigger] lookup(t, k) == if k == k0 { Some(v) } else { lookup(s, k) } by {
        if k == k0 {
            lemma_lookup_at(t, s.len() as int);
        } else if has_key(s, k) {
            let j = choose|j: int| 0 <= j < s.len() && #[trigger] s[j].0 == k;
            lemma_lookup_at(s, j);
            assert(t[j] == s[j]);
            lemma_lookup_at(t, j);
        } else {
            assert forall|j: int| 0 <= j < t.len() implies t[j].0 != k by {
                if j < s.len() {
                    assert(t[j] == s[j]);
                }
            }
            lemma_lookup_absent(t, k);
        }
    }
}

proof fn lemma_lookup_remove<V>(s: Seq<(TileKey, V)>, i: int)
    requires
        keys_distinct(s),
        0 <= i < s.len(),
    ensures
        keys_distinct(s.remove(i)),
        forall|k: TileKey| #[trigger] lookup(s.remove(i), k) == if k == s[i].0 { None } else { lookup(s, k) },
{
    let t = s.remove(i);
    assert forall|a: int, b: int| 0 <= a < t.len() && 0 <= b < t.len() && #[trigger] t[a].0 == #[trigger] t[b].0 implies a == b by {
        let a2 = if a < i { a } else { a + 1 };
        let b2 = if b < i { b } else { b + 1 };
        assert(t[a] == s[a2]);
        assert(t[b] == s[b2]);
    }
    assert forall|k: TileKey| #[trigger] lookup(t, k) == if k == s[i].0 { None } else { lookup(s, k) } by {
        if k == s[i].0 {
            assert forall|j: int| 0 <= j < t.len() implies t[j].0 != k by {
                let j2 = if j < i { j } else { j + 1 };
                assert(t[j] == s[j2]);
            }
            lemma_lookup_absent(t, k);
        } else if has_key(s, k) {
            let j = choose|j: int| 0 <= j < s.len() && #[trigger] s[j].0 == k;
            lemma_lookup_at(s, j);
            let j1 = if j < i { j } else { j - 1 };
            assert(t[j1] == s[j]);
            lemma_lookup_at(t, j1);
        } else {
            assert forall|j: int| 0 <= j < t.len() implies t[j].0 != k by {
                let j2 = if j < i { j } else { j + 1 };
                assert(t[j] == s[j2]);
            }
            lemma_lookup_absent(t, k);
        }
    }
}

/// The entries of `s` whose tile passes `keep`.
pub open spec fn entries_where<V>(s: Seq<(TileKey, V)>, keep: spec_fn(TileKey) -> bool) -> Seq<(TileKey, V)> {
    s.filter(|e: (TileKey, V)| keep(e.0))
}

proof fn lemma_has_key_lookup<V>(s: Seq<(TileKey, V)>, k: TileKey)
    ensures
        has_key(s, k) <==> lookup(s, k) is Some,
{
}

proof fn lemma_lookup_entries_where<V>(s: Seq<(TileKey, V)>, keep: spec_fn(TileKey) -> bool)
    requires
        keys_distinct(s),
    ensures
        keys_distinct(entries_where(s, keep)),
        forall|k: TileKey| #[trigger] lookup(entries_where(s, keep), k) == if keep(k) { lookup(s, k) } else { None },
    decreases s.len(),
{
    reveal(Seq::filter);
    let f = entries_where(s, keep);
    if s.len() == 0 {
        assert(f.len() == 0);
        assert forall|k: TileKey| #[trigger] lookup(f, k) == if keep(k) { lookup(s, k) } else { None } by {
            lemma_lookup_absent(f, k);
            lemma_lookup_absent(s, k);
        }
    } else {
        let p = s.drop_last();
        let x = s.last();
        assert(s =~= p.push(x));
        assert forall|a: int, b: int| 0 <= a < p.len() && 0 <= b < p.len() && #[trigger] p[a].0 == #[trigger] p[b].0 implies a == b by {
            assert(p[a] == s[a]);
            assert(p[b] == s[b]);
        }
        lemma_lookup_entries_where(p, keep);
        let fp = entries_where(p, keep);
        assert(!has_key(p, x.0)) by {
            if has_key(p, x.0) {
                let j = choose|j: int| 0 <= j < p.len() && #[trigger] p[j].0 == x.0;
                assert(s[j].0 == s[s.len() - 1].0);
            }
        }
        lemma_lookup_push(p, x.0, x.1);
        if keep(x.0) {
            assert(f == fp.push(x));
            lemma_has_key_lookup(fp, x.0);
            lemma_has_key_lookup(p, x.0);
            lemma_lookup_push(fp, x.0, x.1);
        } else {
            assert(f == fp);
        }
    }
}

/// Where a wanted tile moves when the wanted tiles are renewed: an unrequested tile joins
/// the download line, a cached or loaded tile that is not shown joins the ready line, and
/// any other tile stays where it stands.
pub open spec fn admitted(state: TileLoadState, shown: bool) -> TileLoadState {
    match state {
        TileLoadState::Unrequested => TileLoadState::Queued,
        TileLoadState::Cached => if shown { state } else { TileLoadState::SceneQueued },
        TileLoadState::Loaded => if shown { state } else { TileLoadState::SceneQueued },
        _ => state,
    }
}

/// `a - b`, or 0 where `b` is larger.
pub open spec fn saturating_minus(a: nat, b: nat) -> nat {
    if a >= b { (a - b) as nat } else { 0 }
}

/// Finds the entry for `key`.
fn position<V>(entries: &Vec<(TileKey, V)>, key: TileKey) -> (r: Option<usize>)
    ensures
        match r {
            Some(i) => i < entries@.len() && entries@[i as int].0 == key,
            None => !has_key(entries@, key),
        },
{
    let mut i: usize = 0;
    while i < entries.len()
        invariant
            i <= entries@.len(),
            forall|j: int| 0 <= j < i ==> entries@[j].0 != key,
        decreases entries.len() - i,
    {
        if entries[i].0 == key {
            return Some(i);
        }
        i = i + 1;
    }
    None
}

/// Whether `keys` holds `key`.
fn holds(keys: &Vec<TileKey>, key: TileKey) -> (b: bool)
    ensures
        b == keys@.contains(key),
{
    let mut i: usize = 0;
    while i < keys.len()
        invariant
            i <= keys@.len(),
            forall|j: int| 0 <= j < i ==> keys@[j] != key,
        decreases keys.len() - i,
    {
        if keys[i] == key {
            return true;
        }
        i = i + 1;
    }
    false
}

/// Finds `key` in `keys`.
fn index_of(keys: &Vec<TileKey>, key: TileKey) -> (r: Option<usize>)
    ensures
        match r {
            Some(i) => i < keys@.len() && keys@[i as int] == key,
            None => !keys@.contains(key),
        },
{
    let mut i: usize = 0;
    while i < keys.len()
        invariant
            i <= keys@.len(),
            forall|j: int| 0 <= j < i ==> keys@[j] != key,
        decreases keys.len() - i,
    {
        if keys[i] == key {
            return Some(i);
        }
        i = i + 1;
    }
    None
}

/// The number of tiles at the front of `line` that `wanted` turns down.
pub open spec fn leading_unwanted(line: Seq<TileKey>, wanted: spec_fn(TileKey) -> bool) -> nat
    decreases line.len(),
{
    if line.len() == 0 || wanted(line[0]) {
        0
    } else {
        1 + leading_unwanted(line.drop_first(), wanted)
    }
}

proof fn lemma_leading_unwanted(line: Seq<TileKey>, wanted: spec_fn(TileKey) -> bool, i: int)
    requires
        0 <= i <= line.len(),
        forall|j: int| 0 <= j < i ==> !wanted(#[trigger] line[j]),
    ensures
        leading_unwanted(line, wanted) == i + leading_unwanted(line.skip(i), wanted),
        leading_unwanted(line, wanted) <= line.len(),
    decreases i,
{
    lemma_leading_unwanted_bound(line, wanted);
    if i == 0 {
        assert(line.skip(0) =~= line);
    } else {
        assert(!wanted(line[0]));
        let rest = line.drop_first();
        assert forall|j: int| 0 <= j < i - 1 implies !wanted(#[trigger] rest[j]) by {
            assert(rest[j] == line[j + 1]);
        }
        lemma_leading_unwanted(rest, wanted, i - 1);
        assert(rest.skip(i - 1) =~= line.skip(i));
    }
}

proof fn lemma_leading_unwanted_bound(line: Seq<TileKey>, wanted: spec_fn(TileKey) -> bool)
    ensures
        leading_unwanted(line, wanted) <= line.len(),
    decreases line.len(),
{
    if line.len() > 0 {
        lemma_leading_unwanted_bound(line.drop_first(), wanted);
    }
}

/// The tile loading queue. The viewer keeps one, performs what it decides and reports back.
pub struct TileLoadQueue {
    states: Vec<(TileKey, TileLoadState)>,
    desired: Vec<TileKey>,
    active_roots: Vec<(TileKey, u64)>,
    pending_downloads: std::collections::VecDeque<TileKey>,
    ready: std::collections::VecDeque<TileKey>,
    inflight_downloads: Vec<TileKey>,
    inflight_scene_loads: usize,
}

impl TileLoadQueue {
    /// Where `k` stands; a tile never seen is unrequested.
    pub closed spec fn state(&self, k: TileKey) -> TileLoadState {
        match lookup(self.states@, k) {
            Some(s) => s,
            None => TileLoadState::Unrequested,
        }
    }

    /// The scene root shown for `k`, where one is.
    pub closed spec fn root(&self, k: TileKey) -> Option<u64> {
        lookup(self.active_roots@, k)
    }

    /// Whether `k` is among the tiles around the camera.
    pub closed spec fn wants(&self, k: TileKey) -> bool {
        self.desired@.contains(k)
    }

    /// The tiles waiting for a download, first in line first.
    pub closed spec fn pending(&self) -> Seq<TileKey> {
        self.pending_downloads@
    }

    /// The tiles waiting for a scene load, first in line first.
    pub closed spec fn ready_tiles(&self) -> Seq<TileKey> {
        self.ready@
    }

    /// The tiles being downloaded.
    pub closed spec fn downloads(&self) -> Seq<TileKey> {
        self.inflight_downloads@
    }

    /// The number of scene loads running.
    pub closed spec fn scene_loads(&self) -> nat {
        self.inflight_scene_loads as nat
    }

    /// The test a tile at the front of the download line must pass to be downloaded.
    pub closed spec fn download_wanted(&self) -> spec_fn(TileKey) -> bool {
        |k: TileKey| self.wants(k)
    }

    /// The test a tile at the front of the ready line must pass to have its scene loaded:
    /// it is wanted and not shown yet.
    pub closed spec fn scene_wanted(&self) -> spec_fn(TileKey) -> bool {
        |k: TileKey| self.wants(k) && self.root(k) is None
    }

    /// The queue's records are consistent: one record per tile, one root per tile, each
    /// running download listed once, and the limits on running work kept.
    pub closed spec fn wf(&self) -> bool {
        &&& keys_distinct(self.states@)
        &&& keys_distinct(self.active_roots@)
        &&& self.inflight_downloads@.no_duplicates()
        &&& self.inflight_downloads@.len() <= MAX_CONCURRENT_TILE_DOWNLOADS
        &&& self.inflight_scene_loads <= MAX_CONCURRENT_TILE_SCENE_LOADS
    }

    /// An empty queue: nothing wanted, nothing loading, nothing shown.
    pub fn new() -> (q: TileLoadQueue)
        ensures
            q.wf(),
            forall|k: TileKey| #[trigger] q.state(k) == TileLoadState::Unrequested,
            forall|k: TileKey| #[trigger] q.root(k) is None,
            forall|k: TileKey| !#[trigger] q.wants(k),
            q.pending() == Seq::<TileKey>::empty(),
            q.ready_tiles() == Seq::<TileKey>::empty(),
            q.downloads() == Seq::<TileKey>::empty(),
            q.scene_loads() == 0,
    {
        TileLoadQueue {
            states: Vec::new(),
            desired: Vec::new(),
            active_roots: Vec::new(),
            pending_downloads: std::collections::VecDeque::new(),
            ready: std::collections::VecDeque::new(),
            inflight_downloads: Vec::new(),
            inflight_scene_loads: 0,
        }
    }

    fn state_of(&self, key: TileKey) -> (s: TileLoadState)
        requires
            self.wf(),
        ensures
            s == self.state(key),
    {
        match position(&self.states, key) {
            Some(i) => {
                proof {
                    lemma_lookup_at(self.states@, i as int);
                }
                self.states[i].1
            },
            None => TileLoadState::Unrequested,
        }
    }

    fn has_root(&self, key: TileKey) -> (b: bool)
        requires
            self.wf(),
        ensures
            b == self.root(key) is Some,
    {
        match position(&self.active_roots, key) {
            Some(i) => {
                proof {
                    lemma_lookup_at(self.active_roots@, i as int);
                }
                true
            },
            None => false,
        }
    }

    fn set_state(&mut self, key: TileKey, state: TileLoadState)
        requires
            old(self).wf(),
        ensures
            final(self).wf(),
            forall|k: TileKey| #[trigger] final(self).state(k) == if k == key { state } else { old(self).state(k) },
            forall|k: TileKey| #[trigger] final(self).root(k) == old(self).root(k),
            final(self).active_roots == old(self).active_roots,
            final(self).desired == old(self).desired,
            final(self).pending_downloads == old(self).pending_downloads,
            final(self).ready == old(self).ready,
            final(self).inflight_downloads == old(self).inflight_downloads,
            final(self).inflight_scene_loads == old(self).inflight_scene_loads,
    {
        match position(&self.states, key) {
            Some(i) => {
                proof {
                    lemma_lookup_update(self.states@, i as int, state);
                }
                self.states.set(i, (key, state));
            },
            None => {
                proof {
                    lemma_lookup_push(self.states@, key, state);
                }
                self.states.push((key, state));
            },
        }
    }

    fn remove_root(&mut self, key: TileKey)
        requires
            old(self).wf(),
        ensures
            final(self).wf(),
            forall|k: TileKey| #[trigger] final(self).root(k) == if k == key { None } else { old(self).root(k) },
            forall|k: TileKey| #[trigger] final(self).state(k) == old(self).state(k),
            final(self).states == old(self).states,
            final(self).desired == old(self).desired,
            final(self).pending_downloads == old(self).pending_downloads,
            final(self).ready == old(self).ready,
            final(self).inflight_downloads == old(self).inflight_downloads,
            final(self).inflight_scene_loads == old(self).inflight_scene_loads,
    {
        match position(&self.active_roots, key) {
            Some(i) => {
                proof {
                    lemma_lookup_remove(self.active_roots@, i as int);
                }
                self.active_roots.remove(i);
            },
            None => {
                proof {
                    assert forall|k: TileKey| #[trigger] lookup(self.active_roots@, k) == if k == key { None } else { lookup(self.active_roots@, k) } by {
                        if k == key {
                            lemma_lookup_absent(self.active_roots@, k);
                        }
                    }
                }
            },
        }
    }

    /// Whether another download may start.
    pub fn can_start_download(&self) -> (b: bool)
        ensures
            b == (self.downloads().len() < MAX_CONCURRENT_TILE_DOWNLOADS),
    {
        self.inflight_downloads.len() < MAX_CONCURRENT_TILE_DOWNLOADS
    }

    /// Records that a tile taken for download was found in the local cache: it waits for
    /// a scene load.
    pub fn download_found_in_cache(&mut self, key: TileKey)
        requires
            old(self).wf(),
        ensures
            final(self).wf(),
            forall|k: TileKey| #[trigger] final(self).state(k) == if k == key { TileLoadState::Cached } else { old(self).state(k) },
            final(self).ready_tiles() == old(self).ready_tiles().push(key),
            forall|k: TileKey| #[trigger] final(self).root(k) == old(self).root(k),
            forall|k: TileKey| #[trigger] final(self).wants(k) == old(self).wants(k),
            final(self).pending() == old(self).pending(),
            final(self).downloads() == old(self).downloads(),
            final(self).scene_loads() == old(self).scene_loads(),
    {
        self.ready.push_back(key);
        self.set_state(key, TileLoadState::Cached);
    }

    /// Records that the download of a tile started.
    pub fn download_started(&mut self, key: TileKey)
        requires
            old(self).wf(),
            old(self).downloads().len() < MAX_CONCURRENT_TILE_DOWNLOADS,
        ensures
            final(self).wf(),
            forall|k: TileKey| #[trigger] final(self).state(k) == if k == key { TileLoadState::Downloading } else { old(self).state(k) },
            final(self).downloads() == if old(self).downloads().contains(key) {
                old(self).downloads()
            } else {
                old(self).downloads().push(key)
            },
            forall|k: TileKey| #[trigger] final(self).root(k) == old(self).root(k),
            forall|k: TileKey| #[trigger] final(self).wants(k) == old(self).wants(k),
            final(self).pending() == old(self).pending(),
            final(self).ready_tiles() == old(self).ready_tiles(),
            final(self).scene_loads() == old(self).scene_loads(),
    {
        if !holds(&self.inflight_downloads, key) {
            self.inflight_downloads.push(key);
            proof {
                assert forall|a: int, b: int| 0 <= a < b < self.inflight_downloads@.len() implies self.inflight_downloads@[a] != self.inflight_downloads@[b] by {
                    if b == self.inflight_downloads@.len() - 1 {
                        assert(old(self).inflight_downloads@.contains(old(self).inflight_downloads@[a]));
                    }
                }
            }
        }
        self.set_state(key, TileLoadState::Downloading);
    }

    /// Records that the download of a tile ended: on success the tile waits for a scene
    /// load, on failure it is marked failed and not tried again.
    pub fn finish_download(&mut self, key: TileKey, succeeded: bool)
        requires
            old(self).wf(),
        ensures
            final(self).wf(),
            forall|k: TileKey| #[trigger] final(self).state(k) == if k == key {
                if succeeded { TileLoadState::Cached } else { TileLoadState::Failed }
            } else {
                old(self).state(k)
            },
            final(self).ready_tiles() == if succeeded {
                old(self).ready_tiles().push(key)
            } else {
                old(self).ready_tiles()
            },
            !final(self).downloads().contains(key),
            forall|k: TileKey| k != key ==> (#[trigger] final(self).downloads().contains(k) == old(self).downloads().contains(k)),
            forall|k: TileKey| #[trigger] final(self).root(k) == old(self).root(k),
            forall|k: TileKey| #[trigger] final(self).wants(k) == old(self).wants(k),
            final(self).pending() == old(self).pending(),
            final(self).scene_loads() == old(self).scene_loads(),
    {
        match index_of(&self.inflight_downloads, key) {
            Some(i) => {
            let ghost before = self.inflight_downloads@;
            self.inflight_downloads.remove(i);
            proof {
                assert forall|k: TileKey| k != key implies (self.inflight_downloads@.contains(k) == before.contains(k)) by {
                    if before.contains(k) {
                        let j = choose|j: int| 0 <= j < before.len() && before[j] == k;
                        assert(before[i as int] == key);
                        assert(j != i);
                        let j1 = if j < i { j } else { j - 1 };
                        assert(self.inflight_downloads@[j1] == k);
                    }
                }
                assert(!self.inflight_downloads@.contains(key)) by {
                    if self.inflight_downloads@.contains(key) {
                        let j = choose|j: int| 0 <= j < self.inflight_downloads@.len() && self.inflight_downloads@[j] == key;
                        let j2 = if j < i { j } else { j + 1 };
                        assert(before[j2] == key);
                        assert(before[i as int] == key);
                    }
                }
                assert forall|a: int, b: int| 0 <= a < b < self.inflight_downloads@.len() implies self.inflight_downloads@[a] != self.inflight_downloads@[b] by {
                    let a2 = if a < i { a } else { a + 1 };
                    let b2 = if b < i { b } else { b + 1 };
                    assert(self.inflight_downloads@[a] == before[a2]);
                    assert(self.inflight_downloads@[b] == before[b2]);
                }
            }
            },
            None => {},
        }
        if succeeded {
            self.ready.push_back(key);
            self.set_state(key, TileLoadState::Cached);
        } else {
            self.set_state(key, TileLoadState::Failed);
        }
    }

    /// Records the scene root spawned for a tile.
    pub fn record_scene_root(&mut self, key: TileKey, root: u64)
        requires
            old(self).wf(),
        ensures
            final(self).wf(),
            forall|k: TileKey| #[trigger] final(self).root(k) == if k == key { Some(root) } else { old(self).root(k) },
            forall|k: TileKey| #[trigger] final(self).state(k) == old(self).state(k),
            forall|k: TileKey| #[trigger] final(self).wants(k) == old(self).wants(k),
            final(self).pending() == old(self).pending(),
            final(self).ready_tiles() == old(self).ready_tiles(),
            final(self).downloads() == old(self).downloads(),
            final(self).scene_loads() == old(self).scene_loads(),
    {
        match position(&self.active_roots, key) {
            Some(i) => {
                proof {
                    lemma_lookup_update(self.active_roots@, i as int, root);
                }
                self.active_roots.set(i, (key, root));
            },
            None => {
                proof {
                    lemma_lookup_push(self.active_roots@, key, root);
                }
                self.active_roots.push((key, root));
            },
        }
    }

    /// Records that the scene of a tile finished loading. A tile still wanted is shown; one
    /// no longer wanted is put back to cached and its root dropped, and the result says
    /// that the viewer must despawn that root.
    pub fn scene_ready(&mut self, key: TileKey) -> (despawn: bool)
        requires
            old(self).wf(),
        ensures
            final(self).wf(),
            despawn == !old(self).wants(key),
            final(self).scene_loads() == if old(self).scene_loads() > 0 { old(self).scene_loads() - 1 } else { 0 },
            forall|k: TileKey| #[trigger] final(self).state(k) == if k == key {
                if despawn { TileLoadState::Cached } else { TileLoadState::Loaded }
            } else {
                old(self).state(k)
            },
            forall|k: TileKey| #[trigger] final(self).root(k) == if k == key && despawn { None } else { old(self).root(k) },
            forall|k: TileKey| #[trigger] final(self).wants(k) == old(self).wants(k),
            final(self).pending() == old(self).pending(),
            final(self).ready_tiles() == old(self).ready_tiles(),
            final(self).downloads() == old(self).downloads(),
    {
        if self.inflight_scene_loads > 0 {
            self.inflight_scene_loads = self.inflight_scene_loads - 1;
        }
        if holds(&self.desired, key) {
            self.set_state(key, TileLoadState::Loaded);
            false
        } else {
            self.remove_root(key);
            self.set_state(key, TileLoadState::Cached);
            true
        }
    }

    /// Takes the next tile to download off the download line. Tiles at the front that are
    /// no longer wanted are dropped from the line and put back to unrequested; the first
    /// wanted tile is handed out, still queued, or nothing where the line runs out.
    pub fn pop_download_candidate(&mut self) -> (r: Option<TileKey>)
        requires
            old(self).wf(),
        ensures
            final(self).wf(),
            ({
                let line = old(self).pending();
                let n = leading_unwanted(line, old(self).download_wanted());
                &&& n <= line.len()
                &&& r == if n < line.len() { Some(line[n as int]) } else { None }
                &&& final(self).pending() == if n < line.len() { line.skip(n as int + 1) } else { Seq::<TileKey>::empty() }
                &&& forall|k: TileKey| #[trigger] final(self).state(k) == if line.take(n as int).contains(k) {
                    TileLoadState::Unrequested
                } else {
                    old(self).state(k)
                }
            }),
            forall|k: TileKey| #[trigger] final(self).root(k) == old(self).root(k),
            forall|k: TileKey| #[trigger] final(self).wants(k) == old(self).wants(k),
            final(self).ready_tiles() == old(self).ready_tiles(),
            final(self).downloads() == old(self).downloads(),
            final(self).scene_loads() == old(self).scene_loads(),
    {
        let ghost line = self.pending_downloads@;
        let ghost wanted = old(self).download_wanted();
        let ghost mut i: int = 0;
        loop
            invariant
                self.wf(),
                0 <= i <= line.len(),
                line == old(self).pending_downloads@,
                wanted == old(self).download_wanted(),
                self.pending_downloads@ == line.skip(i),
                forall|j: int| 0 <= j < i ==> !wanted(#[trigger] line[j]),
                forall|k: TileKey| #[trigger] self.state(k) == if line.take(i).contains(k) {
                    TileLoadState::Unrequested
                } else {
                    old(self).state(k)
                },
                self.desired == old(self).desired,
                self.active_roots == old(self).active_roots,
                self.ready == old(self).ready,
                self.inflight_downloads == old(self).inflight_downloads,
                self.inflight_scene_loads == old(self).inflight_scene_loads,
            decreases line.len() - i,
        {
            let ghost before = *self;
            let popped = self.pending_downloads.pop_front();
            proof {
                assert forall|k: TileKey| #[trigger] self.state(k) == before.state(k) by {}
                assert forall|k: TileKey| #[trigger] self.root(k) == before.root(k) by {}
            }
            match popped {
                None => {
                    proof {
                        lemma_leading_unwanted(line, wanted, i);
                        assert(i == line.len());
                        assert(self.pending_downloads@ =~= Seq::<TileKey>::empty());
                    }
                    return None;
                },
                Some(key) => {
                    if holds(&self.desired, key) {
                        proof {
                            lemma_leading_unwanted(line, wanted, i);
                            assert(line.skip(i)[0] == key);
                            assert(self.pending_downloads@ =~= line.skip(i + 1));
                        }
                        return Some(key);
                    }
                    self.set_state(key, TileLoadState::Unrequested);
                    proof {
                        assert(line[i] == key);
                        assert(self.pending_downloads@ =~= line.skip(i + 1));
                        let t1 = line.take(i + 1);
                        let t0 = line.take(i);
                        assert forall|k: TileKey| #[trigger] t1.contains(k) == (t0.contains(k) || k == key) by {
                            if t1.contains(k) {
                                let j = choose|j: int| 0 <= j < t1.len() && #[trigger] t1[j] == k;
                                if j < i {
                                    assert(t0[j] == k);
                                }
                            }
                            if t0.contains(k) {
                                let j = choose|j: int| 0 <= j < t0.len() && #[trigger] t0[j] == k;
                                assert(t1[j] == k);
                            }
                            if k == key {
                                assert(t1[i] == k);
                            }
                        }
                        i = i + 1;
                    }
                },
            }
        }
    }

    /// Takes the next tile whose scene should load off the ready line, where fewer than the
    /// most scene loads are running. Tiles at the front that are no longer wanted or already
    /// shown are put back to cached; the first other tile is handed out, marked loading, and
    /// counted as a running scene load. The viewer spawns its scene and records the root.
    pub fn next_scene_load(&mut self) -> (r: Option<TileKey>)
        requires
            old(self).wf(),
        ensures
            final(self).wf(),
            old(self).scene_loads() >= MAX_CONCURRENT_TILE_SCENE_LOADS ==> {
                &&& r is None
                &&& final(self).ready_tiles() == old(self).ready_tiles()
                &&& final(self).scene_loads() == old(self).scene_loads()
                &&& forall|k: TileKey| #[trigger] final(self).state(k) == old(self).state(k)
            },
            old(self).scene_loads() < MAX_CONCURRENT_TILE_SCENE_LOADS ==> ({
                let line = old(self).ready_tiles();
                let n = leading_unwanted(line, old(self).scene_wanted());
                &&& n <= line.len()
                &&& r == if n < line.len() { Some(line[n as int]) } else { None }
                &&& final(self).ready_tiles() == if n < line.len() { line.skip(n as int + 1) } else { Seq::<TileKey>::empty() }
                &&& final(self).scene_loads() == old(self).scene_loads() + if n < line.len() { 1nat } else { 0nat }
                &&& forall|k: TileKey| #[trigger] final(self).state(k) == if n < line.len() && k == line[n as int] {
                    TileLoadState::LoadingScene
                } else if line.take(n as int).contains(k) {
                    TileLoadState::Cached
                } else {
                    old(self).state(k)
                }
            }),
            forall|k: TileKey| #[trigger] final(self).root(k) == old(self).root(k),
            forall|k: TileKey| #[trigger] final(self).wants(k) == old(self).wants(k),
            final(self).pending() == old(self).pending(),
            final(self).downloads() == old(self).downloads(),
    {
        if self.inflight_scene_loads >= MAX_CONCURRENT_TILE_SCENE_LOADS {
            return None;
        }
        let ghost line = self.ready@;
        let ghost wanted = old(self).scene_wanted();
        let ghost mut i: int = 0;
        loop
            invariant
                self.wf(),
                0 <= i <= line.len(),
                line == old(self).ready@,
                wanted == old(self).scene_wanted(),
                self.ready@ == line.skip(i),
                forall|j: int| 0 <= j < i ==> !wanted(#[trigger] line[j]),
                forall|k: TileKey| #[trigger] self.state(k) == if line.take(i).contains(k) {
                    TileLoadState::Cached
                } else {
                    old(self).state(k)
                },
                self.desired == old(self).desired,
                self.active_roots == old(self).active_roots,
                self.pending_downloads == old(self).pending_downloads,
                self.inflight_downloads == old(self).inflight_downloads,
                self.inflight_scene_loads == old(self).inflight_scene_loads,
                self.inflight_scene_loads < MAX_CONCURRENT_TILE_SCENE_LOADS,
            decreases line.len() - i,
        {
            let ghost before = *self;
            let popped = self.ready.pop_front();
            proof {
                assert forall|k: TileKey| #[trigger] self.state(k) == before.state(k) by {}
                assert forall|k: TileKey| #[trigger] self.root(k) == before.root(k) by {}
            }
            match popped {
                None => {
                    proof {
                        lemma_leading_unwanted(line, wanted, i);
                        assert(i == line.len());
                        assert(self.ready@ =~= Seq::<TileKey>::empty());
                    }
                    return None;
                },
                Some(key) => {
                    if holds(&self.desired, key) && !self.has_root(key) {
                        proof {
                            lemma_leading_unwanted(line, wanted, i);
                            assert(line.skip(i)[0] == key);
                            assert(self.ready@ =~= line.skip(i + 1));
                        }
                        self.set_state(key, TileLoadState::LoadingScene);
                        let ghost marked = *self;
                        self.inflight_scene_loads = self.inflight_scene_loads + 1;
                        proof {
                            assert forall|k: TileKey| #[trigger] self.state(k) == marked.state(k) by {}
                            assert forall|k: TileKey| #[trigger] self.root(k) == marked.root(k) by {}
                            assert(wanted(key));
                        }
                        return Some(key);
                    }
                    self.set_state(key, TileLoadState::Cached);
                    proof {
                        assert(line[i] == key);
                        assert(self.ready@ =~= line.skip(i + 1));
                        let t1 = line.take(i + 1);
                        let t0 = line.take(i);
                        assert forall|k: TileKey| #[trigger] t1.contains(k) == (t0.contains(k) || k == key) by {
                            if t1.contains(k) {
                                let j = choose|j: int| 0 <= j < t1.len() && #[trigger] t1[j] == k;
                                if j < i {
                                    assert(t0[j] == k);
                                }
                            }
                            if t0.contains(k) {
                                let j = choose|j: int| 0 <= j < t0.len() && #[trigger] t0[j] == k;
                                assert(t1[j] == k);
                            }
                            if k == key {
                                assert(t1[i] == k);
                            }
                        }
                        i = i + 1;
                    }
                },
            }
        }
    }

    /// Renews the tiles wanted around the camera. Shown tiles no longer wanted are dropped:
    /// they go back to cached, a scene load of theirs stops counting, and their roots are
    /// returned for the viewer to despawn. Then each wanted tile moves on as `admitted`
    /// says, unrequested ones joining the download line and cached or loaded ones that are
    /// not shown joining the ready line, in the order of `desired`.
    pub fn update_desired(&mut self, desired: Vec<TileKey>) -> (unloaded: Vec<(TileKey, u64)>)
        requires
            old(self).wf(),
            desired@.no_duplicates(),
        ensures
            final(self).wf(),
            keys_distinct(unloaded@),
            forall|k: TileKey| #[trigger] lookup(unloaded@, k) == if desired@.contains(k) {
                None
            } else {
                old(self).root(k)
            },
            forall|k: TileKey| #[trigger] final(self).wants(k) == desired@.contains(k),
            forall|k: TileKey| #[trigger] final(self).root(k) == if desired@.contains(k) {
                old(self).root(k)
            } else {
                None
            },
            forall|k: TileKey| #[trigger] final(self).state(k) == if desired@.contains(k) {
                admitted(old(self).state(k), old(self).root(k) is Some)
            } else if old(self).root(k) is Some {
                TileLoadState::Cached
            } else {
                old(self).state(k)
            },
            final(self).pending() == old(self).pending() + desired@.filter(
                |k: TileKey| old(self).state(k) == TileLoadState::Unrequested,
            ),
            final(self).ready_tiles() == old(self).ready_tiles() + desired@.filter(
                |k: TileKey|
                    old(self).root(k) is None && (old(self).state(k) == TileLoadState::Cached || old(
                        self,
                    ).state(k) == TileLoadState::Loaded),
            ),
            final(self).downloads() == old(self).downloads(),
            final(self).scene_loads() == saturating_minus(
                old(self).scene_loads(),
                unloaded@.filter(|e: (TileKey, u64)| old(self).state(e.0) == TileLoadState::LoadingScene).len(),
            ),
            forall|k: TileKey| #[trigger] final(self).root(k) is Some ==> final(self).wants(k),
            forall|k: TileKey| final(self).wants(k) ==> #[trigger] final(self).state(k) != TileLoadState::Unrequested,
    {
        let ghost keep = |k: TileKey| desired@.contains(k);
        let ghost drop = |k: TileKey| !desired@.contains(k);
        let ghost loading = |e: (TileKey, u64)| old(self).state(e.0) == TileLoadState::LoadingScene;
        let mut old_roots: Vec<(TileKey, u64)> = Vec::new();
        std::mem::swap(&mut old_roots, &mut self.active_roots);
        let mut unloaded: Vec<(TileKey, u64)> = Vec::new();
        let mut i: usize = 0;
        proof {
            reveal(Seq::filter);
            assert(old_roots@.take(0) =~= Seq::<(TileKey, u64)>::empty());
            assert(entries_where(old_roots@.take(0), keep) =~= Seq::<(TileKey, u64)>::empty());
            assert(entries_where(old_roots@.take(0), drop) =~= Seq::<(TileKey, u64)>::empty());
            assert forall|k: TileKey| #[trigger] self.state(k) == old(self).state(k) by {}
        }
        while i < old_roots.len()
            invariant
                i <= old_roots@.len(),
                old_roots@ == old(self).active_roots@,
                keys_distinct(old_roots@),
                keep == |k: TileKey| desired@.contains(k),
                drop == |k: TileKey| !desired@.contains(k),
                loading == |e: (TileKey, u64)| old(self).state(e.0) == TileLoadState::LoadingScene,
                keys_distinct(self.states@),
                keys_distinct(self.active_roots@),
                keys_distinct(unloaded@),
                self.active_roots@ == entries_where(old_roots@.take(i as int), keep),
                unloaded@ == entries_where(old_roots@.take(i as int), drop),
                forall|k: TileKey| #[trigger] self.state(k) == if has_key(unloaded@, k) {
                    TileLoadState::Cached
                } else {
                    old(self).state(k)
                },
                self.inflight_scene_loads as nat == saturating_minus(
                    old(self).inflight_scene_loads as nat,
                    unloaded@.filter(loading).len(),
                ),
                self.desired == old(self).desired,
                self.pending_downloads == old(self).pending_downloads,
                self.ready == old(self).ready,
                self.inflight_downloads == old(self).inflight_downloads,
                old(self).wf(),
            decreases old_roots.len() - i,
        {
            let entry = old_roots[i];
            let key = entry.0;
            let ghost s0 = *self;
            let ghost prefix = old_roots@.take(i as int);
            let ghost next = old_roots@.take(i + 1);
            proof {
                reveal(Seq::filter);
                assert(next.drop_last() =~= prefix);
                assert(next.last() == entry);
                lemma_lookup_entries_where(prefix, keep);
                lemma_lookup_entries_where(prefix, drop);
                // `key` appears in no earlier entry.
                assert(!has_key(prefix, key)) by {
                    if has_key(prefix, key) {
                        let j = choose|j: int| 0 <= j < prefix.len() && #[trigger] prefix[j].0 == key;
                        assert(old_roots@[j].0 == old_roots@[i as int].0);
                    }
                }
                lemma_has_key_lookup(prefix, key);
                lemma_has_key_lookup(unloaded@, key);
                lemma_has_key_lookup(self.active_roots@, key);
            }
            if holds(&desired, key) {
                proof {
                    lemma_lookup_push(self.active_roots@, key, entry.1);
                    assert(entries_where(next, keep) =~= entries_where(prefix, keep).push(entry));
                    assert(entries_where(next, drop) =~= entries_where(prefix, drop));
                }
                self.active_roots.push(entry);
                proof {
                    assert forall|k: TileKey| #[trigger] self.state(k) == s0.state(k) by {}
                }
            } else {
                let was_loading = self.state_of(key) == TileLoadState::LoadingScene;
                proof {
                    lemma_lookup_push(unloaded@, key, entry.1);
                    assert(entries_where(next, drop) =~= entries_where(prefix, drop).push(entry));
                    assert(entries_where(next, keep) =~= entries_where(prefix, keep));
                    assert(unloaded@.push(entry).drop_last() =~= unloaded@);
                    assert forall|k: TileKey| #[trigger] has_key(unloaded@.push(entry), k) == (has_key(unloaded@, k) || k == key) by {
                        lemma_has_key_lookup(unloaded@.push(entry), k);
                        lemma_has_key_lookup(unloaded@, k);
                    }
                }
                let ghost s0_unloaded = unloaded@;
                unloaded.push(entry);
                if was_loading && self.inflight_scene_loads > 0 {
                    self.inflight_scene_loads = self.inflight_scene_loads - 1;
                }
                let ghost mid = *self;
                self.set_state(key, TileLoadState::Cached);
                proof {
                    assert forall|k: TileKey| #[trigger] mid.state(k) == s0.state(k) by {}
                    assert(unloaded@.drop_last() =~= s0_unloaded);
                }
            }
            i = i + 1;
        }
        proof {
            assert(old_roots@.take(i as int) =~= old_roots@);
            lemma_lookup_entries_where(old_roots@, keep);
            lemma_lookup_entries_where(old_roots@, drop);
            assert forall|k: TileKey| #[trigger] has_key(unloaded@, k) == (old(self).root(k) is Some && !desired@.contains(k)) by {
                lemma_has_key_lookup(unloaded@, k);
            }
        }
        let ghost after_unload = *self;
        let mut j: usize = 0;
        while j < desired.len()
            invariant
                j <= desired@.len(),
                desired@.no_duplicates(),
                keys_distinct(self.states@),
                keys_distinct(self.active_roots@),
                self.active_roots == after_unload.active_roots,
                self.inflight_scene_loads == after_unload.inflight_scene_loads,
                self.desired == old(self).desired,
                self.inflight_downloads == old(self).inflight_downloads,
                forall|k: TileKey| #[trigger] self.root(k) == if desired@.contains(k) { old(self).root(k) } else { None },
                forall|k: TileKey| #[trigger] after_unload.state(k) == if desired@.contains(k) {
                    old(self).state(k)
                } else if old(self).root(k) is Some {
                    TileLoadState::Cached
                } else {
                    old(self).state(k)
                },
                forall|k: TileKey| #[trigger] self.state(k) == if desired@.take(j as int).contains(k) {
                    admitted(old(self).state(k), old(self).root(k) is Some)
                } else {
                    after_unload.state(k)
                },
                self.pending_downloads@ == old(self).pending_downloads@ + desired@.take(j as int).filter(
                    |k: TileKey| old(self).state(k) == TileLoadState::Unrequested,
                ),
                self.ready@ == old(self).ready@ + desired@.take(j as int).filter(
                    |k: TileKey|
                        old(self).root(k) is None && (old(self).state(k) == TileLoadState::Cached || old(
                            self,
                        ).state(k) == TileLoadState::Loaded),
                ),
                self.inflight_downloads@.no_duplicates(),
                self.inflight_downloads@.len() <= MAX_CONCURRENT_TILE_DOWNLOADS,
                self.inflight_scene_loads <= MAX_CONCURRENT_TILE_SCENE_LOADS,
            decreases desired.len() - j,
        {
            let key = desired[j];
            let ghost taken = desired@.take(j as int);
            let ghost next = desired@.take(j + 1);
            proof {
                reveal(Seq::filter);
                assert(next.drop_last() =~= taken);
                assert(next.last() == key);
                assert(!taken.contains(key)) by {
                    if taken.contains(key) {
                        let m = choose|m: int| 0 <= m < taken.len() && #[trigger] taken[m] == key;
                        assert(desired@[m] == desired@[j as int]);
                    }
                }
                assert(desired@.contains(key)) by {
                    assert(desired@[j as int] == key);
                }
                assert forall|k: TileKey| #[trigger] next.contains(k) == (taken.contains(k) || k == key) by {
                    if next.contains(k) {
                        let m = choose|m: int| 0 <= m < next.len() && #[trigger] next[m] == k;
                        if m < j {
                            assert(taken[m] == k);
                        }
                    }
                    if taken.contains(k) {
                        let m = choose|m: int| 0 <= m < taken.len() && #[trigger] taken[m] == k;
                        assert(next[m] == k);
                    }
                    if k == key {
                        assert(next[j as int] == k);
                    }
                }
            }
            let state = self.state_of(key);
            let shown = self.has_root(key);
            let ghost before = *self;
            match state {
                TileLoadState::Unrequested => {
                    self.pending_downloads.push_back(key);
                    let ghost mid = *self;
                    self.set_state(key, TileLoadState::Queued);
                    proof {
                        assert forall|k: TileKey| #[trigger] mid.state(k) == before.state(k) by {}
                        assert forall|k: TileKey| #[trigger] mid.root(k) == before.root(k) by {}
                    }
                },
                TileLoadState::Cached | TileLoadState::Loaded => {
                    if !shown {
                        self.ready.push_back(key);
                        let ghost mid = *self;
                        self.set_state(key, TileLoadState::SceneQueued);
                        proof {
                            assert forall|k: TileKey| #[trigger] mid.state(k) == before.state(k) by {}
                            assert forall|k: TileKey| #[trigger] mid.root(k) == before.root(k) by {}
                        }
                    }
                },
                _ => {},
            }
            proof {
                assert(self.pending_downloads@ =~= old(self).pending_downloads@ + next.filter(
                    |k: TileKey| old(self).state(k) == TileLoadState::Unrequested,
                ));
                assert(self.ready@ =~= old(self).ready@ + next.filter(
                    |k: TileKey|
                        old(self).root(k) is None && (old(self).state(k) == TileLoadState::Cached || old(
                            self,
                        ).state(k) == TileLoadState::Loaded),
                ));
            }
            j = j + 1;
        }
        proof {
            assert(desired@.take(desired@.len() as int) =~= desired@);
        }
        let ghost renewed = *self;
        self.desired = desired;
        proof {
            assert forall|k: TileKey| #[trigger] self.state(k) == renewed.state(k) by {}
            assert forall|k: TileKey| #[trigger] self.root(k) == renewed.root(k) by {}
        }
        unloaded
    }
}

/// Law: a consistent queue, which every operation keeps consistent, never runs more
/// downloads or scene loads than its limits allow and lists each running download once.
pub proof fn law_work_within_limits(q: TileLoadQueue)
    requires
        q.wf(),
    ensures
        q.downloads().len() <= MAX_CONCURRENT_TILE_DOWNLOADS,
        q.downloads().no_duplicates(),
        q.scene_loads() <= MAX_CONCURRENT_TILE_SCENE_LOADS,
{
}

} // verus!
