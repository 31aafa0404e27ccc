//! The runtime module registry: the single owner of module execution state
//! (loading, loaded, errored) keyed by canonical module key, the module-id
//! index, the CommonJS `require.cache` view and the module GC roots.

use vstd::prelude::*;

use crate::path_key::{PathId, same_path, string_path_id};

verus! {

/// First module id handed out to runtime-compiled bundles; ids below it
/// belong to the precompiled bundle.
pub const RUNTIME_MODULE_ID_BASE: u32 = 0x4000_0000;

/// Canonical key of a runtime module.
#[derive(Clone, Debug, PartialEq, Eq, Hash)]
pub enum RuntimeModuleKey {
    File(String),
    Json(String),
    Builtin(String),
    /// Module id of the initial ahead-of-time bundle.
    PrecompiledModuleId(u32),
    /// Module id reserved for a runtime-compiled bundle.
    RuntimeModuleId(u32),
}

/// A key as the registry tells keys apart: file and JSON modules by the
/// components of their path.
pub enum KeyView {
    File(PathId),
    Json(PathId),
    Builtin(Seq<char>),
    PrecompiledModuleId(u32),
    RuntimeModuleId(u32),
}

impl View for RuntimeModuleKey {
    type V = KeyView;

    open spec fn view(&self) -> KeyView {
        match self {
            RuntimeModuleKey::File(p) => KeyView::File(string_path_id(p@)),
            RuntimeModuleKey::Json(p) => KeyView::Json(string_path_id(p@)),
            RuntimeModuleKey::Builtin(s) => KeyView::Builtin(s@),
            RuntimeModuleKey::PrecompiledModuleId(id) => KeyView::PrecompiledModuleId(*id),
            RuntimeModuleKey::RuntimeModuleId(id) => KeyView::RuntimeModuleId(*id),
        }
    }
}

pub open spec fn spec_can_delete_from_require_cache(k: KeyView) -> bool {
    k is File || k is Json
}

pub open spec fn spec_key_for_module_id(module_id: u32) -> KeyView {
    if module_id >= RUNTIME_MODULE_ID_BASE {
        KeyView::RuntimeModuleId(module_id)
    } else {
        KeyView::PrecompiledModuleId(module_id)
    }
}

/// The `require.cache` id of a key: the path of a file or JSON module, the
/// specifier of a builtin; module-id keys have none.
pub open spec fn spec_cache_id(k: RuntimeModuleKey) -> Option<Seq<char>> {
    match k {
        RuntimeModuleKey::File(p) => Some(p@),
        RuntimeModuleKey::Json(p) => Some(p@),
        RuntimeModuleKey::Builtin(s) => Some(s@),
        _ => None,
    }
}

fn string_eq(a: &String, b: &String) -> (r: bool)
    ensures
        r == (a@ == b@),
{
    a.eq(b)
}

fn copy_string(s: &String) -> (r: String)
    ensures
        r@ == s@,
{
    s.clone()
}

impl RuntimeModuleKey {
    pub fn can_delete_from_require_cache(&self) -> (r: bool)
        ensures
            r == spec_can_delete_from_require_cache(self@),
    {
        match self {
            RuntimeModuleKey::File(_) | RuntimeModuleKey::Json(_) => true,
            _ => false,
        }
    }

    pub fn from_registered_module_id(module_id: u32) -> (r: RuntimeModuleKey)
        ensures
            r@ == spec_key_for_module_id(module_id),
    {
        if module_id >= RUNTIME_MODULE_ID_BASE {
            RuntimeModuleKey::RuntimeModuleId(module_id)
        } else {
            RuntimeModuleKey::PrecompiledModuleId(module_id)
        }
    }

    /// Key equality as the registry compares keys.
    pub fn same_key(&self, other: &RuntimeModuleKey) -> (r: bool)
        ensures
            r == (self@ == other@),
    {
        match (self, other) {
            (RuntimeModuleKey::File(a), RuntimeModuleKey::File(b)) => same_path(a, b),
            (RuntimeModuleKey::Json(a), RuntimeModuleKey::Json(b)) => same_path(a, b),
            (RuntimeModuleKey::Builtin(a), RuntimeModuleKey::Builtin(b)) => string_eq(a, b),
            (RuntimeModuleKey::PrecompiledModuleId(a), RuntimeModuleKey::PrecompiledModuleId(b)) => *a == *b,
            (RuntimeModuleKey::RuntimeModuleId(a), RuntimeModuleKey::RuntimeModuleId(b)) => *a == *b,
            _ => false,
        }
    }

    /// A copy of the key.
    pub fn duplicate(&self) -> (r: RuntimeModuleKey)
        ensures
            r@ == self@,
    {
        match self {
            RuntimeModuleKey::File(p) => RuntimeModuleKey::File(copy_string(p)),
            RuntimeModuleKey::Json(p) => RuntimeModuleKey::Json(copy_string(p)),
            RuntimeModuleKey::Builtin(s) => RuntimeModuleKey::Builtin(copy_string(s)),
            RuntimeModuleKey::PrecompiledModuleId(id) => RuntimeModuleKey::PrecompiledModuleId(*id),
            RuntimeModuleKey::RuntimeModuleId(id) => RuntimeModuleKey::RuntimeModuleId(*id),
        }
    }
}

pub fn require_cache_id_for_key(key: &RuntimeModuleKey) -> (r: Option<String>)
    ensures
        match r {
            Some(id) => spec_cache_id(*key) == Some(id@),
            None => spec_cache_id(*key).is_none(),
        },
{
    match key {
        RuntimeModuleKey::File(path) | RuntimeModuleKey::Json(path) => Some(copy_string(path)),
        RuntimeModuleKey::Builtin(specifier) => Some(copy_string(specifier)),
        RuntimeModuleKey::PrecompiledModuleId(_) | RuntimeModuleKey::RuntimeModuleId(_) => None,
    }
}

pub fn require_cache_id_matches_key(cache_id: &str, key: &RuntimeModuleKey) -> (r: bool)
    ensures
        r == (spec_cache_id(*key) == Some(cache_id@)),
{
    match require_cache_id_for_key(key) {
        Some(id) => {
            let wanted = cache_id.to_owned();
            string_eq(&id, &wanted)
        },
        None => false,
    }
}

/// One record of `require.cache`.
#[derive(Clone, Debug, PartialEq, Eq)]
pub struct RuntimeRequireCacheEntry {
    pub id: String,
    pub module_object: i64,
}

impl View for RuntimeRequireCacheEntry {
    type V = (Seq<char>, i64);

    open spec fn view(&self) -> (Seq<char>, i64) {
        (self.id@, self.module_object)
    }
}

/// Execution state of one module.
#[derive(Clone, Copy, Debug, PartialEq, Eq, Structural)]
pub enum RuntimeModuleState {
    Loading { module_object: i64, exports_object: i64 },
    Loaded { module_object: i64, exports_object: i64, namespace_object: i64 },
    Errored { error_value: i64 },
}

/// What CommonJS `require()` gets from the registry.
#[derive(Clone, Copy, Debug, PartialEq, Eq, Structural)]
pub enum RuntimeModuleRequireResult {
    Missing,
    Exports(i64),
    LoadedModule { module_object: i64, exports_object: i64 },
    Errored(i64),
}

/// What `import` gets from the registry.
#[derive(Clone, Copy, Debug, PartialEq, Eq, Structural)]
pub enum RuntimeModuleImportResult {
    Missing,
    Namespace(i64),
    Errored(i64),
}

// ---------------------------------------------------------------------------
// Association lists

/// The value associated with `k`, the last one when there are several.
pub open spec fn lookup<K, V>(s: Seq<(K, V)>, k: K) -> Option<V>
    decreases s.len(),
{
    if s.len() == 0 {
        None
    } else if s.last().0 == k {
        Some(s.last().1)
    } else {
        lookup(s.drop_last(), k)
    }
}

pub open spec fn keys_unique<K, V>(s: Seq<(K, V)>) -> bool {
    forall|i: int, j: int| 0 <= i < j < s.len() ==> (#[trigger] s[i]).0 != (#[trigger] s[j]).0
}

pub proof fn lemma_lookup_index<K, V>(s: Seq<(K, V)>, k: K)
    requires
        keys_unique(s),
    ensures
        forall|i: int| 0 <= i < s.len() && (#[trigger] s[i]).0 == k ==> lookup(s, k) == Some(s[i].1),
        (forall|i: int| 0 <= i < s.len() ==> (#[trigger] s[i]).0 != k) ==> lookup(s, k).is_none(),
    decreases s.len(),
{
    if s.len() > 0 {
        let t = s.drop_last();
        assert(keys_unique(t)) by {
            assert forall|i: int, j: int| 0 <= i < j < t.len() implies (#[trigger] t[i]).0 != (#[trigger] t[j]).0 by {
                assert(t[i] == s[i] && t[j] == s[j]);
            }
        }
        lemma_lookup_index(t, k);
        assert forall|i: int| 0 <= i < s.len() && (#[trigger] s[i]).0 == k implies lookup(s, k) == Some(s[i].1) by {
            if i < s.len() - 1 {
                assert(t[i] == s[i]);
                assert(s.last().0 != k);
            }
        }
        if forall|i: int| 0 <= i < s.len() ==> (#[trigger] s[i]).0 != k {
            assert(s[s.len() - 1].0 != k);
            assert forall|i: int| 0 <= i < t.len() implies (#[trigger] t[i]).0 != k by {
                assert(t[i] == s[i]);
            }
        }
    }
}

/// A list with unique keys looks `k` up where it holds `k`.
pub proof fn lemma_lookup_of_unique<K, V>(s: Seq<(K, V)>)
    requires
        keys_unique(s),
    ensures
        forall|k: K|
            #![trigger lookup(s, k)]
            {
                &&& (forall|i: int| 0 <= i < s.len() && (#[trigger] s[i]).0 == k ==> lookup(s, k) == Some(s[i].1))
                &&& ((forall|i: int| 0 <= i < s.len() ==> (#[trigger] s[i]).0 != k) ==> lookup(s, k).is_none())
            },
{
    assert forall|k: K| #![trigger lookup(s, k)] {
        &&& (forall|i: int| 0 <= i < s.len() && (#[trigger] s[i]).0 == k ==> lookup(s, k) == Some(s[i].1))
        &&& ((forall|i: int| 0 <= i < s.len() ==> (#[trigger] s[i]).0 != k) ==> lookup(s, k).is_none())
    } by {
        lemma_lookup_index(s, k);
    }
}

// ---------------------------------------------------------------------------
// The registry

/// The owner of all runtime module state.
#[derive(Debug)]
pub struct RuntimeModuleRegistry {
    by_key: Vec<(RuntimeModuleKey, RuntimeModuleState)>,
    by_module_id: Vec<(u32, RuntimeModuleKey)>,
    next_runtime_module_id: u32,
}

#[verifier::ext_equal]
pub struct RegistryView {
    /// Module states by key, in registration order.
    pub entries: Seq<(KeyView, RuntimeModuleState)>,
    /// The key each registered module id maps to.
    pub module_ids: Seq<(u32, KeyView)>,
    pub next_runtime_module_id: u32,
}

impl RegistryView {
    pub open spec fn state_of(self, k: KeyView) -> Option<RuntimeModuleState> {
        lookup(self.entries, k)
    }

    pub open spec fn key_of_module_id(self, id: u32) -> Option<KeyView> {
        lookup(self.module_ids, id)
    }

    pub open spec fn wf(self) -> bool {
        keys_unique(self.entries) && keys_unique(self.module_ids)
    }
}

pub open spec fn entry_views(s: Seq<(RuntimeModuleKey, RuntimeModuleState)>) -> Seq<(KeyView, RuntimeModuleState)> {
    s.map_values(|e: (RuntimeModuleKey, RuntimeModuleState)| (e.0@, e.1))
}

pub open spec fn id_views(s: Seq<(u32, RuntimeModuleKey)>) -> Seq<(u32, KeyView)> {
    s.map_values(|e: (u32, RuntimeModuleKey)| (e.0, e.1@))
}

impl View for RuntimeModuleRegistry {
    type V = RegistryView;

    closed spec fn view(&self) -> RegistryView {
        RegistryView {
            entries: entry_views(self.by_key@),
            module_ids: id_views(self.by_module_id@),
            next_runtime_module_id: self.next_runtime_module_id,
        }
    }
}

impl RuntimeModuleRegistry {
    /// Keys are registered once, and module ids too.
    #[verifier::type_invariant]
    spec fn registry_inv(self) -> bool {
        keys_unique(entry_views(self.by_key@)) && keys_unique(id_views(self.by_module_id@))
    }

    /// The keys, as they were registered, and their states, in registration
    /// order.
    pub closed spec fn stored(&self) -> Seq<(RuntimeModuleKey, RuntimeModuleState)> {
        self.by_key@
    }

    /// The registry's entries are the views of the stored keys and states.
    pub proof fn lemma_stored(&self)
        ensures
            self@.entries == entry_views(self.stored()),
    {
    }
}

impl Clone for RuntimeModuleRegistry {
    /// A registry with the same keys, states and module ids.
    fn clone(&self) -> (r: Self)
        ensures
            r@ == self@,
    {
        proof {
            use_type_invariant(self);
        }
        let mut by_key: Vec<(RuntimeModuleKey, RuntimeModuleState)> = Vec::new();
        let mut i: usize = 0;
        while i < self.by_key.len()
            invariant
                i <= self.by_key@.len(),
                by_key@.len() == i,
                entry_views(by_key@) == entry_views(self.by_key@).take(i as int),
            decreases self.by_key@.len() - i,
        {
            let dup = self.by_key[i].0.duplicate();
            by_key.push((dup, self.by_key[i].1));
            proof {
                assert(entry_views(by_key@)[i as int] == entry_views(self.by_key@)[i as int]);
                assert(entry_views(by_key@) =~= entry_views(self.by_key@).take(i + 1));
            }
            i += 1;
        }
        let mut by_module_id: Vec<(u32, RuntimeModuleKey)> = Vec::new();
        let mut j: usize = 0;
        while j < self.by_module_id.len()
            invariant
                j <= self.by_module_id@.len(),
                by_module_id@.len() == j,
                id_views(by_module_id@) == id_views(self.by_module_id@).take(j as int),
            decreases self.by_module_id@.len() - j,
        {
            let dup = self.by_module_id[j].1.duplicate();
            by_module_id.push((self.by_module_id[j].0, dup));
            proof {
                assert(id_views(by_module_id@)[j as int] == id_views(self.by_module_id@)[j as int]);
                assert(id_views(by_module_id@) =~= id_views(self.by_module_id@).take(j + 1));
            }
            j += 1;
        }
        proof {
            assert(entry_views(by_key@) =~= entry_views(self.by_key@));
            assert(id_views(by_module_id@) =~= id_views(self.by_module_id@));
        }
        RuntimeModuleRegistry { by_key, by_module_id, next_runtime_module_id: self.next_runtime_module_id }
    }
}

/// The entries with `k` set to `st`: replaced in place, or appended.
pub open spec fn assoc_set<K, V>(s: Seq<(K, V)>, k: K, v: V) -> Seq<(K, V)> {
    if exists|i: int| 0 <= i < s.len() && (#[trigger] s[i]).0 == k {
        let i = choose|i: int| 0 <= i < s.len() && (#[trigger] s[i]).0 == k;
        s.update(i, (k, v))
    } else {
        s.push((k, v))
    }
}

/// The elements of `s` satisfying `p`, in order.
pub open spec fn keep<A>(s: Seq<A>, p: spec_fn(A) -> bool) -> Seq<A>
    decreases s.len(),
{
    if s.len() == 0 {
        s
    } else {
        let r = keep(s.drop_last(), p);
        if p(s.last()) {
            r.push(s.last())
        } else {
            r
        }
    }
}

/// The entries without key `k`.
pub open spec fn assoc_remove<K, V>(s: Seq<(K, V)>, k: K) -> Seq<(K, V)> {
    keep(s, key_differs(k))
}

pub open spec fn key_differs<K, V>(k: K) -> spec_fn((K, V)) -> bool {
    |e: (K, V)| e.0 != k
}

pub open spec fn maps_elsewhere(k: KeyView) -> spec_fn((u32, KeyView)) -> bool {
    |e: (u32, KeyView)| e.1 != k
}

/// The module-id index without the ids that map to `k`.
pub open spec fn ids_without_key(s: Seq<(u32, KeyView)>, k: KeyView) -> Seq<(u32, KeyView)> {
    keep(s, maps_elsewhere(k))
}

pub proof fn lemma_keep_step<A>(s: Seq<A>, p: spec_fn(A) -> bool, i: int)
    requires
        0 <= i < s.len(),
    ensures
        keep(s.take(i + 1), p) == if p(s[i]) {
            keep(s.take(i), p).push(s[i])
        } else {
            keep(s.take(i), p)
        },
{
    assert(s.take(i + 1).drop_last() =~= s.take(i));
    assert(s.take(i + 1).last() == s[i]);
}

pub proof fn lemma_keep_keys<K, V>(s: Seq<(K, V)>, p: spec_fn((K, V)) -> bool, k: K)
    requires
        forall|i: int| 0 <= i < s.len() ==> (#[trigger] s[i]).0 != k,
    ensures
        forall|j: int| 0 <= j < keep(s, p).len() ==> (#[trigger] keep(s, p)[j]).0 != k,
    decreases s.len(),
{
    if s.len() > 0 {
        let t = s.drop_last();
        assert forall|i: int| 0 <= i < t.len() implies (#[trigger] t[i]).0 != k by {
            assert(t[i] == s[i]);
        }
        lemma_keep_keys(t, p, k);
        assert(s[s.len() - 1].0 != k);
        let r = keep(t, p);
        if p(s.last()) {
            assert forall|j: int| 0 <= j < keep(s, p).len() implies (#[trigger] keep(s, p)[j]).0 != k by {
                if j < r.len() {
                    assert(keep(s, p)[j] == r[j]);
                }
            }
        }
    }
}

pub proof fn lemma_assoc_set<K, V>(s: Seq<(K, V)>, k: K, v: V)
    requires
        keys_unique(s),
    ensures
        keys_unique(assoc_set(s, k, v)),
        forall|k2: K| #[trigger] lookup(assoc_set(s, k, v), k2) == if k2 == k {
            Some(v)
        } else {
            lookup(s, k2)
        },
{
    let t = assoc_set(s, k, v);
    if exists|i: int| 0 <= i < s.len() && (#[trigger] s[i]).0 == k {
        let i = choose|i: int| 0 <= i < s.len() && (#[trigger] s[i]).0 == k;
        assert(keys_unique(t)) by {
            assert forall|a: int, b: int| 0 <= a < b < t.len() implies (#[trigger] t[a]).0 != (#[trigger] t[b]).0 by {
                if a != i && b != i {
                    assert(t[a] == s[a] && t[b] == s[b]);
                } else if a == i {
                    assert(t[b] == s[b]);
                    assert(s[a].0 != s[b].0);
                } else {
                    assert(t[a] == s[a]);
                    assert(s[a].0 != s[b].0);
                }
            }
        }
    } else {
        assert(keys_unique(t)) by {
            assert forall|a: int, b: int| 0 <= a < b < t.len() implies (#[trigger] t[a]).0 != (#[trigger] t[b]).0 by {
                if b == s.len() {
                    assert(t[a] == s[a]);
                } else {
                    assert(t[a] == s[a] && t[b] == s[b]);
                }
            }
        }
    }
    lemma_lookup_of_unique(s);
    lemma_lookup_of_unique(t);
    assert forall|k2: K| #[trigger] lookup(t, k2) == if k2 == k { Some(v) } else { lookup(s, k2) } by {
        if exists|i: int| 0 <= i < s.len() && (#[trigger] s[i]).0 == k {
            let i = choose|i: int| 0 <= i < s.len() && (#[trigger] s[i]).0 == k;
            if k2 == k {
                assert(t[i].0 == k);
            } else {
                if exists|j: int| 0 <= j < s.len() && (#[trigger] s[j]).0 == k2 {
                    let j = choose|j: int| 0 <= j < s.len() && (#[trigger] s[j]).0 == k2;
                    assert(t[j] == s[j]);
                } else {
                    assert forall|j: int| 0 <= j < t.len() implies (#[trigger] t[j]).0 != k2 by {
                        if j != i {
                            assert(t[j] == s[j]);
                        }
                    }
                }
            }
        } else {
            if k2 == k {
                assert(t[s.len() as int].0 == k);
            } else {
                if exists|j: int| 0 <= j < s.len() && (#[trigger] s[j]).0 == k2 {
                    let j = choose|j: int| 0 <= j < s.len() && (#[trigger] s[j]).0 == k2;
                    assert(t[j] == s[j]);
                } else {
                    assert forall|j: int| 0 <= j < t.len() implies (#[trigger] t[j]).0 != k2 by {
                        if j < s.len() {
                            assert(t[j] == s[j]);
                        }
                    }
                }
            }
        }
    }
}

pub proof fn lemma_filter_unique<K, V>(s: Seq<(K, V)>, p: spec_fn((K, V)) -> bool)
    requires
        keys_unique(s),
    ensures
        keys_unique(keep(s, p)),
        forall|k2: K| #[trigger] lookup(keep(s, p), k2) == match lookup(s, k2) {
            Some(v) => if p((k2, v)) {
                Some(v)
            } else {
                None
            },
            None => None,
        },
    decreases s.len(),
{
    if s.len() > 0 {
        let t = s.drop_last();
        assert(keys_unique(t)) by {
            assert forall|i: int, j: int| 0 <= i < j < t.len() implies (#[trigger] t[i]).0 != (#[trigger] t[j]).0 by {
                assert(t[i] == s[i] && t[j] == s[j]);
            }
        }
        lemma_filter_unique(t, p);
        let ft = keep(t, p);
        let last = s.last();
        assert forall|i: int| 0 <= i < t.len() implies (#[trigger] t[i]).0 != last.0 by {
            assert(t[i] == s[i]);
            assert(s[s.len() - 1] == last);
        }
        lemma_keep_keys(t, p, last.0);
        if p(last) {
            assert(keep(s, p) == ft.push(last));
            assert(keys_unique(ft.push(last))) by {
                assert forall|a: int, b: int| 0 <= a < b < ft.push(last).len() implies (#[trigger] ft.push(last)[a]).0
                    != (#[trigger] ft.push(last)[b]).0 by {
                    if b == ft.len() {
                        assert(ft.push(last)[a] == ft[a]);
                    } else {
                        assert(ft.push(last)[a] == ft[a] && ft.push(last)[b] == ft[b]);
                    }
                }
            }
        } else {
            assert(keep(s, p) == ft);
        }
        assert forall|k2: K| #[trigger] lookup(keep(s, p), k2) == match lookup(s, k2) {
            Some(v) => if p((k2, v)) {
                Some(v)
            } else {
                None
            },
            None => None,
        } by {
            if last.0 != k2 {
                assert(lookup(s, k2) == lookup(t, k2));
                if p(last) {
                    assert(ft.push(last).drop_last() == ft);
                    assert(lookup(ft.push(last), k2) == lookup(ft, k2));
                }
            } else {
                assert(lookup(s, k2) == Some(last.1));
                lemma_lookup_of_unique(ft);
                if p(last) {
                    assert(ft.push(last).last() == last);
                    assert(lookup(keep(s, p), k2) == Some(last.1));
                } else {
                    assert forall|i: int| 0 <= i < ft.len() implies (#[trigger] ft[i]).0 != k2 by {}
                    assert(lookup(ft, k2).is_none());
                }
            }
        }
    }
}

pub open spec fn spec_require_result(st: Option<RuntimeModuleState>) -> RuntimeModuleRequireResult {
    match st {
        Some(RuntimeModuleState::Loading { exports_object, .. }) => RuntimeModuleRequireResult::Exports(
            exports_object,
        ),
        Some(RuntimeModuleState::Loaded { module_object, exports_object, .. }) => {
            RuntimeModuleRequireResult::LoadedModule { module_object, exports_object }
        },
        Some(RuntimeModuleState::Errored { error_value }) => RuntimeModuleRequireResult::Errored(error_value),
        None => RuntimeModuleRequireResult::Missing,
    }
}

pub open spec fn spec_import_result(st: Option<RuntimeModuleState>) -> RuntimeModuleImportResult {
    match st {
        Some(RuntimeModuleState::Loaded { namespace_object, .. }) => RuntimeModuleImportResult::Namespace(
            namespace_object,
        ),
        Some(RuntimeModuleState::Errored { error_value }) => RuntimeModuleImportResult::Errored(error_value),
        _ => RuntimeModuleImportResult::Missing,
    }
}

/// The values a module state keeps alive.
pub open spec fn state_roots(st: RuntimeModuleState) -> Seq<i64> {
    match st {
        RuntimeModuleState::Loading { module_object, exports_object } => seq![module_object, exports_object],
        RuntimeModuleState::Loaded { module_object, exports_object, namespace_object } => seq![
            module_object,
            exports_object,
            namespace_object,
        ],
        RuntimeModuleState::Errored { error_value } => seq![error_value],
    }
}

pub open spec fn roots_of(entries: Seq<(KeyView, RuntimeModuleState)>) -> Seq<i64>
    decreases entries.len(),
{
    if entries.len() == 0 {
        Seq::empty()
    } else {
        roots_of(entries.drop_last()) + state_roots(entries.last().1)
    }
}

/// The `require.cache` record of a module: it needs a cache id and must
/// not have errored.
pub open spec fn spec_cache_entry(k: RuntimeModuleKey, st: RuntimeModuleState) -> Option<(Seq<char>, i64)> {
    match spec_cache_id(k) {
        Some(id) => match st {
            RuntimeModuleState::Loading { module_object, .. } => Some((id, module_object)),
            RuntimeModuleState::Loaded { module_object, .. } => Some((id, module_object)),
            RuntimeModuleState::Errored { .. } => None,
        },
        None => None,
    }
}

pub open spec fn cache_entries_of(entries: Seq<(RuntimeModuleKey, RuntimeModuleState)>) -> Seq<(Seq<char>, i64)>
    decreases entries.len(),
{
    if entries.len() == 0 {
        Seq::empty()
    } else {
        let prev = cache_entries_of(entries.drop_last());
        match spec_cache_entry(entries.last().0, entries.last().1) {
            Some(e) => prev.push(e),
            None => prev,
        }
    }
}

/// The state after `delete_cache_entry(k)`, and whether it answered `true`.
pub open spec fn spec_delete(v: RegistryView, k: KeyView) -> (RegistryView, bool) {
    match v.state_of(k) {
        Some(RuntimeModuleState::Loading { .. }) => (v, false),
        Some(_) => if spec_can_delete_from_require_cache(k) {
            (
                RegistryView {
                    entries: assoc_remove(v.entries, k),
                    module_ids: ids_without_key(v.module_ids, k),
                    ..v
                },
                true,
            )
        } else {
            (v, true)
        },
        None => (v, true),
    }
}

impl Default for RuntimeModuleRegistry {
    fn default() -> (r: RuntimeModuleRegistry)
        ensures
            r@.wf(),
            r@.entries == Seq::<(KeyView, RuntimeModuleState)>::empty(),
            r@.module_ids == Seq::<(u32, KeyView)>::empty(),
            r@.next_runtime_module_id == RUNTIME_MODULE_ID_BASE,
    {
        let r = RuntimeModuleRegistry {
            by_key: Vec::new(),
            by_module_id: Vec::new(),
            next_runtime_module_id: RUNTIME_MODULE_ID_BASE,
        };
        proof {
            assert(r@.entries =~= Seq::<(KeyView, RuntimeModuleState)>::empty());
            assert(r@.module_ids =~= Seq::<(u32, KeyView)>::empty());
        }
        r
    }
}

impl RuntimeModuleRegistry {
    pub fn new() -> (r: RuntimeModuleRegistry)
        ensures
            r@.wf(),
            r@.entries == Seq::<(KeyView, RuntimeModuleState)>::empty(),
            r@.module_ids == Seq::<(u32, KeyView)>::empty(),
            r@.next_runtime_module_id == RUNTIME_MODULE_ID_BASE,
    {
        RuntimeModuleRegistry::default()
    }

    /// Reserves `count` consecutive runtime module ids and returns the
    /// first; `None`, with nothing reserved, when the id space would
    /// overflow.
    pub fn reserve_runtime_module_id_range(&mut self, count: u32) -> (r: Option<u32>)
        ensures
            (final(self)@, r) == spec_reserve(old(self)@, count),
    {
        proof {
            use_type_invariant(&*self);
        }
        let base = self.next_runtime_module_id;
        match self.next_runtime_module_id.checked_add(count) {
            Some(next) => {
                self.next_runtime_module_id = next;
                Some(base)
            },
            None => None,
        }
    }

    fn find_key(&self, key: &RuntimeModuleKey) -> (r: Option<usize>)
        requires
            self@.wf(),
        ensures
            match r {
                Some(i) => i < self@.entries.len() && self@.entries[i as int].0 == key@ && self@.state_of(key@)
                    == Some(self@.entries[i as int].1),
                None => self@.state_of(key@).is_none() && forall|i: int|
                    0 <= i < self@.entries.len() ==> (#[trigger] self@.entries[i]).0 != key@,
            },
    {
        proof {
            lemma_lookup_index(self@.entries, key@);
        }
        let mut i: usize = 0;
        while i < self.by_key.len()
            invariant
                i <= self.by_key@.len(),
                self@.entries.len() == self.by_key@.len(),
                forall|j: int| 0 <= j < i ==> (#[trigger] self@.entries[j]).0 != key@,
                keys_unique(self@.entries),
                forall|j: int| 0 <= j < self@.entries.len() && (#[trigger] self@.entries[j]).0 == key@
                    ==> self@.state_of(key@) == Some(self@.entries[j].1),
            decreases self.by_key.len() - i,
        {
            if self.by_key[i].0.same_key(key) {
                proof {
                    assert(self@.entries[i as int] == (self.by_key@[i as int].0@, self.by_key@[i as int].1));
                }
                return Some(i);
            }
            i += 1;
        }
        None
    }

    fn set_state(&mut self, key: RuntimeModuleKey, state: RuntimeModuleState)
        requires
            old(self)@.wf(),
        ensures
            final(self)@ == (RegistryView { entries: assoc_set(old(self)@.entries, key@, state), ..old(self)@ }),
            final(self)@.wf(),
    {
        let ghost k = key@;
        proof {
            lemma_assoc_set(self@.entries, key@, state);
        }
        match self.find_key(&key) {
            Some(i) => {
                proof {
                    let s = self@.entries;
                    let c = choose|c: int| 0 <= c < s.len() && (#[trigger] s[c]).0 == k;
                    if c != i {
                        assert(s[c].0 == s[i as int].0);
                    }
                }
                // The key first registered stays, as a map keeps its key.
                let kept = self.by_key[i].0.duplicate();
                proof {
                    assert(self@.entries[i as int] == (self.by_key@[i as int].0@, self.by_key@[i as int].1));
                }
                let mut entries: Vec<(RuntimeModuleKey, RuntimeModuleState)> = Vec::new();
                std::mem::swap(&mut entries, &mut self.by_key);
                entries.set(i, (kept, state));
                proof {
                    assert(entry_views(entries@) =~= assoc_set(old(self)@.entries, k, state));
                }
                self.by_key = entries;
            },
            None => {
                let mut entries: Vec<(RuntimeModuleKey, RuntimeModuleState)> = Vec::new();
                std::mem::swap(&mut entries, &mut self.by_key);
                entries.push((key, state));
                proof {
                    assert(entry_views(entries@) =~= assoc_set(old(self)@.entries, k, state));
                }
                self.by_key = entries;
            },
        }
    }

    fn find_module_id(&self, module_id: u32) -> (r: Option<usize>)
        requires
            self@.wf(),
        ensures
            match r {
                Some(i) => i < self@.module_ids.len() && self@.module_ids[i as int].0 == module_id
                    && self@.key_of_module_id(module_id) == Some(self@.module_ids[i as int].1),
                None => self@.key_of_module_id(module_id).is_none() && forall|i: int|
                    0 <= i < self@.module_ids.len() ==> (#[trigger] self@.module_ids[i]).0 != module_id,
            },
    {
        proof {
            lemma_lookup_index(self@.module_ids, module_id);
        }
        let mut i: usize = 0;
        while i < self.by_module_id.len()
            invariant
                i <= self.by_module_id@.len(),
                self@.module_ids.len() == self.by_module_id@.len(),
                forall|j: int| 0 <= j < i ==> (#[trigger] self@.module_ids[j]).0 != module_id,
                forall|j: int| 0 <= j < self@.module_ids.len() && (#[trigger] self@.module_ids[j]).0 == module_id
                    ==> self@.key_of_module_id(module_id) == Some(self@.module_ids[j].1),
            decreases self.by_module_id.len() - i,
        {
            if self.by_module_id[i].0 == module_id {
                proof {
                    assert(self@.module_ids[i as int] == (self.by_module_id@[i as int].0, self.by_module_id@[i as int].1@));
                }
                return Some(i);
            }
            i += 1;
        }
        None
    }

    fn remember_module_id(&mut self, module_id: Option<u32>, key: &RuntimeModuleKey)
        requires
            old(self)@.wf(),
        ensures
            final(self)@.wf(),
            final(self)@ == match module_id {
                Some(id) => RegistryView { module_ids: assoc_set(old(self)@.module_ids, id, key@), ..old(self)@ },
                None => old(self)@,
            },
    {
        if let Some(module_id) = module_id {
            proof {
                lemma_assoc_set(self@.module_ids, module_id, key@);
            }
            let found = self.find_module_id(module_id);
            let copy = key.duplicate();
            match found {
                Some(i) => {
                    proof {
                        let s = self@.module_ids;
                        let c = choose|c: int| 0 <= c < s.len() && (#[trigger] s[c]).0 == module_id;
                        if c != i {
                            assert(s[c].0 == s[i as int].0);
                        }
                    }
                    let mut ids: Vec<(u32, RuntimeModuleKey)> = Vec::new();
                    std::mem::swap(&mut ids, &mut self.by_module_id);
                    ids.set(i, (module_id, copy));
                    proof {
                        assert(id_views(ids@) =~= assoc_set(old(self)@.module_ids, module_id, key@));
                    }
                    self.by_module_id = ids;
                },
                None => {
                    let mut ids: Vec<(u32, RuntimeModuleKey)> = Vec::new();
                    std::mem::swap(&mut ids, &mut self.by_module_id);
                    ids.push((module_id, copy));
                    proof {
                        assert(id_views(ids@) =~= assoc_set(old(self)@.module_ids, module_id, key@));
                    }
                    self.by_module_id = ids;
                },
            }
        }
    }

    fn remove_key(&mut self, key: &RuntimeModuleKey)
        requires
            old(self)@.wf(),
        ensures
            final(self)@.wf(),
            final(self)@ == (RegistryView { entries: assoc_remove(old(self)@.entries, key@), ..old(self)@ }),
    {
        let ghost k = key@;
        let ghost p = key_differs::<KeyView, RuntimeModuleState>(k);
        let mut kept: Vec<(RuntimeModuleKey, RuntimeModuleState)> = Vec::new();
        let mut iter_entries: Vec<(RuntimeModuleKey, RuntimeModuleState)> = Vec::new();
        std::mem::swap(&mut iter_entries, &mut self.by_key);
        let ghost all = entry_views(iter_entries@);
        let mut i: usize = 0;
        proof {
            assert(all == old(self)@.entries);
            assert(entry_views(kept@) =~= keep(all.take(0), p));
        }
        while i < iter_entries.len()
            invariant
                i <= iter_entries@.len(),
                all == entry_views(iter_entries@),
                k == key@,
                self.by_module_id@ == old(self).by_module_id@,
                self.next_runtime_module_id == old(self).next_runtime_module_id,
                p == key_differs::<KeyView, RuntimeModuleState>(k),
                entry_views(kept@) == keep(all.take(i as int), p),
            decreases iter_entries.len() - i,
        {
            let entry = (iter_entries[i].0.duplicate(), iter_entries[i].1);
            proof {
                lemma_keep_step(all, p, i as int);
                assert(all[i as int] == (iter_entries@[i as int].0@, iter_entries@[i as int].1));
                assert(p(all[i as int]) == (all[i as int].0 != k));
            }
            let ghost before = kept@;
            if !entry.0.same_key(key) {
                kept.push(entry);
                proof {
                    assert(entry_views(kept@) =~= entry_views(before).push(all[i as int]));
                }
            }
            i += 1;
        }
        proof {
            assert(all.take(iter_entries@.len() as int) =~= all);
            lemma_filter_unique(all, p);
        }
        self.by_key = kept;
        proof {
            assert(self@.entries == entry_views(kept@));
            assert(self@.entries == keep(all, p));
            assert(self@.entries == assoc_remove(old(self)@.entries, key@));
            assert(self@.module_ids == old(self)@.module_ids);
            assert(self@ =~= (RegistryView { entries: assoc_remove(old(self)@.entries, key@), ..old(self)@ }));
        }
    }

    fn remove_ids_mapped_to(&mut self, key: &RuntimeModuleKey)
        requires
            old(self)@.wf(),
        ensures
            final(self)@.wf(),
            final(self)@ == (RegistryView { module_ids: ids_without_key(old(self)@.module_ids, key@), ..old(self)@ }),
    {
        let ghost k = key@;
        let ghost p = maps_elsewhere(k);
        let mut kept: Vec<(u32, RuntimeModuleKey)> = Vec::new();
        let mut old_ids: Vec<(u32, RuntimeModuleKey)> = Vec::new();
        std::mem::swap(&mut old_ids, &mut self.by_module_id);
        let ghost all = id_views(old_ids@);
        let mut i: usize = 0;
        proof {
            assert(all == old(self)@.module_ids);
            assert(id_views(kept@) =~= keep(all.take(0), p));
        }
        while i < old_ids.len()
            invariant
                i <= old_ids@.len(),
                all == id_views(old_ids@),
                k == key@,
                self.by_key@ == old(self).by_key@,
                self.next_runtime_module_id == old(self).next_runtime_module_id,
                p == maps_elsewhere(k),
                id_views(kept@) == keep(all.take(i as int), p),
            decreases old_ids.len() - i,
        {
            let id = old_ids[i].0;
            let mapped = old_ids[i].1.duplicate();
            proof {
                lemma_keep_step(all, p, i as int);
                assert(all[i as int] == (old_ids@[i as int].0, old_ids@[i as int].1@));
                assert(p(all[i as int]) == (all[i as int].1 != k));
            }
            let ghost before = kept@;
            if !mapped.same_key(key) {
                kept.push((id, mapped));
                proof {
                    assert(id_views(kept@) =~= id_views(before).push(all[i as int]));
                }
            }
            i += 1;
        }
        proof {
            assert(all.take(old_ids@.len() as int) =~= all);
            lemma_filter_unique(all, p);
        }
        self.by_module_id = kept;
        proof {
            assert(self@ =~= (RegistryView { module_ids: ids_without_key(old(self)@.module_ids, key@), ..old(self)@ }));
        }
    }

    /// Drops the module-id key of `module_id` when the module is registered
    /// under a different canonical key.
    fn remove_module_id_key_if_different(&mut self, module_id: Option<u32>, key: &RuntimeModuleKey)
        requires
            old(self)@.wf(),
        ensures
            final(self)@.wf(),
            final(self)@ == match module_id {
                Some(id) => if spec_key_for_module_id(id) != key@ {
                    RegistryView {
                        entries: assoc_remove(old(self)@.entries, spec_key_for_module_id(id)),
                        ..old(self)@
                    }
                } else {
                    old(self)@
                },
                None => old(self)@,
            },
    {
        let module_id = match module_id {
            Some(id) => id,
            None => return,
        };
        let module_id_key = RuntimeModuleKey::from_registered_module_id(module_id);
        if !module_id_key.same_key(key) {
            self.remove_key(&module_id_key);
        }
    }

    /// Registers `key` as loading; a circular `require` then sees its
    /// partial exports.
    pub fn begin_loading(
        &mut self,
        key: RuntimeModuleKey,
        module_id: Option<u32>,
        module_object: i64,
        exports_object: i64,
    )
        ensures
            final(self)@.wf(),
            final(self)@ == spec_begin_loading(old(self)@, key@, module_id, module_object, exports_object),
    {
        proof {
            use_type_invariant(&*self);
        }
        self.remember_module_id(module_id, &key);
        self.set_state(key, RuntimeModuleState::Loading { module_object, exports_object });
    }

    /// Records that `key` finished loading; a module-id key standing for the
    /// same module under another name is dropped.
    pub fn finish_loaded(
        &mut self,
        key: RuntimeModuleKey,
        module_id: Option<u32>,
        module_object: i64,
        exports_object: i64,
        namespace_object: i64,
    )
        ensures
            final(self)@.wf(),
            final(self)@ == spec_finish(
                old(self)@,
                key@,
                module_id,
                RuntimeModuleState::Loaded { module_object, exports_object, namespace_object },
            ),
    {
        proof {
            use_type_invariant(&*self);
        }
        self.remove_module_id_key_if_different(module_id, &key);
        self.remember_module_id(module_id, &key);
        self.set_state(key, RuntimeModuleState::Loaded { module_object, exports_object, namespace_object });
    }

    /// Registers the namespace of a module compiled into the program under its
    /// module id, as a loaded module whose module object is `undefined` (the
    /// runtime's encoding of it) and whose exports are the namespace.
    pub fn register_static_namespace(&mut self, module_id: u32, namespace_object: i64, undefined: i64)
        ensures
            final(self)@.wf(),
            final(self)@ == spec_finish(
                old(self)@,
                spec_key_for_module_id(module_id),
                Some(module_id),
                RuntimeModuleState::Loaded {
                    module_object: undefined,
                    exports_object: namespace_object,
                    namespace_object,
                },
            ),
    {
        proof {
            use_type_invariant(&*self);
        }
        self.finish_loaded(
            RuntimeModuleKey::from_registered_module_id(module_id),
            Some(module_id),
            undefined,
            namespace_object,
            namespace_object,
        );
    }

    /// Records that evaluating `key` threw `error_value`.
    pub fn finish_errored(&mut self, key: RuntimeModuleKey, module_id: Option<u32>, error_value: i64)
        ensures
            final(self)@.wf(),
            final(self)@ == spec_finish(old(self)@, key@, module_id, RuntimeModuleState::Errored { error_value }),
    {
        proof {
            use_type_invariant(&*self);
        }
        self.remove_module_id_key_if_different(module_id, &key);
        self.remember_module_id(module_id, &key);
        self.set_state(key, RuntimeModuleState::Errored { error_value });
    }

    fn state_for(&self, key: &RuntimeModuleKey) -> (r: Option<RuntimeModuleState>)
        requires
            self@.wf(),
        ensures
            r == self@.state_of(key@),
    {
        match self.find_key(key) {
            Some(i) => Some(self.by_key[i].1),
            None => None,
        }
    }

    pub fn get_for_require(&self, key: &RuntimeModuleKey) -> (r: RuntimeModuleRequireResult)
        ensures
            r == spec_require_result(self@.state_of(key@)),
    {
        proof {
            use_type_invariant(self);
        }
        match self.state_for(key) {
            Some(RuntimeModuleState::Loading { exports_object, .. }) => RuntimeModuleRequireResult::Exports(
                exports_object,
            ),
            Some(RuntimeModuleState::Loaded { module_object, exports_object, .. }) => {
                RuntimeModuleRequireResult::LoadedModule { module_object, exports_object }
            },
            Some(RuntimeModuleState::Errored { error_value }) => RuntimeModuleRequireResult::Errored(error_value),
            None => RuntimeModuleRequireResult::Missing,
        }
    }

    pub fn is_loading(&self, key: &RuntimeModuleKey) -> (r: bool)
        ensures
            r == (self@.state_of(key@) matches Some(RuntimeModuleState::Loading { .. })),
    {
        proof {
            use_type_invariant(self);
        }
        match self.state_for(key) {
            Some(RuntimeModuleState::Loading { .. }) => true,
            _ => false,
        }
    }

    pub fn loading_module(&self, key: &RuntimeModuleKey) -> (r: Option<(i64, i64)>)
        ensures
            r == match self@.state_of(key@) {
                Some(RuntimeModuleState::Loading { module_object, exports_object }) => Some(
                    (module_object, exports_object),
                ),
                _ => None,
            },
    {
        proof {
            use_type_invariant(self);
        }
        match self.state_for(key) {
            Some(RuntimeModuleState::Loading { module_object, exports_object }) => Some(
                (module_object, exports_object),
            ),
            _ => None,
        }
    }

    pub fn get_for_import(&self, key: &RuntimeModuleKey) -> (r: RuntimeModuleImportResult)
        ensures
            r == spec_import_result(self@.state_of(key@)),
    {
        proof {
            use_type_invariant(self);
        }
        match self.state_for(key) {
            Some(RuntimeModuleState::Loaded { namespace_object, .. }) => RuntimeModuleImportResult::Namespace(
                namespace_object,
            ),
            Some(RuntimeModuleState::Errored { error_value }) => RuntimeModuleImportResult::Errored(error_value),
            _ => RuntimeModuleImportResult::Missing,
        }
    }

    /// The namespace of the module registered under `module_id`, once it
    /// has loaded.
    pub fn get_namespace_by_module_id(&self, module_id: u32) -> (r: Option<i64>)
        ensures
            r == match self@.key_of_module_id(module_id) {
                Some(k) => match self@.state_of(k) {
                    Some(RuntimeModuleState::Loaded { namespace_object, .. }) => Some(namespace_object),
                    _ => None,
                },
                None => None,
            },
    {
        proof {
            use_type_invariant(self);
        }
        match self.find_module_id(module_id) {
            Some(i) => {
                let key = &self.by_module_id[i].1;
                proof {
                    assert(self@.module_ids[i as int] == (self.by_module_id@[i as int].0, self.by_module_id@[i as int].1@));
                }
                match self.state_for(key) {
                    Some(RuntimeModuleState::Loaded { namespace_object, .. }) => Some(namespace_object),
                    _ => None,
                }
            },
            None => None,
        }
    }

    /// Deletes the `require.cache` entry of `key`: a module still loading
    /// is refused (`false`); a loaded or errored file or JSON module is
    /// removed with its module ids; anything else is left alone.
    pub fn delete_cache_entry(&mut self, key: &RuntimeModuleKey) -> (r: bool)
        ensures
            final(self)@.wf(),
            (final(self)@, r) == spec_delete(old(self)@, key@),
    {
        proof {
            use_type_invariant(&*self);
        }
        match self.state_for(key) {
            Some(RuntimeModuleState::Loading { .. }) => false,
            Some(_) => {
                if key.can_delete_from_require_cache() {
                    self.remove_key(key);
                    self.remove_ids_mapped_to(key);
                    true
                } else {
                    true
                }
            },
            None => true,
        }
    }

    /// Every value the registry keeps alive, entry by entry.
    pub fn roots(&self) -> (r: Vec<i64>)
        ensures
            r@ == roots_of(self@.entries),
    {
        let mut roots: Vec<i64> = Vec::new();
        let mut i: usize = 0;
        while i < self.by_key.len()
            invariant
                i <= self.by_key@.len(),
                self@.entries.len() == self.by_key@.len(),
                roots@ == roots_of(self@.entries.take(i as int)),
            decreases self.by_key.len() - i,
        {
            let state = self.by_key[i].1;
            proof {
                assert(self@.entries.take(i + 1).drop_last() =~= self@.entries.take(i as int));
            }
            match state {
                RuntimeModuleState::Loading { module_object, exports_object } => {
                    roots.push(module_object);
                    roots.push(exports_object);
                },
                RuntimeModuleState::Loaded { module_object, exports_object, namespace_object } => {
                    roots.push(module_object);
                    roots.push(exports_object);
                    roots.push(namespace_object);
                },
                RuntimeModuleState::Errored { error_value } => roots.push(error_value),
            }
            proof {
                assert(roots@ =~= roots_of(self@.entries.take(i + 1)));
            }
            i += 1;
        }
        proof {
            assert(self@.entries.take(self@.entries.len() as int) =~= self@.entries);
        }
        roots
    }
}

pub open spec fn spec_begin_loading(
    v: RegistryView,
    k: KeyView,
    module_id: Option<u32>,
    module_object: i64,
    exports_object: i64,
) -> RegistryView {
    let v1 = match module_id {
        Some(id) => RegistryView { module_ids: assoc_set(v.module_ids, id, k), ..v },
        None => v,
    };
    RegistryView {
        entries: assoc_set(v1.entries, k, RuntimeModuleState::Loading { module_object, exports_object }),
        ..v1
    }
}

pub open spec fn spec_finish(
    v: RegistryView,
    k: KeyView,
    module_id: Option<u32>,
    st: RuntimeModuleState,
) -> RegistryView {
    let v0 = match module_id {
        Some(id) => if spec_key_for_module_id(id) != k {
            RegistryView { entries: assoc_remove(v.entries, spec_key_for_module_id(id)), ..v }
        } else {
            v
        },
        None => v,
    };
    let v1 = match module_id {
        Some(id) => RegistryView { module_ids: assoc_set(v0.module_ids, id, k), ..v0 },
        None => v0,
    };
    RegistryView { entries: assoc_set(v1.entries, k, st), ..v1 }
}

// ---------------------------------------------------------------------------
// require.cache

/// Byte-wise lexicographic order, the order of `str` comparison.
pub open spec fn lex_le(a: Seq<u8>, b: Seq<u8>) -> bool
    decreases a.len(),
{
    if a.len() == 0 {
        true
    } else if b.len() == 0 {
        false
    } else if a[0] != b[0] {
        a[0] < b[0]
    } else {
        lex_le(a.drop_first(), b.drop_first())
    }
}

pub proof fn lemma_lex_total(a: Seq<u8>, b: Seq<u8>)
    ensures
        lex_le(a, b) || lex_le(b, a),
    decreases a.len(),
{
    if a.len() > 0 && b.len() > 0 && a[0] == b[0] {
        lemma_lex_total(a.drop_first(), b.drop_first());
    }
}

pub proof fn lemma_lex_trans(a: Seq<u8>, b: Seq<u8>, c: Seq<u8>)
    requires
        lex_le(a, b),
        lex_le(b, c),
    ensures
        lex_le(a, c),
    decreases a.len(),
{
    if a.len() > 0 && b.len() > 0 && c.len() > 0 && a[0] == b[0] && b[0] == c[0] {
        lemma_lex_trans(a.drop_first(), b.drop_first(), c.drop_first());
    }
}

/// `lex_le` read from position `i` on, given equal prefixes before `i`.
pub proof fn lemma_lex_suffix(a: Seq<u8>, b: Seq<u8>, i: int)
    requires
        0 <= i <= a.len(),
        i <= b.len(),
        forall|j: int| 0 <= j < i ==> a[j] == b[j],
    ensures
        lex_le(a, b) == lex_le(a.skip(i), b.skip(i)),
    decreases i,
{
    if i > 0 {
        assert(a.skip(i) =~= a.drop_first().skip(i - 1));
        assert(b.skip(i) =~= b.drop_first().skip(i - 1));
        lemma_lex_suffix(a.drop_first(), b.drop_first(), i - 1);
    } else {
        assert(a.skip(0) =~= a);
        assert(b.skip(0) =~= b);
    }
}

fn bytes_le(a: &[u8], b: &[u8]) -> (r: bool)
    ensures
        r == lex_le(a@, b@),
{
    let mut i: usize = 0;
    while i < a.len() && i < b.len() && a[i] == b[i]
        invariant
            i <= a@.len(),
            i <= b@.len(),
            forall|j: int| 0 <= j < i ==> a@[j] == b@[j],
        decreases a@.len() - i,
    {
        i += 1;
    }
    proof {
        lemma_lex_suffix(a@, b@, i as int);
    }
    if i == a.len() {
        true
    } else if i == b.len() {
        false
    } else {
        a[i] < b[i]
    }
}

/// The bytes `require.cache` entries are ordered by.
pub open spec fn id_bytes(e: (Seq<char>, i64)) -> Seq<u8> {
    vstd::utf8::encode_utf8(e.0)
}

pub open spec fn sorted_by_id(s: Seq<(Seq<char>, i64)>) -> bool {
    forall|i: int, j: int| 0 <= i < j < s.len() ==> lex_le(id_bytes(#[trigger] s[i]), id_bytes(#[trigger] s[j]))
}

fn entry_le(a: &RuntimeRequireCacheEntry, b: &RuntimeRequireCacheEntry) -> (r: bool)
    ensures
        r == lex_le(id_bytes(a@), id_bytes(b@)),
{
    bytes_le(a.id.as_str().as_bytes(), b.id.as_str().as_bytes())
}

impl RuntimeModuleRegistry {
    fn require_cache_entry(key: &RuntimeModuleKey, state: &RuntimeModuleState) -> (r: Option<
        RuntimeRequireCacheEntry,
    >)
        ensures
            match r {
                Some(e) => spec_cache_entry(*key, *state) == Some(e@),
                None => spec_cache_entry(*key, *state).is_none(),
            },
    {
        let id = match require_cache_id_for_key(key) {
            Some(id) => id,
            None => return None,
        };
        let module_object = match state {
            RuntimeModuleState::Loading { module_object, .. } => *module_object,
            RuntimeModuleState::Loaded { module_object, .. } => *module_object,
            RuntimeModuleState::Errored { .. } => return None,
        };
        Some(RuntimeRequireCacheEntry { id, module_object })
    }

    /// The `require.cache` record whose id is `cache_id`: the first module
    /// with that id that has not errored.
    pub fn require_cache_entry_by_id(&self, cache_id: &str) -> (r: Option<RuntimeRequireCacheEntry>)
        ensures
            match r {
                Some(e) => exists|i: int|
                    0 <= i < self.stored().len() && spec_cache_id((#[trigger] self.stored()[i]).0) == Some(cache_id@)
                        && spec_cache_entry(self.stored()[i].0, self.stored()[i].1) == Some(e@) && forall|j: int|
                        0 <= j < i ==> !cache_match(self.stored()[j], cache_id@),
                None => forall|i: int| 0 <= i < self.stored().len() ==> !cache_match(#[trigger] self.stored()[i], cache_id@),
            },
    {
        let mut i: usize = 0;
        while i < self.by_key.len()
            invariant
                i <= self.by_key@.len(),
                self.stored() == self.by_key@,
                forall|j: int| 0 <= j < i ==> !cache_match(#[trigger] self.stored()[j], cache_id@),
            decreases self.by_key.len() - i,
        {
            let key = &self.by_key[i].0;
            let state = &self.by_key[i].1;
            if require_cache_id_matches_key(cache_id, key) {
                if let Some(entry) = Self::require_cache_entry(key, state) {
                    return Some(entry);
                }
            }
            i += 1;
        }
        None
    }

    /// All `require.cache` records, ordered by id.
    pub fn require_cache_entries(&self) -> (r: Vec<RuntimeRequireCacheEntry>)
        ensures
            sorted_by_id(r@.map_values(|e: RuntimeRequireCacheEntry| e@)),
            r@.map_values(|e: RuntimeRequireCacheEntry| e@).to_multiset() == cache_entries_of(
                self.stored(),
            ).to_multiset(),
    {
        let mut out: Vec<RuntimeRequireCacheEntry> = Vec::new();
        let mut i: usize = 0;
        proof {
            let e = out@.map_values(|e: RuntimeRequireCacheEntry| e@);
            assert(e =~= Seq::<(Seq<char>, i64)>::empty());
            assert(cache_entries_of(self.stored().take(0)) =~= Seq::<(Seq<char>, i64)>::empty());
        }
        while i < self.by_key.len()
            invariant
                i <= self.by_key@.len(),
                self.stored() == self.by_key@,
                sorted_by_id(out@.map_values(|e: RuntimeRequireCacheEntry| e@)),
                out@.map_values(|e: RuntimeRequireCacheEntry| e@).to_multiset() == cache_entries_of(
                    self.stored().take(i as int),
                ).to_multiset(),
            decreases self.by_key.len() - i,
        {
            proof {
                assert(self.stored().take(i + 1).drop_last() =~= self.stored().take(i as int));
            }
            let ghost before = out@.map_values(|e: RuntimeRequireCacheEntry| e@);
            if let Some(entry) = Self::require_cache_entry(&self.by_key[i].0, &self.by_key[i].1) {
                let mut k: usize = 0;
                while k < out.len() && entry_le(&out[k], &entry)
                    invariant
                        k <= out@.len(),
                        before == out@.map_values(|e: RuntimeRequireCacheEntry| e@),
                        forall|t: int| 0 <= t < k ==> lex_le(id_bytes(#[trigger] before[t]), id_bytes(entry@)),
                    decreases out@.len() - k,
                {
                    k += 1;
                }
                let ghost x = entry@;
                proof {
                    if k < out@.len() {
                        lemma_lex_total(id_bytes(before[k as int]), id_bytes(x));
                    }
                    before.insert_ensures(k as int, x);
                    let after = before.insert(k as int, x);
                    assert forall|a: int, b: int| 0 <= a < b < after.len() implies lex_le(
                        id_bytes(#[trigger] after[a]),
                        id_bytes(#[trigger] after[b]),
                    ) by {
                        if b < k {
                        } else if b == k {
                        } else if a < k {
                            assert(after[b] == before[b - 1]);
                            lemma_lex_trans(id_bytes(before[a]), id_bytes(x), id_bytes(before[k as int]));
                            if b - 1 > k {
                                lemma_lex_trans(id_bytes(before[a]), id_bytes(before[k as int]), id_bytes(before[b - 1]));
                            }
                        } else if a == k {
                            assert(after[b] == before[b - 1]);
                            if b - 1 > k {
                                lemma_lex_trans(id_bytes(x), id_bytes(before[k as int]), id_bytes(before[b - 1]));
                            }
                        } else {
                            assert(after[a] == before[a - 1]);
                            assert(after[b] == before[b - 1]);
                        }
                    }
                    vstd::seq_lib::to_multiset_insert(before, k as int, x);
                }
                out.insert(k, entry);
                proof {
                    assert(out@.map_values(|e: RuntimeRequireCacheEntry| e@) =~= before.insert(k as int, x));
                    vstd::seq_lib::to_multiset_build(cache_entries_of(self.stored().take(i as int)), x);
                }
            }
            i += 1;
        }
        proof {
            assert(self.stored().take(self.stored().len() as int) =~= self.stored());
        }
        out
    }

    /// Deletes the `require.cache` record with id `cache_id` (the first
    /// module carrying that id) as `delete_cache_entry` does; an unknown id
    /// deletes nothing and answers `true`.
    pub fn delete_cache_entry_by_id(&mut self, cache_id: &str) -> (r: bool)
        ensures
            final(self)@.wf(),
            (forall|i: int| 0 <= i < old(self).stored().len() ==> spec_cache_id((#[trigger] old(self).stored()[i]).0)
                != Some(cache_id@)) ==> r && final(self)@ == old(self)@,
            (exists|i: int| 0 <= i < old(self).stored().len() && spec_cache_id((#[trigger] old(self).stored()[i]).0)
                == Some(cache_id@)) ==> exists|i: int|
                0 <= i < old(self).stored().len() && spec_cache_id((#[trigger] old(self).stored()[i]).0) == Some(
                    cache_id@,
                ) && (forall|j: int| 0 <= j < i ==> spec_cache_id(old(self).stored()[j].0) != Some(cache_id@)) && (
                final(self)@, r) == spec_delete(old(self)@, old(self).stored()[i].0@),
    {
        proof {
            use_type_invariant(&*self);
        }
        let mut i: usize = 0;
        let mut found: Option<RuntimeModuleKey> = None;
        while i < self.by_key.len()
            invariant_except_break
                i <= self.by_key@.len(),
                self.stored() == self.by_key@,
                self@.entries == entry_views(self.by_key@),
                forall|j: int| 0 <= j < i ==> spec_cache_id((#[trigger] self.stored()[j]).0) != Some(cache_id@),
                found.is_none(),
            ensures
                found matches Some(k) ==> i < self.stored().len() && self.stored()[i as int].0@ == k@ && spec_cache_id(
                    self.stored()[i as int].0,
                ) == Some(cache_id@) && forall|j: int|
                    0 <= j < i ==> spec_cache_id((#[trigger] self.stored()[j]).0) != Some(cache_id@),
                found.is_none() ==> forall|j: int|
                    0 <= j < self.stored().len() ==> spec_cache_id((#[trigger] self.stored()[j]).0) != Some(cache_id@),
            decreases self.by_key.len() - i,
        {
            if require_cache_id_matches_key(cache_id, &self.by_key[i].0) {
                found = Some(self.by_key[i].0.duplicate());
                break;
            }
            i += 1;
        }
        match found {
            None => true,
            Some(key) => {
                let ghost at = i as int;
                let r = self.delete_cache_entry(&key);
                proof {
                    assert(spec_cache_id(old(self).stored()[at].0) == Some(cache_id@));
                }
                r
            },
        }
    }
}

/// Entry `e` is a `require.cache` record with id `id`.
pub open spec fn cache_match(e: (RuntimeModuleKey, RuntimeModuleState), id: Seq<char>) -> bool {
    spec_cache_id(e.0) == Some(id) && spec_cache_entry(e.0, e.1).is_some()
}

// ---------------------------------------------------------------------------
// Laws

/// After a module finishes loading (or erroring), `require` and `import`
/// of its key see exactly that outcome, and its module id names it.
pub proof fn law_finish_is_observed(v: RegistryView, k: KeyView, module_id: Option<u32>, st: RuntimeModuleState)
    requires
        v.wf(),
    ensures
        spec_finish(v, k, module_id, st).wf(),
        spec_finish(v, k, module_id, st).state_of(k) == Some(st),
        spec_require_result(spec_finish(v, k, module_id, st).state_of(k)) == spec_require_result(Some(st)),
        spec_import_result(spec_finish(v, k, module_id, st).state_of(k)) == spec_import_result(Some(st)),
        module_id matches Some(id) ==> spec_finish(v, k, module_id, st).key_of_module_id(id) == Some(k),
{
    let v0 = match module_id {
        Some(id) => if spec_key_for_module_id(id) != k {
            RegistryView { entries: assoc_remove(v.entries, spec_key_for_module_id(id)), ..v }
        } else {
            v
        },
        None => v,
    };
    if let Some(id) = module_id {
        if spec_key_for_module_id(id) != k {
            lemma_filter_unique(v.entries, key_differs::<KeyView, RuntimeModuleState>(spec_key_for_module_id(id)));
        }
        lemma_assoc_set(v0.module_ids, id, k);
    }
    lemma_assoc_set(v0.entries, k, st);
}

/// What `import` and `require` give for a key follows the key's last
/// outcome: a module that failed rethrows its error to both, a loaded one
/// gives `import` its namespace and `require` its module and exports, a
/// module still loading is missing for `import` and hands its partial
/// exports to `require`, and a key the registry never saw is missing.
pub proof fn law_import_and_require_follow_the_outcome(
    v: RegistryView,
    k: KeyView,
    module_id: Option<u32>,
    module_object: i64,
    exports_object: i64,
    namespace_object: i64,
    error_value: i64,
)
    requires
        v.wf(),
    ensures
        ({
            let w = spec_finish(v, k, module_id, RuntimeModuleState::Errored { error_value });
            &&& spec_import_result(w.state_of(k)) == RuntimeModuleImportResult::Errored(error_value)
            &&& spec_require_result(w.state_of(k)) == RuntimeModuleRequireResult::Errored(error_value)
        }),
        ({
            let w = spec_finish(
                v,
                k,
                module_id,
                RuntimeModuleState::Loaded { module_object, exports_object, namespace_object },
            );
            &&& spec_import_result(w.state_of(k)) == RuntimeModuleImportResult::Namespace(namespace_object)
            &&& spec_require_result(w.state_of(k)) == (RuntimeModuleRequireResult::LoadedModule {
                module_object,
                exports_object,
            })
        }),
        ({
            let w = spec_begin_loading(v, k, module_id, module_object, exports_object);
            &&& spec_import_result(w.state_of(k)) == RuntimeModuleImportResult::Missing
            &&& spec_require_result(w.state_of(k)) == RuntimeModuleRequireResult::Exports(exports_object)
        }),
        v.state_of(k) is None ==> spec_import_result(v.state_of(k)) == RuntimeModuleImportResult::Missing
            && spec_require_result(v.state_of(k)) == RuntimeModuleRequireResult::Missing,
{
    law_finish_is_observed(v, k, module_id, RuntimeModuleState::Errored { error_value });
    law_finish_is_observed(
        v,
        k,
        module_id,
        RuntimeModuleState::Loaded { module_object, exports_object, namespace_object },
    );
    law_loading_is_observed(v, k, module_id, module_object, exports_object);
    if let Some(id) = module_id {
        lemma_assoc_set(v.module_ids, id, k);
    }
    let v1 = match module_id {
        Some(id) => RegistryView { module_ids: assoc_set(v.module_ids, id, k), ..v },
        None => v,
    };
    lemma_assoc_set(v1.entries, k, RuntimeModuleState::Loading { module_object, exports_object });
}

/// How keys behave: only file and JSON modules can leave `require.cache`;
/// a module id at or above the runtime base names a runtime-compiled module
/// and any other a precompiled one; the cache id of a file or JSON module is
/// its path and that of a builtin its specifier, while module-id keys have
/// none; a module that failed has no cache record and one that is loading
/// or loaded is recorded with its module object; each state keeps its
/// objects alive; and `delete` refuses a loading module, and answers `true`
/// without a change for a builtin or an unknown key.
pub proof fn law_keys_records_and_roots(
    v: RegistryView,
    path: String,
    ps: PathId,
    specifier: String,
    id: u32,
    m: i64,
    x: i64,
    ns: i64,
    e: i64,
    k: KeyView,
)
    ensures
        spec_can_delete_from_require_cache(KeyView::File(ps)),
        spec_can_delete_from_require_cache(KeyView::Json(ps)),
        !spec_can_delete_from_require_cache(KeyView::Builtin(specifier@)),
        !spec_can_delete_from_require_cache(KeyView::PrecompiledModuleId(id)),
        !spec_can_delete_from_require_cache(KeyView::RuntimeModuleId(id)),
        id >= 0x4000_0000 ==> spec_key_for_module_id(id) == KeyView::RuntimeModuleId(id),
        id < 0x4000_0000 ==> spec_key_for_module_id(id) == KeyView::PrecompiledModuleId(id),
        spec_cache_id(RuntimeModuleKey::File(path)) == Some(path@),
        spec_cache_id(RuntimeModuleKey::Json(path)) == Some(path@),
        spec_cache_id(RuntimeModuleKey::Builtin(specifier)) == Some(specifier@),
        spec_cache_id(RuntimeModuleKey::PrecompiledModuleId(id)) is None,
        spec_cache_id(RuntimeModuleKey::RuntimeModuleId(id)) is None,
        spec_cache_entry(RuntimeModuleKey::File(path), RuntimeModuleState::Errored { error_value: e }) is None,
        spec_cache_entry(RuntimeModuleKey::File(path), RuntimeModuleState::Loading { module_object: m, exports_object: x })
            == Some((path@, m)),
        spec_cache_entry(
            RuntimeModuleKey::Builtin(specifier),
            RuntimeModuleState::Loaded { module_object: m, exports_object: x, namespace_object: ns },
        ) == Some((specifier@, m)),
        spec_cache_entry(
            RuntimeModuleKey::RuntimeModuleId(id),
            RuntimeModuleState::Loaded { module_object: m, exports_object: x, namespace_object: ns },
        ) is None,
        state_roots(RuntimeModuleState::Loading { module_object: m, exports_object: x }) == seq![m, x],
        state_roots(RuntimeModuleState::Loaded { module_object: m, exports_object: x, namespace_object: ns })
            == seq![m, x, ns],
        state_roots(RuntimeModuleState::Errored { error_value: e }) == seq![e],
        v.state_of(k) matches Some(RuntimeModuleState::Loading { .. }) ==> spec_delete(v, k) == (v, false),
        v.state_of(k) is None ==> spec_delete(v, k) == (v, true),
        !(v.state_of(KeyView::Builtin(specifier@)) matches Some(RuntimeModuleState::Loading { .. }))
            ==> spec_delete(v, KeyView::Builtin(specifier@)) == (v, true),
{
}

/// A module being loaded hands its partial exports to a circular
/// `require`, and cannot be deleted from `require.cache`.
pub proof fn law_loading_is_observed(
    v: RegistryView,
    k: KeyView,
    module_id: Option<u32>,
    module_object: i64,
    exports_object: i64,
)
    requires
        v.wf(),
    ensures
        ({
            let w = spec_begin_loading(v, k, module_id, module_object, exports_object);
            &&& w.wf()
            &&& spec_require_result(w.state_of(k)) == RuntimeModuleRequireResult::Exports(exports_object)
            &&& spec_delete(w, k) == (w, false)
        }),
{
    if let Some(id) = module_id {
        lemma_assoc_set(v.module_ids, id, k);
    }
    let v1 = match module_id {
        Some(id) => RegistryView { module_ids: assoc_set(v.module_ids, id, k), ..v },
        None => v,
    };
    lemma_assoc_set(v1.entries, k, RuntimeModuleState::Loading { module_object, exports_object });
}

/// Deleting a loaded or errored file or JSON module makes `require` miss it
/// and forgets every module id that named it; other keys keep their state.
pub proof fn law_delete_forgets(v: RegistryView, k: KeyView, other: KeyView, id: u32)
    requires
        v.wf(),
        spec_can_delete_from_require_cache(k),
        v.state_of(k).is_some(),
        !(v.state_of(k) matches Some(RuntimeModuleState::Loading { .. })),
        other != k,
    ensures
        spec_delete(v, k).1,
        spec_delete(v, k).0.wf(),
        spec_delete(v, k).0.state_of(k).is_none(),
        spec_require_result(spec_delete(v, k).0.state_of(k)) == RuntimeModuleRequireResult::Missing,
        spec_delete(v, k).0.state_of(other) == v.state_of(other),
        spec_delete(v, k).0.key_of_module_id(id) != Some(k),
{
    lemma_filter_unique(v.entries, key_differs::<KeyView, RuntimeModuleState>(k));
    lemma_filter_unique(v.module_ids, maps_elsewhere(k));
}

/// `reserve_runtime_module_id_range(count)`: the new registry and the
/// first reserved id, or nothing reserved when the id space would overflow.
pub open spec fn spec_reserve(v: RegistryView, count: u32) -> (RegistryView, Option<u32>) {
    if v.next_runtime_module_id + count <= u32::MAX {
        (
            RegistryView { next_runtime_module_id: (v.next_runtime_module_id + count) as u32, ..v },
            Some(v.next_runtime_module_id),
        )
    } else {
        (v, None)
    }
}

/// Runtime module id ranges never overlap: of two consecutive successful
/// reservations, the second starts where the first ends, so no id is handed
/// out twice.
pub proof fn law_reservations_are_disjoint(v: RegistryView, first: u32, second: u32, id: int)
    ensures
        ({
            let (v1, r1) = spec_reserve(v, first);
            let (v2, r2) = spec_reserve(v1, second);
            r1 is Some && r2 is Some ==> r2->0 == r1->0 + first && !(r1->0 <= id < r1->0 + first && r2->0 <= id
                < r2->0 + second)
        }),
{
}

/// Reservations of `counts` in turn, from `v`: the final registry and each
/// reservation's first id.
pub open spec fn reserve_run(v: RegistryView, counts: Seq<u32>) -> (RegistryView, Seq<Option<u32>>)
    decreases counts.len(),
{
    if counts.len() == 0 {
        (v, Seq::empty())
    } else {
        let (v1, rs) = reserve_run(v, counts.drop_last());
        let (v2, r) = spec_reserve(v1, counts.last());
        (v2, rs.push(r))
    }
}

/// Over any number of reservations from a registry whose next runtime id
/// is at least `RUNTIME_MODULE_ID_BASE` (as `new` makes it), every id handed
/// out is at least that base, each range lies below the next id, and no two
/// ranges overlap.
pub proof fn law_runtime_ranges_disjoint_and_high(v: RegistryView, counts: Seq<u32>)
    requires
        v.next_runtime_module_id >= RUNTIME_MODULE_ID_BASE,
    ensures
        ({
            let (vf, rs) = reserve_run(v, counts);
            &&& rs.len() == counts.len()
            &&& vf.next_runtime_module_id >= v.next_runtime_module_id
            &&& forall|i: int|
                0 <= i < rs.len() && #[trigger] rs[i] is Some ==> rs[i]->0 >= RUNTIME_MODULE_ID_BASE && rs[i]->0
                    + counts[i] <= vf.next_runtime_module_id
            &&& forall|i: int, j: int|
                0 <= i < j < rs.len() && #[trigger] rs[i] is Some && #[trigger] rs[j] is Some ==> rs[i]->0
                    + counts[i] <= rs[j]->0
        }),
    decreases counts.len(),
{
    if counts.len() > 0 {
        law_runtime_ranges_disjoint_and_high(v, counts.drop_last());
        let (v1, rs) = reserve_run(v, counts.drop_last());
        let (v2, r) = spec_reserve(v1, counts.last());
        let (vf, rsf) = reserve_run(v, counts);
        assert(rsf == rs.push(r));
        assert forall|i: int|
            0 <= i < rsf.len() && #[trigger] rsf[i] is Some implies rsf[i]->0 >= RUNTIME_MODULE_ID_BASE && rsf[i]->0
                + counts[i] <= vf.next_runtime_module_id by {
            if i < rs.len() {
                assert(rsf[i] == rs[i]);
                assert(counts.drop_last()[i] == counts[i]);
            }
        }
        assert forall|i: int, j: int|
            0 <= i < j < rsf.len() && #[trigger] rsf[i] is Some && #[trigger] rsf[j] is Some implies rsf[i]->0
                + counts[i] <= rsf[j]->0 by {
            assert(rsf[i] == rs[i]);
            assert(counts.drop_last()[i] == counts[i]);
            if j < rs.len() {
                assert(rsf[j] == rs[j]);
                assert(rs[i] is Some && rs[j] is Some);
            } else {
                assert(rs[i] is Some);
            }
        }
    }
}

} // verus!
