use vstd::prelude::*;
use slotmap::{DefaultKey, SlotMap};
use crate::builtins::exceptions::RuntimeError;
use crate::object::SoxObject;
use crate::table::{find_entry, position};

verus! {

/// `slotmap::DefaultKey`, the key under which a slot map holds a value. The
/// verifier takes a key as a value without parts.
#[verifier::external_type_specification]
#[verifier::external_body]
pub struct ExDefaultKey(DefaultKey);

/// The name of a binding, the number of frames to climb, and the index in the
/// frame reached.
pub type EnvKey = (String, usize, usize);

/// The key of a frame.
pub type EnvRef = DefaultKey;

/// One frame: the bindings of one scope, in the order in which they were
/// defined, the frame around it, and whether a function value has captured it.
#[derive(Debug)]
pub struct Namespace<'a> {
    pub bindings: Vec<(String, SoxObject<'a>)>,
    pub parent: Option<DefaultKey>,
    pub captured: bool,
}

/// The frames, in a `slotmap::SlotMap`.
///
/// The verifier does not look inside: what the store holds is `frames_of`,
/// and the functions below say what the slot map's methods do to it.
#[verifier::external_body]
pub struct FrameStore<'a> {
    map: SlotMap<DefaultKey, Namespace<'a>>,
}

/// The frames that a store holds, by key.
pub uninterp spec fn frames_of(store: FrameStore<'_>) -> Map<DefaultKey, Namespace<'_>>;

/// The most frames a store takes.
pub const MAX_FRAMES: usize = 0xffff_fffe;

/// `SlotMap::new`: a store without frames.
#[verifier::external_body]
fn store_new<'a>() -> (r: FrameStore<'a>)
    ensures
        frames_of(r).dom() == Set::<DefaultKey>::empty(),
{
    FrameStore { map: SlotMap::new() }
}

/// `SlotMap::len`: the number of frames held.
#[verifier::external_body]
fn store_len(store: &FrameStore) -> (n: usize)
    ensures
        n == frames_of(*store).dom().len(),
{
    store.map.len()
}

/// `SlotMap::insert`: the frame is added under a key that the store did not
/// hold. The call panics on a full store, which `requires` leaves out.
#[verifier::external_body]
fn store_insert<'a>(store: &mut FrameStore<'a>, ns: Namespace<'a>) -> (k: DefaultKey)
    requires
        frames_of(*old(store)).dom().len() < MAX_FRAMES,
    ensures
        !frames_of(*old(store)).dom().contains(k),
        frames_of(*final(store)) == frames_of(*old(store)).insert(k, ns),
{
    store.map.insert(ns)
}

/// `SlotMap::get`: the frame under the key, if the store holds the key.
#[verifier::external_body]
fn store_get<'b, 'a>(store: &'b FrameStore<'a>, k: DefaultKey) -> (r: Option<&'b Namespace<'a>>)
    ensures
        r == (if frames_of(*store).dom().contains(k) {
            Some(&frames_of(*store)[k])
        } else {
            None
        }),
{
    store.map.get(k)
}

/// `SlotMap::get_mut`: the frame under the key, to be changed in place; no
/// other frame changes.
#[verifier::external_body]
fn store_get_mut<'b, 'a>(store: &'b mut FrameStore<'a>, k: DefaultKey) -> (r: Option<
    &'b mut Namespace<'a>,
>)
    ensures
        match r {
            Some(ns) => {
                &&& frames_of(*old(store)).dom().contains(k)
                &&& *ns == frames_of(*old(store))[k]
                &&& frames_of(*final(store)) == frames_of(*old(store)).insert(k, *final(ns))
            },
            None => {
                &&& !frames_of(*old(store)).dom().contains(k)
                &&& frames_of(*final(store)) == frames_of(*old(store))
            },
        },
{
    store.map.get_mut(k)
}

/// `SlotMap::remove`: the frame under the key leaves the store and is
/// returned, if the store holds the key.
#[verifier::external_body]
fn store_remove<'a>(store: &mut FrameStore<'a>, k: DefaultKey) -> (r: Option<Namespace<'a>>)
    ensures
        frames_of(*final(store)) == frames_of(*old(store)).remove(k),
        r == (if frames_of(*old(store)).dom().contains(k) {
            Some(frames_of(*old(store))[k])
        } else {
            None
        }),
{
    store.map.remove(k)
}

/// `==` on `DefaultKey`: whether two keys are the same key.
#[verifier::external_body]
pub(crate) fn same_key(a: DefaultKey, b: DefaultKey) -> (r: bool)
    ensures
        r == (a == b),
{
    a == b
}

/// The message for a name without a binding.
pub open spec fn name_error_text(name: Seq<char>) -> Seq<char> {
    "NameError: name '"@ + name + "' is not defined"@
}

/// The error for a name without a binding.
pub fn name_error(name: &String) -> (r: RuntimeError)
    ensures
        r.msg@ == name_error_text(name@),
{
    let mut msg = String::from_str("NameError: name '");
    msg.append(name.as_str());
    msg.append("' is not defined");
    RuntimeError { msg }
}

/// The frame reached from `start` over exactly `hops` parent links, if `start`
/// and every frame on the way are held.
pub open spec fn ancestor(
    frames: Map<DefaultKey, Namespace<'_>>,
    start: DefaultKey,
    hops: nat,
) -> Option<DefaultKey>
    decreases hops,
{
    if !frames.dom().contains(start) {
        None
    } else if hops == 0 {
        Some(start)
    } else {
        match frames[start].parent {
            Some(p) => ancestor(frames, p, (hops - 1) as nat),
            None => None,
        }
    }
}

/// The first frame with a binding of the name, and the binding's index, on the
/// way from `start` towards the root, looking at no more than `fuel` frames.
pub open spec fn find_up(
    frames: Map<DefaultKey, Namespace<'_>>,
    start: DefaultKey,
    name: Seq<char>,
    fuel: nat,
) -> Option<(DefaultKey, int)>
    decreases fuel,
{
    if fuel == 0 || !frames.dom().contains(start) {
        None
    } else {
        match position(frames[start].bindings@, name, 0) {
            Some(i) => Some((start, i)),
            None => match frames[start].parent {
                Some(p) => find_up(frames, p, name, (fuel - 1) as nat),
                None => None,
            },
        }
    }
}

impl<'a> Namespace<'a> {
    /// A frame without bindings and without a frame around it.
    pub fn new() -> (r: Self)
        ensures
            r.bindings@.len() == 0,
            r.parent is None,
            !r.captured,
    {
        Namespace { bindings: Vec::new(), parent: None, captured: false }
    }

    /// The frame is `before` with one binding more, at the end.
    pub open spec fn extends(self, before: Self, key: String, value: SoxObject<'a>) -> bool {
        &&& self.bindings@ == before.bindings@.push((key, value))
        &&& self.parent == before.parent
        &&& self.captured == before.captured
    }

    /// The frame is `before` with the value at `index` replaced.
    pub open spec fn updates(self, before: Self, index: int, value: SoxObject<'a>) -> bool {
        &&& 0 <= index < before.bindings@.len()
        &&& self.bindings@ == before.bindings@.update(index, (before.bindings@[index].0, value))
        &&& self.parent == before.parent
        &&& self.captured == before.captured
    }

    /// Appends a binding.
    pub fn define(&mut self, key: String, value: SoxObject<'a>)
        ensures
            final(self).extends(*old(self), key, value),
    {
        self.bindings.push((key, value));
    }

    /// Replaces the value of the binding at the key's index. A frame with no
    /// binding at that index gives a name error and stays as it is.
    pub fn assign(&mut self, key: &EnvKey, value: SoxObject<'a>) -> (r: Result<(), RuntimeError>)
        ensures
            key.2 < old(self).bindings@.len() ==> r is Ok && final(self).updates(
                *old(self),
                key.2 as int,
                value,
            ),
            key.2 >= old(self).bindings@.len() ==> *final(self) == *old(self) && r is Err
                && r->Err_0.msg@ == name_error_text(key.0@),
    {
        let idx = key.2;
        if idx < self.bindings.len() {
            let name = self.bindings[idx].0.clone();
            self.bindings.set(idx, (name, value));
            Ok(())
        } else {
            Err(name_error(&key.0))
        }
    }

    /// The value of the binding at the key's index; a name error where the
    /// frame has no binding at that index.
    pub fn get(&self, key: &EnvKey) -> (r: Result<SoxObject<'a>, RuntimeError>)
        ensures
            key.2 < self.bindings@.len() ==> r == Ok::<SoxObject<'a>, RuntimeError>(
                self.bindings@[key.2 as int].1,
            ),
            key.2 >= self.bindings@.len() ==> r is Err && r->Err_0.msg@ == name_error_text(key.0@),
    {
        let idx = key.2;
        if idx < self.bindings.len() {
            Ok(self.bindings[idx].1.clone())
        } else {
            Err(name_error(&key.0))
        }
    }
}

/// The frames of a running program: a tree, whose root is the global frame.
pub struct Environment<'a> {
    pub envs: FrameStore<'a>,
    pub active: DefaultKey,
    pub global: DefaultKey,
}

impl<'a> Environment<'a> {
    /// The frames held, by key.
    pub open spec fn frames(&self) -> Map<DefaultKey, Namespace<'a>> {
        frames_of(self.envs)
    }

    /// The same frames are held as in `before`, and all but the one under `k`
    /// are as they were; the active and the global frame are the same.
    pub open spec fn changed_only(&self, before: &Self, k: DefaultKey) -> bool {
        &&& self.active == before.active
        &&& self.global == before.global
        &&& self.frames_changed_only(before, k)
    }

    /// The same frames are held as in `before`, and all but the one under `k`
    /// are as they were.
    pub open spec fn frames_changed_only(&self, before: &Self, k: DefaultKey) -> bool {
        &&& self.frames().dom() == before.frames().dom()
        &&& forall|j: DefaultKey|
            j != k && before.frames().dom().contains(j) ==> #[trigger] self.frames()[j]
                == before.frames()[j]
    }

    /// The store holds finitely many frames.
    pub open spec fn finite(&self) -> bool {
        self.frames().dom().finite()
    }

    /// Every frame that `before` holds as captured is still held, and still
    /// captured.
    pub open spec fn keeps_captured(&self, before: &Self) -> bool {
        forall|k: DefaultKey|
            before.frames().dom().contains(k) && (#[trigger] before.frames()[k]).captured
                ==> self.frames().dom().contains(k) && self.frames()[k].captured
    }

    /// Nothing changed since `before`.
    pub open spec fn unchanged(&self, before: &Self) -> bool {
        &&& self.active == before.active
        &&& self.global == before.global
        &&& self.frames() == before.frames()
    }

    /// One frame was added under `k`, and nothing else changed but, perhaps,
    /// which frame is active.
    pub open spec fn added_only(&self, before: &Self, k: DefaultKey) -> bool {
        &&& self.global == before.global
        &&& !before.frames().dom().contains(k)
        &&& self.frames().dom() == before.frames().dom().insert(k)
        &&& forall|j: DefaultKey|
            before.frames().dom().contains(j) ==> #[trigger] self.frames()[j] == before.frames()[j]
    }

    /// One frame, the global one, which is active.
    pub fn new() -> (r: Self)
        ensures
            r.finite(),
            r.active == r.global,
            r.frames().dom() == set![r.global],
            r.frames()[r.global].bindings@.len() == 0,
            r.frames()[r.global].parent is None,
    {
        let mut envs = store_new();
        let global = store_insert(&mut envs, Namespace::new());
        let r = Environment { envs, active: global, global };
        assert(r.frames().dom() =~= set![r.global]);
        r
    }

    /// The store takes no more frames.
    pub open spec fn full(&self) -> bool {
        self.frames().dom().len() >= MAX_FRAMES
    }

    /// The number of frames held.
    pub fn frame_count(&self) -> (r: usize)
        ensures
            r == self.frames().dom().len(),
    {
        store_len(&self.envs)
    }

    /// Whether the store takes no more frames.
    pub fn is_full(&self) -> (r: bool)
        ensures
            r == self.full(),
    {
        store_len(&self.envs) >= MAX_FRAMES
    }

    /// Adds the frame to the store, under a new key, which is returned; `None`
    /// and no change where the store is full.
    pub fn stack_new_env(&mut self, ns: Namespace<'a>) -> (r: Option<DefaultKey>)
        ensures
            old(self).finite() ==> final(self).finite(),
            final(self).keeps_captured(old(self)),
            final(self).active == old(self).active,
            match r {
                Some(k) => {
                    &&& !old(self).full()
                    &&& final(self).added_only(old(self), k)
                    &&& final(self).frames()[k] == ns
                },
                None => old(self).full() && final(self).unchanged(old(self)),
            },
    {
        if store_len(&self.envs) >= MAX_FRAMES {
            None
        } else {
            let k = store_insert(&mut self.envs, ns);
            Some(k)
        }
    }

    /// Adds an empty frame around which `enclosing_env_ref` stands. The new
    /// frame does not become active.
    pub fn new_local_env_at(&mut self, enclosing_env_ref: DefaultKey) -> (r: Option<DefaultKey>)
        ensures
            old(self).finite() ==> final(self).finite(),
            final(self).keeps_captured(old(self)),
            final(self).active == old(self).active,
            match r {
                Some(k) => {
                    &&& !old(self).full()
                    &&& final(self).added_only(old(self), k)
                    &&& final(self).frames()[k].bindings@.len() == 0
                    &&& final(self).frames()[k].parent == Some(enclosing_env_ref)
                    &&& !final(self).frames()[k].captured
                },
                None => old(self).full() && final(self).unchanged(old(self)),
            },
    {
        let ns = Namespace {
            bindings: Vec::new(),
            parent: Some(enclosing_env_ref),
            captured: false,
        };
        self.stack_new_env(ns)
    }

    /// Enters a scope: adds an empty frame inside the active one and makes it
    /// the active frame.
    pub fn new_local_env(&mut self) -> (r: Option<DefaultKey>)
        ensures
            old(self).finite() ==> final(self).finite(),
            final(self).keeps_captured(old(self)),
            match r {
                Some(k) => {
                    &&& !old(self).full()
                    &&& final(self).added_only(old(self), k)
                    &&& final(self).active == k
                    &&& final(self).frames()[k].bindings@.len() == 0
                    &&& final(self).frames()[k].parent == Some(old(self).active)
                    &&& !final(self).frames()[k].captured
                },
                None => old(self).full() && final(self).unchanged(old(self)),
            },
    {
        let r = self.new_local_env_at(self.active);
        match r {
            Some(k) => {
                self.active = k;
            },
            None => {},
        }
        r
    }

    /// Adds an empty frame inside the active one without entering it.
    pub fn new_local_env_unused(&mut self) -> (r: Option<DefaultKey>)
        ensures
            old(self).finite() ==> final(self).finite(),
            final(self).keeps_captured(old(self)),
            final(self).active == old(self).active,
            match r {
                Some(k) => {
                    &&& !old(self).full()
                    &&& final(self).added_only(old(self), k)
                    &&& final(self).frames()[k].bindings@.len() == 0
                    &&& final(self).frames()[k].parent == Some(old(self).active)
                    &&& !final(self).frames()[k].captured
                },
                None => old(self).full() && final(self).unchanged(old(self)),
            },
    {
        self.new_local_env_at(self.active)
    }

    /// Appends a binding to the frame under `ns_ref`. Whether the store holds
    /// that frame is returned; where it does not, nothing changes.
    pub fn define_at(&mut self, key: String, value: SoxObject<'a>, ns_ref: DefaultKey) -> (r: bool)
        ensures
            old(self).finite() ==> final(self).finite(),
            final(self).keeps_captured(old(self)),
            r == old(self).frames().dom().contains(ns_ref),
            r ==> final(self).changed_only(old(self), ns_ref) && final(self).frames()[ns_ref].extends(
                old(self).frames()[ns_ref],
                key,
                value,
            ),
            !r ==> final(self).unchanged(old(self)),
    {
        let found = match store_get_mut(&mut self.envs, ns_ref) {
            Some(ns) => {
                ns.define(key, value);
                true
            },
            None => false,
        };
        proof {
            if found {
                assert(self.frames().dom() =~= old(self).frames().dom());
            }
        }
        found
    }

    /// Appends a binding to the active frame.
    pub fn define(&mut self, key: String, value: SoxObject<'a>) -> (r: bool)
        ensures
            old(self).finite() ==> final(self).finite(),
            final(self).keeps_captured(old(self)),
            r == old(self).frames().dom().contains(old(self).active),
            final(self).defines(old(self), key, value),
    {
        let active = self.active;
        self.define_at(key, value, active)
    }

    /// Marks the frame under `env` as captured by a function value. Whether
    /// the store holds that frame is returned.
    pub fn capture(&mut self, env: DefaultKey) -> (r: bool)
        ensures
            old(self).finite() ==> final(self).finite(),
            final(self).keeps_captured(old(self)),
            r == old(self).frames().dom().contains(env),
            r ==> final(self).changed_only(old(self), env) && final(self).frames()[env].captured
                && final(self).frames()[env].bindings == old(self).frames()[env].bindings
                && final(self).frames()[env].parent == old(self).frames()[env].parent,
            !r ==> final(self).unchanged(old(self)),
    {
        let found = match store_get_mut(&mut self.envs, env) {
            Some(ns) => {
                ns.captured = true;
                true
            },
            None => false,
        };
        proof {
            if found {
                assert(self.frames().dom() =~= old(self).frames().dom());
            }
        }
        found
    }

    /// What reading by coordinates gives: exactly as many parent links are
    /// followed from the active frame as the key's depth says, and the frame
    /// reached gives the value of its binding at the key's index. Where a
    /// frame on the way is missing, or the frame reached has no binding at
    /// that index, the result is a name error. No other frame is looked at.
    pub open spec fn reads(&self, key: EnvKey, r: Result<SoxObject<'a>, RuntimeError>) -> bool {
        match self.value_at(key.1, key.2) {
            Some(v) => r == Ok::<SoxObject<'a>, RuntimeError>(v),
            None => r is Err && r->Err_0.msg@ == name_error_text(key.0@),
        }
    }

    /// The value at the coordinates: that of the binding at `index` in the
    /// frame that lies exactly `depth` parent links from the active frame.
    pub open spec fn value_at(&self, depth: usize, index: usize) -> Option<SoxObject<'a>> {
        match ancestor(self.frames(), self.active, depth as nat) {
            Some(f) if index < self.frames()[f].bindings@.len() => Some(
                self.frames()[f].bindings@[index as int].1,
            ),
            _ => None,
        }
    }

    /// What defining a name in the active frame does: the frame has one more
    /// binding, at the end, and nothing else changes; without an active
    /// frame nothing changes at all.
    pub open spec fn defines(&self, before: &Self, key: String, value: SoxObject<'a>) -> bool {
        if before.frames().dom().contains(before.active) {
            &&& self.changed_only(before, before.active)
            &&& self.frames()[before.active].extends(before.frames()[before.active], key, value)
        } else {
            self.unchanged(before)
        }
    }

    /// What reading by name gives: the value of the first binding of the name
    /// in the global frame, and a name error where there is none.
    pub open spec fn reads_global(
        &self,
        name: Seq<char>,
        r: Result<SoxObject<'a>, RuntimeError>,
    ) -> bool {
        if self.frames().dom().contains(self.global) {
            match position(self.frames()[self.global].bindings@, name, 0) {
                Some(i) => r == Ok::<SoxObject<'a>, RuntimeError>(
                    self.frames()[self.global].bindings@[i].1,
                ),
                None => r is Err && r->Err_0.msg@ == name_error_text(name),
            }
        } else {
            r is Err && r->Err_0.msg@ == name_error_text(name)
        }
    }

    /// What assigning by coordinates does: the binding that `reads` finds
    /// gets the value, and nothing else changes; where `reads` finds none,
    /// the result is a name error and nothing changes.
    pub open spec fn writes(
        &self,
        before: &Self,
        key: EnvKey,
        value: SoxObject<'a>,
        r: Result<(), RuntimeError>,
    ) -> bool {
        match ancestor(before.frames(), before.active, key.1 as nat) {
            Some(f) if key.2 < before.frames()[f].bindings@.len() => {
                &&& r is Ok
                &&& self.changed_only(before, f)
                &&& self.frames()[f].updates(before.frames()[f], key.2 as int, value)
            },
            _ => r is Err && r->Err_0.msg@ == name_error_text(key.0@) && self.unchanged(before),
        }
    }

    /// What assigning by name does: the first binding of the name in the
    /// global frame gets the value, and nothing else changes; where there is
    /// none, the result is a name error and nothing changes.
    pub open spec fn writes_global(
        &self,
        before: &Self,
        name: Seq<char>,
        value: SoxObject<'a>,
        r: Result<(), RuntimeError>,
    ) -> bool {
        if before.frames().dom().contains(before.global) && position(
            before.frames()[before.global].bindings@,
            name,
            0,
        ) is Some {
            let i = position(before.frames()[before.global].bindings@, name, 0)->0;
            &&& r is Ok
            &&& self.changed_only(before, before.global)
            &&& self.frames()[before.global].updates(before.frames()[before.global], i, value)
        } else {
            r is Err && r->Err_0.msg@ == name_error_text(name) && self.unchanged(before)
        }
    }

    /// The value of the first binding of the name in the global frame; a name
    /// error where the global frame has none.
    pub fn get_from_global_scope(&self, key: &String) -> (r: Result<SoxObject<'a>, RuntimeError>)
        ensures
            self.reads_global(key@, r),
    {
        match store_get(&self.envs, self.global) {
            Some(ns) => match find_entry(&ns.bindings, key) {
                Some(i) => Ok(ns.bindings[i].1.clone()),
                None => Err(name_error(key)),
            },
            None => Err(name_error(key)),
        }
    }

    /// The frame that the key's depth leads to, from the active frame: exactly
    /// that many parent links are followed.
    pub fn frame_at(&self, depth: usize) -> (r: Option<DefaultKey>)
        ensures
            r == ancestor(self.frames(), self.active, depth as nat),
    {
        let mut cur = self.active;
        let mut dist: usize = 0;
        while dist < depth
            invariant
                dist <= depth,
                ancestor(self.frames(), self.active, depth as nat) == ancestor(
                    self.frames(),
                    cur,
                    (depth - dist) as nat,
                ),
            decreases depth - dist,
        {
            match store_get(&self.envs, cur) {
                Some(ns) => match ns.parent {
                    Some(p) => {
                        cur = p;
                    },
                    None => {
                        return None;
                    },
                },
                None => {
                    return None;
                },
            }
            dist += 1;
        }
        match store_get(&self.envs, cur) {
            Some(_) => Some(cur),
            None => None,
        }
    }

    /// The value that the key leads to: climb as many parent links from the
    /// active frame as the key's depth says, then take the binding at the
    /// key's index. A name error where a frame on the way, or the binding, is
    /// missing.
    pub fn get(&self, key: &EnvKey) -> (r: Result<SoxObject<'a>, RuntimeError>)
        ensures
            self.reads(*key, r),
    {
        match self.frame_at(key.1) {
            Some(f) => {
                proof {
                    lemma_ancestor_held(self.frames(), self.active, key.1 as nat);
                }
                match store_get(&self.envs, f) {
                    Some(ns) => ns.get(key),
                    None => Err(name_error(&key.0)),
                }
            },
            None => Err(name_error(&key.0)),
        }
    }

    /// Replaces the value that the key leads to, found as in `get`. A name
    /// error, and no change, where a frame on the way or the binding is
    /// missing.
    pub fn assign(&mut self, key: &EnvKey, value: SoxObject<'a>) -> (r: Result<(), RuntimeError>)
        ensures
            old(self).finite() ==> final(self).finite(),
            final(self).keeps_captured(old(self)),
            final(self).writes(old(self), *key, value, r),
    {
        match self.frame_at(key.1) {
            Some(f) => {
                proof {
                    lemma_ancestor_held(self.frames(), self.active, key.1 as nat);
                }
                let res = match store_get_mut(&mut self.envs, f) {
                    Some(ns) => ns.assign(key, value),
                    None => Err(name_error(&key.0)),
                };
                proof {
                    assert(self.frames().dom() =~= old(self).frames().dom());
                    if res is Err {
                        assert(self.frames() =~= old(self).frames());
                    }
                }
                res
            },
            None => Err(name_error(&key.0)),
        }
    }

    /// Replaces the value of the first binding of the name in the global
    /// frame; a name error, and no change, where the global frame has none.
    pub fn assign_in_global(&mut self, key: &String, value: SoxObject<'a>) -> (r: Result<
        (),
        RuntimeError,
    >)
        ensures
            old(self).finite() ==> final(self).finite(),
            final(self).keeps_captured(old(self)),
            final(self).writes_global(old(self), key@, value, r),
    {
        let global = self.global;
        let res = match store_get_mut(&mut self.envs, global) {
            Some(ns) => match find_entry(&ns.bindings, key) {
                Some(i) => {
                    let k: EnvKey = (key.clone(), 0, i);
                    let _ = ns.assign(&k, value);
                    Ok(())
                },
                None => Err(name_error(key)),
            },
            None => Err(name_error(key)),
        };
        proof {
            assert(self.frames().dom() =~= old(self).frames().dom());
            if res is Err {
                assert(self.frames() =~= old(self).frames());
            }
        }
        res
    }

    /// The frame and index of the first binding of the name on the way from
    /// the active frame to the root. No more frames are looked at than the
    /// store holds.
    pub fn locate(&self, key: &String) -> (r: Option<(DefaultKey, usize)>)
        ensures
            match r {
                Some((f, i)) => find_up(
                    self.frames(),
                    self.active,
                    key@,
                    self.frames().dom().len(),
                ) == Some((f, i as int)),
                None => find_up(self.frames(), self.active, key@, self.frames().dom().len())
                    is None,
            },
    {
        let n = store_len(&self.envs);
        let mut cur = self.active;
        let mut seen: usize = 0;
        while seen < n
            invariant
                seen <= n,
                n == self.frames().dom().len(),
                find_up(self.frames(), self.active, key@, n as nat) == find_up(
                    self.frames(),
                    cur,
                    key@,
                    (n - seen) as nat,
                ),
            decreases n - seen,
        {
            match store_get(&self.envs, cur) {
                Some(ns) => match find_entry(&ns.bindings, key) {
                    Some(i) => {
                        return Some((cur, i));
                    },
                    None => match ns.parent {
                        Some(p) => {
                            cur = p;
                        },
                        None => {
                            return None;
                        },
                    },
                },
                None => {
                    return None;
                },
            }
            seen += 1;
        }
        None
    }

    /// The value of the first binding of the name on the way from the active
    /// frame to the root; a name error where there is none.
    pub fn find_and_get(&self, key: &String) -> (r: Result<SoxObject<'a>, RuntimeError>)
        ensures
            match find_up(self.frames(), self.active, key@, self.frames().dom().len()) {
                Some((f, i)) => r == Ok::<SoxObject<'a>, RuntimeError>(
                    self.frames()[f].bindings@[i].1,
                ),
                None => r is Err && r->Err_0.msg@ == name_error_text(key@),
            },
    {
        match self.locate(key) {
            Some((f, i)) => {
                proof {
                    lemma_find_up_held(self.frames(), self.active, key@, self.frames().dom().len());
                }
                match store_get(&self.envs, f) {
                    Some(ns) => {
                        let k: EnvKey = (key.clone(), 0, i);
                        ns.get(&k)
                    },
                    None => Err(name_error(key)),
                }
            },
            None => Err(name_error(key)),
        }
    }

    /// Replaces the value of the first binding of the name on the way from the
    /// active frame to the root; a name error, and no change, where there is
    /// none.
    pub fn find_and_assign(&mut self, key: &String, value: SoxObject<'a>) -> (r: Result<
        (),
        RuntimeError,
    >)
        ensures
            old(self).finite() ==> final(self).finite(),
            final(self).keeps_captured(old(self)),
            match find_up(
                old(self).frames(),
                old(self).active,
                key@,
                old(self).frames().dom().len(),
            ) {
                Some((f, i)) => {
                    &&& r is Ok
                    &&& final(self).changed_only(old(self), f)
                    &&& final(self).frames()[f].updates(old(self).frames()[f], i, value)
                },
                None => r is Err && r->Err_0.msg@ == name_error_text(key@) && final(self).unchanged(
                    old(self),
                ),
            },
    {
        match self.locate(key) {
            Some((f, i)) => {
                proof {
                    lemma_find_up_held(self.frames(), self.active, key@, self.frames().dom().len());
                }
                let res = match store_get_mut(&mut self.envs, f) {
                    Some(ns) => {
                        let k: EnvKey = (key.clone(), 0, i);
                        ns.assign(&k, value)
                    },
                    None => Err(name_error(key)),
                };
                proof {
                    assert(self.frames().dom() =~= old(self).frames().dom());
                }
                res
            },
            None => Err(name_error(key)),
        }
    }

    /// Drops the frame under `k` from the store, unless it is the active or
    /// the global frame or a function value has captured it. Returns whether
    /// the frame was dropped.
    pub fn discard(&mut self, k: DefaultKey) -> (r: bool)
        ensures
            old(self).finite() ==> final(self).finite(),
            final(self).keeps_captured(old(self)),
            final(self).active == old(self).active,
            final(self).global == old(self).global,
            r == {
                &&& old(self).frames().dom().contains(k)
                &&& k != old(self).active
                &&& k != old(self).global
                &&& !old(self).frames()[k].captured
            },
            r ==> final(self).frames() == old(self).frames().remove(k),
            !r ==> final(self).frames() == old(self).frames(),
    {
        if same_key(k, self.active) || same_key(k, self.global) {
            return false;
        }
        let captured = match store_get(&self.envs, k) {
            Some(ns) => ns.captured,
            None => {
                return false;
            },
        };
        if captured {
            false
        } else {
            let _ = store_remove(&mut self.envs, k);
            true
        }
    }

    /// What leaving the frame under `frame` for the frame under `restore`
    /// gives: that frame is active. The frame left is dropped, unless a
    /// function value has captured it, in which case it stays and the frame
    /// around it, if it is held, is marked as captured too. The global frame
    /// is never dropped. No other frame changes.
    pub open spec fn leaves(&self, before: &Self, frame: DefaultKey, restore: DefaultKey) -> bool {
        let was = before.frames();
        &&& self.active == restore
        &&& self.global == before.global
        &&& if !was.dom().contains(frame) || frame == before.global {
            self.frames() == was
        } else if was[frame].captured {
            match was[frame].parent {
                Some(p) if was.dom().contains(p) => {
                    &&& self.frames_changed_only(before, p)
                    &&& self.frames()[p].captured
                    &&& self.frames()[p].bindings == was[p].bindings
                    &&& self.frames()[p].parent == was[p].parent
                },
                _ => self.frames() == was,
            }
        } else {
            self.frames() == was.remove(frame)
        }
    }

    /// Leaves the frame under `frame`: the frame under `restore` becomes
    /// active, and the frame left is dropped unless it is captured.
    pub fn leave(&mut self, frame: DefaultKey, restore: DefaultKey)
        ensures
            final(self).keeps_captured(old(self)),
            old(self).finite() ==> final(self).finite(),
            final(self).leaves(old(self), frame, restore),
    {
        self.active = restore;
        if same_key(frame, self.global) {
            return ;
        }
        let (parent, captured) = match store_get(&self.envs, frame) {
            Some(ns) => (ns.parent, ns.captured),
            None => {
                return ;
            },
        };
        if captured {
            match parent {
                Some(p) => {
                    let _ = self.capture(p);
                    proof {
                        if !old(self).frames().dom().contains(p) {
                            assert(self.frames() =~= old(self).frames());
                        }
                    }
                },
                None => {},
            }
        } else {
            let _ = store_remove(&mut self.envs, frame);
        }
    }

    /// The active frame has a frame around it, so that it can be left.
    pub open spec fn can_pop(&self) -> bool {
        self.frames().dom().contains(self.active) && self.frames()[self.active].parent is Some
    }

    /// What leaving the active frame of `before` gives. Without a frame
    /// around the active one, nothing changes. Else that frame is active; the
    /// frame left is dropped, unless a function value has captured it, in
    /// which case it stays and the frame around it is marked as captured too.
    /// Every captured frame stays.
    pub open spec fn left(&self, before: &Self) -> bool {
        &&& self.global == before.global
        &&& !before.can_pop() ==> self.unchanged(before)
        &&& before.can_pop() ==> {
            let gone = before.active;
            let p = before.frames()[gone].parent->0;
            &&& self.active == p
            &&& !before.frames()[gone].captured ==> self.frames() == before.frames().remove(gone)
            &&& before.frames()[gone].captured ==> {
                &&& self.frames_changed_only(before, p)
                &&& before.frames().dom().contains(p) ==> {
                    &&& self.frames()[p].captured
                    &&& self.frames()[p].bindings == before.frames()[p].bindings
                    &&& self.frames()[p].parent == before.frames()[p].parent
                }
            }
        }
        &&& forall|k: DefaultKey|
            before.frames().dom().contains(k) && (#[trigger] before.frames()[k]).captured
                ==> self.frames().dom().contains(k) && self.frames()[k].captured
    }

    /// Leaves the active frame: the frame around it becomes active. A frame
    /// that no function value has captured is dropped from the store. A
    /// captured frame stays, and marks the frame around it as captured, which
    /// must stay as well. Returns whether there was a frame to leave; the
    /// global frame is never left.
    pub fn pop(&mut self) -> (r: bool)
        ensures
            old(self).finite() ==> final(self).finite(),
            final(self).keeps_captured(old(self)),
            r == old(self).can_pop(),
            final(self).left(old(self)),
    {
        let active = self.active;
        let (parent, captured) = match store_get(&self.envs, active) {
            Some(ns) => (ns.parent, ns.captured),
            None => (None, false),
        };
        match parent {
            Some(p) => {
                self.active = p;
                if captured {
                    let _ = self.capture(p);
                } else {
                    let _ = store_remove(&mut self.envs, active);
                }
                true
            },
            None => false,
        }
    }
}

/// The frame that `ancestor` names is held.
pub proof fn lemma_ancestor_held(frames: Map<DefaultKey, Namespace<'_>>, start: DefaultKey, hops: nat)
    ensures
        ancestor(frames, start, hops) matches Some(f) ==> frames.dom().contains(f),
    decreases hops,
{
    if frames.dom().contains(start) && hops > 0 {
        match frames[start].parent {
            Some(p) => lemma_ancestor_held(frames, p, (hops - 1) as nat),
            None => {},
        }
    }
}

/// The frame that `find_up` names is held, and has a binding of the name at
/// the index given, and none before it.
pub proof fn lemma_find_up_held(
    frames: Map<DefaultKey, Namespace<'_>>,
    start: DefaultKey,
    name: Seq<char>,
    fuel: nat,
)
    ensures
        find_up(frames, start, name, fuel) matches Some((f, i)) ==> frames.dom().contains(f)
            && position(frames[f].bindings@, name, 0) == Some(i) && 0 <= i
            < frames[f].bindings@.len(),
    decreases fuel,
{
    if fuel > 0 && frames.dom().contains(start) {
        match position(frames[start].bindings@, name, 0) {
            Some(i) => {
                crate::table::lemma_position(frames[start].bindings@, name, 0);
            },
            None => match frames[start].parent {
                Some(p) => lemma_find_up_held(frames, p, name, (fuel - 1) as nat),
                None => {},
            },
        }
    }
}

} // verus!
