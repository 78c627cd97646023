use vstd::prelude::*;
use crate::components::{Component, ComponentView, IsComponent};

verus! {

/// A slot of the store, as the contracts see it: the component with that id,
/// or nothing once it was removed.
pub open spec fn slot_view(c: Option<Component>) -> Option<ComponentView> {
    match c {
        Some(x) => Some(x.view()),
        None => None,
    }
}

/// Whether `c` has type tag `tag` (when given) and owner `owner` (when given).
pub open spec fn selects(c: ComponentView, tag: Option<Seq<char>>, owner: Option<Seq<char>>) -> bool {
    &&& (tag matches Some(t) ==> c.tag == t)
    &&& (owner matches Some(o) ==> c.owner == o)
}

/// The ids below `n` of the live components that the query selects, ascending.
pub open spec fn select(
    cs: Seq<Option<ComponentView>>,
    n: nat,
    tag: Option<Seq<char>>,
    owner: Option<Seq<char>>,
) -> Seq<u16>
    decreases n,
{
    if n == 0 {
        Seq::empty()
    } else {
        let prev = select(cs, (n - 1) as nat, tag, owner);
        if cs[n - 1] is Some && selects(cs[n - 1]->Some_0, tag, owner) {
            prev.push((n - 1) as u16)
        } else {
            prev
        }
    }
}

/// All live components of type `t`, by ascending id.
pub open spec fn ids_of_type(cs: Seq<Option<ComponentView>>, t: Seq<char>) -> Seq<u16> {
    select(cs, cs.len(), Some(t), None)
}

/// All live components owned by `o`, by ascending id.
pub open spec fn ids_of_owner(cs: Seq<Option<ComponentView>>, o: Seq<char>) -> Seq<u16> {
    select(cs, cs.len(), None, Some(o))
}

/// All live components of type `t` owned by `o`, by ascending id.
pub open spec fn ids_of_owner_and_type(cs: Seq<Option<ComponentView>>, t: Seq<char>, o: Seq<char>) -> Seq<u16> {
    select(cs, cs.len(), Some(t), Some(o))
}

/// Whether the component with id `id` is live and owned by `o`.
pub open spec fn owned_by(cs: Seq<Option<ComponentView>>, id: u16, o: Seq<char>) -> bool {
    &&& (id as int) < cs.len()
    &&& cs[id as int] is Some
    &&& cs[id as int]->Some_0.owner == o
}

/// The ids of `s`, in order, whose component is owned by `o` (when `want`)
/// or is not (when `!want`).
pub open spec fn keep(cs: Seq<Option<ComponentView>>, s: Seq<u16>, o: Seq<char>, want: bool) -> Seq<u16>
    decreases s.len(),
{
    if s.len() == 0 {
        Seq::empty()
    } else {
        let prev = keep(cs, s.drop_last(), o, want);
        if owned_by(cs, s.last(), o) == want {
            prev.push(s.last())
        } else {
            prev
        }
    }
}

/// The store after every component owned by `o` is removed.
pub open spec fn without_owner(cs: Seq<Option<ComponentView>>, o: Seq<char>) -> Seq<Option<ComponentView>> {
    Seq::new(cs.len(), |i: int| if cs[i] is Some && cs[i]->Some_0.owner == o { None } else { cs[i] })
}

/// One bucket of a secondary index: the key and the ids filed under it.
pub struct IndexBucket {
    pub key: String,
    pub ids: Vec<u16>,
}

/// The query that a bucket of the type index (`by_type`) or of the owner
/// index (`!by_type`) answers.
pub open spec fn bucket_ids(cs: Seq<Option<ComponentView>>, key: Seq<char>, by_type: bool) -> Seq<u16> {
    if by_type {
        ids_of_type(cs, key)
    } else {
        ids_of_owner(cs, key)
    }
}

pub open spec fn has_key(buckets: Seq<IndexBucket>, key: Seq<char>) -> bool {
    exists|j: int| 0 <= j < buckets.len() && (#[trigger] buckets[j]).key@ == key
}

/// Every bucket holds exactly the ids that its key selects, and a key
/// without a bucket selects nothing.
pub open spec fn index_wf(buckets: Seq<IndexBucket>, cs: Seq<Option<ComponentView>>, by_type: bool) -> bool {
    &&& forall|j: int| 0 <= j < buckets.len() ==> (#[trigger] buckets[j]).ids@ == bucket_ids(cs, buckets[j].key@, by_type)
    &&& forall|key: Seq<char>| !has_key(buckets, key) ==> #[trigger] bucket_ids(cs, key, by_type) == Seq::<u16>::empty()
    &&& forall|j: int, k: int| 0 <= j < buckets.len() && 0 <= k < buckets.len() && j != k
        ==> (#[trigger] buckets[j]).key@ != (#[trigger] buckets[k]).key@
}

pub proof fn lemma_select_prefix(
    cs1: Seq<Option<ComponentView>>,
    cs2: Seq<Option<ComponentView>>,
    n: nat,
    tag: Option<Seq<char>>,
    owner: Option<Seq<char>>,
)
    requires
        n <= cs1.len(),
        n <= cs2.len(),
        forall|i: int| 0 <= i < n ==> cs1[i] == cs2[i],
    ensures
        select(cs1, n, tag, owner) == select(cs2, n, tag, owner),
    decreases n,
{
    if n > 0 {
        lemma_select_prefix(cs1, cs2, (n - 1) as nat, tag, owner);
    }
}

pub proof fn lemma_select_bounds(cs: Seq<Option<ComponentView>>, n: nat, tag: Option<Seq<char>>, owner: Option<Seq<char>>)
    requires
        n <= cs.len(),
        cs.len() <= u16::MAX + 1,
    ensures
        forall|k: int| 0 <= k < select(cs, n, tag, owner).len() ==> {
            let id = #[trigger] select(cs, n, tag, owner)[k];
            &&& (id as int) < n
            &&& cs[id as int] is Some
            &&& selects(cs[id as int]->Some_0, tag, owner)
        },
        forall|k1: int, k2: int| 0 <= k1 < k2 < select(cs, n, tag, owner).len() ==>
            select(cs, n, tag, owner)[k1] < select(cs, n, tag, owner)[k2],
    decreases n,
{
    if n > 0 {
        lemma_select_bounds(cs, (n - 1) as nat, tag, owner);
    }
}

/// An id is selected exactly when its component is live and matches.
pub proof fn lemma_select_contains(
    cs: Seq<Option<ComponentView>>,
    n: nat,
    tag: Option<Seq<char>>,
    owner: Option<Seq<char>>,
    id: u16,
)
    requires
        n <= cs.len(),
        cs.len() <= u16::MAX + 1,
    ensures
        select(cs, n, tag, owner).contains(id) <==> ((id as int) < n && cs[id as int] is Some && selects(
            cs[id as int]->Some_0,
            tag,
            owner,
        )),
    decreases n,
{
    if n > 0 {
        lemma_select_contains(cs, (n - 1) as nat, tag, owner, id);
        let prev = select(cs, (n - 1) as nat, tag, owner);
        if cs[n - 1] is Some && selects(cs[n - 1]->Some_0, tag, owner) {
            let p = prev.push((n - 1) as u16);
            assert(p.contains(id) <==> (prev.contains(id) || id == (n - 1) as u16)) by {
                if p.contains(id) {
                    let k = choose|k: int| 0 <= k < p.len() && #[trigger] p[k] == id;
                    if k < prev.len() {
                        assert(prev[k] == id);
                    }
                }
                if prev.contains(id) {
                    let k = choose|k: int| 0 <= k < prev.len() && #[trigger] prev[k] == id;
                    assert(p[k] == id);
                }
                if id == (n - 1) as u16 {
                    assert(p[prev.len() as int] == id);
                }
            }
        }
    }
}

/// Selecting in a store where `o`'s components are removed keeps exactly
/// the ids that `o` does not own.
pub proof fn lemma_select_without(
    cs: Seq<Option<ComponentView>>,
    n: nat,
    tag: Option<Seq<char>>,
    owner: Option<Seq<char>>,
    o: Seq<char>,
)
    requires
        n <= cs.len(),
        cs.len() <= u16::MAX + 1,
    ensures
        select(without_owner(cs, o), n, tag, owner) == keep(cs, select(cs, n, tag, owner), o, false),
    decreases n,
{
    if n > 0 {
        lemma_select_without(cs, (n - 1) as nat, tag, owner, o);
        let s = select(cs, (n - 1) as nat, tag, owner);
        let x = (n - 1) as u16;
        assert(s.push(x).drop_last() =~= s);
    }
}

/// Selecting depends on each slot's liveness, owner and type tag only.
pub proof fn lemma_select_same_keys(
    cs1: Seq<Option<ComponentView>>,
    cs2: Seq<Option<ComponentView>>,
    n: nat,
    tag: Option<Seq<char>>,
    owner: Option<Seq<char>>,
)
    requires
        n <= cs1.len(),
        n <= cs2.len(),
        forall|i: int| 0 <= i < n ==> (#[trigger] cs1[i] is Some) == cs2[i] is Some,
        forall|i: int| 0 <= i < n && cs1[i] is Some ==> (#[trigger] cs1[i]->Some_0.owner) == cs2[i]->Some_0.owner
            && cs1[i]->Some_0.tag == cs2[i]->Some_0.tag,
    ensures
        select(cs1, n, tag, owner) == select(cs2, n, tag, owner),
    decreases n,
{
    if n > 0 {
        lemma_select_same_keys(cs1, cs2, (n - 1) as nat, tag, owner);
        assert(cs1[n - 1] is Some == cs2[n - 1] is Some);
        if cs1[n - 1] is Some {
            assert(cs1[n - 1]->Some_0.owner == cs2[n - 1]->Some_0.owner);
            assert(selects(cs1[n - 1]->Some_0, tag, owner) == selects(cs2[n - 1]->Some_0, tag, owner));
        }
    }
}

/// Keeping the ids owned by `o` among those of type `t` selects the ids of
/// type `t` owned by `o`.
pub proof fn lemma_keep_owned_of_type(cs: Seq<Option<ComponentView>>, n: nat, t: Seq<char>, o: Seq<char>)
    requires
        n <= cs.len(),
        cs.len() <= u16::MAX + 1,
    ensures
        keep(cs, select(cs, n, Some(t), None), o, true) == select(cs, n, Some(t), Some(o)),
    decreases n,
{
    if n > 0 {
        lemma_keep_owned_of_type(cs, (n - 1) as nat, t, o);
        let s = select(cs, (n - 1) as nat, Some(t), None);
        let x = (n - 1) as u16;
        assert(s.push(x).drop_last() =~= s);
    }
}

/// The id that `add_component` hands out is fresh: no query on the store
/// before the call returns it. Its slot then holds exactly the component
/// that was added, payload and type tag included, while every earlier slot
/// stays as it was.
pub proof fn lemma_add_round_trip(
    cs: Seq<Option<ComponentView>>,
    c: ComponentView,
    tag: Option<Seq<char>>,
    owner: Option<Seq<char>>,
)
    requires
        cs.len() < u16::MAX,
    ensures
        !select(cs, cs.len(), tag, owner).contains(cs.len() as u16),
        cs.push(Some(c))[cs.len() as int] == Some(c),
        forall|i: int| 0 <= i < cs.len() ==> #[trigger] cs.push(Some(c))[i] == cs[i],
{
    lemma_select_contains(cs, cs.len(), tag, owner, cs.len() as u16);
}

/// The components of type `t` owned by `o` are exactly those in both the
/// type index of `t` and the owner index of `o`, never those in only one;
/// when either index is empty so is the result.
pub proof fn lemma_owner_and_type_is_intersection(cs: Seq<Option<ComponentView>>, t: Seq<char>, o: Seq<char>)
    requires
        cs.len() <= u16::MAX + 1,
    ensures
        ids_of_owner_and_type(cs, t, o).to_set() == ids_of_type(cs, t).to_set().intersect(
            ids_of_owner(cs, o).to_set(),
        ),
        ids_of_type(cs, t).len() == 0 || ids_of_owner(cs, o).len() == 0 ==> ids_of_owner_and_type(cs, t, o).len()
            == 0,
{
    let n = cs.len();
    assert forall|id: u16|
        ids_of_owner_and_type(cs, t, o).to_set().contains(id) == ids_of_type(cs, t).to_set().intersect(
            ids_of_owner(cs, o).to_set(),
        ).contains(id) by {
        lemma_select_contains(cs, n, Some(t), Some(o), id);
        lemma_select_contains(cs, n, Some(t), None, id);
        lemma_select_contains(cs, n, None, Some(o), id);
    }
    assert(ids_of_owner_and_type(cs, t, o).to_set() =~= ids_of_type(cs, t).to_set().intersect(
        ids_of_owner(cs, o).to_set(),
    ));
    if ids_of_owner_and_type(cs, t, o).len() > 0 {
        let id = ids_of_owner_and_type(cs, t, o)[0];
        assert(ids_of_owner_and_type(cs, t, o).contains(id));
        lemma_select_contains(cs, n, Some(t), Some(o), id);
        lemma_select_contains(cs, n, Some(t), None, id);
        lemma_select_contains(cs, n, None, Some(o), id);
    }
}

/// The component store: an arena of components addressed by id, with a
/// secondary index by type tag and one by owner.
pub struct GameManager {
    next_id: u16,
    components: Vec<Option<Component>>,
    components_by_type: Vec<IndexBucket>,
    components_by_obj: Vec<IndexBucket>,
}

impl View for GameManager {
    type V = Seq<Option<ComponentView>>;

    closed spec fn view(&self) -> Seq<Option<ComponentView>> {
        self.components@.map_values(|c: Option<Component>| slot_view(c))
    }
}

/// Finds the bucket filed under `key`.
fn find_bucket(buckets: &Vec<IndexBucket>, key: &String) -> (r: Option<usize>)
    ensures
        match r {
            Some(j) => j < buckets@.len() && buckets@[j as int].key@ == key@,
            None => !has_key(buckets@, key@),
        },
{
    let mut j: usize = 0;
    while j < buckets.len()
        invariant
            j <= buckets@.len(),
            forall|k: int| 0 <= k < j ==> buckets@[k].key@ != key@,
        decreases buckets@.len() - j,
    {
        if buckets[j].key == *key {
            return Some(j);
        }
        j = j + 1;
    }
    None
}

impl GameManager {
    /// The store's internal invariant: slot `i` holds the component with id
    /// `i`, and both indices agree with the slots.
    pub closed spec fn wf(&self) -> bool {
        &&& self.next_id as int == self.components@.len()
        &&& forall|i: int| 0 <= i < self.components@.len() && (#[trigger] self.components@[i]) is Some
            ==> self.components@[i]->Some_0.id == i
        &&& index_wf(self.components_by_type@, self@, true)
        &&& index_wf(self.components_by_obj@, self@, false)
    }

    pub proof fn lemma_wf_len(&self)
        requires
            self.wf(),
        ensures
            self@.len() <= u16::MAX,
    {
    }

    /// An empty store.
    pub fn new() -> (r: GameManager)
        ensures
            r.wf(),
            r@ == Seq::<Option<ComponentView>>::empty(),
    {
        let r = GameManager {
            next_id: 0,
            components: Vec::new(),
            components_by_type: Vec::new(),
            components_by_obj: Vec::new(),
        };
        assert(r@ =~= Seq::<Option<ComponentView>>::empty());
        r
    }

    /// The id that the next added component will get.
    pub fn next_id(&self) -> (r: u16)
        requires
            self.wf(),
        ensures
            r as int == self@.len(),
    {
        self.next_id
    }

    /// Files `id`, the id of the component just pushed as the last slot of
    /// the store, under `key` in one index.
    fn index_insert(
        buckets: &mut Vec<IndexBucket>,
        key: &String,
        id: u16,
        Ghost(cs): Ghost<Seq<Option<ComponentView>>>,
        Ghost(by_type): Ghost<bool>,
    )
        requires
            cs.len() == id as int + 1,
            cs[id as int] is Some,
            (if by_type { cs[id as int]->Some_0.tag } else { cs[id as int]->Some_0.owner }) == key@,
            index_wf(old(buckets)@, cs.drop_last(), by_type),
        ensures
            index_wf(final(buckets)@, cs, by_type),
    {
        let ghost old_cs = cs.drop_last();
        let ghost n = id as nat;
        let ghost c = cs[id as int]->Some_0;
        assert forall|k: Seq<char>| #[trigger] bucket_ids(cs, k, by_type) == if k == key@ {
            bucket_ids(old_cs, k, by_type).push(id)
        } else {
            bucket_ids(old_cs, k, by_type)
        } by {
            let t = if by_type { Some(k) } else { None };
            let o = if by_type { None } else { Some(k) };
            lemma_select_prefix(cs, old_cs, n, t, o);
            assert(select(cs, n + 1, t, o) == if selects(c, t, o) {
                select(cs, n, t, o).push(id)
            } else {
                select(cs, n, t, o)
            });
        }
        match find_bucket(buckets, key) {
            Some(j) => {
                buckets[j].ids.push(id);
                assert forall|i: int| 0 <= i < buckets@.len() implies (#[trigger] buckets@[i]).ids@
                    == bucket_ids(cs, buckets@[i].key@, by_type) by {
                    if i != j {
                        assert(buckets@[i] == old(buckets)@[i]);
                        assert(old(buckets)@[i].key@ != old(buckets)@[j as int].key@);
                    }
                }
                assert forall|a: int, b: int| 0 <= a < buckets@.len() && 0 <= b < buckets@.len() && a != b
                    implies (#[trigger] buckets@[a]).key@ != (#[trigger] buckets@[b]).key@ by {
                    assert(old(buckets)@[a].key@ != old(buckets)@[b].key@);
                }
                assert forall|k: Seq<char>| !has_key(buckets@, k) implies #[trigger] bucket_ids(cs, k, by_type)
                    == Seq::<u16>::empty() by {
                    if has_key(old(buckets)@, k) {
                        let i = choose|i: int| 0 <= i < old(buckets)@.len() && (#[trigger] old(buckets)@[i]).key@ == k;
                        assert(buckets@[i].key@ == k);
                    }
                }
            }
            None => {
                let mut ids: Vec<u16> = Vec::new();
                ids.push(id);
                buckets.push(IndexBucket { key: key.clone(), ids });
                assert(bucket_ids(old_cs, key@, by_type) == Seq::<u16>::empty());
                assert(bucket_ids(cs, key@, by_type) =~= ids@);
                assert forall|i: int| 0 <= i < buckets@.len() implies (#[trigger] buckets@[i]).ids@
                    == bucket_ids(cs, buckets@[i].key@, by_type) by {
                    if i < old(buckets)@.len() {
                        assert(buckets@[i] == old(buckets)@[i]);
                    }
                }
                assert forall|k: Seq<char>| !has_key(buckets@, k) implies #[trigger] bucket_ids(cs, k, by_type)
                    == Seq::<u16>::empty() by {
                    if has_key(old(buckets)@, k) {
                        let i = choose|i: int| 0 <= i < old(buckets)@.len() && (#[trigger] old(buckets)@[i]).key@ == k;
                        assert(buckets@[i].key@ == k);
                    }
                    assert(buckets@[old(buckets)@.len() as int].key@ == key@);
                }
                assert forall|a: int, b: int| 0 <= a < buckets@.len() && 0 <= b < buckets@.len() && a != b
                    implies (#[trigger] buckets@[a]).key@ != (#[trigger] buckets@[b]).key@ by {
                    let m = old(buckets)@.len() as int;
                    if a < m && b < m {
                        assert(old(buckets)@[a].key@ != old(buckets)@[b].key@);
                    } else if a == m {
                        assert(buckets@[b] == old(buckets)@[b]);
                    } else {
                        assert(buckets@[a] == old(buckets)@[a]);
                    }
                }
            }
        }
    }

    /// Stores `component` under the next id, which it returns, and files it
    /// in both indices. The component's own `id` field is set to that id.
    pub fn add_component(&mut self, component: Component) -> (r: u16)
        requires
            old(self).wf(),
            old(self)@.len() < u16::MAX,
        ensures
            final(self).wf(),
            r as int == old(self)@.len(),
            final(self)@ == old(self)@.push(Some(component.view())),
    {
        let id = self.next_id;
        let mut component = component;
        component.id = id;
        let ghost cview = component.view();
        let owner = component.obj_id.clone();
        let tag = component.c_type.clone();
        self.components.push(Some(component));
        self.next_id = id + 1;
        assert(self@ =~= old(self)@.push(Some(cview)));
        assert(self@.drop_last() =~= old(self)@);
        let ghost cs = self@;
        Self::index_insert(&mut self.components_by_obj, &owner, id, Ghost(cs), Ghost(false));
        Self::index_insert(&mut self.components_by_type, &tag, id, Ghost(cs), Ghost(true));
        assert forall|i: int| 0 <= i < self.components@.len() && (#[trigger] self.components@[i]) is Some
            implies self.components@[i]->Some_0.id == i by {
            if i < old(self).components@.len() {
                assert(self.components@[i] == old(self).components@[i]);
            }
        }
        id
    }

    /// Encodes `datum` into a new component owned by `obj_id` and stores it:
    /// its id, or `None`, with the store unchanged, where `datum` cannot be
    /// encoded.
    pub fn add_component_from_data<T: IsComponent>(&mut self, datum: &T, obj_id: &str) -> (r: Option<u16>)
        requires
            old(self).wf(),
            old(self)@.len() < u16::MAX,
        ensures
            final(self).wf(),
            r is Some <==> datum.payload_of() is Some,
            match r {
                Some(id) => id as int == old(self)@.len() && final(self)@ == old(self)@.push(
                    Some(ComponentView { owner: obj_id@, tag: datum.tag_of(), data: datum.payload_of()->Some_0 }),
                ),
                None => final(self)@ == old(self)@,
            },
    {
        let mut comp = Component::new(obj_id.to_owned());
        if !comp.set_data(datum) {
            return None;
        }
        Some(self.add_component(comp))
    }

    /// The component with id `id`, if it is live.
    pub fn get_component(&self, id: u16) -> (r: Option<&Component>)
        requires
            self.wf(),
        ensures
            match r {
                Some(c) => (id as int) < self@.len() && self@[id as int] == Some(c.view()) && c.id == id,
                None => (id as int) >= self@.len() || self@[id as int] is None,
            },
    {
        if (id as usize) < self.components.len() {
            match &self.components[id as usize] {
                Some(c) => Some(c),
                None => None,
            }
        } else {
            None
        }
    }

    /// Replaces the payload of the component with id `id`; false, with the
    /// store unchanged, when no such component is live.
    pub fn set_data(&mut self, id: u16, data: String) -> (r: bool)
        requires
            old(self).wf(),
        ensures
            final(self).wf(),
            r == ((id as int) < old(self)@.len() && old(self)@[id as int] is Some),
            final(self)@ == if r {
                old(self)@.update(id as int, Some(ComponentView { data: data@, ..old(self)@[id as int]->Some_0 }))
            } else {
                old(self)@
            },
    {
        if (id as usize) >= self.components.len() {
            return false;
        }
        let (owner, tag) = match &self.components[id as usize] {
            Some(c) => (c.obj_id.clone(), c.c_type.clone()),
            None => {
                return false;
            },
        };
        self.components.set(id as usize, Some(Component { id, obj_id: owner, data, c_type: tag }));
        proof {
            self.lemma_update_data(*old(self), id);
        }
        true
    }

    proof fn lemma_update_data(&self, pre: GameManager, id: u16)
        requires
            pre.wf(),
            (id as int) < pre@.len(),
            pre@[id as int] is Some,
            self.next_id == pre.next_id,
            self.components_by_type == pre.components_by_type,
            self.components_by_obj == pre.components_by_obj,
            self.components@.len() == pre.components@.len(),
            self.components@[id as int] is Some,
            self.components@[id as int]->Some_0.id == id,
            self.components@[id as int]->Some_0.obj_id@ == pre.components@[id as int]->Some_0.obj_id@,
            self.components@[id as int]->Some_0.c_type@ == pre.components@[id as int]->Some_0.c_type@,
            forall|i: int| 0 <= i < pre.components@.len() && i != id ==> self.components@[i] == pre.components@[i],
        ensures
            self.wf(),
            self@ == pre@.update(id as int, Some(ComponentView { data: self@[id as int]->Some_0.data, ..pre@[id as int]->Some_0 })),
    {
        assert(self@ =~= pre@.update(id as int, Some(ComponentView { data: self@[id as int]->Some_0.data, ..pre@[id as int]->Some_0 })));
        assert forall|t: Option<Seq<char>>, o: Option<Seq<char>>| #[trigger] select(self@, self@.len(), t, o) == select(pre@, pre@.len(), t, o) by {
            lemma_select_same_keys(self@, pre@, self@.len(), t, o);
        }
        assert forall|i: int| 0 <= i < self.components@.len() && (#[trigger] self.components@[i]) is Some
            implies self.components@[i]->Some_0.id == i by {
            if i != id {
                assert(self.components@[i] == pre.components@[i]);
            }
        }
        assert forall|k: Seq<char>| #[trigger] bucket_ids(self@, k, true) == bucket_ids(pre@, k, true) by {
            assert(select(self@, self@.len(), Some(k), None) == select(pre@, pre@.len(), Some(k), None));
        }
        assert forall|k: Seq<char>| #[trigger] bucket_ids(self@, k, false) == bucket_ids(pre@, k, false) by {
            assert(select(self@, self@.len(), None, Some(k)) == select(pre@, pre@.len(), None, Some(k)));
        }
    }

    /// Files the ids of one index again, keeping only those that `o` does not own.
    fn index_drop_owner(
        &self,
        buckets: &Vec<IndexBucket>,
        o: &String,
        Ghost(by_type): Ghost<bool>,
    ) -> (r: Vec<IndexBucket>)
        requires
            self.wf(),
            index_wf(buckets@, self@, by_type),
        ensures
            index_wf(r@, without_owner(self@, o@), by_type),
    {
        let ghost cs = self@;
        let ghost cs2 = without_owner(cs, o@);
        proof { self.lemma_wf_len(); }
        assert forall|k: Seq<char>| #[trigger] bucket_ids(cs2, k, by_type) == keep(cs, bucket_ids(cs, k, by_type), o@, false) by {
            if by_type {
                lemma_select_without(cs, cs.len(), Some(k), None, o@);
            } else {
                lemma_select_without(cs, cs.len(), None, Some(k), o@);
            }
        }
        let mut out: Vec<IndexBucket> = Vec::new();
        let mut j: usize = 0;
        while j < buckets.len()
            invariant
                self.wf(),
                cs == self@,
                cs.len() <= u16::MAX,
                index_wf(buckets@, cs, by_type),
                j <= buckets@.len(),
                out@.len() == j,
                forall|i: int| 0 <= i < j ==> (#[trigger] out@[i]).key@ == buckets@[i].key@,
                forall|i: int| 0 <= i < j ==> (#[trigger] out@[i]).ids@ == keep(cs, buckets@[i].ids@, o@, false),
            decreases buckets@.len() - j,
        {
            let ids = self.filter_owned(&buckets[j].ids, o, false);
            out.push(IndexBucket { key: buckets[j].key.clone(), ids });
            j = j + 1;
        }
        assert forall|k: Seq<char>| !has_key(out@, k) implies #[trigger] bucket_ids(cs2, k, by_type) == Seq::<u16>::empty() by {
            if has_key(buckets@, k) {
                let i = choose|i: int| 0 <= i < buckets@.len() && (#[trigger] buckets@[i]).key@ == k;
                assert(out@[i].key@ == k);
            }
            assert(bucket_ids(cs, k, by_type) == Seq::<u16>::empty());
        }
        assert forall|a: int, b: int| 0 <= a < out@.len() && 0 <= b < out@.len() && a != b
            implies (#[trigger] out@[a]).key@ != (#[trigger] out@[b]).key@ by {
            assert(buckets@[a].key@ != buckets@[b].key@);
        }
        out
    }

    /// The ids of `ids`, in order, whose component is owned by `o` (when
    /// `want`) or is not (when `!want`).
    fn filter_owned(&self, ids: &Vec<u16>, o: &String, want: bool) -> (r: Vec<u16>)
        requires
            self.wf(),
        ensures
            r@ == keep(self@, ids@, o@, want),
    {
        let mut r: Vec<u16> = Vec::new();
        let mut i: usize = 0;
        while i < ids.len()
            invariant
                self.wf(),
                i <= ids@.len(),
                r@ == keep(self@, ids@.subrange(0, i as int), o@, want),
            decreases ids@.len() - i,
        {
            let id = ids[i];
            let owned = match self.get_component(id) {
                Some(c) => c.obj_id == *o,
                None => false,
            };
            assert(ids@.subrange(0, i as int + 1).drop_last() =~= ids@.subrange(0, i as int));
            if owned == want {
                r.push(id);
            }
            i = i + 1;
        }
        assert(ids@.subrange(0, ids@.len() as int) =~= ids@);
        r
    }

    /// Removes every component owned by `o`, from the slots and from both
    /// indices; ids are never reused.
    pub fn remove_object(&mut self, o: &str)
        requires
            old(self).wf(),
        ensures
            final(self).wf(),
            final(self)@ == without_owner(old(self)@, o@),
    {
        let o = o.to_owned();
        let ghost pre = *old(self);
        let new_type = self.index_drop_owner(&self.components_by_type, &o, Ghost(true));
        let new_obj = self.index_drop_owner(&self.components_by_obj, &o, Ghost(false));
        let mut i: usize = 0;
        while i < self.components.len()
            invariant
                self.next_id == pre.next_id,
                self.components@.len() == pre.components@.len(),
                i <= self.components@.len(),
                forall|k: int| 0 <= k < i ==> #[trigger] slot_view(self.components@[k]) == without_owner(pre@, o@)[k],
                forall|k: int| i <= k < self.components@.len() ==> #[trigger] self.components@[k] == pre.components@[k],
                forall|k: int| 0 <= k < self.components@.len() && (#[trigger] self.components@[k]) is Some
                    ==> self.components@[k]->Some_0.id == k,
            decreases self.components@.len() - i,
        {
            let owned = match &self.components[i] {
                Some(c) => c.obj_id == o,
                None => false,
            };
            if owned {
                self.components.set(i, None);
            }
            i = i + 1;
        }
        self.components_by_type = new_type;
        self.components_by_obj = new_obj;
        assert(self@ =~= without_owner(pre@, o@));
    }

    /// The ids filed under `key` in one index, or none when the key has no bucket.
    fn index_lookup(
        buckets: &Vec<IndexBucket>,
        key: &String,
        Ghost(cs): Ghost<Seq<Option<ComponentView>>>,
        Ghost(by_type): Ghost<bool>,
    ) -> (r: Vec<u16>)
        requires
            index_wf(buckets@, cs, by_type),
        ensures
            r@ == bucket_ids(cs, key@, by_type),
    {
        match find_bucket(buckets, key) {
            Some(j) => buckets[j].ids.clone(),
            None => {
                assert(bucket_ids(cs, key@, by_type) == Seq::<u16>::empty());
                Vec::new()
            },
        }
    }

    /// Handles (ids) of all components owned by `obj`, ascending; empty when
    /// the object owns none. Each can be read with `get_component` and
    /// written with `set_data`.
    pub fn get_components_by_obj_mut(&self, obj: &str) -> (r: Vec<u16>)
        requires
            self.wf(),
        ensures
            r@ == ids_of_owner(self@, obj@),
    {
        let key = obj.to_owned();
        Self::index_lookup(&self.components_by_obj, &key, Ghost(self@), Ghost(false))
    }

    /// Handles (ids) of all components with type tag `c_type`, ascending;
    /// empty when there is none.
    pub fn get_components_by_type_mut(&self, c_type: &str) -> (r: Vec<u16>)
        requires
            self.wf(),
        ensures
            r@ == ids_of_type(self@, c_type@),
    {
        let key = c_type.to_owned();
        Self::index_lookup(&self.components_by_type, &key, Ghost(self@), Ghost(true))
    }

    /// Handles (ids) of the components with type tag `c_type` owned by
    /// `obj`, ascending: the intersection of the type index and the owner
    /// index. Empty when either has no entry.
    pub fn get_components(&self, c_type: &str, obj: &str) -> (r: Vec<u16>)
        requires
            self.wf(),
        ensures
            r@ == ids_of_owner_and_type(self@, c_type@, obj@),
    {
        let by_type = self.get_components_by_type_mut(c_type);
        let by_obj = self.get_components_by_obj_mut(obj);
        let ghost cs = self@;
        proof {
            self.lemma_wf_len();
            lemma_keep_owned_of_type(cs, cs.len(), c_type@, obj@);
        }
        let mut r: Vec<u16> = Vec::new();
        let mut i: usize = 0;
        while i < by_type.len()
            invariant
                cs == self@,
                cs.len() <= u16::MAX,
                by_obj@ == ids_of_owner(cs, obj@),
                i <= by_type@.len(),
                r@ == keep(cs, by_type@.subrange(0, i as int), obj@, true),
            decreases by_type@.len() - i,
        {
            let id = by_type[i];
            let both = contains_id(&by_obj, id);
            proof {
                lemma_select_contains(cs, cs.len(), None, Some(obj@), id);
            }
            assert(by_type@.subrange(0, i as int + 1).drop_last() =~= by_type@.subrange(0, i as int));
            if both {
                r.push(id);
            }
            i = i + 1;
        }
        assert(by_type@.subrange(0, by_type@.len() as int) =~= by_type@);
        r
    }
}

/// Whether `x` occurs in `v`.
fn contains_id(v: &Vec<u16>, x: u16) -> (r: bool)
    ensures
        r == v@.contains(x),
{
    let mut i: usize = 0;
    while i < v.len()
        invariant
            i <= v@.len(),
            forall|k: int| 0 <= k < i ==> v@[k] != x,
        decreases v@.len() - i,
    {
        if v[i] == x {
            return true;
        }
        i = i + 1;
    }
    false
}

} // verus!
