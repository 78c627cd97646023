use vstd::prelude::*;
use crate::components::ComponentView;
use crate::game::{without_owner, GameManager};
use crate::scripts::{events_view, run_script, script_spec, ScriptError, ScriptOutcome};
use crate::codec::{
    char_of, code, decode_nums, decode_strs, encode_nums, encode_strs, json_of_nums, json_of_strs, nums_of_json,
    strs_of_json, strs_view, to_char,
};

verus! {

/// A key that a player pressed.
#[derive(Clone, Copy, Debug, PartialEq, Eq, Structural)]
pub enum Key {
    Left,
    Right,
    Up,
    Down,
    Esc,
    Null,
    Char(char),
    Other,
}

/// The codes that stand for a key in a payload.
pub open spec fn key_codes(k: Key) -> Seq<u32> {
    match k {
        Key::Left => seq![0],
        Key::Right => seq![1],
        Key::Up => seq![2],
        Key::Down => seq![3],
        Key::Esc => seq![4],
        Key::Null => seq![5],
        Key::Char(c) => seq![6, code(c)],
        Key::Other => seq![7],
    }
}

/// The key that a list of codes stands for, where there is one.
pub open spec fn key_of_codes(v: Seq<u32>) -> Option<Key> {
    if v.len() == 1 {
        if v[0] == 0 {
            Some(Key::Left)
        } else if v[0] == 1 {
            Some(Key::Right)
        } else if v[0] == 2 {
            Some(Key::Up)
        } else if v[0] == 3 {
            Some(Key::Down)
        } else if v[0] == 4 {
            Some(Key::Esc)
        } else if v[0] == 5 {
            Some(Key::Null)
        } else if v[0] == 7 {
            Some(Key::Other)
        } else {
            None
        }
    } else if v.len() == 2 && v[0] == 6 && char_of(v[1]) is Some {
        Some(Key::Char(char_of(v[1])->Some_0))
    } else {
        None
    }
}

/// The data of an input event: the key pressed.
#[derive(Clone, Copy)]
pub struct InputData {
    pub key_code: Key,
}

/// The key that an input event's payload holds, where it holds one.
pub open spec fn input_from(s: Seq<char>) -> Option<Key> {
    match nums_of_json(s) {
        Some(v) => key_of_codes(v),
        None => None,
    }
}

impl InputData {
    pub open spec fn payload_of(&self) -> Option<Seq<char>> {
        json_of_nums(key_codes(self.key_code))
    }

    pub fn to_payload(&self) -> (r: Option<String>)
        ensures
            match r {
                Some(t) => self.payload_of() == Some(t@),
                None => self.payload_of() is None,
            },
    {
        let mut v: Vec<u32> = Vec::new();
        match self.key_code {
            Key::Left => v.push(0),
            Key::Right => v.push(1),
            Key::Up => v.push(2),
            Key::Down => v.push(3),
            Key::Esc => v.push(4),
            Key::Null => v.push(5),
            Key::Char(c) => {
                v.push(6);
                v.push(c as u32);
            },
            Key::Other => v.push(7),
        }
        assert(v@ =~= key_codes(self.key_code));
        encode_nums(&v)
    }

    pub fn from_payload(s: &str) -> (r: Option<InputData>)
        ensures
            match r {
                Some(d) => input_from(s@) == Some(d.key_code),
                None => input_from(s@) is None,
            },
    {
        let v = match decode_nums(s) {
            Some(v) => v,
            None => {
                return None;
            },
        };
        let key = if v.len() == 1 {
            if v[0] == 0 {
                Key::Left
            } else if v[0] == 1 {
                Key::Right
            } else if v[0] == 2 {
                Key::Up
            } else if v[0] == 3 {
                Key::Down
            } else if v[0] == 4 {
                Key::Esc
            } else if v[0] == 5 {
                Key::Null
            } else if v[0] == 7 {
                Key::Other
            } else {
                return None;
            }
        } else if v.len() == 2 && v[0] == 6 {
            match to_char(v[1]) {
                Some(c) => Key::Char(c),
                None => {
                    return None;
                },
            }
        } else {
            return None;
        };
        Some(InputData { key_code: key })
    }
}

/// The data of a hit: who hit whom.
pub struct HitData {
    pub aggressor: String,
    pub target: String,
}

/// The (aggressor, target) pair that a hit event's payload holds, where it
/// holds one.
pub open spec fn hit_from(s: Seq<char>) -> Option<(Seq<char>, Seq<char>)> {
    match strs_of_json(s) {
        Some(v) => if v.len() == 2 {
            Some((v[0], v[1]))
        } else {
            None
        },
        None => None,
    }
}

/// The payload of a hit of `target` by `aggressor`.
pub open spec fn hit_payload(aggressor: Seq<char>, target: Seq<char>) -> Option<Seq<char>> {
    json_of_strs(seq![aggressor, target])
}

impl HitData {
    pub fn to_payload(&self) -> (r: Option<String>)
        ensures
            match r {
                Some(t) => hit_payload(self.aggressor@, self.target@) == Some(t@),
                None => hit_payload(self.aggressor@, self.target@) is None,
            },
    {
        let mut v: Vec<String> = Vec::new();
        v.push(self.aggressor.clone());
        v.push(self.target.clone());
        assert(strs_view(v@) =~= seq![self.aggressor@, self.target@]);
        encode_strs(&v)
    }

    pub fn from_payload(s: &str) -> (r: Option<HitData>)
        ensures
            match r {
                Some(h) => hit_from(s@) == Some((h.aggressor@, h.target@)),
                None => hit_from(s@) is None,
            },
    {
        let v = match decode_strs(s) {
            Some(v) => v,
            None => {
                return None;
            },
        };
        if v.len() != 2 {
            return None;
        }
        assert(strs_view(v@)[0] == v@[0]@ && strs_view(v@)[1] == v@[1]@);
        Some(HitData { aggressor: v[0].clone(), target: v[1].clone() })
    }
}

/// The data of a tick: its number.
#[derive(Clone, Copy)]
pub struct TickData {
    pub tick: u16,
}

/// The tick number that a tick event's payload holds, where it holds one.
pub open spec fn tick_from(s: Seq<char>) -> Option<u16> {
    match nums_of_json(s) {
        Some(v) => if v.len() == 1 && v[0] <= u16::MAX {
            Some(v[0] as u16)
        } else {
            None
        },
        None => None,
    }
}

impl TickData {
    pub open spec fn payload_of(&self) -> Option<Seq<char>> {
        json_of_nums(seq![self.tick as u32])
    }

    pub fn to_payload(&self) -> (r: Option<String>)
        ensures
            match r {
                Some(t) => self.payload_of() == Some(t@),
                None => self.payload_of() is None,
            },
    {
        let mut v: Vec<u32> = Vec::new();
        v.push(self.tick as u32);
        assert(v@ =~= seq![self.tick as u32]);
        encode_nums(&v)
    }

    pub fn from_payload(s: &str) -> (r: Option<TickData>)
        ensures
            match r {
                Some(t) => tick_from(s@) == Some(t.tick),
                None => tick_from(s@) is None,
            },
    {
        let v = match decode_nums(s) {
            Some(v) => v,
            None => {
                return None;
            },
        };
        if v.len() != 1 || v[0] > 65535 {
            return None;
        }
        Some(TickData { tick: v[0] as u16 })
    }
}

/// A named message with an encoded payload.
pub struct GameEvent {
    pub ev_type: String,
    pub data: String,
}

/// An event as the contracts see it: its type and its payload.
pub struct EventView {
    pub ev_type: Seq<char>,
    pub data: Seq<char>,
}

impl GameEvent {
    pub open spec fn view(&self) -> EventView {
        EventView { ev_type: self.ev_type@, data: self.data@ }
    }

    /// A copy of the event.
    pub fn duplicate(&self) -> (r: GameEvent)
        ensures
            r.view() == self.view(),
    {
        GameEvent { ev_type: self.ev_type.clone(), data: self.data.clone() }
    }
}

/// The behaviour that a listener runs when an event it listens for comes.
#[derive(Clone, Copy, PartialEq, Eq, Structural)]
pub enum Script {
    PlayerMove,
    OnHit,
    UpdateHealth,
}

/// A registered reaction to one or more event types, on behalf of one object.
pub struct Listener {
    pub id: u16,
    pub listen_for: Vec<String>,
    pub object_id: String,
    pub to_trigger: Script,
}

/// A listener as the contracts see it.
pub struct ListenerView {
    pub id: u16,
    pub listen_for: Seq<Seq<char>>,
    pub owner: Seq<char>,
    pub script: Script,
}

impl Listener {
    pub open spec fn view(&self) -> ListenerView {
        ListenerView {
            id: self.id,
            listen_for: strs_view(self.listen_for@),
            owner: self.object_id@,
            script: self.to_trigger,
        }
    }

    /// A listener for the event types `listen_for`, on behalf of `object_id`,
    /// that runs `to_trigger`; its id is given when it is attached.
    pub fn new(listen_for: Vec<&str>, object_id: &str, to_trigger: Script) -> (r: Self)
        ensures
            r.id == 0,
            r.listen_for@.len() == listen_for@.len(),
            forall|i: int| 0 <= i < listen_for@.len() ==> #[trigger] r.listen_for@[i]@ == listen_for@[i]@,
            r.object_id@ == object_id@,
            r.to_trigger == to_trigger,
    {
        let mut lf: Vec<String> = Vec::new();
        let mut i: usize = 0;
        while i < listen_for.len()
            invariant
                i <= listen_for@.len(),
                lf@.len() == i,
                forall|k: int| 0 <= k < i ==> #[trigger] lf@[k]@ == listen_for@[k]@,
            decreases listen_for@.len() - i,
        {
            lf.push(listen_for[i].to_owned());
            i = i + 1;
        }
        Listener { id: 0, listen_for: lf, object_id: object_id.to_owned(), to_trigger }
    }
}

/// The ids below `n` of the listeners that listen for `t`, ascending.
pub open spec fn listening(ls: Seq<ListenerView>, n: nat, t: Seq<char>) -> Seq<u16>
    decreases n,
{
    if n == 0 {
        Seq::empty()
    } else {
        let prev = listening(ls, (n - 1) as nat, t);
        if ls[n - 1].listen_for.contains(t) {
            prev.push((n - 1) as u16)
        } else {
            prev
        }
    }
}

/// The ids of all listeners for `t`, ascending: the order in which they run.
pub open spec fn listeners_for(ls: Seq<ListenerView>, t: Seq<char>) -> Seq<u16> {
    listening(ls, ls.len(), t)
}

pub proof fn lemma_listening_prefix(ls1: Seq<ListenerView>, ls2: Seq<ListenerView>, n: nat, t: Seq<char>)
    requires
        n <= ls1.len(),
        n <= ls2.len(),
        forall|i: int| 0 <= i < n ==> #[trigger] ls1[i].listen_for == ls2[i].listen_for,
    ensures
        listening(ls1, n, t) == listening(ls2, n, t),
    decreases n,
{
    if n > 0 {
        lemma_listening_prefix(ls1, ls2, (n - 1) as nat, t);
        assert(ls1[n - 1].listen_for == ls2[n - 1].listen_for);
    }
}

pub proof fn lemma_listening_bounds(ls: Seq<ListenerView>, n: nat, t: Seq<char>)
    requires
        n <= ls.len(),
        ls.len() <= u16::MAX + 1,
    ensures
        forall|k: int| 0 <= k < listening(ls, n, t).len() ==> (#[trigger] listening(ls, n, t)[k] as int) < n,
    decreases n,
{
    if n > 0 {
        lemma_listening_bounds(ls, (n - 1) as nat, t);
        let prev = listening(ls, (n - 1) as nat, t);
        let cur = listening(ls, n, t);
        assert forall|k: int| 0 <= k < cur.len() implies (#[trigger] cur[k] as int) < n by {
            if k < prev.len() {
                assert(cur[k] == prev[k]);
            }
        }
    }
}

/// How many times `x` occurs in `s`.
pub open spec fn occurrences(s: Seq<u16>, x: u16) -> nat
    decreases s.len(),
{
    if s.len() == 0 {
        0
    } else {
        occurrences(s.drop_last(), x) + if s.last() == x { 1nat } else { 0nat }
    }
}

proof fn lemma_occurrences_bounded(ls: Seq<ListenerView>, n: nat, t: Seq<char>, id: u16)
    requires
        n <= ls.len(),
        id as int >= n,
    ensures
        occurrences(listening(ls, n, t), id) == 0,
    decreases n,
{
    if n > 0 {
        lemma_occurrences_bounded(ls, (n - 1) as nat, t, id);
        let prev = listening(ls, (n - 1) as nat, t);
        assert(prev.push((n - 1) as u16).drop_last() =~= prev);
    }
}

/// An id is among the listeners for `t` exactly when that listener
/// listens for `t`, and then exactly once.
pub proof fn lemma_listening_count(ls: Seq<ListenerView>, n: nat, t: Seq<char>, id: u16)
    requires
        n <= ls.len(),
        ls.len() <= u16::MAX + 1,
    ensures
        occurrences(listening(ls, n, t), id) == if (id as int) < n && ls[id as int].listen_for.contains(t) {
            1nat
        } else {
            0nat
        },
    decreases n,
{
    if n > 0 {
        lemma_listening_count(ls, (n - 1) as nat, t, id);
        let prev = listening(ls, (n - 1) as nat, t);
        let x = (n - 1) as u16;
        assert(prev.push(x).drop_last() =~= prev);
        if id == x {
            lemma_occurrences_bounded(ls, (n - 1) as nat, t, id);
        }
    }
}

/// One bucket of the event index: an event type and the ids of the
/// listeners for it.
pub struct EventBucket {
    pub ev_type: String,
    pub ids: Vec<u16>,
}

pub open spec fn has_type(buckets: Seq<EventBucket>, t: Seq<char>) -> bool {
    exists|j: int| 0 <= j < buckets.len() && (#[trigger] buckets[j]).ev_type@ == t
}

/// Every bucket holds exactly the listeners for its event type, an event
/// type without a bucket has none, and no type has two buckets.
pub open spec fn event_index_wf(buckets: Seq<EventBucket>, ls: Seq<ListenerView>) -> bool {
    &&& forall|j: int| 0 <= j < buckets.len() ==> (#[trigger] buckets[j]).ids@ == listeners_for(ls, buckets[j].ev_type@)
    &&& forall|t: Seq<char>| !has_type(buckets, t) ==> #[trigger] listeners_for(ls, t) == Seq::<u16>::empty()
    &&& forall|j: int, k: int| 0 <= j < buckets.len() && 0 <= k < buckets.len() && j != k
        ==> (#[trigger] buckets[j]).ev_type@ != (#[trigger] buckets[k]).ev_type@
}

/// Finds the bucket of event type `t`.
fn find_event_bucket(buckets: &Vec<EventBucket>, t: &String) -> (r: Option<usize>)
    ensures
        match r {
            Some(j) => j < buckets@.len() && buckets@[j as int].ev_type@ == t@,
            None => !has_type(buckets@, t@),
        },
{
    let mut j: usize = 0;
    while j < buckets.len()
        invariant
            j <= buckets@.len(),
            forall|k: int| 0 <= k < j ==> buckets@[k].ev_type@ != t@,
        decreases buckets@.len() - j,
    {
        if buckets[j].ev_type == *t {
            return Some(j);
        }
        j = j + 1;
    }
    None
}

/// The registry of listeners, with an index from event type to the
/// listeners for it.
pub struct GameEventQueue {
    next_id: u16,
    listeners: Vec<Listener>,
    listener_evs: Vec<EventBucket>,
}

impl GameEventQueue {
    pub closed spec fn view(&self) -> Seq<ListenerView> {
        self.listeners@.map_values(|l: Listener| l.view())
    }

    /// Listener `i` has id `i`, and the event index agrees with the listeners.
    pub closed spec fn wf(&self) -> bool {
        &&& self.next_id as int == self.listeners@.len()
        &&& forall|i: int| 0 <= i < self.listeners@.len() ==> (#[trigger] self.listeners@[i]).id == i
        &&& event_index_wf(self.listener_evs@, self.view())
    }

    pub proof fn lemma_wf(&self)
        requires
            self.wf(),
        ensures
            self.view().len() <= u16::MAX,
            forall|i: int| 0 <= i < self.view().len() ==> (#[trigger] self.view()[i]).id == i,
    {
    }

    /// A registry with no listeners.
    pub fn new() -> (r: Self)
        ensures
            r.wf(),
            r.view() == Seq::<ListenerView>::empty(),
    {
        let r = GameEventQueue { next_id: 0, listeners: Vec::new(), listener_evs: Vec::new() };
        assert(r.view() =~= Seq::<ListenerView>::empty());
        r
    }

    /// The ids of the listeners for event type `t`, ascending.
    pub fn listeners_for_type(&self, t: &String) -> (r: Vec<u16>)
        requires
            self.wf(),
        ensures
            r@ == listeners_for(self.view(), t@),
    {
        match find_event_bucket(&self.listener_evs, t) {
            Some(j) => self.listener_evs[j].ids.clone(),
            None => Vec::new(),
        }
    }

    /// The listener with id `id`.
    pub fn listener(&self, id: u16) -> (r: &Listener)
        requires
            self.wf(),
            (id as int) < self.view().len(),
        ensures
            r.view() == self.view()[id as int],
    {
        &self.listeners[id as usize]
    }

    /// Registers `to_attach` under the next id, which it returns, and files
    /// it under each event type it listens for.
    pub fn attach_listener(&mut self, to_attach: Listener) -> (r: u16)
        requires
            old(self).wf(),
            old(self).view().len() < u16::MAX,
        ensures
            final(self).wf(),
            r as int == old(self).view().len(),
            final(self).view() == old(self).view().push(ListenerView { id: r, ..to_attach.view() }),
    {
        let id = self.next_id;
        let mut to_attach = to_attach;
        to_attach.id = id;
        let ghost old_ls = self.view();
        let ghost lv = to_attach.view();
        let ghost n = id as nat;
        let mut i: usize = 0;
        while i < to_attach.listen_for.len()
            invariant
                self.next_id == id,
                self.listeners == old(self).listeners,
                old_ls == old(self).view(),
                n == old_ls.len(),
                n == id as nat,
                n < u16::MAX,
                lv == to_attach.view(),
                lv.id == id,
                i <= lv.listen_for.len(),
                forall|j: int| 0 <= j < self.listener_evs@.len() ==> (#[trigger] self.listener_evs@[j]).ids@ == (if lv.listen_for.subrange(0, i as int).contains(self.listener_evs@[j].ev_type@) {
                    listeners_for(old_ls, self.listener_evs@[j].ev_type@).push(id)
                } else {
                    listeners_for(old_ls, self.listener_evs@[j].ev_type@)
                }),
                forall|t: Seq<char>| !has_type(self.listener_evs@, t) ==> #[trigger] listeners_for(old_ls, t) == Seq::<u16>::empty()
                    && !lv.listen_for.subrange(0, i as int).contains(t),
                forall|j: int, k: int| 0 <= j < self.listener_evs@.len() && 0 <= k < self.listener_evs@.len() && j != k
                    ==> (#[trigger] self.listener_evs@[j]).ev_type@ != (#[trigger] self.listener_evs@[k]).ev_type@,
            decreases lv.listen_for.len() - i,
        {
            let t = &to_attach.listen_for[i];
            let ghost tv = t@;
            let ghost pre = lv.listen_for.subrange(0, i as int);
            let ghost post = lv.listen_for.subrange(0, i + 1);
            assert(post =~= pre.push(tv));
            let ghost start = self.listener_evs@;
            assert forall|u: Seq<char>| !has_type(start, u) implies #[trigger] pre.contains(u) == false by {
                assert(listeners_for(old_ls, u) == Seq::<u16>::empty());
            }
            assert forall|u: Seq<char>| post.contains(u) <==> (pre.contains(u) || u == tv) by {
                if post.contains(u) {
                    let k = choose|k: int| 0 <= k < post.len() && #[trigger] post[k] == u;
                    if k < pre.len() {
                        assert(pre[k] == u);
                    }
                }
                if pre.contains(u) {
                    let k = choose|k: int| 0 <= k < pre.len() && #[trigger] pre[k] == u;
                    assert(post[k] == u);
                }
                if u == tv {
                    assert(post[pre.len() as int] == u);
                }
            }
            match find_event_bucket(&self.listener_evs, t) {
                Some(j) => {
                    let ghost already = pre.contains(tv);
                    let ids_len = self.listener_evs[j].ids.len();
                    let last_is_id = ids_len > 0 && self.listener_evs[j].ids[ids_len - 1] == id;
                    proof {
                        lemma_listening_bounds(old_ls, n, tv);
                        assert(has_type(self.listener_evs@, tv) && self.listener_evs@[j as int].ev_type@ == tv);
                        if !already {
                            assert(self.listener_evs@[j as int].ids@ == listeners_for(old_ls, tv));
                            if ids_len > 0 {
                                assert((listeners_for(old_ls, tv)[ids_len - 1] as int) < n);
                            }
                        } else {
                            assert(self.listener_evs@[j as int].ids@ == listeners_for(old_ls, tv).push(id));
                        }
                    }
                    let ghost before = self.listener_evs@;
                    if !last_is_id {
                        assert(!already);
                        self.listener_evs[j].ids.push(id);
                        assert forall|k: int| 0 <= k < self.listener_evs@.len() && k != j implies #[trigger] self.listener_evs@[k]
                            == before[k] by {}
                    } else {
                        assert(self.listener_evs@[j as int].ids@[ids_len - 1] == id);
                        assert(already);
                    }
                    assert(self.listener_evs@[j as int].ev_type@ == tv);
                    assert forall|u: Seq<char>| !has_type(self.listener_evs@, u) implies !has_type(before, u) && u != tv by {
                        if has_type(before, u) {
                            let k = choose|k: int| 0 <= k < before.len() && (#[trigger] before[k]).ev_type@ == u;
                            assert(self.listener_evs@[k].ev_type@ == before[k].ev_type@);
                        }
                    }
                },
                None => {
                    let mut ids: Vec<u16> = Vec::new();
                    ids.push(id);
                    let ghost before = self.listener_evs@;
                    self.listener_evs.push(EventBucket { ev_type: t.clone(), ids });
                    assert(listeners_for(old_ls, tv) == Seq::<u16>::empty());
                    assert(self.listener_evs@[before.len() as int].ev_type@ == tv);
                    assert(has_type(self.listener_evs@, tv));
                    assert(self.listener_evs@[before.len() as int].ids@ =~= listeners_for(old_ls, tv).push(id));
                    assert forall|u: Seq<char>| !has_type(self.listener_evs@, u) implies !has_type(before, u) && u != tv by {
                        if has_type(before, u) {
                            let k = choose|k: int| 0 <= k < before.len() && (#[trigger] before[k]).ev_type@ == u;
                            assert(self.listener_evs@[k] == before[k]);
                        }
                    }
                    assert forall|a: int, b: int| 0 <= a < self.listener_evs@.len() && 0 <= b < self.listener_evs@.len() && a != b
                        implies (#[trigger] self.listener_evs@[a]).ev_type@ != (#[trigger] self.listener_evs@[b]).ev_type@ by {
                        if a < before.len() && b < before.len() {
                            assert(before[a].ev_type@ != before[b].ev_type@);
                        } else if a == before.len() {
                            assert(self.listener_evs@[b] == before[b]);
                        } else {
                            assert(self.listener_evs@[a] == before[a]);
                        }
                    }
                },
            }
            assert forall|u: Seq<char>| !has_type(self.listener_evs@, u) implies #[trigger] listeners_for(old_ls, u)
                == Seq::<u16>::empty() && !post.contains(u) by {
                assert(!has_type(start, u) && u != tv);
                assert(pre.contains(u) == false);
            }
            i = i + 1;
        }
        self.listeners.push(to_attach);
        self.next_id = id + 1;
        assert(self.view() =~= old_ls.push(lv));
        assert(lv.listen_for.subrange(0, lv.listen_for.len() as int) =~= lv.listen_for);
        assert forall|t: Seq<char>| #[trigger] listeners_for(self.view(), t) == if lv.listen_for.contains(t) {
            listeners_for(old_ls, t).push(id)
        } else {
            listeners_for(old_ls, t)
        } by {
            lemma_listening_prefix(self.view(), old_ls, n, t);
        }
        assert forall|k: int| 0 <= k < self.listeners@.len() implies (#[trigger] self.listeners@[k]).id == k by {
            if k < n {
                assert(self.listeners@[k] == old(self).listeners@[k]);
            }
        }
        id
    }

    /// Dispatches `initial_ev` and everything that it cascades into. The
    /// worklist is a stack: the last event on it is taken off; when its type
    /// is "game.remove_object", the object that its payload names loses all
    /// its components; then every listener for its type runs, by ascending
    /// id, and the events it returns go on the worklist. An error of a
    /// script ends the dispatch with what was done so far left in place; so
    /// does a cascade of more than `MAX_CASCADE_STEPS` events.
    pub fn trigger_listeners(&mut self, game: &mut GameManager, initial_ev: GameEvent) -> (r: Result<(), DispatchError>)
        requires
            old(self).wf(),
            old(game).wf(),
        ensures
            final(self).wf(),
            final(self).view() == old(self).view(),
            final(game).wf(),
            (r, final(game)@) == cascade(old(self).view(), old(game)@, seq![initial_ev.view()], MAX_CASCADE_STEPS as nat),
    {
        let ghost ls = self.view();
        let mut evs: Vec<GameEvent> = Vec::new();
        evs.push(initial_ev);
        assert(events_view(evs@) =~= seq![initial_ev.view()]);
        let mut fuel: u64 = MAX_CASCADE_STEPS;
        let remove = String::from_str("game.remove_object");
        proof {
            self.lemma_wf();
        }
        while evs.len() > 0
            invariant
                self.wf(),
                self.view() == ls,
                ls == old(self).view(),
                ls.len() <= u16::MAX,
                forall|i: int| 0 <= i < ls.len() ==> (#[trigger] ls[i]).id == i,
                game.wf(),
                remove@ == "game.remove_object"@,
                cascade(ls, old(game)@, seq![initial_ev.view()], MAX_CASCADE_STEPS as nat) == cascade(ls, game@, events_view(evs@), fuel as nat),
            decreases fuel,
        {
            if fuel == 0 {
                return Err(DispatchError::CascadeTooLong);
            }
            let ghost stack = events_view(evs@);
            let ghost cs_top = game@;
            let ev = match evs.pop() {
                Some(e) => e,
                None => {
                    return Ok(());
                },
            };
            assert(events_view(evs@) =~= stack.drop_last());
            assert(ev.view() == stack.last());
            if ev.ev_type == remove {
                game.remove_object(ev.data.as_str());
            }
            let ghost cs1 = game@;
            assert(cs1 == if ev.view().ev_type == "game.remove_object"@ {
                without_owner(cs_top, ev.view().data)
            } else {
                cs_top
            });
            let ids = self.listeners_for_type(&ev.ev_type);
            proof {
                lemma_listening_bounds(ls, ls.len(), ev.ev_type@);
            }
            let mut new: Vec<GameEvent> = Vec::new();
            let mut i: usize = 0;
            assert(ids@.subrange(0, 0) =~= Seq::<u16>::empty());
            assert(events_view(new@) =~= Seq::<EventView>::empty());
            while i < ids.len()
                invariant
                    self.wf(),
                    self.view() == ls,
                    game.wf(),
                    ids@ == listeners_for(ls, ev.ev_type@),
                    forall|k: int| 0 <= k < ids@.len() ==> (#[trigger] ids@[k] as int) < ls.len(),
                    stack.len() > 0,
                    fuel > 0,
                    cascade(ls, old(game)@, seq![initial_ev.view()], MAX_CASCADE_STEPS as nat) == cascade(ls, cs_top, stack, fuel as nat),
                    ev.view() == stack.last(),
                    cs1 == if ev.view().ev_type == "game.remove_object"@ {
                        without_owner(cs_top, ev.view().data)
                    } else {
                        cs_top
                    },
                    i <= ids@.len(),
                    run_listeners(ls, cs1, ev.view(), ids@.subrange(0, i as int)) == (
                        Ok::<Seq<EventView>, ScriptError>(events_view(new@)),
                        game@,
                    ),
                decreases ids@.len() - i,
            {
                let l = self.listener(ids[i]);
                assert(ids@.subrange(0, i + 1).drop_last() =~= ids@.subrange(0, i as int));
                match run_script(game, &ev, l) {
                    Ok(more) => {
                        let mut more = more;
                        let ghost before = events_view(new@);
                        let ghost added = events_view(more@);
                        new.append(&mut more);
                        assert(events_view(new@) =~= before + added);
                    },
                    Err(e) => {
                        proof {
                            lemma_run_listeners_stops(ls, cs1, ev.view(), ids@, i + 1, ids@.len() as int);
                            assert(ids@.subrange(0, ids@.len() as int) =~= ids@);
                            assert(step(ls, cs_top, stack) == (Err::<Seq<EventView>, ScriptError>(e), game@));
                        }
                        return Err(DispatchError::Script(e));
                    },
                }
                i = i + 1;
            }
            assert(ids@.subrange(0, ids@.len() as int) =~= ids@);
            let ghost rest = events_view(evs@);
            let ghost added = events_view(new@);
            evs.append(&mut new);
            assert(events_view(evs@) =~= rest + added);
            fuel = fuel - 1;
        }
        Ok(())
    }
}

/// The longest cascade that one dispatch runs: the number of events taken
/// off the worklist.
pub const MAX_CASCADE_STEPS: u64 = 1000000;

/// Why a dispatch ended early.
#[derive(Clone, Copy, Debug, PartialEq, Eq, Structural)]
pub enum DispatchError {
    /// A listener's script failed.
    Script(ScriptError),
    /// The cascade went on past `MAX_CASCADE_STEPS` events.
    CascadeTooLong,
}

/// Runs the listeners `ids`, in order, on `ev`: the events they return, one
/// listener's after the other's, and the store they leave; or the first
/// error, with the store as the failing script left it.
pub open spec fn run_listeners(ls: Seq<ListenerView>, cs: Seq<Option<ComponentView>>, ev: EventView, ids: Seq<u16>) -> ScriptOutcome
    decreases ids.len(),
{
    if ids.len() == 0 {
        (Ok(Seq::empty()), cs)
    } else {
        let (prev, cs1) = run_listeners(ls, cs, ev, ids.drop_last());
        match prev {
            Err(e) => (Err(e), cs1),
            Ok(evs) => {
                let (r, cs2) = script_spec(ls[ids.last() as int], cs1, ev);
                match r {
                    Err(e) => (Err(e), cs2),
                    Ok(more) => (Ok(evs + more), cs2),
                }
            },
        }
    }
}

/// One step of a cascade: the last event of the worklist is taken off, an
/// object removal that it asks for is applied, every listener for its type
/// runs, and what they return goes on the worklist.
pub open spec fn step(ls: Seq<ListenerView>, cs: Seq<Option<ComponentView>>, stack: Seq<EventView>) -> ScriptOutcome {
    let ev = stack.last();
    let cs1 = if ev.ev_type == "game.remove_object"@ {
        without_owner(cs, ev.data)
    } else {
        cs
    };
    let (r, cs2) = run_listeners(ls, cs1, ev, listeners_for(ls, ev.ev_type));
    match r {
        Ok(more) => (Ok(stack.drop_last() + more), cs2),
        Err(e) => (Err(e), cs2),
    }
}

/// Steps until the worklist is no longer than `base`, or `fuel` steps were
/// taken, or a script fails: the outcome, the store, what is left of the
/// worklist and of the fuel.
pub open spec fn drain(
    ls: Seq<ListenerView>,
    cs: Seq<Option<ComponentView>>,
    stack: Seq<EventView>,
    base: nat,
    fuel: nat,
) -> (Result<(), DispatchError>, Seq<Option<ComponentView>>, Seq<EventView>, nat)
    decreases fuel,
{
    if stack.len() <= base {
        (Ok(()), cs, stack, fuel)
    } else if fuel == 0 {
        (Err(DispatchError::CascadeTooLong), cs, stack, fuel)
    } else {
        match step(ls, cs, stack) {
            (Ok(next), cs2) => drain(ls, cs2, next, base, (fuel - 1) as nat),
            (Err(e), cs2) => (Err(DispatchError::Script(e)), cs2, stack, fuel),
        }
    }
}

/// A whole dispatch of the worklist `stack`: its outcome and the store it
/// leaves.
pub open spec fn cascade(
    ls: Seq<ListenerView>,
    cs: Seq<Option<ComponentView>>,
    stack: Seq<EventView>,
    fuel: nat,
) -> (Result<(), DispatchError>, Seq<Option<ComponentView>>) {
    let d = drain(ls, cs, stack, 0, fuel);
    (d.0, d.1)
}

/// A step sees only the top of the worklist: events below it stay below
/// what the step puts on.
pub proof fn lemma_step_prefix(ls: Seq<ListenerView>, cs: Seq<Option<ComponentView>>, pre: Seq<EventView>, st: Seq<EventView>)
    requires
        st.len() > 0,
    ensures
        step(ls, cs, pre + st).1 == step(ls, cs, st).1,
        step(ls, cs, pre + st).0 == match step(ls, cs, st).0 {
            Ok(next) => Ok::<Seq<EventView>, ScriptError>(pre + next),
            Err(e) => Err(e),
        },
{
    assert((pre + st).last() == st.last());
    assert((pre + st).drop_last() =~= pre + st.drop_last());
    let ev = st.last();
    let cs1 = if ev.ev_type == "game.remove_object"@ { without_owner(cs, ev.data) } else { cs };
    let (r, cs2) = run_listeners(ls, cs1, ev, listeners_for(ls, ev.ev_type));
    if let Ok(more) = r {
        assert(pre + st.drop_last() + more =~= pre + (st.drop_last() + more));
    }
}

/// Cascades run depth first: an event put on top of a worklist `pre` is
/// processed, with every event it leads to, before any event of `pre`, and
/// exactly as if it were dispatched alone; `pre` is left as it was.
pub proof fn lemma_cascade_depth_first(
    ls: Seq<ListenerView>,
    cs: Seq<Option<ComponentView>>,
    pre: Seq<EventView>,
    st: Seq<EventView>,
    fuel: nat,
)
    ensures
        ({
            let whole = drain(ls, cs, pre + st, pre.len(), fuel);
            let alone = drain(ls, cs, st, 0, fuel);
            whole == (alone.0, alone.1, pre + alone.2, alone.3)
        }),
    decreases fuel,
{
    if st.len() == 0 {
        assert(pre + st =~= pre);
    } else if fuel > 0 {
        lemma_step_prefix(ls, cs, pre, st);
        match step(ls, cs, st) {
            (Ok(next), cs2) => {
                lemma_cascade_depth_first(ls, cs2, pre, next, (fuel - 1) as nat);
            },
            (Err(e), cs2) => {},
        }
    }
}

/// A listener attached for some event types is among the listeners of each
/// of those types exactly once, and among those of any other type never:
/// a dispatch of one of its types runs it once, of another type not at all.
pub proof fn lemma_attach_routes(ls: Seq<ListenerView>, l: ListenerView, t: Seq<char>)
    requires
        ls.len() < u16::MAX,
        l.id as int == ls.len(),
    ensures
        occurrences(listeners_for(ls.push(l), t), l.id) == if l.listen_for.contains(t) {
            1nat
        } else {
            0nat
        },
{
    lemma_listening_count(ls.push(l), ls.len() + 1, t, l.id);
}

/// Dispatching an event that no listener listens for, and that asks for no
/// removal, changes nothing and leads to no other event.
pub proof fn lemma_unheard_event_is_no_op(ls: Seq<ListenerView>, cs: Seq<Option<ComponentView>>, ev: EventView, fuel: nat)
    requires
        listeners_for(ls, ev.ev_type).len() == 0,
        ev.ev_type != "game.remove_object"@,
        fuel > 0,
    ensures
        cascade(ls, cs, seq![ev], fuel) == (Ok::<(), DispatchError>(()), cs),
        step(ls, cs, seq![ev]) == (Ok::<Seq<EventView>, ScriptError>(Seq::empty()), cs),
{
    assert(listeners_for(ls, ev.ev_type) =~= Seq::<u16>::empty());
    assert(seq![ev].drop_last() + Seq::<EventView>::empty() =~= Seq::<EventView>::empty());
    assert(step(ls, cs, seq![ev]) == (Ok::<Seq<EventView>, ScriptError>(Seq::empty()), cs));
    assert(drain(ls, cs, Seq::empty(), 0, (fuel - 1) as nat) == (Ok::<(), DispatchError>(()), cs, Seq::<EventView>::empty(), (fuel - 1) as nat));
}

/// Once a listener fails, the ones after it do not run.
proof fn lemma_run_listeners_stops(
    ls: Seq<ListenerView>,
    cs: Seq<Option<ComponentView>>,
    ev: EventView,
    ids: Seq<u16>,
    n: int,
    m: int,
)
    requires
        0 <= n <= m <= ids.len(),
        run_listeners(ls, cs, ev, ids.subrange(0, n)).0 is Err,
    ensures
        run_listeners(ls, cs, ev, ids.subrange(0, m)) == run_listeners(ls, cs, ev, ids.subrange(0, n)),
    decreases m - n,
{
    if m > n {
        lemma_run_listeners_stops(ls, cs, ev, ids, n, m - 1);
        assert(ids.subrange(0, m).drop_last() =~= ids.subrange(0, m - 1));
    }
}

} // verus!
