use vstd::prelude::*;
use crate::codec::{
    char_of, code, decode_nums, decode_strs, encode_nums, encode_strs, json_of_nums, json_of_strs, nums_of_json,
    strs_of_json, strs_view, to_char,
};

verus! {

/// What the store knows of one component: its owner, its type tag and its
/// encoded payload.
pub struct ComponentView {
    pub owner: Seq<char>,
    pub tag: Seq<char>,
    pub data: Seq<char>,
}

/// One encoded record of typed data attached to exactly one object.
pub struct Component {
    pub id: u16,
    pub obj_id: String,
    /// The encoded payload, decodable by code that knows `c_type`.
    pub data: String,
    pub c_type: String,
}

impl Component {
    pub open spec fn view(&self) -> ComponentView {
        ComponentView { owner: self.obj_id@, tag: self.c_type@, data: self.data@ }
    }

    /// An empty component owned by `obj_id`, with no type tag and no payload.
    pub fn new(obj_id: String) -> (r: Self)
        ensures
            r.id == 0,
            r.obj_id@ == obj_id@,
            r.data@ == Seq::<char>::empty(),
            r.c_type@ == Seq::<char>::empty(),
    {
        Component { id: 0, obj_id, data: String::new(), c_type: String::new() }
    }

    /// Gives the component `item`'s type tag and payload; false, with the
    /// component unchanged, where `item` cannot be encoded.
    pub fn set_data<T: IsComponent>(&mut self, item: &T) -> (r: bool)
        ensures
            r == item.payload_of() is Some,
            final(self).id == old(self).id,
            final(self).obj_id@ == old(self).obj_id@,
            r ==> final(self).c_type@ == item.tag_of() && Some(final(self).data@) == item.payload_of(),
            !r ==> final(self).c_type@ == old(self).c_type@ && final(self).data@ == old(self).data@,
    {
        match item.to_payload() {
            Some(d) => {
                self.c_type = item.get_type_name();
                self.data = d;
                true
            },
            None => false,
        }
    }
}

/// A schema of component data: it names its type tag and encodes itself
/// into an opaque payload.
pub trait IsComponent {
    spec fn tag_of(&self) -> Seq<char>;

    spec fn payload_of(&self) -> Option<Seq<char>>;

    fn get_type_name(&self) -> (r: String)
        ensures
            r@ == self.tag_of();

    fn to_payload(&self) -> (r: Option<String>)
        ensures
            match r {
                Some(t) => self.payload_of() == Some(t@),
                None => self.payload_of() is None,
            };
}

/// Encodes a list of small numbers.
fn encode_u16s(v: &Vec<u16>) -> (r: Option<String>)
    ensures
        match r {
            Some(t) => json_of_nums(widen(v@)) == Some(t@),
            None => json_of_nums(widen(v@)) is None,
        },
{
    let mut nums: Vec<u32> = Vec::new();
    let mut i: usize = 0;
    while i < v.len()
        invariant
            i <= v@.len(),
            nums@ =~= widen(v@.subrange(0, i as int)),
        decreases v@.len() - i,
    {
        nums.push(v[i] as u32);
        i = i + 1;
        assert(nums@ =~= widen(v@.subrange(0, i as int)));
    }
    assert(v@.subrange(0, v@.len() as int) =~= v@);
    encode_nums(&nums)
}

/// The numbers of `v` as `u32`s.
pub open spec fn widen(v: Seq<u16>) -> Seq<u32> {
    v.map_values(|x: u16| x as u32)
}

/// The numbers of `v` as `u16`s, where there are exactly `n` and each fits.
pub open spec fn narrow(v: Option<Seq<u32>>, n: nat) -> Option<Seq<u16>> {
    match v {
        Some(w) => if w.len() == n && forall|i: int| 0 <= i < w.len() ==> #[trigger] w[i] <= u16::MAX {
            Some(w.map_values(|x: u32| x as u16))
        } else {
            None
        },
        None => None,
    }
}

/// Decodes exactly `n` small numbers.
fn decode_u16s(s: &str, n: usize) -> (r: Option<Vec<u16>>)
    ensures
        match r {
            Some(v) => narrow(nums_of_json(s@), n as nat) == Some(v@),
            None => narrow(nums_of_json(s@), n as nat) is None,
        },
{
    let w = match decode_nums(s) {
        Some(w) => w,
        None => {
            return None;
        },
    };
    if w.len() != n {
        return None;
    }
    let mut v: Vec<u16> = Vec::new();
    let mut i: usize = 0;
    while i < w.len()
        invariant
            nums_of_json(s@) == Some(w@),
            w@.len() == n,
            i <= w@.len(),
            v@.len() == i,
            forall|k: int| 0 <= k < i ==> #[trigger] w@[k] <= u16::MAX && v@[k] == w@[k] as u16,
        decreases w@.len() - i,
    {
        if w[i] > 65535 {
            assert(!(w@[i as int] <= u16::MAX));
            return None;
        }
        v.push(w[i] as u16);
        i = i + 1;
    }
    assert(forall|k: int| 0 <= k < w@.len() ==> #[trigger] w@[k] <= u16::MAX);
    assert(v@ =~= w@.map_values(|x: u32| x as u16));
    Some(v)
}

/// The character drawn for an object on the map.
#[derive(Clone, Copy)]
pub struct Glyph {
    pub glyph: char,
}

/// The glyph that a payload holds, where it holds one.
pub open spec fn glyph_from(s: Seq<char>) -> Option<Glyph> {
    match nums_of_json(s) {
        Some(v) => if v.len() == 1 && char_of(v[0]) is Some {
            Some(Glyph { glyph: char_of(v[0])->Some_0 })
        } else {
            None
        },
        None => None,
    }
}

impl IsComponent for Glyph {
    open spec fn tag_of(&self) -> Seq<char> {
        "Glyph"@
    }

    open spec fn payload_of(&self) -> Option<Seq<char>> {
        json_of_nums(seq![code(self.glyph)])
    }

    fn get_type_name(&self) -> (r: String) {
        String::from_str("Glyph")
    }

    fn to_payload(&self) -> (r: Option<String>) {
        let mut v: Vec<u32> = Vec::new();
        v.push(self.glyph as u32);
        assert(v@ =~= seq![code(self.glyph)]);
        encode_nums(&v)
    }
}

impl Glyph {
    pub fn from_payload(s: &str) -> (r: Option<Glyph>)
        ensures
            r == glyph_from(s@),
    {
        let v = match decode_nums(s) {
            Some(v) => v,
            None => {
                return None;
            },
        };
        if v.len() != 1 {
            return None;
        }
        match to_char(v[0]) {
            Some(c) => Some(Glyph { glyph: c }),
            None => None,
        }
    }
}

/// A line of text shown on screen.
pub struct TextBox {
    pub value: String,
}

/// The text that a text box's payload holds, where it holds one.
pub open spec fn text_from(s: Seq<char>) -> Option<Seq<char>> {
    match strs_of_json(s) {
        Some(v) => if v.len() == 1 {
            Some(v[0])
        } else {
            None
        },
        None => None,
    }
}

/// Encodes one string.
fn encode_one_str(x: &String) -> (r: Option<String>)
    ensures
        match r {
            Some(t) => json_of_strs(seq![x@]) == Some(t@),
            None => json_of_strs(seq![x@]) is None,
        },
{
    let mut v: Vec<String> = Vec::new();
    v.push(x.clone());
    assert(strs_view(v@) =~= seq![x@]);
    encode_strs(&v)
}

/// Decodes exactly one string.
fn decode_one_str(s: &str) -> (r: Option<String>)
    ensures
        match r {
            Some(t) => text_from(s@) == Some(t@),
            None => text_from(s@) is None,
        },
{
    let v = match decode_strs(s) {
        Some(v) => v,
        None => {
            return None;
        },
    };
    if v.len() != 1 {
        return None;
    }
    assert(strs_view(v@)[0] == v@[0]@);
    Some(v[0].clone())
}

impl IsComponent for TextBox {
    open spec fn tag_of(&self) -> Seq<char> {
        "TextBox"@
    }

    open spec fn payload_of(&self) -> Option<Seq<char>> {
        json_of_strs(seq![self.value@])
    }

    fn get_type_name(&self) -> (r: String) {
        String::from_str("TextBox")
    }

    fn to_payload(&self) -> (r: Option<String>) {
        encode_one_str(&self.value)
    }
}

impl TextBox {
    pub fn from_payload(s: &str) -> (r: Option<TextBox>)
        ensures
            match r {
                Some(t) => text_from(s@) == Some(t.value@),
                None => text_from(s@) is None,
            },
    {
        match decode_one_str(s) {
            Some(value) => Some(TextBox { value }),
            None => None,
        }
    }
}

/// Hit points of an object.
#[derive(Clone, Copy)]
pub struct Health {
    pub current_health: u16,
    pub max_health: u16,
}

/// The health that a payload holds, where it holds one.
pub open spec fn health_from(s: Seq<char>) -> Option<Health> {
    match narrow(nums_of_json(s), 2) {
        Some(v) => Some(Health { current_health: v[0], max_health: v[1] }),
        None => None,
    }
}

impl IsComponent for Health {
    open spec fn tag_of(&self) -> Seq<char> {
        "Health"@
    }

    open spec fn payload_of(&self) -> Option<Seq<char>> {
        json_of_nums(widen(seq![self.current_health, self.max_health]))
    }

    fn get_type_name(&self) -> (r: String) {
        String::from_str("Health")
    }

    fn to_payload(&self) -> (r: Option<String>) {
        let mut v: Vec<u16> = Vec::new();
        v.push(self.current_health);
        v.push(self.max_health);
        assert(v@ =~= seq![self.current_health, self.max_health]);
        encode_u16s(&v)
    }
}

impl Health {
    pub fn from_payload(s: &str) -> (r: Option<Health>)
        ensures
            r == health_from(s@),
    {
        match decode_u16s(s, 2) {
            Some(v) => Some(Health { current_health: v[0], max_health: v[1] }),
            None => None,
        }
    }
}

/// Names the object whose health a display follows.
pub struct HealthMonitor {
    pub subject_id: String,
}

impl IsComponent for HealthMonitor {
    open spec fn tag_of(&self) -> Seq<char> {
        "HealthMonitor"@
    }

    open spec fn payload_of(&self) -> Option<Seq<char>> {
        json_of_strs(seq![self.subject_id@])
    }

    fn get_type_name(&self) -> (r: String) {
        String::from_str("HealthMonitor")
    }

    fn to_payload(&self) -> (r: Option<String>) {
        encode_one_str(&self.subject_id)
    }
}

impl HealthMonitor {
    pub fn from_payload(s: &str) -> (r: Option<HealthMonitor>)
        ensures
            match r {
                Some(m) => text_from(s@) == Some(m.subject_id@),
                None => text_from(s@) is None,
            },
    {
        match decode_one_str(s) {
            Some(subject_id) => Some(HealthMonitor { subject_id }),
            None => None,
        }
    }
}

/// Points at data of other objects, as (object name, component type) pairs,
/// for a display to show.
pub struct Monitor {
    pub to_monitor: Vec<(String, String)>,
}

pub open spec fn pairs_view(p: Seq<(String, String)>) -> Seq<(Seq<char>, Seq<char>)> {
    p.map_values(|x: (String, String)| (x.0@, x.1@))
}

/// The pairs laid out one after the other.
pub open spec fn flatten_pairs(p: Seq<(Seq<char>, Seq<char>)>) -> Seq<Seq<char>> {
    Seq::new(2 * p.len(), |i: int| if i % 2 == 0 { p[i / 2].0 } else { p[i / 2].1 })
}

/// The pairs that a monitor's payload holds, where it holds some.
pub open spec fn pairs_from(s: Seq<char>) -> Option<Seq<(Seq<char>, Seq<char>)>> {
    match strs_of_json(s) {
        Some(v) => if v.len() % 2 == 0 {
            Some(Seq::new(v.len() / 2, |k: int| (v[2 * k], v[2 * k + 1])))
        } else {
            None
        },
        None => None,
    }
}

impl IsComponent for Monitor {
    open spec fn tag_of(&self) -> Seq<char> {
        "Monitor"@
    }

    open spec fn payload_of(&self) -> Option<Seq<char>> {
        json_of_strs(flatten_pairs(pairs_view(self.to_monitor@)))
    }

    fn get_type_name(&self) -> (r: String) {
        String::from_str("Monitor")
    }

    fn to_payload(&self) -> (r: Option<String>) {
        let mut v: Vec<String> = Vec::new();
        let mut i: usize = 0;
        let ghost p = pairs_view(self.to_monitor@);
        while i < self.to_monitor.len()
            invariant
                p == pairs_view(self.to_monitor@),
                i <= self.to_monitor@.len(),
                strs_view(v@) =~= flatten_pairs(p.subrange(0, i as int)),
            decreases self.to_monitor@.len() - i,
        {
            let ghost before = strs_view(v@);
            v.push(self.to_monitor[i].0.clone());
            v.push(self.to_monitor[i].1.clone());
            i = i + 1;
            let ghost prev = p.subrange(0, i - 1);
            let ghost cur = p.subrange(0, i as int);
            assert(strs_view(v@) =~= before.push(p[i - 1].0).push(p[i - 1].1));
            assert forall|j: int| 0 <= j < 2 * cur.len() implies #[trigger] flatten_pairs(cur)[j] == strs_view(v@)[j] by {
                if j < 2 * prev.len() {
                    assert(cur[j / 2] == prev[j / 2]);
                    assert(flatten_pairs(prev)[j] == before[j]);
                }
            }
            assert(strs_view(v@) =~= flatten_pairs(cur));
        }
        assert(p.subrange(0, p.len() as int) =~= p);
        encode_strs(&v)
    }
}

impl Monitor {
    pub fn from_payload(s: &str) -> (r: Option<Monitor>)
        ensures
            match r {
                Some(m) => pairs_from(s@) == Some(pairs_view(m.to_monitor@)),
                None => pairs_from(s@) is None,
            },
    {
        let v = match decode_strs(s) {
            Some(v) => v,
            None => {
                return None;
            },
        };
        if v.len() % 2 != 0 {
            return None;
        }
        let ghost w = strs_view(v@);
        let mut pairs: Vec<(String, String)> = Vec::new();
        let mut i: usize = 0;
        while i < v.len()
            invariant
                w == strs_view(v@),
                v@.len() % 2 == 0,
                i <= v@.len(),
                i % 2 == 0,
                pairs@.len() * 2 == i,
                pairs_view(pairs@) =~= Seq::new(pairs@.len(), |k: int| (w[2 * k], w[2 * k + 1])),
            decreases v@.len() - i,
        {
            let a = v[i].clone();
            let b = v[i + 1].clone();
            let ghost before = pairs@;
            pairs.push((a, b));
            i = i + 2;
            assert(pairs_view(pairs@) =~= pairs_view(before).push((w[i - 2], w[i - 1])));
            assert(pairs_view(pairs@) =~= Seq::new(pairs@.len(), |k: int| (w[2 * k], w[2 * k + 1])));
        }
        assert(pairs_view(pairs@) =~= Seq::new(w.len() / 2, |k: int| (w[2 * k], w[2 * k + 1])));
        Some(Monitor { to_monitor: pairs })
    }
}

/// Something with a two-dimensional position.
pub trait Vector2 {
    spec fn pos_of(&self) -> (u16, u16);

    fn as_tuple_2(&self) -> (r: (u16, u16))
        ensures
            r == self.pos_of();
}

/// A position on a tile map; `map` is the id of that map's component.
#[derive(Clone, Copy)]
pub struct WorldPosition {
    pub x: u16,
    pub y: u16,
    pub map: u16,
}

/// The world position that a payload holds, where it holds one.
pub open spec fn world_position_from(s: Seq<char>) -> Option<WorldPosition> {
    match narrow(nums_of_json(s), 3) {
        Some(v) => Some(WorldPosition { x: v[0], y: v[1], map: v[2] }),
        None => None,
    }
}

impl IsComponent for WorldPosition {
    open spec fn tag_of(&self) -> Seq<char> {
        "WorldPosition"@
    }

    open spec fn payload_of(&self) -> Option<Seq<char>> {
        json_of_nums(widen(seq![self.x, self.y, self.map]))
    }

    fn get_type_name(&self) -> (r: String) {
        String::from_str("WorldPosition")
    }

    fn to_payload(&self) -> (r: Option<String>) {
        let mut v: Vec<u16> = Vec::new();
        v.push(self.x);
        v.push(self.y);
        v.push(self.map);
        assert(v@ =~= seq![self.x, self.y, self.map]);
        encode_u16s(&v)
    }
}

impl Vector2 for WorldPosition {
    open spec fn pos_of(&self) -> (u16, u16) {
        (self.x, self.y)
    }

    fn as_tuple_2(&self) -> (r: (u16, u16)) {
        (self.x, self.y)
    }
}

impl WorldPosition {
    pub fn from_payload(s: &str) -> (r: Option<WorldPosition>)
        ensures
            r == world_position_from(s@),
    {
        match decode_u16s(s, 3) {
            Some(v) => Some(WorldPosition { x: v[0], y: v[1], map: v[2] }),
            None => None,
        }
    }
}

/// A position on screen.
#[derive(Clone, Copy)]
pub struct ScreenPosition {
    pub x: u16,
    pub y: u16,
}

/// The screen position that a payload holds, where it holds one.
pub open spec fn screen_position_from(s: Seq<char>) -> Option<ScreenPosition> {
    match narrow(nums_of_json(s), 2) {
        Some(v) => Some(ScreenPosition { x: v[0], y: v[1] }),
        None => None,
    }
}

impl IsComponent for ScreenPosition {
    open spec fn tag_of(&self) -> Seq<char> {
        "ScreenPosition"@
    }

    open spec fn payload_of(&self) -> Option<Seq<char>> {
        json_of_nums(widen(seq![self.x, self.y]))
    }

    fn get_type_name(&self) -> (r: String) {
        String::from_str("ScreenPosition")
    }

    fn to_payload(&self) -> (r: Option<String>) {
        let mut v: Vec<u16> = Vec::new();
        v.push(self.x);
        v.push(self.y);
        assert(v@ =~= seq![self.x, self.y]);
        encode_u16s(&v)
    }
}

impl Vector2 for ScreenPosition {
    open spec fn pos_of(&self) -> (u16, u16) {
        (self.x, self.y)
    }

    fn as_tuple_2(&self) -> (r: (u16, u16)) {
        (self.x, self.y)
    }
}

impl ScreenPosition {
    pub fn from_payload(s: &str) -> (r: Option<ScreenPosition>)
        ensures
            r == screen_position_from(s@),
    {
        match decode_u16s(s, 2) {
            Some(v) => Some(ScreenPosition { x: v[0], y: v[1] }),
            None => None,
        }
    }
}

} // verus!
