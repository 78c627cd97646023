use vstd::prelude::*;
use crate::codec::json_of_strs;
use crate::components::{
    health_from, pairs_from, pairs_view, world_position_from, ComponentView, Health, IsComponent, Monitor,
    Vector2, WorldPosition,
};
use crate::events::{hit_from, hit_payload, input_from, EventView, GameEvent, HitData, InputData, Key, Listener, ListenerView, Script};
use crate::game::{ids_of_owner_and_type, ids_of_type, lemma_select_bounds, GameManager};
use crate::tile_map::{tile_map_from, TileMap, TileType};

verus! {

/// Why a script gave up on an event.
#[derive(Clone, Copy, Debug, PartialEq, Eq, Structural)]
pub enum ScriptError {
    /// The event's payload is not what the script reacts to.
    BadEvent,
    /// A component that the script reads does not decode as its type tag says.
    BadComponent,
    /// A value could not be encoded.
    Encode,
}

/// What a script returns and the store it leaves behind.
pub type ScriptOutcome = (Result<Seq<EventView>, ScriptError>, Seq<Option<ComponentView>>);

/// The store with the payload of component `id` replaced by `d`.
pub open spec fn with_data(cs: Seq<Option<ComponentView>>, id: u16, d: Seq<char>) -> Seq<Option<ComponentView>> {
    cs.update(id as int, Some(ComponentView { data: d, ..cs[id as int]->Some_0 }))
}

/// The payload of the live component `id`.
pub open spec fn data_of(cs: Seq<Option<ComponentView>>, id: u16) -> Seq<char> {
    cs[id as int]->Some_0.data
}

pub open spec fn events_view(v: Seq<GameEvent>) -> Seq<EventView> {
    v.map_values(|e: GameEvent| e.view())
}

pub open spec fn result_view(r: Result<Vec<GameEvent>, ScriptError>) -> Result<Seq<EventView>, ScriptError> {
    match r {
        Ok(v) => Ok(events_view(v@)),
        Err(e) => Err(e),
    }
}

/// The event that asks for every component of `owner` to be removed.
pub open spec fn remove_event(owner: Seq<char>) -> EventView {
    EventView { ev_type: "game.remove_object"@, data: owner }
}

/// A hit on the listener's object costs it one point of health; at one
/// point or less it asks for the object's removal instead.
pub open spec fn on_hit_spec(l: ListenerView, cs: Seq<Option<ComponentView>>, ev: EventView) -> ScriptOutcome {
    match hit_from(ev.data) {
        None => (Err(ScriptError::BadEvent), cs),
        Some(hit) => if hit.1 != l.owner {
            (Ok(Seq::empty()), cs)
        } else {
            let ids = ids_of_owner_and_type(cs, "Health"@, hit.1);
            if ids.len() == 0 {
                (Ok(Seq::empty()), cs)
            } else {
                match health_from(data_of(cs, ids[0])) {
                    None => (Err(ScriptError::BadComponent), cs),
                    Some(h) => if h.current_health <= 1 {
                        (Ok(seq![remove_event(l.owner)]), cs)
                    } else {
                        match (Health { current_health: (h.current_health - 1) as u16, ..h }).payload_of() {
                            None => (Err(ScriptError::Encode), cs),
                            Some(d) => (Ok(Seq::empty()), with_data(cs, ids[0], d)),
                        }
                    },
                }
            }
        },
    }
}

/// Where a key would move a position: one step left, right, up or down
/// (arrow keys, or a, d, w, s), nowhere for other keys, and `None` where the
/// step leaves the range of coordinates.
pub open spec fn moved(p: WorldPosition, key: Key) -> Option<WorldPosition> {
    if key == Key::Left || key == Key::Char('a') {
        if p.x == 0 { None } else { Some(WorldPosition { x: (p.x - 1) as u16, ..p }) }
    } else if key == Key::Right || key == Key::Char('d') {
        if p.x == u16::MAX { None } else { Some(WorldPosition { x: (p.x + 1) as u16, ..p }) }
    } else if key == Key::Up || key == Key::Char('w') {
        if p.y == 0 { None } else { Some(WorldPosition { y: (p.y - 1) as u16, ..p }) }
    } else if key == Key::Down || key == Key::Char('s') {
        if p.y == u16::MAX { None } else { Some(WorldPosition { y: (p.y + 1) as u16, ..p }) }
    } else {
        Some(p)
    }
}

/// The owner of the first of the position components `ids[i..]` that
/// stands at (x, y) and is not owned by `me`.
pub open spec fn first_hit(cs: Seq<Option<ComponentView>>, ids: Seq<u16>, i: int, me: Seq<char>, x: u16, y: u16) -> Result<Option<Seq<char>>, ScriptError>
    decreases ids.len() - i,
{
    if i < 0 || i >= ids.len() {
        Ok(None)
    } else {
        let c = cs[ids[i] as int]->Some_0;
        match world_position_from(c.data) {
            None => Err(ScriptError::BadComponent),
            Some(q) => if c.owner != me && q.x == x && q.y == y {
                Ok(Some(c.owner))
            } else {
                first_hit(cs, ids, i + 1, me, x, y)
            },
        }
    }
}

/// A key press moves the listener's object on the map, onto floor only; a
/// move onto another object's position hits that object instead, and the
/// position stays.
pub open spec fn player_move_spec(l: ListenerView, cs: Seq<Option<ComponentView>>, ev: EventView) -> ScriptOutcome {
    match input_from(ev.data) {
        None => (Err(ScriptError::BadEvent), cs),
        Some(key) => {
            let mine = ids_of_owner_and_type(cs, "WorldPosition"@, l.owner);
            if mine.len() == 0 {
                (Ok(Seq::empty()), cs)
            } else {
                match world_position_from(data_of(cs, mine[0])) {
                    None => (Err(ScriptError::BadComponent), cs),
                    Some(p) => match moved(p, key) {
                        None => (Ok(Seq::empty()), cs),
                        Some(np) => {
                            let maps = ids_of_type(cs, "TileMap"@);
                            if maps.len() == 0 {
                                (Ok(Seq::empty()), cs)
                            } else {
                                match tile_map_from(data_of(cs, maps[0])) {
                                    None => (Err(ScriptError::BadComponent), cs),
                                    Some(world) => match first_hit(cs, ids_of_type(cs, "WorldPosition"@), 0, l.owner, np.x, np.y) {
                                        Err(e) => (Err(e), cs),
                                        Ok(Some(target)) => match hit_payload(l.owner, target) {
                                            None => (Err(ScriptError::Encode), cs),
                                            Some(d) => (Ok(seq![EventView { ev_type: "game.on_hit"@, data: d }]), cs),
                                        },
                                        Ok(None) => if np.x >= world.1.0 || np.y >= world.1.1 || world.0[np.x as int][np.y as int] != TileType::FLOOR {
                                            (Ok(Seq::empty()), cs)
                                        } else {
                                            match np.payload_of() {
                                                None => (Err(ScriptError::Encode), cs),
                                                Some(d) => (Ok(Seq::empty()), with_data(cs, mine[0], d)),
                                            }
                                        },
                                    },
                                }
                            }
                        },
                    },
                }
            }
        },
    }
}

/// The decimal digit `d`.
pub open spec fn digit(d: nat) -> char {
    if d == 0 {
        '0'
    } else if d == 1 {
        '1'
    } else if d == 2 {
        '2'
    } else if d == 3 {
        '3'
    } else if d == 4 {
        '4'
    } else if d == 5 {
        '5'
    } else if d == 6 {
        '6'
    } else if d == 7 {
        '7'
    } else if d == 8 {
        '8'
    } else {
        '9'
    }
}

/// `n` in decimal, without leading zeros.
pub open spec fn decimal(n: nat) -> Seq<char>
    decreases n,
{
    if n < 10 {
        seq![digit(n)]
    } else {
        decimal(n / 10).push(digit(n % 10))
    }
}

/// Relies on `ToString` for `u16` (through `Display`): the number in
/// decimal, without leading zeros.
#[verifier::external_body]
fn u16_to_decimal(n: u16) -> (r: String)
    ensures
        r@ == decimal(n as nat),
{
    n.to_string()
}

/// The first object paired with "Health" among `ps[i..]`.
pub open spec fn first_health_pair(ps: Seq<(Seq<char>, Seq<char>)>, i: int) -> Option<Seq<char>>
    decreases ps.len() - i,
{
    if i < 0 || i >= ps.len() {
        None
    } else if ps[i].1 == "Health"@ {
        Some(ps[i].0)
    } else {
        first_health_pair(ps, i + 1)
    }
}

/// The text "current/max" for the health that the monitor of `owner`
/// follows, or "?/?" where there is none to show.
pub open spec fn health_text(cs: Seq<Option<ComponentView>>, owner: Seq<char>) -> Result<Seq<char>, ScriptError> {
    let mons = ids_of_owner_and_type(cs, "Monitor"@, owner);
    if mons.len() == 0 {
        Ok("?/?"@)
    } else {
        match pairs_from(data_of(cs, mons[0])) {
            None => Err(ScriptError::BadComponent),
            Some(ps) => match first_health_pair(ps, 0) {
                None => Ok("?/?"@),
                Some(obj) => {
                    let hs = ids_of_owner_and_type(cs, "Health"@, obj);
                    if hs.len() == 0 {
                        Ok("?/?"@)
                    } else {
                        match health_from(data_of(cs, hs[0])) {
                            None => Err(ScriptError::BadComponent),
                            Some(h) => Ok(decimal(h.current_health as nat) + "/"@ + decimal(h.max_health as nat)),
                        }
                    }
                },
            },
        }
    }
}

/// Writes the health text of `owner`'s monitor into `owner`'s text box.
pub open spec fn show_health_spec(owner: Seq<char>, cs: Seq<Option<ComponentView>>) -> (Result<(), ScriptError>, Seq<Option<ComponentView>>) {
    match health_text(cs, owner) {
        Err(e) => (Err(e), cs),
        Ok(hs) => {
            let boxes = ids_of_owner_and_type(cs, "TextBox"@, owner);
            if boxes.len() == 0 {
                (Ok(()), cs)
            } else {
                match json_of_strs(seq![hs]) {
                    None => (Err(ScriptError::Encode), cs),
                    Some(d) => (Ok(()), with_data(cs, boxes[0], d)),
                }
            }
        },
    }
}

/// Writes the health text into the listener's object's text box.
pub open spec fn update_health_spec(l: ListenerView, cs: Seq<Option<ComponentView>>, ev: EventView) -> ScriptOutcome {
    match show_health_spec(l.owner, cs) {
        (Err(e), cs2) => (Err(e), cs2),
        (Ok(()), cs2) => (Ok(Seq::empty()), cs2),
    }
}

/// The owners of all monitors, by ascending id of the monitor.
pub open spec fn monitor_owners(cs: Seq<Option<ComponentView>>) -> Seq<Seq<char>> {
    ids_of_type(cs, "Monitor"@).map_values(|id: u16| cs[id as int]->Some_0.owner)
}

/// Shows the health of each of `owners` in turn, up to the first error.
pub open spec fn show_all_spec(owners: Seq<Seq<char>>, cs: Seq<Option<ComponentView>>) -> (Result<(), ScriptError>, Seq<Option<ComponentView>>)
    decreases owners.len(),
{
    if owners.len() == 0 {
        (Ok(()), cs)
    } else {
        match show_all_spec(owners.drop_last(), cs) {
            (Err(e), cs1) => (Err(e), cs1),
            (Ok(()), cs1) => show_health_spec(owners.last(), cs1),
        }
    }
}

/// What the listener's script does with an event.
pub open spec fn script_spec(l: ListenerView, cs: Seq<Option<ComponentView>>, ev: EventView) -> ScriptOutcome {
    match l.script {
        Script::PlayerMove => player_move_spec(l, cs, ev),
        Script::OnHit => on_hit_spec(l, cs, ev),
        Script::UpdateHealth => update_health_spec(l, cs, ev),
    }
}

/// No events.
fn no_events() -> (r: Vec<GameEvent>)
    ensures
        events_view(r@) == Seq::<EventView>::empty(),
{
    let r: Vec<GameEvent> = Vec::new();
    assert(events_view(r@) =~= Seq::<EventView>::empty());
    r
}

/// The payload of the first of `ids`, a query's answer on the store.
fn first_payload(game: &GameManager, ids: &Vec<u16>, Ghost(tag): Ghost<Option<Seq<char>>>, Ghost(owner): Ghost<Option<Seq<char>>>) -> (r: String)
    requires
        game.wf(),
        ids@ == crate::game::select(game@, game@.len(), tag, owner),
        ids@.len() > 0,
    ensures
        (ids@[0] as int) < game@.len(),
        game@[ids@[0] as int] is Some,
        r@ == data_of(game@, ids@[0]),
{
    proof {
        game.lemma_wf_len();
        lemma_select_bounds(game@, game@.len(), tag, owner);
    }
    match game.get_component(ids[0]) {
        Some(c) => c.data.clone(),
        None => String::new(),
    }
}

/// A hit on the listener's object costs it one point of health; at one
/// point or less it asks for the object's removal instead.
pub fn on_hit(game: &mut GameManager, ev: &GameEvent, listener: &Listener) -> (r: Result<Vec<GameEvent>, ScriptError>)
    requires
        old(game).wf(),
    ensures
        final(game).wf(),
        (result_view(r), final(game)@) == on_hit_spec(listener.view(), old(game)@, ev.view()),
{
    let hit = match HitData::from_payload(ev.data.as_str()) {
        Some(h) => h,
        None => {
            return Err(ScriptError::BadEvent);
        },
    };
    if !(hit.target == listener.object_id) {
        return Ok(no_events());
    }
    let ids = game.get_components("Health", hit.target.as_str());
    if ids.len() == 0 {
        return Ok(no_events());
    }
    let data = first_payload(game, &ids, Ghost(Some("Health"@)), Ghost(Some(hit.target@)));
    let health = match Health::from_payload(data.as_str()) {
        Some(h) => h,
        None => {
            return Err(ScriptError::BadComponent);
        },
    };
    if health.current_health <= 1 {
        let mut out: Vec<GameEvent> = Vec::new();
        out.push(GameEvent { ev_type: String::from_str("game.remove_object"), data: listener.object_id.clone() });
        assert(events_view(out@) =~= seq![remove_event(listener.view().owner)]);
        return Ok(out);
    }
    let next = Health { current_health: health.current_health - 1, max_health: health.max_health };
    let d = match next.to_payload() {
        Some(d) => d,
        None => {
            return Err(ScriptError::Encode);
        },
    };
    game.set_data(ids[0], d);
    Ok(no_events())
}

/// Where `key` moves `p`.
fn step(p: WorldPosition, key: Key) -> (r: Option<WorldPosition>)
    ensures
        r == moved(p, key),
{
    match key {
        Key::Left | Key::Char('a') => if p.x == 0 {
            None
        } else {
            Some(WorldPosition { x: p.x - 1, ..p })
        },
        Key::Right | Key::Char('d') => if p.x == 65535 {
            None
        } else {
            Some(WorldPosition { x: p.x + 1, ..p })
        },
        Key::Up | Key::Char('w') => if p.y == 0 {
            None
        } else {
            Some(WorldPosition { y: p.y - 1, ..p })
        },
        Key::Down | Key::Char('s') => if p.y == 65535 {
            None
        } else {
            Some(WorldPosition { y: p.y + 1, ..p })
        },
        _ => Some(p),
    }
}

/// The owner of the first position component among `ids` that stands at
/// (x, y) and is not owned by `me`.
fn find_hit(game: &GameManager, ids: &Vec<u16>, me: &String, x: u16, y: u16) -> (r: Result<Option<String>, ScriptError>)
    requires
        game.wf(),
        ids@ == ids_of_type(game@, "WorldPosition"@),
    ensures
        match r {
            Ok(Some(o)) => first_hit(game@, ids@, 0, me@, x, y) == Ok::<Option<Seq<char>>, ScriptError>(Some(o@)),
            Ok(None) => first_hit(game@, ids@, 0, me@, x, y) == Ok::<Option<Seq<char>>, ScriptError>(None),
            Err(e) => first_hit(game@, ids@, 0, me@, x, y) == Err::<Option<Seq<char>>, ScriptError>(e),
        },
{
    proof {
        game.lemma_wf_len();
        lemma_select_bounds(game@, game@.len(), Some("WorldPosition"@), None);
    }
    let mut i: usize = 0;
    while i < ids.len()
        invariant
            game.wf(),
            ids@ == ids_of_type(game@, "WorldPosition"@),
            forall|k: int| 0 <= k < ids@.len() ==> (#[trigger] ids@[k] as int) < game@.len() && game@[ids@[k] as int] is Some,
            i <= ids@.len(),
            first_hit(game@, ids@, 0, me@, x, y) == first_hit(game@, ids@, i as int, me@, x, y),
        decreases ids@.len() - i,
    {
        let c = match game.get_component(ids[i]) {
            Some(c) => c,
            None => {
                return Err(ScriptError::BadComponent);
            },
        };
        let q = match WorldPosition::from_payload(c.data.as_str()) {
            Some(q) => q,
            None => {
                return Err(ScriptError::BadComponent);
            },
        };
        if !(c.obj_id == *me) && q.x == x && q.y == y {
            return Ok(Some(c.obj_id.clone()));
        }
        i = i + 1;
    }
    Ok(None)
}

/// A key press moves the listener's object on the map, onto floor only; a
/// move onto another object's position hits that object instead, and the
/// position stays.
pub fn player_move(game: &mut GameManager, ev: &GameEvent, listener: &Listener) -> (r: Result<Vec<GameEvent>, ScriptError>)
    requires
        old(game).wf(),
    ensures
        final(game).wf(),
        (result_view(r), final(game)@) == player_move_spec(listener.view(), old(game)@, ev.view()),
{
    let input = match InputData::from_payload(ev.data.as_str()) {
        Some(d) => d,
        None => {
            return Err(ScriptError::BadEvent);
        },
    };
    let mine = game.get_components("WorldPosition", listener.object_id.as_str());
    if mine.len() == 0 {
        return Ok(no_events());
    }
    let pd = first_payload(game, &mine, Ghost(Some("WorldPosition"@)), Ghost(Some(listener.object_id@)));
    let position = match WorldPosition::from_payload(pd.as_str()) {
        Some(p) => p,
        None => {
            return Err(ScriptError::BadComponent);
        },
    };
    let position = match step(position, input.key_code) {
        Some(p) => p,
        None => {
            return Ok(no_events());
        },
    };
    let maps = game.get_components_by_type_mut("TileMap");
    if maps.len() == 0 {
        return Ok(no_events());
    }
    let md = first_payload(game, &maps, Ghost(Some("TileMap"@)), Ghost(None));
    let world = match TileMap::from_payload(md.as_str()) {
        Some(m) => m,
        None => {
            return Err(ScriptError::BadComponent);
        },
    };
    let positions = game.get_components_by_type_mut("WorldPosition");
    match find_hit(game, &positions, &listener.object_id, position.x, position.y) {
        Err(e) => {
            return Err(e);
        },
        Ok(Some(target)) => {
            let hit = HitData { aggressor: listener.object_id.clone(), target };
            let d = match hit.to_payload() {
                Some(d) => d,
                None => {
                    return Err(ScriptError::Encode);
                },
            };
            let mut out: Vec<GameEvent> = Vec::new();
            out.push(GameEvent { ev_type: String::from_str("game.on_hit"), data: d });
            assert(events_view(out@) =~= seq![EventView { ev_type: "game.on_hit"@, data: d@ }]);
            return Ok(out);
        },
        Ok(None) => {},
    }
    let size = world.get_size();
    if position.x >= size.0 || position.y >= size.1 {
        return Ok(no_events());
    }
    match world.tile_at(position.as_tuple_2()) {
        TileType::FLOOR => {},
        TileType::WALL => {
            return Ok(no_events());
        },
    }
    let d = match position.to_payload() {
        Some(d) => d,
        None => {
            return Err(ScriptError::Encode);
        },
    };
    game.set_data(mine[0], d);
    Ok(no_events())
}

/// The index of the first pair that names "Health" as its type.
fn find_health_pair(pairs: &Vec<(String, String)>) -> (r: Option<usize>)
    ensures
        match r {
            Some(i) => i < pairs@.len() && first_health_pair(pairs_view(pairs@), 0) == Some(pairs@[i as int].0@),
            None => first_health_pair(pairs_view(pairs@), 0) is None,
        },
{
    let health_tag = String::from_str("Health");
    let ghost ps = pairs_view(pairs@);
    let mut i: usize = 0;
    while i < pairs.len()
        invariant
            ps == pairs_view(pairs@),
            health_tag@ == "Health"@,
            i <= pairs@.len(),
            first_health_pair(ps, 0) == first_health_pair(ps, i as int),
        decreases pairs@.len() - i,
    {
        if pairs[i].1 == health_tag {
            return Some(i);
        }
        i = i + 1;
    }
    None
}

/// The text "current/max" for the health that the monitor of `owner`
/// follows, or "?/?" where there is none to show.
fn health_text_of(game: &GameManager, owner: &String) -> (r: Result<String, ScriptError>)
    requires
        game.wf(),
    ensures
        match r {
            Ok(t) => health_text(game@, owner@) == Ok::<Seq<char>, ScriptError>(t@),
            Err(e) => health_text(game@, owner@) == Err::<Seq<char>, ScriptError>(e),
        },
{
    let unknown = String::from_str("?/?");
    let mons = game.get_components("Monitor", owner.as_str());
    if mons.len() == 0 {
        return Ok(unknown);
    }
    let md = first_payload(game, &mons, Ghost(Some("Monitor"@)), Ghost(Some(owner@)));
    let monitor = match Monitor::from_payload(md.as_str()) {
        Some(m) => m,
        None => {
            return Err(ScriptError::BadComponent);
        },
    };
    let i = match find_health_pair(&monitor.to_monitor) {
        Some(i) => i,
        None => {
            return Ok(unknown);
        },
    };
    let obj = &monitor.to_monitor[i].0;
    let hs = game.get_components("Health", obj.as_str());
    if hs.len() == 0 {
        return Ok(unknown);
    }
    let hd = first_payload(game, &hs, Ghost(Some("Health"@)), Ghost(Some(obj@)));
    let health = match Health::from_payload(hd.as_str()) {
        Some(h) => h,
        None => {
            return Err(ScriptError::BadComponent);
        },
    };
    let mut text = u16_to_decimal(health.current_health);
    text.append("/");
    let max = u16_to_decimal(health.max_health);
    text.append(max.as_str());
    Ok(text)
}

/// Writes the health text of `owner`'s monitor into `owner`'s text box.
fn show_health(game: &mut GameManager, owner: &String) -> (r: Result<(), ScriptError>)
    requires
        old(game).wf(),
    ensures
        final(game).wf(),
        (r, final(game)@) == show_health_spec(owner@, old(game)@),
{
    let text = match health_text_of(game, owner) {
        Ok(t) => t,
        Err(e) => {
            return Err(e);
        },
    };
    let boxes = game.get_components("TextBox", owner.as_str());
    if boxes.len() == 0 {
        return Ok(());
    }
    proof {
        game.lemma_wf_len();
        lemma_select_bounds(game@, game@.len(), Some("TextBox"@), Some(owner@));
    }
    let tb = crate::components::TextBox { value: text };
    let d = match tb.to_payload() {
        Some(d) => d,
        None => {
            return Err(ScriptError::Encode);
        },
    };
    game.set_data(boxes[0], d);
    Ok(())
}

/// Writes the health text into the listener's object's text box.
pub fn update_health(game: &mut GameManager, ev: &GameEvent, listener: &Listener) -> (r: Result<Vec<GameEvent>, ScriptError>)
    requires
        old(game).wf(),
    ensures
        final(game).wf(),
        (result_view(r), final(game)@) == update_health_spec(listener.view(), old(game)@, ev.view()),
{
    match show_health(game, &listener.object_id) {
        Ok(()) => Ok(no_events()),
        Err(e) => Err(e),
    }
}

/// Refreshes every health display: for each monitor, by ascending id, the
/// health text of its object goes into that object's text box.
pub fn on_update(game: &mut GameManager, ev: &GameEvent) -> (r: Result<(), ScriptError>)
    requires
        old(game).wf(),
    ensures
        final(game).wf(),
        (r, final(game)@) == show_all_spec(monitor_owners(old(game)@), old(game)@),
{
    let ghost cs = game@;
    let monitors = game.get_components_by_type_mut("Monitor");
    proof {
        game.lemma_wf_len();
        lemma_select_bounds(cs, cs.len(), Some("Monitor"@), None);
    }
    let ghost all = monitor_owners(cs);
    let mut owners: Vec<String> = Vec::new();
    let mut i: usize = 0;
    while i < monitors.len()
        invariant
            game.wf(),
            game@ == cs,
            cs == old(game)@,
            monitors@ == ids_of_type(cs, "Monitor"@),
            forall|k: int| 0 <= k < monitors@.len() ==> (#[trigger] monitors@[k] as int) < cs.len() && cs[monitors@[k] as int] is Some,
            all == monitor_owners(cs),
            i <= monitors@.len(),
            owners@.len() == i,
            forall|k: int| 0 <= k < i ==> #[trigger] owners@[k]@ == all[k],
        decreases monitors@.len() - i,
    {
        match game.get_component(monitors[i]) {
            Some(c) => owners.push(c.obj_id.clone()),
            None => owners.push(String::new()),
        }
        i = i + 1;
    }
    let mut j: usize = 0;
    assert(all.subrange(0, 0) =~= Seq::<Seq<char>>::empty());
    while j < owners.len()
        invariant
            game.wf(),
            cs == old(game)@,
            all == monitor_owners(cs),
            owners@.len() == all.len(),
            forall|k: int| 0 <= k < all.len() ==> #[trigger] owners@[k]@ == all[k],
            j <= all.len(),
            show_all_spec(all.subrange(0, j as int), cs) == (Ok::<(), ScriptError>(()), game@),
        decreases all.len() - j,
    {
        assert(all.subrange(0, j + 1).drop_last() =~= all.subrange(0, j as int));
        assert(all.subrange(0, j + 1).last() == all[j as int]);
        assert(owners@[j as int]@ == all[j as int]);
        let r = show_health(game, &owners[j]);
        if let Err(e) = r {
            proof {
                lemma_show_all_stops(all, cs, j as int + 1);
            }
            return Err(e);
        }
        j = j + 1;
    }
    assert(all.subrange(0, all.len() as int) =~= all);
    Ok(())
}

/// Once one display fails, the ones after it are not shown.
proof fn lemma_show_all_stops(all: Seq<Seq<char>>, cs: Seq<Option<ComponentView>>, n: int)
    requires
        0 <= n <= all.len(),
        show_all_spec(all.subrange(0, n), cs).0 is Err,
    ensures
        show_all_spec(all, cs) == show_all_spec(all.subrange(0, n), cs),
    decreases all.len() - n,
{
    if n < all.len() {
        lemma_show_all_stops_at(all, cs, n, all.len() as int);
        assert(all.subrange(0, all.len() as int) =~= all);
    } else {
        assert(all.subrange(0, n) =~= all);
    }
}

proof fn lemma_show_all_stops_at(all: Seq<Seq<char>>, cs: Seq<Option<ComponentView>>, n: int, m: int)
    requires
        0 <= n <= m <= all.len(),
        show_all_spec(all.subrange(0, n), cs).0 is Err,
    ensures
        show_all_spec(all.subrange(0, m), cs) == show_all_spec(all.subrange(0, n), cs),
    decreases m - n,
{
    if m > n {
        lemma_show_all_stops_at(all, cs, n, m - 1);
        assert(all.subrange(0, m).drop_last() =~= all.subrange(0, m - 1));
    }
    if m == all.len() {
        assert(all.subrange(0, m) =~= all);
    }
}

/// Runs the listener's script on an event.
pub fn run_script(game: &mut GameManager, ev: &GameEvent, listener: &Listener) -> (r: Result<Vec<GameEvent>, ScriptError>)
    requires
        old(game).wf(),
    ensures
        final(game).wf(),
        (result_view(r), final(game)@) == script_spec(listener.view(), old(game)@, ev.view()),
{
    match listener.to_trigger {
        Script::PlayerMove => player_move(game, ev, listener),
        Script::OnHit => on_hit(game, ev, listener),
        Script::UpdateHealth => update_health(game, ev, listener),
    }
}

} // verus!
