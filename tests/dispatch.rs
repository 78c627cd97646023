use ecs_events::components::{Health, Monitor, TextBox, WorldPosition};
use ecs_events::events::{DispatchError, GameEvent, GameEventQueue, HitData, InputData, Key, Listener, Script, TickData};
use ecs_events::game::GameManager;
use ecs_events::scripts::{on_hit, on_update, player_move, update_health, ScriptError};
use ecs_events::tile_map::{Rect, TileMap, TileType};

fn hit_event(ev_type: &str, aggressor: &str, target: &str) -> GameEvent {
    let data = HitData { aggressor: aggressor.to_string(), target: target.to_string() }.to_payload().unwrap();
    GameEvent { ev_type: ev_type.to_string(), data }
}

fn key_event(key: Key) -> GameEvent {
    GameEvent { ev_type: "input.key_press".to_string(), data: InputData { key_code: key }.to_payload().unwrap() }
}

fn health_of(game: &GameManager, owner: &str) -> Option<u16> {
    let ids = game.get_components("Health", owner);
    if ids.is_empty() {
        return None;
    }
    Some(Health::from_payload(&game.get_component(ids[0]).unwrap().data).unwrap().current_health)
}

fn position_of(game: &GameManager, owner: &str) -> (u16, u16) {
    let ids = game.get_components("WorldPosition", owner);
    let p = WorldPosition::from_payload(&game.get_component(ids[0]).unwrap().data).unwrap();
    (p.x, p.y)
}

/// A walled 15 by 15 map, the player at (1, 1) and the enemy at (2, 1) with
/// full health.
fn arena() -> GameManager {
    let mut game = GameManager::new();
    let mut map = TileMap::new((15, 15));
    map.draw_rect(&Rect { x: 0, y: 0, width: 15, height: 15 }, TileType::WALL, false);
    game.add_component_from_data(&map, "map").unwrap();
    game.add_component_from_data(&WorldPosition { x: 1, y: 1, map: 0 }, "player").unwrap();
    game.add_component_from_data(&WorldPosition { x: 2, y: 1, map: 0 }, "enemy").unwrap();
    game.add_component_from_data(&Health { current_health: 10, max_health: 10 }, "enemy").unwrap();
    game
}

#[test]
fn attach_listener_assigns_ids_and_routes() {
    let mut eq = GameEventQueue::new();
    let a = eq.attach_listener(Listener::new(vec!["a", "b"], "enemy", Script::OnHit));
    let b = eq.attach_listener(Listener::new(vec!["b", "b"], "player", Script::PlayerMove));
    assert_eq!((a, b), (0, 1));
    assert_eq!(eq.listeners_for_type(&"a".to_string()), vec![0]);
    assert_eq!(eq.listeners_for_type(&"b".to_string()), vec![0, 1]);
    assert!(eq.listeners_for_type(&"c".to_string()).is_empty());
    assert_eq!(eq.listener(1).object_id, "player");
    assert_eq!(eq.listener(1).id, 1);
}

#[test]
fn listener_for_two_types_runs_once_and_not_for_others() {
    let mut game = arena();
    let mut eq = GameEventQueue::new();
    eq.attach_listener(Listener::new(vec!["a", "b"], "enemy", Script::OnHit));
    assert_eq!(eq.trigger_listeners(&mut game, hit_event("a", "player", "enemy")), Ok(()));
    assert_eq!(health_of(&game, "enemy"), Some(9));
    assert_eq!(eq.trigger_listeners(&mut game, hit_event("c", "player", "enemy")), Ok(()));
    assert_eq!(health_of(&game, "enemy"), Some(9));
    assert_eq!(eq.trigger_listeners(&mut game, hit_event("b", "player", "enemy")), Ok(()));
    assert_eq!(health_of(&game, "enemy"), Some(8));
}

#[test]
fn cascade_is_processed_before_dispatch_returns() {
    let mut game = arena();
    let mut eq = GameEventQueue::new();
    eq.attach_listener(Listener::new(vec!["input.key_press"], "player", Script::PlayerMove));
    eq.attach_listener(Listener::new(vec!["game.on_hit"], "enemy", Script::OnHit));
    assert_eq!(eq.trigger_listeners(&mut game, key_event(Key::Right)), Ok(()));
    // the hit that the move produced was handled within the same dispatch
    assert_eq!(health_of(&game, "enemy"), Some(9));
    assert_eq!(position_of(&game, "player"), (1, 1));
}

#[test]
fn on_hit_decrements_then_asks_for_removal() {
    let mut game = GameManager::new();
    game.add_component_from_data(&Health { current_health: 10, max_health: 10 }, "enemy").unwrap();
    let mut eq = GameEventQueue::new();
    let id = eq.attach_listener(Listener::new(vec!["game.on_hit"], "enemy", Script::OnHit));
    let hit = hit_event("game.on_hit", "player", "enemy");
    assert_eq!(eq.trigger_listeners(&mut game, hit_event("game.on_hit", "player", "enemy")), Ok(()));
    assert_eq!(health_of(&game, "enemy"), Some(9));
    for expected in (1..9).rev() {
        let out = on_hit(&mut game, &hit, eq.listener(id)).unwrap();
        assert!(out.is_empty());
        assert_eq!(health_of(&game, "enemy"), Some(expected));
    }
    // the tenth hit
    let out = on_hit(&mut game, &hit, eq.listener(id)).unwrap();
    assert_eq!(out.len(), 1);
    assert_eq!(out[0].ev_type, "game.remove_object");
    assert_eq!(out[0].data, "enemy");
}

#[test]
fn ten_hits_remove_the_enemy() {
    let mut game = GameManager::new();
    game.add_component_from_data(&Health { current_health: 10, max_health: 10 }, "enemy").unwrap();
    game.add_component_from_data(&Health { current_health: 5, max_health: 5 }, "player").unwrap();
    let mut eq = GameEventQueue::new();
    eq.attach_listener(Listener::new(vec!["game.on_hit"], "enemy", Script::OnHit));
    for _ in 0..9 {
        assert_eq!(eq.trigger_listeners(&mut game, hit_event("game.on_hit", "player", "enemy")), Ok(()));
    }
    assert_eq!(health_of(&game, "enemy"), Some(1));
    assert_eq!(eq.trigger_listeners(&mut game, hit_event("game.on_hit", "player", "enemy")), Ok(()));
    assert!(game.get_components_by_obj_mut("enemy").is_empty());
    assert_eq!(health_of(&game, "player"), Some(5));
}

#[test]
fn hit_on_someone_else_is_ignored() {
    let mut game = GameManager::new();
    game.add_component_from_data(&Health { current_health: 10, max_health: 10 }, "enemy").unwrap();
    let mut eq = GameEventQueue::new();
    let id = eq.attach_listener(Listener::new(vec!["game.on_hit"], "enemy", Script::OnHit));
    let out = on_hit(&mut game, &hit_event("game.on_hit", "enemy", "player"), eq.listener(id)).unwrap();
    assert!(out.is_empty());
    assert_eq!(health_of(&game, "enemy"), Some(10));
}

#[test]
fn move_onto_enemy_hits_instead() {
    let mut game = arena();
    let mut eq = GameEventQueue::new();
    let id = eq.attach_listener(Listener::new(vec!["input.key_press"], "player", Script::PlayerMove));
    let out = player_move(&mut game, &key_event(Key::Char('d')), eq.listener(id)).unwrap();
    assert_eq!(out.len(), 1);
    assert_eq!(out[0].ev_type, "game.on_hit");
    let hit = HitData::from_payload(&out[0].data).unwrap();
    assert_eq!(hit.aggressor, "player");
    assert_eq!(hit.target, "enemy");
    assert_eq!(position_of(&game, "player"), (1, 1));
    assert_eq!(position_of(&game, "enemy"), (2, 1));
}

#[test]
fn move_onto_floor_and_not_into_walls() {
    let mut game = arena();
    let mut eq = GameEventQueue::new();
    let id = eq.attach_listener(Listener::new(vec!["input.key_press"], "player", Script::PlayerMove));
    let out = player_move(&mut game, &key_event(Key::Down), eq.listener(id)).unwrap();
    assert!(out.is_empty());
    assert_eq!(position_of(&game, "player"), (1, 2));
    // (0, 2) is wall
    let out = player_move(&mut game, &key_event(Key::Left), eq.listener(id)).unwrap();
    assert!(out.is_empty());
    assert_eq!(position_of(&game, "player"), (1, 2));
    let out = player_move(&mut game, &key_event(Key::Char('w')), eq.listener(id)).unwrap();
    assert!(out.is_empty());
    assert_eq!(position_of(&game, "player"), (1, 1));
    // (1, 0) is wall
    player_move(&mut game, &key_event(Key::Up), eq.listener(id)).unwrap();
    assert_eq!(position_of(&game, "player"), (1, 1));
    // other keys leave the position as it is
    player_move(&mut game, &key_event(Key::Char('x')), eq.listener(id)).unwrap();
    assert_eq!(position_of(&game, "player"), (1, 1));
}

#[test]
fn unheard_event_changes_nothing() {
    let mut game = arena();
    let before: Vec<String> = (0..game.next_id()).map(|i| game.get_component(i).unwrap().data.clone()).collect();
    let mut eq = GameEventQueue::new();
    eq.attach_listener(Listener::new(vec!["game.on_hit"], "enemy", Script::OnHit));
    let tick = GameEvent { ev_type: "game.tick".to_string(), data: TickData { tick: 3 }.to_payload().unwrap() };
    assert_eq!(eq.trigger_listeners(&mut game, tick), Ok(()));
    let after: Vec<String> = (0..game.next_id()).map(|i| game.get_component(i).unwrap().data.clone()).collect();
    assert_eq!(before, after);
    assert_eq!(game.next_id(), 4);
}

#[test]
fn script_error_aborts_dispatch() {
    let mut game = arena();
    let mut eq = GameEventQueue::new();
    eq.attach_listener(Listener::new(vec!["game.on_hit"], "enemy", Script::OnHit));
    let bad = GameEvent { ev_type: "game.on_hit".to_string(), data: "{".to_string() };
    assert_eq!(eq.trigger_listeners(&mut game, bad), Err(DispatchError::Script(ScriptError::BadEvent)));
    assert_eq!(health_of(&game, "enemy"), Some(10));
}

#[test]
fn bad_component_is_reported() {
    let mut game = GameManager::new();
    let mut c = ecs_events::components::Component::new("enemy".to_string());
    c.c_type = "Health".to_string();
    c.data = "[1]".to_string();
    game.add_component(c);
    let mut eq = GameEventQueue::new();
    let id = eq.attach_listener(Listener::new(vec!["game.on_hit"], "enemy", Script::OnHit));
    let r = on_hit(&mut game, &hit_event("game.on_hit", "player", "enemy"), eq.listener(id));
    assert_eq!(r.err(), Some(ScriptError::BadComponent));
}

#[test]
fn removal_event_is_handled_without_listeners() {
    let mut game = arena();
    let mut eq = GameEventQueue::new();
    let ev = GameEvent { ev_type: "game.remove_object".to_string(), data: "enemy".to_string() };
    assert_eq!(eq.trigger_listeners(&mut game, ev), Ok(()));
    assert!(game.get_components_by_obj_mut("enemy").is_empty());
    assert_eq!(position_of(&game, "player"), (1, 1));
    eq.attach_listener(Listener::new(vec!["x"], "player", Script::OnHit));
}

#[test]
fn update_health_writes_the_text_box() {
    let mut game = GameManager::new();
    game.add_component_from_data(&Health { current_health: 7, max_health: 10 }, "enemy").unwrap();
    game.add_component_from_data(&TextBox { value: "?/?".to_string() }, "enemy_hb").unwrap();
    game.add_component_from_data(
        &Monitor { to_monitor: vec![("enemy".to_string(), "Health".to_string())] },
        "enemy_hb",
    ).unwrap();
    let mut eq = GameEventQueue::new();
    let id = eq.attach_listener(Listener::new(vec!["game.tick"], "enemy_hb", Script::UpdateHealth));
    let tick = GameEvent { ev_type: "game.tick".to_string(), data: TickData { tick: 0 }.to_payload().unwrap() };
    let out = update_health(&mut game, &tick, eq.listener(id)).unwrap();
    assert!(out.is_empty());
    let tb = game.get_components("TextBox", "enemy_hb");
    assert_eq!(TextBox::from_payload(&game.get_component(tb[0]).unwrap().data).unwrap().value, "7/10");
}

#[test]
fn update_health_without_monitor_shows_unknown() {
    let mut game = GameManager::new();
    game.add_component_from_data(&TextBox { value: "".to_string() }, "hb").unwrap();
    let mut eq = GameEventQueue::new();
    eq.attach_listener(Listener::new(vec!["game.tick"], "hb", Script::UpdateHealth));
    let tick = GameEvent { ev_type: "game.tick".to_string(), data: TickData { tick: 0 }.to_payload().unwrap() };
    assert_eq!(eq.trigger_listeners(&mut game, tick), Ok(()));
    assert_eq!(TextBox::from_payload(&game.get_component(0).unwrap().data).unwrap().value, "?/?");
}

#[test]
fn event_payloads_round_trip() {
    for key in [Key::Left, Key::Right, Key::Up, Key::Down, Key::Esc, Key::Null, Key::Char('q'), Key::Other] {
        let d = InputData { key_code: key }.to_payload().unwrap();
        assert!(InputData::from_payload(&d).unwrap().key_code == key);
    }
    assert_eq!(TickData { tick: 42 }.to_payload().unwrap(), "[42]");
    assert_eq!(TickData::from_payload("[42]").unwrap().tick, 42);
    assert!(TickData::from_payload("[70000]").is_none());
    let d = HitData { aggressor: "a".to_string(), target: "b".to_string() }.to_payload().unwrap();
    assert_eq!(d, "[\"a\",\"b\"]");
    assert!(HitData::from_payload("[\"a\"]").is_none());
}

#[test]
fn on_update_refreshes_every_display() {
    let mut game = GameManager::new();
    game.add_component_from_data(&Health { current_health: 3, max_health: 12 }, "enemy").unwrap();
    game.add_component_from_data(&Health { current_health: 100, max_health: 100 }, "player").unwrap();
    for (hb, who) in [("enemy_hb", "enemy"), ("player_hb", "player")] {
        game.add_component_from_data(&TextBox { value: String::new() }, hb).unwrap();
        game.add_component_from_data(&Monitor { to_monitor: vec![(who.to_string(), "Health".to_string())] }, hb).unwrap();
    }
    let tick = GameEvent { ev_type: "game.tick".to_string(), data: TickData { tick: 1 }.to_payload().unwrap() };
    assert_eq!(on_update(&mut game, &tick), Ok(()));
    let text = |game: &GameManager, hb: &str| {
        let ids = game.get_components("TextBox", hb);
        TextBox::from_payload(&game.get_component(ids[0]).unwrap().data).unwrap().value
    };
    assert_eq!(text(&game, "enemy_hb"), "3/12");
    assert_eq!(text(&game, "player_hb"), "100/100");
}
