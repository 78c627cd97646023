use ecs_events::components::{Component, Glyph, Health, IsComponent, Monitor, TextBox, WorldPosition};
use ecs_events::game::GameManager;

fn component(owner: &str, tag: &str, data: &str) -> Component {
    let mut c = Component::new(owner.to_string());
    c.c_type = tag.to_string();
    c.data = data.to_string();
    c
}

#[test]
fn new_component_is_empty() {
    let c = Component::new("player".to_string());
    assert_eq!(c.id, 0);
    assert_eq!(c.obj_id, "player");
    assert_eq!(c.data, "");
    assert_eq!(c.c_type, "");
}

#[test]
fn add_returns_fresh_ids_and_round_trips() {
    let mut game = GameManager::new();
    let inputs = [
        ("player", "Health", "ten"),
        ("enemy", "Health", "eight"),
        ("player", "Glyph", "at"),
        ("player", "Health", "five"),
    ];
    let mut ids = vec![];
    for (owner, tag, data) in inputs.iter() {
        ids.push(game.add_component(component(owner, tag, data)));
    }
    assert_eq!(ids, vec![0, 1, 2, 3]);
    for (id, (owner, tag, data)) in ids.iter().zip(inputs.iter()) {
        let c = game.get_component(*id).unwrap();
        assert_eq!(c.id, *id);
        assert_eq!(c.obj_id, *owner);
        assert_eq!(c.c_type, *tag);
        assert_eq!(c.data, *data);
    }
    assert!(game.get_component(4).is_none());
    assert_eq!(game.next_id(), 4);
}

#[test]
fn lookups_by_owner_and_by_type() {
    let mut game = GameManager::new();
    game.add_component(component("player", "Health", "a"));
    game.add_component(component("enemy", "Health", "b"));
    game.add_component(component("player", "Glyph", "c"));
    assert_eq!(game.get_components_by_obj_mut("player"), vec![0, 2]);
    assert_eq!(game.get_components_by_obj_mut("enemy"), vec![1]);
    assert_eq!(game.get_components_by_type_mut("Health"), vec![0, 1]);
    assert_eq!(game.get_components_by_type_mut("Glyph"), vec![2]);
    assert!(game.get_components_by_obj_mut("nobody").is_empty());
    assert!(game.get_components_by_type_mut("Nothing").is_empty());
}

#[test]
fn owner_and_type_is_an_intersection() {
    let mut game = GameManager::new();
    game.add_component(component("player", "Health", "a"));
    game.add_component(component("enemy", "Health", "b"));
    game.add_component(component("player", "Glyph", "c"));
    game.add_component(component("player", "Health", "d"));
    // A union would also hold 1 and 2.
    assert_eq!(game.get_components("Health", "player"), vec![0, 3]);
    assert_eq!(game.get_components("Glyph", "enemy"), Vec::<u16>::new());
    assert_eq!(game.get_components("Health", "nobody"), Vec::<u16>::new());
    assert_eq!(game.get_components("Nothing", "player"), Vec::<u16>::new());
}

#[test]
fn set_data_replaces_the_payload_only() {
    let mut game = GameManager::new();
    let id = game.add_component(component("player", "Health", "old"));
    assert!(game.set_data(id, "new".to_string()));
    let c = game.get_component(id).unwrap();
    assert_eq!(c.data, "new");
    assert_eq!(c.obj_id, "player");
    assert_eq!(c.c_type, "Health");
    assert!(!game.set_data(7, "x".to_string()));
}

#[test]
fn remove_object_purges_its_components() {
    let mut game = GameManager::new();
    game.add_component(component("enemy", "Health", "a"));
    game.add_component(component("player", "Health", "b"));
    game.add_component(component("enemy", "Glyph", "c"));
    game.remove_object("enemy");
    assert!(game.get_component(0).is_none());
    assert!(game.get_component(2).is_none());
    assert_eq!(game.get_component(1).unwrap().data, "b");
    assert!(game.get_components_by_obj_mut("enemy").is_empty());
    assert_eq!(game.get_components_by_type_mut("Health"), vec![1]);
    assert!(game.get_components_by_type_mut("Glyph").is_empty());
    // ids are never reused
    assert_eq!(game.add_component(component("enemy", "Health", "d")), 3);
    assert_eq!(game.get_components("Health", "enemy"), vec![3]);
}

#[test]
fn add_component_from_data_encodes_and_tags() {
    let mut game = GameManager::new();
    let h = Health { current_health: 10, max_health: 10 };
    let id = game.add_component_from_data(&h, "enemy").unwrap();
    let c = game.get_component(id).unwrap();
    assert_eq!(c.c_type, "Health");
    assert_eq!(c.obj_id, "enemy");
    assert_eq!(c.data, "[10,10]");
    let back = Health::from_payload(&c.data).unwrap();
    assert_eq!(back.current_health, 10);
    assert_eq!(back.max_health, 10);
}

#[test]
fn component_set_data_takes_tag_and_payload() {
    let mut c = Component::new("player".to_string());
    let p = WorldPosition { x: 3, y: 4, map: 0 };
    assert!(c.set_data(&p));
    assert_eq!(c.c_type, "WorldPosition");
    assert_eq!(c.data, "[3,4,0]");
}

#[test]
fn schemas_round_trip() {
    let g = Glyph { glyph: '@' };
    assert_eq!(g.get_type_name(), "Glyph");
    let d = g.to_payload().unwrap();
    assert_eq!(Glyph::from_payload(&d).unwrap().glyph, '@');

    let t = TextBox { value: "9/10".to_string() };
    let d = t.to_payload().unwrap();
    assert_eq!(d, "[\"9/10\"]");
    assert_eq!(TextBox::from_payload(&d).unwrap().value, "9/10");

    let m = Monitor { to_monitor: vec![("enemy".to_string(), "Health".to_string()), ("a".to_string(), "b".to_string())] };
    let d = m.to_payload().unwrap();
    let back = Monitor::from_payload(&d).unwrap();
    assert_eq!(back.to_monitor, m.to_monitor);

    let p = WorldPosition { x: 1, y: 2, map: 7 };
    let back = WorldPosition::from_payload(&p.to_payload().unwrap()).unwrap();
    assert_eq!((back.x, back.y, back.map), (1, 2, 7));
}

#[test]
fn decoding_rejects_the_wrong_shape() {
    assert!(Health::from_payload("[1,2,3]").is_none());
    assert!(Health::from_payload("[70000,2]").is_none());
    assert!(Health::from_payload("not json").is_none());
    assert!(WorldPosition::from_payload("[1,2]").is_none());
    assert!(Monitor::from_payload("[\"a\"]").is_none());
    assert!(TextBox::from_payload("[1]").is_none());
    assert!(Glyph::from_payload("[55296]").is_none());
}
