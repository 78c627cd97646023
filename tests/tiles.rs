use ecs_events::components::{Health, TextBox, WorldPosition};
use ecs_events::components::IsComponent;
use ecs_events::rterm::clamp;
use ecs_events::tile_map::{Rect, TileMap, TileType};

#[test]
fn new_map_is_all_floor() {
    let map = TileMap::new((3, 2));
    assert_eq!(map.get_size(), (3, 2));
    for x in 0..3 {
        for y in 0..2 {
            assert!(map.tile_at((x, y)) == TileType::FLOOR);
        }
    }
    let tiles = TileMap::instantiate_map((2, 4));
    assert_eq!(tiles.len(), 2);
    assert_eq!(tiles[1].len(), 4);
}

#[test]
fn draw_rect_outline_and_filled() {
    let mut map = TileMap::new((5, 5));
    map.draw_rect(&Rect { x: 0, y: 0, width: 5, height: 5 }, TileType::WALL, false);
    assert!(map.tile_at((0, 0)) == TileType::WALL);
    assert!(map.tile_at((4, 2)) == TileType::WALL);
    assert!(map.tile_at((2, 4)) == TileType::WALL);
    assert!(map.tile_at((2, 2)) == TileType::FLOOR);
    assert!(map.tile_at((1, 1)) == TileType::FLOOR);
    map.draw_rect(&Rect { x: 1, y: 1, width: 2, height: 2 }, TileType::WALL, true);
    assert!(map.tile_at((1, 1)) == TileType::WALL);
    assert!(map.tile_at((2, 2)) == TileType::WALL);
    assert!(map.tile_at((3, 3)) == TileType::FLOOR);
}

#[test]
fn to_rect_covers_the_map() {
    let map = TileMap::new((15, 9));
    let r = map.to_rect();
    assert_eq!((r.x, r.y, r.width, r.height), (0, 0, 15, 9));
}

#[test]
fn tile_map_payload_round_trips() {
    let mut map = TileMap::new((3, 2));
    map.draw_rect(&Rect { x: 2, y: 0, width: 1, height: 2 }, TileType::WALL, true);
    assert_eq!(map.get_type_name(), "TileMap");
    let d = map.to_payload().unwrap();
    assert_eq!(d, "[3,2,0,0,0,0,1,1]");
    let back = TileMap::from_payload(&d).unwrap();
    assert_eq!(back.get_size(), (3, 2));
    assert!(back.tile_at((2, 1)) == TileType::WALL);
    assert!(back.tile_at((0, 1)) == TileType::FLOOR);
    assert!(TileMap::from_payload("[3,2,0]").is_none());
    assert!(TileMap::from_payload("[1,1,2]").is_none());
}

#[test]
fn clamp_bounds() {
    assert_eq!(clamp(5, 0, 10), 5);
    assert_eq!(clamp(0, 2, 10), 2);
    assert_eq!(clamp(11, 2, 10), 10);
    assert_eq!(clamp(10, 2, 10), 10);
}

#[test]
fn json_payloads() {
    let p = WorldPosition { x: 1, y: 20, map: 300 };
    assert_eq!(p.to_payload().unwrap(), "[1,20,300]");
    let h = Health::from_payload(" [4, 5] ").unwrap();
    assert_eq!((h.current_health, h.max_health), (4, 5));
    assert!(Health::from_payload("[-1,2]").is_none());
    let t = TextBox { value: "b\"c".to_string() };
    assert_eq!(t.to_payload().unwrap(), "[\"b\\\"c\"]");
    assert_eq!(TextBox::from_payload("[\"x\"]").unwrap().value, "x");
    assert!(TextBox::from_payload("[1]").is_none());
}
