use rusty_fusion::chunk::{
    world_pos_to_chunk_pos, ChunkCoords, EntityMap, InstanceID, TickMode, CHUNK_SIZE, MAP_SIZE,
    NCHUNKS,
};
use rusty_fusion::entity::{EntityID, Position};

/// Position that maps to chunk (x, y) in the grid.
/// Each chunk spans MAP_SIZE / NCHUNKS units.
fn pos_for_chunk(x: i32, y: i32) -> Position {
    let chunk_size = MAP_SIZE / NCHUNKS as i32;
    Position {
        x: x * chunk_size + chunk_size / 2,
        y: y * chunk_size + chunk_size / 2,
        z: 0,
    }
}

fn default_instance() -> InstanceID {
    InstanceID::default()
}

/// Register an entity in the map and place it in the appropriate chunk.
fn place_entity(map: &mut EntityMap, id: EntityID, pos: Position, inst: InstanceID) -> ChunkCoords {
    let chunk = ChunkCoords::from_pos_inst(pos, inst);
    map.track(id, TickMode::WhenLoaded);
    map.update(id, Some(chunk));
    chunk
}

#[test]
fn test_loaded_counts_zero_initially() {
    let map = EntityMap::default();
    assert_eq!(map.get_num_loaded_chunks(), 0);
    assert_eq!(map.get_num_loaded_entities(), 0);
}

#[test]
fn test_player_loads_surrounding_chunks() {
    let mut map = EntityMap::default();
    let inst = default_instance();

    let pos = pos_for_chunk(64, 64);
    place_entity(&mut map, EntityID::Player(1), pos, inst);

    assert_eq!(map.get_num_loaded_chunks(), 9);
    assert_eq!(map.get_num_loaded_entities(), 1);
}

#[test]
fn test_npc_in_loaded_chunk_counted() {
    let mut map = EntityMap::default();
    let inst = default_instance();
    let pos = pos_for_chunk(64, 64);

    place_entity(&mut map, EntityID::NPC(1), pos, inst);
    assert_eq!(map.get_num_loaded_chunks(), 0);
    assert_eq!(map.get_num_loaded_entities(), 0);

    place_entity(&mut map, EntityID::Player(1), pos, inst);
    assert_eq!(map.get_num_loaded_chunks(), 9);
    assert_eq!(map.get_num_loaded_entities(), 2);
}

#[test]
fn test_removing_player_unloads_chunks() {
    let mut map = EntityMap::default();
    let inst = default_instance();
    let pos = pos_for_chunk(64, 64);

    place_entity(&mut map, EntityID::Player(1), pos, inst);
    assert_eq!(map.get_num_loaded_chunks(), 9);
    assert_eq!(map.get_num_loaded_entities(), 1);

    map.update(EntityID::Player(1), None);
    assert_eq!(map.get_num_loaded_chunks(), 0);
    assert_eq!(map.get_num_loaded_entities(), 0);
}

#[test]
fn test_two_players_overlapping_visibility() {
    let mut map = EntityMap::default();
    let inst = default_instance();
    let pos = pos_for_chunk(64, 64);

    place_entity(&mut map, EntityID::Player(1), pos, inst);
    place_entity(&mut map, EntityID::Player(2), pos, inst);

    assert_eq!(map.get_num_loaded_chunks(), 9);
    assert_eq!(map.get_num_loaded_entities(), 2);
}

#[test]
fn test_removing_one_of_two_overlapping_players() {
    let mut map = EntityMap::default();
    let inst = default_instance();
    let pos = pos_for_chunk(64, 64);

    place_entity(&mut map, EntityID::Player(1), pos, inst);
    place_entity(&mut map, EntityID::Player(2), pos, inst);

    map.update(EntityID::Player(1), None);
    assert_eq!(map.get_num_loaded_chunks(), 9);
    assert_eq!(map.get_num_loaded_entities(), 1);
}

#[test]
fn test_npc_added_to_already_loaded_chunk() {
    let mut map = EntityMap::default();
    let inst = default_instance();
    let pos = pos_for_chunk(64, 64);

    place_entity(&mut map, EntityID::Player(1), pos, inst);
    assert_eq!(map.get_num_loaded_entities(), 1);

    place_entity(&mut map, EntityID::NPC(1), pos, inst);
    assert_eq!(map.get_num_loaded_entities(), 2);

    place_entity(&mut map, EntityID::NPC(2), pos, inst);
    assert_eq!(map.get_num_loaded_entities(), 3);
}

#[test]
fn test_npc_removed_from_loaded_chunk() {
    let mut map = EntityMap::default();
    let inst = default_instance();
    let pos = pos_for_chunk(64, 64);

    place_entity(&mut map, EntityID::Player(1), pos, inst);
    place_entity(&mut map, EntityID::NPC(1), pos, inst);
    assert_eq!(map.get_num_loaded_entities(), 2);

    map.update(EntityID::NPC(1), None);
    assert_eq!(map.get_num_loaded_entities(), 1);
    assert_eq!(map.get_num_loaded_chunks(), 9);
}

#[test]
fn test_player_moving_between_chunks() {
    let mut map = EntityMap::default();
    let inst = default_instance();

    let pos1 = pos_for_chunk(64, 64);
    place_entity(&mut map, EntityID::Player(1), pos1, inst);
    assert_eq!(map.get_num_loaded_chunks(), 9);

    let pos2 = pos_for_chunk(80, 80);
    let new_coords = ChunkCoords::from_pos_inst(pos2, inst);
    map.update(EntityID::Player(1), Some(new_coords));

    assert_eq!(map.get_num_loaded_chunks(), 9);
    assert_eq!(map.get_num_loaded_entities(), 1);
}

#[test]
fn test_npcs_in_chunk_counted_on_load_transition() {
    let mut map = EntityMap::default();
    let inst = default_instance();
    let pos = pos_for_chunk(64, 64);

    for i in 1..=5 {
        place_entity(&mut map, EntityID::NPC(i), pos, inst);
    }
    assert_eq!(map.get_num_loaded_entities(), 0);

    place_entity(&mut map, EntityID::Player(1), pos, inst);
    assert_eq!(map.get_num_loaded_entities(), 6);

    map.update(EntityID::Player(1), None);
    assert_eq!(map.get_num_loaded_entities(), 0);
    assert_eq!(map.get_num_loaded_chunks(), 0);
}

#[test]
fn test_entity_at_chunk_boundary() {
    let mut map = EntityMap::default();
    let inst = default_instance();

    let player_pos = pos_for_chunk(1, 1);
    place_entity(&mut map, EntityID::Player(1), player_pos, inst);

    let npc_pos = pos_for_chunk(2, 2);
    place_entity(&mut map, EntityID::NPC(1), npc_pos, inst);
    assert_eq!(map.get_num_loaded_entities(), 2);

    let far_npc_pos = pos_for_chunk(3, 3);
    place_entity(&mut map, EntityID::NPC(2), far_npc_pos, inst);
    assert_eq!(map.get_num_loaded_entities(), 2);
}

#[test]
fn test_update_returns_visibility_deltas() {
    let mut map = EntityMap::default();
    let inst = default_instance();
    let pos = pos_for_chunk(64, 64);

    // Place NPC first
    place_entity(&mut map, EntityID::NPC(1), pos, inst);

    // Place player at same position — NPC should appear in `added`
    map.track(EntityID::Player(1), TickMode::WhenLoaded);
    let chunk = ChunkCoords::from_pos_inst(pos, inst);
    let (removed, added) = map.update(EntityID::Player(1), Some(chunk)).unwrap();
    assert!(removed.is_empty());
    assert!(added.contains(&EntityID::NPC(1)));

    // Move player far away — NPC should appear in `removed`
    let far_pos = pos_for_chunk(80, 80);
    let far_chunk = ChunkCoords::from_pos_inst(far_pos, inst);
    let (removed, added) = map.update(EntityID::Player(1), Some(far_chunk)).unwrap();
    assert!(removed.contains(&EntityID::NPC(1)));
    assert!(!added.contains(&EntityID::NPC(1)));
}

#[test]
fn test_update_same_chunk_returns_none() {
    let mut map = EntityMap::default();
    let inst = default_instance();
    let pos = pos_for_chunk(64, 64);
    let chunk = ChunkCoords::from_pos_inst(pos, inst);

    place_entity(&mut map, EntityID::Player(1), pos, inst);
    assert!(map.update(EntityID::Player(1), Some(chunk)).is_none());
}

// ---- further cases ----

#[test]
fn chunk_size_matches_map_size_over_chunk_count() {
    assert_eq!(CHUNK_SIZE, 6400);
    assert_eq!(MAP_SIZE as usize / NCHUNKS, CHUNK_SIZE);
}

#[test]
fn world_pos_maps_to_chunk_indices() {
    assert_eq!(world_pos_to_chunk_pos(Position { x: 0, y: 0, z: 7 }), (0, 0));
    assert_eq!(world_pos_to_chunk_pos(Position { x: 6399, y: 6400, z: 0 }), (0, 1));
    assert_eq!(world_pos_to_chunk_pos(Position { x: 819199, y: 12800, z: 0 }), (127, 2));
    // Truncating division: a small negative coordinate still lands in chunk 0.
    assert_eq!(world_pos_to_chunk_pos(Position { x: -6399, y: -6400, z: 0 }), (0, -1));
}

#[test]
fn chunk_coords_keep_the_instance() {
    let inst = InstanceID { channel_num: 3, map_num: 9, instance_num: Some(4) };
    let c = ChunkCoords::from_pos_inst(Position { x: 12800, y: 6400, z: 0 }, inst);
    assert_eq!(c, ChunkCoords { i: inst, x: 2, y: 1 });
}

#[test]
fn default_instance_is_channel_one_overworld() {
    let inst = InstanceID::default();
    assert_eq!(inst.channel_num, 1);
    assert_eq!(inst.map_num, 0);
    assert_eq!(inst.instance_num, None);
}

#[test]
fn corner_player_loads_only_chunks_on_the_grid() {
    let mut map = EntityMap::default();
    place_entity(&mut map, EntityID::Player(1), pos_for_chunk(0, 0), default_instance());
    assert_eq!(map.get_num_loaded_chunks(), 4);
}

#[test]
fn wider_range_loads_more_chunks() {
    let mut map = EntityMap::new(2, 1);
    place_entity(&mut map, EntityID::Player(1), pos_for_chunk(64, 64), default_instance());
    assert_eq!(map.get_num_loaded_chunks(), 25);
}

#[test]
fn off_grid_target_places_nowhere() {
    let mut map = EntityMap::default();
    let inst = default_instance();
    map.track(EntityID::NPC(1), TickMode::Always);
    let off = ChunkCoords { i: inst, x: -1, y: 5 };
    let res = map.update(EntityID::NPC(1), Some(off));
    assert!(res.is_some());
    assert_eq!(map.get_entity_chunk(EntityID::NPC(1)), None);
    assert_eq!(map.get_num_instances(), 0);
}

#[test]
fn move_away_and_back_restores_loads() {
    let mut map = EntityMap::default();
    let inst = default_instance();
    let home = place_entity(&mut map, EntityID::Player(1), pos_for_chunk(10, 10), inst);
    place_entity(&mut map, EntityID::NPC(1), pos_for_chunk(11, 10), inst);
    let loaded = map.get_num_loaded_chunks();
    let entities = map.get_num_loaded_entities();
    map.update(EntityID::Player(1), Some(ChunkCoords::from_pos_inst(pos_for_chunk(40, 40), inst)));
    assert_eq!(map.get_num_loaded_entities(), 1);
    map.update(EntityID::Player(1), Some(home));
    assert_eq!(map.get_num_loaded_chunks(), loaded);
    assert_eq!(map.get_num_loaded_entities(), entities);
    assert_eq!(map.get_entity_chunk(EntityID::Player(1)), Some(home));
}

#[test]
fn around_queries_see_the_neighbourhood() {
    let mut map = EntityMap::default();
    let inst = default_instance();
    let c = place_entity(&mut map, EntityID::Player(1), pos_for_chunk(5, 5), inst);
    place_entity(&mut map, EntityID::NPC(1), pos_for_chunk(6, 6), inst);
    place_entity(&mut map, EntityID::NPC(2), pos_for_chunk(7, 7), inst);
    let around = map.get_around_chunk(c);
    assert!(around.contains(&EntityID::Player(1)));
    assert!(around.contains(&EntityID::NPC(1)));
    assert!(!around.contains(&EntityID::NPC(2)));
    assert_eq!(around.len(), 2);
    let around_npc = map.get_around_entity(EntityID::NPC(2));
    assert!(around_npc.contains(&EntityID::NPC(1)));
    assert!(around_npc.contains(&EntityID::NPC(2)));
    assert!(!around_npc.contains(&EntityID::Player(1)));
    assert!(map.get_around_entity(EntityID::Egg(3)).is_empty());
}

#[test]
fn registry_queries() {
    let mut map = EntityMap::default();
    let inst = default_instance();
    assert!(!map.is_tracked(EntityID::Player(7)));
    map.track(EntityID::Player(7), TickMode::Never);
    map.track(EntityID::NPC(3), TickMode::Always);
    map.track(EntityID::Slider(2), TickMode::WhenLoaded);
    assert!(map.is_tracked(EntityID::Player(7)));
    assert!(matches!(map.get_tick_mode(EntityID::Player(7)), Some(TickMode::Never)));
    assert!(map.get_tick_mode(EntityID::Egg(1)).is_none());
    assert_eq!(map.get_player_ids(), vec![7]);
    assert_eq!(map.get_npc_ids(), vec![3]);
    assert_eq!(map.get_all_ids().len(), 3);
    assert!(map.set_tick(EntityID::Player(7), TickMode::Always).is_ok());
    assert!(matches!(map.get_tick_mode(EntityID::Player(7)), Some(TickMode::Always)));
    map.untrack(EntityID::NPC(3));
    assert!(!map.is_tracked(EntityID::NPC(3)));
    assert!(!map.instance_exists(inst));
}

#[test]
fn set_tick_on_unknown_entity_is_a_warning() {
    let mut map = EntityMap::default();
    let err = map.set_tick(EntityID::NPC(42), TickMode::Always).unwrap_err();
    assert_eq!(err.get_msg(), "Entity with ID NPC(42) doesn't exist");
    assert!(matches!(err.get_severity(), rusty_fusion::error::Severity::Warning));
}

#[test]
fn ids_are_handed_out_in_order() {
    let mut map = EntityMap::default();
    assert_eq!(map.gen_next_pc_id(), 1);
    assert_eq!(map.gen_next_pc_id(), 2);
    assert_eq!(map.gen_next_npc_id(), 1);
    assert_eq!(map.gen_next_slider_id(), 1);
    assert_eq!(map.gen_next_egg_id(), 1);
    assert_eq!(map.gen_next_egg_id(), 2);
    assert_eq!(map.gen_next_npc_id(), 2);
}

#[test]
fn tickable_ids_follow_tick_modes() {
    let mut map = EntityMap::default();
    let inst = default_instance();
    map.track(EntityID::NPC(1), TickMode::Always);
    map.track(EntityID::NPC(2), TickMode::Never);
    map.track(EntityID::NPC(3), TickMode::WhenLoaded);
    place_entity(&mut map, EntityID::NPC(4), pos_for_chunk(30, 30), inst);
    let ids = map.get_tickable_ids();
    assert!(ids.contains(&EntityID::NPC(1)));
    assert!(!ids.contains(&EntityID::NPC(2)));
    assert!(ids.contains(&EntityID::NPC(3)));
    assert!(!ids.contains(&EntityID::NPC(4)));
    place_entity(&mut map, EntityID::Player(1), pos_for_chunk(31, 31), inst);
    let ids = map.get_tickable_ids();
    assert!(ids.contains(&EntityID::NPC(4)));
}

#[test]
fn instances_and_channels() {
    let mut map = EntityMap::new(1, 3);
    let base2 = InstanceID { channel_num: 2, map_num: 0, instance_num: None };
    let private = InstanceID { channel_num: 1, map_num: 5, instance_num: Some(1) };
    place_entity(&mut map, EntityID::Player(1), pos_for_chunk(3, 3), base2);
    place_entity(&mut map, EntityID::Player(2), pos_for_chunk(3, 3), base2);
    place_entity(&mut map, EntityID::Player(3), pos_for_chunk(3, 3), private);
    place_entity(&mut map, EntityID::NPC(1), pos_for_chunk(3, 3), private);
    assert_eq!(map.get_num_instances(), 2);
    assert_eq!(map.get_num_base_instances(), 1);
    assert_eq!(map.get_num_chunks(), 2 * 128 * 128);
    assert_eq!(map.get_channel_population(1), 1);
    assert_eq!(map.get_channel_population(2), 2);
    assert_eq!(map.get_channel_population(3), 0);
    assert_eq!(map.get_min_pop_channel_num(), 3);
    let mut ids = map.get_instance_ids(private);
    ids.sort_by_key(|e| format!("{:?}", e));
    assert_eq!(ids, vec![EntityID::NPC(1), EntityID::Player(3)]);
}

#[test]
fn min_pop_channel_prefers_the_lowest_number() {
    let map = EntityMap::new(1, 4);
    assert_eq!(map.get_min_pop_channel_num(), 1);
}

#[test]
fn empty_private_instance_is_collected() {
    let mut map = EntityMap::default();
    let private = InstanceID { channel_num: 1, map_num: 7, instance_num: Some(2) };
    place_entity(&mut map, EntityID::Player(1), pos_for_chunk(3, 3), private);
    place_entity(&mut map, EntityID::NPC(1), pos_for_chunk(4, 4), private);
    map.update(EntityID::Player(1), None);
    assert!(map.instance_exists(private));
    let gone = map.garbage_collect_instances();
    assert_eq!(gone, vec![EntityID::NPC(1)]);
    assert!(!map.instance_exists(private));
    assert!(!map.is_tracked(EntityID::NPC(1)));
    assert!(map.is_tracked(EntityID::Player(1)));
    assert!(map.garbage_collect_instances().is_empty());
}

#[test]
fn base_instance_is_never_collected() {
    let mut map = EntityMap::default();
    let inst = default_instance();
    place_entity(&mut map, EntityID::Player(1), pos_for_chunk(3, 3), inst);
    map.update(EntityID::Player(1), None);
    assert!(map.garbage_collect_instances().is_empty());
    assert!(map.instance_exists(inst));
}

#[test]
fn marked_entities_are_collected_once() {
    let mut map = EntityMap::default();
    map.track(EntityID::Egg(1), TickMode::Always);
    map.track(EntityID::Egg(2), TickMode::Always);
    map.mark_for_cleanup(EntityID::Egg(1));
    map.mark_for_cleanup(EntityID::Egg(1));
    let gone = map.garbage_collect_entities();
    assert_eq!(gone, vec![EntityID::Egg(1)]);
    assert!(!map.is_tracked(EntityID::Egg(1)));
    assert!(map.is_tracked(EntityID::Egg(2)));
    assert!(map.garbage_collect_entities().is_empty());
}

#[test]
fn instance_and_coords_text() {
    assert_eq!(InstanceID::default().display_string(), "1/0:None");
    let inst = InstanceID { channel_num: 2, map_num: 7, instance_num: Some(4) };
    assert_eq!(inst.display_string(), "2/7:4");
    let c = ChunkCoords { i: InstanceID::default(), x: 3, y: -4 };
    assert_eq!(c.display_string(), "(3, -4, 1/0:None)");
    let big = InstanceID { channel_num: 255, map_num: u32::MAX, instance_num: Some(1234567890) };
    assert_eq!(big.display_string(), "255/4294967295:1234567890");
}
