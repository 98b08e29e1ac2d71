use demo_edit::cut::entity::{encode_entities, ActiveEntities};
use demo_edit::types::{
    MessagePacket, MessagePacketMeta, Packet, PacketEntitiesMessage, PacketEntity, SendProp,
    SendPropValue, UpdateType, ViewAngles,
};

fn ent(id: u32, class: u16, serial: u32, tag: UpdateType, props: Vec<SendProp>) -> PacketEntity {
    PacketEntity {
        entity_index: id,
        server_class: class,
        serial_number: serial,
        update_type: tag,
        props,
        in_pvs: true,
        delay: None,
        delta_tick: None,
        baseline_second: false,
    }
}

fn pe_msg(
    entities: Vec<PacketEntity>,
    removed: Vec<u32>,
    delta: Option<u32>,
    max: u16,
) -> PacketEntitiesMessage {
    PacketEntitiesMessage {
        entities,
        removed_entities: removed,
        max_entries: max,
        delta,
        base_line_second: false,
        updated_base_line: false,
    }
}

fn prop(index: u32, identifier: u64, value: i64) -> SendProp {
    SendProp {
        index,
        identifier,
        value: SendPropValue::Integer(value),
    }
}

#[test]
fn tracker_enter_then_delete() {
    let mut tracker = ActiveEntities::new();
    let m1 = pe_msg(
        vec![
            ent(3, 1, 1, UpdateType::Enter, vec![prop(0, 10, 5)]),
            ent(7, 2, 1, UpdateType::Enter, vec![prop(0, 11, 6)]),
        ],
        vec![],
        None,
        64,
    );
    tracker.handle_message(&m1, 100);
    assert_eq!(tracker.entity_ids(), vec![3, 7]);

    let m2 = pe_msg(vec![ent(3, 1, 1, UpdateType::Delete, vec![])], vec![], None, 64);
    tracker.handle_message(&m2, 101);
    assert_eq!(tracker.entity_ids(), vec![7]);
}

#[test]
fn tracker_leave_removes_from_active_set() {
    let mut tracker = ActiveEntities::new();
    let m1 = pe_msg(vec![ent(9, 4, 1, UpdateType::Enter, vec![])], vec![], None, 8);
    tracker.handle_message(&m1, 10);
    let m2 = pe_msg(vec![ent(9, 4, 1, UpdateType::Leave, vec![])], vec![], None, 8);
    tracker.handle_message(&m2, 11);
    assert_eq!(tracker.entity_ids(), Vec::<u32>::new());
}

#[test]
fn tracker_explicit_removal() {
    let mut tracker = ActiveEntities::new();
    let m1 = pe_msg(
        vec![ent(1, 1, 1, UpdateType::Enter, vec![]), ent(2, 1, 1, UpdateType::Enter, vec![])],
        vec![],
        None,
        8,
    );
    tracker.handle_message(&m1, 10);
    let m2 = pe_msg(vec![], vec![2], None, 8);
    tracker.handle_message(&m2, 11);
    assert_eq!(tracker.entity_ids(), vec![1]);
}

#[test]
fn encode_empty_tracker_has_no_entities_or_removals() {
    let tracker = ActiveEntities::new();
    let (baselines, entity_update, removed_update) = tracker.encode(10);
    assert_eq!(baselines.len(), 2);
    assert!(baselines[0].entities.is_empty());
    assert!(baselines[1].entities.is_empty());
    assert!(baselines[0].updated_base_line);
    assert!(baselines[1].updated_base_line);
    assert!(baselines[0].base_line_second);
    assert!(!baselines[1].base_line_second);
    assert!(entity_update.entities.is_empty());
    assert_eq!(entity_update.delta, Some(10));
    assert_eq!(removed_update.delta, Some(11));
    assert!(removed_update.entities.is_empty());
    assert!(removed_update.removed_entities.is_empty());
}

#[test]
fn encode_tags_unbaselined_entity_enter() {
    let mut tracker = ActiveEntities::new();
    let m1 = pe_msg(
        vec![ent(7, 2, 1, UpdateType::Enter, vec![prop(0, 11, 6)])],
        vec![],
        None,
        64,
    );
    tracker.handle_message(&m1, 100);
    let (_baselines, entity_update, _removed) = tracker.encode(50);
    assert_eq!(entity_update.entities.len(), 1);
    assert_eq!(entity_update.entities[0].entity_index, 7);
    assert_eq!(entity_update.entities[0].update_type, UpdateType::Enter);
    assert_eq!(entity_update.entities[0].props, vec![prop(0, 11, 6)]);
}

#[test]
fn encode_emits_each_live_id_once_in_ascending_order() {
    let mut tracker = ActiveEntities::new();
    let m1 = pe_msg(
        vec![
            ent(2, 1, 1, UpdateType::Enter, vec![]),
            ent(5, 1, 1, UpdateType::Enter, vec![]),
            ent(9, 1, 1, UpdateType::Enter, vec![]),
        ],
        vec![],
        None,
        16,
    );
    tracker.handle_message(&m1, 10);
    let m2 = pe_msg(vec![ent(5, 1, 1, UpdateType::Preserve, vec![prop(0, 3, 1)])], vec![], None, 16);
    tracker.handle_message(&m2, 11);
    let (_b, entity_update, _r) = tracker.encode(40);
    let ids: Vec<u32> = entity_update.entities.iter().map(|e| e.entity_index).collect();
    assert_eq!(ids, vec![2, 5, 9]);
}

#[test]
fn tracker_respawn_forces_enter() {
    let mut tracker = ActiveEntities::new();
    let m1 = pe_msg(
        vec![ent(3, 5, 1, UpdateType::Enter, vec![prop(0, 7, 1)])],
        vec![],
        None,
        16,
    );
    tracker.handle_message(&m1, 10);
    let m2 = pe_msg(
        vec![ent(3, 5, 2, UpdateType::Preserve, vec![prop(0, 7, 2)])],
        vec![],
        None,
        16,
    );
    tracker.handle_message(&m2, 11);
    let (_b, entity_update, _r) = tracker.encode(40);
    assert_eq!(entity_update.entities.len(), 1);
    assert_eq!(entity_update.entities[0].serial_number, 2);
    assert_eq!(entity_update.entities[0].update_type, UpdateType::Enter);
    // the respawn applied its fields onto the kept record
    assert_eq!(entity_update.entities[0].props, vec![prop(0, 7, 2)]);
}

#[test]
fn tracker_update_merges_fields_by_identifier() {
    let mut tracker = ActiveEntities::new();
    let m1 = pe_msg(
        vec![ent(4, 1, 1, UpdateType::Enter, vec![prop(0, 20, 1), prop(1, 21, 2)])],
        vec![],
        None,
        16,
    );
    tracker.handle_message(&m1, 10);
    let m2 = pe_msg(
        vec![ent(4, 1, 1, UpdateType::Preserve, vec![prop(5, 21, 9), prop(2, 22, 3)])],
        vec![],
        None,
        16,
    );
    tracker.handle_message(&m2, 11);
    let (_b, entity_update, _r) = tracker.encode(40);
    // known identifier updated in place, new identifier appended
    assert_eq!(
        entity_update.entities[0].props,
        vec![prop(0, 20, 1), prop(1, 21, 9), prop(2, 22, 3)]
    );
}

#[test]
fn simulation_time_identifier_matches_codec() {
    let expected: u64 =
        tf_demo_parser::demo::sendprop::SendPropIdentifier::new("DT_BaseEntity", "m_flSimulationTime")
            .into();
    assert_eq!(demo_edit::idents::simulation_time_identifier(), expected);
    let cond: u64 =
        tf_demo_parser::demo::sendprop::SendPropIdentifier::new("DT_TFPlayerShared", "m_nPlayerCond")
            .into();
    assert_eq!(demo_edit::idents::player_cond_identifier(), cond);
    assert_ne!(demo_edit::idents::simulation_time_identifier(), cond);
}

#[test]
fn baseline_refresh_marks_entity_preserve() {
    let mut tracker = ActiveEntities::new();
    // an Enter carried by a slot-refreshing full update lands in the
    // first baseline slot, which the synthesis tags against
    let mut m1 = pe_msg(
        vec![ent(6, 3, 1, UpdateType::Enter, vec![prop(0, 30, 1)])],
        vec![],
        None,
        16,
    );
    m1.updated_base_line = true;
    m1.base_line_second = true;  // refresh copies slot 1 over slot 0
    tracker.handle_message(&m1, 10);
    let (_b, entity_update, _r) = tracker.encode(40);
    assert_eq!(entity_update.entities.len(), 1);
    assert_eq!(entity_update.entities[0].update_type, UpdateType::Preserve);
}

#[test]
fn respawned_baselined_entity_is_redeclared() {
    let mut tracker = ActiveEntities::new();
    // the baseline slot holds the entity under its first generation
    let mut m1 = pe_msg(
        vec![ent(6, 3, 1, UpdateType::Enter, vec![prop(0, 30, 1)])],
        vec![],
        None,
        16,
    );
    m1.updated_base_line = true;
    m1.base_line_second = true;
    tracker.handle_message(&m1, 10);
    // the slot is reused under an incremented generation
    let m2 = pe_msg(
        vec![ent(6, 3, 2, UpdateType::Enter, vec![prop(0, 30, 2)])],
        vec![],
        None,
        16,
    );
    tracker.handle_message(&m2, 11);
    let (_b, entity_update, _r) = tracker.encode(40);
    // the stale baseline must not make the respawned slot Preserve
    assert_eq!(entity_update.entities.len(), 1);
    assert_eq!(entity_update.entities[0].serial_number, 2);
    assert_eq!(entity_update.entities[0].update_type, UpdateType::Enter);
}

#[test]
fn baseline_only_id_becomes_removal() {
    let mut tracker = ActiveEntities::new();
    let mut m1 = pe_msg(
        vec![ent(6, 3, 1, UpdateType::Enter, vec![])],
        vec![],
        None,
        16,
    );
    m1.updated_base_line = true;
    m1.base_line_second = true;
    tracker.handle_message(&m1, 10);
    // the entity then leaves: it stays in the baseline slot only
    let m2 = pe_msg(vec![ent(6, 3, 1, UpdateType::Leave, vec![])], vec![], None, 16);
    tracker.handle_message(&m2, 11);
    let (_b, entity_update, _r) = tracker.encode(40);
    assert_eq!(entity_update.entities.len(), 1);
    assert_eq!(entity_update.entities[0].entity_index, 6);
    assert_eq!(entity_update.entities[0].update_type, UpdateType::Leave);

    // deleted instead of left: the removal is a Delete
    let mut tracker2 = ActiveEntities::new();
    let mut m3 = pe_msg(vec![ent(6, 3, 1, UpdateType::Enter, vec![])], vec![], None, 16);
    m3.updated_base_line = true;
    m3.base_line_second = true;
    tracker2.handle_message(&m3, 10);
    let m4 = pe_msg(vec![ent(6, 3, 1, UpdateType::Delete, vec![])], vec![], None, 16);
    tracker2.handle_message(&m4, 11);
    let (_b2, entity_update2, _r2) = tracker2.encode(40);
    assert_eq!(entity_update2.entities[0].update_type, UpdateType::Delete);
}

#[test]
fn removed_update_carries_replay_removals() {
    let mut tracker = ActiveEntities::new();
    let m1 = pe_msg(vec![ent(1, 1, 1, UpdateType::Enter, vec![])], vec![], None, 16);
    tracker.handle_message(&m1, 10);
    let m2 = pe_msg(vec![], vec![8, 3], None, 16);
    tracker.handle_message(&m2, 11);
    let (_b, _e, removed_update) = tracker.encode(40);
    assert_eq!(removed_update.removed_entities, vec![3, 8]);
}

#[test]
fn encode_entities_sorts_its_input() {
    let unsorted = vec![
        ent(9, 1, 1, UpdateType::Enter, vec![]),
        ent(2, 1, 1, UpdateType::Enter, vec![]),
        ent(5, 1, 1, UpdateType::Enter, vec![]),
    ];
    let msg = encode_entities(unsorted, 16, Some(3), vec![]);
    let ids: Vec<u32> = msg.entities.iter().map(|e| e.entity_index).collect();
    assert_eq!(ids, vec![2, 5, 9]);
    assert_eq!(msg.delta, Some(3));
    assert_eq!(msg.max_entries, 16);
}

#[test]
fn baseline_ids_spans_both_slots() {
    let mut tracker = ActiveEntities::new();
    let mut m1 = pe_msg(vec![ent(4, 1, 1, UpdateType::Enter, vec![])], vec![], None, 16);
    m1.updated_base_line = true;
    m1.base_line_second = false;  // refresh copies slot 0 over slot 1
    tracker.handle_message(&m1, 10);
    let mut m2 = pe_msg(vec![ent(9, 1, 1, UpdateType::Enter, vec![])], vec![], Some(5), 16);
    m2.updated_base_line = true;
    m2.base_line_second = true;  // refresh copies slot 1 over slot 0
    tracker.handle_message(&m2, 11);
    assert_eq!(tracker.baseline_ids(), vec![4, 9]);
}

#[test]
fn packet_model_round_trips_tick() {
    let mut p = Packet::Message(MessagePacket {
        tick: 5,
        messages: vec![],
        meta: MessagePacketMeta { view_angles: ViewAngles::Cleared, rest: 0 },
    });
    assert_eq!(p.tick(), 5);
    p.set_tick(9);
    assert_eq!(p.tick(), 9);
}
