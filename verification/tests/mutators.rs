use demo_edit::cond::{Cond, CondMask};
use demo_edit::cut::DeleteFilter;
use demo_edit::find_stv;
use demo_edit::missing_preserve::RemoveInvalidPreserveEntity;
use demo_edit::mutate::MutatorList;
use demo_edit::pov::{set_pov_slot, set_stv_flag, unlock_pov, AddStvEntity};
use demo_edit::store::IdSet;
use demo_edit::types::{
    CondOptions, EditOptions, Message, MessagePacket, MessagePacketMeta, Packet,
    PacketEntitiesMessage, PacketEntity, SendProp, SendPropValue, ServerInfoMessage, UpdateType,
    UserEntry, UserMessageKind, ViewAngles,
};

fn ent(id: u32, class: u16, serial: u32, tag: UpdateType, props: Vec<SendProp>) -> PacketEntity {
    PacketEntity {
        entity_index: id,
        server_class: class,
        serial_number: serial,
        update_type: tag,
        props,
        in_pvs: true,
        delay: None,
        delta_tick: None,
        baseline_second: false,
    }
}

fn pe_msg(
    entities: Vec<PacketEntity>,
    removed: Vec<u32>,
    delta: Option<u32>,
) -> Message {
    Message::PacketEntities(PacketEntitiesMessage {
        entities,
        removed_entities: removed,
        max_entries: 64,
        delta,
        base_line_second: false,
        updated_base_line: false,
    })
}

fn server_info(name: &str) -> Message {
    Message::ServerInfo(ServerInfoMessage {
        player_slot: 4,
        stv: false,
        server_name: name.to_string(),
        rest: 0,
    })
}

#[test]
fn cond_mask_strips_condition_bits() {
    let cond_ident = demo_edit::idents::player_cond_identifier();
    let mut mask = CondMask::new(None);
    mask.remove_cond(Cond::Uber);
    let mut msg = pe_msg(
        vec![ent(4, 1, 1, UpdateType::Preserve, vec![
            SendProp { index: 0, identifier: cond_ident, value: SendPropValue::Integer(0b110_0000) },
            SendProp { index: 1, identifier: cond_ident + 1, value: SendPropValue::Integer(0b10_0000) },
        ])],
        vec![],
        None,
    );
    mask.mutate_message(&mut msg);
    match msg {
        Message::PacketEntities(em) => {
            // bit 5 cleared in the condition field, other fields untouched
            assert_eq!(em.entities[0].props[0].value, SendPropValue::Integer(0b100_0000));
            assert_eq!(em.entities[0].props[1].value, SendPropValue::Integer(0b10_0000));
        },
        _ => panic!("message kind changed"),
    }
}

#[test]
fn cond_mask_targets_one_entity() {
    let cond_ident = demo_edit::idents::player_cond_identifier();
    let mut mask = CondMask::new(Some(4));
    mask.remove_cond(Cond::Jarate);
    let bit = 1i64 << 24;
    let mut msg = pe_msg(
        vec![
            ent(4, 1, 1, UpdateType::Preserve, vec![SendProp {
                index: 0,
                identifier: cond_ident,
                value: SendPropValue::Integer(bit | 1),
            }]),
            ent(9, 1, 1, UpdateType::Preserve, vec![SendProp {
                index: 0,
                identifier: cond_ident,
                value: SendPropValue::Integer(bit | 1),
            }]),
        ],
        vec![],
        None,
    );
    mask.mutate_message(&mut msg);
    match msg {
        Message::PacketEntities(em) => {
            assert_eq!(em.entities[0].props[0].value, SendPropValue::Integer(1));
            assert_eq!(em.entities[1].props[0].value, SendPropValue::Integer(bit | 1));
        },
        _ => panic!("message kind changed"),
    }
}

#[test]
fn delete_filter_drops_undeclared_removals() {
    let mut current = IdSet::new();
    current.insert(7);
    let filter = DeleteFilter::new(current, 100);
    let mut msg = pe_msg(
        vec![
            ent(3, 1, 1, UpdateType::Delete, vec![]),
            ent(7, 1, 1, UpdateType::Leave, vec![]),
            ent(9, 1, 1, UpdateType::Preserve, vec![]),
        ],
        vec![],
        Some(50),
    );
    filter.mutate_message(&mut msg);
    match msg {
        Message::PacketEntities(em) => {
            let ids: Vec<u32> = em.entities.iter().map(|e| e.entity_index).collect();
            // the undeclared Delete of id 3 is dropped; the Leave of the
            // live id 7 and the ordinary record of id 9 stay
            assert_eq!(ids, vec![7, 9]);
        },
        _ => panic!("message kind changed"),
    }
}

#[test]
fn delete_filter_passes_messages_at_or_after_last_delta() {
    let mut current = IdSet::new();
    current.insert(7);
    let filter = DeleteFilter::new(current, 100);
    let mut msg = pe_msg(vec![ent(3, 1, 1, UpdateType::Delete, vec![])], vec![], Some(100));
    filter.mutate_message(&mut msg);
    match msg {
        Message::PacketEntities(em) => {
            assert_eq!(em.entities.len(), 1);
            assert_eq!(em.entities[0].entity_index, 3);
        },
        _ => panic!("message kind changed"),
    }
}

#[test]
fn remove_invalid_preserve_keeps_undeclared_removals_only() {
    let mut m = RemoveInvalidPreserveEntity::new();
    let mut first = pe_msg(
        vec![ent(2, 1, 1, UpdateType::Enter, vec![]), ent(6, 1, 1, UpdateType::Enter, vec![])],
        vec![2, 5],
        None,
    );
    m.mutate_message(&mut first);
    match first {
        Message::PacketEntities(em) => {
            // id 2 is still declared, so its removal is dropped; id 5
            // was never declared and stays
            assert_eq!(em.removed_entities, vec![5]);
        },
        _ => panic!("message kind changed"),
    }
    let mut second = pe_msg(
        vec![ent(2, 1, 1, UpdateType::Delete, vec![])],
        vec![2],
        None,
    );
    m.mutate_message(&mut second);
    match second {
        Message::PacketEntities(em) => {
            // the same message retires id 2, so the removal may stand
            assert_eq!(em.removed_entities, vec![2]);
        },
        _ => panic!("message kind changed"),
    }
}

#[test]
fn remove_invalid_preserve_sorts_removal_list() {
    let mut m = RemoveInvalidPreserveEntity::new();
    let mut msg = pe_msg(vec![], vec![9, 4, 7], None);
    m.mutate_message(&mut msg);
    match msg {
        Message::PacketEntities(em) => assert_eq!(em.removed_entities, vec![4, 7, 9]),
        _ => panic!("message kind changed"),
    }
}

#[test]
fn add_stv_entity_splices_spectator_record() {
    let team_ident = demo_edit::idents::team_num_identifier();
    let mut adder = AddStvEntity::new(30);
    let mut msg = pe_msg(
        vec![
            ent(2, 11, 8, UpdateType::Enter, vec![SendProp {
                index: 3,
                identifier: team_ident,
                value: SendPropValue::Integer(2),
            }]),
            ent(40, 5, 1, UpdateType::Enter, vec![]),
        ],
        vec![],
        None,
    );
    adder.mutate_message(&mut msg);
    match msg {
        Message::PacketEntities(em) => {
            let ids: Vec<u32> = em.entities.iter().map(|e| e.entity_index).collect();
            assert_eq!(ids, vec![2, 30, 40]);
            let stv = &em.entities[1];
            assert_eq!(stv.server_class, 11);
            assert_eq!(stv.serial_number, 1234567);
            assert_eq!(stv.update_type, UpdateType::Enter);
            assert_eq!(stv.props.len(), 1);
            assert_eq!(stv.props[0].identifier, team_ident);
            assert_eq!(stv.props[0].value, SendPropValue::Integer(1));
        },
        _ => panic!("message kind changed"),
    }
    // a second full update is left alone
    let mut again = pe_msg(
        vec![ent(2, 11, 8, UpdateType::Enter, vec![SendProp {
            index: 3,
            identifier: team_ident,
            value: SendPropValue::Integer(2),
        }])],
        vec![],
        None,
    );
    adder.mutate_message(&mut again);
    match again {
        Message::PacketEntities(em) => assert_eq!(em.entities.len(), 1),
        _ => panic!("message kind changed"),
    }
}

#[test]
fn pov_rewrites_server_info() {
    let mut msg = server_info("somewhere");
    set_pov_slot(&mut msg, 12);
    set_stv_flag(&mut msg);
    match msg {
        Message::ServerInfo(info) => {
            assert_eq!(info.player_slot, 11);
            assert!(info.stv);
        },
        _ => panic!("message kind changed"),
    }
}

#[test]
fn unlock_pov_drops_view_messages_and_clears_angles() {
    let mut mutators = MutatorList::new();
    unlock_pov(&mut mutators, 24);
    let mut packet = Packet::Message(MessagePacket {
        tick: 3,
        messages: vec![
            Message::SetView(1),
            Message::UserMessage(UserMessageKind::VGuiMenu, 2),
            server_info("name"),
        ],
        meta: MessagePacketMeta { view_angles: ViewAngles::Original(9), rest: 1 },
    });
    mutators.mutate_packet(&mut packet);
    match packet {
        Packet::Message(mp) => {
            assert_eq!(mp.tick, 3);
            assert_eq!(mp.meta.view_angles, ViewAngles::Cleared);
            assert_eq!(mp.messages.len(), 1);
            match &mp.messages[0] {
                Message::ServerInfo(info) => {
                    assert_eq!(info.player_slot, 23);
                    assert!(info.stv);
                },
                _ => panic!("wrong message survived"),
            }
        },
        _ => panic!("packet kind changed"),
    }
}

#[test]
fn edit_options_tag_server_name_and_drop_captions() {
    let options = EditOptions {
        unlock_pov: false,
        remove_conditions: vec![CondOptions { entity: 0, mask: 0 }],
        cut: None,
    };
    let mut mutators = options.as_mutator(1);
    let cond_ident = demo_edit::idents::player_cond_identifier();
    let mut packet = Packet::Message(MessagePacket {
        tick: 0,
        messages: vec![
            server_info("my server"),
            Message::UserMessage(UserMessageKind::CloseCaption, 5),
            pe_msg(
                vec![ent(1, 1, 1, UpdateType::Preserve, vec![SendProp {
                    index: 0,
                    identifier: cond_ident,
                    value: SendPropValue::Integer(-1),
                }])],
                vec![],
                None,
            ),
        ],
        meta: MessagePacketMeta { view_angles: ViewAngles::Cleared, rest: 0 },
    });
    mutators.mutate_packet(&mut packet);
    match packet {
        Packet::Message(mp) => {
            assert_eq!(mp.messages.len(), 2);
            match &mp.messages[0] {
                Message::ServerInfo(info) => {
                    assert_eq!(info.server_name, "my server - Edited");
                },
                _ => panic!("wrong first message"),
            }
            match &mp.messages[1] {
                Message::PacketEntities(em) => {
                    // a zero mask clears every condition bit
                    assert_eq!(em.entities[0].props[0].value, SendPropValue::Integer(0));
                },
                _ => panic!("wrong second message"),
            }
        },
        _ => panic!("packet kind changed"),
    }
}

#[test]
fn find_stv_picks_first_bot() {
    let users = vec![
        UserEntry { entity_id: 3, steam_id: "STEAM_0:1:1".to_string() },
        UserEntry { entity_id: 24, steam_id: "BOT".to_string() },
        UserEntry { entity_id: 25, steam_id: "BOT".to_string() },
    ];
    assert_eq!(find_stv(&users), Some(24));
    let nobody = vec![UserEntry { entity_id: 3, steam_id: "STEAM_0:1:1".to_string() }];
    assert_eq!(find_stv(&nobody), None);
}
