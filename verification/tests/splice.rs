use demo_edit::cut::{clamp_range, cut};
use demo_edit::cut::entity::ActiveEntities;
use demo_edit::types::{
    EditOptions, Header, Message, MessagePacket, MessagePacketMeta, NetTickMessage, Packet,
    PacketEntitiesMessage, PacketEntity, SendProp, SendPropValue, TickRange, UpdateType,
    ViewAngles,
};

fn ent(id: u32, class: u16, serial: u32, tag: UpdateType, props: Vec<SendProp>) -> PacketEntity {
    PacketEntity {
        entity_index: id,
        server_class: class,
        serial_number: serial,
        update_type: tag,
        props,
        in_pvs: true,
        delay: None,
        delta_tick: None,
        baseline_second: false,
    }
}

fn pe_msg(
    entities: Vec<PacketEntity>,
    removed: Vec<u32>,
    delta: Option<u32>,
    max: u16,
) -> Message {
    Message::PacketEntities(PacketEntitiesMessage {
        entities,
        removed_entities: removed,
        max_entries: max,
        delta,
        base_line_second: false,
        updated_base_line: false,
    })
}

fn net_tick(tick: u32) -> Message {
    Message::NetTick(NetTickMessage { tick, frame_time: 1881, std_dev: 263 })
}

fn mp(tick: u32, messages: Vec<Message>) -> Packet {
    Packet::Message(MessagePacket {
        tick,
        messages,
        meta: MessagePacketMeta { view_angles: ViewAngles::Cleared, rest: 0 },
    })
}

fn options_with_cut(from: u32, to: u32) -> EditOptions {
    EditOptions {
        unlock_pov: false,
        remove_conditions: vec![],
        cut: Some(TickRange { from, to }),
    }
}

fn prop(index: u32, identifier: u64, value: i64) -> SendProp {
    SendProp {
        index,
        identifier,
        value: SendPropValue::Integer(value),
    }
}

fn entity_messages(packets: &[Packet]) -> Vec<&PacketEntitiesMessage> {
    let mut out = Vec::new();
    for p in packets {
        if let Packet::Message(mp) = p {
            for m in &mp.messages {
                if let Message::PacketEntities(em) = m {
                    out.push(em);
                }
            }
        }
    }
    out
}

#[test]
fn clamp_respects_bounds() {
    assert_eq!(clamp_range(1000, 500, 800), (500, 800));
    assert_eq!(clamp_range(1000, 995, 2000), (990, 1000));
    assert_eq!(clamp_range(5, 0, 50), (0, 5));
    assert_eq!(clamp_range(1000, 800, 50), (800, 800));
}

#[test]
fn splice_entity_entering_before_cut_is_declared_enter() {
    // A recording of 1000 ticks: id 7 enters at tick 100 and leaves at
    // tick 900. A splice from 500 to 800 must declare id 7 as Enter in
    // the synthesized prefix, and the continuation must not reference
    // id 7 past its leave.
    let header = Header { ticks: 1000, rest: 0 };
    let packets = vec![
        mp(0, vec![net_tick(50), pe_msg(vec![], vec![], None, 64)]),
        mp(100, vec![
            net_tick(150),
            pe_msg(vec![ent(7, 2, 1, UpdateType::Enter, vec![prop(0, 11, 6)])], vec![], None, 64),
        ]),
        mp(500, vec![net_tick(160), pe_msg(vec![], vec![], Some(150), 64)]),
        mp(600, vec![pe_msg(
            vec![ent(7, 2, 1, UpdateType::Preserve, vec![])],
            vec![],
            Some(160),
            64,
        )]),
        mp(900, vec![pe_msg(
            vec![ent(7, 2, 1, UpdateType::Leave, vec![])],
            vec![],
            Some(160),
            64,
        )]),
        mp(1000, vec![pe_msg(vec![], vec![], Some(160), 64)]),
    ];
    let (out_header, out) = cut(&header, packets, &options_with_cut(500, 800), 1, vec![]);
    assert_eq!(out_header.ticks, 300);
    assert_eq!(*out.last().unwrap(), Packet::Stop(300));

    // the synthesized prefix (tick-zero packets) declares id 7
    // exactly once, as Enter
    let prefix: Vec<Packet> = out.iter().filter(|p| p.tick() == 0).cloned().collect();
    let declared: Vec<(u32, UpdateType)> = entity_messages(&prefix)
        .iter()
        .filter(|em| em.delta.is_some())
        .flat_map(|em| em.entities.iter().map(|e| (e.entity_index, e.update_type)))
        .collect();
    assert_eq!(
        declared.iter().filter(|(id, _)| *id == 7).count(),
        1,
        "exactly one prefix record for id 7"
    );
    assert!(declared.contains(&(7, UpdateType::Enter)));

    // nothing in the output references id 7 past the cut's end
    for p in &out {
        if let Packet::Message(mpk) = p {
            if mpk.tick > 300 {
                panic!("packet past the declared tick count");
            }
        }
    }
}

#[test]
fn splice_of_empty_recording_prefix_is_empty() {
    // 1000 ticks, no entities ever declared: prefix synthesis must
    // produce baseline messages with zero entities and no removals,
    // and the continuation must end at output tick 50.
    let header = Header { ticks: 1000, rest: 0 };
    let mut packets = Vec::new();
    for t in 0..101u32 {
        packets.push(mp(t * 10, vec![net_tick(1000 + t * 10), pe_msg(vec![], vec![], None, 32)]));
    }
    let (out_header, out) = cut(&header, packets, &options_with_cut(0, 50), 1, vec![]);
    assert_eq!(out_header.ticks, 50);
    assert_eq!(*out.last().unwrap(), Packet::Stop(50));
    for em in entity_messages(&out) {
        assert!(em.entities.is_empty());
        assert!(em.removed_entities.is_empty());
    }
    for p in &out {
        assert!(p.tick() <= 50);
    }
}

#[test]
fn splice_after_respawn_declares_enter() {
    // id 3 enters at tick 10 and lands in a baseline slot, making it
    // Preserve-eligible; it reuses its slot with an incremented
    // generation at tick 204. A cut from 205 must still declare id 3
    // as Enter.
    let header = Header { ticks: 1000, rest: 0 };
    let first = Message::PacketEntities(PacketEntitiesMessage {
        entities: vec![ent(3, 5, 1, UpdateType::Enter, vec![prop(0, 7, 1)])],
        removed_entities: vec![],
        max_entries: 32,
        delta: None,
        base_line_second: true,
        updated_base_line: true,
    });
    let packets = vec![
        mp(10, vec![net_tick(110), first]),
        mp(204, vec![
            net_tick(304),
            pe_msg(vec![ent(3, 5, 2, UpdateType::Enter, vec![prop(0, 7, 2)])], vec![], None, 32),
        ]),
        mp(205, vec![net_tick(305), pe_msg(vec![], vec![], Some(304), 32)]),
        mp(400, vec![pe_msg(vec![], vec![], Some(305), 32)]),
        mp(1000, vec![pe_msg(vec![], vec![], Some(305), 32)]),
    ];
    let (out_header, out) = cut(&header, packets, &options_with_cut(205, 1000), 1, vec![]);
    assert_eq!(out_header.ticks, 795);
    let declared: Vec<(u32, u32, UpdateType)> = entity_messages(&out)
        .iter()
        .filter(|em| em.delta.is_some())
        .flat_map(|em| em.entities.iter().map(|e| (e.entity_index, e.serial_number, e.update_type)))
        .collect();
    assert!(declared.contains(&(3, 2, UpdateType::Enter)));
}

#[test]
fn splice_pass_through_keeps_the_snapshot() {
    // Splicing the whole range reproduces a stream whose entity
    // snapshots fold to the same world state as the input's.
    let header = Header { ticks: 100, rest: 0 };
    let packets = vec![
        mp(0, vec![
            net_tick(10),
            pe_msg(
                vec![
                    ent(2, 1, 1, UpdateType::Enter, vec![prop(0, 40, 1)]),
                    ent(5, 2, 1, UpdateType::Enter, vec![prop(0, 41, 2)]),
                ],
                vec![],
                None,
                32,
            ),
        ]),
        mp(50, vec![pe_msg(
            vec![ent(5, 2, 1, UpdateType::Preserve, vec![prop(3, 41, 9)])],
            vec![],
            Some(10),
            32,
        )]),
        mp(100, vec![pe_msg(vec![], vec![], Some(10), 32)]),
    ];

    let mut input_tracker = ActiveEntities::new();
    for p in &packets {
        if let Packet::Message(mpk) = p {
            for m in &mpk.messages {
                if let Message::PacketEntities(em) = m {
                    input_tracker.handle_message(em, mpk.tick);
                }
            }
        }
    }

    let (out_header, out) = cut(&header, packets, &options_with_cut(0, 100), 1, vec![]);
    assert_eq!(out_header.ticks, 100);

    let mut output_tracker = ActiveEntities::new();
    for p in &out {
        if let Packet::Message(mpk) = p {
            for m in &mpk.messages {
                if let Message::PacketEntities(em) = m {
                    output_tracker.handle_message(em, mpk.tick);
                }
            }
        }
    }

    assert_eq!(input_tracker.entity_ids(), output_tracker.entity_ids());
    let (_bi, input_final, _ri) = input_tracker.encode(500);
    let (_bo, output_final, _ro) = output_tracker.encode(500);
    let shape_in: Vec<(u32, u16, u32, Vec<SendProp>)> = input_final
        .entities
        .iter()
        .map(|e| (e.entity_index, e.server_class, e.serial_number, e.props.clone()))
        .collect();
    let shape_out: Vec<(u32, u16, u32, Vec<SendProp>)> = output_final
        .entities
        .iter()
        .map(|e| (e.entity_index, e.server_class, e.serial_number, e.props.clone()))
        .collect();
    assert_eq!(shape_in, shape_out);
}

#[test]
fn splice_drops_console_commands() {
    let header = Header { ticks: 100, rest: 0 };
    let packets = vec![
        mp(0, vec![net_tick(10), pe_msg(vec![], vec![], None, 32)]),
        Packet::ConsoleCmd(20, 77),
        mp(100, vec![pe_msg(vec![], vec![], Some(10), 32)]),
    ];
    let (_h, out) = cut(&header, packets, &options_with_cut(0, 100), 1, vec![]);
    for p in &out {
        assert!(!matches!(p, Packet::ConsoleCmd(_, _)));
    }
}

#[test]
fn splice_keeps_preserve_packets_verbatim() {
    let header = Header { ticks: 100, rest: 0 };
    let packets = vec![
        Packet::DataTables(0, 5),
        Packet::StringTables(0, 6),
        Packet::SyncTick(0),
        mp(0, vec![net_tick(10), pe_msg(vec![], vec![], None, 32)]),
        mp(100, vec![pe_msg(vec![], vec![], Some(10), 32)]),
    ];
    let (_h, out) = cut(&header, packets, &options_with_cut(0, 100), 1, vec![]);
    assert_eq!(out[0], Packet::DataTables(0, 5));
    assert_eq!(out[1], Packet::StringTables(0, 6));
    assert_eq!(out[2], Packet::SyncTick(0));
}

#[test]
fn splice_bridges_server_ticks_with_fillers() {
    // last delta 150, last server tick 153: fillers at 151..=153, each
    // an empty delta update against tick 149.
    let header = Header { ticks: 100, rest: 0 };
    let packets = vec![
        mp(0, vec![net_tick(150), pe_msg(vec![], vec![], Some(150), 32)]),
        mp(10, vec![net_tick(153)]),
        mp(90, vec![pe_msg(vec![], vec![], Some(150), 32)]),
        mp(100, vec![pe_msg(vec![], vec![], Some(150), 32)]),
    ];
    let (_h, out) = cut(&header, packets, &options_with_cut(90, 100), 1, vec![]);
    let mut filler_ticks = Vec::new();
    for p in &out {
        if let Packet::Message(mpk) = p {
            if let [Message::NetTick(nt), Message::PacketEntities(em)] = &mpk.messages[..] {
                if em.delta == Some(149) && em.entities.is_empty() && nt.tick > 150 {
                    filler_ticks.push(nt.tick);
                }
            }
        }
    }
    assert_eq!(filler_ticks, vec![151, 152, 153]);
}

#[test]
fn edit_without_cut_keeps_header_and_drops_commands() {
    let header = Header { ticks: 42, rest: 9 };
    let packets = vec![
        mp(0, vec![net_tick(10)]),
        Packet::ConsoleCmd(5, 1),
        Packet::UserCmd(6, 2),
        mp(42, vec![net_tick(52)]),
    ];
    let options = EditOptions { unlock_pov: false, remove_conditions: vec![], cut: None };
    let (h, out) = demo_edit::edit(&header, packets, &options, 1, vec![]);
    assert_eq!(h, header);
    assert_eq!(out.len(), 2);
    for p in &out {
        assert!(!matches!(p, Packet::ConsoleCmd(_, _)));
        assert!(!matches!(p, Packet::UserCmd(_, _)));
    }
}

#[test]
fn edit_with_cut_runs_the_splice() {
    let header = Header { ticks: 100, rest: 3 };
    let packets = vec![
        mp(0, vec![net_tick(10), pe_msg(vec![], vec![], None, 32)]),
        mp(100, vec![pe_msg(vec![], vec![], Some(10), 32)]),
    ];
    let options = options_with_cut(20, 60);
    let (h, out) = demo_edit::edit(&header, packets, &options, 1, vec![]);
    assert_eq!(h.ticks, 40);
    assert_eq!(h.rest, 3);
    assert_eq!(*out.last().unwrap(), Packet::Stop(40));
}

#[test]
fn count_ticks_reports_last_packet() {
    let packets = vec![mp(0, vec![]), mp(7, vec![]), mp(31, vec![])];
    assert_eq!(demo_edit::count_ticks(&packets), 31);
    assert_eq!(demo_edit::count_ticks(&Vec::new()), 0);
}
