#![verifier::loop_isolation(false)]

pub mod clean;
pub mod cond;
pub mod cut;
pub mod idents;
pub mod missing_preserve;
pub mod mutate;
pub mod options;
pub mod pov;
pub mod store;
pub mod types;

use vstd::prelude::*;

use crate::cut::{clamped_end, clamped_start};
use crate::mutate::packet_sorted;
use crate::types::{EditOptions, Header, Message, Packet, UserEntry};

verus! {

/// Index of the first user entry whose steam id names the spectator
/// bot, `-1` if none.
pub open spec fn first_bot(users: Seq<UserEntry>) -> int
    decreases users.len(),
{
    if users.len() == 0 {
        -1
    } else if users[0].steam_id@ == "BOT"@ {
        0
    } else {
        let r = first_bot(users.drop_first());
        if r < 0 {
            -1
        } else {
            r + 1
        }
    }
}

pub proof fn lemma_first_bot(users: Seq<UserEntry>)
    ensures
        first_bot(users) < users.len(),
        first_bot(users) == -1 <==> (forall|j: int|
            0 <= j < users.len() ==> (#[trigger] users[j]).steam_id@ != "BOT"@),
        first_bot(users) >= 0 ==> users[first_bot(users)].steam_id@ == "BOT"@ && (forall|j: int|
            0 <= j < first_bot(users) ==> (#[trigger] users[j]).steam_id@ != "BOT"@),
    decreases users.len(),
{
    if users.len() > 0 && users[0].steam_id@ != "BOT"@ {
        lemma_first_bot(users.drop_first());
        assert(forall|j: int|
            1 <= j < users.len() ==> #[trigger] users[j] == users.drop_first()[j - 1]);
    }
}

/// The id of the spectator entity: the first user whose steam id
/// names the spectator bot.
pub fn find_stv(users: &Vec<UserEntry>) -> (r: Option<u32>)
    ensures
        first_bot(users@) >= 0 ==> r == Some(users@[first_bot(users@)].entity_id),
        first_bot(users@) == -1 ==> r is None,
{
    let bot: String = <String as vstd::string::StringExecFns>::from_str("BOT");
    let mut i: usize = 0;
    while i < users.len()
        invariant
            i <= users@.len(),
            bot@ == "BOT"@,
            forall|j: int| 0 <= j < i ==> (#[trigger] users@[j]).steam_id@ != "BOT"@,
        decreases users@.len() - i,
    {
        if users[i].steam_id == bot {
            proof {
                lemma_first_bot(users@);
                let f = first_bot(users@);
                if f != i as int && f >= 0 {
                    assert(users@[f].steam_id@ == "BOT"@);
                }
                assert(f == i as int);
            }
            return Some(users[i].entity_id);
        }
        i = i + 1;
    }
    proof {
        lemma_first_bot(users@);
    }
    None
}

/// The single-pass edit path without a cut: every packet runs through
/// the pipeline the options ask for exactly once, in order; console
/// and user commands are dropped; the header is kept as it is.
pub fn no_cut(
    header: &Header,
    packets: Vec<Packet>,
    options: &EditOptions,
    spectator_id: u32,
) -> (r: (Header, Vec<Packet>))
    requires
        forall|i: int| 0 <= i < packets@.len() ==> packet_sorted(#[trigger] packets@[i]),
    ensures
        r.0 == *header,
        exists|us0: Seq<crate::mutate::PacketMutator>, us1: Seq<crate::mutate::PacketMutator>|
            options.pipeline_spec(spectator_id, us0) && #[trigger] crate::mutate::stream_rewritten(
                us0,
                us1,
                packets@,
                r.1@,
                true,
            ),
        forall|i: int| 0 <= i < r.1@.len() ==> !((#[trigger] r.1@[i]) is ConsoleCmd),
        forall|i: int| 0 <= i < r.1@.len() ==> !((#[trigger] r.1@[i]) is UserCmd),
        forall|i: int| 0 <= i < r.1@.len() ==> packet_sorted(#[trigger] r.1@[i]),
{
    let mut mutators = options.as_mutator(spectator_id);
    let ghost us_start = mutators@;
    let ghost orig = packets@;
    let mut stream = packets;
    let n0: usize = stream.len();
    let mut out: Vec<Packet> = Vec::new();
    let mut i: usize = 0;
    while stream.len() > 0
        invariant
            mutators.inv(),
            orig.len() == n0,
            i + stream@.len() == orig.len(),
            stream@ == orig.skip(i as int),
            crate::mutate::stream_rewritten(us_start, mutators@, orig.take(i as int), out@, true),
            forall|t: int| 0 <= t < stream@.len() ==> packet_sorted(#[trigger] stream@[t]),
            forall|t: int| 0 <= t < out@.len() ==> !((#[trigger] out@[t]) is ConsoleCmd),
            forall|t: int| 0 <= t < out@.len() ==> !((#[trigger] out@[t]) is UserCmd),
            forall|t: int| 0 <= t < out@.len() ==> packet_sorted(#[trigger] out@[t]),
        decreases stream@.len(),
    {
        let ghost units_before = mutators@;
        let ghost out_before = out@;
        let mut p = stream.remove(0);
        proof {
            assert(p == orig[i as int]);
            assert(orig.skip(i as int).drop_first() =~= orig.skip(i + 1));
        }
        mutators.mutate_packet(&mut p);
        let ghost y = p;
        let drop_it = matches!(p, Packet::ConsoleCmd(_, _)) || matches!(p, Packet::UserCmd(_, _));
        if !drop_it {
            out.push(p);
        }
        proof {
            assert(orig.take(i + 1).drop_last() =~= orig.take(i as int));
            assert(orig.take(i + 1).last() == orig[i as int]);
            assert(crate::mutate::pipeline_applied(units_before, mutators@, orig.take(i + 1).last(), y));
            if drop_it {
                assert(crate::mutate::stream_rewritten(
                    us_start,
                    units_before,
                    orig.take(i + 1).drop_last(),
                    out@,
                    true,
                ));
            } else {
                assert(out@.drop_last() =~= out_before);
                assert(out@.last() == y);
                assert(crate::mutate::stream_rewritten(
                    us_start,
                    units_before,
                    orig.take(i + 1).drop_last(),
                    out@.drop_last(),
                    true,
                ));
            }
            assert(crate::mutate::stream_rewritten(us_start, mutators@, orig.take(i + 1), out@, true));
        }
        i = i + 1;
    }
    proof {
        assert(orig.take(orig.len() as int) =~= orig);
        assert(options.pipeline_spec(spectator_id, us_start) && crate::mutate::stream_rewritten(
            us_start,
            mutators@,
            packets@,
            out@,
            true,
        ));
    }
    (Header { ticks: header.ticks, rest: header.rest }, out)
}

/// The tick the recording runs to: the tick of its last packet.
pub fn count_ticks(packets: &Vec<Packet>) -> (r: u32)
    ensures
        packets@.len() == 0 ==> r == 0,
        packets@.len() > 0 ==> r == packets@.last().spec_tick(),
{
    let mut tick: u32 = 0;
    let mut i: usize = 0;
    while i < packets.len()
        invariant
            i <= packets@.len(),
            i > 0 ==> tick == packets@[i - 1].spec_tick(),
            i == 0 ==> tick == 0,
        decreases packets@.len() - i,
    {
        tick = packets[i].tick();
        i = i + 1;
    }
    tick
}

/// Edit a recording: with a cut range the splice engine rebuilds the
/// stream from the cut point; without one, the single-pass edit path
/// rewrites it in place.
pub fn edit(
    header: &Header,
    packets: Vec<Packet>,
    options: &EditOptions,
    spectator_id: u32,
    table_updates: Vec<Message>,
) -> (r: (Header, Vec<Packet>))
    requires
        forall|i: int| 0 <= i < packets@.len() ==> packet_sorted(#[trigger] packets@[i]),
        forall|i: int|
            0 <= i < table_updates@.len() ==> (#[trigger] table_updates@[i]) is UpdateStringTable,
    ensures
        options.cut is Some ==> r.0.ticks == clamped_end(
            header.ticks,
            options.cut->0.from,
            options.cut->0.to,
        ) - clamped_start(header.ticks, options.cut->0.from),
        options.cut is Some ==> r.1@.len() >= 1 && r.1@.last() == Packet::Stop(r.0.ticks),
        options.cut is Some ==> exists|n: int, m: int, us0: Seq<crate::mutate::PacketMutator>,
            us1: Seq<crate::mutate::PacketMutator>|
            {
                &&& 0 <= n <= n + m <= packets@.len()
                &&& crate::cut::synthesized_prefix(r.1@, packets@, n, table_updates@)
                &&& options.pipeline_spec(spectator_id, us0)
                &&& #[trigger] crate::cut::continued(
                    us0,
                    us1,
                    crate::cut::replay_fold(
                        crate::cut::ReplayState::initial(),
                        packets@.take(n),
                    ).tracker.ents.dom(),
                    crate::cut::replay_fold(
                        crate::cut::ReplayState::initial(),
                        packets@.take(n),
                    ).server_tick,
                    clamped_start(header.ticks, options.cut->0.from) as u32,
                    clamped_end(header.ticks, options.cut->0.from, options.cut->0.to) as u32,
                    packets@.subrange(n, n + m),
                    r.1@.subrange(
                        crate::cut::prefix_len(packets@, n, table_updates@),
                        r.1@.len() - 1,
                    ),
                )
            },
        options.cut is None ==> r.0 == *header,
        options.cut is None ==> exists|us0: Seq<crate::mutate::PacketMutator>, us1: Seq<
            crate::mutate::PacketMutator,
        >|
            options.pipeline_spec(spectator_id, us0) && #[trigger] crate::mutate::stream_rewritten(
                us0,
                us1,
                packets@,
                r.1@,
                true,
            ),
        forall|i: int| 0 <= i < r.1@.len() ==> !((#[trigger] r.1@[i]) is ConsoleCmd),
        forall|i: int| 0 <= i < r.1@.len() ==> packet_sorted(#[trigger] r.1@[i]),
{
    if options.cut.is_some() {
        crate::cut::cut(header, packets, options, spectator_id, table_updates)
    } else {
        no_cut(header, packets, options, spectator_id)
    }
}

} // verus!
