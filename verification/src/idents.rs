use vstd::prelude::*;

verus! {

/// The field identifier the codec derives from a (table name, field
/// name) pair: a hash, a function of the two names alone.
pub uninterp spec fn ident_of(table: Seq<char>, name: Seq<char>) -> u64;

/// Relies on `tf_demo_parser::demo::sendprop::SendPropIdentifier::new`:
/// the identifier is a compile-time hash of the two names, a function
/// of its arguments alone.
#[verifier::external_body]
fn prop_identifier(table: &str, name: &str) -> (r: u64)
    ensures
        r == ident_of(table@, name@),
{
    tf_demo_parser::demo::sendprop::SendPropIdentifier::new(table, name).into()
}

/// The identifier of the simulation-time field, which keys the
/// last-simulated-at-tick index.
pub open spec fn sim_time_ident() -> u64 {
    ident_of("DT_BaseEntity"@, "m_flSimulationTime"@)
}

pub fn simulation_time_identifier() -> (r: u64)
    ensures
        r == sim_time_ident(),
{
    prop_identifier("DT_BaseEntity", "m_flSimulationTime")
}

/// The identifier of the player-condition bit field.
pub open spec fn player_cond_ident() -> u64 {
    ident_of("DT_TFPlayerShared"@, "m_nPlayerCond"@)
}

pub fn player_cond_identifier() -> (r: u64)
    ensures
        r == player_cond_ident(),
{
    prop_identifier("DT_TFPlayerShared", "m_nPlayerCond")
}

/// The identifier of the team-number field.
pub open spec fn team_num_ident() -> u64 {
    ident_of("DT_BaseEntity"@, "m_iTeamNum"@)
}

pub fn team_num_identifier() -> (r: u64)
    ensures
        r == team_num_ident(),
{
    prop_identifier("DT_BaseEntity", "m_iTeamNum")
}

} // verus!
