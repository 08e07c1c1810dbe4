//! Marker filter: a fixed catalogue of literal substrings, grouped by domain
//! category, that flag a log line as relevant. A line crosses the process
//! boundary only if it contains at least one marker, case-sensitively,
//! anywhere in the line — also mid-word, for partial markers.

use vstd::prelude::*;
use crate::text::{has_sub, contains_sub};

verus! {

/// The marker catalogue, in its fixed order: connection, inventory, vehicle,
/// combat, mission, economy, location and system events.
pub open spec fn marker_views() -> Seq<Seq<char>> {
    seq![
        // Connection events
        "AccountLoginCharacterStatus_Character"@,
        // Inventory events
        "<RequestLocationInventory>"@,
        "<EquipItem>"@,
        "<AttachmentReceived>"@,
        // Vehicle events
        "<Vehicle Control Flow>"@,
        "<[ActorState] Place>"@,
        "<Quantum Drive Arrived"@,
        "<Jump Drive Requesting State Change>"@,
        "Destruction>"@,
        // Combat events
        "<Actor Death>"@,
        "<[ActorState] Dead>"@,
        "<FatalCollision>"@,
        "<[STAMINA]"@,
        // Mission events
        "<MissionShared>"@,
        "<ObjectiveUpserted>"@,
        "<MissionEnded>"@,
        "<EndMission>"@,
        "<CLocalMissionPhaseMarker::CreateMarker>"@,
        // Economy events
        "<CEntityComponentShoppingProvider::SendStandardItemBuyRequest>"@,
        "<CWallet::ProcessClaimToNextStep>"@,
        // Location events
        "<CLandingArea::OnDoorOpenStateChanged>"@,
        "<CSCItemDockingTube::OnSetTubeState>"@,
        "<CSCLoadingPlatformManager>"@,
        "<Spawn Flow>"@,
        "<CEntity::OnOwnerRemoved>"@,
        // System events
        "<SystemQuit>"@,
        "<Failed to get starmap route data!>"@,
    ]
}

/// The line contains at least one marker of the catalogue as a substring.
pub open spec fn spec_contains_marker(l: Seq<char>) -> bool {
    exists|k: int| 0 <= k < marker_views().len() && has_sub(l, marker_views()[k])
}

/// The marker catalogue as owned strings, in catalogue order.
pub fn event_markers() -> (v: Vec<String>)
    ensures
        v.deep_view() == marker_views(),
{
    let mut v: Vec<String> = Vec::new();
    v.push(String::from_str("AccountLoginCharacterStatus_Character"));
    v.push(String::from_str("<RequestLocationInventory>"));
    v.push(String::from_str("<EquipItem>"));
    v.push(String::from_str("<AttachmentReceived>"));
    v.push(String::from_str("<Vehicle Control Flow>"));
    v.push(String::from_str("<[ActorState] Place>"));
    v.push(String::from_str("<Quantum Drive Arrived"));
    v.push(String::from_str("<Jump Drive Requesting State Change>"));
    v.push(String::from_str("Destruction>"));
    v.push(String::from_str("<Actor Death>"));
    v.push(String::from_str("<[ActorState] Dead>"));
    v.push(String::from_str("<FatalCollision>"));
    v.push(String::from_str("<[STAMINA]"));
    v.push(String::from_str("<MissionShared>"));
    v.push(String::from_str("<ObjectiveUpserted>"));
    v.push(String::from_str("<MissionEnded>"));
    v.push(String::from_str("<EndMission>"));
    v.push(String::from_str("<CLocalMissionPhaseMarker::CreateMarker>"));
    v.push(String::from_str("<CEntityComponentShoppingProvider::SendStandardItemBuyRequest>"));
    v.push(String::from_str("<CWallet::ProcessClaimToNextStep>"));
    v.push(String::from_str("<CLandingArea::OnDoorOpenStateChanged>"));
    v.push(String::from_str("<CSCItemDockingTube::OnSetTubeState>"));
    v.push(String::from_str("<CSCLoadingPlatformManager>"));
    v.push(String::from_str("<Spawn Flow>"));
    v.push(String::from_str("<CEntity::OnOwnerRemoved>"));
    v.push(String::from_str("<SystemQuit>"));
    v.push(String::from_str("<Failed to get starmap route data!>"));
    proof {
        assert(v.deep_view() =~= marker_views());
    }
    v
}

/// Does the line contain any marker of the catalogue?
pub fn contains_event_marker(line: &str) -> (r: bool)
    ensures
        r == spec_contains_marker(line@),
{
    let markers = event_markers();
    let mut k: usize = 0;
    while k < markers.len()
        invariant
            markers.deep_view() == marker_views(),
            markers@.len() == marker_views().len(),
            k <= markers@.len(),
            forall|j: int| 0 <= j < k ==> !has_sub(line@, marker_views()[j]),
        decreases markers@.len() - k,
    {
        if contains_sub(line, markers[k].as_str()) {
            assert(has_sub(line@, marker_views()[k as int]));
            return true;
        }
        assert(!has_sub(line@, marker_views()[k as int]));
        k += 1;
    }
    false
}

} // verus!
