use vstd::prelude::*;

verus! {

/// Optional behaviour a backend opts into (entertainment streaming, scene
/// management, room membership management, pairing), so that one
/// orchestration flow can serve every backend.
#[derive(Clone, Copy, Debug, Default, PartialEq, Eq)]
pub struct BackendCapabilities {
    pub entertainment_streaming: bool,
    pub scene_management: bool,
    pub room_membership_management: bool,
    pub pairing: bool,
}

} // verus!
