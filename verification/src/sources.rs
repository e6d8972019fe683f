use vstd::prelude::*;

verus! {

// Records exchanged with the external collaborators: the ticketing
// integration that supplies desired drivers, and the token-acquisition
// flow. The core treats their content as already validated.

/// The ticket metadata field identifiers under which the ticketing
/// service stores a driver's name, team and identity.
pub struct MetaDataIDs {
    pub first_name: String,
    pub last_name: String,
    pub team_name: String,
    pub steam_id: String,
}

/// The query parameters of the token-acquisition callback.
pub struct OAuth2CallbackParameters {
    pub code: String,
    pub state: String,
}

} // verus!
