use vstd::prelude::*;

verus! {

/// Where a ghost comes from, as far as the earliest record of its player tells.
#[derive(Clone, Copy, Debug, PartialEq, Eq, Structural)]
pub enum GhostCategory {
    UltraLeague,
    InternetLeague,
    Unknown,
}

impl GhostCategory {
    /// The category's name as it is shown to subscribers.
    pub open spec fn label(self) -> Seq<char> {
        match self {
            GhostCategory::UltraLeague => "Ultra League Blaseball"@,
            GhostCategory::InternetLeague => "Internet League Blaseball"@,
            GhostCategory::Unknown => "Unknown"@,
        }
    }

    /// Renders the category's name.
    pub fn to_string(&self) -> (text: String)
        ensures
            text@ == self.label(),
    {
        match self {
            GhostCategory::UltraLeague => String::from_str("Ultra League Blaseball"),
            GhostCategory::InternetLeague => String::from_str("Internet League Blaseball"),
            GhostCategory::Unknown => String::from_str("Unknown"),
        }
    }
}

} // verus!
