use vstd::prelude::*;
use crate::text::opt_text;

verus! {

/// Visibility of an asset to callers other than its owner.
#[derive(Clone, Copy, Debug, PartialEq, Eq, Structural)]
pub enum Privacy {
    Public,
    Private,
}

/// Per-asset settings: visibility and an optional external URL.
pub struct Settings {
    pub privacy: Privacy,
    pub url: Option<String>,
}

#[verifier::ext_equal]
pub ghost struct SettingsV {
    pub privacy: Privacy,
    pub url: Option<Seq<char>>,
}

impl View for Settings {
    type V = SettingsV;

    open spec fn view(&self) -> SettingsV {
        SettingsV { privacy: self.privacy, url: opt_text(self.url) }
    }
}

impl Settings {
    /// An owned copy with the same contents.
    pub fn duplicate(&self) -> (r: Settings)
        ensures
            r == *self,
    {
        Settings { privacy: self.privacy, url: crate::text::clone_opt_string(&self.url) }
    }
}

impl Default for Settings {
    /// Public visibility and no external URL.
    fn default() -> (r: Settings)
        ensures
            r@ == (SettingsV { privacy: Privacy::Public, url: None }),
    {
        Settings { privacy: Privacy::Public, url: None }
    }
}

} // verus!
