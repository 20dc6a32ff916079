use vstd::prelude::*;

verus! {

/// Static facts about the distribution shown on the "About" page.
pub struct AboutService;

impl AboutService {
    pub fn distro() -> (r: &'static str)
        ensures
            r@ == "ChurrOS"@,
    {
        "ChurrOS"
    }

    pub fn edition() -> (r: &'static str)
        ensures
            r@ == "Developer Preview"@,
    {
        "Developer Preview"
    }

    pub fn base() -> (r: &'static str)
        ensures
            r@ == "Arch Linux"@,
    {
        "Arch Linux"
    }

    pub fn developer() -> (r: &'static str)
        ensures
            r@ == "Equipo ChurrOS"@,
    {
        "Equipo ChurrOS"
    }

    pub fn license() -> (r: &'static str)
        ensures
            r@ == "GPL-3.0"@,
    {
        "GPL-3.0"
    }
}

} // verus!
