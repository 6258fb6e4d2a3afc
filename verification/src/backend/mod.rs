use vstd::prelude::*;
use vstd::string::StringExecFns;

pub mod errors;
pub mod fixup;
pub mod midi;
pub mod muxml;

verus! {

/// Which backend to run, with its settings.
#[derive(Clone, Copy, Debug)]
pub enum BackendSelector {
    Midi(()),
    Muxml(muxml::settings::Settings),
    Fixup(fixup::FixupBackendSettings),
}

impl BackendSelector {
    /// The name of the backend as the command line has it.
    pub open spec fn spec_name(&self) -> Seq<char> {
        match self {
            BackendSelector::Midi(_) => "midi"@,
            BackendSelector::Muxml(_) => "muxml"@,
            BackendSelector::Fixup(_) => "fixup"@,
        }
    }

    /// The name of the backend as the command line has it.
    pub fn name(&self) -> (s: String)
        ensures
            s@ == self.spec_name(),
    {
        match self {
            BackendSelector::Midi(_) => String::from_str("midi"),
            BackendSelector::Muxml(_) => String::from_str("muxml"),
            BackendSelector::Fixup(_) => String::from_str("fixup"),
        }
    }
}

} // verus!
