use vstd::prelude::*;

verus! {

/// Preferred method for a line mapper to resolve paths.
#[derive(Debug, Copy, Clone, PartialEq, Eq, Structural)]
pub enum FileResolveStrategy {
    PreferRelative,
    PreferAbsolute,
}

impl FileResolveStrategy {
    /// The opposite strategy.
    pub open spec fn spec_other(self) -> FileResolveStrategy {
        match self {
            FileResolveStrategy::PreferRelative => FileResolveStrategy::PreferAbsolute,
            FileResolveStrategy::PreferAbsolute => FileResolveStrategy::PreferRelative,
        }
    }

    #[verifier::when_used_as_spec(spec_other)]
    pub fn other(self) -> (r: FileResolveStrategy)
        ensures
            r == self.spec_other(),
    {
        match self {
            FileResolveStrategy::PreferRelative => FileResolveStrategy::PreferAbsolute,
            FileResolveStrategy::PreferAbsolute => FileResolveStrategy::PreferRelative,
        }
    }
}

impl Default for FileResolveStrategy {
    fn default() -> (r: Self)
        ensures
            r == FileResolveStrategy::PreferRelative,
    {
        FileResolveStrategy::PreferRelative
    }
}

} // verus!
