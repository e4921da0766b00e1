use vstd::prelude::*;

verus! {

/// How much of the traffic the observability sink records. Each level also
/// records everything the levels before it record.
#[derive(Clone, Copy, Debug, PartialEq, Eq, Structural)]
pub enum HexdumpLevel {
    Disabled,
    DecryptedInput,
    RawInput,
    DecryptedOutput,
    RawOutput,
    All,
}

pub open spec fn level_rank(l: HexdumpLevel) -> u8 {
    match l {
        HexdumpLevel::Disabled => 0,
        HexdumpLevel::DecryptedInput => 1,
        HexdumpLevel::RawInput => 2,
        HexdumpLevel::DecryptedOutput => 3,
        HexdumpLevel::RawOutput => 4,
        HexdumpLevel::All => 5,
    }
}

impl Default for HexdumpLevel {
    fn default() -> (r: HexdumpLevel)
        ensures
            r == HexdumpLevel::Disabled,
    {
        HexdumpLevel::Disabled
    }
}

impl HexdumpLevel {
    /// Position of the level in the order above.
    pub fn rank(&self) -> (r: u8)
        ensures
            r == level_rank(*self),
    {
        match self {
            HexdumpLevel::Disabled => 0,
            HexdumpLevel::DecryptedInput => 1,
            HexdumpLevel::RawInput => 2,
            HexdumpLevel::DecryptedOutput => 3,
            HexdumpLevel::RawOutput => 4,
            HexdumpLevel::All => 5,
        }
    }

    /// Whether a sink configured at `self` records the dump of `stage`
    /// (one of the levels other than `Disabled`).
    pub fn records(&self, stage: HexdumpLevel) -> (r: bool)
        ensures
            r == (stage != HexdumpLevel::Disabled && level_rank(*self) >= level_rank(stage)),
    {
        stage != HexdumpLevel::Disabled && self.rank() >= stage.rank()
    }
}

} // verus!
