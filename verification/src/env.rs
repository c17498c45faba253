//! The environment tag: which of the two supported builds of the game the
//! bundle came from, with or without the DLC.

use vstd::prelude::*;

verus! {

/// Environment a program image is built for: a closed set of the two
/// supported game versions crossed with DLC presence.
#[derive(Debug, Clone, Copy, PartialEq, Eq, Structural)]
pub enum Env {
    /// ver 1.5.0, no DLC
    X150,
    /// ver 1.6.0, no DLC
    X160,
    /// ver 1.5.0 + DLC ver 3
    X150DLC,
    /// ver 1.6.0 + DLC ver 3
    X160DLC,
}

impl Env {
    /// True exactly for the 1.6.0 builds.
    pub fn is_1_6_0(&self) -> (r: bool)
        ensures
            r == self.spec_is_1_6_0(),
    {
        matches!(self, Env::X160 | Env::X160DLC)
    }

    /// Which half of the environment set this value lies in.
    pub open spec fn spec_is_1_6_0(self) -> bool {
        self is X160 || self is X160DLC
    }

    /// The tag byte this environment is serialized as.
    pub open spec fn spec_tag(self) -> u8 {
        match self {
            Env::X150 => 0x01,
            Env::X160 => 0x02,
            Env::X150DLC => 0x03,
            Env::X160DLC => 0x04,
        }
    }

    /// Serialize the environment to its tag byte.
    pub fn tag(&self) -> (r: u8)
        ensures
            r == self.spec_tag(),
    {
        match self {
            Env::X150 => 0x01,
            Env::X160 => 0x02,
            Env::X150DLC => 0x03,
            Env::X160DLC => 0x04,
        }
    }

    /// The environment a tag byte stands for, if any.
    pub open spec fn spec_from_tag(tag: u8) -> Option<Env> {
        if tag == 0x01 {
            Some(Env::X150)
        } else if tag == 0x02 {
            Some(Env::X160)
        } else if tag == 0x03 {
            Some(Env::X150DLC)
        } else if tag == 0x04 {
            Some(Env::X160DLC)
        } else {
            None
        }
    }

    /// Parse a tag byte back into an environment.
    pub fn from_tag(tag: u8) -> (r: Option<Env>)
        ensures
            r == Self::spec_from_tag(tag),
    {
        match tag {
            0x01 => Some(Env::X150),
            0x02 => Some(Env::X160),
            0x03 => Some(Env::X150DLC),
            0x04 => Some(Env::X160DLC),
            _ => None,
        }
    }
}

/// Tagging then parsing gives back the same environment: the environment
/// byte of the container format is lossless.
pub proof fn lemma_env_tag_roundtrip(env: Env)
    ensures
        Env::spec_from_tag(env.spec_tag()) == Some(env),
{
}

} // verus!
