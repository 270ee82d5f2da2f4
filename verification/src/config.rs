//! Consensus and runtime configuration.
//!
//! [`Config`] centralizes tunable parameters: the proof-of-work difficulty,
//! the block reward, and the network name. It is built through
//! [`ConfigBuilder`], which starts from the defaults and overrides only the
//! fields a caller names.

use vstd::prelude::*;

verus! {

broadcast use vstd::string::to_string_from_display_ensures_for_str;

/// Runtime configuration shared across the core.
#[derive(Debug, Clone, PartialEq, Eq)]
pub struct Config {
    /// Proof-of-work leading-zero difficulty in bits.
    pub difficulty: u32,
    /// Block subsidy paid to the miner.
    pub block_reward: u64,
    /// Human-readable name identifying the network.
    pub network: String,
}

/// Mathematical image of a [`Config`].
pub ghost struct ConfigV {
    pub difficulty: u32,
    pub block_reward: u64,
    pub network: Seq<char>,
}

impl View for Config {
    type V = ConfigV;

    open spec fn view(&self) -> ConfigV {
        ConfigV {
            difficulty: self.difficulty,
            block_reward: self.block_reward,
            network: self.network@,
        }
    }
}

impl Default for Config {
    /// The main-net defaults: difficulty 8, reward 50, network "main".
    fn default() -> (c: Self)
        ensures
            c@ == (ConfigV { difficulty: 8, block_reward: 50, network: "main"@ }),
    {
        Self { difficulty: 8, block_reward: 50, network: "main".to_string() }
    }
}

/// Builder for [`Config`]: starts from the defaults, overrides fields one
/// at a time, and is consumed by [`ConfigBuilder::finish`].
pub struct ConfigBuilder {
    inner: Config,
}

impl View for ConfigBuilder {
    type V = ConfigV;

    closed spec fn view(&self) -> ConfigV {
        self.inner@
    }
}

impl ConfigBuilder {
    /// Starts a builder pre-populated with the defaults.
    pub fn new() -> (b: Self)
        ensures
            b@ == (ConfigV { difficulty: 8, block_reward: 50, network: "main"@ }),
    {
        Self { inner: Config::default() }
    }

    /// Overrides the proof-of-work difficulty.
    pub fn difficulty(self, diff: u32) -> (r: Self)
        ensures
            r@ == (ConfigV { difficulty: diff, ..self@ }),
    {
        let mut inner = self.inner;
        inner.difficulty = diff;
        Self { inner }
    }

    /// Overrides the block reward.
    pub fn block_reward(self, reward: u64) -> (r: Self)
        ensures
            r@ == (ConfigV { block_reward: reward, ..self@ }),
    {
        let mut inner = self.inner;
        inner.block_reward = reward;
        Self { inner }
    }

    /// Overrides the network name.
    pub fn network(self, name: &str) -> (r: Self)
        ensures
            r@ == (ConfigV { network: name@, ..self@ }),
    {
        let mut inner = self.inner;
        inner.network = name.to_string();
        Self { inner }
    }

    /// Consumes the builder, returning the finished configuration.
    pub fn finish(self) -> (c: Config)
        ensures
            c@ == self@,
    {
        self.inner
    }
}

} // verus!
