use vstd::prelude::*;

use crate::address::SocketAddress;
use crate::conditioner::LinkConditionerConfig;
use crate::error::ConfigError;

verus! {

/// What a client socket is built from: the one remote it talks to, and the
/// conditioning to apply, if any.
#[derive(Clone, Copy, Debug, PartialEq, Eq, Structural)]
pub struct ClientSocketConfig {
    pub server_address: SocketAddress,
    pub link_condition_config: Option<LinkConditionerConfig>,
}

impl ClientSocketConfig {
    /// The configuration is usable: any conditioning is in range.
    pub open spec fn wf(&self) -> bool {
        match self.link_condition_config {
            Some(c) => c.wf(),
            None => true,
        }
    }

    /// A configuration without conditioning.
    pub fn new(server_address: SocketAddress) -> (r: ClientSocketConfig)
        ensures
            r.server_address == server_address,
            r.link_condition_config is None,
            r.wf(),
    {
        ClientSocketConfig { server_address, link_condition_config: None }
    }

    /// The same configuration with `conditioning` applied.
    pub fn with_link_conditioner(self, conditioning: LinkConditionerConfig) -> (r: ClientSocketConfig)
        ensures
            r.server_address == self.server_address,
            r.link_condition_config == Some(conditioning),
    {
        ClientSocketConfig { server_address: self.server_address, link_condition_config: Some(conditioning) }
    }

    /// Checks the configuration before a socket is built from it: the
    /// conditioning's probabilities must lie in [0, 1].
    pub fn validate(&self) -> (r: Result<(), ConfigError>)
        ensures
            r is Ok <==> self.wf(),
            match self.link_condition_config {
                Some(c) => {
                    &&& c.packet_loss_probability > crate::conditioner::PROBABILITY_SCALE
                        ==> r == Err::<(), ConfigError>(ConfigError::LossProbabilityOutOfRange)
                    &&& c.packet_loss_probability <= crate::conditioner::PROBABILITY_SCALE
                        && c.packet_duplication_probability > crate::conditioner::PROBABILITY_SCALE
                        ==> r == Err::<(), ConfigError>(ConfigError::DuplicationProbabilityOutOfRange)
                },
                None => true,
            },
    {
        match self.link_condition_config {
            Some(c) => match LinkConditionerConfig::new(
                c.packet_loss_probability,
                c.packet_duplication_probability,
                c.min_latency,
                c.jitter,
            ) {
                Ok(_) => Ok(()),
                Err(e) => Err(e),
            },
            None => Ok(()),
        }
    }
}

} // verus!
