//! Node configuration.

use vstd::prelude::*;

verus! {

/// Everything a node is told at its start.
#[derive(Debug, Clone)]
pub struct NodeConfig {
    pub node: NodeSettings,
    pub consensus: ConsensusSettings,
    pub peers: Vec<PeerConfig>,
    pub rpc: RpcSettings,
    pub rcw: RCWSettings,
    pub dispute: DisputeSettings,
    pub platform_keys: Vec<String>,
}

#[derive(Debug, Clone)]
pub struct DisputeSettings {
    /// Minimum votes required to resolve a dispute.
    pub vote_threshold: usize,
}

impl Default for DisputeSettings {
    fn default() -> (r: DisputeSettings)
        ensures
            r.vote_threshold == 3,
    {
        DisputeSettings { vote_threshold: 3 }
    }
}

#[derive(Debug, Clone)]
pub struct NodeSettings {
    pub id: String,
    pub data_path: String,
    pub private_key_path: String,
}

#[derive(Debug, Clone)]
pub struct ConsensusSettings {
    /// Milliseconds between blocks.
    pub block_time_ms: u64,
    /// Minimum signatures to finalize.
    pub min_signatures: usize,
    /// Address on which consensus messages come in.
    pub listen_address: String,
    /// After this many milliseconds without a block the next validator takes over.
    pub view_change_timeout_ms: u64,
}

#[derive(Debug, Clone)]
pub struct PeerConfig {
    pub id: String,
    pub address: String,
    pub public_key: String,
}

#[derive(Debug, Clone)]
pub struct RpcSettings {
    pub address: String,
}

#[derive(Debug, Clone)]
pub struct RCWSettings {
    pub rewards: RewardConfig,
}

/// Tokens minted for what participants do.
#[derive(Debug, Clone, Copy)]
pub struct RewardConfig {
    pub settlement_recorded: u64,
    pub escrow_completed: u64,
    pub trust_90_monthly: u64,
    pub rating_submitted: u64,
    pub dispute_won: u64,
    pub referral: u64,
}

impl Default for NodeConfig {
    fn default() -> (r: NodeConfig)
        ensures
            r.node.id@ == "node-1"@,
            r.node.data_path@ == "/var/lib/rcw"@,
            r.node.private_key_path@ == "/etc/rcw/validator.key"@,
            r.consensus.block_time_ms == 1000,
            r.consensus.min_signatures == 3,
            r.consensus.listen_address@ == "0.0.0.0:26656"@,
            r.consensus.view_change_timeout_ms == 5000,
            r.peers@.len() == 0,
            r.rpc.address@ == "0.0.0.0:26657"@,
            r.rcw.rewards == (RewardConfig {
                settlement_recorded: 5,
                escrow_completed: 20,
                trust_90_monthly: 100,
                rating_submitted: 2,
                dispute_won: 50,
                referral: 50,
            }),
            r.dispute.vote_threshold == 3,
            r.platform_keys@.len() == 0,
    {
        NodeConfig {
            node: NodeSettings {
                id: "node-1".to_string(),
                data_path: "/var/lib/rcw".to_string(),
                private_key_path: "/etc/rcw/validator.key".to_string(),
            },
            consensus: ConsensusSettings {
                block_time_ms: 1000,
                min_signatures: 3,
                listen_address: "0.0.0.0:26656".to_string(),
                view_change_timeout_ms: 5000,
            },
            peers: Vec::new(),
            rpc: RpcSettings { address: "0.0.0.0:26657".to_string() },
            rcw: RCWSettings {
                rewards: RewardConfig {
                    settlement_recorded: 5,
                    escrow_completed: 20,
                    trust_90_monthly: 100,
                    rating_submitted: 2,
                    dispute_won: 50,
                    referral: 50,
                },
            },
            dispute: DisputeSettings::default(),
            platform_keys: Vec::new(),
        }
    }
}

} // verus!
