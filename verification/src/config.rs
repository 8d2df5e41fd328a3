//! The immutable relayer configuration, constructed once at startup and
//! passed explicitly into the watcher, signer and submitter.
//!
//! Reading the process environment is left to the caller; this module only
//! validates the values and derives the relayer's public key from the
//! supplied key material.

use vstd::prelude::*;

use crate::errors::RelayError;
use crate::utils::{b64_decode, base64_decode_of};

verus! {

/// The relayer's static configuration.
pub struct Cfg {
    // Solana
    pub sol_rpc_http: String,
    pub sol_rpc_ws: String,
    pub sol_bridge_program: String,
    // TON
    pub ton_api_base: String,
    pub ton_api_key: Option<String>,
    pub ton_watch_addr_b64: String,
    // Relayer signer
    pub relayer_sk_base64: String,
    pub relayer_pubkey: [u8; 32],
    // misc
    pub cfg_hash_hex: String,
}

impl Cfg {
    /// Validates the raw configuration values: the relayer key material must
    /// be base64 for exactly 64 bytes (secret seed then public key), and the
    /// public half is taken from it. Anything else is a fatal configuration
    /// error.
    pub fn new(
        sol_rpc_http: String,
        sol_rpc_ws: String,
        sol_bridge_program: String,
        ton_api_base: String,
        ton_api_key: Option<String>,
        ton_watch_addr_b64: String,
        relayer_sk_base64: String,
        cfg_hash_hex: String,
    ) -> (r: Result<Cfg, RelayError>)
        ensures
            match r {
                Ok(c) => {
                    &&& base64_decode_of(relayer_sk_base64@) is Some
                    &&& base64_decode_of(relayer_sk_base64@)->Some_0.len() == 64
                    &&& c.relayer_pubkey@ == base64_decode_of(relayer_sk_base64@)->Some_0.skip(32)
                    &&& c.sol_rpc_http@ == sol_rpc_http@
                    &&& c.sol_rpc_ws@ == sol_rpc_ws@
                    &&& c.sol_bridge_program@ == sol_bridge_program@
                    &&& c.ton_api_base@ == ton_api_base@
                    &&& (match (c.ton_api_key, ton_api_key) {
                        (Some(ref a), Some(ref b)) => a@ == b@,
                        (None, None) => true,
                        _ => false,
                    })
                    &&& c.ton_watch_addr_b64@ == ton_watch_addr_b64@
                    &&& c.relayer_sk_base64@ == relayer_sk_base64@
                    &&& c.cfg_hash_hex@ == cfg_hash_hex@
                },
                Err(e) => {
                    &&& e == RelayError::Fatal
                    &&& match base64_decode_of(relayer_sk_base64@) {
                        None => true,
                        Some(raw) => raw.len() != 64,
                    }
                },
            },
    {
        let kp = match b64_decode(relayer_sk_base64.as_str()) {
            Some(v) => v,
            None => {
                return Err(RelayError::Fatal);
            },
        };
        if kp.len() != 64 {
            return Err(RelayError::Fatal);
        }
        let mut relayer_pubkey: [u8; 32] = [0u8; 32];
        let mut i: usize = 0;
        while i < 32
            invariant
                i <= 32,
                kp@.len() == 64,
                forall|k: int| 0 <= k < i ==> relayer_pubkey@[k] == kp@[32 + k],
            decreases 32 - i,
        {
            relayer_pubkey[i] = kp[32 + i];
            i = i + 1;
        }
        proof {
            assert(relayer_pubkey@ =~= kp@.skip(32));
        }
        Ok(
            Cfg {
                sol_rpc_http,
                sol_rpc_ws,
                sol_bridge_program,
                ton_api_base,
                ton_api_key,
                ton_watch_addr_b64,
                relayer_sk_base64,
                relayer_pubkey,
                cfg_hash_hex,
            },
        )
    }
}

} // verus!
