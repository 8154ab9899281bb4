//! The user's global settings: the chosen AI provider and model, and the API keys,
//! which live in an encrypted store of their own.
use vstd::prelude::*;
use crate::parser::{assoc_get, assoc_insert};
use crate::store::SecretMap;

verus! {

/// The provider and model chosen during setup.
#[derive(Debug, Clone, Default)]
pub struct GlobalConfig {
    pub provider: Option<String>,
    pub model: Option<String>,
}

pub open spec fn loaded_keys(existing: Option<SecretMap>) -> Seq<(Seq<char>, Seq<char>)> {
    match existing {
        Some(m) => m@,
        None => Seq::empty(),
    }
}

/// The API keys after storing `key` for `provider`; `existing` is the key store
/// when it could be opened (one that cannot be read counts as empty).
pub fn set_api_key(existing: Option<SecretMap>, provider: &str, key: &str) -> (res: SecretMap)
    ensures
        res@ == assoc_insert(loaded_keys(existing), provider@, key@),
{
    let mut keys = match existing {
        Some(m) => m,
        None => SecretMap::new(),
    };
    keys.insert(provider, key);
    keys
}

/// The API key stored for `provider`.
pub fn get_api_key(keys: &SecretMap, provider: &str) -> (res: Option<String>)
    ensures
        match res {
            Some(k) => assoc_get(keys@, provider@) == Some(k@),
            None => assoc_get(keys@, provider@) is None,
        },
{
    keys.get(provider)
}

/// Whether any API key is stored; `keys` is the key store when it could be opened.
pub fn has_any_key(keys: Option<&SecretMap>) -> (res: bool)
    ensures
        res == match keys {
            Some(m) => m@.len() > 0,
            None => false,
        },
{
    match keys {
        Some(m) => m.len() > 0,
        None => false,
    }
}

} // verus!
