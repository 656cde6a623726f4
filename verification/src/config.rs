//! Application configuration.
//!
//! The unverified shell reads the environment and fills an `AppConfig`;
//! the cell below gives the rest of the program one place to read it
//! from, set once and never overwritten.

use vstd::prelude::*;

verus! {

/// Everything the process is configured with.
pub struct AppConfig {
    pub rpc_http: String,
    pub rpc_ws: String,
    pub usdc_contract: String,
    pub start_block: u64,
    pub db_url: String,
    pub server_port: u16,
}

/// A write-once holder for the configuration.
pub struct ConfigCell {
    pub value: Option<AppConfig>,
}

impl ConfigCell {
    pub open spec fn is_init(&self) -> bool {
        self.value is Some
    }

    pub open spec fn spec_get(&self) -> AppConfig {
        self.value->0
    }

    /// A cell that holds nothing yet.
    pub fn empty() -> (r: Self)
        ensures
            !r.is_init(),
    {
        ConfigCell { value: None }
    }
}

/// Store the configuration, once: the first value wins and later calls
/// change nothing.
pub fn init(cell: &mut ConfigCell, cfg: AppConfig)
    ensures
        final(cell).is_init(),
        old(cell).is_init() ==> *final(cell) == *old(cell),
        !old(cell).is_init() ==> final(cell).value is Some && final(cell).spec_get() == cfg,
{
    if cell.value.is_none() {
        cell.value = Some(cfg);
    }
}

/// Read the configuration.  May only be called after `init`.
pub fn get(cell: &ConfigCell) -> (r: &AppConfig)
    requires
        cell.is_init(),
    ensures
        *r == cell.spec_get(),
{
    cell.value.as_ref().unwrap()
}

} // verus!
