//! The orchestrator settings and the rule on the renderer's precision.
use vstd::prelude::*;

verus! {

/// Size of the tiles that workers calculate.
#[derive(Debug, Clone, Copy, PartialEq, Eq, Structural)]
pub struct TileConfig {
    pub width: u32,
    pub height: u32,
}

impl Default for TileConfig {
    fn default() -> (config: Self)
        ensures
            config == (TileConfig { width: 800, height: 600 }),
    {
        Self { width: 800, height: 600 }
    }
}

/// How many workers calculate tiles, and the tile size.
#[derive(Debug, Clone, Copy, PartialEq, Eq, Structural)]
pub struct OrchestratorConfig {
    pub workers: usize,
    pub tile: TileConfig,
}

impl Default for OrchestratorConfig {
    fn default() -> (config: Self)
        ensures
            config == (OrchestratorConfig {
                workers: 8,
                tile: TileConfig { width: 800, height: 600 },
            }),
    {
        Self { workers: 8, tile: TileConfig::default() }
    }
}

/// The message that rejects a precision of zero.
pub open spec fn precision_error() -> Seq<char> {
    "precision deve ser um inteiro positivo"@
}

/// Accepts a positive renderer precision and rejects zero.
pub fn positive_precision(value: u32) -> (result: Result<u32, &'static str>)
    ensures
        value > 0 ==> result == Ok::<u32, &'static str>(value),
        value == 0 ==> (match result {
            Err(message) => message@ == precision_error(),
            Ok(_) => false,
        }),
{
    if value == 0 {
        return Err("precision deve ser um inteiro positivo");
    }
    Ok(value)
}

} // verus!
