//! The default line: three stations and ten arrivals.
use vstd::prelude::*;
use crate::station::StationConfig;

verus! {

/// Number of stations in the default line.
pub const STATION_COUNT: usize = 3;

/// Default round-robin quantum, in milliseconds.
pub const DEFAULT_QUANTUM_MS: u64 = 300;

/// Cutting, assembly and packing, of 400, 600 and 500 milliseconds.
pub fn default_station_configs() -> (r: Vec<StationConfig>)
    ensures
        r@.len() == STATION_COUNT,
        r@[0].processing_time == 400,
        r@[1].processing_time == 600,
        r@[2].processing_time == 500,
        r@[0].name@ == "Corte"@,
        r@[1].name@ == "Ensamblaje"@,
        r@[2].name@ == "Empaque"@,
{
    let mut r: Vec<StationConfig> = Vec::new();
    r.push(StationConfig { name: "Corte", processing_time: 400 });
    r.push(StationConfig { name: "Ensamblaje", processing_time: 600 });
    r.push(StationConfig { name: "Empaque", processing_time: 500 });
    r
}

/// Arrival offsets of the ten default items, in milliseconds.
pub fn default_arrival_times() -> (r: Vec<u64>)
    ensures
        r@ == seq![0u64, 120, 260, 380, 540, 720, 900, 1100, 1300, 1500],
{
    let r: Vec<u64> = vec![0u64, 120, 260, 380, 540, 720, 900, 1100, 1300, 1500];
    assert(r@ =~= seq![0u64, 120, 260, 380, 540, 720, 900, 1100, 1300, 1500]);
    r
}

} // verus!
