pub mod ranges;
pub mod summaries;
pub mod timing_laws;
pub mod trades;
pub mod sessions;
pub mod market;
pub mod market_laws;
pub mod moments;
pub mod proxy_rails;
pub mod rail_laws;
pub mod profile_laws;
pub mod profiles;
pub mod footprint;
pub mod footprint_laws;
pub mod intake_laws;
pub mod crosshair;
pub mod layers;
pub mod bubble_laws;
pub mod bubbles;
pub mod candles;
pub mod drawing;
pub mod updates;
pub mod gex_zones;
pub mod zone_laws;
