pub mod cumulative_delta;
pub mod delta_laws;
pub mod interest_laws;
pub mod open_interest;
