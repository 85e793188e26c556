pub mod chart;
pub mod connector;
pub mod fx;
pub mod json;
pub mod layout;
pub mod lists;
pub mod order;
pub mod template_laws;
pub mod text;
pub mod unit_laws;
pub mod units;
