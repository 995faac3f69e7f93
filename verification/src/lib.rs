//! Data preparation and training plans for daily ticker close prices.
pub mod cli;
pub mod prep;
pub mod price_row;
pub mod split;
pub mod text;
pub mod ticker_data_frame;
pub mod train;
