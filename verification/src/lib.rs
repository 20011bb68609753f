//! Campaign data model and rules for building Dynamic Campaign Engine campaigns.

pub mod tables;
pub mod text;
pub mod task;
pub mod strmap;
pub mod validation;
pub mod lua;
pub mod trigger;
pub mod airbases;
pub mod oob;
pub mod targets;
pub mod anti_ship;
pub mod generate;
pub mod loadouts;
pub mod target_list;
pub mod db_airbases;
pub mod farps;
pub mod squadrons;
pub mod bin_data;
pub mod cmp_file;
pub mod campaign_header;
pub mod edit_items;
pub mod miz;
pub mod field_values;
