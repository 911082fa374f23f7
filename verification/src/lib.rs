use vstd::prelude::*;

pub mod codec;
pub mod laws;
pub mod engine;
pub mod json;
pub mod model;
pub mod num;
pub mod tables;
pub mod views;

pub use json::{Json, parse_text, to_text};
pub use codec::{inventory_file_name, loadout_file_name, default_inventory, update_loadout_text, sort_by_slot_vec, patch_entries, encode_profile, encode_character, encode_characters, decode_profile, decode_characters, profile_to_json, character_to_json, profile_from_json, character_from_json};
pub use tables::{NameSet, RankTable, RefTables, build_set, build_map, split_char};
pub use num::{int_to_string, parse_int};
pub use model::{Talent, MetaResources, Cosmetics, Character, Profile};
pub use views::{resource_get, resource_set, flag_get, flag_set};
pub use laws::{lemma_profile_round_trip, lemma_character_round_trip};
