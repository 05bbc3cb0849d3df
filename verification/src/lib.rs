//! Hearts of Iron IV mod editing: reading Clausewitz scripts and rewriting
//! single values in place, plus the text formats and bookkeeping around them.
pub mod assets;
pub mod characters;
pub mod character_saving;
pub mod console;
pub mod country_history;
pub mod country_history_saving;
pub mod error;
pub mod event_saving;
pub mod events;
pub mod focus;
pub mod focus_saving;
pub mod ideologies;
pub mod ideology_saving;
pub mod localisation;
pub mod map;
pub mod mcp;
pub mod new_blocks;
pub mod paradox;
pub mod picture;
pub mod project;
pub mod script;
pub mod settings;
pub mod sprites;
pub mod state;
pub mod state_saving;
pub mod text;
pub mod technologies;
pub mod technology_saving;
pub mod text_file;
