//! Verified core of the Everything Next search client: result selection
//! sets, engine configuration, SDK result shaping, Windows name and path
//! rules, result formatting and the small state machines around them.

pub mod model;
pub mod text;
pub mod engine_config;
pub mod sdk;
pub mod windows_name;
pub mod formatting;
pub mod shell;
pub mod exclusions;
pub mod sidebar;
pub mod launch;
pub mod trash_state;
pub mod result_selection;
pub mod view_mode;
pub mod keyboard;
pub mod thumbnails;
pub mod file_visuals;
pub mod result_pages;
pub mod requests;
pub mod file_actions;
pub mod theme;
pub mod context_menu;
pub mod demo_results;
pub mod thumbnail_queue;
pub mod preview;
