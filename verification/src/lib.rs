//! Doctrine's pure core: lifecycle rules, status decoration, reference parsing,
//! text rendering and the guards around terminal image output, each with a
//! machine-checked contract.

pub mod text;
pub mod lifecycle;
pub mod state;
pub mod slice;
pub mod listing;
pub mod sorted;
pub mod status;
pub mod tty;
pub mod kitty;
pub mod terminal_image;
pub mod verify;
pub mod tag;
pub mod supersede;
pub mod value;
pub mod tomlfmt;
pub mod tomldoc;
pub mod selector;
pub mod phase_sheet;
pub mod boundary;
pub mod show;
pub mod phase_init;
pub mod members;
pub mod slice_status;
pub mod table;
pub mod slice_list;
pub mod status_data;
pub mod spec_list;
pub mod req_list;
pub mod second_parent;
pub mod close_gate;
pub mod registry;
pub mod entity;
pub mod requirement;
pub mod spec;
pub mod standard;
