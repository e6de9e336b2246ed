//! Policy evaluation for Docker cleanup: which resources a configuration
//! removes, which it keeps, and why.

pub mod activity;
pub mod adoption;
pub mod agent_skill;
pub mod applying;
pub mod arranging;
pub mod cache;
pub mod candidate;
pub mod choosing;
pub mod chronicle;
pub mod command;
pub mod config;
pub mod configurator;
pub mod documents;
pub mod duration;
pub mod effects;
pub mod events;
pub mod evidence;
pub mod executor;
pub mod figures;
pub mod generate;
pub mod goodness;
pub mod guarantees;
pub mod help;
pub mod inventory;
pub mod journal;
pub mod keys;
pub mod labels;
pub mod lines;
pub mod listing;
pub mod machine;
pub mod managed;
pub mod naming;
pub mod observation;
pub mod order;
pub mod outside;
pub mod panels;
pub mod plan;
pub mod policy;
pub mod present;
pub mod pressing;
pub mod preview;
pub mod profile;
pub mod proposal;
pub mod protecting;
pub mod records;
pub mod refusing;
pub mod resource;
pub mod retention;
pub mod running;
pub mod session;
pub mod setup;
pub mod showing;
pub mod spawn;
pub mod stamp;
pub mod state;
pub mod steering;
pub mod survey;
pub mod surveying;
pub mod table;
pub mod text;
pub mod text_map;
pub mod trimming;
pub mod unique;
pub mod validity;
pub mod verdicts;
pub mod wakeup;
pub mod watching;
