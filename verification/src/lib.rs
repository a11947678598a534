pub mod text;
pub mod models;
pub mod hidden;
pub mod sandbox;
pub mod order;
pub mod times;
pub mod fx;
pub mod shop;
pub mod risk;
pub mod layover;
pub mod picks;
pub mod classify;
pub mod dedupe;
pub mod metros;
pub mod query;
pub mod expiry;
pub mod window;
pub mod index;
pub mod candidates;
pub mod self_transfer;
pub mod links;
pub mod learn;
pub mod mock;
pub mod places;
pub mod durations;
pub mod bookers;
pub mod hubs;
pub mod laws;
pub mod discover;
pub mod budget;
pub mod annotate;
pub mod route_store;
pub mod ingest;
pub mod planner;
pub mod transfer_scan;
pub mod deal_hits;
pub mod countries;
pub mod airport_search;
pub mod duffel;
pub mod templates;
