//! Port and tunnel detection logic for Porthole: parsers for `ss`, ngrok,
//! cloudflared, tailscale and localtunnel output, project grouping, the ignore
//! list, and the small pieces of application logic that sit between them.

pub mod json;
pub mod text;
pub mod models;
pub mod cloudflared_parser;
pub mod localtunnel_parser;
pub mod tailscale_parser;
pub mod ss_parser;
pub mod proc_net;
pub mod ignore_rules;
pub mod ignore_store;
pub mod win;
pub mod process_name_heuristic;
pub mod ngrok_parser;
pub mod port_assembler;
pub mod i18n;
pub mod updater;
pub mod project_resolver;
pub mod scan_service;
pub mod window;
pub mod ignored_tab;
pub mod port_row;
pub mod project_group;
pub mod host;
pub mod tray;
