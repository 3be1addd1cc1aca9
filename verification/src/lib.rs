#![allow(unused_imports)]
pub mod address;
pub mod agent;
pub mod app;
pub mod appearance;
pub mod bind;
pub mod cache;
pub mod cache_paths;
pub mod catalog;
pub mod chat;
pub mod command;
pub mod config;
pub mod dashboard;
pub mod desktop;
pub mod discovery;
pub mod disk;
pub mod display;
pub mod download;
pub mod fetch;
pub mod floats;
pub mod fresh;
pub mod html;
pub mod hub;
pub mod instance;
pub mod ip_text;
pub mod json;
pub mod keys;
pub mod launch;
pub mod library;
pub mod linking;
pub mod listen;
pub mod messages;
pub mod moments;
pub mod network;
pub mod network_page;
pub mod order;
pub mod panel;
pub mod paths;
pub mod peers;
pub mod probe;
pub mod rates;
pub mod remotes;
pub mod routing;
pub mod screens;
pub mod search;
pub mod servers;
pub mod settings;
pub mod shards;
pub mod share_proxy;
pub mod sharing;
pub mod skills;
pub mod slot;
pub mod system;
pub mod terminal;
pub mod text;
pub mod tls;
pub mod units;
pub mod update;
pub mod validate;
