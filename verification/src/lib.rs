//! The live streaming service itzon: its catalog of channels, its chat, and signing in to it.

pub mod account;
pub mod auth;
pub mod catalog;
pub mod cookies;
pub mod emotes;
pub mod error;
pub mod follows;
pub mod irc;
pub mod json;
pub mod letters;
pub mod media;
pub mod members;
pub mod messages;
pub mod oauth;
pub mod provider;
pub mod recent;
pub mod sending;
pub mod session;
pub mod signin;
pub mod text;
pub mod text_map;
pub mod urls;
