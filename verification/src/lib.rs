//! Kei: the core of a small self-hosted build server.
//!
//! A push to GitHub, or a request from a private network, makes the server bring a project's
//! workspace up to date, run the project's steps, keep the files that match its patterns, and serve
//! them. This library holds what the server decides and computes; each function states what it
//! does. Reading and writing files, running processes and speaking HTTP are left to its caller.

// Texts, numbers, paths and times.
pub mod html;
pub mod list;
pub mod numbers;
pub mod outside;
pub mod paths;
pub mod text;
pub mod time;

// The configuration, the builds, and who may see what.
pub mod auth;
pub mod config;
pub mod error;
pub mod request;
pub mod state;

// Builds.
pub mod artifacts;
pub mod git;
pub mod notify;
pub mod pipeline;
pub mod runner;

// Requests.
pub mod routes;
pub mod tree;
pub mod views;
pub mod webhook;
