//! Registries of commands for particular front ends.
pub mod web;
