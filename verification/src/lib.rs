pub mod text;
pub mod string_map;
pub mod env_grammar;
pub mod env;
pub mod update;
pub mod lua;
pub mod http;
pub mod fs;
pub mod runner;
pub mod expect;
pub mod cli;
pub mod env_laws;
