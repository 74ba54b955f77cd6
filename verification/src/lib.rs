pub mod text;
pub mod seqs;
pub mod models;
pub mod like;
pub mod clock;
pub mod database;
pub mod content;
pub mod settings;
pub mod sync;
pub mod commands;
pub mod layout;
pub mod laws;
pub mod outcomes;
