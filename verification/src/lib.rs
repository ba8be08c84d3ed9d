//! Mini Me: the logic of a Discord bot that answers dynamic commands,
//! filters profanity and plays with text.
pub mod age;
pub mod commands;
pub mod dynamic;
pub mod mentions;
pub mod messages;
pub mod models;
pub mod numbers;
pub mod play;
pub mod profanity;
pub mod random;
pub mod schizo;
pub mod settings;
pub mod store;
pub mod text;
