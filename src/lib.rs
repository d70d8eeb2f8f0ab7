pub mod action;
pub mod dispatch;
pub mod game;
pub mod lobby;
pub mod message;
pub mod music_handler;
pub mod random;
pub mod round;
pub mod selection;
pub mod server;
pub mod song;
pub mod text;
pub mod user;
