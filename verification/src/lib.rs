pub mod dns;
pub mod ip;
pub mod startup;
pub mod text;
pub mod ui;
