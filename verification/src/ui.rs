//! The logic of the client's screens: their widgets' settings, the events
//! they raise, and what the tree of a vault shows.
pub mod browser;
pub mod types;
pub mod context_menu;
pub mod properties;
pub mod toast;
pub mod browser_screen;
pub mod password;
pub mod title_bar;
pub mod home_screen;
pub mod loading;
