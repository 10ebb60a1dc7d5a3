//! The desktop's state and decisions: windows, the file manager's
//! navigation history, the shell, and the browser.
pub mod browser;
pub mod desktop_menu;
pub mod files;
pub mod panels;
pub mod settings;
pub mod shell;
pub mod start_menu;
pub mod taskbar;
pub mod window;
