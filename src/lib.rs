pub mod menu;
pub mod pixmap;
pub mod tray;
