pub mod autostart;
pub mod config;
pub mod control;
pub mod icon;
pub mod json;
pub mod percent;
pub mod singbox;
pub mod text;
pub mod tray;
pub mod vless;
pub mod vpn;
