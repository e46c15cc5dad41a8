//! Display: the nightlight's colour temperature and the wallpaper backend's
//! command lines.
pub mod nightlight;
pub mod wallpaper;
