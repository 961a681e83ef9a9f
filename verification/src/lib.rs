//! Frame scheduling, file naming, command building and edge-magnitude
//! arithmetic for a program that renders `.png` frames and glues them into
//! an `.mp4` video with `ffmpeg`.
pub mod commands;
pub mod decimal;
pub mod edges;
pub mod paths;
pub mod schedule;
