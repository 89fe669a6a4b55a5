pub mod cluster;
pub mod error;
pub mod koh;
pub mod koh_round;
pub mod ranking;
pub mod text;
pub mod scoreboard;
pub mod sync;
pub mod manifest;
pub mod digest;
pub mod ident;
pub mod paths;
pub mod fix;
pub mod fix_check;
pub mod awd;
pub mod awdp;
pub mod isw;
pub mod git;
pub mod bucket;
pub mod lifecycle;
pub mod instance;
pub mod registry;
pub mod captcha;
pub mod game;
pub mod lint;
pub mod labels;
