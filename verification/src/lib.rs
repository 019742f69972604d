//! Verified core of the orbit audio sandbox transport and native output bookkeeping.

pub mod layout;
pub mod events;
pub mod event_rings;
pub mod voice_table;
pub mod text;
pub mod cstr;
pub mod ui_codec;
pub mod shared;
pub mod event_ring;
pub mod mailbox;
pub mod ui_pump;
pub mod stream_stats;
pub mod output;
pub mod lines;
pub mod stage_vec;
pub mod audio_host;
pub mod wav;
pub mod parent_watch;
pub mod rack_wire;
pub mod clock;
pub mod offline;
pub mod retirement;
pub mod instrument_child;
