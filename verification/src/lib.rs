//! Verified core of the Linefeed IRC client: IRC text formatting, masks,
//! identifier case mapping, server support parameters, channel membership
//! and modes, command-line helpers, chat-log lines, session logic, the
//! client's windows as server events and commands change them, and
//! presence (auto-away and the lag meter).

pub mod batches;
pub mod calendar;
pub mod caps;
pub mod casemap;
pub mod channel;
pub mod client;
pub mod commands;
pub mod completion;
pub mod ctcp;
pub mod formatting;
pub mod glob;
pub mod helpers;
pub mod incoming;
pub mod history;
pub mod listing;
pub mod logging;
pub mod message;
pub mod modes;
pub mod network;
pub mod numfmt;
pub mod outgoing;
pub mod presence;
pub mod session;
pub mod slash;
pub mod text;

pub use casemap::{CaseMapping, UserMode};
pub use channel::{BanEntry, Channel, ChannelUser, KnownUser};
pub use formatting::{
    irc_color, layout_irc_text, nick_color, parse_irc_colors, split_urls, strip_irc_formatting,
    RenderSegment, TextSpan,
};
pub use glob::mask_matches;
pub use helpers::{
    current_time_formatted, days_to_ymd, epoch_time_formatted, epoch_to_utc_parts, format_timestamp,
    nick_to_mask, truncate_chars, ymd_to_days,
};
pub use listing::{ChannelListEntry, ChannelListSort, ServerFavorite, SortDirection, TabCompletion};
pub use message::ChatMessage;
pub use network::NetworkSupport;
pub use session::{ConnectionIntent, ScrollbackStats};
pub use text::is_irc_nick_char;
