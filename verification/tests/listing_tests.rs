use linefeed::listing::channel_list_view;
use linefeed::{ChannelListEntry, ChannelListSort, SortDirection};

fn rows() -> Vec<ChannelListEntry> {
    vec![
        ChannelListEntry::new("#Rust".to_string(), 50, "The Rust language".to_string()),
        ChannelListEntry::new("#go".to_string(), 20, "Gophers".to_string()),
        ChannelListEntry::new("#c".to_string(), 50, "\x02C\x02 and rust FFI".to_string()),
        ChannelListEntry::new("#zig".to_string(), 5, "".to_string()),
    ]
}

#[test]
fn channel_list_filters_by_name_or_topic_ignoring_case() {
    let r = rows();
    assert_eq!(channel_list_view(&r, "RUST", ChannelListSort::Channel, SortDirection::Ascending), vec![2, 0]);
    assert_eq!(channel_list_view(&r, "", ChannelListSort::Channel, SortDirection::Ascending), vec![2, 1, 0, 3]);
    assert!(channel_list_view(&r, "python", ChannelListSort::Channel, SortDirection::Ascending).is_empty());
}

#[test]
fn channel_list_sorts_stably_in_both_directions() {
    let r = rows();
    // Equal user counts keep their original order in either direction.
    assert_eq!(channel_list_view(&r, "", ChannelListSort::Users, SortDirection::Ascending), vec![3, 1, 0, 2]);
    assert_eq!(channel_list_view(&r, "", ChannelListSort::Users, SortDirection::Descending), vec![0, 2, 1, 3]);
    assert_eq!(channel_list_view(&r, "", ChannelListSort::Topic, SortDirection::Ascending), vec![3, 2, 1, 0]);
    assert_eq!(channel_list_view(&r, "", ChannelListSort::Channel, SortDirection::Descending), vec![3, 0, 1, 2]);
}
