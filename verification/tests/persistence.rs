use eclipse_heart::persistence::PersistenceBundle;
use eclipse_heart::timestamp::{current_unix_timestamp, timestamp_from_seconds};

#[test]
fn default_bundle_is_empty() {
    let bundle = PersistenceBundle::default();
    assert_eq!(bundle.collection.version, 2);
    assert!(bundle.collection.owned_magical_girls.is_empty());
    assert_eq!(bundle.decks.version, 3);
    assert!(bundle.decks.support_decks.is_empty());
    assert_eq!(bundle.campaigns.version, 2);
    assert!(bundle.campaigns.runs.is_empty());
}

#[test]
fn timestamps_come_from_whole_seconds() {
    assert_eq!(timestamp_from_seconds(Some(1_700_000_000)), 1_700_000_000);
    assert_eq!(timestamp_from_seconds(Some(u64::MAX)), 0);
    assert_eq!(timestamp_from_seconds(None), 0);
    assert!(current_unix_timestamp() > 1_600_000_000);
}
