use aide_sandbox::conversation::{latest_conversation, short_id, ConversationDir};

fn dir(name: &str, modified_at: u64) -> ConversationDir {
    ConversationDir {
        name: name.to_string(),
        modified_at,
    }
}

#[test]
fn empty_tree_detects_no_conversation() {
    assert_eq!(latest_conversation(&Vec::new()), None);
}

#[test]
fn single_entry_wins() {
    let dirs = vec![dir("conv-a", 10)];
    assert_eq!(latest_conversation(&dirs), Some("conv-a".to_string()));
}

#[test]
fn most_recently_modified_entry_wins() {
    let dirs = vec![dir("old", 100), dir("newest", 300), dir("middle", 200)];
    assert_eq!(latest_conversation(&dirs), Some("newest".to_string()));
}

#[test]
fn tie_yields_one_of_the_latest() {
    let dirs = vec![dir("first", 200), dir("second", 200), dir("older", 100)];
    let winner = latest_conversation(&dirs).unwrap();
    assert!(winner == "first" || winner == "second");
}

#[test]
fn short_id_cuts_to_eight_characters() {
    assert_eq!(short_id(&"abcdefghij".to_string()), "abcdefgh");
    assert_eq!(short_id(&"abc".to_string()), "abc");
    assert_eq!(short_id(&"".to_string()), "");
}
