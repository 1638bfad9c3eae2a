use eemail::ident::{id_of_urn, new_message_id};

fn is_lower_hex(c: char) -> bool {
    c.is_ascii_digit() || ('a'..='f').contains(&c)
}

#[test]
fn message_id_is_a_hyphenated_version_7_uuid() {
    let id = new_message_id();
    let chars: Vec<char> = id.chars().collect();
    assert_eq!(chars.len(), 36);
    for (i, c) in chars.iter().enumerate() {
        if i == 8 || i == 13 || i == 18 || i == 23 {
            assert_eq!(*c, '-');
        } else {
            assert!(is_lower_hex(*c));
        }
    }
    assert_eq!(chars[14], '7');
    assert!(matches!(chars[19], '8' | '9' | 'a' | 'b'));
    assert!(!id.starts_with("urn:uuid:"));
}

#[test]
fn message_ids_differ_and_sort_by_time() {
    let first = new_message_id();
    let second = new_message_id();
    let third = new_message_id();
    assert_ne!(first, second);
    assert_ne!(second, third);
    assert!(first < second);
    assert!(second < third);
}

#[test]
fn id_of_urn_strips_the_prefix() {
    assert_eq!(
        id_of_urn("urn:uuid:01890a5d-ac96-774b-bcce-b302099a8057"),
        "01890a5d-ac96-774b-bcce-b302099a8057"
    );
}

#[test]
fn id_of_urn_leaves_other_text_alone() {
    assert_eq!(id_of_urn("01890a5d-ac96-774b-bcce-b302099a8057"), "01890a5d-ac96-774b-bcce-b302099a8057");
    assert_eq!(id_of_urn("URN:UUID:01890a5d"), "URN:UUID:01890a5d");
    assert_eq!(id_of_urn(""), "");
}
