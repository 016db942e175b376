use multi_parti_evaluator::tags::{get_tokens, parse_input_parties, tag_of_token, InputTag, TagError};

#[test]
fn reads_every_kind_of_tag() {
    let r = get_tokens("0,1,public,secret-shared,2").unwrap();
    assert_eq!(
        r,
        vec![
            InputTag::Party(0),
            InputTag::Party(1),
            InputTag::Public,
            InputTag::Shared,
            InputTag::Party(2)
        ]
    );
}

#[test]
fn reads_a_single_tag() {
    assert_eq!(parse_input_parties("public".to_string()), Ok(vec![InputTag::Public]));
    assert_eq!(parse_input_parties("2".to_string()), Ok(vec![InputTag::Party(2)]));
}

#[test]
fn rejects_an_unknown_party() {
    assert_eq!(get_tokens("0,3"), Err(TagError::InvalidToken(1)));
}

#[test]
fn rejects_an_empty_token() {
    assert_eq!(get_tokens("0,,1"), Err(TagError::InvalidToken(1)));
    assert_eq!(get_tokens("0,1,"), Err(TagError::InvalidToken(2)));
}

#[test]
fn rejects_an_empty_list() {
    assert_eq!(parse_input_parties(String::new()), Err(TagError::InvalidToken(0)));
}

#[test]
fn rejects_padded_and_misspelled_tokens() {
    assert_eq!(get_tokens(" 0"), Err(TagError::InvalidToken(0)));
    assert_eq!(get_tokens("public,shared"), Err(TagError::InvalidToken(1)));
    assert_eq!(get_tokens("Public"), Err(TagError::InvalidToken(0)));
}

#[test]
fn reports_the_first_bad_token() {
    assert_eq!(get_tokens("1,x,y"), Err(TagError::InvalidToken(1)));
}

#[test]
fn reads_one_token() {
    assert_eq!(tag_of_token(&vec!['1']), Some(InputTag::Party(1)));
    assert_eq!(tag_of_token(&"secret-shared".chars().collect()), Some(InputTag::Shared));
    assert_eq!(tag_of_token(&vec!['1', '0']), None);
}
