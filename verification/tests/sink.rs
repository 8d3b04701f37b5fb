use awatchlog::sink::{corrected_token, find, outcome_of, CreateReply, DeliveryOutcome, SinkReply};

fn chars(s: &str) -> Vec<char> {
    s.chars().collect()
}

#[test]
fn first_occurrence_is_found() {
    assert_eq!(find(&chars("abcabc"), &chars("bc")), Some(1));
    assert_eq!(find(&chars("abcabc"), &chars("abc")), Some(0));
    assert_eq!(find(&chars("abcabc"), &chars("c")), Some(2));
    assert_eq!(find(&chars("aaab"), &chars("aab")), Some(1));
    assert_eq!(find(&chars("abc"), &chars("abcd")), None);
    assert_eq!(find(&chars("abc"), &chars("x")), None);
    assert_eq!(find(&chars("abc"), &chars("")), Some(0));
    assert_eq!(find(&chars(""), &chars("")), Some(0));
    assert_eq!(find(&chars(""), &chars("a")), None);
    assert_eq!(find(&chars("h\u{e9}llo w\u{f6}rld"), &chars("w\u{f6}")), Some(6));
}

#[test]
fn expected_token_is_read_from_the_refusal() {
    let refusal = "The given sequenceToken is invalid. The next expected sequenceToken is: 49590302938407190184";
    assert_eq!(corrected_token(refusal), Some("49590302938407190184".to_string()));
    assert_eq!(corrected_token("expected sequenceToken is: "), Some(String::new()));
    assert_eq!(
        corrected_token("expected sequenceToken is: a expected sequenceToken is: b"),
        Some("a expected sequenceToken is: b".to_string())
    );
    assert_eq!(corrected_token("The given sequenceToken is invalid."), None);
    assert_eq!(corrected_token("expected sequencetoken is: 1"), None);
    assert_eq!(corrected_token(""), None);
}

#[test]
fn accepted_batch_is_delivered() {
    assert_eq!(
        outcome_of(SinkReply::Accepted { next_token: Some("t2".to_string()) }),
        DeliveryOutcome::Delivered { next_token: "t2".to_string() }
    );
}

#[test]
fn accepted_batch_without_token_is_fatal() {
    assert_eq!(
        outcome_of(SinkReply::Accepted { next_token: None }),
        DeliveryOutcome::Fatal {
            cause: "the sink accepted the batch without a next sequence token".to_string()
        }
    );
}

#[test]
fn stale_token_is_a_conflict() {
    assert_eq!(
        outcome_of(SinkReply::InvalidSequenceToken {
            message: "The next expected sequenceToken is: 4959".to_string()
        }),
        DeliveryOutcome::Conflict { corrected_token: "4959".to_string() }
    );
}

#[test]
fn refusal_without_marker_is_fatal() {
    assert_eq!(
        outcome_of(SinkReply::InvalidSequenceToken { message: "sequence token refused".to_string() }),
        DeliveryOutcome::Fatal { cause: "sequence token refused".to_string() }
    );
}

#[test]
fn other_failure_is_fatal() {
    assert_eq!(
        outcome_of(SinkReply::Failed { message: "expected sequenceToken is: 7".to_string() }),
        DeliveryOutcome::Fatal { cause: "expected sequenceToken is: 7".to_string() }
    );
}

#[test]
fn existing_destination_counts_as_created() {
    assert!(CreateReply::Created.destination_exists());
    assert!(CreateReply::AlreadyExists.destination_exists());
    assert!(!CreateReply::Failed { message: "access denied".to_string() }.destination_exists());
}
