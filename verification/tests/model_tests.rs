use fto_dialog::model::Choice;
use fto_dialog::model::Condition;
use fto_dialog::model::Content;
use fto_dialog::model::DialogNode;

#[test]
fn test_condition_karma_verified() {
    let cond = Condition::new(Some((-50, 50)), Vec::new());
    assert!(cond.is_karma_verified(0));
    assert!(cond.is_karma_verified(-50));
    assert!(cond.is_karma_verified(50));
    assert!(!cond.is_karma_verified(51));
    assert!(!cond.is_karma_verified(-51));

    let open = Condition::new(None, Vec::new());
    assert!(open.is_karma_verified(12345));
}

#[test]
fn test_condition_events_verified() {
    let cond = Condition::new(None, vec!["A".to_string(), "B".to_string()]);
    assert!(cond.is_events_verified(vec![
        "B".to_string(),
        "C".to_string(),
        "A".to_string()
    ]));
    assert!(!cond.is_events_verified(vec!["A".to_string()]));
    assert!(!cond.is_events_verified(Vec::new()));

    let none_required = Condition::new(None, Vec::new());
    assert!(none_required.is_events_verified(Vec::new()));
}

#[test]
fn test_condition_is_verified() {
    let cond = Condition::new(Some((0, 10)), vec!["A".to_string()]);
    assert!(cond.is_verified(Some(5), vec!["A".to_string()]));
    assert!(!cond.is_verified(Some(11), vec!["A".to_string()]));
    assert!(!cond.is_verified(Some(5), Vec::new()));
    assert!(!cond.is_verified(None, vec!["A".to_string()]));

    let open = Condition::new(None, Vec::new());
    assert!(open.is_verified(None, Vec::new()));
    assert!(open.is_verified(Some(7), Vec::new()));
}

#[test]
fn test_condition_accessors() {
    let mut cond = Condition::new(Some((1, 2)), vec!["A".to_string()]);
    assert_eq!(*cond.karma_threshold(), Some((1, 2)));
    assert_eq!(*cond.events(), vec!["A".to_string()]);
    *cond.karma_threshold_mut() = None;
    assert_eq!(*cond.karma_threshold(), None);
    assert_eq!(*cond.events_mut(), vec!["A".to_string()]);
}

#[test]
fn test_choice_is_verified() {
    let free = Choice::new("hi".to_string(), None, 2);
    assert!(free.is_verified(None, Vec::new()));

    let gated = Choice::new(
        "hi".to_string(),
        Some(Condition::new(Some((0, 5)), Vec::new())),
        2,
    );
    assert!(gated.is_verified(Some(3), Vec::new()));
    assert!(!gated.is_verified(Some(9), Vec::new()));
}

#[test]
fn test_choice_accessors() {
    let mut c = Choice::new("hi".to_string(), None, 7);
    assert_eq!(*c.text(), "hi".to_string());
    assert_eq!(*c.condition(), None);
    assert_eq!(*c.exit_state(), 7);
    *c.text_mut() = "bye".to_string();
    *c.exit_state_mut() = 8;
    *c.condition_mut() = Some(Condition::new(None, Vec::new()));
    assert_eq!(*c.text(), "bye".to_string());
    assert_eq!(*c.exit_state(), 8);
    assert_eq!(*c.condition(), Some(Condition::new(None, Vec::new())));
}

#[test]
fn test_content_default() {
    let c = Content::default();
    assert_eq!(
        c,
        Content::Monolog {
            text: Vec::new(),
            exit_state: 0
        }
    );
}

#[test]
fn test_model_node() {
    let mut node = DialogNode::new(
        "Le Pape".to_string(),
        Content::Monolog {
            text: vec!["Hello Homie".to_string()],
            exit_state: 2,
        },
        Vec::new(),
    );
    assert_eq!(*node.source(), "Le Pape".to_string());
    assert_eq!(
        *node.content(),
        Content::Monolog {
            text: vec!["Hello Homie".to_string()],
            exit_state: 2
        }
    );
    assert_eq!(*node.trigger_event(), Vec::<String>::new());

    *node.source_mut() = "The Frog".to_string();
    node.trigger_event_mut().push("KeroKero".to_string());
    *node.content_mut() = Content::Choices(vec![Choice::new("Yo Homie".to_string(), None, 4)]);
    assert_eq!(*node.source(), "The Frog".to_string());
    assert_eq!(*node.trigger_event(), vec!["KeroKero".to_string()]);
    assert_eq!(
        *node.content(),
        Content::Choices(vec![Choice::new("Yo Homie".to_string(), None, 4)])
    );
}
