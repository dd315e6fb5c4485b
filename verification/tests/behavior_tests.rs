use fto_dialog::dialog::Dialog;
use fto_dialog::dialog::DialogContent;
use fto_dialog::dialog::DialogCondition;
use fto_dialog::dialog::DialogCustomInfos;
use fto_dialog::dialog::DialogNode;
use fto_dialog::dialog::DialogTree;
use fto_dialog::dialog::ParseError;
use fto_dialog::scan::init_tree_file;

fn world_events() -> Vec<String> {
    vec!["HasCharisma".to_string(), "HasFriend".to_string()]
}

fn trigger_events() -> Vec<String> {
    vec!["FightEvent".to_string(), "HasFriend".to_string()]
}

fn infos() -> DialogCustomInfos {
    DialogCustomInfos::new(world_events(), Some((-100, 100)), trigger_events())
}

#[test]
fn test_depth_reconstruction() {
    // Header depths 1,2,3,2,2: the two last depth-2 headers ascend from
    // depth 3 and depth 2 back under the root, so the root has three
    // children and the first child one.
    let tree = init_tree_file(
        String::from("# A\n\n- hi\n## B\n\n- x\n### C\n\n- y\n## D\n\n- z\n## E\n\n- w\n"),
        infos(),
    )
    .unwrap();

    assert_eq!(*tree.root().author(), Some(String::from("A")));
    assert_eq!(tree.root().children().len(), 3);
    assert_eq!(tree.root().content().len(), 1);

    let b = tree.root().children()[0];
    let d = tree.root().children()[1];
    let e = tree.root().children()[2];
    assert_eq!(*tree.node_at(b).author(), Some(String::from("B")));
    assert_eq!(*tree.node_at(d).author(), Some(String::from("D")));
    assert_eq!(*tree.node_at(e).author(), Some(String::from("E")));

    assert_eq!(tree.node_at(b).children().len(), 1);
    let c = tree.node_at(b).children()[0];
    assert_eq!(*tree.node_at(c).author(), Some(String::from("C")));
    assert!(tree.node_at(c).is_end_node());
}

#[test]
fn test_end_to_end_scenario() {
    let tree = init_tree_file(
        String::from("# Morgan\n\n- Hello | None\n- No Hello | k: -10,0;\n"),
        DialogCustomInfos::new(Vec::new(), Some((-100, 100)), Vec::new()),
    )
    .unwrap();

    assert_eq!(*tree.root().author(), Some(String::from("Morgan")));
    assert_eq!(
        *tree.root().content(),
        vec![
            DialogContent::Choice {
                text: "Hello".to_string(),
                condition: None
            },
            DialogContent::Choice {
                text: "No Hello".to_string(),
                condition: Some(DialogCondition::new(Some((-10, 0)), None))
            }
        ]
    );
    assert_eq!(tree.root().children().len(), 0);
    assert!(tree.root().is_end_node());
    assert!(tree.root().is_choice());
    assert!(!tree.root().is_text());
    assert_eq!(*tree.root().trigger_event(), Vec::<String>::new());
}

#[test]
fn test_unknown_event_dropped_not_fatal() {
    // An event name absent from the allow-list is dropped; parsing goes on.
    let tree = init_tree_file(
        String::from("# M\n\n- a | e: GhostEvent;\n- b | e: HasFriend, GhostEvent;\n"),
        infos(),
    )
    .unwrap();

    assert_eq!(
        *tree.root().content(),
        vec![
            DialogContent::Choice {
                text: "a".to_string(),
                condition: None
            },
            DialogContent::Choice {
                text: "b".to_string(),
                condition: Some(DialogCondition::new(
                    None,
                    Some(vec!["HasFriend".to_string()])
                ))
            }
        ]
    );
}

#[test]
fn test_unknown_trigger_event_dropped() {
    let tree = init_tree_file(
        String::from("# M\n\n- a\n\n-> GhostEvent, FightEvent\n"),
        infos(),
    )
    .unwrap();
    assert_eq!(
        *tree.root().trigger_event(),
        vec!["FightEvent".to_string()]
    );
}

#[test]
fn test_karma_bounds_swapped() {
    let tree = init_tree_file(String::from("# M\n\n- a | k: 50,-50;\n"), infos()).unwrap();
    assert_eq!(
        *tree.root().content(),
        vec![DialogContent::Choice {
            text: "a".to_string(),
            condition: Some(DialogCondition::new(Some((-50, 50)), None))
        }]
    );
}

#[test]
fn test_karma_extreme_bounds() {
    let tree = init_tree_file(
        String::from("# M\n\n- a | k: 2147483647,-2147483648;\n"),
        infos(),
    )
    .unwrap();
    assert_eq!(
        *tree.root().content(),
        vec![DialogContent::Choice {
            text: "a".to_string(),
            condition: Some(DialogCondition::new(Some((-2147483648, 2147483647)), None))
        }]
    );
}

#[test]
fn test_malformed_karma_is_error() {
    let r = init_tree_file(String::from("# M\n\n- a | k: abc,0;\n"), infos());
    assert_eq!(
        r,
        Err(ParseError::MalformedKarma {
            token: "abc".to_string()
        })
    );
}

#[test]
fn test_karma_overflow_is_error() {
    let r = init_tree_file(String::from("# M\n\n- a | k: 2147483648,0;\n"), infos());
    assert_eq!(
        r,
        Err(ParseError::MalformedKarma {
            token: "2147483648".to_string()
        })
    );
}

#[test]
fn test_missing_final_newline_is_error() {
    assert_eq!(
        init_tree_file(String::from("# M\n\n- a"), infos()),
        Err(ParseError::MissingFinalNewline)
    );
    assert_eq!(
        init_tree_file(String::new(), infos()),
        Err(ParseError::MissingFinalNewline)
    );
}

#[test]
fn test_ascend_past_root_is_error() {
    // A second depth-one header asks for a sibling of the root.
    assert_eq!(
        init_tree_file(String::from("# A\n\n- a\n# B\n\n- b\n"), infos()),
        Err(ParseError::AscendPastRoot)
    );
}

#[test]
fn test_unterminated_karma_clause_dropped() {
    // A karma clause not ended by `;` contributes nothing.
    let tree = init_tree_file(String::from("# M\n\n- a | k: 1,2\n"), infos()).unwrap();
    assert_eq!(
        *tree.root().content(),
        vec![DialogContent::Choice {
            text: "a".to_string(),
            condition: None
        }]
    );
}

#[test]
fn test_round_trip_hand_built_tree() {
    let mut tree = DialogTree::new(DialogNode::new(
        vec![DialogContent::Text(String::from("Welcome"))],
        Some(String::from("Olf")),
        Vec::new(),
        None,
        Vec::new(),
    ));
    let kid = tree.add_child(
        0,
        DialogNode::new(
            vec![
                DialogContent::Choice {
                    text: String::from("Fine"),
                    condition: Some(DialogCondition::new(
                        Some((-10, 50)),
                        Some(vec![String::from("HasFriend")]),
                    )),
                },
                DialogContent::Choice {
                    text: String::from("Go away"),
                    condition: None,
                },
            ],
            Some(String::from("Morgan")),
            Vec::new(),
            None,
            Vec::new(),
        ),
    );
    tree.add_child(
        kid,
        DialogNode::new(
            vec![DialogContent::Text(String::from("Thanks"))],
            Some(String::from("Olf")),
            Vec::new(),
            None,
            vec![String::from("FightEvent")],
        ),
    );

    let text = tree.print_file();
    let reparsed = init_tree_file(text, infos()).unwrap();

    assert_eq!(reparsed.len(), 3);
    for i in 0..3 {
        assert_eq!(tree.node_at(i).author(), reparsed.node_at(i).author());
        assert_eq!(tree.node_at(i).content(), reparsed.node_at(i).content());
        assert_eq!(tree.node_at(i).children(), reparsed.node_at(i).children());
        assert_eq!(
            tree.node_at(i).trigger_event(),
            reparsed.node_at(i).trigger_event()
        );
    }
}

#[test]
fn test_round_trip_parsed_tree() {
    let source = String::from(
        "# Morgan\n\n- Hello | None\n- No Hello | karma: -10,0; event: HasFriend;\n\n## Hugo\n\n- Fine\n\n-> FightEvent\n\n## Hugo\n\n- Too bad\n",
    );
    let tree = init_tree_file(source.clone(), infos()).unwrap();
    let printed = tree.print_file();
    let again = init_tree_file(printed.clone(), infos()).unwrap();
    assert_eq!(tree, again);
    assert_eq!(printed, again.print_file());
}

#[test]
fn test_print_file_from_subtree() {
    let tree = init_tree_file(
        String::from("# Morgan\n\n- Hello\n\n## Hugo\n\n- Hey\n"),
        infos(),
    )
    .unwrap();
    let child = tree.root().children()[0];
    assert_eq!(tree.print_file_from(child), "# Hugo\n\n- Hey\n".to_string());
}

#[test]
fn test_print_narrator_when_author_missing() {
    let tree = DialogTree::new(DialogNode::new(
        vec![DialogContent::Text(String::from("dust settles"))],
        None,
        Vec::new(),
        None,
        Vec::new(),
    ));
    assert_eq!(tree.print_file(), "# Narator\n\n- dust settles\n".to_string());
}

#[test]
fn test_escape_literals_in_text() {
    let tree = init_tree_file(String::from("# M\n\n- a /# b /- c /| d /> e\n"), infos()).unwrap();
    assert_eq!(
        *tree.root().content(),
        vec![DialogContent::Text("a # b - c | d > e".to_string())]
    );
}

#[test]
fn test_choice_text_exclusive_and_empty() {
    let choice_node = DialogNode::new(
        vec![DialogContent::Choice {
            text: String::from("x"),
            condition: None,
        }],
        None,
        Vec::new(),
        None,
        Vec::new(),
    );
    assert!(choice_node.is_choice() && !choice_node.is_text());

    let text_node = DialogNode::new(
        vec![DialogContent::Text(String::from("x"))],
        None,
        Vec::new(),
        None,
        Vec::new(),
    );
    assert!(!text_node.is_choice() && text_node.is_text());

    let empty_node = DialogNode::new(Vec::new(), None, Vec::new(), None, Vec::new());
    assert!(!empty_node.is_choice() && !empty_node.is_text());
}

#[test]
fn test_dialog_condition_is_verified() {
    let cond = DialogCondition::new(Some((-10, 10)), Some(vec![String::from("HasFriend")]));
    let active = vec![String::from("HasFriend"), String::from("HasCharisma")];
    assert!(cond.is_verified(Some(0), Some(&active)));
    assert!(!cond.is_verified(Some(11), Some(&active)));
    assert!(!cond.is_verified(None, Some(&active)));
    assert!(!cond.is_verified(Some(0), Some(&vec![String::from("HasCharisma")])));
    assert!(!cond.is_verified(Some(0), None));

    let unbounded = DialogCondition::new(None, None);
    assert!(unbounded.is_verified(None, None));
    assert!(unbounded.is_verified(Some(9999), None));

    let karma_only = DialogCondition::new(Some((0, 5)), None);
    assert!(karma_only.is_verified(Some(5), None));
    assert!(!karma_only.is_verified(Some(6), None));

    assert_eq!(*karma_only.karma_threshold(), Some((0, 5)));
    assert_eq!(*unbounded.event(), None);
}

#[test]
fn test_dialog_condition_mutators() {
    let mut cond = DialogCondition::new(None, None);
    *cond.karma_threshold_mut() = Some((1, 2));
    assert_eq!(*cond.karma_threshold(), Some((1, 2)));
    assert_eq!(*cond.event_mut(), None);
}

#[test]
fn test_at_least_one_child_is_verified() {
    let tree = init_tree_file(
        String::from(
            "# Morgan\n\n- Hi\n\n## Hugo\n\n- a | k: 0,10;\n- b | k: 20,30;\n",
        ),
        infos(),
    )
    .unwrap();
    // The only child is a choice node whose gates ask for karma 0..=10 or
    // 20..=30.
    assert!(tree.at_least_one_child_is_verified(0, Some(5), None));
    assert!(tree.at_least_one_child_is_verified(0, Some(25), None));
    assert!(!tree.at_least_one_child_is_verified(0, Some(15), None));
    assert!(!tree.at_least_one_child_is_verified(0, None, None));

    // A text child is always offerable.
    let text_tree = init_tree_file(
        String::from("# Morgan\n\n- Hi\n\n## Hugo\n\n- plain\n"),
        infos(),
    )
    .unwrap();
    assert!(text_tree.at_least_one_child_is_verified(0, None, None));

    // No children at all: nothing is offerable.
    let leaf = init_tree_file(String::from("# Morgan\n\n- Hi\n"), infos()).unwrap();
    assert!(!leaf.at_least_one_child_is_verified(0, Some(0), None));
}

#[test]
fn test_dialog_holder() {
    let d = Dialog::new("# Fabien\n\n- Hello\n");
    assert_eq!(d.current_node, Some(String::from("# Fabien\n\n- Hello\n")));
}
