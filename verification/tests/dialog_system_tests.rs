use fto_dialog::dialog::DialogContent;
use fto_dialog::dialog::DialogCondition;
use fto_dialog::dialog::DialogCustomInfos;
use fto_dialog::dialog::DialogNode;
use fto_dialog::dialog::DialogTree;
use fto_dialog::scan::init_tree_file;

const KARMA_MAX: i32 = 100;
const KARMA_MIN: i32 = -KARMA_MAX;

fn world_events() -> Vec<String> {
    vec![
        "BeatTheGame".to_string(),
        "FirstKill".to_string(),
        "AreaCleared".to_string(),
        "HasCharisma".to_string(),
        "HasFriend".to_string(),
        "TalkWith1000Frog".to_string(),
    ]
}

fn trigger_events() -> Vec<String> {
    vec!["FightEvent".to_string(), "HasFriend".to_string()]
}

fn infos() -> DialogCustomInfos {
    DialogCustomInfos::new(world_events(), Some((KARMA_MIN, KARMA_MAX)), trigger_events())
}

#[test]
fn test_print_from_file() {
    let fabien = Some(String::from("Fabien"));
    let morgan = Some(String::from("Morgan"));

    let mut tree = DialogTree::new(DialogNode::new(
        vec![DialogContent::Text(String::from("Hello"))],
        fabien.clone(),
        Vec::new(),
        None,
        Vec::new(),
    ));

    let answers = tree.add_child(
        0,
        DialogNode::new(
            vec![
                DialogContent::Choice {
                    text: String::from("Hey"),
                    condition: None,
                },
                DialogContent::Choice {
                    text: String::from("No Hello"),
                    condition: None,
                },
                DialogContent::Choice {
                    text: String::from("Want to share a flat ?"),
                    condition: None,
                },
            ],
            morgan,
            Vec::new(),
            None,
            Vec::new(),
        ),
    );

    tree.add_child(
        answers,
        DialogNode::new(
            vec![DialogContent::Text(String::from(":)"))],
            fabien.clone(),
            Vec::new(),
            None,
            Vec::new(),
        ),
    );

    tree.add_child(
        answers,
        DialogNode::new(
            vec![DialogContent::Text(String::from(":O"))],
            fabien.clone(),
            Vec::new(),
            None,
            Vec::new(),
        ),
    );

    tree.add_child(
        answers,
        DialogNode::new(
            vec![DialogContent::Text(String::from("Sure"))],
            fabien.clone(),
            Vec::new(),
            None,
            Vec::new(),
        ),
    );

    assert_eq!(
        tree.print_file(),
        "# Fabien

- Hello

## Morgan

- Hey | None
- No Hello | None
- Want to share a flat ? | None

### Fabien

- :)

### Fabien

- :O

### Fabien

- Sure\n"
            .to_string()
    );
}

#[test]
fn test_print_from_file_monologue() {
    let tree = init_tree_file(
        String::from("# Olf\n\n- Hello\n- Did you just\n- Call me ?\n- Or was it my imagination\n"),
        infos(),
    )
    .unwrap();

    assert_eq!(
        tree.print_file(),
        "# Olf\n\n- Hello\n- Did you just\n- Call me ?\n- Or was it my imagination\n".to_string()
    );
}

#[test]
fn test_print_from_file_trigger_event_1() {
    let tree = init_tree_file(
        String::from("# Olf\n\n- Hello\n- Did you just\n- Call me ?\n- Or was it my imagination\n\n-> HasFriend\n"),
        infos(),
    )
    .unwrap();

    assert_eq!(
        tree.print_file(),
        "# Olf\n\n- Hello\n- Did you just\n- Call me ?\n- Or was it my imagination\n\n-> HasFriend\n".to_string()
    );
}

#[test]
fn test_print_from_file_trigger_event_2() {
    let tree = init_tree_file(String::from("# Olf\n\n- Hello\n\n-> HasFriend, FightEvent\n"), infos())
        .unwrap();

    assert_eq!(
        tree.print_file(),
        "# Olf\n\n- Hello\n\n-> HasFriend, FightEvent\n".to_string()
    );
}

#[test]
fn test_init_tree_from_file_simple_text_1() {
    let tree = init_tree_file(String::from("# Olf\n\n- Hello\n"), infos()).unwrap();

    assert_eq!(*tree.root().author(), Some(String::from("Olf")));

    assert_eq!(
        *tree.root().content(),
        vec![DialogContent::Text("Hello".to_string())]
    );
}

#[test]
fn test_init_tree_from_file_space_overdose_1() {
    let tree = init_tree_file(String::from("#            Olf\n\n-      Hello\n"), infos()).unwrap();

    assert_eq!(*tree.root().author(), Some(String::from("Olf")));

    assert_eq!(
        *tree.root().content(),
        vec![DialogContent::Text("Hello".to_string())]
    );
}

#[test]
fn test_init_tree_from_file_space_overdose_2() {
    let tree = init_tree_file(
        String::from("# Morgan\n\n- Hello         |   None\n- No Hello    | None\n"),
        infos(),
    )
    .unwrap();

    assert_eq!(*tree.root().author(), Some(String::from("Morgan")));

    assert_eq!(
        *tree.root().content(),
        vec![
            DialogContent::Choice {
                text: "Hello".to_string(),
                condition: None
            },
            DialogContent::Choice {
                text: "No Hello".to_string(),
                condition: None
            }
        ]
    );
}

#[test]
fn test_init_tree_from_file_space_deficiency_1() {
    let tree = init_tree_file(String::from("#Olf\n\n-Hello\n"), infos()).unwrap();

    assert_eq!(*tree.root().author(), Some(String::from("Olf")));

    assert_eq!(
        *tree.root().content(),
        vec![DialogContent::Text("Hello".to_string())]
    );
}

#[test]
fn test_init_tree_from_file_space_deficiency_2() {
    let tree = init_tree_file(
        String::from("# Morgan\n\n- Hello|None\n- No Hello|None\n"),
        infos(),
    )
    .unwrap();

    assert_eq!(*tree.root().author(), Some(String::from("Morgan")));

    assert_eq!(
        *tree.root().content(),
        vec![
            DialogContent::Choice {
                text: "Hello".to_string(),
                condition: None
            },
            DialogContent::Choice {
                text: "No Hello".to_string(),
                condition: None
            }
        ]
    );
}

#[test]
fn test_init_tree_from_file_monologue_1() {
    let tree = init_tree_file(
        String::from("# Morgan\n\n- Hello\n- I was wondering\n-Alone...\n"),
        infos(),
    )
    .unwrap();

    assert_eq!(*tree.root().author(), Some(String::from("Morgan")));

    assert_eq!(
        *tree.root().content(),
        vec![
            DialogContent::Text("Hello".to_string()),
            DialogContent::Text("I was wondering".to_string()),
            DialogContent::Text("Alone...".to_string())
        ]
    );
}

#[test]
fn test_init_tree_from_file_simple_choice_1() {
    let tree = init_tree_file(
        String::from("# Morgan\n\n- Hello | None\n- No Hello | None\n"),
        infos(),
    )
    .unwrap();

    assert_eq!(*tree.root().author(), Some(String::from("Morgan")));

    assert_eq!(
        *tree.root().content(),
        vec![
            DialogContent::Choice {
                text: "Hello".to_string(),
                condition: None
            },
            DialogContent::Choice {
                text: "No Hello".to_string(),
                condition: None
            }
        ]
    );
}

#[test]
fn test_init_tree_from_file_complex_choice_1() {
    let tree = init_tree_file(
        String::from("# Morgan\n\n- Hello | None\n- No Hello | k: -10,0;\n"),
        infos(),
    )
    .unwrap();

    assert_eq!(*tree.root().author(), Some(String::from("Morgan")));

    assert_eq!(
        *tree.root().content(),
        vec![
            DialogContent::Choice {
                text: "Hello".to_string(),
                condition: None
            },
            DialogContent::Choice {
                text: "No Hello".to_string(),
                condition: Some(DialogCondition::new(Some((-10, 0)), None))
            }
        ]
    );
}

#[test]
fn test_init_tree_from_file_complex_choice_2() {
    let tree = init_tree_file(
        String::from("# Morgan\n\n- Hello | None\n- Mary me Hugo. | e: HasCharisma;\n"),
        infos(),
    )
    .unwrap();

    assert_eq!(*tree.root().author(), Some(String::from("Morgan")));

    assert_eq!(
        *tree.root().content(),
        vec![
            DialogContent::Choice {
                text: "Hello".to_string(),
                condition: None
            },
            DialogContent::Choice {
                text: "Mary me Hugo.".to_string(),
                condition: Some(DialogCondition::new(
                    None,
                    Some(vec!["HasCharisma".to_string()])
                ))
            }
        ]
    );
}

// allow to explicit/implicit karma/k; event/e
// extend the tolerance

#[test]
fn test_init_tree_from_file_complex_choice_3() {
    let tree = init_tree_file(
        String::from("# Morgan\n\n- Hello | k: -50,100;\n- No Hello | karma : -100,0;\n"),
        infos(),
    )
    .unwrap();

    assert_eq!(*tree.root().author(), Some(String::from("Morgan")));

    assert_eq!(
        *tree.root().content(),
        vec![
            DialogContent::Choice {
                text: "Hello".to_string(),
                condition: Some(DialogCondition::new(Some((-50, 100)), None,))
            },
            DialogContent::Choice {
                text: "No Hello".to_string(),
                condition: Some(DialogCondition::new(Some((-100, 0)), None,))
            }
        ]
    );
}

#[test]
fn test_init_tree_from_file_complex_choice_4() {
    let tree = init_tree_file(String::from(
                "# Morgan\n\n- Hello my Friend | e: HasFriend;\n- You droped this (*crown*) | event: HasCharisma;\n",
            ), infos()).unwrap();

    assert_eq!(*tree.root().author(), Some(String::from("Morgan")));

    assert_eq!(
        *tree.root().content(),
        vec![
            DialogContent::Choice {
                text: "Hello my Friend".to_string(),
                condition: Some(DialogCondition::new(
                    None,
                    Some(vec!["HasFriend".to_string()])
                ))
            },
            DialogContent::Choice {
                text: "You droped this (*crown*)".to_string(),
                condition: Some(DialogCondition::new(
                    None,
                    Some(vec!["HasCharisma".to_string()])
                ))
            }
        ]
    );
}

/// Verify the case of a event has a k in its name work.
/// Used to trigger the phase transi into the the karma_phase
#[test]
fn test_init_tree_from_file_complex_choice_event_with_k() {
    let tree = init_tree_file(
        String::from("# Morgan\n\n- KeroKero | e: TalkWith1000Frog;\n- Hello | None;\n"),
        infos(),
    )
    .unwrap();

    assert_eq!(*tree.root().author(), Some(String::from("Morgan")));

    assert_eq!(
        *tree.root().content(),
        vec![
            DialogContent::Choice {
                text: "KeroKero".to_string(),
                condition: Some(DialogCondition::new(
                    None,
                    Some(vec!["TalkWith1000Frog".to_string()])
                ))
            },
            DialogContent::Choice {
                text: "Hello".to_string(),
                condition: None
            }
        ]
    );
}

/// allow to type MAX or MIN to select
#[test]
fn test_init_tree_from_file_complex_choice_karma_max_min() {
    let tree = init_tree_file(
        String::from("# Morgan\n\n- Hello | k: -10,MAX;\n- No Hello | k: MIN,0;\n"),
        infos(),
    )
    .unwrap();

    assert_eq!(*tree.root().author(), Some(String::from("Morgan")));

    assert_eq!(
        *tree.root().content(),
        vec![
            DialogContent::Choice {
                text: "Hello".to_string(),
                condition: Some(DialogCondition::new(Some((-10, KARMA_MAX)), None))
            },
            DialogContent::Choice {
                text: "No Hello".to_string(),
                condition: Some(DialogCondition::new(Some((KARMA_MIN, 0)), None))
            }
        ]
    );
}

#[test]
fn test_init_tree_from_file_simple_kinship_1() {
    let tree = init_tree_file(
        String::from("# Morgan\n\n- Hello\n## Hugo\n- Hey! How are you ?\n"),
        infos(),
    )
    .unwrap();

    assert_eq!(*tree.root().author(), Some(String::from("Morgan")));
    let first_child = tree.root().children()[0];
    assert_eq!(
        *tree.node_at(first_child).author(),
        Some(String::from("Hugo"))
    );

    assert_eq!(
        *tree.root().content(),
        vec![DialogContent::Text("Hello".to_string())]
    );
    assert_eq!(
        *tree.node_at(first_child).content(),
        vec![DialogContent::Text("Hey! How are you ?".to_string())]
    );
}

#[test]
fn test_init_tree_from_file_monologue_2() {
    let tree = init_tree_file(String::from("# Morgan\n\n- Hello\n- I was wondering\n\n## Morgan\n\n- With Friends ! | event: HasFriend;\n- Alone... | None\n"), infos()).unwrap();

    assert_eq!(*tree.root().author(), Some(String::from("Morgan")));

    assert_eq!(
        *tree.root().content(),
        vec![
            DialogContent::Text("Hello".to_string()),
            DialogContent::Text("I was wondering".to_string())
        ]
    );

    let first_child = tree.root().children()[0];
    assert_eq!(
        *tree.node_at(first_child).author(),
        Some(String::from("Morgan"))
    );

    assert_eq!(
        *tree.node_at(first_child).content(),
        vec![
            DialogContent::Choice {
                text: "With Friends !".to_string(),
                condition: Some(DialogCondition::new(
                    None,
                    Some(vec!["HasFriend".to_string()])
                ))
            },
            DialogContent::Choice {
                text: "Alone...".to_string(),
                condition: None
            }
        ]
    );
}

#[test]
fn test_init_tree_from_file_complex_kinship_1() {
    let tree = init_tree_file(String::from(
                "# Morgan\n\n- Hello | None\n- Do you want to work with me ? | None\n\n## Hugo\n\n- Hey! How are you ?\n\n## Hugo\n\n- I'm sure you'll do just fine without me.\n",
            ), infos()).unwrap();

    assert_eq!(*tree.root().author(), Some(String::from("Morgan")));
    assert_eq!(
        *tree.root().content(),
        vec![
            DialogContent::Choice {
                text: "Hello".to_string(),
                condition: None
            },
            DialogContent::Choice {
                text: "Do you want to work with me ?".to_string(),
                condition: None
            }
        ]
    );

    // By choosing the n-eme choice, you will get the result of the n-eme child.

    let first_child = tree.root().children()[0];
    assert_eq!(
        *tree.node_at(first_child).author(),
        Some(String::from("Hugo"))
    );
    assert_eq!(
        *tree.node_at(first_child).content(),
        vec![DialogContent::Text("Hey! How are you ?".to_string())]
    );

    let second_child = tree.root().children()[1];
    assert_eq!(
        *tree.node_at(second_child).author(),
        Some(String::from("Hugo"))
    );
    assert_eq!(
        *tree.node_at(second_child).content(),
        vec![DialogContent::Text(
            "I'm sure you'll do just fine without me.".to_string()
        )]
    );
}

#[test]
fn test_init_tree_from_file_throwable_event_1() {
    let tree = init_tree_file(String::from(
                "# Morgan\n\n- Let's Talk | None\n- Let's Fight | None\n\n## Hugo\n\n- :)\n\n-> HasFriend\n\n## Hugo\n\n- :(\n\n-> FightEvent\n",
            ), infos()).unwrap();

    assert_eq!(*tree.root().author(), Some(String::from("Morgan")));
    assert_eq!(
        *tree.root().content(),
        vec![
            DialogContent::Choice {
                text: "Let's Talk".to_string(),
                condition: None
            },
            DialogContent::Choice {
                text: "Let's Fight".to_string(),
                condition: None
            }
        ]
    );

    // By choosing the n-eme choice, you will get the result of the n-eme child.

    // first child
    let first_child = tree.root().children()[0];
    assert_eq!(
        *tree.node_at(first_child).author(),
        Some(String::from("Hugo"))
    );
    assert_eq!(
        *tree.node_at(first_child).content(),
        vec![DialogContent::Text(":)".to_string())]
    );
    assert_eq!(
        *tree.node_at(first_child).trigger_event(),
        vec!["HasFriend".to_string()]
    );

    // second child
    let second_child = tree.root().children()[1];
    assert_eq!(
        *tree.node_at(second_child).author(),
        Some(String::from("Hugo"))
    );
    assert_eq!(
        *tree.node_at(second_child).content(),
        vec![DialogContent::Text(":(".to_string())]
    );
    assert_eq!(
        *tree.node_at(second_child).trigger_event(),
        vec!["FightEvent".to_string()]
    );
}

#[test]
fn test_init_tree_from_file_except_1() {
    let tree = init_tree_file(
        String::from(
            "# Morgan\n\n- Bonjour Florian. /\nComment vas/-tu :/# ? /\nJ'ai faim. /<3 /</|3\n",
        ),
        infos(),
    )
    .unwrap();

    assert_eq!(*tree.root().author(), Some(String::from("Morgan")));

    assert_eq!(
        *tree.root().content(),
        vec![DialogContent::Text(
            "Bonjour Florian. \nComment vas-tu :# ? \nJ'ai faim. <3 <|3".to_string()
        )]
    );
}
