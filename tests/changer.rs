use raft::{Changer, ConfChangeError, ConfChangeSingle, ConfChangeType, Configuration, MapChange, ProgressTracker};

enum CommandType {
    Simple,
    EnterJointWithAutoLeave,
    EnterJoint,
    LeaveJoint,
}

struct Command {
    command_type: CommandType,
    tokens: String,
}

impl Command {
    fn new(command_type: CommandType, tokens: &str) -> Self {
        Self { command_type, tokens: String::from(tokens) }
    }
}

/// Reads edits written as `v1 l2 r3`: add voter 1, add learner 2, remove 3.
fn parse_conf_change(s: &str) -> Vec<ConfChangeSingle> {
    let mut ccs = vec![];
    for tok in s.split_whitespace() {
        let (kind, id) = tok.split_at(1);
        let change_type = match kind {
            "v" => ConfChangeType::AddNode,
            "l" => ConfChangeType::AddLearnerNode,
            "r" => ConfChangeType::RemoveNode,
            _ => panic!("unknown input: {}", tok),
        };
        ccs.push(ConfChangeSingle::new(id.parse().unwrap(), change_type));
    }
    ccs
}

fn execute_commands(c: &mut Changer, command: Command) -> Result<(Configuration, MapChange), ConfChangeError> {
    let ccs = parse_conf_change(command.tokens.as_str());
    match command.command_type {
        CommandType::Simple => c.simple(&ccs),
        CommandType::EnterJointWithAutoLeave => c.enter_joint(true, &ccs),
        CommandType::EnterJoint => c.enter_joint(false, &ccs),
        CommandType::LeaveJoint => c.leave_joint(),
    }
}

#[test]
fn test_confchange() {
    let test_cases: Vec<Vec<(Command, Configuration, Vec<u64>, &str)>> = vec![
            // joint autoleave
            vec![
                (
                    Command::new(CommandType::Simple, "v1"),
                    Configuration::new_conf(vec![1], vec![], vec![], vec![], false),
                    vec![1],
                    "",
                ),
                (
                    Command::new(CommandType::EnterJointWithAutoLeave, "v2 v3"),
                    Configuration::new_conf(vec![1, 2, 3], vec![1], vec![], vec![], true),
                    vec![
                        1,
                        2,
                        3,
                    ],
                    "",
                ),
                (
                    Command::new(CommandType::EnterJoint, ""),
                    Configuration::default(),
                    vec![],
                    "configuration is already joint",
                ),
                (
                    Command::new(CommandType::LeaveJoint, ""),
                    Configuration::new_conf(vec![1, 2, 3], vec![], vec![], vec![], false),
                    vec![
                        1,
                        2,
                        3,
                    ],
                    "",
                ),
            ],
            // joint_idempotency
            vec![
                (
                    Command::new(CommandType::Simple, "v1"),
                    Configuration::new_conf(vec![1], vec![], vec![], vec![], false),
                    vec![1],
                    "",
                ),
                (
                    Command::new(
                        CommandType::EnterJoint,
                        "r1 r2 r9 v2 v3 v4 v2 v3 v4 l2 l2 r4 r4 l1 l1",
                    ),
                    Configuration::new_conf(vec![3], vec![1], vec![2], vec![1], false),
                    vec![
                        1,
                        2,
                        3,
                    ],
                    "",
                ),
                (
                    Command::new(CommandType::LeaveJoint, ""),
                    Configuration::new_conf(vec![3], vec![], vec![1, 2], vec![], false),
                    vec![
                        1,
                        2,
                        3,
                    ],
                    "",
                ),
            ],
            // joint_learners_next
            vec![
                (
                    Command::new(CommandType::Simple, "v1"),
                    Configuration::new_conf(vec![1], vec![], vec![], vec![], false),
                    vec![1],
                    "",
                ),
                (
                    Command::new(CommandType::EnterJoint, "v2 l1"),
                    Configuration::new_conf(vec![2], vec![1], vec![], vec![1], false),
                    vec![
                        1,
                        2,
                    ],
                    "",
                ),
                (
                    Command::new(CommandType::LeaveJoint, ""),
                    Configuration::new_conf(vec![2], vec![], vec![1], vec![], false),
                    vec![
                        1,
                        2,
                    ],
                    "",
                ),
            ],
            // joint_safety
            vec![
                (
                    Command::new(CommandType::LeaveJoint, ""),
                    Configuration::default(),
                    vec![],
                    "can\'t leave a non-joint config",
                ),
                (
                    Command::new(CommandType::EnterJoint, "v1"),
                    Configuration::default(),
                    vec![],
                    "can\'t make a zero-voter config joint",
                ),
                (
                    Command::new(CommandType::EnterJoint, "v1"),
                    Configuration::default(),
                    vec![],
                    "can\'t make a zero-voter config joint",
                ),
                (
                    Command::new(CommandType::Simple, "v1"),
                    Configuration::new_conf(vec![1], vec![], vec![], vec![], false),
                    vec![1],
                    "",
                ),
                (
                    Command::new(CommandType::LeaveJoint, ""),
                    Configuration::default(),
                    vec![],
                    "can\'t leave a non-joint config",
                ),
                (
                    Command::new(CommandType::EnterJoint, ""),
                    Configuration::new_conf(vec![1], vec![1], vec![], vec![], false),
                    vec![1],
                    "",
                ),
                (
                    Command::new(CommandType::EnterJoint, ""),
                    Configuration::default(),
                    vec![],
                    "configuration is already joint",
                ),
                (
                    Command::new(CommandType::LeaveJoint, ""),
                    Configuration::new_conf(vec![1], vec![], vec![], vec![], false),
                    vec![1],
                    "",
                ),
                (
                    Command::new(CommandType::LeaveJoint, ""),
                    Configuration::default(),
                    vec![],
                    "can\'t leave a non-joint config",
                ),
                (
                    Command::new(CommandType::EnterJoint, "r1 v2 v3 l4"),
                    Configuration::new_conf(vec![2, 3], vec![1], vec![4], vec![], false),
                    vec![
                        1,
                        2,
                        3,
                        4,
                    ],
                    "",
                ),
                (
                    Command::new(CommandType::EnterJoint, ""),
                    Configuration::default(),
                    vec![],
                    "configuration is already joint",
                ),
                (
                    Command::new(CommandType::EnterJoint, "v12"),
                    Configuration::default(),
                    vec![],
                    "configuration is already joint",
                ),
                (
                    Command::new(CommandType::Simple, "l15"),
                    Configuration::default(),
                    vec![],
                    "can\'t apply simple config change in joint config",
                ),
                (
                    Command::new(CommandType::LeaveJoint, ""),
                    Configuration::new_conf(vec![2, 3], vec![], vec![4], vec![], false),
                    vec![
                        2,
                        3,
                        4,
                    ],
                    "can\'t leave a non-joint config",
                ),
                (
                    Command::new(CommandType::Simple, "l9"),
                    Configuration::new_conf(vec![2, 3], vec![], vec![4, 9], vec![], false),
                    vec![
                        2,
                        3,
                        4,
                        9,
                    ],
                    "",
                ),
            ],
            // simple_idempotency
            vec![
                (
                    Command::new(CommandType::Simple, "v1"),
                    Configuration::new_conf(vec![1], vec![], vec![], vec![], false),
                    vec![1],
                    "",
                ),
                (
                    Command::new(CommandType::Simple, "v1"),
                    Configuration::new_conf(vec![1], vec![], vec![], vec![], false),
                    vec![1],
                    "",
                ),
                (
                    Command::new(CommandType::Simple, "v2"),
                    Configuration::new_conf(vec![1, 2], vec![], vec![], vec![], false),
                    vec![
                        1,
                        2,
                    ],
                    "",
                ),
                (
                    Command::new(CommandType::Simple, "l1"),
                    Configuration::new_conf(vec![2], vec![], vec![1], vec![], false),
                    vec![
                        1,
                        2,
                    ],
                    "",
                ),
                (
                    Command::new(CommandType::Simple, "l1"),
                    Configuration::new_conf(vec![2], vec![], vec![1], vec![], false),
                    vec![
                        1,
                        2,
                    ],
                    "",
                ),
                (
                    Command::new(CommandType::Simple, "r1"),
                    Configuration::new_conf(vec![2], vec![], vec![], vec![], false),
                    vec![2],
                    "",
                ),
                (
                    Command::new(CommandType::Simple, "r1"),
                    Configuration::new_conf(vec![2], vec![], vec![], vec![], false),
                    vec![2],
                    "",
                ),
                (
                    Command::new(CommandType::Simple, "v3"),
                    Configuration::new_conf(vec![2, 3], vec![], vec![], vec![], false),
                    vec![
                        2,
                        3,
                    ],
                    "",
                ),
                (
                    Command::new(CommandType::Simple, "r3"),
                    Configuration::new_conf(vec![2], vec![], vec![], vec![], false),
                    vec![2],
                    "",
                ),
                (
                    Command::new(CommandType::Simple, "r3"),
                    Configuration::new_conf(vec![2], vec![], vec![], vec![], false),
                    vec![2],
                    "",
                ),
                (
                    Command::new(CommandType::Simple, "r4"),
                    Configuration::new_conf(vec![2], vec![], vec![], vec![], false),
                    vec![2],
                    "",
                ),
            ],
            // simple_promote_demote
            vec![
                (
                    Command::new(CommandType::Simple, "v1"),
                    Configuration::new_conf(vec![1], vec![], vec![], vec![], false),
                    vec![1],
                    "",
                ),
                (
                    Command::new(CommandType::Simple, "v2"),
                    Configuration::new_conf(vec![1, 2], vec![], vec![], vec![], false),
                    vec![
                        1,
                        2,
                    ],
                    "",
                ),
                (
                    Command::new(CommandType::Simple, "v3"),
                    Configuration::new_conf(vec![1, 2, 3], vec![], vec![], vec![], false),
                    vec![
                        1,
                        2,
                        3,
                    ],
                    "",
                ),
                (
                    Command::new(CommandType::Simple, "l1 v1"),
                    Configuration::new_conf(vec![1, 2, 3], vec![], vec![], vec![], false),
                    vec![
                        1,
                        2,
                        3,
                    ],
                    "",
                ),
                (
                    Command::new(CommandType::Simple, "l2"),
                    Configuration::new_conf(vec![1, 3], vec![], vec![2], vec![], false),
                    vec![
                        1,
                        2,
                        3,
                    ],
                    "",
                ),
                (
                    Command::new(CommandType::Simple, "v2 l2"),
                    Configuration::new_conf(vec![1, 3], vec![], vec![2], vec![], false),
                    vec![
                        1,
                        2,
                        3,
                    ],
                    "",
                ),
                (
                    Command::new(CommandType::Simple, "v2"),
                    Configuration::new_conf(vec![1, 2, 3], vec![], vec![], vec![], false),
                    vec![
                        1,
                        2,
                        3,
                    ],
                    "",
                ),
            ],
            // simple safety
            vec![
                (
                    Command::new(CommandType::Simple, "l1"),
                    Configuration::default(),
                    vec![],
                    "removed all voters",
                ),
                (
                    Command::new(CommandType::Simple, "v1"),
                    Configuration::new_conf(vec![1], vec![], vec![], vec![], false),
                    vec![1],
                    "",
                ),
                (
                    Command::new(CommandType::Simple, "v2 l3"),
                    Configuration::new_conf(vec![1, 2], vec![], vec![3], vec![], false),
                    vec![
                        1,
                        2,
                        3,
                    ],
                    "",
                ),
                (
                    Command::new(CommandType::Simple, "r1 v5"),
                    Configuration::default(),
                    vec![],
                    "more than one voter changed without entering joint config",
                ),
                (
                    Command::new(CommandType::Simple, "r1 r2"),
                    Configuration::default(),
                    vec![],
                    "removed all voters",
                ),
                (
                    Command::new(CommandType::Simple, "v3 v4"),
                    Configuration::default(),
                    vec![],
                    "more than one voter changed without entering joint config",
                ),
                (
                    Command::new(CommandType::Simple, "l1 v5"),
                    Configuration::default(),
                    vec![],
                    "more than one voter changed without entering joint config",
                ),
                (
                    Command::new(CommandType::Simple, "l1 l2"),
                    Configuration::default(),
                    vec![],
                    "removed all voters",
                ),
                (
                    Command::new(CommandType::Simple, "l2 l3 l4 l5"),
                    Configuration::new_conf(vec![1], vec![], vec![2, 3, 4, 5], vec![], false),
                    vec![
                        1,
                        2,
                        3,
                        4,
                        5,
                    ],
                    "",
                ),
                (
                    Command::new(CommandType::Simple, "r1"),
                    Configuration::default(),
                    vec![],
                    "removed all voters",
                ),
                (
                    Command::new(CommandType::Simple, "r2 r3 r4 r5"),
                    Configuration::new_conf(vec![1], vec![], vec![], vec![], false),
                    vec![1],
                    "",
                ),
            ],
            // id 0 doesn't change any
            vec![(
                Command::new(CommandType::Simple, "v1 v0"),
                Configuration::new_conf(vec![1], vec![], vec![], vec![], false),
                vec![1],
                "",
            )],
        ];

    for (test_case, commands) in test_cases.into_iter().enumerate() {
        let mut tr = ProgressTracker::new();
        for (index, (command, expected_conf, expected_prs, expected_err)) in commands.into_iter().enumerate() {
            let result = {
                let mut c = Changer::new(&tr);
                execute_commands(&mut c, command)
            };
            match result {
                Ok((conf, changes)) => {
                    tr.apply_conf(conf, changes);
                    let conf = tr.conf().clone();
                    let prs: Vec<u64> = tr.progress().as_vec().clone();
                    assert_eq!(
                        (expected_conf, expected_prs),
                        (conf, prs),
                        "[test_case #{}, command_index #{}] mismatched result",
                        test_case + 1,
                        index + 1,
                    );
                }
                Err(e) => {
                    assert_eq!(
                        String::from(expected_err),
                        e.message(),
                        "[test_case #{}, command_index #{}] mismatched error",
                        test_case + 1,
                        index + 1,
                    );
                }
            }
        }
    }
}
