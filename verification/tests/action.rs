use ir_optimizer::ir::function::{BasicBlock, FunctionDefinition, FunctionHeader, StatementIndex};
use ir_optimizer::ir::optimize::action::remove_statement::RemoveStatement;
use ir_optimizer::ir::optimize::action::rename_local::RenameLocal;
use ir_optimizer::ir::optimize::action::{Action, Actions};
use ir_optimizer::ir::optimize::pass::remove_load_directly_after_store::RemoveLoadDirectlyAfterStore;
use ir_optimizer::ir::optimize::pass::Pass;
use ir_optimizer::ir::analyzer::Analyzer;
use ir_optimizer::ir::quantity::{Quantity, RegisterName};
use ir_optimizer::ir::statement::{
    Alloca, BinaryCalculate, BinaryOperation, IRStatement, Jump, Load, Ret, Store,
};
use ir_optimizer::utility::data_type::Type;
use ir_optimizer::utility::text::{push_integer, push_natural};

fn register(name: &str) -> RegisterName {
    RegisterName(name.to_string())
}

fn sample() -> FunctionDefinition {
    FunctionDefinition {
        header: FunctionHeader {
            name: "g".to_string(),
            parameters: Vec::new(),
            return_type: Type::signed(32),
        },
        content: vec![
            BasicBlock {
                name: None,
                content: vec![
                    Alloca {
                        to: register("s"),
                        alloc_type: Type::signed(32),
                    }
                    .into(),
                    Store {
                        data_type: Type::signed(32),
                        source: register("x").into(),
                        target: register("s").into(),
                    }
                    .into(),
                    Load {
                        to: register("y"),
                        data_type: Type::signed(32),
                        from: register("x").into(),
                    }
                    .into(),
                    BinaryCalculate {
                        operation: BinaryOperation::Sub,
                        operand1: register("x").into(),
                        operand2: register("x").into(),
                        to: register("x"),
                        data_type: Type::signed(32),
                    }
                    .into(),
                    Jump {
                        label: "x".to_string(),
                    }
                    .into(),
                ],
            },
            BasicBlock {
                name: Some("x".to_string()),
                content: vec![
                    Store {
                        data_type: Type::signed(32),
                        source: 7.into(),
                        target: register("x").into(),
                    }
                    .into(),
                    Ret {
                        value: Some(register("x").into()),
                    }
                    .into(),
                ],
            },
        ],
    }
}

fn uses_of(function: &FunctionDefinition, name: &str) -> usize {
    let wanted = Quantity::RegisterName(register(name));
    let mut count = 0;
    for block in &function.content {
        for statement in &block.content {
            let operands: Vec<&Quantity> = match statement {
                IRStatement::Alloca(_) | IRStatement::Jump(_) => vec![],
                IRStatement::Store(s) => vec![&s.source, &s.target],
                IRStatement::Load(s) => vec![&s.from],
                IRStatement::BinaryCalculate(s) => vec![&s.operand1, &s.operand2],
                IRStatement::Ret(s) => s.value.iter().collect(),
            };
            count += operands.into_iter().filter(|it| **it == wanted).count();
        }
    }
    count
}

#[test]
fn new_converts_what_replaces_the_register() {
    let to_constant = RenameLocal::new(register("a"), 42);
    assert_eq!(to_constant.from, register("a"));
    assert_eq!(to_constant.to, Quantity::NumberLiteral(42));
    let to_register = RenameLocal::new(register("a"), register("b"));
    assert_eq!(to_register.to, Quantity::RegisterName(register("b")));
    let as_it_is = RenameLocal::new(register("a"), Quantity::NumberLiteral(-1));
    assert_eq!(as_it_is.to, Quantity::NumberLiteral(-1));
}

#[test]
fn rename_replaces_every_use_and_no_definition() {
    let mut function = sample();
    assert_eq!(uses_of(&function, "x"), 6);
    RenameLocal::new(register("x"), 5).perform(&mut function);
    assert_eq!(uses_of(&function, "x"), 0);
    let first = &function.content[0].content;
    assert_eq!(
        first[1],
        IRStatement::Store(Store {
            data_type: Type::signed(32),
            source: Quantity::NumberLiteral(5),
            target: Quantity::RegisterName(register("s")),
        })
    );
    assert_eq!(
        first[3],
        IRStatement::BinaryCalculate(BinaryCalculate {
            operation: BinaryOperation::Sub,
            operand1: Quantity::NumberLiteral(5),
            operand2: Quantity::NumberLiteral(5),
            to: register("x"),
            data_type: Type::signed(32),
        })
    );
    assert_eq!(
        first[4],
        IRStatement::Jump(Jump {
            label: "x".to_string()
        })
    );
    let second = &function.content[1];
    assert_eq!(second.name, Some("x".to_string()));
    assert_eq!(
        second.content[1],
        IRStatement::Ret(Ret {
            value: Some(Quantity::NumberLiteral(5))
        })
    );
}

#[test]
fn rename_to_another_register() {
    let mut function = sample();
    RenameLocal::new(register("x"), register("z")).perform(&mut function);
    assert_eq!(uses_of(&function, "x"), 0);
    assert_eq!(uses_of(&function, "z"), 6);
    assert_eq!(uses_of(&function, "s"), 1);
}

#[test]
fn rename_of_an_unused_register_changes_nothing() {
    let mut function = sample();
    RenameLocal::new(register("nobody"), 1).perform(&mut function);
    assert_eq!(function, sample());
}

#[test]
fn rename_leaves_the_actions_behind_it_alone() {
    let mut others = vec![
        Action::RemoveStatement(RemoveStatement::new(StatementIndex::new(0, 3))),
        Action::RenameLocal(RenameLocal::new(register("x"), 1)),
    ];
    RenameLocal::new(register("x"), 2).affect_others(&mut others);
    assert_eq!(
        others,
        vec![
            Action::RemoveStatement(RemoveStatement::new(StatementIndex::new(0, 3))),
            Action::RenameLocal(RenameLocal::new(register("x"), 1)),
        ]
    );
}

#[test]
fn removal_moves_the_later_statements_up() {
    let mut function = sample();
    RemoveStatement::new(StatementIndex::new(0, 1)).perform(&mut function);
    let before = sample();
    assert_eq!(function.content[0].content.len(), 4);
    assert_eq!(function.content[0].content[0], before.content[0].content[0]);
    assert_eq!(function.content[0].content[1], before.content[0].content[2]);
    assert_eq!(function.content[0].content[2], before.content[0].content[3]);
    assert_eq!(function.content[0].content[3], before.content[0].content[4]);
    assert_eq!(function.content[1], before.content[1]);
    assert_eq!(function.header, before.header);
}

#[test]
fn removal_adjusts_the_removals_behind_it() {
    let mut others = vec![
        Action::RemoveStatement(RemoveStatement::new(StatementIndex::new(0, 4))),
        Action::RemoveStatement(RemoveStatement::new(StatementIndex::new(0, 1))),
        Action::RemoveStatement(RemoveStatement::new(StatementIndex::new(1, 4))),
        Action::RenameLocal(RenameLocal::new(register("x"), 1)),
        Action::RemoveStatement(RemoveStatement::new(StatementIndex::new(0, 3))),
    ];
    RemoveStatement::new(StatementIndex::new(0, 2)).affect_others(&mut others);
    assert_eq!(
        others,
        vec![
            Action::RemoveStatement(RemoveStatement::new(StatementIndex::new(0, 3))),
            Action::RemoveStatement(RemoveStatement::new(StatementIndex::new(0, 1))),
            Action::RemoveStatement(RemoveStatement::new(StatementIndex::new(1, 4))),
            Action::RenameLocal(RenameLocal::new(register("x"), 1)),
            Action::RemoveStatement(RemoveStatement::new(StatementIndex::new(0, 2))),
        ]
    );
}

#[test]
fn a_batch_removes_what_its_indices_meant() {
    let mut function = sample();
    let mut batch = Actions::default();
    batch.push(RemoveStatement::new(StatementIndex::new(0, 1)).into());
    batch.push(RenameLocal::new(register("x"), 9).into());
    batch.push(RemoveStatement::new(StatementIndex::new(0, 3)).into());
    batch.push(RemoveStatement::new(StatementIndex::new(1, 0)).into());
    batch.push(RemoveStatement::new(StatementIndex::new(0, 0)).into());
    assert_eq!(batch.len(), 5);
    batch.perform(&mut function);
    assert_eq!(
        function.content[0].content,
        vec![
            IRStatement::Load(Load {
                to: register("y"),
                data_type: Type::signed(32),
                from: Quantity::NumberLiteral(9),
            }),
            IRStatement::Jump(Jump {
                label: "x".to_string()
            }),
        ]
    );
    assert_eq!(
        function.content[1].content,
        vec![IRStatement::Ret(Ret {
            value: Some(Quantity::NumberLiteral(9))
        })]
    );
}

#[test]
fn an_empty_batch_changes_nothing() {
    let mut function = sample();
    Actions::default().perform(&mut function);
    assert_eq!(function, sample());
}

#[test]
fn actions_describe_themselves() {
    assert_eq!(
        RenameLocal::new(register("3"), 42).to_string(),
        "rename `3` to `42`"
    );
    assert_eq!(
        RenameLocal::new(register("tmp"), register("other")).to_string(),
        "rename `tmp` to `other`"
    );
    assert_eq!(
        RenameLocal::new(register("a"), i64::MIN).to_string(),
        "rename `a` to `-9223372036854775808`"
    );
    assert_eq!(
        RemoveStatement::new(StatementIndex::new(0, 4)).to_string(),
        "remove `0:4`"
    );
    assert_eq!(
        Action::from(RemoveStatement::new(StatementIndex::new(12, 305))).to_string(),
        "remove `12:305`"
    );
    assert_eq!(
        Action::from(RenameLocal::new(register("r"), 0)).to_string(),
        "rename `r` to `0`"
    );
    assert_eq!(Quantity::NumberLiteral(-70).to_string(), "-70");
    assert_eq!(Quantity::RegisterName(register("q")).to_string(), "q");
}

#[test]
fn numbers_are_written_in_decimal() {
    let mut text = String::from("n=");
    push_natural(&mut text, 0);
    push_natural(&mut text, 10);
    push_natural(&mut text, u64::MAX);
    assert_eq!(text, "n=01018446744073709551615");
    let mut text = String::new();
    push_integer(&mut text, -1);
    push_integer(&mut text, 9);
    push_integer(&mut text, i64::MAX);
    assert_eq!(text, "-199223372036854775807");
}

#[test]
fn the_pass_asks_for_a_removal_and_a_renaming_per_load() {
    let function = FunctionDefinition {
        header: FunctionHeader {
            name: "h".to_string(),
            parameters: Vec::new(),
            return_type: Type::Unit,
        },
        content: vec![BasicBlock {
            name: None,
            content: vec![
                Alloca {
                    to: register("a"),
                    alloc_type: Type::signed(32),
                }
                .into(),
                Store {
                    data_type: Type::signed(32),
                    source: register("v").into(),
                    target: register("a").into(),
                }
                .into(),
                Load {
                    to: register("x"),
                    data_type: Type::signed(32),
                    from: register("a").into(),
                }
                .into(),
                Store {
                    data_type: Type::signed(32),
                    source: 2.into(),
                    target: register("a").into(),
                }
                .into(),
                Load {
                    to: register("y"),
                    data_type: Type::signed(32),
                    from: register("a").into(),
                }
                .into(),
            ],
        }],
    };
    let analyzer = Analyzer::new(&function);
    let pass = RemoveLoadDirectlyAfterStore;
    let batch = pass.run(&analyzer);
    assert_eq!(
        batch,
        Actions(vec![
            Action::RemoveStatement(RemoveStatement::new(StatementIndex::new(0, 2))),
            Action::RenameLocal(RenameLocal::new(register("x"), register("v"))),
            Action::RemoveStatement(RemoveStatement::new(StatementIndex::new(0, 4))),
            Action::RenameLocal(RenameLocal::new(register("y"), 2)),
        ])
    );
    assert_eq!(Pass::from(pass).run(&analyzer), batch);
}

#[test]
fn the_pass_needs_and_invalidates_nothing() {
    let pass = RemoveLoadDirectlyAfterStore;
    assert_eq!(pass.need(), Vec::<Pass>::new());
    assert_eq!(pass.invalidate(), Vec::<Pass>::new());
    assert_eq!(Pass::from(pass).need(), Vec::<Pass>::new());
    assert_eq!(Pass::from(pass).invalidate(), Vec::<Pass>::new());
}
