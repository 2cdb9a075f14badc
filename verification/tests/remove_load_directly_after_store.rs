use ir_optimizer::ir::function::{BasicBlock, FunctionDefinition, FunctionHeader};
use ir_optimizer::ir::optimize::execute_pass;
use ir_optimizer::ir::optimize::pass::remove_load_directly_after_store::RemoveLoadDirectlyAfterStore;
use ir_optimizer::ir::quantity::{Quantity, RegisterName};
use ir_optimizer::ir::statement::{
    Alloca, BinaryCalculate, BinaryOperation, IRStatement, Jump, Load, Ret, Store,
};
use ir_optimizer::utility::data_type::Type;

fn example() -> FunctionDefinition {
    FunctionDefinition {
        header: FunctionHeader {
            name: "f".to_string(),
            parameters: Vec::new(),
            return_type: Type::Unit,
        },
        content: vec![
            BasicBlock {
                name: Some("bb0".to_string()),
                content: vec![
                    Alloca {
                        to: RegisterName("0".to_string()),
                        alloc_type: Type::signed(32),
                    }
                    .into(),
                    Alloca {
                        to: RegisterName("1".to_string()),
                        alloc_type: Type::signed(32),
                    }
                    .into(),
                    Store {
                        data_type: Type::signed(32),
                        source: 42.into(),
                        target: RegisterName("0".to_string()).into(),
                    }
                    .into(),
                    Store {
                        data_type: Type::signed(32),
                        source: 43.into(),
                        target: RegisterName("1".to_string()).into(),
                    }
                    .into(),
                    Load {
                        to: RegisterName("3".to_string()),
                        data_type: Type::signed(32),
                        from: RegisterName("0".to_string()).into(),
                    }
                    .into(),
                    BinaryCalculate {
                        operation: BinaryOperation::Add,
                        operand1: RegisterName("3".to_string()).into(),
                        operand2: 44.into(),
                        to: RegisterName("4".to_string()),
                        data_type: Type::signed(32),
                    }
                    .into(),
                    Load {
                        to: RegisterName("5".to_string()),
                        data_type: Type::signed(32),
                        from: RegisterName("0".to_string()).into(),
                    }
                    .into(),
                    BinaryCalculate {
                        operation: BinaryOperation::Add,
                        operand1: RegisterName("5".to_string()).into(),
                        operand2: 45.into(),
                        to: RegisterName("6".to_string()),
                        data_type: Type::signed(32),
                    }
                    .into(),
                    Jump {
                        label: "bb1".to_string(),
                    }
                    .into(),
                ],
            },
            BasicBlock {
                name: Some("bb1".to_string()),
                content: vec![
                    Load {
                        to: RegisterName("2".to_string()),
                        data_type: Type::signed(32),
                        from: RegisterName("0".to_string()).into(),
                    }
                    .into(),
                    BinaryCalculate {
                        operation: BinaryOperation::Add,
                        operand1: RegisterName("2".to_string()).into(),
                        operand2: 46.into(),
                        to: RegisterName("7".to_string()),
                        data_type: Type::signed(32),
                    }
                    .into(),
                    Ret { value: None }.into(),
                ],
            },
        ],
    }
}

#[test]
fn run() {
    let function = example();
    let pass = RemoveLoadDirectlyAfterStore;
    let function = execute_pass(function, pass.into());
    assert_eq!(function.content[0].content.len(), 7);
    assert_eq!(
        function.content[0]
            .content
            .iter()
            .filter(|it| matches!(it, IRStatement::Load(_)))
            .count(),
        0
    );
    assert_eq!(function.content[1].content.len(), 3);
}

#[test]
fn run_renames_the_loaded_registers_to_the_stored_value() {
    let function = execute_pass(example(), RemoveLoadDirectlyAfterStore.into());
    let first = &function.content[0].content;
    assert_eq!(
        first[4],
        IRStatement::BinaryCalculate(BinaryCalculate {
            operation: BinaryOperation::Add,
            operand1: Quantity::NumberLiteral(42),
            operand2: Quantity::NumberLiteral(44),
            to: RegisterName("4".to_string()),
            data_type: Type::signed(32),
        })
    );
    assert_eq!(
        first[5],
        IRStatement::BinaryCalculate(BinaryCalculate {
            operation: BinaryOperation::Add,
            operand1: Quantity::NumberLiteral(42),
            operand2: Quantity::NumberLiteral(45),
            to: RegisterName("6".to_string()),
            data_type: Type::signed(32),
        })
    );
    assert_eq!(
        first[6],
        IRStatement::Jump(Jump {
            label: "bb1".to_string()
        })
    );
    assert_eq!(function.content[1], example().content[1]);
}

#[test]
fn run_twice_is_run_once() {
    let once = execute_pass(example(), RemoveLoadDirectlyAfterStore.into());
    let twice = execute_pass(
        execute_pass(example(), RemoveLoadDirectlyAfterStore.into()),
        RemoveLoadDirectlyAfterStore.into(),
    );
    assert_eq!(once, twice);
}

fn one_block(content: Vec<IRStatement>) -> FunctionDefinition {
    FunctionDefinition {
        header: FunctionHeader {
            name: "g".to_string(),
            parameters: Vec::new(),
            return_type: Type::Unit,
        },
        content: vec![BasicBlock {
            name: None,
            content,
        }],
    }
}

fn alloca(to: &str) -> IRStatement {
    Alloca {
        to: RegisterName(to.to_string()),
        alloc_type: Type::signed(32),
    }
    .into()
}

fn store(source: Quantity, target: &str) -> IRStatement {
    Store {
        data_type: Type::signed(32),
        source,
        target: RegisterName(target.to_string()).into(),
    }
    .into()
}

fn load(to: &str, from: &str) -> IRStatement {
    Load {
        to: RegisterName(to.to_string()),
        data_type: Type::signed(32),
        from: RegisterName(from.to_string()).into(),
    }
    .into()
}

#[test]
fn a_store_between_ends_the_reach_of_the_first() {
    let function = one_block(vec![
        alloca("a"),
        store(1.into(), "a"),
        load("x", "a"),
        store(RegisterName("x".to_string()).into(), "a"),
        load("y", "a"),
        Ret {
            value: Some(RegisterName("y".to_string()).into()),
        }
        .into(),
    ]);
    let function = execute_pass(function, RemoveLoadDirectlyAfterStore.into());
    assert_eq!(
        function.content[0].content,
        vec![
            alloca("a"),
            store(1.into(), "a"),
            store(1.into(), "a"),
            Ret {
                value: Some(RegisterName("x".to_string()).into()),
            }
            .into(),
        ]
    );
}

#[test]
fn a_slot_whose_address_escapes_keeps_its_loads() {
    let function = one_block(vec![
        alloca("a"),
        alloca("b"),
        store(1.into(), "a"),
        store(RegisterName("a".to_string()).into(), "b"),
        load("x", "a"),
        load("p", "b"),
        Ret { value: None }.into(),
    ]);
    let after = execute_pass(function, RemoveLoadDirectlyAfterStore.into());
    assert_eq!(
        after.content[0].content,
        vec![
            alloca("a"),
            alloca("b"),
            store(1.into(), "a"),
            store(RegisterName("a".to_string()).into(), "b"),
            load("x", "a"),
            Ret { value: None }.into(),
        ]
    );
}

#[test]
fn a_function_without_work_stays_as_it_is() {
    let function = one_block(vec![
        alloca("a"),
        load("x", "a"),
        store(1.into(), "a"),
        Ret { value: None }.into(),
    ]);
    let after = execute_pass(function, RemoveLoadDirectlyAfterStore.into());
    assert_eq!(
        after.content[0].content,
        vec![
            alloca("a"),
            load("x", "a"),
            store(1.into(), "a"),
            Ret { value: None }.into(),
        ]
    );
}

#[test]
fn a_load_into_the_register_of_a_slot_can_leave_work_for_a_second_run() {
    let function = one_block(vec![
        alloca("v"),
        alloca("u"),
        alloca("w"),
        store(1.into(), "v"),
        load("u", "v"),
        store(RegisterName("u".to_string()).into(), "w"),
        load("r", "w"),
        store(9.into(), "r"),
        load("t", "r"),
    ]);
    let once = execute_pass(function, RemoveLoadDirectlyAfterStore.into());
    assert_eq!(
        once.content[0].content,
        vec![
            alloca("v"),
            alloca("u"),
            alloca("w"),
            store(1.into(), "v"),
            store(1.into(), "w"),
            store(9.into(), "u"),
            load("t", "u"),
        ]
    );
    let twice = execute_pass(once, RemoveLoadDirectlyAfterStore.into());
    assert_eq!(twice.content[0].content.len(), 6);
}
