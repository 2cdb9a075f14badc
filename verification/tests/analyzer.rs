use ir_optimizer::ir::analyzer::{Analyzer, MemoryAccessInfo};
use ir_optimizer::ir::function::{BasicBlock, FunctionDefinition, FunctionHeader, StatementIndex};
use ir_optimizer::ir::quantity::{Quantity, RegisterName};
use ir_optimizer::ir::statement::{
    Alloca, BinaryCalculate, BinaryOperation, IRStatement, Jump, Load, Ret, Role, Store,
};
use ir_optimizer::utility::data_type::Type;

fn register(name: &str) -> RegisterName {
    RegisterName(name.to_string())
}

fn alloca(to: &str) -> IRStatement {
    Alloca {
        to: register(to),
        alloc_type: Type::signed(32),
    }
    .into()
}

fn store(source: Quantity, target: &str) -> IRStatement {
    Store {
        data_type: Type::signed(32),
        source,
        target: register(target).into(),
    }
    .into()
}

fn load(to: &str, from: &str) -> IRStatement {
    Load {
        to: register(to),
        data_type: Type::signed(32),
        from: register(from).into(),
    }
    .into()
}

fn function(blocks: Vec<Vec<IRStatement>>) -> FunctionDefinition {
    FunctionDefinition {
        header: FunctionHeader {
            name: "f".to_string(),
            parameters: Vec::new(),
            return_type: Type::Unit,
        },
        content: blocks
            .into_iter()
            .map(|content| BasicBlock {
                name: None,
                content,
            })
            .collect(),
    }
}

fn at(block: usize, offset: usize) -> StatementIndex {
    StatementIndex::new(block, offset)
}

fn two_blocks() -> FunctionDefinition {
    function(vec![
        vec![
            alloca("a"),
            alloca("b"),
            store(1.into(), "a"),
            load("x", "a"),
            load("y", "a"),
            store(2.into(), "a"),
            load("z", "a"),
            load("w", "b"),
            Jump {
                label: "next".to_string(),
            }
            .into(),
        ],
        vec![
            load("u", "a"),
            store(3.into(), "b"),
            load("v", "b"),
            Ret { value: None }.into(),
        ],
    ])
}

#[test]
fn variables_are_the_stored_slots_in_order_of_allocation() {
    let f = two_blocks();
    let analyzer = Analyzer::new(&f);
    assert_eq!(
        analyzer.memory_access_variables(),
        vec![register("a"), register("b")]
    );
}

#[test]
fn a_slot_that_is_never_stored_to_is_no_variable() {
    let f = function(vec![vec![
        alloca("a"),
        alloca("b"),
        store(1.into(), "b"),
        load("x", "a"),
    ]]);
    let analyzer = Analyzer::new(&f);
    assert_eq!(analyzer.memory_access_variables(), vec![register("b")]);
    assert!(!analyzer.is_trackable(&register("a")));
    assert!(analyzer.is_trackable(&register("b")));
}

#[test]
fn a_register_that_is_not_allocated_is_no_variable() {
    let f = function(vec![vec![store(1.into(), "p"), load("x", "p")]]);
    let analyzer = Analyzer::new(&f);
    assert_eq!(analyzer.memory_access_variables(), Vec::<RegisterName>::new());
}

#[test]
fn a_slot_allocated_twice_is_one_variable() {
    let f = function(vec![
        vec![alloca("a"), store(1.into(), "a")],
        vec![alloca("a"), alloca("c"), store(2.into(), "c")],
    ]);
    let analyzer = Analyzer::new(&f);
    assert_eq!(
        analyzer.memory_access_variables(),
        vec![register("a"), register("c")]
    );
}

#[test]
fn a_slot_whose_address_is_stored_is_excluded() {
    let f = function(vec![vec![
        alloca("a"),
        alloca("b"),
        store(1.into(), "a"),
        store(register("a").into(), "b"),
        load("x", "a"),
    ]]);
    let analyzer = Analyzer::new(&f);
    assert_eq!(analyzer.memory_access_variables(), vec![register("b")]);
}

#[test]
fn a_slot_whose_address_is_computed_with_or_returned_is_excluded() {
    let f = function(vec![vec![
        alloca("a"),
        alloca("b"),
        alloca("c"),
        store(1.into(), "a"),
        store(2.into(), "b"),
        store(3.into(), "c"),
        BinaryCalculate {
            operation: BinaryOperation::Add,
            operand1: 8.into(),
            operand2: register("a").into(),
            to: register("p"),
            data_type: Type::Address,
        }
        .into(),
        Ret {
            value: Some(register("c").into()),
        }
        .into(),
    ]]);
    let analyzer = Analyzer::new(&f);
    assert_eq!(analyzer.memory_access_variables(), vec![register("b")]);
}

#[test]
fn access_info_lists_stores_and_loads_in_order() {
    let f = two_blocks();
    let analyzer = Analyzer::new(&f);
    assert_eq!(
        analyzer.memory_access_info(&register("a")),
        MemoryAccessInfo {
            store: vec![at(0, 2), at(0, 5)],
            load: vec![at(0, 3), at(0, 4), at(0, 6), at(1, 0)],
        }
    );
    assert_eq!(
        analyzer.memory_access_info(&register("b")),
        MemoryAccessInfo {
            store: vec![at(1, 1)],
            load: vec![at(0, 7), at(1, 2)],
        }
    );
    assert_eq!(
        analyzer.memory_access_info(&register("nowhere")),
        MemoryAccessInfo {
            store: vec![],
            load: vec![],
        }
    );
}

#[test]
fn occurrences_by_role() {
    let f = two_blocks();
    let analyzer = Analyzer::new(&f);
    assert_eq!(
        analyzer.occurrences(Role::Allocation, &register("b")),
        vec![at(0, 1)]
    );
    assert_eq!(
        analyzer.occurrences(Role::Escape, &register("a")),
        Vec::<StatementIndex>::new()
    );
}

#[test]
fn a_store_reaches_the_loads_up_to_the_next_store() {
    let f = two_blocks();
    let analyzer = Analyzer::new(&f);
    assert_eq!(
        analyzer.loads_dominated_by_store_in_block(at(0, 2)),
        vec![at(0, 3), at(0, 4)]
    );
    assert_eq!(
        analyzer.loads_dominated_by_store_in_block(at(0, 5)),
        vec![at(0, 6)]
    );
}

#[test]
fn a_load_in_another_block_is_never_reached() {
    let f = two_blocks();
    let analyzer = Analyzer::new(&f);
    let reached = analyzer.loads_dominated_by_store_in_block(at(0, 5));
    assert!(!reached.contains(&at(1, 0)));
    let info = analyzer.memory_access_info(&register("b"));
    assert_eq!(
        info.loads_dominated_by_store_in_block(at(1, 1)),
        vec![at(1, 2)]
    );
    assert!(!info.dominates(at(1, 1), at(0, 7)));
    assert!(info.dominates(at(1, 1), at(1, 2)));
}

#[test]
fn a_load_before_the_store_or_at_it_is_not_reached() {
    let info = MemoryAccessInfo {
        store: vec![at(0, 4)],
        load: vec![at(0, 1), at(0, 3), at(0, 5)],
    };
    assert_eq!(info.loads_dominated_by_store_in_block(at(0, 4)), vec![at(0, 5)]);
    assert_eq!(
        info.loads_dominated_by_store_in_block(at(0, 0)),
        vec![at(0, 1), at(0, 3)]
    );
    assert_eq!(
        info.loads_dominated_by_store_in_block(at(0, 5)),
        Vec::<StatementIndex>::new()
    );
}

#[test]
fn a_store_through_a_constant_address_reaches_nothing() {
    let f = function(vec![vec![
        Store {
            data_type: Type::signed(32),
            source: 1.into(),
            target: 4096.into(),
        }
        .into(),
        load("x", "a"),
    ]]);
    let analyzer = Analyzer::new(&f);
    assert_eq!(
        analyzer.loads_dominated_by_store_in_block(at(0, 0)),
        Vec::<StatementIndex>::new()
    );
}

#[test]
fn statements_are_found_by_their_index() {
    let f = two_blocks();
    assert!(f.has(at(1, 3)));
    assert!(!f.has(at(1, 4)));
    assert!(!f.has(at(2, 0)));
    assert_eq!(f.statement(at(1, 1)), &store(3.into(), "b"));
    assert_eq!(
        f.statement(at(0, 2)).as_store().source,
        Quantity::NumberLiteral(1)
    );
    assert_eq!(f.statement(at(0, 3)).as_load().to, register("x"));
}
