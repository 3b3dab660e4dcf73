//! The state of the checker, one step at a time.

use zz::ast::{Block, Expression, NamedArg, Pointer, Statement, Typed};
use zz::lifetimes::stack::Owed;
use zz::lifetimes::{Access, Ice, Lifetime, Stack};
use zz::location::Location;
use zz::name::Name;
use zz::report::{Report, ReportOf, any_error};
use zz::tags::Tags;

fn at(line: usize) -> Location {
    Location { file: 1, start: line, end: line + 1, line, col: 1 }
}

fn tagged(keys: &[&str]) -> Tags {
    let mut tags = Tags::new();
    for key in keys {
        tags.insert(key.to_string(), String::new(), at(90));
    }
    tags
}

fn fresh() -> Stack {
    let mut stack = Stack::new();
    stack.push("static");
    stack
}

fn declare(stack: &mut Stack, name: &str, keys: &[&str], line: usize) -> usize {
    stack.local(None, Name::from(name), at(line), tagged(keys))
}

fn typed(name: &str) -> Typed {
    Typed { name: Name::from(name), loc: at(70), ptr: vec![] }
}

#[test]
fn pointer_has_its_target() {
    assert_eq!(Lifetime::Pointer(7).as_pointer(), 7);
    assert!(Lifetime::Pointer(7).is_pointer());
    assert!(!Lifetime::Static.is_pointer());
}

#[test]
fn lifetimes_are_shown() {
    let function = Lifetime::Function { ret: None, args: vec![], vararg: false };
    let dropped = Lifetime::Dropped { stored_here: at(1), dropped_here: at(2) };
    let shown: Vec<String> = [
        Lifetime::Uninitialized,
        Lifetime::Static,
        Lifetime::Pointer(120),
        function,
        Lifetime::Moved { moved_here: at(1) },
        dropped,
    ]
        .iter()
        .map(|lf| lf.to_text())
        .collect();
    assert_eq!(
        shown,
        vec!["uninitialized", "static", "ptr->120", "function", "moved", "dropped"]
    );
}

#[test]
fn the_innermost_binding_is_found() {
    let mut stack = fresh();
    let outer = declare(&mut stack, "x", &[], 1);
    let other = declare(&mut stack, "y", &[], 2);
    stack.push("block");
    assert_eq!(stack.find(&Name::from("x")), Some(outer));
    let inner = declare(&mut stack, "x", &[], 3);
    assert_ne!(inner, outer);
    assert_eq!(stack.find(&Name::from("x")), Some(inner));
    assert_eq!(stack.find(&Name::from("y")), Some(other));
    assert_eq!(stack.find(&Name::from("z")), None);
    stack.pop(&at(4));
    assert_eq!(stack.find(&Name::from("x")), Some(outer));
}

#[test]
fn a_scope_binds_a_name_once() {
    let mut stack = fresh();
    let first = declare(&mut stack, "x", &[], 1);
    let second = declare(&mut stack, "x", &[], 2);
    assert_eq!((first, second), (0, 1));
    assert_eq!(stack.find(&Name::from("x")), Some(second));
    assert_eq!(stack.cur().get(&Name::from("x")), Some(second));
    stack.cur().insert(Name::from("z"), first);
    assert_eq!(stack.find(&Name::from("z")), Some(first));
    stack.cur().insert(Name::from("x"), first);
    assert_eq!(stack.cur().locals.len(), 2);
}

#[test]
fn a_read_gives_back_what_was_written() {
    let mut stack = fresh();
    let x = declare(&mut stack, "x", &[], 1);
    let y = declare(&mut stack, "y", &[], 2);
    let stored = stack.write(x, Lifetime::Pointer(y), &at(3));
    assert_eq!(stored.to_text(), "ptr->1");
    assert_eq!(stack.read(x, &at(4), Access::Value).to_text(), "ptr->1");
    assert_eq!(stack.read(x, &at(4), Access::Storage).to_text(), "ptr->0");
    assert_eq!(stack.pointers[x].changed_here, Some(at(3)));
    assert_eq!(stack.pointers[y].changed_here, None);
    assert!(!stack.abort());
    assert_eq!(stack.reports.len(), 0);
}

#[test]
fn a_scope_drops_what_it_binds_and_nothing_else() {
    let mut stack = fresh();
    let outer = declare(&mut stack, "x", &[], 1);
    stack.write(outer, Lifetime::Static, &at(1));
    stack.push("block");
    let shadowed = declare(&mut stack, "y", &[], 2);
    stack.write(shadowed, Lifetime::Static, &at(2));
    let inner = declare(&mut stack, "y", &[], 3);
    stack.pop(&at(4));
    assert_eq!(stack.pointers[outer].value.to_text(), "static");
    assert_eq!(stack.pointers[shadowed].value.to_text(), "static");
    assert_eq!(stack.pointers[inner].value.to_text(), "dropped");
    for access in [Access::Value, Access::Storage] {
        assert_eq!(stack.read(inner, &at(5), access).to_text(), "uninitialized");
    }
    assert_eq!(stack.reports.len(), 2);
    match &stack.reports[0] {
        ReportOf::DroppedRead { name, used_here, stored_here, dropped_here } => {
            assert_eq!(name.to_text(), "y");
            assert_eq!((used_here.line, stored_here.line, dropped_here.line), (5, 3, 4));
        },
        _ => panic!("another report"),
    }
}

#[test]
fn only_the_address_of_what_holds_nothing_can_be_read() {
    let mut stack = fresh();
    let x = declare(&mut stack, "x", &[], 1);
    let y = declare(&mut stack, "y", &["unsafe"], 2);
    stack.write(y, Lifetime::Static, &at(2));
    let z = declare(&mut stack, "z", &[], 3);
    stack.give_away(z, at(4));
    for p in [x, y, z] {
        assert_eq!(stack.read(p, &at(5), Access::Storage).as_pointer(), p);
    }
    assert_eq!(stack.reports.len(), 0);
    for p in [x, y, z] {
        assert_eq!(stack.read(p, &at(6), Access::Value).to_text(), "uninitialized");
    }
    assert!(matches!(stack.reports[0], ReportOf::UninitializedRead { .. }));
    assert!(matches!(stack.reports[1], ReportOf::UnsafeRead { .. }));
    assert!(matches!(stack.reports[2], ReportOf::MovedRead { .. }));
    stack.set_tags(y, tagged(&[]));
    assert_eq!(stack.read(y, &at(7), Access::Value).to_text(), "static");
}

#[test]
fn an_unknown_name_is_taken_for_something_static() {
    let mut stack = fresh();
    let value = stack.check_name(&Name::from("x"), &at(1), Access::Storage);
    assert_eq!(value.to_text(), "static");
    assert!(stack.abort());
}

#[test]
fn a_return_loses_what_is_owed() {
    let mut stack = fresh();
    let kept = declare(&mut stack, "kept", &[], 1);
    let moved = declare(&mut stack, "moved", &[], 2);
    stack.give_away(moved, at(3));
    stack.must_move_before_ret.push(Owed { ptr: moved, loc: at(4) });
    stack.must_move_before_ret.push(Owed { ptr: kept, loc: at(5) });
    let mut leave = Statement::Return { loc: at(6), expr: None };
    stack.check_stm(&mut leave).unwrap();
    assert_eq!(stack.reports.len(), 1);
    assert_eq!(stack.reports[0].headline(), "function returns orphaning moved pointer");
    let lines: Vec<usize> = stack.reports[0].notes().iter().map(|n| n.loc.line).collect();
    assert_eq!(lines, vec![5, 6]);
    stack.check_stm(&mut leave).unwrap();
    assert_eq!(stack.reports.len(), 1);
}

#[test]
fn jumps_change_nothing() {
    let mut stack = fresh();
    for mut stm in [
        Statement::Goto { loc: at(1), label: "a".to_string() },
        Statement::Label { loc: at(2), label: "a".to_string() },
        Statement::Break { loc: at(3) },
    ] {
        stack.check_stm(&mut stm).unwrap();
    }
    assert_eq!(stack.pointers.len(), 0);
    assert_eq!(stack.reports.len(), 0);
}

fn returning(value: usize) -> Lifetime {
    Lifetime::Function {
        ret: Some(Box::new(Lifetime::Pointer(value))),
        args: vec![],
        vararg: false,
    }
}

#[test]
fn returned_pointers_without_an_end_break_off() {
    let mut stack = fresh();
    let f = declare(&mut stack, "f", &[], 1);
    let a = declare(&mut stack, "a", &[], 2);
    let b = declare(&mut stack, "b", &[], 3);
    stack.write(f, returning(a), &at(1));
    stack.write(a, Lifetime::Pointer(b), &at(2));
    stack.write(b, Lifetime::Pointer(a), &at(3));
    let mut call = Expression::Call { loc: at(4), name: typed("f"), args: vec![] };
    assert_eq!(stack.check_expr(&mut call, Access::Value).unwrap_err(), Ice::EndlessReturn);
}

#[test]
fn returned_pointers_with_an_end_are_copied() {
    let mut stack = fresh();
    let f = declare(&mut stack, "f", &[], 1);
    let a = declare(&mut stack, "a", &["mutable"], 2);
    let b = declare(&mut stack, "b", &["borrowed"], 3);
    stack.write(f, returning(a), &at(1));
    stack.write(a, Lifetime::Pointer(b), &at(2));
    stack.write(b, Lifetime::Static, &at(3));
    let mut call = Expression::Call { loc: at(4), name: typed("f"), args: vec![] };
    let value = stack.check_expr(&mut call, Access::Value).unwrap();
    assert_eq!(value.as_pointer(), 4);
    assert_eq!(stack.pointers.len(), 5);
    assert_eq!(stack.pointers[3].name.to_text(), "function call return f at (4, 1)");
    assert_eq!(stack.pointers[3].value.as_pointer(), a);
    assert_eq!(stack.pointers[4].value.as_pointer(), 3);
    assert!(stack.pointers[3].tags.contains_key("mutable"));
    assert!(stack.pointers[4].tags.contains_key("borrowed"));
}

#[test]
fn a_level_is_passed_or_refused() {
    let ptr = |keys: &[&str]| Pointer { loc: at(80), tags: tagged(keys) };
    let mut stack = fresh();
    let x = declare(&mut stack, "x", &["mutable"], 1);
    stack.write(x, Lifetime::Static, &at(1));
    assert!(stack.check_level(&ptr(&["mutable"]), at(2), x));
    assert!(!stack.check_level(&ptr(&["unsafe"]), at(2), x));
    assert_eq!(stack.reports.len(), 0);
    assert!(!stack.check_level(&ptr(&["move"]), at(3), x));
    assert_eq!(stack.reports.len(), 0);
    assert_eq!(stack.pointers[x].value.to_text(), "moved");
    let y = declare(&mut stack, "y", &["stack"], 4);
    stack.write(y, Lifetime::Static, &at(4));
    assert!(!stack.check_level(&ptr(&["move"]), at(5), y));
    assert!(matches!(stack.reports[0], ReportOf::MovesStack { .. }));
    assert_eq!(stack.pointers[y].value.to_text(), "static");
}

#[test]
fn an_argument_is_checked_against_its_parameter() {
    let mut stack = fresh();
    let x = declare(&mut stack, "x", &[], 1);
    stack.write(x, Lifetime::Static, &at(1));
    let param = NamedArg {
        name: "p".to_string(),
        typed: Typed {
            name: Name::from("int"),
            loc: at(71),
            ptr: vec![Pointer { loc: at(71), tags: tagged(&["mutable"]) }],
        },
        tags: Tags::new(),
        loc: at(71),
    };
    let mut plain = Expression::Name(typed("x"));
    stack.check_call_arg(&param, &mut plain).unwrap();
    assert_eq!(stack.reports.len(), 0);
    let mut address = Expression::UnaryPre {
        loc: at(2),
        op: "&".to_string(),
        expr: Box::new(Expression::Name(typed("x"))),
    };
    stack.check_call_arg(&param, &mut address).unwrap();
    assert_eq!(stack.reports.len(), 1);
    assert!(matches!(stack.reports[0], ReportOf::ConstArg { .. }));
}

#[test]
fn notes_without_a_place_of_change() {
    let r: Report = ReportOf::DepthMismatch {
        callsite: at(1),
        changed_here: None,
        expected_here: at(2),
        depth: 0,
    };
    let texts: Vec<String> = r.notes().into_iter().map(|n| n.text).collect();
    assert_eq!(texts, vec!["this value has a different pointer depth", "expected this type"]);
    let r: Report = ReportOf::BadDereference { loc: at(1), changed_here: None };
    assert_eq!(r.notes().len(), 1);
    assert!(any_error(&vec![r]));
    assert!(!any_error(&vec![ReportOf::UnknownRvalue { loc: at(1) }]));
    assert!(!any_error(&vec![]));
}

fn literal() -> Expression {
    Expression::Literal { loc: at(60), v: "0".to_string() }
}

fn address_of(name: &str, line: usize) -> Expression {
    Expression::UnaryPre {
        loc: at(line),
        op: "&".to_string(),
        expr: Box::new(Expression::Name(Typed { name: Name::from(name), loc: at(line), ptr: vec![] })),
    }
}

#[test]
fn a_literal_needs_no_scope() {
    let mut stack = Stack::new();
    let param = NamedArg {
        name: "p".to_string(),
        typed: Typed {
            name: Name::from("int"),
            loc: at(71),
            ptr: vec![Pointer { loc: at(71), tags: tagged(&["mutable"]) }],
        },
        tags: Tags::new(),
        loc: at(71),
    };
    let mut callsite = literal();
    stack.check_call_arg(&param, &mut callsite).unwrap();
    assert_eq!((stack.pointers.len(), stack.stack.len(), stack.reports.len()), (0, 0, 0));
    assert!(matches!(callsite, Expression::Literal { .. }));
    let mut unknown = Expression::Name(typed("x"));
    assert_eq!(stack.check_expr(&mut unknown, Access::Value).unwrap().to_text(), "static");
    assert_eq!(stack.reports.len(), 1);
}

#[test]
fn storage_needs_a_scope() {
    let mut stack = Stack::new();
    let mut var = Statement::Var {
        loc: at(1),
        name: "x".to_string(),
        tags: Tags::new(),
        assign: None,
    };
    assert_eq!(stack.check_stm(&mut var).unwrap_err(), Ice::NoScope);
    let mut address = address_of("::ext::x", 2);
    assert_eq!(stack.check_expr(&mut address, Access::Value).unwrap_err(), Ice::NoScope);
    stack.push("block");
    stack.check_stm(&mut var).unwrap();
    assert_eq!(stack.find(&Name::from("x")), Some(0));
}

#[test]
fn wrapped_expressions_are_checked_as_their_operand() {
    let of = |wrap: usize| {
        let mut stack = fresh();
        declare(&mut stack, "x", &[], 1);
        let e = Box::new(address_of("x", 2));
        let nobody = Box::new(Expression::Name(typed("nobody")));
        let mut expr = match wrap {
            0 => *e,
            1 => Expression::Cast { loc: at(3), into: typed("int"), expr: e },
            2 => Expression::UnaryPost { loc: at(3), op: "++".to_string(), expr: e },
            3 => Expression::ArrayAccess { loc: at(3), lhs: e, rhs: nobody },
            _ => Expression::MemberAccess {
                loc: at(3),
                lhs: e,
                op: ".".to_string(),
                rhs: "a".to_string(),
            },
        };
        let value = stack.check_expr(&mut expr, Access::Value).unwrap();
        (value.to_text(), format!("{:?}", stack))
    };
    for wrap in 1..5 {
        assert_eq!(of(wrap), of(0));
    }
}

fn declared(name: &str, line: usize) -> Statement {
    Statement::Var {
        loc: at(line),
        name: name.to_string(),
        tags: Tags::new(),
        assign: Some(literal()),
    }
}

#[test]
fn statements_are_checked_one_after_the_other() {
    let run = |parts: Vec<Vec<Statement>>| {
        let mut stack = fresh();
        for statements in parts {
            stack.check_block(&mut Block { statements, end: at(50) }).unwrap();
        }
        assert!(stack.find(&Name::from("a")).is_some());
        format!("{:?}", stack)
    };
    let a = || declared("a", 1);
    let b = || Statement::Expr { loc: at(2), expr: Expression::Name(typed("a")) };
    let c = || Statement::Expr { loc: at(3), expr: Expression::Name(typed("nobody")) };
    let whole = run(vec![vec![a(), b(), c()]]);
    assert_eq!(run(vec![vec![a()], vec![b(), c()]]), whole);
    assert_eq!(run(vec![vec![], vec![a(), b()], vec![c()], vec![]]), whole);
}

#[test]
fn a_block_drops_the_last_declaration_of_each_name() {
    let mut stack = fresh();
    let outer = declare(&mut stack, "x", &[], 1);
    stack.write(outer, Lifetime::Static, &at(1));
    let mut block = Statement::Block(
        Block {
            statements: vec![declared("x", 2), declared("y", 3), declared("x", 4)],
            end: at(5),
        },
    );
    stack.check_stm(&mut block).unwrap();
    let shown: Vec<String> = stack.pointers.iter().map(|p| p.value.to_text()).collect();
    assert_eq!(shown, vec!["static", "static", "dropped", "dropped"]);
    match &stack.pointers[3].value {
        Lifetime::Dropped { stored_here, dropped_here } => {
            assert_eq!((stored_here.line, dropped_here.line), (4, 5));
        },
        _ => panic!("not dropped"),
    }
    assert_eq!(stack.find(&Name::from("x")), Some(outer));
}

#[test]
fn an_expression_changes_taints_and_nothing_else_of_storage() {
    let mut stack = fresh();
    let x = declare(&mut stack, "x", &["mutable"], 1);
    stack.write(x, Lifetime::Static, &at(1));
    stack.current_return_ptr = Some(x);
    let mut taint = Tags::new();
    taint.insert("taint".to_string(), "user".to_string(), at(91));
    let param = NamedArg {
        name: "p".to_string(),
        typed: Typed {
            name: Name::from("int"),
            loc: at(71),
            ptr: vec![Pointer { loc: at(71), tags: taint }],
        },
        tags: Tags::new(),
        loc: at(71),
    };
    let f = declare(&mut stack, "f", &[], 2);
    stack.write(f, Lifetime::Function { ret: None, args: vec![param], vararg: false }, &at(2));
    let mut call = Expression::Call {
        loc: at(3),
        name: typed("f"),
        args: vec![address_of("x", 3)],
    };
    stack.check_expr(&mut call, Access::Value).unwrap();
    assert_eq!(stack.reports.len(), 0);
    assert_eq!(stack.pointers[x].changed_here, Some(at(1)));
    assert_eq!(stack.pointers[x].value.to_text(), "static");
    assert!(stack.pointers[x].tags.contains_value("tainted", "user"));
    assert!(stack.pointers[x].tags.contains_key("mutable"));
    assert_eq!(stack.current_return_ptr, Some(x));
    assert_eq!(stack.find(&Name::from("x")), Some(x));
}

#[test]
fn any_value_can_be_stored() {
    let mut stack = fresh();
    let x = declare(&mut stack, "x", &[], 1);
    let stored = stack.write(x, Lifetime::Pointer(7), &at(2));
    assert_eq!(stored.to_text(), "ptr->7");
    assert_eq!(stack.pointers[x].value.to_text(), "ptr->7");
    assert_eq!(stack.pointers[x].changed_here, Some(at(2)));
}
