//! Whole modules through the checker: for each report a program that leads to it.

use zz::ast::{
    Block, CName, D, Def, Expression, Labeled, Local, Module, NamedArg, Pointer, Statement, Typed,
};
use zz::lifetimes::{Broken, Checked, Ice, check};
use zz::location::Location;
use zz::name::Name;
use zz::report::{Report, ReportOf};
use zz::tags::Tags;

fn at(line: usize) -> Location {
    Location { file: 0, start: line * 10, end: line * 10 + 5, line, col: 3 }
}

fn tags(list: &[(&str, &str)]) -> Tags {
    let mut tags = Tags::new();
    for (key, value) in list {
        tags.insert(key.to_string(), value.to_string(), at(900));
    }
    tags
}

fn typed(name: &str, line: usize, ptr: &[&[(&str, &str)]]) -> Typed {
    Typed {
        name: Name::from(name),
        loc: at(line),
        ptr: ptr.iter().map(|p| Pointer { loc: at(line), tags: tags(p) }).collect(),
    }
}

fn name(n: &str, line: usize) -> Expression {
    Expression::Name(typed(n, line, &[]))
}

fn literal(v: &str, line: usize) -> Expression {
    Expression::Literal { loc: at(line), v: v.to_string() }
}

fn pre(op: &str, expr: Expression) -> Expression {
    Expression::UnaryPre { loc: expr.loc(), op: op.to_string(), expr: Box::new(expr) }
}

fn infix(lhs: Expression, op: &str, rhs: Expression) -> Expression {
    Expression::InfixOperation {
        loc: lhs.loc(),
        lhs: Box::new(lhs),
        rhs: vec![Labeled { label: op.to_string(), expr: rhs }],
    }
}

fn call(n: &str, args: Vec<Expression>, line: usize) -> Expression {
    Expression::Call { loc: at(line), name: typed(n, line, &[]), args }
}

fn expr(expr: Expression) -> Statement {
    Statement::Expr { loc: expr.loc(), expr }
}

fn var(n: &str, t: &[(&str, &str)], assign: Option<Expression>, line: usize) -> Statement {
    Statement::Var { loc: at(line), name: n.to_string(), tags: tags(t), assign }
}

fn assign(lhs: Expression, rhs: Expression) -> Statement {
    Statement::Assign { loc: lhs.loc(), lhs, rhs }
}

fn mark(lhs: Expression, key: &str, value: &str) -> Statement {
    Statement::Mark { loc: lhs.loc(), lhs, key: key.to_string(), value: value.to_string() }
}

fn block(statements: Vec<Statement>, end: usize) -> Block {
    Block { statements, end: at(end) }
}

fn arg(n: &str, t: &[(&str, &str)], ptr: &[&[(&str, &str)]], line: usize) -> NamedArg {
    NamedArg { name: n.to_string(), typed: typed("int", line, ptr), tags: tags(t), loc: at(line) }
}

fn local(n: &str, line: usize, def: Def) -> D {
    D::Local(Local { name: n.to_string(), loc: at(line), def })
}

fn returning(
    n: &str,
    ret: Option<Typed>,
    args: Vec<NamedArg>,
    statements: Vec<Statement>,
    line: usize,
) -> D {
    let body = block(statements, line + 99);
    local(n, line, Def::Function { ret, args, vararg: false, body })
}

fn function(n: &str, args: Vec<NamedArg>, statements: Vec<Statement>, line: usize) -> D {
    returning(n, None, args, statements, line)
}

/// A function `main` with those statements, behind those definitions.
fn main_behind(mut d: Vec<D>, statements: Vec<Statement>) -> Module {
    d.push(function("main", vec![], statements, 1));
    module(d)
}

fn module(d: Vec<D>) -> Module {
    Module { name: Name::from("::test"), c_names: vec![], d }
}

fn checked(mut md: Module) -> Checked {
    checked_in_place(&mut md).unwrap()
}

fn checked_in_place(md: &mut Module) -> Result<Checked, Broken> {
    check(md, &mut false)
}

/// What is reported of a module: each headline with the lines that its notes are on.
fn found(md: Module) -> Vec<(String, Vec<usize>)> {
    checked(md).reports.iter().map(shown).collect()
}

fn shown(r: &Report) -> (String, Vec<usize>) {
    (r.headline(), r.notes().iter().map(|n| n.loc.line).collect())
}

fn expected(list: &[(&str, &[usize])]) -> Vec<(String, Vec<usize>)> {
    list.iter().map(|(h, lines)| (h.to_string(), lines.to_vec())).collect()
}

/// `takes`, a function of one parameter with those pointers.
fn takes(ptr: &[&[(&str, &str)]]) -> D {
    function("takes", vec![arg("p", &[], ptr, 501)], vec![], 500)
}

#[test]
fn a_module_without_items_has_nothing_to_report() {
    let out = checked(module(vec![]));
    assert_eq!(out.reports.len(), 0);
    assert!(!out.abort);
}

#[test]
fn a_clean_program_has_nothing_to_report() {
    let md = main_behind(
        vec![
            D::Include("stdio.h".to_string()),
            local("LIMIT", 300, Def::Macro),
            local("count", 310, Def::Static { typed: typed("int", 310, &[]), tags: tags(&[]) }),
            local("shape", 320, Def::Other),
            takes(&[&[]]),
        ],
        vec![
            var("x", &[("mutable", "")], Some(literal("1", 11)), 10),
            assign(name("x", 12), infix(name("LIMIT", 13), "+", name("count", 14))),
            expr(call("takes", vec![pre("&", name("x", 16))], 15)),
            Statement::Return { loc: at(17), expr: Some(name("x", 17)) },
        ],
    );
    let out = checked(md);
    assert_eq!(out.reports.len(), 0);
    assert!(!out.abort);
}

#[test]
fn names_of_c_are_known() {
    let mut md = main_behind(
        vec![],
        vec![
            expr(call("printf", vec![literal("a", 11)], 10)),
            expr(call("::ext::stdio::puts", vec![name("nobody_looks", 13)], 12)),
            expr(name("::ext::stdio::stdout", 14)),
        ],
    );
    md.c_names.push(CName { name: Name::from("printf"), loc: at(400) });
    assert_eq!(found(md), expected(&[]));
}

#[test]
fn undefined_name() {
    let md = main_behind(vec![], vec![expr(name("a::x", 10))]);
    let out = checked(md);
    assert!(out.abort);
    assert_eq!(shown(&out.reports[0]), ("undefined name 'a::x' ".to_string(), vec![10]));
    assert_eq!(out.reports[0].notes()[0].text, "'a::x' is not defined in this scope");
    assert_eq!(out.reports.len(), 1);
}

#[test]
fn names_do_not_escape_from_blocks() {
    let inner = || vec![var("x", &[], Some(literal("1", 11)), 11)];
    let md = main_behind(
        vec![],
        vec![
            Statement::Block(block(inner(), 12)),
            expr(name("x", 13)),
            Statement::Cond { expr: Some(literal("1", 14)), body: block(inner(), 15) },
            expr(name("x", 16)),
            Statement::For {
                e1: Some(Box::new(var("i", &[], Some(literal("0", 17)), 17))),
                e2: Some(Box::new(expr(name("i", 18)))),
                e3: Some(Box::new(expr(name("i", 19)))),
                body: block(inner(), 20),
            },
            expr(name("x", 21)),
            expr(name("i", 22)),
        ],
    );
    assert_eq!(
        found(md),
        expected(
            &[
                ("undefined name 'x' ", &[13]),
                ("undefined name 'x' ", &[16]),
                ("undefined name 'x' ", &[21]),
                ("undefined name 'i' ", &[22]),
            ],
        )
    );
}

/// `p` points to something of a block that has ended.
fn dangling() -> Vec<Statement> {
    vec![
        var("p", &[("mutable", "")], None, 10),
        Statement::Block(
            block(
                vec![
                    var("x", &[], Some(literal("1", 12)), 12),
                    assign(name("p", 13), pre("&", name("x", 14))),
                ],
                15,
            ),
        ),
    ]
}

#[test]
fn dropped_read() {
    let mut statements = dangling();
    statements.push(expr(pre("*", name("p", 20))));
    assert_eq!(
        found(main_behind(vec![], statements)),
        expected(
            &[
                (
                    "illegal read access to dropped value temporary access at (14, 3)",
                    &[20, 14, 15],
                ),
            ],
        )
    );
}

#[test]
fn a_pointer_can_be_read_while_its_block_lasts() {
    let md = main_behind(
        vec![],
        vec![
            var("x", &[], Some(literal("1", 10)), 10),
            var("p", &[], Some(pre("&", name("x", 11))), 11),
            expr(pre("*", pre("*", name("p", 12)))),
        ],
    );
    assert_eq!(found(md), expected(&[]));
}

#[test]
fn unsafe_read() {
    let md = main_behind(
        vec![],
        vec![
            var("x", &[("unsafe", "")], Some(literal("1", 10)), 10),
            expr(name("x", 11)),
            mark(name("x", 12), "safe", ""),
            expr(name("x", 13)),
        ],
    );
    assert_eq!(
        found(md),
        expected(&[("illegal read access to unsafe storage x", &[11, 10])])
    );
}

#[test]
fn uninitialized_read() {
    let md = main_behind(vec![], vec![var("x", &[], None, 10), expr(name("x", 11))]);
    assert_eq!(
        found(md),
        expected(&[("illegal read access to unitialized variable x", &[11])])
    );
}

#[test]
fn moved_read() {
    let md = module(
        vec![
            takes(&[&[("move", "")]]),
            function(
                "main",
                vec![arg("a", &[], &[&[("move", "")]], 2)],
                vec![
                    expr(call("takes", vec![name("a", 10)], 10)),
                    expr(pre("*", name("a", 11))),
                ],
                1,
            ),
        ],
    );
    assert_eq!(
        found(md),
        expected(
            &[
                (
                    "illegal read access of moved value __builtin::pointer_to_callsite::5",
                    &[11, 10],
                ),
            ],
        )
    );
}

#[test]
fn uninitialized_arg() {
    let md = main_behind(
        vec![takes(&[&[]])],
        vec![var("x", &[], None, 10), expr(call("takes", vec![name("x", 12)], 11))],
    );
    assert_eq!(
        found(md),
        expected(
            &[
                ("illegal read access to unitialized variable x", &[12]),
                ("uninitialized pointer arg passed as safe pointer", &[12, 10]),
            ],
        )
    );
}

#[test]
fn dropped_arg() {
    let mut statements = dangling();
    statements.push(expr(call("takes", vec![name("p", 20)], 20)));
    assert_eq!(
        found(main_behind(vec![takes(&[&[], &[]])], statements)),
        expected(
            &[
                (
                    "passing dropped value as safe pointer temporary access at (14, 3)",
                    &[20, 14, 15],
                ),
            ],
        )
    );
}

#[test]
fn moved_arg() {
    let md = module(
        vec![
            takes(&[&[("move", "")]]),
            function("reads", vec![arg("p", &[], &[&[], &[]], 601)], vec![], 600),
            function(
                "main",
                vec![arg("a", &[], &[&[("move", "")]], 2)],
                vec![
                    expr(call("takes", vec![name("a", 10)], 10)),
                    expr(call("reads", vec![name("a", 11)], 11)),
                ],
                1,
            ),
        ],
    );
    let out = found(md);
    assert_eq!(out.len(), 1);
    assert!(out[0].0.starts_with("passing moved value '__builtin::pointer_to_callsite::"));
    assert!(out[0].0.ends_with("' as safe pointer "));
    assert_eq!(out[0].1, vec![11, 10]);
}

#[test]
fn function_arg() {
    let md = main_behind(
        vec![takes(&[&[]]), function("other", vec![], vec![], 700)],
        vec![expr(call("takes", vec![name("other", 10)], 10))],
    );
    assert_eq!(found(md), expected(&[("ICE: trying to pass function as pointer", &[10])]));
}

#[test]
fn depth_mismatch() {
    let md = main_behind(
        vec![takes(&[&[], &[]])],
        vec![
            var("x", &[], Some(literal("1", 10)), 10),
            expr(call("takes", vec![pre("&", name("x", 12))], 11)),
        ],
    );
    let out = checked(md);
    assert_eq!(out.reports.len(), 1);
    assert_eq!(shown(&out.reports[0]), ("incompatible argument".to_string(), vec![12, 10, 501]));
    assert_eq!(out.reports[0].notes()[2].text, "expected at depth 1 here");
}

#[test]
fn const_arg() {
    let passing = |t: &[(&str, &str)]| {
        main_behind(
            vec![takes(&[&[("mutable", "")]])],
            vec![
                var("x", t, Some(literal("1", 10)), 10),
                expr(call("takes", vec![pre("&", name("x", 12))], 11)),
            ],
        )
    };
    assert_eq!(
        found(passing(&[])),
        expected(
            &[("const pointer cannot be used as mut pointer in function call", &[12, 10])],
        )
    );
    assert_eq!(found(passing(&[("mutable", "")])), expected(&[]));
}

#[test]
fn tainted_arg_until_untainted() {
    let md = main_behind(
        vec![
            takes(&[&[("taint", "user")]]),
            function("reads", vec![arg("p", &[], &[&[]], 601)], vec![], 600),
            function("cleans", vec![arg("p", &[], &[&[("untaint", "user")]], 701)], vec![], 700),
        ],
        vec![
            var("x", &[], Some(literal("1", 10)), 10),
            expr(call("takes", vec![pre("&", name("x", 11))], 11)),
            expr(call("reads", vec![pre("&", name("x", 12))], 12)),
            expr(call("cleans", vec![pre("&", name("x", 13))], 13)),
            expr(call("reads", vec![pre("&", name("x", 14))], 14)),
            expr(call("takes", vec![pre("&", name("x", 15))], 15)),
            mark(name("x", 16), "pure", ""),
            expr(call("reads", vec![pre("&", name("x", 17))], 17)),
        ],
    );
    let out = checked(md);
    assert_eq!(out.reports.len(), 1);
    assert_eq!(shown(&out.reports[0]), ("cannot use tainted local 'x'".to_string(), vec![12]));
    assert_eq!(out.reports[0].notes()[0].text, "'x' is tainted");
}

#[test]
fn taints_borrowed_unless_declared() {
    let passing = |ptr: &[(&str, &str)]| {
        module(
            vec![
                takes(&[&[("taint", "user")]]),
                function(
                    "main",
                    vec![arg("a", &[], &[ptr], 2)],
                    vec![expr(call("takes", vec![name("a", 10)], 10))],
                    1,
                ),
            ],
        )
    };
    let out = checked(passing(&[]));
    assert_eq!(out.reports.len(), 1);
    assert_eq!(
        shown(&out.reports[0]),
        ("call would taint borrowed callsite".to_string(), vec![10, 2])
    );
    assert_eq!(out.reports[0].notes()[1].text, "try adding a taint<user> tag here");
    assert_eq!(found(passing(&[("taint", "user")])), expected(&[]));
    assert_eq!(
        found(passing(&[("taint", "other")])),
        expected(&[("call would taint borrowed callsite", &[10, 2])])
    );
}

#[test]
fn moves_stack() {
    let md = main_behind(
        vec![takes(&[&[("move", "")]])],
        vec![
            var("x", &[], Some(literal("1", 10)), 10),
            expr(call("takes", vec![pre("&", name("x", 12))], 11)),
            expr(name("x", 13)),
        ],
    );
    let out = checked(md);
    assert_eq!(out.reports.len(), 1);
    assert_eq!(shown(&out.reports[0]), ("cannot move stack".to_string(), vec![12]));
    assert_eq!(
        out.reports[0].notes()[0].text,
        "this expression would move 'x' out of scope, which is on the stack"
    );
}

#[test]
fn moves_borrowed() {
    let md = module(
        vec![
            takes(&[&[("move", "")]]),
            function(
                "main",
                vec![arg("a", &[], &[&[]], 2)],
                vec![
                    expr(call("takes", vec![name("a", 10)], 10)),
                    expr(pre("*", name("a", 11))),
                ],
                1,
            ),
        ],
    );
    assert_eq!(found(md), expected(&[("cannot move borrowed pointer", &[10, 900, 2])]));
}

#[test]
fn unsafe_arg() {
    let passing = |ptr: &[(&str, &str)]| {
        main_behind(
            vec![takes(&[ptr])],
            vec![
                var("x", &[("unsafe", "")], Some(literal("1", 10)), 10),
                expr(call("takes", vec![pre("&", name("x", 12))], 11)),
            ],
        )
    };
    assert_eq!(
        found(passing(&[])),
        expected(&[("passing unsafe pointer to safe function call", &[12, 10])])
    );
    assert_eq!(found(passing(&[("unsafe", "")])), expected(&[]));
}

#[test]
fn literal_storage_and_invalid_lvalue() {
    let md = main_behind(vec![], vec![assign(literal("1", 10), literal("2", 11))]);
    assert_eq!(
        found(md),
        expected(
            &[
                ("lvalue expression is not a storage location", &[10]),
                ("lvalue has invalid lifetime", &[10]),
            ],
        )
    );
}

#[test]
fn infix_storage() {
    let lhs = infix(literal("1", 10), "+", literal("2", 10));
    assert_eq!(
        found(main_behind(vec![], vec![assign(lhs, literal("3", 11))])),
        expected(
            &[
                ("value expression is not a storage location", &[10]),
                ("lvalue has invalid lifetime", &[10]),
            ],
        )
    );
}

#[test]
fn argument_count() {
    let calling = |vararg: bool, n: usize| {
        let f = Def::Function {
            ret: None,
            args: vec![arg("a", &[], &[], 801), arg("b", &[], &[], 802)],
            vararg,
            body: block(vec![], 899),
        };
        let args = (0..n).map(|_| literal("1", 11)).collect();
        main_behind(vec![local("f", 800, f)], vec![expr(call("f", args, 10))])
    };
    let out = checked(calling(false, 1));
    assert!(out.abort);
    assert_eq!(shown(&out.reports[0]), ("call argument count mismatch".to_string(), vec![10]));
    assert_eq!(
        out.reports[0].notes()[0].text,
        "this function expects 2 arguments, but you passed 1"
    );
    assert_eq!(found(calling(false, 2)), expected(&[]));
    assert_eq!(found(calling(false, 3)), expected(&[("call argument count mismatch", &[10])]));
    assert_eq!(found(calling(true, 1)), expected(&[("call argument count mismatch", &[10])]));
    assert_eq!(found(calling(true, 3)), expected(&[]));
}

#[test]
fn not_a_function_is_a_warning() {
    let md = main_behind(
        vec![],
        vec![
            var("x", &[], Some(literal("1", 10)), 10),
            var("p", &[], Some(pre("&", name("x", 11))), 11),
            expr(call("p", vec![], 12)),
            expr(call("x", vec![], 13)),
        ],
    );
    let out = checked(md);
    assert_eq!(out.reports.len(), 1);
    assert_eq!(shown(&out.reports[0]), ("lvalue is not a valid function".to_string(), vec![12]));
    assert!(!out.reports[0].is_error());
    assert!(!out.abort);
}

#[test]
fn bad_dereference() {
    let md = main_behind(
        vec![],
        vec![
            var("x", &[], Some(literal("1", 10)), 10),
            expr(pre("*", name("x", 11))),
        ],
    );
    assert_eq!(
        found(md),
        expected(&[("dereferencing something that is not a pointer", &[11, 10])])
    );
}

#[test]
fn mark_target_and_other_marks() {
    let md = main_behind(
        vec![],
        vec![
            mark(name("::ext::x", 10), "safe", ""),
            var("x", &[], Some(literal("1", 11)), 11),
            mark(name("x", 12), "mutable", ""),
            assign(name("x", 13), literal("2", 13)),
            mark(name("x", 14), "unsafe", ""),
            expr(name("x", 15)),
        ],
    );
    assert_eq!(
        found(md),
        expected(
            &[
                ("lvalue is not a storage location", &[10]),
                ("illegal read access to unsafe storage x", &[15, 11]),
            ],
        )
    );
}

#[test]
fn values_of_unknown_lifetime_are_warnings() {
    let md = main_behind(
        vec![],
        vec![
            var("x", &[("mutable", "")], Some(pre("!", literal("1", 11))), 10),
            assign(name("x", 12), pre("-", literal("1", 13))),
        ],
    );
    let out = checked(md);
    assert!(!out.abort);
    let list: Vec<(String, Vec<usize>)> = out.reports.iter().map(shown).collect();
    assert_eq!(
        list,
        expected(
            &[("rvalue has unknown lifetime", &[11]), ("rvalue has invalid lifetime", &[13])],
        )
    );
}

#[test]
fn immutable_assign_still_assigns() {
    let md = main_behind(
        vec![],
        vec![
            var("x", &[], None, 10),
            assign(name("x", 11), literal("1", 12)),
            expr(name("x", 13)),
        ],
    );
    assert_eq!(found(md), expected(&[("cannot assign to immutable storage", &[11, 10])]));
}

#[test]
fn invalid_lvalue() {
    let md = main_behind(vec![], vec![assign(name("::ext::x", 10), literal("1", 11))]);
    assert_eq!(found(md), expected(&[("lvalue has invalid lifetime", &[10])]));
}

#[test]
fn a_function_is_unknown_in_its_own_body() {
    let md = module(
        vec![
            function("f", vec![], vec![expr(call("f", vec![], 10))], 1),
            function("g", vec![], vec![expr(call("f", vec![], 20))], 2),
        ],
    );
    assert_eq!(
        found(md),
        expected(
            &[
                ("illegal read access to unitialized variable f", &[10]),
                ("lvalue is not a valid function", &[10]),
            ],
        )
    );
}

#[test]
fn a_call_returns_pointers_to_new_storage() {
    let ret = typed("int", 601, &[&[], &[("mutable", "")]]);
    let md = main_behind(
        vec![returning("gives", Some(ret), vec![], vec![], 600)],
        vec![
            var("p", &[], Some(call("gives", vec![], 10)), 10),
            expr(pre("*", name("p", 11))),
            assign(pre("*", name("p", 12)), literal("1", 12)),
        ],
    );
    assert_eq!(
        found(md),
        expected(&[("cannot assign to immutable storage", &[12, 10])])
    );
}

#[test]
fn initializers() {
    let field = |e: Expression| Labeled { label: "a".to_string(), expr: e };
    let md = main_behind(
        vec![],
        vec![
            var(
                "s",
                &[],
                Some(
                    Expression::StructInit {
                        loc: at(10),
                        typed: typed("S", 10, &[]),
                        fields: vec![field(literal("1", 10)), field(literal("2", 10))],
                    },
                ),
                10,
            ),
            var(
                "t",
                &[],
                Some(
                    Expression::StructInit {
                        loc: at(11),
                        typed: typed("S", 11, &[]),
                        fields: vec![field(pre("&", name("s", 11)))],
                    },
                ),
                11,
            ),
            var(
                "u",
                &[],
                Some(Expression::ArrayInit { loc: at(12), fields: vec![literal("1", 12)] }),
                12,
            ),
            var(
                "v",
                &[],
                Some(
                    Expression::ArrayInit {
                        loc: at(13),
                        fields: vec![literal("1", 13), pre("&", name("s", 13))],
                    },
                ),
                13,
            ),
        ],
    );
    assert_eq!(
        found(md),
        expected(
            &[("rvalue has unknown lifetime", &[11]), ("rvalue has unknown lifetime", &[13])],
        )
    );
}

#[test]
fn members_elements_and_casts_are_those_of_their_operand() {
    let of = |e: Expression| Box::new(e);
    let md = main_behind(
        vec![],
        vec![
            var("s", &[], None, 10),
            assign(
                Expression::MemberAccess {
                    loc: at(11),
                    lhs: of(name("s", 11)),
                    op: ".".to_string(),
                    rhs: "a".to_string(),
                },
                literal("1", 11),
            ),
            expr(
                Expression::ArrayAccess {
                    loc: at(12),
                    lhs: of(name("s", 12)),
                    rhs: of(name("nobody_looks", 12)),
                },
            ),
            expr(
                Expression::Cast {
                    loc: at(13),
                    into: typed("int", 13, &[]),
                    expr: of(
                        Expression::UnaryPost {
                            loc: at(13),
                            op: "++".to_string(),
                            expr: of(name("y", 13)),
                        },
                    ),
                },
            ),
            mark(
                Expression::MemberAccess {
                    loc: at(14),
                    lhs: of(name("s", 15)),
                    op: "->".to_string(),
                    rhs: "a".to_string(),
                },
                "safe",
                "",
            ),
        ],
    );
    assert_eq!(
        found(md),
        expected(
            &[
                ("cannot assign to immutable storage", &[11, 10]),
                ("undefined name 'y' ", &[13]),
                ("lvalue is not a storage location", &[14]),
            ],
        )
    );
}

fn with_generated() -> Module {
    let params = vec![
        arg("a", &[], &[], 801),
        arg("file", &[("callsite_macro", "__FILE__")], &[], 802),
        arg("b", &[], &[], 803),
    ];
    main_behind(
        vec![function("log", params, vec![], 800)],
        vec![expr(call("log", vec![literal("1", 11), literal("2", 12)], 10))],
    )
}

fn statements_of(md: &Module) -> &Vec<Statement> {
    match &md.d[md.d.len() - 1] {
        D::Local(l) => match &l.def {
            Def::Function { body, .. } => &body.statements,
            _ => panic!("not a function"),
        },
        _ => panic!("not a definition"),
    }
}

#[test]
fn generated_arguments_are_filled_in() {
    let mut md = with_generated();
    let out = checked_in_place(&mut md).unwrap();
    assert_eq!(out.reports.len(), 0);
    match &statements_of(&md)[0] {
        Statement::Expr { expr: Expression::Call { args, .. }, .. } => {
            let texts: Vec<(&str, usize)> = args
                .iter()
                .map(|a| match a {
                    Expression::Literal { loc, v } => (v.as_str(), loc.line),
                    _ => panic!("not a literal"),
                })
                .collect();
            assert_eq!(texts, vec![("1", 11), ("__FILE__", 900), ("2", 12)]);
        },
        _ => panic!("not a call"),
    }
}

#[test]
fn a_program_without_generated_arguments_stays_as_it_is() {
    let program = || {
        main_behind(
            vec![takes(&[&[]])],
            vec![
                var("x", &[], Some(literal("1", 10)), 10),
                expr(call("takes", vec![pre("&", name("x", 12))], 11)),
                Statement::Block(block(vec![expr(name("x", 13))], 14)),
            ],
        )
    };
    let mut md = program();
    checked_in_place(&mut md).unwrap();
    assert_eq!(format!("{:?}", md), format!("{:?}", program()));
    let mut completed = with_generated();
    checked_in_place(&mut completed).unwrap();
    assert_ne!(format!("{:?}", completed), format!("{:?}", with_generated()));
}

#[test]
fn an_argument_without_an_address_breaks_off() {
    let mut md = main_behind(
        vec![takes(&[&[]])],
        vec![expr(call("takes", vec![pre("!", literal("1", 10))], 10))],
    );
    assert_eq!(checked_in_place(&mut md).unwrap_err().ice, Ice::NotAPointer);
    let mut md = main_behind(
        vec![],
        vec![expr(pre("*", literal("1", 10)))],
    );
    assert_eq!(checked_in_place(&mut md).unwrap_err().ice, Ice::NotAPointer);
}

#[test]
fn errors_and_warnings_are_told_apart() {
    let mut md = main_behind(
        vec![],
        vec![
            var("x", &[], Some(pre("!", literal("1", 11))), 10),
            expr(name("nobody", 12)),
            var("y", &[], Some(pre("!", literal("1", 14))), 13),
        ],
    );
    let out = checked_in_place(&mut md).unwrap();
    let errors: Vec<bool> = out.reports.iter().map(|r| r.is_error()).collect();
    assert_eq!(errors, vec![false, true, false]);
    assert!(out.abort);
    assert!(matches!(out.reports[1], ReportOf::UndefinedName { .. }));
}

#[test]
fn what_was_found_before_breaking_off_is_kept() {
    let mut md = main_behind(
        vec![takes(&[&[]])],
        vec![
            expr(name("nobody", 9)),
            expr(call("takes", vec![pre("!", literal("1", 10))], 10)),
            expr(name("nobody", 11)),
        ],
    );
    let mut abort = false;
    let broken = check(&mut md, &mut abort).unwrap_err();
    assert_eq!(broken.ice, Ice::NotAPointer);
    let list: Vec<(String, Vec<usize>)> = broken.reports.iter().map(shown).collect();
    assert_eq!(list, expected(&[("undefined name 'nobody' ", &[9])]));
    assert!(abort);
}

#[test]
fn an_error_in_one_module_aborts_those_behind_it() {
    let mut abort = false;
    let mut clean = main_behind(vec![], vec![expr(literal("1", 10))]);
    assert!(!check(&mut clean, &mut abort).unwrap().abort);
    assert!(!abort);
    let mut wrong = main_behind(vec![], vec![expr(name("nobody", 10))]);
    assert!(check(&mut wrong, &mut abort).unwrap().abort);
    assert!(abort);
    let out = check(&mut clean, &mut abort).unwrap();
    assert_eq!(out.reports.len(), 0);
    assert!(out.abort);
    assert!(abort);
}

#[test]
fn items_behind_an_error_are_still_checked() {
    let md = module(
        vec![
            function("f", vec![], vec![expr(name("nobody", 10))], 1),
            function("g", vec![], vec![expr(literal("1", 20))], 2),
            function("h", vec![], vec![expr(name("nobody", 30))], 3),
        ],
    );
    assert_eq!(
        found(md),
        expected(&[("undefined name 'nobody' ", &[10]), ("undefined name 'nobody' ", &[30])])
    );
}

#[test]
fn blocks_conditions_and_loops_have_the_same_effect() {
    let body = || {
        block(
            vec![
                assign(name("p", 12), pre("&", name("x", 13))),
                var("y", &[], Some(literal("1", 14)), 14),
            ],
            15,
        )
    };
    let program = |stm: Statement| {
        main_behind(
            vec![],
            vec![
                var("x", &[], Some(literal("1", 10)), 10),
                var("p", &[("mutable", "")], None, 11),
                stm,
                expr(pre("*", name("p", 20))),
                expr(name("y", 21)),
            ],
        )
    };
    let list = found(program(Statement::Block(body())));
    assert_eq!(list.len(), 2);
    assert_eq!(found(program(Statement::Cond { expr: None, body: body() })), list);
    assert_eq!(
        found(program(Statement::For { e1: None, e2: None, e3: None, body: body() })),
        list
    );
}

#[test]
fn generated_arguments_are_added_between_those_that_are_there() {
    let params = || {
        vec![
            arg("file", &[("callsite_macro", "__FILE__")], &[], 801),
            arg("a", &[], &[], 802),
            arg("line", &[("callsite_macro", "__LINE__")], &[], 803),
        ]
    };
    let inner = call("log", vec![literal("1", 12)], 11);
    let mut md = main_behind(
        vec![function("log", params(), vec![], 800)],
        vec![
            expr(call("log", vec![inner], 10)),
            expr(call("::ext::printf", vec![literal("2", 13)], 13)),
        ],
    );
    checked_in_place(&mut md).unwrap();
    let args = |e: &Expression| match e {
        Expression::Call { args, .. } => args
            .iter()
            .map(|a| match a {
                Expression::Literal { v, .. } => v.clone(),
                _ => "call".to_string(),
            })
            .collect::<Vec<String>>(),
        _ => panic!("not a call"),
    };
    match (&statements_of(&md)[0], &statements_of(&md)[1]) {
        (Statement::Expr { expr: outer, .. }, Statement::Expr { expr: ext, .. }) => {
            assert_eq!(args(outer), vec!["__FILE__", "call", "__LINE__"]);
            assert_eq!(args(ext), vec!["2"]);
            match outer {
                Expression::Call { args: list, .. } => {
                    assert_eq!(args(&list[1]), vec!["__FILE__", "1", "__LINE__"]);
                },
                _ => panic!("not a call"),
            }
        },
        _ => panic!("not expressions"),
    }
}
