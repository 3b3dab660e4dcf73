//! The syntax tree of a module, as far as lifetime checking reads it.

use vstd::prelude::*;
use crate::location::Location;
use crate::name::{Name, NameView};
use crate::tags::{Tags, TagsView};
use crate::text::Text;

verus! {

/// One `*` of a pointer type, with its tags.
#[derive(Debug)]
pub struct Pointer {
    pub loc: Location,
    pub tags: Tags,
}

/// What a [`Pointer`] holds.
pub struct PointerView {
    pub loc: Location,
    pub tags: TagsView,
}

impl View for Pointer {
    type V = PointerView;

    open spec fn view(&self) -> PointerView {
        PointerView { loc: self.loc, tags: self.tags@ }
    }
}

impl Clone for Pointer {
    fn clone(&self) -> (copy: Pointer)
        ensures
            copy@ == self@,
    {
        Pointer { loc: self.loc, tags: self.tags.clone() }
    }
}

/// A named type with its pointers, left to right. A plain name has no pointers.
#[derive(Debug)]
pub struct Typed {
    pub name: Name,
    pub loc: Location,
    pub ptr: Vec<Pointer>,
}

/// What a [`Typed`] holds.
pub struct TypedView {
    pub name: NameView,
    pub loc: Location,
    pub ptr: Seq<PointerView>,
}

/// What each pointer of a sequence holds.
pub open spec fn pointer_views(ps: Seq<Pointer>) -> Seq<PointerView> {
    Seq::new(ps.len(), |i: int| ps[i]@)
}

impl View for Typed {
    type V = TypedView;

    open spec fn view(&self) -> TypedView {
        TypedView { name: self.name@, loc: self.loc, ptr: pointer_views(self.ptr@) }
    }
}

impl Clone for Typed {
    fn clone(&self) -> (copy: Typed)
        ensures
            copy@ == self@,
    {
        let copy = Typed { name: self.name.clone(), loc: self.loc, ptr: self.ptr.clone() };
        assert(copy@.ptr =~= self@.ptr);
        copy
    }
}

/// A parameter of a function.
#[derive(Debug)]
pub struct NamedArg {
    pub name: String,
    pub typed: Typed,
    pub tags: Tags,
    pub loc: Location,
}

/// What a [`NamedArg`] holds.
pub struct NamedArgView {
    pub name: Text,
    pub typed: TypedView,
    pub tags: TagsView,
    pub loc: Location,
}

/// What each parameter of a sequence holds.
pub open spec fn arg_views(args: Seq<NamedArg>) -> Seq<NamedArgView> {
    Seq::new(args.len(), |i: int| args[i]@)
}

impl View for NamedArg {
    type V = NamedArgView;

    open spec fn view(&self) -> NamedArgView {
        NamedArgView { name: self.name@, typed: self.typed@, tags: self.tags@, loc: self.loc }
    }
}

impl Clone for NamedArg {
    fn clone(&self) -> (copy: NamedArg)
        ensures
            copy@ == self@,
    {
        NamedArg {
            name: self.name.clone(),
            typed: self.typed.clone(),
            tags: self.tags.clone(),
            loc: self.loc,
        }
    }
}

/// An expression with the operator or the field name that stands before it.
#[derive(Debug)]
pub struct Labeled {
    pub label: String,
    pub expr: Expression,
}

/// An expression.
#[derive(Debug)]
pub enum Expression {
    Name(Typed),
    MemberAccess { loc: Location, lhs: Box<Expression>, op: String, rhs: String },
    ArrayAccess { loc: Location, lhs: Box<Expression>, rhs: Box<Expression> },
    Literal { loc: Location, v: String },
    Call { loc: Location, name: Typed, args: Vec<Expression> },
    InfixOperation { loc: Location, lhs: Box<Expression>, rhs: Vec<Labeled> },
    Cast { loc: Location, into: Typed, expr: Box<Expression> },
    UnaryPost { loc: Location, op: String, expr: Box<Expression> },
    UnaryPre { loc: Location, op: String, expr: Box<Expression> },
    StructInit { loc: Location, typed: Typed, fields: Vec<Labeled> },
    ArrayInit { loc: Location, fields: Vec<Expression> },
}

/// What a [`Labeled`] holds.
pub struct LabeledView {
    pub label: Text,
    pub expr: ExprView,
}

/// What an [`Expression`] holds.
pub enum ExprView {
    Name(TypedView),
    MemberAccess { loc: Location, lhs: Box<ExprView>, op: Text, rhs: Text },
    ArrayAccess { loc: Location, lhs: Box<ExprView>, rhs: Box<ExprView> },
    Literal { loc: Location, v: Text },
    Call { loc: Location, name: TypedView, args: Seq<ExprView> },
    InfixOperation { loc: Location, lhs: Box<ExprView>, rhs: Seq<LabeledView> },
    Cast { loc: Location, into: TypedView, expr: Box<ExprView> },
    UnaryPost { loc: Location, op: Text, expr: Box<ExprView> },
    UnaryPre { loc: Location, op: Text, expr: Box<ExprView> },
    StructInit { loc: Location, typed: TypedView, fields: Seq<LabeledView> },
    ArrayInit { loc: Location, fields: Seq<ExprView> },
}

impl Labeled {
    /// What the labeled expression holds.
    pub open spec fn view(&self) -> LabeledView
        decreases self,
    {
        LabeledView { label: self.label@, expr: self.expr.view() }
    }
}

impl Expression {
    /// What the expression holds.
    pub open spec fn view(&self) -> ExprView
        decreases self,
    {
        match *self {
            Expression::Name(name) => ExprView::Name(name@),
            Expression::MemberAccess { loc, lhs, op, rhs } => ExprView::MemberAccess {
                loc,
                lhs: Box::new(lhs.view()),
                op: op@,
                rhs: rhs@,
            },
            Expression::ArrayAccess { loc, lhs, rhs } => ExprView::ArrayAccess {
                loc,
                lhs: Box::new(lhs.view()),
                rhs: Box::new(rhs.view()),
            },
            Expression::Literal { loc, v } => ExprView::Literal { loc, v: v@ },
            Expression::Call { loc, name, args } => ExprView::Call {
                loc,
                name: name@,
                args: expr_views(args@),
            },
            Expression::InfixOperation { loc, lhs, rhs } => ExprView::InfixOperation {
                loc,
                lhs: Box::new(lhs.view()),
                rhs: labeled_views(rhs@),
            },
            Expression::Cast { loc, into, expr } => ExprView::Cast {
                loc,
                into: into@,
                expr: Box::new(expr.view()),
            },
            Expression::UnaryPost { loc, op, expr } => ExprView::UnaryPost {
                loc,
                op: op@,
                expr: Box::new(expr.view()),
            },
            Expression::UnaryPre { loc, op, expr } => ExprView::UnaryPre {
                loc,
                op: op@,
                expr: Box::new(expr.view()),
            },
            Expression::StructInit { loc, typed, fields } => ExprView::StructInit {
                loc,
                typed: typed@,
                fields: labeled_views(fields@),
            },
            Expression::ArrayInit { loc, fields } => ExprView::ArrayInit {
                loc,
                fields: expr_views(fields@),
            },
        }
    }

    /// Where the expression stands.
    pub fn loc(&self) -> (loc: Location)
        ensures
            loc == expr_loc(self@),
    {
        match self {
            Expression::Name(name) => name.loc,
            Expression::MemberAccess { loc, .. } => *loc,
            Expression::ArrayAccess { loc, .. } => *loc,
            Expression::Literal { loc, .. } => *loc,
            Expression::Call { loc, .. } => *loc,
            Expression::InfixOperation { loc, .. } => *loc,
            Expression::Cast { loc, .. } => *loc,
            Expression::UnaryPost { loc, .. } => *loc,
            Expression::UnaryPre { loc, .. } => *loc,
            Expression::StructInit { loc, .. } => *loc,
            Expression::ArrayInit { loc, .. } => *loc,
        }
    }
}

/// Where an expression stands.
pub open spec fn expr_loc(e: ExprView) -> Location {
    match e {
        ExprView::Name(name) => name.loc,
        ExprView::MemberAccess { loc, .. } => loc,
        ExprView::ArrayAccess { loc, .. } => loc,
        ExprView::Literal { loc, .. } => loc,
        ExprView::Call { loc, .. } => loc,
        ExprView::InfixOperation { loc, .. } => loc,
        ExprView::Cast { loc, .. } => loc,
        ExprView::UnaryPost { loc, .. } => loc,
        ExprView::UnaryPre { loc, .. } => loc,
        ExprView::StructInit { loc, .. } => loc,
        ExprView::ArrayInit { loc, .. } => loc,
    }
}

/// What each expression of a sequence holds.
pub open spec fn expr_views(es: Seq<Expression>) -> Seq<ExprView>
    decreases es,
{
    Seq::new(
        es.len(),
        |i: int|
            if 0 <= i < es.len() {
                es[i].view()
            } else {
                arbitrary()
            },
    )
}

/// What each labeled expression of a sequence holds.
pub open spec fn labeled_views(ls: Seq<Labeled>) -> Seq<LabeledView>
    decreases ls,
{
    Seq::new(
        ls.len(),
        |i: int|
            if 0 <= i < ls.len() {
                ls[i].view()
            } else {
                arbitrary()
            },
    )
}

/// The views of a sequence of expressions, one by one.
pub broadcast proof fn lemma_expr_views(es: Seq<Expression>)
    ensures
        #[trigger] expr_views(es).len() == es.len(),
        forall|i: int| 0 <= i < es.len() ==> #[trigger] expr_views(es)[i] == es[i]@,
{
}

/// The views of a sequence of labeled expressions, one by one.
pub broadcast proof fn lemma_labeled_views(ls: Seq<Labeled>)
    ensures
        #[trigger] labeled_views(ls).len() == ls.len(),
        forall|i: int| 0 <= i < ls.len() ==> #[trigger] labeled_views(ls)[i] == ls[i]@,
{
}

/// A sequence of statements, up to the place where its scope ends.
#[derive(Debug)]
pub struct Block {
    pub statements: Vec<Statement>,
    pub end: Location,
}

/// A statement.
#[derive(Debug)]
pub enum Statement {
    Mark { loc: Location, lhs: Expression, key: String, value: String },
    Block(Block),
    Cond { expr: Option<Expression>, body: Block },
    For {
        e1: Option<Box<Statement>>,
        e2: Option<Box<Statement>>,
        e3: Option<Box<Statement>>,
        body: Block,
    },
    Expr { loc: Location, expr: Expression },
    Var { loc: Location, name: String, tags: Tags, assign: Option<Expression> },
    Assign { loc: Location, lhs: Expression, rhs: Expression },
    Return { loc: Location, expr: Option<Expression> },
    Goto { loc: Location, label: String },
    Label { loc: Location, label: String },
    Break { loc: Location },
}

/// What a [`Block`] holds.
pub struct BlockView {
    pub statements: Seq<StmtView>,
    pub end: Location,
}

/// What a [`Statement`] holds.
pub enum StmtView {
    Mark { loc: Location, lhs: ExprView, key: Text, value: Text },
    Block(BlockView),
    Cond { expr: Option<ExprView>, body: BlockView },
    For {
        e1: Option<Box<StmtView>>,
        e2: Option<Box<StmtView>>,
        e3: Option<Box<StmtView>>,
        body: BlockView,
    },
    Expr { loc: Location, expr: ExprView },
    Var { loc: Location, name: Text, tags: TagsView, assign: Option<ExprView> },
    Assign { loc: Location, lhs: ExprView, rhs: ExprView },
    Return { loc: Location, expr: Option<ExprView> },
    Goto { loc: Location, label: Text },
    Label { loc: Location, label: Text },
    Break { loc: Location },
}

/// What an expression that may be absent holds.
pub open spec fn opt_expr_view(e: Option<Expression>) -> Option<ExprView> {
    match e {
        Some(e) => Some(e@),
        None => None,
    }
}

/// What a statement that may be absent holds.
pub open spec fn opt_stmt_view(stm: Option<Box<Statement>>) -> Option<Box<StmtView>>
    decreases stm,
{
    match stm {
        Some(stm) => Some(Box::new(stm.view())),
        None => None,
    }
}

/// What each statement of a sequence holds.
pub open spec fn stmt_views(stms: Seq<Statement>) -> Seq<StmtView>
    decreases stms,
{
    Seq::new(
        stms.len(),
        |i: int|
            if 0 <= i < stms.len() {
                stms[i].view()
            } else {
                arbitrary()
            },
    )
}

/// The views of a sequence of statements, one by one.
pub broadcast proof fn lemma_stmt_views(stms: Seq<Statement>)
    ensures
        #[trigger] stmt_views(stms).len() == stms.len(),
        forall|i: int| 0 <= i < stms.len() ==> #[trigger] stmt_views(stms)[i] == stms[i]@,
{
}

impl Block {
    /// What the block holds.
    pub open spec fn view(&self) -> BlockView
        decreases self,
    {
        BlockView { statements: stmt_views(self.statements@), end: self.end }
    }
}

impl Statement {
    /// What the statement holds.
    pub open spec fn view(&self) -> StmtView
        decreases self,
    {
        match *self {
            Statement::Mark { loc, lhs, key, value } => StmtView::Mark {
                loc,
                lhs: lhs@,
                key: key@,
                value: value@,
            },
            Statement::Block(block) => StmtView::Block(block.view()),
            Statement::Cond { expr, body } => StmtView::Cond {
                expr: opt_expr_view(expr),
                body: body.view(),
            },
            Statement::For { e1, e2, e3, body } => StmtView::For {
                e1: opt_stmt_view(e1),
                e2: opt_stmt_view(e2),
                e3: opt_stmt_view(e3),
                body: body.view(),
            },
            Statement::Expr { loc, expr } => StmtView::Expr { loc, expr: expr@ },
            Statement::Var { loc, name, tags, assign } => StmtView::Var {
                loc,
                name: name@,
                tags: tags@,
                assign: opt_expr_view(assign),
            },
            Statement::Assign { loc, lhs, rhs } => StmtView::Assign { loc, lhs: lhs@, rhs: rhs@ },
            Statement::Return { loc, expr } => StmtView::Return { loc, expr: opt_expr_view(expr) },
            Statement::Goto { loc, label } => StmtView::Goto { loc, label: label@ },
            Statement::Label { loc, label } => StmtView::Label { loc, label: label@ },
            Statement::Break { loc } => StmtView::Break { loc },
        }
    }
}

/// What a name of the module stands for.
#[derive(Debug)]
pub enum Def {
    Macro,
    Static { typed: Typed, tags: Tags },
    Function { ret: Option<Typed>, args: Vec<NamedArg>, vararg: bool, body: Block },
    Other,
}

/// What a [`Def`] holds.
pub enum DefView {
    Macro,
    Static { typed: TypedView, tags: TagsView },
    Function {
        ret: Option<TypedView>,
        args: Seq<NamedArgView>,
        vararg: bool,
        body: BlockView,
    },
    Other,
}

/// What a type that may be absent holds.
pub open spec fn opt_typed_view(typed: Option<Typed>) -> Option<TypedView> {
    match typed {
        Some(typed) => Some(typed@),
        None => None,
    }
}

impl View for Def {
    type V = DefView;

    open spec fn view(&self) -> DefView {
        match *self {
            Def::Macro => DefView::Macro,
            Def::Static { typed, tags } => DefView::Static { typed: typed@, tags: tags@ },
            Def::Function { ret, args, vararg, body } => DefView::Function {
                ret: opt_typed_view(ret),
                args: arg_views(args@),
                vararg,
                body: body@,
            },
            Def::Other => DefView::Other,
        }
    }
}

/// A definition of the module.
#[derive(Debug)]
pub struct Local {
    pub name: String,
    pub loc: Location,
    pub def: Def,
}

/// What a [`Local`] holds.
pub struct LocalView {
    pub name: Text,
    pub loc: Location,
    pub def: DefView,
}

impl View for Local {
    type V = LocalView;

    open spec fn view(&self) -> LocalView {
        LocalView { name: self.name@, loc: self.loc, def: self.def@ }
    }
}

/// An item of a flattened module, in the order in which it is emitted.
#[derive(Debug)]
pub enum D {
    Include(String),
    Local(Local),
}

/// What a [`D`] holds.
pub enum DView {
    Include(Text),
    Local(LocalView),
}

impl View for D {
    type V = DView;

    open spec fn view(&self) -> DView {
        match *self {
            D::Include(path) => DView::Include(path@),
            D::Local(local) => DView::Local(local@),
        }
    }
}

/// A name that C code provides, with the place that brings it in.
#[derive(Debug)]
pub struct CName {
    pub name: Name,
    pub loc: Location,
}

/// What a [`CName`] holds.
pub struct CNameView {
    pub name: NameView,
    pub loc: Location,
}

impl View for CName {
    type V = CNameView;

    open spec fn view(&self) -> CNameView {
        CNameView { name: self.name@, loc: self.loc }
    }
}

/// A module with everything it uses, flattened into one sequence of items.
#[derive(Debug)]
pub struct Module {
    pub name: Name,
    pub c_names: Vec<CName>,
    pub d: Vec<D>,
}

/// What a [`Module`] holds.
pub struct ModuleView {
    pub name: NameView,
    pub c_names: Seq<CNameView>,
    pub d: Seq<DView>,
}

/// What each name of a sequence holds.
pub open spec fn c_name_views(names: Seq<CName>) -> Seq<CNameView> {
    Seq::new(names.len(), |i: int| names[i]@)
}

/// What each item of a sequence holds.
pub open spec fn d_views(ds: Seq<D>) -> Seq<DView> {
    Seq::new(ds.len(), |i: int| ds[i]@)
}

impl View for Module {
    type V = ModuleView;

    open spec fn view(&self) -> ModuleView {
        ModuleView { name: self.name@, c_names: c_name_views(self.c_names@), d: d_views(self.d@) }
    }
}

/// A walk over expressions that has come to number `i`: the next one is as it was.
pub proof fn lemma_exprs_next(now: Seq<Expression>, all: Seq<ExprView>, done: Seq<ExprView>, i: int)
    requires
        expr_views(now) == done + all.skip(i),
        done.len() == i,
        0 <= i < all.len(),
    ensures
        now.len() == all.len(),
        now[i]@ == all[i],
{
    lemma_expr_views(now);
    assert(expr_views(now)[i] == now[i]@);
    assert((done + all.skip(i))[i] == all[i]);
}

/// A walk over expressions that has come to number `i` and changes it.
pub proof fn lemma_exprs_step(
    before: Seq<Expression>,
    after: Seq<Expression>,
    all: Seq<ExprView>,
    done: Seq<ExprView>,
    i: int,
)
    requires
        expr_views(before) == done + all.skip(i),
        done.len() == i,
        0 <= i < all.len(),
        before.len() == all.len(),
        after == before.update(i, after[i]),
    ensures
        expr_views(after) == done.push(after[i]@) + all.skip(i + 1),
{
    lemma_expr_views(before);
    lemma_expr_views(after);
    let goal = done.push(after[i]@) + all.skip(i + 1);
    assert forall|j: int| 0 <= j < all.len() implies expr_views(after)[j] == goal[j] by {
        if j != i {
            assert(after[j] == before[j]);
            assert(expr_views(before)[j] == (done + all.skip(i))[j]);
        }
    }
    assert(expr_views(after) =~= goal);
}

/// A walk over labeled expressions that has come to number `i`: the next one is as it was.
pub proof fn lemma_labeled_next(
    now: Seq<Labeled>,
    all: Seq<LabeledView>,
    done: Seq<LabeledView>,
    i: int,
)
    requires
        labeled_views(now) == done + all.skip(i),
        done.len() == i,
        0 <= i < all.len(),
    ensures
        now.len() == all.len(),
        now[i]@ == all[i],
{
    lemma_labeled_views(now);
    assert(labeled_views(now)[i] == now[i]@);
    assert((done + all.skip(i))[i] == all[i]);
}

/// A walk over labeled expressions that has come to number `i` and changes it.
pub proof fn lemma_labeled_step(
    before: Seq<Labeled>,
    after: Seq<Labeled>,
    all: Seq<LabeledView>,
    done: Seq<LabeledView>,
    i: int,
)
    requires
        labeled_views(before) == done + all.skip(i),
        done.len() == i,
        0 <= i < all.len(),
        before.len() == all.len(),
        after == before.update(i, after[i]),
    ensures
        labeled_views(after) == done.push(after[i]@) + all.skip(i + 1),
{
    lemma_labeled_views(before);
    lemma_labeled_views(after);
    let goal = done.push(after[i]@) + all.skip(i + 1);
    assert forall|j: int| 0 <= j < all.len() implies labeled_views(after)[j] == goal[j] by {
        if j != i {
            assert(after[j] == before[j]);
            assert(labeled_views(before)[j] == (done + all.skip(i))[j]);
        }
    }
    assert(labeled_views(after) =~= goal);
}

/// A walk over statements that has come to number `i`: the next one is as it was.
pub proof fn lemma_stmts_next(now: Seq<Statement>, all: Seq<StmtView>, done: Seq<StmtView>, i: int)
    requires
        stmt_views(now) == done + all.skip(i),
        done.len() == i,
        0 <= i < all.len(),
    ensures
        now.len() == all.len(),
        now[i]@ == all[i],
{
    lemma_stmt_views(now);
    assert(stmt_views(now)[i] == now[i]@);
    assert((done + all.skip(i))[i] == all[i]);
}

/// A walk over statements that has come to number `i` and changes it.
pub proof fn lemma_stmts_step(
    before: Seq<Statement>,
    after: Seq<Statement>,
    all: Seq<StmtView>,
    done: Seq<StmtView>,
    i: int,
)
    requires
        stmt_views(before) == done + all.skip(i),
        done.len() == i,
        0 <= i < all.len(),
        before.len() == all.len(),
        after == before.update(i, after[i]),
    ensures
        stmt_views(after) == done.push(after[i]@) + all.skip(i + 1),
{
    lemma_stmt_views(before);
    lemma_stmt_views(after);
    let goal = done.push(after[i]@) + all.skip(i + 1);
    assert forall|j: int| 0 <= j < all.len() implies stmt_views(after)[j] == goal[j] by {
        if j != i {
            assert(after[j] == before[j]);
            assert(stmt_views(before)[j] == (done + all.skip(i))[j]);
        }
    }
    assert(stmt_views(after) =~= goal);
}

/// An expression stands where it starts: a name where it is written, and anything else where it
/// says.
pub proof fn law_expr_place(e: ExprView)
    ensures
        e matches ExprView::Name(name) ==> expr_loc(e) == name.loc,
        e matches ExprView::MemberAccess { loc, .. } ==> expr_loc(e) == loc,
        e matches ExprView::ArrayAccess { loc, .. } ==> expr_loc(e) == loc,
        e matches ExprView::Literal { loc, .. } ==> expr_loc(e) == loc,
        e matches ExprView::Call { loc, .. } ==> expr_loc(e) == loc,
        e matches ExprView::InfixOperation { loc, .. } ==> expr_loc(e) == loc,
        e matches ExprView::Cast { loc, .. } ==> expr_loc(e) == loc,
        e matches ExprView::UnaryPost { loc, .. } ==> expr_loc(e) == loc,
        e matches ExprView::UnaryPre { loc, .. } ==> expr_loc(e) == loc,
        e matches ExprView::StructInit { loc, .. } ==> expr_loc(e) == loc,
        e matches ExprView::ArrayInit { loc, .. } ==> expr_loc(e) == loc,
{
}

} // verus!
