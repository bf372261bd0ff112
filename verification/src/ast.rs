//! The VPy abstract syntax tree, and its mathematical model.
//!
//! Each syntax type has a model type (`ExprM`, `StmtM`, ...) built from
//! sequences and character sequences; `view` maps a tree to its model, and
//! contracts of the passes over the tree are stated on the models.

use vstd::prelude::*;
use crate::text::str_eq;


verus! {

// ---------------------------------------------------------------------------
// Syntax trees
// ---------------------------------------------------------------------------

#[derive(Debug, PartialEq, Eq)]
pub struct Module {
    pub items: Vec<Item>,
    pub meta: ModuleMeta,
}

/// Module-level metadata; `metas` holds key/value pairs in insertion order.
#[derive(Debug, Clone, PartialEq, Eq, Default)]
pub struct ModuleMeta {
    pub title_override: Option<String>,
    pub metas: Vec<(String, String)>,
    pub music_override: Option<String>,
    pub copyright_override: Option<String>,
}

#[derive(Debug, PartialEq, Eq)]
pub enum Item {
    Function(Function),
    Const { name: String, value: Expr, source_line: usize },
    GlobalLet { name: String, value: Expr, source_line: usize },
    VectorList { name: String, entries: Vec<VlEntry> },
    ExprStatement(Expr),
}

#[derive(Debug, Clone, PartialEq, Eq)]
pub enum VlEntry {
    Intensity(i32),
    Origin,
    Move(i32, i32),
    Rect(i32, i32, i32, i32),
    Polygon(Vec<(i32, i32)>),
    Circle { cx: i32, cy: i32, r: i32, segs: i32 },
    Arc { cx: i32, cy: i32, r: i32, start_deg: i32, sweep_deg: i32, segs: i32 },
    Spiral { cx: i32, cy: i32, r_start: i32, r_end: i32, turns: i32, segs: i32 },
}

#[derive(Debug, PartialEq, Eq)]
pub struct Function {
    pub name: String,
    pub line: usize,
    pub params: Vec<String>,
    pub body: Vec<Stmt>,
}

#[derive(Debug, PartialEq, Eq)]
pub enum Stmt {
    Assign { target: AssignTarget, value: Expr, source_line: usize },
    Let { name: String, value: Expr, source_line: usize },
    For {
        var: String,
        start: Expr,
        end: Expr,
        step: Option<Expr>,
        body: Vec<Stmt>,
        source_line: usize,
    },
    While { cond: Expr, body: Vec<Stmt>, source_line: usize },
    Break { source_line: usize },
    Continue { source_line: usize },
    Expr(Expr, usize),
    If {
        cond: Expr,
        body: Vec<Stmt>,
        elifs: Vec<(Expr, Vec<Stmt>)>,
        else_body: Option<Vec<Stmt>>,
        source_line: usize,
    },
    Switch {
        expr: Expr,
        cases: Vec<(Expr, Vec<Stmt>)>,
        default: Option<Vec<Stmt>>,
        source_line: usize,
    },
    Return(Option<Expr>, usize),
    CompoundAssign { target: AssignTarget, op: BinOp, value: Expr, source_line: usize },
}

#[derive(Debug, Clone, PartialEq, Eq)]
pub struct IdentInfo {
    pub name: String,
    pub source_line: usize,
    pub col: usize,
}

#[derive(Debug, Clone, PartialEq, Eq)]
pub struct AssignTarget {
    pub name: String,
    pub source_line: usize,
    pub col: usize,
}

#[derive(Debug, PartialEq, Eq)]
pub struct CallInfo {
    pub name: String,
    pub source_line: usize,
    pub col: usize,
    pub args: Vec<Expr>,
}

#[derive(Debug, PartialEq, Eq)]
pub enum Expr {
    Number(i32),
    StringLit(String),
    Ident(IdentInfo),
    Call(CallInfo),
    Binary { op: BinOp, left: Box<Expr>, right: Box<Expr> },
    Compare { op: CmpOp, left: Box<Expr>, right: Box<Expr> },
    Logic { op: LogicOp, left: Box<Expr>, right: Box<Expr> },
    Not(Box<Expr>),
    BitNot(Box<Expr>),
}

#[derive(Debug, Clone, Copy, PartialEq, Eq, Structural)]
pub enum BinOp {
    Add,
    Sub,
    Mul,
    Div,
    FloorDiv,
    Mod,
    Shl,
    Shr,
    BitAnd,
    BitOr,
    BitXor,
}

#[derive(Debug, Clone, Copy, PartialEq, Eq, Structural)]
pub enum CmpOp {
    Eq,
    Ne,
    Lt,
    Le,
    Gt,
    Ge,
}

#[derive(Debug, Clone, Copy, PartialEq, Eq, Structural)]
pub enum LogicOp {
    And,
    Or,
}

impl Stmt {
    /// The source line that every kind of statement carries.
    pub open spec fn line_of(&self) -> usize {
        match self {
            Stmt::Assign { source_line, .. } => *source_line,
            Stmt::Let { source_line, .. } => *source_line,
            Stmt::For { source_line, .. } => *source_line,
            Stmt::While { source_line, .. } => *source_line,
            Stmt::Break { source_line } => *source_line,
            Stmt::Continue { source_line } => *source_line,
            Stmt::Expr(_, source_line) => *source_line,
            Stmt::If { source_line, .. } => *source_line,
            Stmt::Switch { source_line, .. } => *source_line,
            Stmt::Return(_, source_line) => *source_line,
            Stmt::CompoundAssign { source_line, .. } => *source_line,
        }
    }

    /// Get the source line number for any statement
    pub fn source_line(&self) -> (r: usize)
        ensures
            r == self.line_of(),
    {
        match self {
            Stmt::Assign { source_line, .. } => *source_line,
            Stmt::Let { source_line, .. } => *source_line,
            Stmt::For { source_line, .. } => *source_line,
            Stmt::While { source_line, .. } => *source_line,
            Stmt::Break { source_line } => *source_line,
            Stmt::Continue { source_line } => *source_line,
            Stmt::Expr(_, source_line) => *source_line,
            Stmt::If { source_line, .. } => *source_line,
            Stmt::Switch { source_line, .. } => *source_line,
            Stmt::Return(_, source_line) => *source_line,
            Stmt::CompoundAssign { source_line, .. } => *source_line,
        }
    }
}

// ---------------------------------------------------------------------------
// Models
// ---------------------------------------------------------------------------

/// Model of an expression; identifiers and calls keep their positions.
pub enum ExprM {
    Number(i32),
    StringLit(Seq<char>),
    Ident(Seq<char>, usize, usize),
    Call(Seq<char>, usize, usize, Seq<ExprM>),
    Binary(BinOp, Box<ExprM>, Box<ExprM>),
    Compare(CmpOp, Box<ExprM>, Box<ExprM>),
    Logic(LogicOp, Box<ExprM>, Box<ExprM>),
    Not(Box<ExprM>),
    BitNot(Box<ExprM>),
}

/// Model of an assignment target: name, line, column.
pub struct TargetM {
    pub name: Seq<char>,
    pub line: usize,
    pub col: usize,
}

/// Model of a statement.
pub enum StmtM {
    Assign(TargetM, ExprM, usize),
    Let(Seq<char>, ExprM, usize),
    For(Seq<char>, ExprM, ExprM, Option<ExprM>, Seq<StmtM>, usize),
    While(ExprM, Seq<StmtM>, usize),
    Break(usize),
    Continue(usize),
    Expr(ExprM, usize),
    If(ExprM, Seq<StmtM>, Seq<(ExprM, Seq<StmtM>)>, Option<Seq<StmtM>>, usize),
    Switch(ExprM, Seq<(ExprM, Seq<StmtM>)>, Option<Seq<StmtM>>, usize),
    Return(Option<ExprM>, usize),
    CompoundAssign(TargetM, BinOp, ExprM, usize),
}

/// Model of a function: name, line, parameters, body.
pub struct FunctionM {
    pub name: Seq<char>,
    pub line: usize,
    pub params: Seq<Seq<char>>,
    pub body: Seq<StmtM>,
}

/// Model of a top-level item.
pub enum ItemM {
    Function(FunctionM),
    Const(Seq<char>, ExprM, usize),
    GlobalLet(Seq<char>, ExprM, usize),
    VectorList(Seq<char>, Seq<VlEntryM>),
    ExprStatement(ExprM),
}

/// Model of a vector-list entry.
pub enum VlEntryM {
    Intensity(i32),
    Origin,
    Move(i32, i32),
    Rect(i32, i32, i32, i32),
    Polygon(Seq<(i32, i32)>),
    Circle(i32, i32, i32, i32),
    Arc(i32, i32, i32, i32, i32, i32),
    Spiral(i32, i32, i32, i32, i32, i32),
}

/// Model of module metadata.
pub struct MetaM {
    pub title_override: Option<Seq<char>>,
    pub metas: Seq<(Seq<char>, Seq<char>)>,
    pub music_override: Option<Seq<char>>,
    pub copyright_override: Option<Seq<char>>,
}

/// Model of a module.
pub struct ModuleM {
    pub items: Seq<ItemM>,
    pub meta: MetaM,
}

/// The character sequences of a sequence of strings.
pub open spec fn sviews(s: Seq<String>) -> Seq<Seq<char>> {
    s.map_values(|x: String| x@)
}

/// The model of an optional string.
pub open spec fn opt_view(o: Option<String>) -> Option<Seq<char>> {
    match o {
        Some(s) => Some(s@),
        None => None,
    }
}

impl Expr {
    pub open spec fn view(&self) -> ExprM
        decreases self,
    {
        match self {
            Expr::Number(n) => ExprM::Number(*n),
            Expr::StringLit(s) => ExprM::StringLit(s@),
            Expr::Ident(i) => ExprM::Ident(i.name@, i.source_line, i.col),
            Expr::Call(ci) => ExprM::Call(ci.name@, ci.source_line, ci.col, view_exprs(ci.args@)),
            Expr::Binary { op, left, right } => ExprM::Binary(
                *op,
                Box::new(left.view()),
                Box::new(right.view()),
            ),
            Expr::Compare { op, left, right } => ExprM::Compare(
                *op,
                Box::new(left.view()),
                Box::new(right.view()),
            ),
            Expr::Logic { op, left, right } => ExprM::Logic(
                *op,
                Box::new(left.view()),
                Box::new(right.view()),
            ),
            Expr::Not(e) => ExprM::Not(Box::new(e.view())),
            Expr::BitNot(e) => ExprM::BitNot(Box::new(e.view())),
        }
    }
}

/// The models of a sequence of expressions.
pub open spec fn view_exprs(s: Seq<Expr>) -> Seq<ExprM>
    decreases s,
{
    if s.len() == 0 {
        Seq::empty()
    } else {
        view_exprs(s.drop_last()).push(s.last().view())
    }
}

/// The model of an optional expression.
pub open spec fn view_opt_expr(o: Option<Expr>) -> Option<ExprM> {
    match o {
        Some(e) => Some(e.view()),
        None => None,
    }
}

impl AssignTarget {
    pub open spec fn view(&self) -> TargetM {
        TargetM { name: self.name@, line: self.source_line, col: self.col }
    }
}

impl Stmt {
    pub open spec fn view(&self) -> StmtM
        decreases self,
    {
        match self {
            Stmt::Assign { target, value, source_line } => StmtM::Assign(
                target.view(),
                value.view(),
                *source_line,
            ),
            Stmt::Let { name, value, source_line } => StmtM::Let(name@, value.view(), *source_line),
            Stmt::For { var, start, end, step, body, source_line } => StmtM::For(
                var@,
                start.view(),
                end.view(),
                view_opt_expr(*step),
                view_stmts(body@),
                *source_line,
            ),
            Stmt::While { cond, body, source_line } => StmtM::While(
                cond.view(),
                view_stmts(body@),
                *source_line,
            ),
            Stmt::Break { source_line } => StmtM::Break(*source_line),
            Stmt::Continue { source_line } => StmtM::Continue(*source_line),
            Stmt::Expr(e, l) => StmtM::Expr(e.view(), *l),
            Stmt::If { cond, body, elifs, else_body, source_line } => StmtM::If(
                cond.view(),
                view_stmts(body@),
                view_arms(elifs@),
                match else_body {
                    Some(b) => Some(view_stmts(b@)),
                    None => None,
                },
                *source_line,
            ),
            Stmt::Switch { expr, cases, default, source_line } => StmtM::Switch(
                expr.view(),
                view_arms(cases@),
                match default {
                    Some(b) => Some(view_stmts(b@)),
                    None => None,
                },
                *source_line,
            ),
            Stmt::Return(o, l) => StmtM::Return(view_opt_expr(*o), *l),
            Stmt::CompoundAssign { target, op, value, source_line } => StmtM::CompoundAssign(
                target.view(),
                *op,
                value.view(),
                *source_line,
            ),
        }
    }
}

/// The models of a sequence of statements.
pub open spec fn view_stmts(s: Seq<Stmt>) -> Seq<StmtM>
    decreases s,
{
    if s.len() == 0 {
        Seq::empty()
    } else {
        view_stmts(s.drop_last()).push(s.last().view())
    }
}

/// The models of a sequence of guarded arms (`elif` branches or `switch` cases).
pub open spec fn view_arms(s: Seq<(Expr, Vec<Stmt>)>) -> Seq<(ExprM, Seq<StmtM>)>
    decreases s,
{
    if s.len() == 0 {
        Seq::empty()
    } else {
        view_arms(s.drop_last()).push((s.last().0.view(), view_stmts(s.last().1@)))
    }
}

impl Function {
    pub open spec fn view(&self) -> FunctionM {
        FunctionM {
            name: self.name@,
            line: self.line,
            params: sviews(self.params@),
            body: view_stmts(self.body@),
        }
    }
}

impl VlEntry {
    pub open spec fn view(&self) -> VlEntryM {
        match self {
            VlEntry::Intensity(v) => VlEntryM::Intensity(*v),
            VlEntry::Origin => VlEntryM::Origin,
            VlEntry::Move(x, y) => VlEntryM::Move(*x, *y),
            VlEntry::Rect(a, b, c, d) => VlEntryM::Rect(*a, *b, *c, *d),
            VlEntry::Polygon(v) => VlEntryM::Polygon(v@),
            VlEntry::Circle { cx, cy, r, segs } => VlEntryM::Circle(*cx, *cy, *r, *segs),
            VlEntry::Arc { cx, cy, r, start_deg, sweep_deg, segs } => VlEntryM::Arc(
                *cx,
                *cy,
                *r,
                *start_deg,
                *sweep_deg,
                *segs,
            ),
            VlEntry::Spiral { cx, cy, r_start, r_end, turns, segs } => VlEntryM::Spiral(
                *cx,
                *cy,
                *r_start,
                *r_end,
                *turns,
                *segs,
            ),
        }
    }
}

impl Item {
    pub open spec fn view(&self) -> ItemM {
        match self {
            Item::Function(f) => ItemM::Function(f.view()),
            Item::Const { name, value, source_line } => ItemM::Const(
                name@,
                value.view(),
                *source_line,
            ),
            Item::GlobalLet { name, value, source_line } => ItemM::GlobalLet(
                name@,
                value.view(),
                *source_line,
            ),
            Item::VectorList { name, entries } => ItemM::VectorList(
                name@,
                entries@.map_values(|e: VlEntry| e.view()),
            ),
            Item::ExprStatement(e) => ItemM::ExprStatement(e.view()),
        }
    }
}

impl ModuleMeta {
    pub open spec fn view(&self) -> MetaM {
        MetaM {
            title_override: opt_view(self.title_override),
            metas: self.metas@.map_values(|p: (String, String)| (p.0@, p.1@)),
            music_override: opt_view(self.music_override),
            copyright_override: opt_view(self.copyright_override),
        }
    }
}

impl Module {
    pub open spec fn view(&self) -> ModuleM {
        ModuleM { items: self.items@.map_values(|i: Item| i.view()), meta: self.meta.view() }
    }
}

// ---------------------------------------------------------------------------
// Facts about the models of sequences
// ---------------------------------------------------------------------------

pub proof fn lemma_view_exprs(s: Seq<Expr>)
    ensures
        view_exprs(s).len() == s.len(),
        forall|i: int| 0 <= i < s.len() ==> #[trigger] view_exprs(s)[i] == s[i].view(),
    decreases s.len(),
{
    if s.len() > 0 {
        lemma_view_exprs(s.drop_last());
    }
}

pub proof fn lemma_view_stmts(s: Seq<Stmt>)
    ensures
        view_stmts(s).len() == s.len(),
        forall|i: int| 0 <= i < s.len() ==> #[trigger] view_stmts(s)[i] == s[i].view(),
    decreases s.len(),
{
    if s.len() > 0 {
        lemma_view_stmts(s.drop_last());
    }
}

pub proof fn lemma_view_arms(s: Seq<(Expr, Vec<Stmt>)>)
    ensures
        view_arms(s).len() == s.len(),
        forall|i: int|
            0 <= i < s.len() ==> #[trigger] view_arms(s)[i] == (s[i].0.view(), view_stmts(
                s[i].1@,
            )),
    decreases s.len(),
{
    if s.len() > 0 {
        lemma_view_arms(s.drop_last());
    }
}

pub proof fn lemma_view_exprs_take(s: Seq<Expr>, i: int)
    requires
        0 <= i < s.len(),
    ensures
        view_exprs(s.take(i + 1)) == view_exprs(s.take(i)).push(s[i].view()),
{
    assert(s.take(i + 1).drop_last() =~= s.take(i));
}

pub proof fn lemma_view_stmts_take(s: Seq<Stmt>, i: int)
    requires
        0 <= i < s.len(),
    ensures
        view_stmts(s.take(i + 1)) == view_stmts(s.take(i)).push(s[i].view()),
{
    assert(s.take(i + 1).drop_last() =~= s.take(i));
}

pub proof fn lemma_view_arms_take(s: Seq<(Expr, Vec<Stmt>)>, i: int)
    requires
        0 <= i < s.len(),
    ensures
        view_arms(s.take(i + 1)) == view_arms(s.take(i)).push(
            (s[i].0.view(), view_stmts(s[i].1@)),
        ),
{
    assert(s.take(i + 1).drop_last() =~= s.take(i));
}

// ---------------------------------------------------------------------------
// Deep copies
// ---------------------------------------------------------------------------

/// A copy of an expression tree.
pub fn copy_expr(e: &Expr) -> (r: Expr)
    ensures
        r.view() == e.view(),
    decreases e,
{
    match e {
        Expr::Number(n) => Expr::Number(*n),
        Expr::StringLit(s) => Expr::StringLit(s.clone()),
        Expr::Ident(i) => Expr::Ident(
            IdentInfo { name: i.name.clone(), source_line: i.source_line, col: i.col },
        ),
        Expr::Call(ci) => Expr::Call(
            CallInfo {
                name: ci.name.clone(),
                source_line: ci.source_line,
                col: ci.col,
                args: copy_exprs(&ci.args),
            },
        ),
        Expr::Binary { op, left, right } => Expr::Binary {
            op: *op,
            left: Box::new(copy_expr(left)),
            right: Box::new(copy_expr(right)),
        },
        Expr::Compare { op, left, right } => Expr::Compare {
            op: *op,
            left: Box::new(copy_expr(left)),
            right: Box::new(copy_expr(right)),
        },
        Expr::Logic { op, left, right } => Expr::Logic {
            op: *op,
            left: Box::new(copy_expr(left)),
            right: Box::new(copy_expr(right)),
        },
        Expr::Not(x) => Expr::Not(Box::new(copy_expr(x))),
        Expr::BitNot(x) => Expr::BitNot(Box::new(copy_expr(x))),
    }
}

/// A copy of a sequence of expressions.
pub fn copy_exprs(v: &Vec<Expr>) -> (r: Vec<Expr>)
    ensures
        view_exprs(r@) == view_exprs(v@),
    decreases v,
{
    let mut r: Vec<Expr> = Vec::new();
    let mut i: usize = 0;
    while i < v.len()
        invariant
            i <= v.len(),
            view_exprs(r@) == view_exprs(v@.take(i as int)),
        decreases v.len() - i,
    {
        proof {
            lemma_view_exprs_take(v@, i as int);
        }
        let c = copy_expr(&v[i]);
        let ghost r0 = r@;
        r.push(c);
        assert(r@.drop_last() =~= r0);
        i += 1;
    }
    assert(v@.take(v.len() as int) =~= v@);
    r
}

/// A copy of an optional expression.
pub fn copy_opt_expr(o: &Option<Expr>) -> (r: Option<Expr>)
    ensures
        view_opt_expr(r) == view_opt_expr(*o),
{
    match o {
        Some(e) => Some(copy_expr(e)),
        None => None,
    }
}

/// A copy of an assignment target.
pub fn copy_target(t: &AssignTarget) -> (r: AssignTarget)
    ensures
        r.view() == t.view(),
{
    AssignTarget { name: t.name.clone(), source_line: t.source_line, col: t.col }
}

/// A copy of a statement tree.
pub fn copy_stmt(s: &Stmt) -> (r: Stmt)
    ensures
        r.view() == s.view(),
    decreases s,
{
    match s {
        Stmt::Assign { target, value, source_line } => Stmt::Assign {
            target: copy_target(target),
            value: copy_expr(value),
            source_line: *source_line,
        },
        Stmt::Let { name, value, source_line } => Stmt::Let {
            name: name.clone(),
            value: copy_expr(value),
            source_line: *source_line,
        },
        Stmt::For { var, start, end, step, body, source_line } => Stmt::For {
            var: var.clone(),
            start: copy_expr(start),
            end: copy_expr(end),
            step: copy_opt_expr(step),
            body: copy_stmts(body),
            source_line: *source_line,
        },
        Stmt::While { cond, body, source_line } => Stmt::While {
            cond: copy_expr(cond),
            body: copy_stmts(body),
            source_line: *source_line,
        },
        Stmt::Break { source_line } => Stmt::Break { source_line: *source_line },
        Stmt::Continue { source_line } => Stmt::Continue { source_line: *source_line },
        Stmt::Expr(e, l) => Stmt::Expr(copy_expr(e), *l),
        Stmt::If { cond, body, elifs, else_body, source_line } => Stmt::If {
            cond: copy_expr(cond),
            body: copy_stmts(body),
            elifs: copy_arms(elifs),
            else_body: match else_body {
                Some(b) => Some(copy_stmts(b)),
                None => None,
            },
            source_line: *source_line,
        },
        Stmt::Switch { expr, cases, default, source_line } => Stmt::Switch {
            expr: copy_expr(expr),
            cases: copy_arms(cases),
            default: match default {
                Some(b) => Some(copy_stmts(b)),
                None => None,
            },
            source_line: *source_line,
        },
        Stmt::Return(o, l) => Stmt::Return(copy_opt_expr(o), *l),
        Stmt::CompoundAssign { target, op, value, source_line } => Stmt::CompoundAssign {
            target: copy_target(target),
            op: *op,
            value: copy_expr(value),
            source_line: *source_line,
        },
    }
}

/// A copy of a sequence of statements.
pub fn copy_stmts(v: &Vec<Stmt>) -> (r: Vec<Stmt>)
    ensures
        view_stmts(r@) == view_stmts(v@),
    decreases v,
{
    let mut r: Vec<Stmt> = Vec::new();
    let mut i: usize = 0;
    while i < v.len()
        invariant
            i <= v.len(),
            view_stmts(r@) == view_stmts(v@.take(i as int)),
        decreases v.len() - i,
    {
        proof {
            lemma_view_stmts_take(v@, i as int);
        }
        let c = copy_stmt(&v[i]);
        let ghost r0 = r@;
        r.push(c);
        assert(r@.drop_last() =~= r0);
        i += 1;
    }
    assert(v@.take(v.len() as int) =~= v@);
    r
}

/// A copy of a sequence of guarded arms.
pub fn copy_arms(v: &Vec<(Expr, Vec<Stmt>)>) -> (r: Vec<(Expr, Vec<Stmt>)>)
    ensures
        view_arms(r@) == view_arms(v@),
    decreases v,
{
    let mut r: Vec<(Expr, Vec<Stmt>)> = Vec::new();
    let mut i: usize = 0;
    while i < v.len()
        invariant
            i <= v.len(),
            view_arms(r@) == view_arms(v@.take(i as int)),
        decreases v.len() - i,
    {
        proof {
            lemma_view_arms_take(v@, i as int);
        }
        let c = (copy_expr(&v[i].0), copy_stmts(&v[i].1));
        let ghost r0 = r@;
        r.push(c);
        assert(r@.drop_last() =~= r0);
        i += 1;
    }
    assert(v@.take(v.len() as int) =~= v@);
    r
}

/// A copy of a sequence of strings.
pub fn copy_strings(v: &Vec<String>) -> (r: Vec<String>)
    ensures
        sviews(r@) == sviews(v@),
{
    let mut r: Vec<String> = Vec::new();
    let mut i: usize = 0;
    while i < v.len()
        invariant
            i <= v.len(),
            r.len() == i,
            forall|k: int| 0 <= k < i ==> #[trigger] r@[k]@ == v@[k]@,
        decreases v.len() - i,
    {
        r.push(v[i].clone());
        i += 1;
    }
    assert(sviews(r@) =~= sviews(v@));
    r
}

fn copy_opt_string(o: &Option<String>) -> (r: Option<String>)
    ensures
        opt_view(r) == opt_view(*o),
{
    match o {
        Some(s) => Some(s.clone()),
        None => None,
    }
}

/// A copy of a vector-list entry.
pub fn copy_vl_entry(e: &VlEntry) -> (r: VlEntry)
    ensures
        r.view() == e.view(),
{
    match e {
        VlEntry::Intensity(v) => VlEntry::Intensity(*v),
        VlEntry::Origin => VlEntry::Origin,
        VlEntry::Move(x, y) => VlEntry::Move(*x, *y),
        VlEntry::Rect(a, b, c, d) => VlEntry::Rect(*a, *b, *c, *d),
        VlEntry::Polygon(v) => {
            let mut w: Vec<(i32, i32)> = Vec::new();
            let mut i: usize = 0;
            while i < v.len()
                invariant
                    i <= v.len(),
                    w@ == v@.take(i as int),
                decreases v.len() - i,
            {
                w.push(v[i]);
                assert(w@ =~= v@.take(i + 1));
                i += 1;
            }
            assert(v@.take(v.len() as int) =~= v@);
            VlEntry::Polygon(w)
        },
        VlEntry::Circle { cx, cy, r, segs } => VlEntry::Circle { cx: *cx, cy: *cy, r: *r, segs: *segs },
        VlEntry::Arc { cx, cy, r, start_deg, sweep_deg, segs } => VlEntry::Arc {
            cx: *cx,
            cy: *cy,
            r: *r,
            start_deg: *start_deg,
            sweep_deg: *sweep_deg,
            segs: *segs,
        },
        VlEntry::Spiral { cx, cy, r_start, r_end, turns, segs } => VlEntry::Spiral {
            cx: *cx,
            cy: *cy,
            r_start: *r_start,
            r_end: *r_end,
            turns: *turns,
            segs: *segs,
        },
    }
}

/// A copy of a sequence of vector-list entries.
pub fn copy_vl_entries(v: &Vec<VlEntry>) -> (r: Vec<VlEntry>)
    ensures
        r@.map_values(|e: VlEntry| e.view()) == v@.map_values(|e: VlEntry| e.view()),
{
    let mut r: Vec<VlEntry> = Vec::new();
    let mut i: usize = 0;
    while i < v.len()
        invariant
            i <= v.len(),
            r.len() == i,
            forall|k: int| 0 <= k < i ==> #[trigger] r@[k].view() == v@[k].view(),
        decreases v.len() - i,
    {
        r.push(copy_vl_entry(&v[i]));
        i += 1;
    }
    assert(r@.map_values(|e: VlEntry| e.view()) =~= v@.map_values(|e: VlEntry| e.view()));
    r
}

/// A copy of module metadata.
pub fn copy_meta(m: &ModuleMeta) -> (r: ModuleMeta)
    ensures
        r.view() == m.view(),
{
    let mut metas: Vec<(String, String)> = Vec::new();
    let mut i: usize = 0;
    while i < m.metas.len()
        invariant
            i <= m.metas.len(),
            metas.len() == i,
            forall|k: int|
                0 <= k < i ==> #[trigger] metas@[k].0@ == m.metas@[k].0@ && metas@[k].1@
                    == m.metas@[k].1@,
        decreases m.metas.len() - i,
    {
        let (k, v) = (m.metas[i].0.clone(), m.metas[i].1.clone());
        metas.push((k, v));
        i += 1;
    }
    assert(metas@.map_values(|p: (String, String)| (p.0@, p.1@)) =~= m.metas@.map_values(
        |p: (String, String)| (p.0@, p.1@),
    ));
    ModuleMeta {
        title_override: copy_opt_string(&m.title_override),
        metas,
        music_override: copy_opt_string(&m.music_override),
        copyright_override: copy_opt_string(&m.copyright_override),
    }
}

// ---------------------------------------------------------------------------
// Structural equality
// ---------------------------------------------------------------------------

fn opt_string_eq(a: &Option<String>, b: &Option<String>) -> (r: bool)
    ensures
        r == (opt_view(*a) == opt_view(*b)),
{
    match (a, b) {
        (Some(x), Some(y)) => str_eq(x, y),
        (None, None) => true,
        _ => false,
    }
}

/// Whether two expressions are the same tree.
pub fn expr_eq(a: &Expr, b: &Expr) -> (r: bool)
    ensures
        r == (a.view() == b.view()),
    decreases a,
{
    match (a, b) {
        (Expr::Number(x), Expr::Number(y)) => *x == *y,
        (Expr::StringLit(x), Expr::StringLit(y)) => str_eq(x, y),
        (Expr::Ident(x), Expr::Ident(y)) => str_eq(&x.name, &y.name) && x.source_line
            == y.source_line && x.col == y.col,
        (Expr::Call(x), Expr::Call(y)) => str_eq(&x.name, &y.name) && x.source_line
            == y.source_line && x.col == y.col && exprs_eq(&x.args, &y.args),
        (
            Expr::Binary { op: o1, left: l1, right: r1 },
            Expr::Binary { op: o2, left: l2, right: r2 },
        ) => *o1 == *o2 && expr_eq(l1, l2) && expr_eq(r1, r2),
        (
            Expr::Compare { op: o1, left: l1, right: r1 },
            Expr::Compare { op: o2, left: l2, right: r2 },
        ) => *o1 == *o2 && expr_eq(l1, l2) && expr_eq(r1, r2),
        (
            Expr::Logic { op: o1, left: l1, right: r1 },
            Expr::Logic { op: o2, left: l2, right: r2 },
        ) => *o1 == *o2 && expr_eq(l1, l2) && expr_eq(r1, r2),
        (Expr::Not(x), Expr::Not(y)) => expr_eq(x, y),
        (Expr::BitNot(x), Expr::BitNot(y)) => expr_eq(x, y),
        _ => false,
    }
}

/// Whether two sequences of expressions are the same.
pub fn exprs_eq(a: &Vec<Expr>, b: &Vec<Expr>) -> (r: bool)
    ensures
        r == (view_exprs(a@) == view_exprs(b@)),
    decreases a,
{
    proof {
        lemma_view_exprs(a@);
        lemma_view_exprs(b@);
    }
    if a.len() != b.len() {
        return false;
    }
    let mut i: usize = 0;
    while i < a.len()
        invariant
            i <= a.len() == b.len(),
            view_exprs(a@).len() == a.len(),
            view_exprs(b@).len() == b.len(),
            forall|k: int| 0 <= k < a.len() ==> #[trigger] view_exprs(a@)[k] == a@[k].view(),
            forall|k: int| 0 <= k < b.len() ==> #[trigger] view_exprs(b@)[k] == b@[k].view(),
            forall|k: int| 0 <= k < i ==> #[trigger] a@[k].view() == b@[k].view(),
        decreases a.len() - i,
    {
        if !expr_eq(&a[i], &b[i]) {
            assert(view_exprs(a@)[i as int] != view_exprs(b@)[i as int]);
            return false;
        }
        i += 1;
    }
    assert(view_exprs(a@) =~= view_exprs(b@));
    true
}

fn opt_expr_eq(a: &Option<Expr>, b: &Option<Expr>) -> (r: bool)
    ensures
        r == (view_opt_expr(*a) == view_opt_expr(*b)),
{
    match (a, b) {
        (Some(x), Some(y)) => expr_eq(x, y),
        (None, None) => true,
        _ => false,
    }
}

fn target_eq(a: &AssignTarget, b: &AssignTarget) -> (r: bool)
    ensures
        r == (a.view() == b.view()),
{
    str_eq(&a.name, &b.name) && a.source_line == b.source_line && a.col == b.col
}

/// Whether two statements are the same tree.
pub fn stmt_eq(a: &Stmt, b: &Stmt) -> (r: bool)
    ensures
        r == (a.view() == b.view()),
    decreases a,
{
    match (a, b) {
        (
            Stmt::Assign { target: t1, value: v1, source_line: l1 },
            Stmt::Assign { target: t2, value: v2, source_line: l2 },
        ) => target_eq(t1, t2) && expr_eq(v1, v2) && *l1 == *l2,
        (
            Stmt::Let { name: n1, value: v1, source_line: l1 },
            Stmt::Let { name: n2, value: v2, source_line: l2 },
        ) => str_eq(n1, n2) && expr_eq(v1, v2) && *l1 == *l2,
        (
            Stmt::For { var: x1, start: s1, end: e1, step: p1, body: b1, source_line: l1 },
            Stmt::For { var: x2, start: s2, end: e2, step: p2, body: b2, source_line: l2 },
        ) => str_eq(x1, x2) && expr_eq(s1, s2) && expr_eq(e1, e2) && opt_expr_eq(p1, p2)
            && stmts_eq(b1, b2) && *l1 == *l2,
        (
            Stmt::While { cond: c1, body: b1, source_line: l1 },
            Stmt::While { cond: c2, body: b2, source_line: l2 },
        ) => expr_eq(c1, c2) && stmts_eq(b1, b2) && *l1 == *l2,
        (Stmt::Break { source_line: l1 }, Stmt::Break { source_line: l2 }) => *l1 == *l2,
        (Stmt::Continue { source_line: l1 }, Stmt::Continue { source_line: l2 }) => *l1 == *l2,
        (Stmt::Expr(e1, l1), Stmt::Expr(e2, l2)) => expr_eq(e1, e2) && *l1 == *l2,
        (
            Stmt::If { cond: c1, body: b1, elifs: f1, else_body: x1, source_line: l1 },
            Stmt::If { cond: c2, body: b2, elifs: f2, else_body: x2, source_line: l2 },
        ) => expr_eq(c1, c2) && stmts_eq(b1, b2) && arms_eq(f1, f2) && opt_stmts_eq(x1, x2)
            && *l1 == *l2,
        (
            Stmt::Switch { expr: e1, cases: c1, default: d1, source_line: l1 },
            Stmt::Switch { expr: e2, cases: c2, default: d2, source_line: l2 },
        ) => expr_eq(e1, e2) && arms_eq(c1, c2) && opt_stmts_eq(d1, d2) && *l1 == *l2,
        (Stmt::Return(o1, l1), Stmt::Return(o2, l2)) => opt_expr_eq(o1, o2) && *l1 == *l2,
        (
            Stmt::CompoundAssign { target: t1, op: o1, value: v1, source_line: l1 },
            Stmt::CompoundAssign { target: t2, op: o2, value: v2, source_line: l2 },
        ) => target_eq(t1, t2) && *o1 == *o2 && expr_eq(v1, v2) && *l1 == *l2,
        _ => false,
    }
}

fn opt_stmts_eq(a: &Option<Vec<Stmt>>, b: &Option<Vec<Stmt>>) -> (r: bool)
    ensures
        r == ((match *a {
            Some(x) => Some(view_stmts(x@)),
            None => None,
        }) == (match *b {
            Some(x) => Some(view_stmts(x@)),
            None => None,
        })),
    decreases a,
{
    match (a, b) {
        (Some(x), Some(y)) => stmts_eq(x, y),
        (None, None) => true,
        _ => false,
    }
}

/// Whether two sequences of statements are the same.
pub fn stmts_eq(a: &Vec<Stmt>, b: &Vec<Stmt>) -> (r: bool)
    ensures
        r == (view_stmts(a@) == view_stmts(b@)),
    decreases a,
{
    proof {
        lemma_view_stmts(a@);
        lemma_view_stmts(b@);
    }
    if a.len() != b.len() {
        return false;
    }
    let mut i: usize = 0;
    while i < a.len()
        invariant
            i <= a.len() == b.len(),
            view_stmts(a@).len() == a.len(),
            view_stmts(b@).len() == b.len(),
            forall|k: int| 0 <= k < a.len() ==> #[trigger] view_stmts(a@)[k] == a@[k].view(),
            forall|k: int| 0 <= k < b.len() ==> #[trigger] view_stmts(b@)[k] == b@[k].view(),
            forall|k: int| 0 <= k < i ==> #[trigger] a@[k].view() == b@[k].view(),
        decreases a.len() - i,
    {
        if !stmt_eq(&a[i], &b[i]) {
            assert(view_stmts(a@)[i as int] != view_stmts(b@)[i as int]);
            return false;
        }
        i += 1;
    }
    assert(view_stmts(a@) =~= view_stmts(b@));
    true
}

/// Whether two sequences of guarded arms are the same.
pub fn arms_eq(a: &Vec<(Expr, Vec<Stmt>)>, b: &Vec<(Expr, Vec<Stmt>)>) -> (r: bool)
    ensures
        r == (view_arms(a@) == view_arms(b@)),
    decreases a,
{
    proof {
        lemma_view_arms(a@);
        lemma_view_arms(b@);
    }
    if a.len() != b.len() {
        return false;
    }
    let mut i: usize = 0;
    while i < a.len()
        invariant
            i <= a.len() == b.len(),
            view_arms(a@).len() == a.len(),
            view_arms(b@).len() == b.len(),
            forall|k: int|
                0 <= k < a.len() ==> #[trigger] view_arms(a@)[k] == (a@[k].0.view(), view_stmts(
                    a@[k].1@,
                )),
            forall|k: int|
                0 <= k < b.len() ==> #[trigger] view_arms(b@)[k] == (b@[k].0.view(), view_stmts(
                    b@[k].1@,
                )),
            forall|k: int| 0 <= k < i ==> #[trigger] view_arms(a@)[k] == view_arms(b@)[k],
        decreases a.len() - i,
    {
        let same = expr_eq(&a[i].0, &b[i].0) && stmts_eq(&a[i].1, &b[i].1);
        if !same {
            assert(view_arms(a@)[i as int] != view_arms(b@)[i as int]);
            return false;
        }
        i += 1;
    }
    assert(view_arms(a@) =~= view_arms(b@));
    true
}

fn strings_eq(a: &Vec<String>, b: &Vec<String>) -> (r: bool)
    ensures
        r == (sviews(a@) == sviews(b@)),
{
    if a.len() != b.len() {
        assert(sviews(a@).len() != sviews(b@).len());
        return false;
    }
    let mut i: usize = 0;
    while i < a.len()
        invariant
            i <= a.len() == b.len(),
            forall|k: int| 0 <= k < i ==> #[trigger] a@[k]@ == b@[k]@,
        decreases a.len() - i,
    {
        if !str_eq(&a[i], &b[i]) {
            assert(sviews(a@)[i as int] != sviews(b@)[i as int]);
            return false;
        }
        i += 1;
    }
    assert(sviews(a@) =~= sviews(b@));
    true
}

fn vl_entry_eq(a: &VlEntry, b: &VlEntry) -> (r: bool)
    ensures
        r == (a.view() == b.view()),
{
    match (a, b) {
        (VlEntry::Intensity(x), VlEntry::Intensity(y)) => *x == *y,
        (VlEntry::Origin, VlEntry::Origin) => true,
        (VlEntry::Move(x1, y1), VlEntry::Move(x2, y2)) => *x1 == *x2 && *y1 == *y2,
        (VlEntry::Rect(a1, b1, c1, d1), VlEntry::Rect(a2, b2, c2, d2)) => *a1 == *a2 && *b1
            == *b2 && *c1 == *c2 && *d1 == *d2,
        (VlEntry::Polygon(p), VlEntry::Polygon(q)) => points_eq(p, q),
        (
            VlEntry::Circle { cx: a1, cy: b1, r: c1, segs: d1 },
            VlEntry::Circle { cx: a2, cy: b2, r: c2, segs: d2 },
        ) => *a1 == *a2 && *b1 == *b2 && *c1 == *c2 && *d1 == *d2,
        (
            VlEntry::Arc { cx: a1, cy: b1, r: c1, start_deg: d1, sweep_deg: e1, segs: f1 },
            VlEntry::Arc { cx: a2, cy: b2, r: c2, start_deg: d2, sweep_deg: e2, segs: f2 },
        ) => *a1 == *a2 && *b1 == *b2 && *c1 == *c2 && *d1 == *d2 && *e1 == *e2 && *f1 == *f2,
        (
            VlEntry::Spiral { cx: a1, cy: b1, r_start: c1, r_end: d1, turns: e1, segs: f1 },
            VlEntry::Spiral { cx: a2, cy: b2, r_start: c2, r_end: d2, turns: e2, segs: f2 },
        ) => *a1 == *a2 && *b1 == *b2 && *c1 == *c2 && *d1 == *d2 && *e1 == *e2 && *f1 == *f2,
        _ => false,
    }
}

fn points_eq(p: &Vec<(i32, i32)>, q: &Vec<(i32, i32)>) -> (r: bool)
    ensures
        r == (p@ == q@),
{
    if p.len() != q.len() {
        return false;
    }
    let mut i: usize = 0;
    while i < p.len()
        invariant
            i <= p.len() == q.len(),
            forall|k: int| 0 <= k < i ==> #[trigger] p@[k] == q@[k],
        decreases p.len() - i,
    {
        if p[i].0 != q[i].0 || p[i].1 != q[i].1 {
            assert(p@[i as int] != q@[i as int]);
            return false;
        }
        i += 1;
    }
    assert(p@ =~= q@);
    true
}

fn vl_entries_eq(e1: &Vec<VlEntry>, e2: &Vec<VlEntry>) -> (r: bool)
    ensures
        r == (e1@.map_values(|e: VlEntry| e.view()) == e2@.map_values(|e: VlEntry| e.view())),
{
    let ghost v1 = e1@.map_values(|e: VlEntry| e.view());
    let ghost v2 = e2@.map_values(|e: VlEntry| e.view());
    if e1.len() != e2.len() {
        assert(v1.len() != v2.len());
        return false;
    }
    let mut i: usize = 0;
    while i < e1.len()
        invariant
            i <= e1.len() == e2.len(),
            v1 == e1@.map_values(|e: VlEntry| e.view()),
            v2 == e2@.map_values(|e: VlEntry| e.view()),
            forall|k: int| 0 <= k < i ==> #[trigger] v1[k] == v2[k],
        decreases e1.len() - i,
    {
        if !vl_entry_eq(&e1[i], &e2[i]) {
            assert(v1[i as int] != v2[i as int]);
            return false;
        }
        i += 1;
    }
    assert(v1 =~= v2);
    true
}

/// Whether two top-level items are the same.
pub fn item_eq(a: &Item, b: &Item) -> (r: bool)
    ensures
        r == (a.view() == b.view()),
{
    match (a, b) {
        (Item::Function(f), Item::Function(g)) => str_eq(&f.name, &g.name) && f.line == g.line
            && strings_eq(&f.params, &g.params) && stmts_eq(&f.body, &g.body),
        (
            Item::Const { name: n1, value: v1, source_line: l1 },
            Item::Const { name: n2, value: v2, source_line: l2 },
        ) => str_eq(n1, n2) && expr_eq(v1, v2) && *l1 == *l2,
        (
            Item::GlobalLet { name: n1, value: v1, source_line: l1 },
            Item::GlobalLet { name: n2, value: v2, source_line: l2 },
        ) => str_eq(n1, n2) && expr_eq(v1, v2) && *l1 == *l2,
        (
            Item::VectorList { name: n1, entries: e1 },
            Item::VectorList { name: n2, entries: e2 },
        ) => str_eq(n1, n2) && vl_entries_eq(e1, e2),
        (Item::ExprStatement(x), Item::ExprStatement(y)) => expr_eq(x, y),
        _ => false,
    }
}

fn meta_eq(a: &ModuleMeta, b: &ModuleMeta) -> (r: bool)
    ensures
        r == (a.view() == b.view()),
{
    let ghost va = a.metas@.map_values(|p: (String, String)| (p.0@, p.1@));
    let ghost vb = b.metas@.map_values(|p: (String, String)| (p.0@, p.1@));
    if !opt_string_eq(&a.title_override, &b.title_override) || !opt_string_eq(
        &a.music_override,
        &b.music_override,
    ) || !opt_string_eq(&a.copyright_override, &b.copyright_override) {
        return false;
    }
    if a.metas.len() != b.metas.len() {
        assert(va.len() != vb.len());
        return false;
    }
    let mut i: usize = 0;
    while i < a.metas.len()
        invariant
            i <= a.metas.len() == b.metas.len(),
            va == a.metas@.map_values(|p: (String, String)| (p.0@, p.1@)),
            vb == b.metas@.map_values(|p: (String, String)| (p.0@, p.1@)),
            forall|k: int| 0 <= k < i ==> #[trigger] va[k] == vb[k],
        decreases a.metas.len() - i,
    {
        if !str_eq(&a.metas[i].0, &b.metas[i].0) || !str_eq(&a.metas[i].1, &b.metas[i].1) {
            assert(va[i as int] != vb[i as int]);
            return false;
        }
        i += 1;
    }
    assert(va =~= vb);
    true
}

/// Whether two modules are the same.
pub fn module_eq(a: &Module, b: &Module) -> (r: bool)
    ensures
        r == (a.view() == b.view()),
{
    let ghost va = a.items@.map_values(|i: Item| i.view());
    let ghost vb = b.items@.map_values(|i: Item| i.view());
    if !meta_eq(&a.meta, &b.meta) {
        return false;
    }
    if a.items.len() != b.items.len() {
        assert(va.len() != vb.len());
        return false;
    }
    let mut i: usize = 0;
    while i < a.items.len()
        invariant
            i <= a.items.len() == b.items.len(),
            va == a.items@.map_values(|i: Item| i.view()),
            vb == b.items@.map_values(|i: Item| i.view()),
            forall|k: int| 0 <= k < i ==> #[trigger] va[k] == vb[k],
        decreases a.items.len() - i,
    {
        if !item_eq(&a.items[i], &b.items[i]) {
            assert(va[i as int] != vb[i as int]);
            return false;
        }
        i += 1;
    }
    assert(va =~= vb);
    true
}

// ---------------------------------------------------------------------------
// Trees without compound assignments
// ---------------------------------------------------------------------------

/// No compound assignment occurs in the statement or its nested bodies.
pub open spec fn compound_free(s: StmtM) -> bool
    decreases s,
{
    match s {
        StmtM::CompoundAssign(..) => false,
        StmtM::For(_, _, _, _, b, _) => compound_free_all(b),
        StmtM::While(_, b, _) => compound_free_all(b),
        StmtM::If(_, b, elifs, els, _) => compound_free_all(b) && compound_free_arms(elifs) && (
        match els {
            Some(eb) => compound_free_all(eb),
            None => true,
        }),
        StmtM::Switch(_, cases, def, _) => compound_free_arms(cases) && (match def {
            Some(db) => compound_free_all(db),
            None => true,
        }),
        _ => true,
    }
}

/// No compound assignment occurs in the statements.
pub open spec fn compound_free_all(s: Seq<StmtM>) -> bool
    decreases s,
{
    if s.len() == 0 {
        true
    } else {
        compound_free_all(s.drop_last()) && compound_free(s.last())
    }
}

/// No compound assignment occurs in the bodies of the arms.
pub open spec fn compound_free_arms(s: Seq<(ExprM, Seq<StmtM>)>) -> bool
    decreases s,
{
    if s.len() == 0 {
        true
    } else {
        compound_free_arms(s.drop_last()) && compound_free_all(s.last().1)
    }
}

/// No compound assignment occurs in any function body of the module.
pub open spec fn module_compound_free(m: ModuleM) -> bool {
    forall|i: int|
        0 <= i < m.items.len() ==> (#[trigger] m.items[i] matches ItemM::Function(f)
            ==> compound_free_all(f.body))
}

pub proof fn lemma_compound_free_take(s: Seq<StmtM>, i: int)
    requires
        compound_free_all(s),
        0 <= i <= s.len(),
    ensures
        compound_free_all(s.take(i)),
        i < s.len() ==> compound_free(s[i]),
    decreases s.len(),
{
    if i < s.len() {
        assert(s.drop_last().take(i) =~= s.take(i));
        if i < s.len() - 1 {
            lemma_compound_free_take(s.drop_last(), i);
        } else {
            assert(s.take(i) =~= s.drop_last());
        }
    } else {
        assert(s.take(i) =~= s);
    }
}

pub proof fn lemma_compound_free_arms_take(s: Seq<(ExprM, Seq<StmtM>)>, i: int)
    requires
        compound_free_arms(s),
        0 <= i < s.len(),
    ensures
        compound_free_all(s[i].1),
    decreases s.len(),
{
    if i < s.len() - 1 {
        lemma_compound_free_arms_take(s.drop_last(), i);
    }
}

} // verus!
