//! The string literals of a module, their labels, and their escaping for
//! the assembler.

use vstd::prelude::*;
use crate::ast::{
    Expr, ExprM, Item, ItemM, Module, Stmt, StmtM, compound_free, compound_free_all,
    compound_free_arms, lemma_compound_free_arms_take, lemma_compound_free_take,
    lemma_view_arms, lemma_view_arms_take, lemma_view_exprs_take, lemma_view_stmts,
    lemma_view_stmts_take, module_compound_free, sviews, view_arms, view_exprs, view_stmts,
};
use crate::strset::{set_insert, set_of, sorted};
use crate::text::{dec, hex, push_char, push_dec, push_hex, push_str};

verus! {

// ---------------------------------------------------------------------------
// The literals of a tree
// ---------------------------------------------------------------------------

/// The string literals of an expression.
pub open spec fn expr_strings(e: ExprM) -> Set<Seq<char>>
    decreases e,
{
    match e {
        ExprM::StringLit(s) => set![s],
        ExprM::Binary(_, l, r) => expr_strings(*l) + expr_strings(*r),
        ExprM::Compare(_, l, r) => expr_strings(*l) + expr_strings(*r),
        ExprM::Logic(_, l, r) => expr_strings(*l) + expr_strings(*r),
        ExprM::Call(_, _, _, args) => exprs_strings(args),
        ExprM::Not(x) => expr_strings(*x),
        ExprM::BitNot(x) => expr_strings(*x),
        _ => Set::empty(),
    }
}

/// The string literals of a sequence of expressions.
pub open spec fn exprs_strings(s: Seq<ExprM>) -> Set<Seq<char>>
    decreases s,
{
    if s.len() == 0 {
        Set::empty()
    } else {
        exprs_strings(s.drop_last()) + expr_strings(s.last())
    }
}

/// The string literals of an optional expression.
pub open spec fn opt_strings(o: Option<ExprM>) -> Set<Seq<char>> {
    match o {
        Some(e) => expr_strings(e),
        None => Set::empty(),
    }
}

/// The string literals of a statement: of all its expressions and nested
/// bodies.
pub open spec fn stmt_strings(s: StmtM) -> Set<Seq<char>>
    decreases s,
{
    match s {
        StmtM::Assign(_, v, _) => expr_strings(v),
        StmtM::Let(_, v, _) => expr_strings(v),
        StmtM::Expr(v, _) => expr_strings(v),
        StmtM::While(c, b, _) => expr_strings(c) + stmts_strings(b),
        StmtM::For(_, st, en, step, b, _) => expr_strings(st) + expr_strings(en) + opt_strings(
            step,
        ) + stmts_strings(b),
        StmtM::If(c, b, elifs, els, _) => expr_strings(c) + stmts_strings(b) + arms_strings(elifs)
            + (match els {
            Some(eb) => stmts_strings(eb),
            None => Set::empty(),
        }),
        StmtM::Return(o, _) => opt_strings(o),
        StmtM::Switch(e, cases, def, _) => expr_strings(e) + arms_strings(cases) + (match def {
            Some(db) => stmts_strings(db),
            None => Set::empty(),
        }),
        _ => Set::empty(),
    }
}

/// The string literals of a sequence of statements.
pub open spec fn stmts_strings(s: Seq<StmtM>) -> Set<Seq<char>>
    decreases s,
{
    if s.len() == 0 {
        Set::empty()
    } else {
        stmts_strings(s.drop_last()) + stmt_strings(s.last())
    }
}

/// The string literals of guarded arms.
pub open spec fn arms_strings(s: Seq<(ExprM, Seq<StmtM>)>) -> Set<Seq<char>>
    decreases s,
{
    if s.len() == 0 {
        Set::empty()
    } else {
        arms_strings(s.drop_last()) + expr_strings(s.last().0) + stmts_strings(s.last().1)
    }
}

/// The string literals of an item: of function bodies, constants, globals
/// and top-level expressions.
pub open spec fn item_strings(i: ItemM) -> Set<Seq<char>> {
    match i {
        ItemM::Function(f) => stmts_strings(f.body),
        ItemM::Const(_, v, _) => expr_strings(v),
        ItemM::GlobalLet(_, v, _) => expr_strings(v),
        ItemM::ExprStatement(e) => expr_strings(e),
        _ => Set::empty(),
    }
}

/// The string literals of the items of a module.
pub open spec fn items_strings(s: Seq<ItemM>) -> Set<Seq<char>>
    decreases s,
{
    if s.len() == 0 {
        Set::empty()
    } else {
        items_strings(s.drop_last()) + item_strings(s.last())
    }
}

/// The label of the literal at position `i` in ascending order.
pub open spec fn literal_label(i: nat) -> Seq<char> {
    seq!['S', 'T', 'R', '_'] + dec(i)
}

fn gather_expr_strings(expr: &Expr, set: &mut Vec<String>)
    requires
        sorted(sviews(old(set)@)),
    ensures
        sorted(sviews(final(set)@)),
        set_of(final(set)@) == set_of(old(set)@) + expr_strings(expr.view()),
    decreases expr,
{
    match expr {
        Expr::StringLit(s) => {
            set_insert(set, s.clone());
        },
        Expr::Binary { left, right, .. } | Expr::Compare { left, right, .. } | Expr::Logic {
            left,
            right,
            ..
        } => {
            gather_expr_strings(left, set);
            gather_expr_strings(right, set);
        },
        Expr::Call(ci) => {
            gather_exprs_strings(&ci.args, set);
        },
        Expr::Not(inner) | Expr::BitNot(inner) => gather_expr_strings(inner, set),
        Expr::Ident(_) | Expr::Number(_) => {},
    }
    assert(set_of(set@) =~= set_of(old(set)@) + expr_strings(expr.view()));
}

fn gather_exprs_strings(v: &Vec<Expr>, set: &mut Vec<String>)
    requires
        sorted(sviews(old(set)@)),
    ensures
        sorted(sviews(final(set)@)),
        set_of(final(set)@) == set_of(old(set)@) + exprs_strings(view_exprs(v@)),
    decreases v,
{
    let mut i: usize = 0;
    assert(v@.take(0) =~= Seq::<Expr>::empty());
    assert(set_of(set@) =~= set_of(old(set)@) + exprs_strings(view_exprs(v@.take(0))));
    while i < v.len()
        invariant
            i <= v.len(),
            sorted(sviews(set@)),
            set_of(set@) == set_of(old(set)@) + exprs_strings(view_exprs(v@.take(i as int))),
        decreases v.len() - i,
    {
        proof {
            lemma_view_exprs_take(v@, i as int);
            assert(view_exprs(v@.take(i + 1)).drop_last() =~= view_exprs(v@.take(i as int)));
        }
        gather_expr_strings(&v[i], set);
        i += 1;
        assert(set_of(set@) =~= set_of(old(set)@) + exprs_strings(view_exprs(v@.take(i as int))));
    }
    assert(v@.take(v.len() as int) =~= v@);
}

fn gather_opt_strings(o: &Option<Expr>, set: &mut Vec<String>)
    requires
        sorted(sviews(old(set)@)),
    ensures
        sorted(sviews(final(set)@)),
        set_of(final(set)@) == set_of(old(set)@) + opt_strings(crate::ast::view_opt_expr(*o)),
{
    if let Some(e) = o {
        gather_expr_strings(e, set);
    } else {
        assert(set_of(set@) =~= set_of(old(set)@) + Set::<Seq<char>>::empty());
    }
}

fn gather_stmt_strings(stmt: &Stmt, set: &mut Vec<String>)
    requires
        sorted(sviews(old(set)@)),
        compound_free(stmt.view()),
    ensures
        sorted(sviews(final(set)@)),
        set_of(final(set)@) == set_of(old(set)@) + stmt_strings(stmt.view()),
    decreases stmt,
{
    match stmt {
        Stmt::Assign { value, .. } | Stmt::Let { value, .. } => gather_expr_strings(value, set),
        Stmt::Expr(value, _) => gather_expr_strings(value, set),
        Stmt::While { cond, body, .. } => {
            gather_expr_strings(cond, set);
            gather_stmts_strings(body, set);
        },
        Stmt::For { start, end, step, body, .. } => {
            gather_expr_strings(start, set);
            gather_expr_strings(end, set);
            gather_opt_strings(step, set);
            gather_stmts_strings(body, set);
        },
        Stmt::If { cond, body, elifs, else_body, .. } => {
            gather_expr_strings(cond, set);
            gather_stmts_strings(body, set);
            gather_arms_strings(elifs, set);
            if let Some(eb) = else_body {
                gather_stmts_strings(eb, set);
            }
        },
        Stmt::Return(o, _) => gather_opt_strings(o, set),
        Stmt::Switch { expr, cases, default, .. } => {
            gather_expr_strings(expr, set);
            gather_arms_strings(cases, set);
            if let Some(db) = default {
                gather_stmts_strings(db, set);
            }
        },
        _ => {},
    }
    assert(set_of(set@) =~= set_of(old(set)@) + stmt_strings(stmt.view()));
}

fn gather_stmts_strings(v: &Vec<Stmt>, set: &mut Vec<String>)
    requires
        sorted(sviews(old(set)@)),
        compound_free_all(view_stmts(v@)),
    ensures
        sorted(sviews(final(set)@)),
        set_of(final(set)@) == set_of(old(set)@) + stmts_strings(view_stmts(v@)),
    decreases v,
{
    let mut i: usize = 0;
    assert(v@.take(0) =~= Seq::<Stmt>::empty());
    assert(set_of(set@) =~= set_of(old(set)@) + stmts_strings(view_stmts(v@.take(0))));
    while i < v.len()
        invariant
            i <= v.len(),
            sorted(sviews(set@)),
            set_of(set@) == set_of(old(set)@) + stmts_strings(view_stmts(v@.take(i as int))),
            compound_free_all(view_stmts(v@)),
        decreases v.len() - i,
    {
        proof {
            lemma_view_stmts_take(v@, i as int);
            assert(view_stmts(v@.take(i + 1)).drop_last() =~= view_stmts(v@.take(i as int)));
            lemma_view_stmts(v@);
            lemma_compound_free_take(view_stmts(v@), i as int);
        }
        gather_stmt_strings(&v[i], set);
        i += 1;
        assert(set_of(set@) =~= set_of(old(set)@) + stmts_strings(view_stmts(v@.take(i as int))));
    }
    assert(v@.take(v.len() as int) =~= v@);
}

fn gather_arms_strings(v: &Vec<(Expr, Vec<Stmt>)>, set: &mut Vec<String>)
    requires
        sorted(sviews(old(set)@)),
        compound_free_arms(view_arms(v@)),
    ensures
        sorted(sviews(final(set)@)),
        set_of(final(set)@) == set_of(old(set)@) + arms_strings(view_arms(v@)),
    decreases v,
{
    let mut i: usize = 0;
    assert(v@.take(0) =~= Seq::<(Expr, Vec<Stmt>)>::empty());
    assert(set_of(set@) =~= set_of(old(set)@) + arms_strings(view_arms(v@.take(0))));
    while i < v.len()
        invariant
            i <= v.len(),
            sorted(sviews(set@)),
            set_of(set@) == set_of(old(set)@) + arms_strings(view_arms(v@.take(i as int))),
            compound_free_arms(view_arms(v@)),
        decreases v.len() - i,
    {
        proof {
            lemma_view_arms_take(v@, i as int);
            assert(view_arms(v@.take(i + 1)).drop_last() =~= view_arms(v@.take(i as int)));
            lemma_view_arms(v@);
            lemma_compound_free_arms_take(view_arms(v@), i as int);
        }
        gather_expr_strings(&v[i].0, set);
        gather_stmts_strings(&v[i].1, set);
        i += 1;
        assert(set_of(set@) =~= set_of(old(set)@) + arms_strings(view_arms(v@.take(i as int))));
    }
    assert(v@.take(v.len() as int) =~= v@);
}

/// The string literals of a module, each once and in ascending order,
/// paired with their labels `STR_0`, `STR_1`, ... The function bodies
/// must be free of compound assignments, which folding rewrites.
pub fn collect_string_literals(module: &Module) -> (r: Vec<(String, String)>)
    requires
        module_compound_free(module.view()),
    ensures
        sorted(r@.map_values(|p: (String, String)| p.0@)),
        r@.map_values(|p: (String, String)| p.0@).to_set() == items_strings(module.view().items),
        forall|i: int| 0 <= i < r.len() ==> #[trigger] r@[i].1@ == literal_label(i as nat),
{
    let ghost items = module.view().items;
    let mut set: Vec<String> = Vec::new();
    assert(set_of(set@) =~= Set::<Seq<char>>::empty());
    assert(items.take(0) =~= Seq::<ItemM>::empty());
    let mut i: usize = 0;
    while i < module.items.len()
        invariant
            i <= module.items.len(),
            items == module.view().items,
            items.len() == module.items.len(),
            sorted(sviews(set@)),
            set_of(set@) == items_strings(items.take(i as int)),
            module_compound_free(module.view()),
        decreases module.items.len() - i,
    {
        proof {
            assert(items.take(i + 1).drop_last() =~= items.take(i as int));
            assert(items.take(i + 1).last() == module.items@[i as int].view());
        }
        let ghost before = set_of(set@);
        proof {
            assert(module.view().items[i as int] == module.items@[i as int].view());
        }
        match &module.items[i] {
            Item::Function(f) => gather_stmts_strings(&f.body, &mut set),
            Item::Const { value, .. } => gather_expr_strings(value, &mut set),
            Item::ExprStatement(expr) => gather_expr_strings(expr, &mut set),
            Item::GlobalLet { value, .. } => gather_expr_strings(value, &mut set),
            _ => {
                assert(set_of(set@) =~= before + Set::<Seq<char>>::empty());
            },
        }
        i += 1;
    }
    assert(items.take(module.items.len() as int) =~= items);
    let mut map: Vec<(String, String)> = Vec::new();
    let mut k: usize = 0;
    while k < set.len()
        invariant
            k <= set.len(),
            map.len() == k,
            forall|j: int| 0 <= j < k ==> (#[trigger] map@[j]).0@ == set@[j]@,
            forall|j: int| 0 <= j < k ==> (#[trigger] map@[j]).1@ == literal_label(j as nat),
        decreases set.len() - k,
    {
        let mut label = String::new();
        proof {
            reveal_strlit("STR_");
        }
        push_str(&mut label, "STR_");
        push_dec(&mut label, k as u64);
        map.push((set[k].clone(), label));
        k += 1;
    }
    assert(map@.map_values(|p: (String, String)| p.0@) =~= sviews(set@));
    map
}

// ---------------------------------------------------------------------------
// Escaping
// ---------------------------------------------------------------------------

/// The escaped form of one byte: a quote and a backslash get a backslash,
/// printable ASCII stays, and any other byte becomes `\xHH` in upper-case
/// hexadecimal.
pub open spec fn escape_byte(b: u8) -> Seq<char> {
    if b == 0x22 {
        seq!['\\', '"']
    } else if b == 0x5C {
        seq!['\\', '\\']
    } else if 0x20 <= b <= 0x7E {
        seq![b as char]
    } else {
        seq!['\\', 'x'] + hex(b as nat, 2)
    }
}

/// The escaped forms of a sequence of bytes, in order.
pub open spec fn escape_bytes(bs: Seq<u8>) -> Seq<char>
    decreases bs,
{
    if bs.len() == 0 {
        Seq::empty()
    } else {
        escape_bytes(bs.drop_last()) + escape_byte(bs.last())
    }
}

/// Every character of an escaped text is printable ASCII (`0x20`-`0x7E`).
pub proof fn lemma_escape_printable(bs: Seq<u8>)
    ensures
        forall|i: int|
            0 <= i < escape_bytes(bs).len() ==> 0x20 <= (#[trigger] escape_bytes(bs)[i]) as u32
                <= 0x7E,
    decreases bs,
{
    if bs.len() > 0 {
        lemma_escape_printable(bs.drop_last());
        let b = bs.last();
        let t = escape_bytes(bs.drop_last());
        let e = escape_byte(b);
        crate::text::lemma_hex_chars(b as nat, 2);
        assert forall|i: int| 0 <= i < e.len() implies 0x20 <= (#[trigger] e[i]) as u32 <= 0x7E by {
            if !(b == 0x22 || b == 0x5C || (0x20 <= b <= 0x7E)) && i >= 2 {
                assert(e[i] == hex(b as nat, 2)[i - 2]);
            }
        }
        assert forall|i: int| 0 <= i < escape_bytes(bs).len() implies 0x20 <= (
        #[trigger] escape_bytes(bs)[i]) as u32 <= 0x7E by {
            if i < t.len() {
                assert(escape_bytes(bs)[i] == t[i]);
            } else {
                assert(escape_bytes(bs)[i] == e[i - t.len()]);
            }
        }
    }
}

/// Escape the UTF-8 bytes of a text for an assembler string.
pub fn escape_ascii(s: &str) -> (out: String)
    ensures
        out@ == escape_bytes(vstd::utf8::encode_utf8(s@)),
{
    let bytes = s.as_bytes();
    let mut out = String::new();
    let mut i: usize = 0;
    assert(bytes@.take(0) =~= Seq::<u8>::empty());
    while i < bytes.len()
        invariant
            i <= bytes.len(),
            bytes@ == vstd::utf8::encode_utf8(s@),
            out@ == escape_bytes(bytes@.take(i as int)),
        decreases bytes.len() - i,
    {
        let b = bytes[i];
        let ghost before = out@;
        if b == 0x22 {
            push_char(&mut out, '\\');
            push_char(&mut out, '"');
        } else if b == 0x5C {
            push_char(&mut out, '\\');
            push_char(&mut out, '\\');
        } else if 0x20 <= b && b <= 0x7E {
            push_char(&mut out, b as char);
        } else {
            push_char(&mut out, '\\');
            push_char(&mut out, 'x');
            push_hex(&mut out, b as u64, 2);
        }
        proof {
            assert(bytes@.take(i + 1).drop_last() =~= bytes@.take(i as int));
            assert(out@ =~= before + escape_byte(b));
        }
        i += 1;
    }
    assert(bytes@.take(bytes.len() as int) =~= bytes@);
    out
}

} // verus!
