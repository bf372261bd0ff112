//! Collection of the variables, globals and constants of a module.

use vstd::prelude::*;
use crate::ast::{Expr, ExprM, Item, ItemM, Module, Stmt, copy_expr, sviews};
use crate::backend::m6809::utils::{
    collect_expr_syms, collect_locals, collect_stmts_syms, expr_syms, stmts_lets, stmts_syms,
};
use crate::strset::{set_contains, set_insert, set_of, set_remove, sorted};

verus! {

/// The identifiers an item contributes to the variables of a module: those
/// a function body names, a global's name, and the identifiers of a
/// top-level expression.
pub open spec fn item_vars(i: ItemM) -> Set<Seq<char>> {
    match i {
        ItemM::Function(f) => stmts_syms(f.body),
        ItemM::GlobalLet(n, _, _) => set![n],
        ItemM::ExprStatement(e) => expr_syms(e),
        _ => Set::empty(),
    }
}

/// The identifiers the items of a module contribute.
pub open spec fn items_vars(s: Seq<ItemM>) -> Set<Seq<char>>
    decreases s,
{
    if s.len() == 0 {
        Set::empty()
    } else {
        items_vars(s.drop_last()) + item_vars(s.last())
    }
}

/// The names of the globals of a module.
pub open spec fn global_names(s: Seq<ItemM>) -> Set<Seq<char>>
    decreases s,
{
    if s.len() == 0 {
        Set::empty()
    } else {
        global_names(s.drop_last()) + match s.last() {
            ItemM::GlobalLet(n, _, _) => set![n],
            _ => Set::empty(),
        }
    }
}

/// The locals of the functions of a module: names a body declares with
/// `let` that are not globals.
pub open spec fn items_locals(s: Seq<ItemM>, globals: Set<Seq<char>>) -> Set<Seq<char>>
    decreases s,
{
    if s.len() == 0 {
        Set::empty()
    } else {
        items_locals(s.drop_last(), globals) + match s.last() {
            ItemM::Function(f) => stmts_lets(f.body).difference(globals),
            _ => Set::empty(),
        }
    }
}

/// The globals of a module with their initial values and lines, in order.
pub open spec fn global_lets(s: Seq<ItemM>) -> Seq<(Seq<char>, ExprM, usize)>
    decreases s,
{
    if s.len() == 0 {
        Seq::empty()
    } else {
        global_lets(s.drop_last()) + match s.last() {
            ItemM::GlobalLet(n, v, l) => seq![(n, v, l)],
            _ => Seq::empty(),
        }
    }
}

/// The constants of a module with their values and lines, in order.
pub open spec fn const_decls(s: Seq<ItemM>) -> Seq<(Seq<char>, ExprM, usize)>
    decreases s,
{
    if s.len() == 0 {
        Seq::empty()
    } else {
        const_decls(s.drop_last()) + match s.last() {
            ItemM::Const(n, v, l) => seq![(n, v, l)],
            _ => Seq::empty(),
        }
    }
}

/// The name and value of each triple.
pub open spec fn drop_lines(s: Seq<(Seq<char>, ExprM, usize)>) -> Seq<(Seq<char>, ExprM)> {
    s.map_values(|t: (Seq<char>, ExprM, usize)| (t.0, t.1))
}

/// The model of collected pairs.
pub open spec fn pairs_view(v: Seq<(String, Expr)>) -> Seq<(Seq<char>, ExprM)> {
    v.map_values(|p: (String, Expr)| (p.0@, p.1.view()))
}

/// The model of collected triples.
pub open spec fn triples_view(v: Seq<(String, Expr, usize)>) -> Seq<(Seq<char>, ExprM, usize)> {
    v.map_values(|p: (String, Expr, usize)| (p.0@, p.1.view(), p.2))
}

/// All variables of a module, in ascending order, each once.
pub fn collect_all_vars(module: &Module) -> (r: Vec<String>)
    ensures
        sorted(sviews(r@)),
        set_of(r@) == items_vars(module.view().items),
{
    let ghost items = module.view().items;
    let mut all_vars: Vec<String> = Vec::new();
    assert(set_of(all_vars@) =~= Set::<Seq<char>>::empty());
    assert(items.take(0) =~= Seq::<ItemM>::empty());
    let mut i: usize = 0;
    while i < module.items.len()
        invariant
            i <= module.items.len(),
            items == module.view().items,
            items.len() == module.items.len(),
            sorted(sviews(all_vars@)),
            set_of(all_vars@) == items_vars(items.take(i as int)),
        decreases module.items.len() - i,
    {
        proof {
            assert(items.take(i + 1).drop_last() =~= items.take(i as int));
            assert(items.take(i + 1).last() == module.items@[i as int].view());
        }
        let ghost before = set_of(all_vars@);
        match &module.items[i] {
            Item::Function(f) => collect_stmts_syms(&f.body, &mut all_vars),
            Item::GlobalLet { name, .. } => {
                set_insert(&mut all_vars, name.clone());
                assert(set_of(all_vars@) =~= before + set![name@]);
            },
            Item::ExprStatement(expr) => collect_expr_syms(expr, &mut all_vars),
            _ => {
                assert(set_of(all_vars@) =~= before + Set::<Seq<char>>::empty());
            },
        }
        i += 1;
    }
    assert(items.take(module.items.len() as int) =~= items);
    all_vars
}

/// The names of the globals, in ascending order, each once.
fn global_name_set(module: &Module) -> (r: Vec<String>)
    ensures
        sorted(sviews(r@)),
        set_of(r@) == global_names(module.view().items),
{
    let ghost items = module.view().items;
    let mut names: Vec<String> = Vec::new();
    assert(set_of(names@) =~= Set::<Seq<char>>::empty());
    assert(items.take(0) =~= Seq::<ItemM>::empty());
    let mut i: usize = 0;
    while i < module.items.len()
        invariant
            i <= module.items.len(),
            items == module.view().items,
            items.len() == module.items.len(),
            sorted(sviews(names@)),
            set_of(names@) == global_names(items.take(i as int)),
        decreases module.items.len() - i,
    {
        proof {
            assert(items.take(i + 1).drop_last() =~= items.take(i as int));
            assert(items.take(i + 1).last() == module.items@[i as int].view());
        }
        let ghost before = set_of(names@);
        if let Item::GlobalLet { name, .. } = &module.items[i] {
            set_insert(&mut names, name.clone());
            assert(set_of(names@) =~= before + set![name@]);
        } else {
            assert(set_of(names@) =~= before + Set::<Seq<char>>::empty());
        }
        i += 1;
    }
    assert(items.take(module.items.len() as int) =~= items);
    names
}

/// The variables of a module that are not locals of a function, in
/// ascending order, each once.
pub fn collect_symbols(module: &Module) -> (r: Vec<String>)
    ensures
        sorted(sviews(r@)),
        set_of(r@) == items_vars(module.view().items).difference(
            items_locals(module.view().items, global_names(module.view().items)),
        ),
{
    let ghost items = module.view().items;
    let globals_set = global_name_set(module);
    let ghost g = global_names(items);
    let mut symbols = collect_all_vars(module);
    let mut locals: Vec<String> = Vec::new();
    assert(set_of(locals@) =~= Set::<Seq<char>>::empty());
    assert(items.take(0) =~= Seq::<ItemM>::empty());
    let mut i: usize = 0;
    while i < module.items.len()
        invariant
            i <= module.items.len(),
            items == module.view().items,
            items.len() == module.items.len(),
            set_of(globals_set@) == g,
            sorted(sviews(locals@)),
            set_of(locals@) == items_locals(items.take(i as int), g),
        decreases module.items.len() - i,
    {
        proof {
            assert(items.take(i + 1).drop_last() =~= items.take(i as int));
            assert(items.take(i + 1).last() == module.items@[i as int].view());
        }
        let ghost before = set_of(locals@);
        if let Item::Function(f) = &module.items[i] {
            let ls = collect_locals(&f.body);
            let mut j: usize = 0;
            while j < ls.len()
                invariant
                    j <= ls.len(),
                    set_of(globals_set@) == g,
                    sorted(sviews(locals@)),
                    set_of(locals@) == before + sviews(ls@.take(j as int)).to_set().difference(
                        g,
                    ),
                decreases ls.len() - j,
            {
                let ghost b2 = set_of(locals@);
                if !set_contains(&globals_set, &ls[j]) {
                    set_insert(&mut locals, ls[j].clone());
                }
                proof {
                    assert(sviews(ls@.take(j + 1)) =~= sviews(ls@.take(j as int)).push(
                        ls@[j as int]@,
                    ));
                    crate::strset::lemma_push_to_set(sviews(ls@.take(j as int)), ls@[j as int]@);
                    assert(set_of(locals@) =~= before + sviews(ls@.take(j + 1)).to_set().difference(
                        g,
                    ));
                }
                j += 1;
            }
            assert(ls@.take(ls.len() as int) =~= ls@);
            assert(set_of(locals@) =~= before + stmts_lets(f.view().body).difference(g));
        } else {
            assert(set_of(locals@) =~= before + Set::<Seq<char>>::empty());
        }
        i += 1;
    }
    assert(items.take(module.items.len() as int) =~= items);
    let ghost all = set_of(symbols@);
    let mut k: usize = 0;
    while k < locals.len()
        invariant
            k <= locals.len(),
            sorted(sviews(symbols@)),
            set_of(symbols@) == all.difference(sviews(locals@.take(k as int)).to_set()),
        decreases locals.len() - k,
    {
        set_remove(&mut symbols, &locals[k]);
        proof {
            assert(sviews(locals@.take(k + 1)) =~= sviews(locals@.take(k as int)).push(
                locals@[k as int]@,
            ));
            crate::strset::lemma_push_to_set(sviews(locals@.take(k as int)), locals@[k as int]@);
            assert(set_of(symbols@) =~= all.difference(sviews(locals@.take(k + 1)).to_set()));
        }
        k += 1;
    }
    assert(locals@.take(locals.len() as int) =~= locals@);
    symbols
}

/// The globals of a module with their initial values, in order.
pub fn collect_global_vars(module: &Module) -> (r: Vec<(String, Expr)>)
    ensures
        pairs_view(r@) == drop_lines(global_lets(module.view().items)),
{
    let t = collect_global_vars_with_line(module);
    let mut vars: Vec<(String, Expr)> = Vec::new();
    let mut i: usize = 0;
    while i < t.len()
        invariant
            i <= t.len(),
            vars.len() == i,
            forall|k: int|
                0 <= k < i ==> (#[trigger] vars@[k]).0@ == t@[k].0@ && vars@[k].1.view() == t@[k].1.view(),
        decreases t.len() - i,
    {
        vars.push((t[i].0.clone(), copy_expr(&t[i].1)));
        i += 1;
    }
    assert(pairs_view(vars@) =~= drop_lines(triples_view(t@)));
    vars
}

/// The globals of a module with their initial values and source lines, in
/// order.
pub fn collect_global_vars_with_line(module: &Module) -> (r: Vec<(String, Expr, usize)>)
    ensures
        triples_view(r@) == global_lets(module.view().items),
{
    let ghost items = module.view().items;
    let mut vars: Vec<(String, Expr, usize)> = Vec::new();
    assert(items.take(0) =~= Seq::<ItemM>::empty());
    assert(triples_view(vars@) =~= global_lets(items.take(0)));
    let mut i: usize = 0;
    while i < module.items.len()
        invariant
            i <= module.items.len(),
            items == module.view().items,
            items.len() == module.items.len(),
            triples_view(vars@) == global_lets(items.take(i as int)),
        decreases module.items.len() - i,
    {
        proof {
            assert(items.take(i + 1).drop_last() =~= items.take(i as int));
            assert(items.take(i + 1).last() == module.items@[i as int].view());
        }
        let ghost before = triples_view(vars@);
        if let Item::GlobalLet { name, value, source_line } = &module.items[i] {
            vars.push((name.clone(), copy_expr(value), *source_line));
            assert(triples_view(vars@) =~= before + seq![(name@, value.view(), *source_line)]);
        } else {
            assert(triples_view(vars@) =~= before + Seq::<(Seq<char>, ExprM, usize)>::empty());
        }
        i += 1;
    }
    assert(items.take(module.items.len() as int) =~= items);
    vars
}

/// The constants of a module with their values, in order.
pub fn collect_const_vars(module: &Module) -> (r: Vec<(String, Expr)>)
    ensures
        pairs_view(r@) == drop_lines(const_decls(module.view().items)),
{
    let t = collect_const_vars_with_line(module);
    let mut consts: Vec<(String, Expr)> = Vec::new();
    let mut i: usize = 0;
    while i < t.len()
        invariant
            i <= t.len(),
            consts.len() == i,
            forall|k: int|
                0 <= k < i ==> (#[trigger] consts@[k]).0@ == t@[k].0@ && consts@[k].1.view() == t@[k].1.view(),
        decreases t.len() - i,
    {
        consts.push((t[i].0.clone(), copy_expr(&t[i].1)));
        i += 1;
    }
    assert(pairs_view(consts@) =~= drop_lines(triples_view(t@)));
    consts
}

/// The constants of a module with their values and source lines, in order.
pub fn collect_const_vars_with_line(module: &Module) -> (r: Vec<(String, Expr, usize)>)
    ensures
        triples_view(r@) == const_decls(module.view().items),
{
    let ghost items = module.view().items;
    let mut consts: Vec<(String, Expr, usize)> = Vec::new();
    assert(items.take(0) =~= Seq::<ItemM>::empty());
    assert(triples_view(consts@) =~= const_decls(items.take(0)));
    let mut i: usize = 0;
    while i < module.items.len()
        invariant
            i <= module.items.len(),
            items == module.view().items,
            items.len() == module.items.len(),
            triples_view(consts@) == const_decls(items.take(i as int)),
        decreases module.items.len() - i,
    {
        proof {
            assert(items.take(i + 1).drop_last() =~= items.take(i as int));
            assert(items.take(i + 1).last() == module.items@[i as int].view());
        }
        let ghost before = triples_view(consts@);
        if let Item::Const { name, value, source_line } = &module.items[i] {
            consts.push((name.clone(), copy_expr(value), *source_line));
            assert(triples_view(consts@) =~= before + seq![(name@, value.view(), *source_line)]);
        } else {
            assert(triples_view(consts@) =~= before + Seq::<(Seq<char>, ExprM, usize)>::empty());
        }
        i += 1;
    }
    assert(items.take(module.items.len() as int) =~= items);
    consts
}

/// The inline array literals of the function bodies, each with a label of
/// its own. The expressions of this syntax tree have no array literal, so
/// there are none.
pub fn collect_inline_array_literals(module: &Module) -> (r: Vec<(String, Vec<Expr>)>)
    ensures
        r@.len() == 0,
{
    Vec::new()
}

} // verus!
