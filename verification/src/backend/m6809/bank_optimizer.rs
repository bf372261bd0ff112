//! Placement of the program's functions into the banks of a multi-bank
//! cartridge, in the sequential model: the largest functions go first, each
//! into the first code bank that still has room for it, and the last bank of
//! the cartridge stays reserved for the runtime helpers.

use vstd::prelude::*;
use crate::text::{dec, push_dec, push_str, str_eq, string_from};

verus! {

/// The banking layout of the cartridge.
pub struct BankConfig {
    pub rom_bank_size: u32,
    pub rom_bank_count: u8,
}

impl BankConfig {
    /// The number of banks of the cartridge.
    pub fn num_banks(&self) -> (n: usize)
        ensures
            n == self.rom_bank_count,
    {
        self.rom_bank_count as usize
    }
}

/// A function of the program and the size of its code.
pub struct FunctionNode {
    pub name: String,
    pub size_bytes: usize,
}

/// The functions of the program.
pub struct CallGraph {
    pub nodes: Vec<FunctionNode>,
}

/// Bank assignment optimizer
pub struct BankOptimizer {
    pub config: BankConfig,
    pub graph: CallGraph,
}

/// A code bank and the functions placed in it.
pub struct BankInfo {
    pub id: u8,
    pub used_bytes: usize,
    pub functions: Vec<String>,
}

/// Statistics about bank assignments: the bank counts, the functions and
/// bytes placed, and each code bank that holds a function. The share of the
/// code banks in use is `total_used_bytes` over `total_available_bytes`.
pub struct BankStats {
    pub total_banks: usize,
    pub code_banks: usize,
    pub helper_bank: u8,
    pub used_banks: usize,
    pub total_functions: usize,
    pub total_used_bytes: usize,
    pub total_available_bytes: usize,
    pub banks: Vec<BankInfo>,
}

pub const NEED_TWO_BANKS: &'static str = "Need at least 2 banks (1 for code, 1 for helpers)";

pub const NO_FIT_FUNCTION: &'static str = "Function '";

pub const NO_FIT_SIZE: &'static str = "' (";

pub const NO_FIT_BANK_SIZE: &'static str = " bytes) doesn't fit in any code bank (bank size: ";

pub const NO_FIT_BANKS: &'static str = " bytes, available code banks: ";

pub const CLOSE_PAREN: &'static str = ")";

pub const OVERFLOW_BANK: &'static str = "Bank #";

pub const OVERFLOW_USED: &'static str = " overflow: ";

pub const OVERFLOW_MAX: &'static str = " bytes used (max: ";

pub const OVERFLOW_END: &'static str = " bytes)";

// ---------------------------------------------------------------------------
// Model of the placement
// ---------------------------------------------------------------------------

/// The free bytes of a bank of `bank_size` bytes that holds `used` bytes,
/// never below zero.
pub open spec fn available(used: int, bank_size: int) -> int {
    if used <= bank_size {
        bank_size - used
    } else {
        0
    }
}

/// Whether a function of `size` bytes fits in a bank holding `used` bytes.
pub open spec fn fits(used: int, size: int, bank_size: int) -> bool {
    available(used, bank_size) >= size
}

/// The first bank from `k` on with room for `size` bytes, or -1.
pub open spec fn first_fit_from(used: Seq<int>, size: int, bank_size: int, k: int) -> int
    decreases used.len() - k,
{
    if k >= used.len() {
        -1
    } else if fits(used[k], size, bank_size) {
        k
    } else {
        first_fit_from(used, size, bank_size, k + 1)
    }
}

/// The first bank with room for `size` bytes, or -1.
pub open spec fn first_fit(used: Seq<int>, size: int, bank_size: int) -> int {
    first_fit_from(used, size, bank_size, 0)
}

/// Each function's size paired with its position among the functions.
pub open spec fn size_keys(nodes: Seq<FunctionNode>) -> Seq<(usize, usize)> {
    Seq::new(nodes.len(), |i: int| (nodes[i].size_bytes, i as usize))
}

/// Inserts `x` into a list ordered by decreasing size, after every entry
/// of the same or a larger size.
pub open spec fn ins_desc(s: Seq<(usize, usize)>, x: (usize, usize)) -> Seq<(usize, usize)>
    decreases s.len(),
{
    if s.len() == 0 {
        seq![x]
    } else if s.last().0 >= x.0 {
        s.push(x)
    } else {
        ins_desc(s.drop_last(), x).push(s.last())
    }
}

/// The entries ordered by decreasing size, entries of equal size in their
/// first order.
pub open spec fn sort_desc(s: Seq<(usize, usize)>) -> Seq<(usize, usize)>
    decreases s.len(),
{
    if s.len() == 0 {
        s
    } else {
        ins_desc(sort_desc(s.drop_last()), s.last())
    }
}

/// The order in which the functions are placed.
pub open spec fn placement_order(nodes: Seq<FunctionNode>) -> Seq<(usize, usize)> {
    sort_desc(size_keys(nodes))
}

/// The placement of the first `n` entries of `order` into `banks` code banks
/// of `bank_size` bytes: the (function, bank) pairs so far and the bytes used
/// in each bank, or the position of the first function that fits nowhere.
pub open spec fn place(order: Seq<(usize, usize)>, n: nat, bank_size: int, banks: nat) -> Result<
    (Seq<(usize, int)>, Seq<int>),
    usize,
>
    decreases n,
{
    if n == 0 {
        Ok((Seq::empty(), Seq::new(banks, |k: int| 0int)))
    } else {
        match place(order, (n - 1) as nat, bank_size, banks) {
            Err(e) => Err(e),
            Ok((pairs, used)) => {
                let x = order[n - 1];
                let k = first_fit(used, x.0 as int, bank_size);
                if k < 0 {
                    Err(x.1)
                } else {
                    Ok((pairs.push((x.1, k)), used.update(k, used[k] + x.0)))
                }
            },
        }
    }
}

/// The number of code banks: every bank but the last.
pub open spec fn code_banks(count: u8) -> nat {
    if count >= 1 {
        (count - 1) as nat
    } else {
        0
    }
}

/// The error for a function that fits in no code bank.
pub open spec fn no_fit_message(name: Seq<char>, size: nat, bank_size: nat, banks: nat) -> Seq<
    char,
> {
    NO_FIT_FUNCTION@ + name + NO_FIT_SIZE@ + dec(size) + NO_FIT_BANK_SIZE@ + dec(bank_size)
        + NO_FIT_BANKS@ + dec(banks) + CLOSE_PAREN@
}

/// The error for a bank that holds more than its size.
pub open spec fn overflow_message(id: nat, used: nat, bank_size: nat) -> Seq<char> {
    OVERFLOW_BANK@ + dec(id) + OVERFLOW_USED@ + dec(used) + OVERFLOW_MAX@ + dec(bank_size)
        + OVERFLOW_END@
}

/// The result of the bank assignment: each function's name with its bank,
/// in the order of placement, or the error.
pub open spec fn assignment(config: BankConfig, nodes: Seq<FunctionNode>) -> Result<
    Seq<(Seq<char>, u8)>,
    Seq<char>,
> {
    let banks = code_banks(config.rom_bank_count);
    if banks == 0 {
        Err(NEED_TWO_BANKS@)
    } else {
        let order = placement_order(nodes);
        match place(order, order.len(), config.rom_bank_size as int, banks) {
            Err(i) => Err(
                no_fit_message(
                    nodes[i as int].name@,
                    nodes[i as int].size_bytes as nat,
                    config.rom_bank_size as nat,
                    banks,
                ),
            ),
            Ok((pairs, used)) => Ok(
                Seq::new(
                    pairs.len(),
                    |j: int| (nodes[pairs[j].0 as int].name@, pairs[j].1 as u8),
                ),
            ),
        }
    }
}

/// The view of an assignment result.
pub open spec fn assignment_view(r: Result<Vec<(String, u8)>, String>) -> Result<
    Seq<(Seq<char>, u8)>,
    Seq<char>,
> {
    match r {
        Ok(v) => Ok(Seq::new(v.len() as nat, |j: int| (v@[j].0@, v@[j].1))),
        Err(e) => Err(e@),
    }
}

/// Whether the entries are ordered by decreasing size.
pub open spec fn sorted_desc(s: Seq<(usize, usize)>) -> bool {
    forall|i: int, j: int| 0 <= i < j < s.len() ==> (#[trigger] s[i]).0 >= (#[trigger] s[j]).0
}

/// Whether each entry pairs a function's position with that function's size.
pub open spec fn keys_match(order: Seq<(usize, usize)>, nodes: Seq<FunctionNode>) -> bool {
    forall|j: int|
        0 <= j < order.len() ==> (#[trigger] order[j]).1 < nodes.len() && order[j].0
            == nodes[order[j].1 as int].size_bytes
}

/// The bytes that the placed functions take in bank `k`.
pub open spec fn load(nodes: Seq<FunctionNode>, pairs: Seq<(usize, int)>, k: int) -> int
    decreases pairs.len(),
{
    if pairs.len() == 0 {
        0
    } else {
        load(nodes, pairs.drop_last(), k) + if pairs.last().1 == k {
            nodes[pairs.last().0 as int].size_bytes as int
        } else {
            0
        }
    }
}

// ---------------------------------------------------------------------------
// Lemmas on the order of placement
// ---------------------------------------------------------------------------

proof fn lemma_ins_desc_at(s: Seq<(usize, usize)>, x: (usize, usize), j: int)
    requires
        0 <= j <= s.len(),
        forall|k: int| j <= k < s.len() ==> s[k].0 < x.0,
        j == 0 || s[j - 1].0 >= x.0,
    ensures
        ins_desc(s, x) == s.insert(j, x),
    decreases s.len(),
{
    if s.len() == 0 {
        assert(ins_desc(s, x) =~= s.insert(j, x));
    } else if s.last().0 >= x.0 {
        assert(ins_desc(s, x) =~= s.insert(j, x));
    } else {
        lemma_ins_desc_at(s.drop_last(), x, j);
        assert(ins_desc(s, x) =~= s.insert(j, x));
    }
}

proof fn lemma_ins_desc_multiset(s: Seq<(usize, usize)>, x: (usize, usize))
    ensures
        ins_desc(s, x).to_multiset() == s.to_multiset().insert(x),
    decreases s.len(),
{
    broadcast use vstd::seq_lib::group_to_multiset_ensures;

    if s.len() > 0 && s.last().0 < x.0 {
        lemma_ins_desc_multiset(s.drop_last(), x);
        assert(s.drop_last().push(s.last()) =~= s);
        assert(ins_desc(s, x).to_multiset() =~= s.to_multiset().insert(x));
    }
}

/// Sorting keeps every entry, each as often as before.
pub proof fn lemma_sort_desc_multiset(s: Seq<(usize, usize)>)
    ensures
        sort_desc(s).to_multiset() == s.to_multiset(),
    decreases s.len(),
{
    broadcast use vstd::seq_lib::group_to_multiset_ensures;

    if s.len() > 0 {
        lemma_sort_desc_multiset(s.drop_last());
        lemma_ins_desc_multiset(sort_desc(s.drop_last()), s.last());
        assert(s.drop_last().push(s.last()) =~= s);
    }
}

proof fn lemma_ins_desc_sorted(s: Seq<(usize, usize)>, x: (usize, usize))
    requires
        sorted_desc(s),
    ensures
        sorted_desc(ins_desc(s, x)),
    decreases s.len(),
{
    broadcast use vstd::seq_lib::group_to_multiset_ensures;

    if s.len() > 0 && s.last().0 < x.0 {
        let d = s.drop_last();
        let t = ins_desc(d, x);
        lemma_ins_desc_sorted(d, x);
        lemma_ins_desc_multiset(d, x);
        assert forall|m: int| 0 <= m < t.len() implies (#[trigger] t[m]).0 >= s.last().0 by {
            assert(t.contains(t[m]));
            assert(t.to_multiset().count(t[m]) > 0);
            if t[m] != x {
                assert(d.to_multiset().count(t[m]) > 0);
                assert(d.contains(t[m]));
                let q = choose|q: int| 0 <= q < d.len() && d[q] == t[m];
                assert(s[q] == d[q]);
            }
        }
        let r = ins_desc(s, x);
        assert(r == t.push(s.last()));
        assert forall|i: int, j: int| 0 <= i < j < r.len() implies (#[trigger] r[i]).0 >= (
        #[trigger] r[j]).0 by {
            if j < t.len() {
                assert(r[i] == t[i] && r[j] == t[j]);
            } else {
                assert(r[i] == t[i]);
            }
        }
    }
}

/// The order of placement has the functions by decreasing size.
pub proof fn lemma_sort_desc_sorted(s: Seq<(usize, usize)>)
    ensures
        sorted_desc(sort_desc(s)),
    decreases s.len(),
{
    if s.len() > 0 {
        lemma_sort_desc_sorted(s.drop_last());
        lemma_ins_desc_sorted(sort_desc(s.drop_last()), s.last());
    }
}

/// Each entry of the order of placement is a function's position with its
/// size, and every function has an entry.
pub proof fn lemma_placement_order(nodes: Seq<FunctionNode>)
    requires
        nodes.len() <= usize::MAX,
    ensures
        placement_order(nodes).len() == nodes.len(),
        keys_match(placement_order(nodes), nodes),
        forall|i: int|
            0 <= i < nodes.len() ==> #[trigger] placement_order(nodes).contains(
                (nodes[i].size_bytes, i as usize),
            ),
{
    broadcast use vstd::seq_lib::group_to_multiset_ensures;

    let keys = size_keys(nodes);
    let order = placement_order(nodes);
    lemma_sort_desc_multiset(keys);
    assert(order.to_multiset().len() == keys.to_multiset().len());
    assert forall|j: int| 0 <= j < order.len() implies (#[trigger] order[j]).1 < nodes.len()
        && order[j].0 == nodes[order[j].1 as int].size_bytes by {
        assert(order.contains(order[j]));
        assert(order.to_multiset().count(order[j]) > 0);
        assert(keys.to_multiset().count(order[j]) > 0);
        assert(keys.contains(order[j]));
        let q = choose|q: int| 0 <= q < keys.len() && keys[q] == order[j];
        assert(keys[q] == (nodes[q].size_bytes, q as usize));
    }
    assert forall|i: int| 0 <= i < nodes.len() implies #[trigger] order.contains(
        (nodes[i].size_bytes, i as usize),
    ) by {
        assert(keys[i] == (nodes[i].size_bytes, i as usize));
        assert(keys.contains(keys[i]));
        assert(keys.to_multiset().count(keys[i]) > 0);
    }
}

// ---------------------------------------------------------------------------
// Lemmas on the placement
// ---------------------------------------------------------------------------

/// Once a function fits nowhere, the placement stays failed.
proof fn lemma_place_err(order: Seq<(usize, usize)>, n: nat, m: nat, bank_size: int, banks: nat)
    requires
        n <= m,
        place(order, n, bank_size, banks) is Err,
    ensures
        place(order, m, bank_size, banks) == place(order, n, bank_size, banks),
    decreases m - n,
{
    if n < m {
        lemma_place_err(order, n, (m - 1) as nat, bank_size, banks);
    }
}

proof fn lemma_first_fit_from(used: Seq<int>, size: int, bank_size: int, k: int)
    requires
        0 <= k,
    ensures
        ({
            let r = first_fit_from(used, size, bank_size, k);
            r == -1 || (k <= r < used.len() && fits(used[r], size, bank_size))
        }),
        forall|m: int|
            k <= m < used.len() && (m < first_fit_from(used, size, bank_size, k) || first_fit_from(
                used,
                size,
                bank_size,
                k,
            ) == -1) ==> !fits(#[trigger] used[m], size, bank_size),
    decreases used.len() - k,
{
    if k < used.len() && !fits(used[k], size, bank_size) {
        lemma_first_fit_from(used, size, bank_size, k + 1);
    }
}

/// What the placement keeps at every step: one bank count of loads, each
/// load within the bank, each function in a code bank, the functions in the
/// order of placement, and each bank's load the sum of its functions' sizes.
pub proof fn lemma_place(
    nodes: Seq<FunctionNode>,
    order: Seq<(usize, usize)>,
    n: nat,
    bank_size: int,
    banks: nat,
)
    requires
        n <= order.len(),
        0 <= bank_size,
        keys_match(order, nodes),
    ensures
        place(order, n, bank_size, banks) matches Ok((pairs, used)) ==> {
            &&& used.len() == banks
            &&& pairs.len() == n
            &&& forall|k: int| 0 <= k < banks ==> 0 <= #[trigger] used[k] <= bank_size
            &&& forall|k: int| 0 <= k < banks ==> #[trigger] used[k] == load(nodes, pairs, k)
            &&& forall|j: int|
                0 <= j < n ==> (#[trigger] pairs[j]).0 == order[j].1 && 0 <= pairs[j].1 < banks
        },
    decreases n,
{
    if n > 0 {
        lemma_place(nodes, order, (n - 1) as nat, bank_size, banks);
        match place(order, (n - 1) as nat, bank_size, banks) {
            Err(e) => {},
            Ok((pairs, used)) => {
                let x = order[n - 1];
                lemma_first_fit_from(used, x.0 as int, bank_size, 0);
                let k = first_fit(used, x.0 as int, bank_size);
                if k >= 0 {
                    let p2 = pairs.push((x.1, k));
                    let u2 = used.update(k, used[k] + x.0);
                    assert(p2.drop_last() =~= pairs);
                    assert forall|m: int| 0 <= m < banks implies #[trigger] u2[m] == load(
                        nodes,
                        p2,
                        m,
                    ) by {
                        assert(used[m] == load(nodes, pairs, m));
                    }
                    assert forall|j: int| 0 <= j < n implies (#[trigger] p2[j]).0 == order[j].1
                        && 0 <= p2[j].1 < banks by {
                        if j < n - 1 {
                            assert(p2[j] == pairs[j]);
                        }
                    }
                }
            },
        }
    }
}

// ---------------------------------------------------------------------------
// Model of the statistics
// ---------------------------------------------------------------------------

/// The size of the first function named `name`, if there is one.
pub open spec fn size_of_named(nodes: Seq<FunctionNode>, name: Seq<char>) -> Option<nat>
    decreases nodes.len(),
{
    if nodes.len() == 0 {
        None
    } else {
        match size_of_named(nodes.drop_last(), name) {
            Some(z) => Some(z),
            None => if nodes.last().name@ == name {
                Some(nodes.last().size_bytes as nat)
            } else {
                None
            },
        }
    }
}

/// The size that an assignment entry adds to bank `k`: that of its function
/// when the function is known and the entry names bank `k`.
pub open spec fn entry_load(nodes: Seq<FunctionNode>, e: (Seq<char>, u8), k: int) -> nat {
    if e.1 as int == k {
        match size_of_named(nodes, e.0) {
            Some(z) => z,
            None => 0,
        }
    } else {
        0
    }
}

/// Whether an assignment entry puts a known function into bank `k`.
pub open spec fn entry_in(nodes: Seq<FunctionNode>, e: (Seq<char>, u8), k: int) -> bool {
    e.1 as int == k && size_of_named(nodes, e.0) is Some
}

/// The names of the known functions assigned to bank `k`, in order.
pub open spec fn names_in(nodes: Seq<FunctionNode>, asg: Seq<(Seq<char>, u8)>, k: int) -> Seq<
    Seq<char>,
>
    decreases asg.len(),
{
    if asg.len() == 0 {
        Seq::empty()
    } else {
        let rest = names_in(nodes, asg.drop_last(), k);
        if entry_in(nodes, asg.last(), k) {
            rest.push(asg.last().0)
        } else {
            rest
        }
    }
}

/// The bytes of the known functions assigned to bank `k`.
pub open spec fn used_in(nodes: Seq<FunctionNode>, asg: Seq<(Seq<char>, u8)>, k: int) -> nat
    decreases asg.len(),
{
    if asg.len() == 0 {
        0
    } else {
        used_in(nodes, asg.drop_last(), k) + entry_load(nodes, asg.last(), k)
    }
}

/// The code banks below `m` that hold a function: id, bytes and names.
pub open spec fn filled_banks(nodes: Seq<FunctionNode>, asg: Seq<(Seq<char>, u8)>, m: nat) -> Seq<
    (int, nat, Seq<Seq<char>>),
>
    decreases m,
{
    if m == 0 {
        Seq::empty()
    } else {
        let rest = filled_banks(nodes, asg, (m - 1) as nat);
        let k = m - 1;
        if names_in(nodes, asg, k).len() > 0 {
            rest.push((k, used_in(nodes, asg, k), names_in(nodes, asg, k)))
        } else {
            rest
        }
    }
}

/// The bytes of all code banks below `m`.
pub open spec fn used_total(nodes: Seq<FunctionNode>, asg: Seq<(Seq<char>, u8)>, m: nat) -> nat
    decreases m,
{
    if m == 0 {
        0
    } else {
        used_total(nodes, asg, (m - 1) as nat) + used_in(nodes, asg, m - 1)
    }
}

/// The view of a bank: id, bytes and function names.
pub open spec fn bank_view(b: BankInfo) -> (int, nat, Seq<Seq<char>>) {
    (b.id as int, b.used_bytes as nat, Seq::new(b.functions.len() as nat, |i: int| b.functions@[i]@))
}

/// The view of an assignment given as pairs of names and banks.
pub open spec fn pairs_view(v: Seq<(String, u8)>) -> Seq<(Seq<char>, u8)> {
    Seq::new(v.len(), |i: int| (v[i].0@, v[i].1))
}

// ---------------------------------------------------------------------------
// Laws of the assignment
// ---------------------------------------------------------------------------

/// A successful assignment has one entry per function, and every function
/// is among them with a bank.
pub proof fn lemma_every_function_assigned(config: BankConfig, nodes: Seq<FunctionNode>)
    requires
        nodes.len() <= usize::MAX,
    ensures
        assignment(config, nodes) matches Ok(v) ==> {
            &&& v.len() == nodes.len()
            &&& forall|i: int|
                0 <= i < nodes.len() ==> exists|j: int|
                    0 <= j < v.len() && (#[trigger] v[j]).0 == (#[trigger] nodes[i]).name@
        },
{
    let banks = code_banks(config.rom_bank_count);
    let order = placement_order(nodes);
    lemma_placement_order(nodes);
    lemma_place(nodes, order, order.len(), config.rom_bank_size as int, banks);
    if let Ok(v) = assignment(config, nodes) {
        if let Ok((pairs, used)) = place(order, order.len(), config.rom_bank_size as int, banks) {
            assert forall|i: int| 0 <= i < nodes.len() implies exists|j: int|
                0 <= j < v.len() && (#[trigger] v[j]).0 == (#[trigger] nodes[i]).name@ by {
                assert(order.contains((nodes[i].size_bytes, i as usize)));
                let j = choose|j: int|
                    0 <= j < order.len() && order[j] == (nodes[i].size_bytes, i as usize);
                assert(pairs[j].0 == order[j].1);
                assert(v[j].0 == nodes[i].name@);
            }
        }
    }
}

/// A successful assignment never uses the last bank of the cartridge, which
/// stays reserved for the runtime helpers.
pub proof fn lemma_helper_bank_reserved(config: BankConfig, nodes: Seq<FunctionNode>)
    requires
        nodes.len() <= usize::MAX,
    ensures
        assignment(config, nodes) matches Ok(v) ==> forall|j: int|
            0 <= j < v.len() ==> (#[trigger] v[j]).1 < config.rom_bank_count - 1,
{
    let banks = code_banks(config.rom_bank_count);
    let order = placement_order(nodes);
    lemma_placement_order(nodes);
    lemma_place(nodes, order, order.len(), config.rom_bank_size as int, banks);
}

/// After a successful placement, the functions placed in each code bank take
/// no more bytes than the bank holds.
pub proof fn lemma_banks_within_capacity(config: BankConfig, nodes: Seq<FunctionNode>)
    requires
        nodes.len() <= usize::MAX,
    ensures
        ({
            let order = placement_order(nodes);
            let banks = code_banks(config.rom_bank_count);
            place(order, order.len(), config.rom_bank_size as int, banks) matches Ok((pairs, used))
                ==> forall|k: int|
                0 <= k < banks ==> load(nodes, pairs, k) <= config.rom_bank_size
        }),
{
    let banks = code_banks(config.rom_bank_count);
    let order = placement_order(nodes);
    lemma_placement_order(nodes);
    lemma_place(nodes, order, order.len(), config.rom_bank_size as int, banks);
    if let Ok((pairs, used)) = place(order, order.len(), config.rom_bank_size as int, banks) {
        assert forall|k: int| 0 <= k < banks implies load(nodes, pairs, k)
            <= config.rom_bank_size by {
            assert(used[k] == load(nodes, pairs, k));
        }
    }
}

// ---------------------------------------------------------------------------
// Banks
// ---------------------------------------------------------------------------

impl BankInfo {
    fn new(id: u8) -> (b: Self)
        ensures
            b.id == id,
            b.used_bytes == 0,
            b.functions@ == Seq::<String>::empty(),
    {
        BankInfo { id, used_bytes: 0, functions: Vec::new() }
    }

    fn available_bytes(&self, bank_size: u32) -> (n: usize)
        ensures
            n == available(self.used_bytes as int, bank_size as int),
    {
        (bank_size as usize).saturating_sub(self.used_bytes)
    }

    fn can_fit(&self, function_size: usize, bank_size: u32) -> (r: bool)
        ensures
            r == fits(self.used_bytes as int, function_size as int, bank_size as int),
    {
        self.available_bytes(bank_size) >= function_size
    }

    fn add_function(&mut self, name: String, size: usize)
        requires
            old(self).used_bytes + size <= usize::MAX,
        ensures
            final(self).id == old(self).id,
            final(self).used_bytes == old(self).used_bytes + size,
            final(self).functions@ == old(self).functions@.push(name),
    {
        self.functions.push(name);
        self.used_bytes += size;
    }
}

// ---------------------------------------------------------------------------
// Executable placement
// ---------------------------------------------------------------------------

/// Inserts an entry into a list ordered by decreasing size, as `ins_desc`.
fn insert_desc(v: &mut Vec<(usize, usize)>, x: (usize, usize))
    ensures
        final(v)@ == ins_desc(old(v)@, x),
{
    let mut j: usize = v.len();
    while j > 0 && v[j - 1].0 < x.0
        invariant
            j <= v.len(),
            v@ == old(v)@,
            forall|k: int| j <= k < v.len() ==> v@[k].0 < x.0,
        decreases j,
    {
        j -= 1;
    }
    proof {
        lemma_ins_desc_at(v@, x, j as int);
    }
    v.insert(j, x);
}

/// The functions' sizes and positions, largest first.
fn placement_order_exec(nodes: &Vec<FunctionNode>) -> (r: Vec<(usize, usize)>)
    ensures
        r@ == placement_order(nodes@),
{
    let ghost keys = size_keys(nodes@);
    let mut r: Vec<(usize, usize)> = Vec::new();
    let mut i: usize = 0;
    assert(keys.take(0) =~= Seq::<(usize, usize)>::empty());
    while i < nodes.len()
        invariant
            i <= nodes.len(),
            keys == size_keys(nodes@),
            r@ == sort_desc(keys.take(i as int)),
        decreases nodes.len() - i,
    {
        assert(keys.take(i + 1).drop_last() =~= keys.take(i as int));
        assert(keys.take(i + 1).last() == (nodes@[i as int].size_bytes, i));
        insert_desc(&mut r, (nodes[i].size_bytes, i));
        i += 1;
    }
    assert(keys.take(nodes.len() as int) =~= keys);
    r
}

/// The message for a function that fits in no code bank.
fn no_fit_error(name: &String, size: usize, bank_size: u32, banks: u8) -> (msg: String)
    ensures
        msg@ == no_fit_message(name@, size as nat, bank_size as nat, banks as nat),
{
    let mut msg = String::new();
    push_str(&mut msg, NO_FIT_FUNCTION);
    push_str(&mut msg, name.as_str());
    push_str(&mut msg, NO_FIT_SIZE);
    push_dec(&mut msg, size as u64);
    push_str(&mut msg, NO_FIT_BANK_SIZE);
    push_dec(&mut msg, bank_size as u64);
    push_str(&mut msg, NO_FIT_BANKS);
    push_dec(&mut msg, banks as u64);
    push_str(&mut msg, CLOSE_PAREN);
    assert(msg@ =~= no_fit_message(name@, size as nat, bank_size as nat, banks as nat));
    msg
}

impl BankOptimizer {
    pub fn new(config: BankConfig, graph: CallGraph) -> (r: Self)
        ensures
            r.config == config,
            r.graph == graph,
    {
        BankOptimizer { config, graph }
    }

    /// Assigns the functions to the code banks in the sequential model:
    /// largest first, each into the first code bank with room for it; the
    /// last bank is never given a function. Returns each function's name with
    /// its bank, in the order of placement.
    pub fn assign_banks(&self) -> (r: Result<Vec<(String, u8)>, String>)
        ensures
            assignment_view(r) == assignment(self.config, self.graph.nodes@),
    {
        let bank_size = self.config.rom_bank_size;
        let total_banks = self.config.num_banks();
        let code_banks_count: u8 = (total_banks as u8).saturating_sub(1);
        if code_banks_count == 0 {
            return Err(string_from(NEED_TWO_BANKS));
        }
        let ghost nodes = self.graph.nodes@;
        let ghost cb: nat = code_banks_count as nat;
        assert(cb == code_banks(self.config.rom_bank_count));
        assert(nodes.len() == self.graph.nodes.len());
        let ghost bs: int = bank_size as int;
        let mut banks: Vec<BankInfo> = Vec::new();
        let mut b: u8 = 0;
        while b < code_banks_count
            invariant
                b <= code_banks_count,
                banks.len() == b,
                forall|k: int|
                    0 <= k < b ==> (#[trigger] banks@[k]).id == k && banks@[k].used_bytes == 0,
            decreases code_banks_count - b,
        {
            banks.push(BankInfo::new(b));
            b += 1;
        }
        let order = placement_order_exec(&self.graph.nodes);
        proof {
            lemma_placement_order(nodes);
        }
        let mut assignments: Vec<(String, u8)> = Vec::new();
        let ghost mut pairs: Seq<(usize, int)> = Seq::empty();
        let ghost mut used: Seq<int> = Seq::new(cb, |k: int| 0int);
        let mut t: usize = 0;
        while t < order.len()
            invariant
                t <= order.len(),
                nodes == self.graph.nodes@,
                order@ == placement_order(nodes),
                order.len() == nodes.len(),
                keys_match(order@, nodes),
                cb == code_banks_count,
                cb == code_banks(self.config.rom_bank_count),
                bank_size == self.config.rom_bank_size,
                0 < cb < 256,
                bs == bank_size,
                place(order@, t as nat, bs, cb) == Ok::<_, usize>((pairs, used)),
                banks.len() == cb,
                used.len() == cb,
                forall|k: int|
                    0 <= k < cb ==> (#[trigger] banks@[k]).id == k && banks@[k].used_bytes
                        == used[k],
                forall|k: int| 0 <= k < cb ==> 0 <= #[trigger] used[k] <= bs,
                pairs.len() == t,
                assignments.len() == t,
                forall|j: int|
                    0 <= j < t ==> (#[trigger] assignments@[j]).0@ == nodes[pairs[j].0 as int].name@
                        && assignments@[j].1 == pairs[j].1 as u8,
            decreases order.len() - t,
        {
            let size = order[t].0;
            let idx = order[t].1;
            let mut k: usize = 0;
            proof {
                lemma_first_fit_from(used, size as int, bs, 0);
            }
            while k < banks.len() && !banks[k].can_fit(size, bank_size)
                invariant
                    k <= banks.len(),
                    banks.len() == cb,
                    used.len() == cb,
                    bs == bank_size,
                    forall|m: int|
                        0 <= m < cb ==> (#[trigger] banks@[m]).used_bytes == used[m],
                    first_fit(used, size as int, bs) == first_fit_from(used, size as int, bs, k as int),
                decreases banks.len() - k,
            {
                assert(!fits(used[k as int], size as int, bs));
                k += 1;
            }
            if k == banks.len() {
                assert(first_fit(used, size as int, bs) == -1);
                assert(place(order@, (t + 1) as nat, bs, cb) == Err::<(Seq<(usize, int)>, Seq<int>), usize>(idx));
                proof {
                    lemma_place(nodes, order@, order.len() as nat, bs, cb);
                    lemma_place_err(order@, (t + 1) as nat, order.len() as nat, bs, cb);
                }
                assert(size == nodes[idx as int].size_bytes);
                assert(cb == code_banks(self.config.rom_bank_count));
                return Err(no_fit_error(&self.graph.nodes[idx].name, size, bank_size, code_banks_count));
            }
            assert(first_fit(used, size as int, bs) == k);
            let name = self.graph.nodes[idx].name.clone();
            banks[k].add_function(name, size);
            let id = banks[k].id;
            assignments.push((self.graph.nodes[idx].name.clone(), id));
            proof {
                pairs = pairs.push((idx, k as int));
                used = used.update(k as int, used[k as int] + size);
                lemma_place(nodes, order@, (t + 1) as nat, bs, cb);
            }
            t += 1;
        }
        proof {
            lemma_place(nodes, order@, order.len() as nat, bs, cb);
        }
        match self.validate_assignments(&banks) {
            Ok(()) => {},
            Err(e) => {
                return Err(e);
            },
        }
        assert(assignment_view(Ok::<Vec<(String, u8)>, String>(assignments)) == assignment(self.config, nodes)) by {
            let v = Seq::new(assignments.len() as nat, |j: int| (assignments@[j].0@, assignments@[j].1));
            let w = Seq::new(pairs.len(), |j: int| (nodes[pairs[j].0 as int].name@, pairs[j].1 as u8));
            assert(v =~= w);
        }
        Ok(assignments)
    }

    /// Checks that no bank holds more than the bank size; the error names
    /// the first bank that does.
    fn validate_assignments(&self, banks: &Vec<BankInfo>) -> (r: Result<(), String>)
        ensures
            r is Ok <==> forall|k: int|
                0 <= k < banks.len() ==> (#[trigger] banks@[k]).used_bytes
                    <= self.config.rom_bank_size,
            r matches Err(e) ==> exists|k: int|
                0 <= k < banks.len() && (#[trigger] banks@[k]).used_bytes
                    > self.config.rom_bank_size && (forall|m: int|
                    0 <= m < k ==> (#[trigger] banks@[m]).used_bytes <= self.config.rom_bank_size)
                    && e@ == overflow_message(
                    banks@[k].id as nat,
                    banks@[k].used_bytes as nat,
                    self.config.rom_bank_size as nat,
                ),
    {
        let bank_size = self.config.rom_bank_size as usize;
        let mut i: usize = 0;
        while i < banks.len()
            invariant
                i <= banks.len(),
                bank_size == self.config.rom_bank_size,
                forall|m: int| 0 <= m < i ==> (#[trigger] banks@[m]).used_bytes <= bank_size,
            decreases banks.len() - i,
        {
            let bank = &banks[i];
            if bank.used_bytes > bank_size {
                let mut msg = String::new();
                push_str(&mut msg, OVERFLOW_BANK);
                push_dec(&mut msg, bank.id as u64);
                push_str(&mut msg, OVERFLOW_USED);
                push_dec(&mut msg, bank.used_bytes as u64);
                push_str(&mut msg, OVERFLOW_MAX);
                push_dec(&mut msg, bank_size as u64);
                push_str(&mut msg, OVERFLOW_END);
                assert(msg@ =~= overflow_message(
                    bank.id as nat,
                    bank.used_bytes as nat,
                    bank_size as nat,
                ));
                return Err(msg);
            }
            i += 1;
        }
        Ok(())
    }
}

// ---------------------------------------------------------------------------
// Statistics
// ---------------------------------------------------------------------------

proof fn lemma_size_of_named_prefix(nodes: Seq<FunctionNode>, j: int, name: Seq<char>)
    requires
        0 <= j <= nodes.len(),
        size_of_named(nodes.take(j), name) is Some,
    ensures
        size_of_named(nodes, name) == size_of_named(nodes.take(j), name),
    decreases nodes.len(),
{
    if j < nodes.len() {
        assert(nodes.drop_last().take(j) =~= nodes.take(j));
        lemma_size_of_named_prefix(nodes.drop_last(), j, name);
    } else {
        assert(nodes.take(j) =~= nodes);
    }
}

proof fn lemma_used_in_prefix(nodes: Seq<FunctionNode>, asg: Seq<(Seq<char>, u8)>, i: int, k: int)
    requires
        0 <= i <= asg.len(),
    ensures
        used_in(nodes, asg.take(i), k) <= used_in(nodes, asg, k),
    decreases asg.len(),
{
    if i < asg.len() {
        assert(asg.drop_last().take(i) =~= asg.take(i));
        lemma_used_in_prefix(nodes, asg.drop_last(), i, k);
    } else {
        assert(asg.take(i) =~= asg);
    }
}

proof fn lemma_used_in_total(nodes: Seq<FunctionNode>, asg: Seq<(Seq<char>, u8)>, k: int, m: nat)
    requires
        0 <= k < m,
    ensures
        used_in(nodes, asg, k) <= used_total(nodes, asg, m),
    decreases m,
{
    if k < m - 1 {
        lemma_used_in_total(nodes, asg, k, (m - 1) as nat);
    }
}

proof fn lemma_used_total_mono(nodes: Seq<FunctionNode>, asg: Seq<(Seq<char>, u8)>, k: nat, m: nat)
    requires
        k <= m,
    ensures
        used_total(nodes, asg, k) <= used_total(nodes, asg, m),
    decreases m,
{
    if k < m {
        lemma_used_total_mono(nodes, asg, k, (m - 1) as nat);
    }
}

impl BankOptimizer {
    /// The size of the first function with the given name.
    fn size_of_named_exec(&self, name: &String) -> (r: Option<usize>)
        ensures
            match r {
                Some(z) => size_of_named(self.graph.nodes@, name@) == Some(z as nat),
                None => size_of_named(self.graph.nodes@, name@) is None,
            },
    {
        let ghost nodes = self.graph.nodes@;
        let mut i: usize = 0;
        assert(nodes.take(0) =~= Seq::<FunctionNode>::empty());
        while i < self.graph.nodes.len()
            invariant
                i <= self.graph.nodes.len(),
                nodes == self.graph.nodes@,
                size_of_named(nodes.take(i as int), name@) is None,
            decreases self.graph.nodes.len() - i,
        {
            assert(nodes.take(i + 1).drop_last() =~= nodes.take(i as int));
            if str_eq(self.graph.nodes[i].name.as_str(), name.as_str()) {
                proof {
                    lemma_size_of_named_prefix(nodes, i + 1, name@);
                }
                return Some(self.graph.nodes[i].size_bytes);
            }
            i += 1;
        }
        assert(nodes.take(i as int) =~= nodes);
        None
    }

    /// Statistics of an assignment given as (function, bank) pairs: the bank
    /// counts, how many code banks hold a function, the functions and bytes
    /// placed, and each code bank that holds a function with its functions
    /// in the order of the pairs. Pairs that name an unknown function or a
    /// bank outside the code banks add nothing to the banks.
    pub fn assignment_stats(&self, assignments: &Vec<(String, u8)>) -> (st: BankStats)
        requires
            self.config.rom_bank_count >= 1,
            self.config.rom_bank_size * code_banks(self.config.rom_bank_count) <= usize::MAX,
            used_total(
                self.graph.nodes@,
                pairs_view(assignments@),
                code_banks(self.config.rom_bank_count),
            ) <= usize::MAX,
        ensures
            ({
                let nodes = self.graph.nodes@;
                let asg = pairs_view(assignments@);
                let cb = code_banks(self.config.rom_bank_count);
                &&& st.total_banks == self.config.rom_bank_count
                &&& st.code_banks == cb
                &&& st.helper_bank == self.config.rom_bank_count - 1
                &&& st.total_functions == assignments.len()
                &&& st.total_available_bytes == self.config.rom_bank_size * cb
                &&& st.total_used_bytes == used_total(nodes, asg, cb)
                &&& st.used_banks == filled_banks(nodes, asg, cb).len()
                &&& Seq::new(st.banks.len() as nat, |i: int| bank_view(st.banks@[i])) == filled_banks(
                    nodes,
                    asg,
                    cb,
                )
            }),
    {
        let ghost nodes = self.graph.nodes@;
        let ghost asg = pairs_view(assignments@);
        let bank_size = self.config.rom_bank_size as usize;
        let total_banks = self.config.num_banks();
        let code_banks_count = total_banks.saturating_sub(1);
        let ghost cb = code_banks(self.config.rom_bank_count);
        assert(code_banks_count == cb);
        let mut banks: Vec<BankInfo> = Vec::new();
        let mut b: usize = 0;
        while b < code_banks_count
            invariant
                b <= code_banks_count,
                code_banks_count < 256,
                banks.len() == b,
                forall|k: int|
                    0 <= k < b ==> (#[trigger] banks@[k]).id == k && banks@[k].used_bytes == 0
                        && banks@[k].functions@.len() == 0,
            decreases code_banks_count - b,
        {
            banks.push(BankInfo::new(b as u8));
            b += 1;
        }
        let mut i: usize = 0;
        assert(asg.take(0) =~= Seq::<(Seq<char>, u8)>::empty());
        while i < assignments.len()
            invariant
                i <= assignments.len(),
                nodes == self.graph.nodes@,
                asg == pairs_view(assignments@),
                code_banks_count == cb,
                cb < 256,
                used_total(nodes, asg, cb) <= usize::MAX,
                banks.len() == cb,
                forall|k: int|
                    0 <= k < cb ==> (#[trigger] banks@[k]).id == k && banks@[k].used_bytes
                        == used_in(nodes, asg.take(i as int), k) && bank_view(banks@[k]).2
                        == names_in(nodes, asg.take(i as int), k),
            decreases assignments.len() - i,
        {
            let ghost before = banks@;
            let ghost prev = asg.take(i as int);
            assert(asg.take(i + 1).drop_last() =~= prev);
            assert(asg.take(i + 1).last() == asg[i as int]);
            let name = &assignments[i].0;
            let bank_id = assignments[i].1;
            match self.size_of_named_exec(name) {
                Some(size) => {
                    if (bank_id as usize) < code_banks_count {
                        let k = bank_id as usize;
                        proof {
                            lemma_used_in_prefix(nodes, asg, i + 1, k as int);
                            lemma_used_in_total(nodes, asg, k as int, cb);
                        }
                        banks[k].add_function(name.clone(), size);
                        proof {
                            assert forall|m: int| 0 <= m < cb implies (#[trigger] banks@[m]).id == m
                                && banks@[m].used_bytes == used_in(nodes, asg.take(i + 1), m)
                                && bank_view(banks@[m]).2 == names_in(nodes, asg.take(i + 1), m) by {
                                if m == k {
                                    assert(bank_view(banks@[m]).2 =~= bank_view(before[m]).2.push(
                                        name@,
                                    ));
                                } else {
                                    assert(banks@[m] == before[m]);
                                }
                            }
                        }
                    }
                },
                None => {},
            }
            i += 1;
        }
        assert(asg.take(i as int) =~= asg);
        let ghost all = banks@;
        let mut kept: Vec<BankInfo> = Vec::new();
        let mut used_banks: usize = 0;
        let mut total_used_bytes: usize = 0;
        let mut k: usize = 0;
        while k < code_banks_count
            invariant
                k <= code_banks_count,
                code_banks_count == cb,
                cb < 256,
                all.len() == cb,
                banks@ == all.subrange(k as int, cb as int),
                forall|m: int|
                    0 <= m < cb ==> (#[trigger] all[m]).id == m && all[m].used_bytes == used_in(
                        nodes,
                        asg,
                        m,
                    ) && bank_view(all[m]).2 == names_in(nodes, asg, m),
                used_total(nodes, asg, cb) <= usize::MAX,
                total_used_bytes == used_total(nodes, asg, k as nat),
                used_banks == kept.len(),
                used_banks <= k,
                Seq::new(kept.len() as nat, |j: int| bank_view(kept@[j])) == filled_banks(
                    nodes,
                    asg,
                    k as nat,
                ),
            decreases code_banks_count - k,
        {
            let ghost kv = Seq::new(kept.len() as nat, |j: int| bank_view(kept@[j]));
            let bank = banks.remove(0);
            assert(bank == all[k as int]);
            proof {
                lemma_used_total_mono(nodes, asg, (k + 1) as nat, cb);
            }
            total_used_bytes = total_used_bytes + bank.used_bytes;
            if bank.functions.len() > 0 {
                used_banks += 1;
                kept.push(bank);
                assert(Seq::new(kept.len() as nat, |j: int| bank_view(kept@[j])) =~= kv.push(
                    bank_view(all[k as int]),
                ));
            }
            k += 1;
            assert(banks@ =~= all.subrange(k as int, cb as int));
        }
        BankStats {
            total_banks: total_banks,
            code_banks: code_banks_count,
            helper_bank: (total_banks - 1) as u8,
            used_banks,
            total_functions: assignments.len(),
            total_used_bytes,
            total_available_bytes: bank_size * code_banks_count,
            banks: kept,
        }
    }
}

} // verus!
