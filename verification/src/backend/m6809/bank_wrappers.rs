//! Cross-bank call wrappers for bank-switched ROMs.
//!
//! When a function in bank X calls a function in bank Y (X != Y), the call
//! goes through a generated wrapper that saves the current bank, switches to
//! bank Y, calls the real function, and switches back.
//!
//! The generator in use during emission lives in a slot owned by the caller
//! (`Option<BankWrapperGenerator>`), set by `init_global_generator` and
//! emptied by `clear_global_generator`.

use vstd::prelude::*;
use crate::keyed::{keys_unique, kmap, kv_get, kv_insert, kindex};
use crate::strset::set_contains;
use crate::ast::sviews;
use crate::text::{dec, push_dec, push_str, string_from};

verus! {

/// Information about a cross-bank call that needs a wrapper
#[derive(Debug, Clone)]
pub struct CrossBankCall {
    /// Name of calling function
    pub caller_func: String,
    /// Bank of caller
    pub caller_bank: u8,
    /// Name of called function
    pub callee_func: String,
    /// Bank of callee
    pub callee_bank: u8,
}

/// Tracks cross-bank calls and generates wrappers
#[derive(Clone)]
pub struct BankWrapperGenerator {
    /// Function name -> bank ID (from the bank optimizer)
    function_banks: Vec<(String, u8)>,
    /// Function name -> source line number (for debugging line markers)
    function_lines: Vec<(String, usize)>,
    /// Cross-bank calls detected, in the order they were recorded
    pub cross_bank_calls: Vec<CrossBankCall>,
    /// Names of the wrappers already generated (avoid duplicates)
    generated_wrappers: Vec<String>,
    /// Bank register address (hardware-dependent)
    bank_register: u16,
}

/// The name of the wrapper for `f`.
pub open spec fn wrapper_name_of(f: Seq<char>) -> Seq<char> {
    f + "_BANK_WRAPPER"@
}

/// The debugging line marker a wrapper carries when the wrapped function's
/// source line is known.
pub open spec fn line_marker(line: Option<usize>) -> Seq<char> {
    match line {
        Some(l) => "    ; VPy_LINE:"@ + dec(l as nat) + "\n"@,
        None => Seq::empty(),
    }
}

/// The assembly of the wrapper that switches to bank `b` and calls `f`.
pub open spec fn wrapper_text(f: Seq<char>, b: u8, line: Option<usize>) -> Seq<char> {
    "\n; Cross-bank wrapper for "@ + f + " (Bank #"@ + dec(b as nat) + ")\n"@ + wrapper_name_of(f)
        + ":\n    PSHS A              ; Save A register\n    LDA CURRENT_ROM_BANK ; Read current bank from RAM\n    PSHS A              ; Save current bank on stack\n    LDA #"@
        + dec(b as nat)
        + "             ; Load target bank ID\n    STA CURRENT_ROM_BANK ; Switch to target bank (RAM tracker)\n    STA $D000            ; Hardware bank switch register (cartucho intercepts)\n"@
        + line_marker(line) + "    JSR "@ + f
        + "              ; Call real function\n    PULS A              ; Restore original bank from stack\n    STA CURRENT_ROM_BANK ; Switch back to original bank (RAM tracker)\n    STA $D000            ; Hardware bank switch register (cartucho intercepts)\n    PULS A              ; Restore A register\n    RTS\n"@
}

/// Index of the entry named `n`, if any.
pub open spec fn name_index(u: Seq<(Seq<char>, u8)>, n: Seq<char>) -> Option<int>
    decreases u.len(),
{
    if u.len() == 0 {
        None
    } else if u[0].0 == n {
        Some(0)
    } else {
        match name_index(u.drop_first(), n) {
            Some(i) => Some(i + 1),
            None => None,
        }
    }
}

/// The callees of the recorded calls, each once, in order of first
/// appearance, paired with the bank of the last call recorded to it.
pub open spec fn callee_list(calls: Seq<CrossBankCall>) -> Seq<(Seq<char>, u8)>
    decreases calls.len(),
{
    if calls.len() == 0 {
        Seq::empty()
    } else {
        let r = callee_list(calls.drop_last());
        let c = calls.last();
        match name_index(r, c.callee_func@) {
            Some(i) => r.update(i, (c.callee_func@, c.callee_bank)),
            None => r.push((c.callee_func@, c.callee_bank)),
        }
    }
}

/// The wrappers generated for the entries of `u` whose wrapper is not yet
/// in `gen`, one after the other.
pub open spec fn wrappers_text(
    u: Seq<(Seq<char>, u8)>,
    gen: Set<Seq<char>>,
    lines: Map<Seq<char>, usize>,
) -> Seq<char>
    decreases u.len(),
{
    if u.len() == 0 {
        Seq::empty()
    } else {
        wrappers_text(u.drop_last(), gen, lines) + (if gen.contains(wrapper_name_of(u.last().0)) {
            Seq::<char>::empty()
        } else {
            wrapper_text(
                u.last().0,
                u.last().1,
                if lines.contains_key(u.last().0) {
                    Some(lines[u.last().0])
                } else {
                    None
                },
            )
        })
    }
}

pub proof fn lemma_wrapper_name_injective(a: Seq<char>, b: Seq<char>)
    requires
        wrapper_name_of(a) == wrapper_name_of(b),
    ensures
        a == b,
{
    assert(wrapper_name_of(a).len() == a.len() + "_BANK_WRAPPER"@.len());
    assert(a =~= wrapper_name_of(a).subrange(0, a.len() as int));
    assert(b =~= wrapper_name_of(b).subrange(0, b.len() as int));
}

impl BankWrapperGenerator {
    /// The two tables hold each function at most once, and each wrapper is
    /// generated once.
    pub closed spec fn wf(&self) -> bool {
        keys_unique(self.function_banks@) && keys_unique(self.function_lines@) && sviews(
            self.generated_wrappers@,
        ).no_duplicates()
    }

    /// Function name -> bank.
    pub closed spec fn banks(&self) -> Map<Seq<char>, u8> {
        kmap(self.function_banks@)
    }

    /// Function name -> source line.
    pub closed spec fn lines(&self) -> Map<Seq<char>, usize> {
        kmap(self.function_lines@)
    }

    /// The cross-bank calls recorded so far, in order.
    pub closed spec fn calls(&self) -> Seq<CrossBankCall> {
        self.cross_bank_calls@
    }

    /// Names of the wrappers generated so far.
    pub closed spec fn generated(&self) -> Set<Seq<char>> {
        sviews(self.generated_wrappers@).to_set()
    }

    /// The register through which banks are switched.
    pub closed spec fn register(&self) -> u16 {
        self.bank_register
    }

    /// The source line registered for `f`, if any.
    pub open spec fn line_of(&self, f: Seq<char>) -> Option<usize> {
        if self.lines().contains_key(f) {
            Some(self.lines()[f])
        } else {
            None
        }
    }

    /// The bank of the callee when caller and callee are both known and sit
    /// in different banks.
    pub open spec fn cross_bank(&self, caller: Seq<char>, callee: Seq<char>) -> Option<u8> {
        if self.banks().contains_key(caller) && self.banks().contains_key(callee)
            && self.banks()[caller] != self.banks()[callee] {
            Some(self.banks()[callee])
        } else {
            None
        }
    }

    /// Create new wrapper generator with function->bank mapping (a later
    /// pair for the same function overrides an earlier one)
    pub fn new(function_banks: Vec<(String, u8)>, bank_register: u16) -> (r: Self)
        ensures
            r.wf(),
            r.banks() == kmap(function_banks@),
            r.lines() == Map::<Seq<char>, usize>::empty(),
            r.calls().len() == 0,
            r.generated() == Set::<Seq<char>>::empty(),
            r.register() == bank_register,
    {
        let mut banks: Vec<(String, u8)> = Vec::new();
        let mut i: usize = 0;
        while i < function_banks.len()
            invariant
                i <= function_banks.len(),
                keys_unique(banks@),
                kmap(banks@) == kmap(function_banks@.take(i as int)),
            decreases function_banks.len() - i,
        {
            kv_insert(&mut banks, function_banks[i].0.clone(), function_banks[i].1);
            assert(function_banks@.take(i + 1).drop_last() =~= function_banks@.take(i as int));
            i += 1;
        }
        assert(function_banks@.take(function_banks.len() as int) =~= function_banks@);
        let r = Self {
            function_banks: banks,
            function_lines: Vec::new(),
            cross_bank_calls: Vec::new(),
            generated_wrappers: Vec::new(),
            bank_register,
        };
        assert(r.lines() =~= Map::<Seq<char>, usize>::empty());
        assert(r.generated() =~= Set::<Seq<char>>::empty());
        r
    }

    /// Register the source line number for a function (for debugging)
    pub fn register_function_line(&mut self, func_name: &str, line: usize)
        requires
            old(self).wf(),
        ensures
            final(self).wf(),
            final(self).lines() == old(self).lines().insert(func_name@, line),
            final(self).banks() == old(self).banks(),
            final(self).calls() == old(self).calls(),
            final(self).generated() == old(self).generated(),
            final(self).register() == old(self).register(),
    {
        kv_insert(&mut self.function_lines, string_from(func_name), line);
    }

    /// Detect if a function call is cross-bank
    /// Returns Some(target_bank) if cross-bank, None if same-bank or unknown
    pub fn is_cross_bank_call(&self, caller_func: &str, callee_func: &str) -> (r: Option<u8>)
        requires
            self.wf(),
        ensures
            r == self.cross_bank(caller_func@, callee_func@),
    {
        let caller_bank = match kv_get(&self.function_banks, caller_func) {
            Some(b) => *b,
            None => return None,
        };
        let callee_bank = match kv_get(&self.function_banks, callee_func) {
            Some(b) => *b,
            None => return None,
        };
        if caller_bank != callee_bank {
            Some(callee_bank)
        } else {
            None
        }
    }

    /// Record a cross-bank call for later wrapper generation
    pub fn record_cross_bank_call(&mut self, caller_func: String, callee_func: String)
        requires
            old(self).wf(),
        ensures
            final(self).wf(),
            final(self).banks() == old(self).banks(),
            final(self).lines() == old(self).lines(),
            final(self).generated() == old(self).generated(),
            final(self).register() == old(self).register(),
            match old(self).cross_bank(caller_func@, callee_func@) {
                Some(b) => {
                    &&& final(self).calls().len() == old(self).calls().len() + 1
                    &&& final(self).calls().drop_last() == old(self).calls()
                    &&& final(self).calls().last().caller_func@ == caller_func@
                    &&& final(self).calls().last().caller_bank == old(self).banks()[caller_func@]
                    &&& final(self).calls().last().callee_func@ == callee_func@
                    &&& final(self).calls().last().callee_bank == b
                },
                None => final(self).calls() == old(self).calls(),
            },
    {
        let caller_bank = match kv_get(&self.function_banks, caller_func.as_str()) {
            Some(b) => *b,
            None => return ,
        };
        let callee_bank = match kv_get(&self.function_banks, callee_func.as_str()) {
            Some(b) => *b,
            None => return ,
        };
        if caller_bank != callee_bank {
            self.cross_bank_calls.push(
                CrossBankCall { caller_func, caller_bank, callee_func, callee_bank },
            );
        }
    }

    /// Get wrapper name for a function
    pub fn wrapper_name(&self, func_name: &str) -> (r: String)
        ensures
            r@ == wrapper_name_of(func_name@),
    {
        let mut s = string_from(func_name);
        push_str(&mut s, "_BANK_WRAPPER");
        s
    }

    /// Generate ASM code for a cross-bank wrapper function; a wrapper that
    /// was already generated gives the empty string.
    pub fn generate_wrapper(&mut self, func_name: &str, target_bank: u8) -> (r: String)
        requires
            old(self).wf(),
        ensures
            final(self).wf(),
            final(self).banks() == old(self).banks(),
            final(self).lines() == old(self).lines(),
            final(self).calls() == old(self).calls(),
            final(self).register() == old(self).register(),
            final(self).generated() == old(self).generated().insert(wrapper_name_of(func_name@)),
            r@ == (if old(self).generated().contains(wrapper_name_of(func_name@)) {
                Seq::<char>::empty()
            } else {
                wrapper_text(func_name@, target_bank, old(self).line_of(func_name@))
            }),
    {
        let wname = self.wrapper_name(func_name);
        // Avoid generating duplicate wrappers
        if set_contains(&self.generated_wrappers, wname.as_str()) {
            assert(self.generated() =~= old(self).generated().insert(wrapper_name_of(func_name@)));
            return String::new();
        }
        let ghost g0 = self.generated_wrappers@;
        self.generated_wrappers.push(wname.clone());
        proof {
            crate::strset::lemma_push_to_set(sviews(g0), wname@);
            assert(sviews(self.generated_wrappers@) =~= sviews(g0).push(wname@));
            assert forall|a: int, b: int|
                0 <= a < b < sviews(self.generated_wrappers@).len() implies sviews(
                self.generated_wrappers@,
            )[a] != sviews(self.generated_wrappers@)[b] by {
                if b == sviews(g0).len() {
                    assert(sviews(g0).contains(sviews(g0)[a]));
                }
            }
        }
        let mut out = String::new();
        push_str(&mut out, "\n; Cross-bank wrapper for ");
        push_str(&mut out, func_name);
        push_str(&mut out, " (Bank #");
        push_dec(&mut out, target_bank as u64);
        push_str(&mut out, ")\n");
        push_str(&mut out, wname.as_str());
        push_str(
            &mut out,
            ":\n    PSHS A              ; Save A register\n    LDA CURRENT_ROM_BANK ; Read current bank from RAM\n    PSHS A              ; Save current bank on stack\n    LDA #",
        );
        push_dec(&mut out, target_bank as u64);
        push_str(
            &mut out,
            "             ; Load target bank ID\n    STA CURRENT_ROM_BANK ; Switch to target bank (RAM tracker)\n    STA $D000            ; Hardware bank switch register (cartucho intercepts)\n",
        );
        // Get source line number for debugging (if available)
        match kv_get(&self.function_lines, func_name) {
            Some(line) => {
                push_str(&mut out, "    ; VPy_LINE:");
                push_dec(&mut out, *line as u64);
                push_str(&mut out, "\n");
            },
            None => {},
        }
        push_str(&mut out, "    JSR ");
        push_str(&mut out, func_name);
        push_str(
            &mut out,
            "              ; Call real function\n    PULS A              ; Restore original bank from stack\n    STA CURRENT_ROM_BANK ; Switch back to original bank (RAM tracker)\n    STA $D000            ; Hardware bank switch register (cartucho intercepts)\n    PULS A              ; Restore A register\n    RTS\n",
        );
        assert(out@ =~= wrapper_text(func_name@, target_bank, old(self).line_of(func_name@)));
        out
    }
}


/// The entries of `u` hold distinct names.
pub open spec fn names_distinct(u: Seq<(Seq<char>, u8)>) -> bool {
    forall|i: int, j: int| 0 <= i < j < u.len() ==> u[i].0 != u[j].0
}

proof fn lemma_name_index(u: Seq<(Seq<char>, u8)>, n: Seq<char>)
    ensures
        name_index(u, n) matches Some(i) ==> 0 <= i < u.len() && u[i].0 == n,
        name_index(u, n) is None ==> forall|j: int| 0 <= j < u.len() ==> u[j].0 != n,
    decreases u.len(),
{
    if u.len() > 0 {
        lemma_name_index(u.drop_first(), n);
        if u[0].0 != n {
            assert forall|j: int| 1 <= j < u.len() implies u[j] == u.drop_first()[j - 1] by {}
        }
    }
}

proof fn lemma_callee_list_distinct(calls: Seq<CrossBankCall>)
    ensures
        names_distinct(callee_list(calls)),
    decreases calls.len(),
{
    if calls.len() > 0 {
        lemma_callee_list_distinct(calls.drop_last());
        lemma_name_index(callee_list(calls.drop_last()), calls.last().callee_func@);
    }
}

/// The views of a table of callees.
pub open spec fn callee_views(v: Seq<(String, u8)>) -> Seq<(Seq<char>, u8)> {
    v.map_values(|p: (String, u8)| (p.0@, p.1))
}

proof fn lemma_kindex_name_index(v: Seq<(String, u8)>, n: Seq<char>)
    ensures
        kindex(v, n) == name_index(callee_views(v), n),
    decreases v.len(),
{
    if v.len() > 0 {
        lemma_kindex_name_index(v.drop_first(), n);
        assert(callee_views(v).drop_first() =~= callee_views(v.drop_first()));
    }
}

/// The header and footer around the wrappers.
pub open spec fn all_wrappers_text(
    calls: Seq<CrossBankCall>,
    gen: Set<Seq<char>>,
    lines: Map<Seq<char>, usize>,
) -> Seq<char> {
    if calls.len() == 0 {
        Seq::empty()
    } else {
        "\n; ===== CROSS-BANK CALL WRAPPERS =====\n"@ + "; Auto-generated wrappers for bank switching\n\n"@
            + wrappers_text(callee_list(calls), gen, lines) + "; ===== END CROSS-BANK WRAPPERS =====\n\n"@
    }
}

impl BankWrapperGenerator {
    /// Generate all wrapper functions for detected cross-bank calls: one per
    /// distinct callee, in order of first call, switching to the bank of the
    /// last call recorded to it.
    pub fn generate_all_wrappers(&mut self) -> (r: String)
        requires
            old(self).wf(),
        ensures
            final(self).wf(),
            final(self).banks() == old(self).banks(),
            final(self).lines() == old(self).lines(),
            final(self).calls() == old(self).calls(),
            final(self).register() == old(self).register(),
            final(self).generated() == old(self).generated() + callee_list(old(self).calls()).map_values(
                |p: (Seq<char>, u8)| wrapper_name_of(p.0),
            ).to_set(),
            r@ == all_wrappers_text(old(self).calls(), old(self).generated(), old(self).lines()),
    {
        let mut output = String::new();
        if self.cross_bank_calls.len() == 0 {
            assert(callee_list(old(self).calls()).len() == 0);
            assert(self.generated() =~= old(self).generated() + callee_list(old(self).calls()).map_values(
                |p: (Seq<char>, u8)| wrapper_name_of(p.0),
            ).to_set());
            return output;
        }
        push_str(&mut output, "\n; ===== CROSS-BANK CALL WRAPPERS =====\n");
        push_str(&mut output, "; Auto-generated wrappers for bank switching\n\n");
        // Collect unique callee functions
        let mut unique: Vec<(String, u8)> = Vec::new();
        let mut i: usize = 0;
        while i < self.cross_bank_calls.len()
            invariant
                i <= self.cross_bank_calls.len(),
                self.cross_bank_calls@ == old(self).calls(),
                callee_views(unique@) == callee_list(self.cross_bank_calls@.take(i as int)),
            decreases self.cross_bank_calls.len() - i,
        {
            let c = &self.cross_bank_calls[i];
            proof {
                lemma_kindex_name_index(unique@, c.callee_func@);
                assert(self.cross_bank_calls@.take(i + 1).drop_last() =~= self.cross_bank_calls@.take(i as int));
            }
            let ghost u0 = unique@;
            kv_insert_vec(&mut unique, c.callee_func.clone(), c.callee_bank);
            proof {
                let t = self.cross_bank_calls@.take(i + 1);
                assert(t.last() == *c);
                crate::keyed::lemma_kindex(u0, c.callee_func@);
                match kindex(u0, c.callee_func@) {
                    Some(j) => {
                        assert(callee_views(unique@) =~= callee_views(u0).update(j, (c.callee_func@, c.callee_bank)));
                    },
                    None => {
                        assert(callee_views(unique@) =~= callee_views(u0).push((c.callee_func@, c.callee_bank)));
                    },
                }
            }
            assert(callee_views(unique@) =~= callee_list(self.cross_bank_calls@.take(i + 1)));
            i += 1;
        }
        assert(self.cross_bank_calls@.take(i as int) =~= old(self).calls());
        let ghost u = callee_list(old(self).calls());
        proof {
            lemma_callee_list_distinct(old(self).calls());
        }
        // Generate wrapper for each unique callee
        let mut k: usize = 0;
        let ghost out0 = output@;
        assert(u.take(0) =~= Seq::<(Seq<char>, u8)>::empty());
        while k < unique.len()
            invariant
                k <= unique.len(),
                callee_views(unique@) == u,
                names_distinct(u),
                self.wf(),
                self.banks() == old(self).banks(),
                self.lines() == old(self).lines(),
                self.calls() == old(self).calls(),
                self.register() == old(self).register(),
                self.generated() == old(self).generated() + u.take(k as int).map_values(
                    |p: (Seq<char>, u8)| wrapper_name_of(p.0),
                ).to_set(),
                output@ == out0 + wrappers_text(u.take(k as int), old(self).generated(), old(self).lines()),
            decreases unique.len() - k,
        {
            let ghost name = u[k as int].0;
            proof {
                assert(u.take(k + 1).drop_last() =~= u.take(k as int));
                assert(u.take(k + 1).last() == u[k as int]);
                // the wrapper names generated in this call are those of earlier, distinct callees
                if !old(self).generated().contains(wrapper_name_of(name)) {
                    if self.generated().contains(wrapper_name_of(name)) {
                        let w = wrapper_name_of(name);
                        let m0 = u.take(k as int).map_values(|p: (Seq<char>, u8)| wrapper_name_of(p.0));
                        assert(m0.contains(w));
                        let j = choose|j: int| 0 <= j < m0.len() && #[trigger] m0[j] == w;
                        lemma_wrapper_name_injective(u[j].0, name);
                        assert(false);
                    }
                }
            }
            let wrapper = self.generate_wrapper(unique[k].0.as_str(), unique[k].1);
            push_str(&mut output, wrapper.as_str());
            proof {
                let m1 = u.take(k + 1).map_values(|p: (Seq<char>, u8)| wrapper_name_of(p.0));
                let m0 = u.take(k as int).map_values(|p: (Seq<char>, u8)| wrapper_name_of(p.0));
                assert(m1 =~= m0.push(wrapper_name_of(name)));
                crate::strset::lemma_push_to_set(m0, wrapper_name_of(name));
                assert(self.generated() =~= old(self).generated() + m1.to_set());
            }
            k += 1;
            assert(output@ =~= out0 + wrappers_text(u.take(k as int), old(self).generated(), old(self).lines()));
        }
        assert(u.take(k as int) =~= u);
        push_str(&mut output, "; ===== END CROSS-BANK WRAPPERS =====\n\n");
        assert(output@ =~= all_wrappers_text(old(self).calls(), old(self).generated(), old(self).lines()));
        output
    }
}

/// Stores `v` under `k` in a callee table, keeping each callee once and in
/// place.
fn kv_insert_vec(m: &mut Vec<(String, u8)>, k: String, v: u8)
    ensures
        match kindex(old(m)@, k@) {
            Some(i) => final(m)@ == old(m)@.update(i, (k, v)),
            None => final(m)@ == old(m)@.push((k, v)),
        },
{
    match crate::keyed::kv_find(m, k.as_str()) {
        Some(i) => {
            m.set(i, (k, v));
        },
        None => {
            m.push((k, v));
        },
    }
}

/// Initialize the wrapper generator in use (called before emission)
pub fn init_global_generator(slot: &mut Option<BankWrapperGenerator>, generator: BankWrapperGenerator)
    ensures
        *final(slot) == Some(generator),
{
    *slot = Some(generator);
}

/// Clear the wrapper generator in use (cleanup after emission)
pub fn clear_global_generator(slot: &mut Option<BankWrapperGenerator>)
    ensures
        *final(slot) is None,
{
    *slot = None;
}

/// The wrapper a call from `caller_func` to `callee_func` needs, if any:
/// present exactly when a generator is in use and the call crosses banks.
pub fn get_wrapper_for_call(
    slot: &Option<BankWrapperGenerator>,
    caller_func: &str,
    callee_func: &str,
) -> (r: Option<String>)
    requires
        slot matches Some(g) ==> g.wf(),
    ensures
        match slot {
            Some(g) => if g.cross_bank(caller_func@, callee_func@) is Some {
                r matches Some(w) && w@ == wrapper_name_of(callee_func@)
            } else {
                r is None
            },
            None => r is None,
        },
{
    if let Some(gen) = slot {
        if gen.is_cross_bank_call(caller_func, callee_func).is_some() {
            return Some(gen.wrapper_name(callee_func));
        }
    }
    None
}

/// The bank transitions of a sequence of calls (caller bank, callee bank),
/// each with the number of calls that make it, in order of first
/// appearance.
pub open spec fn transition_counts(calls: Seq<(u8, u8)>) -> Seq<(u8, u8, nat)>
    decreases calls.len(),
{
    if calls.len() == 0 {
        Seq::empty()
    } else {
        let t = transition_counts(calls.drop_last());
        let c = calls.last();
        match transition_index(t, c) {
            Some(i) => t.update(i, (c.0, c.1, t[i].2 + 1)),
            None => t.push((c.0, c.1, 1)),
        }
    }
}

/// Where a transition sits in a table of counts.
pub open spec fn transition_index(t: Seq<(u8, u8, nat)>, c: (u8, u8)) -> Option<int>
    decreases t.len(),
{
    if t.len() == 0 {
        None
    } else if t.last().0 == c.0 && t.last().1 == c.1 {
        Some(t.len() - 1)
    } else {
        transition_index(t.drop_last(), c)
    }
}

proof fn lemma_transition_index(t: Seq<(u8, u8, nat)>, c: (u8, u8))
    ensures
        transition_index(t, c) matches Some(i) ==> 0 <= i < t.len() && t[i].0 == c.0 && t[i].1 == c.1,
    decreases t.len(),
{
    if t.len() > 0 {
        lemma_transition_index(t.drop_last(), c);
    }
}

proof fn lemma_transition_counts_bound(calls: Seq<(u8, u8)>)
    ensures
        forall|i: int| 0 <= i < transition_counts(calls).len() ==> #[trigger] transition_counts(calls)[i].2 <= calls.len(),
    decreases calls.len(),
{
    if calls.len() > 0 {
        lemma_transition_counts_bound(calls.drop_last());
        lemma_transition_index(transition_counts(calls.drop_last()), calls.last());
    }
}

/// The bank transitions of the recorded calls.
pub open spec fn call_transitions(calls: Seq<CrossBankCall>) -> Seq<(u8, u8)> {
    calls.map_values(|c: CrossBankCall| (c.caller_bank, c.callee_bank))
}

impl BankWrapperGenerator {
    /// Statistics about cross-bank calls: how many were recorded, how many
    /// wrappers were generated, and how many calls make each bank
    /// transition (caller bank, callee bank), in order of first appearance.
    pub fn statistics(&self) -> (r: (usize, usize, Vec<(u8, u8, usize)>))
        requires
            self.wf(),
        ensures
            r.0 == self.calls().len(),
            r.1 == self.generated().len(),
            r.2@.len() == transition_counts(call_transitions(self.calls())).len(),
            forall|i: int|
                0 <= i < r.2@.len() ==> (r.2@[i].0, r.2@[i].1, r.2@[i].2 as nat) == #[trigger] transition_counts(
                    call_transitions(self.calls()),
                )[i],
    {
        proof {
            sviews(self.generated_wrappers@).unique_seq_to_set();
        }
        let ghost cs = call_transitions(self.cross_bank_calls@);
        let mut counts: Vec<(u8, u8, usize)> = Vec::new();
        let mut k: usize = 0;
        assert(cs.take(0) =~= Seq::<(u8, u8)>::empty());
        while k < self.cross_bank_calls.len()
            invariant
                k <= self.cross_bank_calls.len(),
                cs == call_transitions(self.cross_bank_calls@),
                counts@.len() == transition_counts(cs.take(k as int)).len(),
                forall|i: int|
                    0 <= i < counts@.len() ==> (counts@[i].0, counts@[i].1, counts@[i].2 as nat)
                        == #[trigger] transition_counts(cs.take(k as int))[i],
            decreases self.cross_bank_calls.len() - k,
        {
            let from = self.cross_bank_calls[k].caller_bank;
            let to = self.cross_bank_calls[k].callee_bank;
            let ghost t = transition_counts(cs.take(k as int));
            assert(cs.take(k + 1).drop_last() =~= cs.take(k as int));
            assert(cs.take(k + 1).last() == (from, to));
            proof {
                lemma_transition_counts_bound(cs.take(k as int));
            }
            let mut j = counts.len();
            let mut found = false;
            assert(t.take(j as int) =~= t);
            while j > 0 && !found
                invariant
                    j <= counts.len(),
                    counts@.len() == t.len(),
                    forall|i: int| 0 <= i < counts@.len() ==> (counts@[i].0, counts@[i].1, counts@[i].2 as nat) == #[trigger] t[i],
                    found ==> j > 0 && transition_index(t, (from, to)) == Some(j - 1),
                    !found ==> transition_index(t, (from, to)) == transition_index(t.take(j as int), (from, to)),
                decreases j + (if found { 0int } else { 1int }),
            {
                assert(t.take(j as int).drop_last() =~= t.take(j - 1));
                assert(t.take(j as int).last() == t[j - 1]);
                if counts[j - 1].0 == from && counts[j - 1].1 == to {
                    found = true;
                } else {
                    j -= 1;
                }
            }
            if found {
                let ghost i = j - 1;
                assert(transition_index(t, (from, to)) == Some(i as int));
                assert(t[i as int].2 <= k);
                let entry = counts[j - 1];
                counts.set(j - 1, (from, to, entry.2 + 1));
                assert forall|x: int| 0 <= x < counts@.len() implies (counts@[x].0, counts@[x].1, counts@[x].2 as nat)
                    == #[trigger] transition_counts(cs.take(k + 1))[x] by {}
            } else {
                assert(t.take(0) =~= Seq::<(u8, u8, nat)>::empty());
                counts.push((from, to, 1));
                assert forall|x: int| 0 <= x < counts@.len() implies (counts@[x].0, counts@[x].1, counts@[x].2 as nat)
                    == #[trigger] transition_counts(cs.take(k + 1))[x] by {}
            }
            k += 1;
        }
        assert(cs.take(self.cross_bank_calls.len() as int) =~= cs);
        (self.cross_bank_calls.len(), self.generated_wrappers.len(), counts)
    }
}

} // verus!
