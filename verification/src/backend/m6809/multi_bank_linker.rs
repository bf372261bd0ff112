//! The multi-bank linker's division of a sectioned assembly file into the
//! code of each ROM bank.

use vstd::prelude::*;
use std::collections::HashMap;
use crate::text::{
    contains, contains_str, extend_vec, find, find_str, lines, lines_vec, parse_uint, parse_uint_vec,
    slice_of, starts_with, starts_with_str, string_of, to_upper, trim, trim_vec, unicode_upper,
    utf8_len, utf8_len_vec, vviews, words, words_vec,
};

verus! {

/// Represents a single bank section in the ASM
#[derive(Debug, Clone)]
pub struct BankSection {
    pub bank_id: u8,
    pub org: u16,
    pub asm_code: String,
    pub size_estimate: usize,
}

/// Multi-bank linker configuration
#[derive(Debug, Clone)]
pub struct MultiBankLinker {
    pub rom_bank_size: u32,
    pub rom_bank_count: u8,
    pub use_native_assembler: bool,
}

/// Model of a bank section: bank, origin, code, and size estimate.
pub struct SectionM {
    pub bank_id: u8,
    pub org: u16,
    pub code: Seq<char>,
    pub size: usize,
}

impl BankSection {
    pub open spec fn view(&self) -> SectionM {
        SectionM {
            bank_id: self.bank_id,
            org: self.org,
            code: self.asm_code@,
            size: self.size_estimate,
        }
    }
}

impl MultiBankLinker {
    pub fn new(rom_bank_size: u32, rom_bank_count: u8, use_native_assembler: bool) -> (r: Self)
        ensures
            r.rom_bank_size == rom_bank_size,
            r.rom_bank_count == rom_bank_count,
            r.use_native_assembler == use_native_assembler,
    {
        MultiBankLinker { rom_bank_size, rom_bank_count, use_native_assembler }
    }
}

// ---------------------------------------------------------------------------
// Model of the division
// ---------------------------------------------------------------------------

/// A line and its line feed.
pub open spec fn nl(s: Seq<char>) -> Seq<char> {
    s.push('\n')
}

/// The state of the scan over the lines of the assembly text.
pub struct ScanM {
    pub in_bank: bool,
    pub in_defs: bool,
    pub defs_ended: bool,
    pub bank: Option<u8>,
    pub org: Option<u16>,
    pub code: Seq<char>,
    pub header: Seq<char>,
    pub includes: Seq<char>,
    pub defs: Seq<char>,
    pub post: Seq<char>,
    pub saved: Seq<SectionM>,
}

/// The state before the first line.
pub open spec fn scan_init() -> ScanM {
    ScanM {
        in_bank: false,
        in_defs: false,
        defs_ended: false,
        bank: None,
        org: None,
        code: Seq::empty(),
        header: Seq::empty(),
        includes: Seq::empty(),
        defs: Seq::empty(),
        post: Seq::empty(),
        saved: Seq::empty(),
    }
}

/// The position of the section of bank `id`, if there is one.
pub open spec fn section_index(s: Seq<SectionM>, id: u8) -> Option<int>
    decreases s.len(),
{
    if s.len() == 0 {
        None
    } else {
        match section_index(s.drop_last(), id) {
            Some(k) => Some(k),
            None => if s.last().bank_id == id {
                Some(s.len() - 1)
            } else {
                None
            },
        }
    }
}

/// The sections with `sec` in place of the section of its bank, or added
/// after them if its bank has none.
pub open spec fn upsert(s: Seq<SectionM>, sec: SectionM) -> Seq<SectionM> {
    match section_index(s, sec.bank_id) {
        Some(k) => s.update(k, sec),
        None => s.push(sec),
    }
}

/// The bank number of a line `; BANK #N ...`: its third word without the
/// characters `#`, space and `-` at either end, as a `u8`.
pub open spec fn bank_header_id(l: Seq<char>) -> Option<u8> {
    let parts = words(l);
    if parts.len() >= 3 {
        match parse_uint(trim_bank_word(parts[2]), 10, 255) {
            Some(v) => Some(v as u8),
            None => None,
        }
    } else {
        None
    }
}

pub open spec fn is_bank_trim_char(c: char) -> bool {
    c == '#' || c == ' ' || c == '-'
}

/// A word without `#`, space and `-` at either end.
pub open spec fn trim_bank_word(w: Seq<char>) -> Seq<char>
    decreases w.len(),
{
    if w.len() > 0 && is_bank_trim_char(w[0]) {
        trim_bank_word(w.drop_first())
    } else if w.len() > 0 && is_bank_trim_char(w.last()) {
        trim_bank_word(w.drop_last())
    } else {
        w
    }
}

/// A word without the `$` signs at its start.
pub open spec fn skip_dollars(w: Seq<char>) -> Seq<char>
    decreases w.len(),
{
    if w.len() > 0 && w[0] == '$' {
        skip_dollars(w.drop_first())
    } else {
        w
    }
}

/// The origin of a line `ORG $HHHH`: its second word without leading `$`,
/// as a hexadecimal `u16`.
pub open spec fn org_value(l: Seq<char>) -> Option<u16> {
    let parts = words(l);
    if parts.len() >= 2 {
        match parse_uint(skip_dollars(parts[1]), 16, 65535) {
            Some(v) => Some(v as u16),
            None => None,
        }
    } else {
        None
    }
}

pub open spec fn lit_include() -> Seq<char> {
    "INCLUDE"@
}

/// The marker of the RAM definitions section.
pub open spec fn lit_ram_defs() -> Seq<char> {
    "=== RAM VARIABLE DEFINITIONS"@
}

/// The marker of the cross-bank wrappers section.
pub open spec fn lit_wrappers() -> Seq<char> {
    "; ===== CROSS-BANK CALL WRAPPERS ====="@
}

/// The state with the current bank saved, when a new bank header comes in
/// a bank whose number and origin are known: the includes, a line feed,
/// the definitions, a line feed, then the bank's code.
pub open spec fn save_current(s: ScanM) -> ScanM {
    if s.in_bank && s.bank is Some && s.org is Some {
        ScanM {
            saved: upsert(
                s.saved,
                SectionM {
                    bank_id: s.bank->0,
                    org: s.org->0,
                    code: nl(s.includes) + nl(s.defs) + s.code,
                    size: utf8_len(s.code),
                },
            ),
            ..s
        }
    } else {
        s
    }
}

/// One line of the scan: `INCLUDE` lines before the banks, the RAM
/// definitions, bank headers, `ORG` lines in a bank, the end of the banks
/// at a `; ===== ` line, and the code of the header, the banks and what
/// follows them.
pub open spec fn scan_step(s: ScanM, l: Seq<char>) -> ScanM {
    if !s.in_bank && starts_with(unicode_upper(trim(l)), lit_include()) {
        ScanM { includes: s.includes + nl(l), ..s }
    } else if contains(l, lit_ram_defs()) {
        ScanM { in_defs: true, defs: s.defs + nl(l), ..s }
    } else if s.in_defs {
        let ends = trim(l).len() == 0 || (!contains(l, "EQU"@) && !starts_with(l, ";"@));
        ScanM {
            defs: s.defs + nl(l),
            in_defs: !ends,
            defs_ended: s.defs_ended || ends,
            ..s
        }
    } else {
        let header = starts_with(l, "; BANK #"@);
        let s1 = if header {
            save_current(s)
        } else {
            s
        };
        if header && bank_header_id(l) is Some {
            ScanM {
                bank: bank_header_id(l),
                code: Seq::empty(),
                in_bank: true,
                post: Seq::empty(),
                ..s1
            }
        } else if starts_with(trim(l), "ORG "@) && s1.in_bank && org_value(l) is Some {
            ScanM { org: org_value(l), code: s1.code + nl(l), ..s1 }
        } else if s1.in_bank && starts_with(l, "; ===== "@) {
            ScanM { in_bank: false, post: s1.post + nl(l), ..s1 }
        } else if s1.in_bank {
            ScanM { code: s1.code + nl(l), ..s1 }
        } else if s1.defs_ended {
            ScanM { post: s1.post + nl(l), ..s1 }
        } else {
            ScanM { header: s1.header + nl(l), ..s1 }
        }
    }
}

/// The state after the given lines.
pub open spec fn scan_lines(ls: Seq<Seq<char>>) -> ScanM
    decreases ls.len(),
{
    if ls.len() == 0 {
        scan_init()
    } else {
        scan_step(scan_lines(ls.drop_last()), ls.last())
    }
}

// ---------------------------------------------------------------------------
// The scan
// ---------------------------------------------------------------------------

/// The models of a sequence of sections.
pub open spec fn sections_view(v: Seq<BankSection>) -> Seq<SectionM> {
    v.map_values(|b: BankSection| b.view())
}

struct Scan {
    in_bank: bool,
    in_defs: bool,
    defs_ended: bool,
    bank: Option<u8>,
    org: Option<u16>,
    code: Vec<char>,
    header: Vec<char>,
    includes: Vec<char>,
    defs: Vec<char>,
    post: Vec<char>,
    saved: Vec<BankSection>,
}

impl Scan {
    spec fn view(&self) -> ScanM {
        ScanM {
            in_bank: self.in_bank,
            in_defs: self.in_defs,
            defs_ended: self.defs_ended,
            bank: self.bank,
            org: self.org,
            code: self.code@,
            header: self.header@,
            includes: self.includes@,
            defs: self.defs@,
            post: self.post@,
            saved: sections_view(self.saved@),
        }
    }
}

fn section_index_exec(v: &Vec<BankSection>, id: u8) -> (r: Option<usize>)
    ensures
        r matches Some(k) ==> section_index(sections_view(v@), id) == Some(k as int),
        r is None ==> section_index(sections_view(v@), id) is None,
{
    let ghost sv = sections_view(v@);
    let mut i: usize = 0;
    assert(sv.take(0) =~= Seq::<SectionM>::empty());
    while i < v.len()
        invariant
            i <= v.len(),
            sv == sections_view(v@),
            section_index(sv.take(i as int), id) is None,
        decreases v.len() - i,
    {
        assert(sv.take(i + 1).drop_last() =~= sv.take(i as int));
        if v[i].bank_id == id {
            proof {
                lemma_section_index_prefix(sv, i + 1, id);
            }
            return Some(i);
        }
        i += 1;
    }
    assert(sv.take(v.len() as int) =~= sv);
    None
}

proof fn lemma_section_index_prefix(s: Seq<SectionM>, j: int, id: u8)
    requires
        0 <= j <= s.len(),
        section_index(s.take(j), id) is Some,
    ensures
        section_index(s, id) == section_index(s.take(j), id),
    decreases s.len(),
{
    if j == s.len() {
        assert(s.take(j) =~= s);
    } else {
        assert(s.drop_last().take(j) =~= s.take(j));
        lemma_section_index_prefix(s.drop_last(), j, id);
    }
}

proof fn lemma_section_index_bound(s: Seq<SectionM>, id: u8)
    ensures
        section_index(s, id) matches Some(k) ==> 0 <= k < s.len() && s[k].bank_id == id,
        section_index(s, id) is None ==> forall|k: int| 0 <= k < s.len() ==> s[k].bank_id != id,
    decreases s.len(),
{
    if s.len() > 0 {
        lemma_section_index_bound(s.drop_last(), id);
        assert forall|k: int| 0 <= k < s.len() - 1 implies s[k] == s.drop_last()[k] by {}
    }
}

fn upsert_exec(v: &mut Vec<BankSection>, sec: BankSection)
    ensures
        sections_view(final(v)@) == upsert(sections_view(old(v)@), sec.view()),
{
    let ghost sv = sections_view(v@);
    proof {
        lemma_section_index_bound(sv, sec.bank_id);
    }
    match section_index_exec(v, sec.bank_id) {
        Some(k) => {
            v.set(k, sec);
            assert(sections_view(v@) =~= sv.update(k as int, sec.view()));
        },
        None => {
            v.push(sec);
            assert(sections_view(v@) =~= sv.push(sec.view()));
        },
    }
}

fn trim_bank_word_exec(w: &Vec<char>) -> (r: Vec<char>)
    ensures
        r@ == trim_bank_word(w@),
{
    let mut lo: usize = 0;
    let mut hi: usize = w.len();
    assert(w@.subrange(0, w.len() as int) =~= w@);
    while lo < hi && (w[lo] == '#' || w[lo] == ' ' || w[lo] == '-')
        invariant
            lo <= hi == w.len(),
            trim_bank_word(w@.subrange(lo as int, hi as int)) == trim_bank_word(w@),
        decreases hi - lo,
    {
        assert(w@.subrange(lo as int, hi as int).drop_first() =~= w@.subrange(lo + 1, hi as int));
        lo += 1;
    }
    while lo < hi && (w[hi - 1] == '#' || w[hi - 1] == ' ' || w[hi - 1] == '-')
        invariant
            lo <= hi <= w.len(),
            lo < hi ==> !is_bank_trim_char(w@[lo as int]),
            trim_bank_word(w@.subrange(lo as int, hi as int)) == trim_bank_word(w@),
        decreases hi - lo,
    {
        assert(w@.subrange(lo as int, hi as int).drop_last() =~= w@.subrange(lo as int, hi - 1));
        hi -= 1;
    }
    slice_of(w, lo, hi)
}

fn skip_dollars_exec(w: &Vec<char>) -> (r: Vec<char>)
    ensures
        r@ == skip_dollars(w@),
{
    let mut lo: usize = 0;
    assert(w@.subrange(0, w.len() as int) =~= w@);
    while lo < w.len() && w[lo] == '$'
        invariant
            lo <= w.len(),
            skip_dollars(w@.subrange(lo as int, w.len() as int)) == skip_dollars(w@),
        decreases w.len() - lo,
    {
        assert(w@.subrange(lo as int, w.len() as int).drop_first() =~= w@.subrange(
            lo + 1,
            w.len() as int,
        ));
        lo += 1;
    }
    assert(w@.subrange(0, w.len() as int) =~= w@);
    slice_of(w, lo, w.len())
}

fn bank_header_id_exec(l: &Vec<char>) -> (r: Option<u8>)
    ensures
        r == bank_header_id(l@),
{
    let parts = words_vec(l);
    if parts.len() >= 3 {
        let w = trim_bank_word_exec(&parts[2]);
        match parse_uint_vec(&w, 10, 255) {
            Some(v) => Some(v as u8),
            None => None,
        }
    } else {
        None
    }
}

fn org_value_exec(l: &Vec<char>) -> (r: Option<u16>)
    ensures
        r == org_value(l@),
{
    let parts = words_vec(l);
    if parts.len() >= 2 {
        let w = skip_dollars_exec(&parts[1]);
        match parse_uint_vec(&w, 16, 65535) {
            Some(v) => Some(v as u16),
            None => None,
        }
    } else {
        None
    }
}

fn push_line(buf: &mut Vec<char>, l: &Vec<char>)
    ensures
        final(buf)@ == old(buf)@ + nl(l@),
{
    extend_vec(buf, l);
    buf.push('\n');
    assert(buf@ =~= old(buf)@ + nl(l@));
}

fn save_current_exec(st: &mut Scan)
    ensures
        final(st).view() == save_current(old(st).view()),
{
    if st.in_bank {
        if let (Some(b), Some(o)) = (st.bank, st.org) {
            let mut full: Vec<char> = Vec::new();
            push_line(&mut full, &st.includes);
            push_line(&mut full, &st.defs);
            extend_vec(&mut full, &st.code);
            let sec = BankSection {
                bank_id: b,
                org: o,
                asm_code: string_of(&full),
                size_estimate: utf8_len_vec(&st.code),
            };
            assert(full@ =~= nl(st.includes@) + nl(st.defs@) + st.code@);
            upsert_exec(&mut st.saved, sec);
        }
    }
}

fn scan_line(st: &mut Scan, l: &Vec<char>)
    ensures
        final(st).view() == scan_step(old(st).view(), l@),
{
    let t = trim_vec(l);
    if !st.in_bank {
        let up = to_upper(string_of(&t).as_str());
        let upv = crate::text::chars_of(up.as_str());
        if starts_with_str(&upv, "INCLUDE") {
            push_line(&mut st.includes, l);
            return ;
        }
    }
    if contains_str(l, "=== RAM VARIABLE DEFINITIONS") {
        st.in_defs = true;
        push_line(&mut st.defs, l);
        return ;
    }
    if st.in_defs {
        push_line(&mut st.defs, l);
        if t.len() == 0 || (!contains_str(l, "EQU") && !starts_with_str(l, ";")) {
            st.in_defs = false;
            st.defs_ended = true;
        }
        return ;
    }
    let header = starts_with_str(l, "; BANK #");
    if header {
        save_current_exec(st);
        if let Some(id) = bank_header_id_exec(l) {
            st.bank = Some(id);
            st.code = Vec::new();
            st.in_bank = true;
            st.post = Vec::new();
            return ;
        }
    }
    if starts_with_str(&t, "ORG ") && st.in_bank {
        if let Some(o) = org_value_exec(l) {
            st.org = Some(o);
            push_line(&mut st.code, l);
            return ;
        }
    }
    if st.in_bank && starts_with_str(l, "; ===== ") {
        st.in_bank = false;
        push_line(&mut st.post, l);
        return ;
    }
    if st.in_bank {
        push_line(&mut st.code, l);
    } else if st.defs_ended {
        push_line(&mut st.post, l);
    } else {
        push_line(&mut st.header, l);
    }
}

// ---------------------------------------------------------------------------
// Model of the assembly of the sections
// ---------------------------------------------------------------------------

/// The earlier of two optional positions.
pub open spec fn min_pos(a: Option<int>, b: Option<int>) -> Option<int> {
    match (a, b) {
        (Some(x), Some(y)) => Some(if x <= y {
            x
        } else {
            y
        }),
        (Some(x), None) => Some(x),
        (None, Some(y)) => Some(y),
        (None, None) => None,
    }
}

/// Where the shared data (array and constant literals) of a bank's code
/// starts: the first of the data markers.
pub open spec fn shared_tail_start(code: Seq<char>) -> Option<int> {
    min_pos(
        min_pos(
            min_pos(find(code, "; Array literal for variable"@), find(code, "; Const array literal"@)),
            min_pos(find(code, "; Inline array"@), find(code, "; CONST ARRAY"@)),
        ),
        find(code, "; === CONST ARRAY"@),
    )
}

/// The text `ins` and a line feed put before the first line that starts,
/// after its leading whitespace, with `kw`; every line gets a line feed.
pub open spec fn insert_before_lines(ls: Seq<Seq<char>>, ins: Seq<char>, kw: Seq<char>) -> (
    Seq<char>,
    bool,
)
    decreases ls.len(),
{
    if ls.len() == 0 {
        (Seq::empty(), false)
    } else {
        let (o, f) = insert_before_lines(ls.drop_last(), ins, kw);
        let l = ls.last();
        if !f && starts_with(trim(l), kw) {
            (o + nl(ins) + nl(l), true)
        } else {
            (o + nl(l), f)
        }
    }
}

pub open spec fn insert_before(code: Seq<char>, ins: Seq<char>, kw: Seq<char>) -> Seq<char> {
    insert_before_lines(lines(code), ins, kw).0
}

/// `a + b` as `usize` addition wraps.
pub open spec fn wrap_add(a: usize, b: usize) -> usize {
    ((a + b) % (usize::MAX as int + 1)) as usize
}

/// The sections with the runtime helpers put before the first `ORG ` line
/// of each section that has no cross-bank wrappers (when there are any
/// helpers).
pub open spec fn with_runtime(secs: Seq<SectionM>, runtime: Seq<char>) -> Seq<SectionM> {
    secs.map_values(
        |sec: SectionM|
            if !contains(sec.code, lit_wrappers()) && runtime.len() > 0 {
                let c = insert_before(sec.code, runtime, "ORG "@);
                SectionM { code: c, size: utf8_len(c), ..sec }
            } else {
                sec
            },
    )
}

/// The sections with the shared data appended, after a line feed, to every
/// bank but the one it came from.
pub open spec fn with_tail(secs: Seq<SectionM>, tail: Seq<char>, from: u8) -> Seq<SectionM> {
    secs.map_values(
        |sec: SectionM|
            if sec.bank_id != from {
                let c = sec.code + seq!['\n'] + tail;
                SectionM { code: c, size: utf8_len(c), ..sec }
            } else {
                sec
            },
    )
}

/// The sections with the header code (what precedes the first bank) put
/// into bank 31, before its first `ORG` line, or in a new bank 31 at
/// `$4000` after the includes, definitions and runtime helpers.
pub open spec fn with_header(
    secs: Seq<SectionM>,
    header: Seq<char>,
    includes: Seq<char>,
    defs: Seq<char>,
    runtime: Seq<char>,
) -> Seq<SectionM> {
    if header.len() == 0 {
        secs
    } else {
        match section_index(secs, 31) {
            Some(k) => secs.update(
                k,
                SectionM {
                    code: insert_before(secs[k].code, header, "ORG"@),
                    size: wrap_add(secs[k].size, utf8_len(header)),
                    ..secs[k]
                },
            ),
            None => {
                let c = nl(includes) + nl(defs) + nl(runtime) + header;
                upsert(secs, SectionM { bank_id: 31, org: 0x4000, code: c, size: utf8_len(c) })
            },
        }
    }
}

/// The sections of an assembly text, in the order their banks first
/// appear: each bank's code after the includes and definitions, the last
/// bank with the runtime helpers (the code after the banks and any
/// cross-bank wrappers left in it), the helpers put into the other banks,
/// the header code in bank 31, the last bank's shared data appended to the
/// other banks, and the header code also as the pseudo-bank 255 at origin 0.
pub open spec fn split_sections(text: Seq<char>) -> Seq<SectionM> {
    let s = scan_lines(lines(text));
    let wi = find(s.code, lit_wrappers());
    let bank_only = match wi {
        Some(i) => s.code.take(i),
        None => s.code,
    };
    let wrappers = match wi {
        Some(i) => s.code.skip(i),
        None => Seq::empty(),
    };
    let runtime = s.post + wrappers;
    let last = s.bank is Some && s.org is Some;
    let secs1 = if last {
        let c = nl(s.includes) + nl(s.defs) + nl(runtime) + bank_only;
        upsert(s.saved, SectionM { bank_id: s.bank->0, org: s.org->0, code: c, size: utf8_len(c) })
    } else {
        s.saved
    };
    let secs2 = with_runtime(secs1, runtime);
    let secs3 = with_header(secs2, s.header, s.includes, s.defs, runtime);
    let secs4 = if last && shared_tail_start(bank_only) is Some {
        with_tail(secs3, bank_only.skip(shared_tail_start(bank_only)->0), s.bank->0)
    } else {
        secs3
    };
    if s.header.len() > 0 {
        upsert(
            secs4,
            SectionM { bank_id: 255, org: 0, code: s.header, size: utf8_len(s.header) },
        )
    } else {
        secs4
    }
}

/// The sections keyed by bank, a later one replacing an earlier one.
pub open spec fn sections_map(secs: Seq<SectionM>) -> Map<u8, SectionM>
    decreases secs.len(),
{
    if secs.len() == 0 {
        Map::empty()
    } else {
        sections_map(secs.drop_last()).insert(secs.last().bank_id, secs.last())
    }
}

// ---------------------------------------------------------------------------
// The assembly of the sections
// ---------------------------------------------------------------------------

fn min_pos_exec(a: Option<usize>, b: Option<usize>) -> (r: Option<usize>)
    ensures
        opt_int(r) == min_pos(opt_int(a), opt_int(b)),
{
    match (a, b) {
        (Some(x), Some(y)) => Some(if x <= y {
            x
        } else {
            y
        }),
        (Some(x), None) => Some(x),
        (None, Some(y)) => Some(y),
        (None, None) => None,
    }
}

pub open spec fn opt_int(o: Option<usize>) -> Option<int> {
    match o {
        Some(x) => Some(x as int),
        None => None,
    }
}

fn find_exec(v: &Vec<char>, p: &str) -> (r: Option<usize>)
    ensures
        opt_int(r) == find(v@, p@),
        r matches Some(k) ==> k <= v.len(),
{
    find_str(v, p)
}

fn shared_tail_start_exec(code: &Vec<char>) -> (r: Option<usize>)
    ensures
        opt_int(r) == shared_tail_start(code@),
        r matches Some(k) ==> k <= code.len(),
{
    let a = find_exec(code, "; Array literal for variable");
    let b = find_exec(code, "; Const array literal");
    let c = find_exec(code, "; Inline array");
    let d = find_exec(code, "; CONST ARRAY");
    let e = find_exec(code, "; === CONST ARRAY");
    min_pos_exec(min_pos_exec(min_pos_exec(a, b), min_pos_exec(c, d)), e)
}

fn insert_before_exec(code: &Vec<char>, ins: &Vec<char>, kw: &str) -> (r: Vec<char>)
    ensures
        r@ == insert_before(code@, ins@, kw@),
{
    let ls = lines_vec(code);
    let ghost lv = vviews(ls@);
    let mut out: Vec<char> = Vec::new();
    let mut found = false;
    let mut i: usize = 0;
    assert(lv.take(0) =~= Seq::<Seq<char>>::empty());
    while i < ls.len()
        invariant
            i <= ls.len(),
            lv == vviews(ls@),
            lv == lines(code@),
            (out@, found) == insert_before_lines(lv.take(i as int), ins@, kw@),
        decreases ls.len() - i,
    {
        assert(lv.take(i + 1).drop_last() =~= lv.take(i as int));
        assert(lv.take(i + 1).last() == ls@[i as int]@);
        let t = trim_vec(&ls[i]);
        if !found && starts_with_str(&t, kw) {
            push_line(&mut out, ins);
            found = true;
        }
        push_line(&mut out, &ls[i]);
        assert(out@ =~= insert_before_lines(lv.take(i + 1), ins@, kw@).0);
        i += 1;
    }
    assert(lv.take(ls.len() as int) =~= lv);
    out
}

fn wrap_add_exec(a: usize, b: usize) -> (r: usize)
    ensures
        r == wrap_add(a, b),
{
    let ghost m: int = usize::MAX as int + 1;
    if a <= usize::MAX - b {
        assert((a + b) % m == a + b) by {
            vstd::arithmetic::div_mod::lemma_small_mod((a + b) as nat, m as nat);
        }
        a + b
    } else {
        let r = b - (usize::MAX - a) - 1;
        assert((a + b) % m == r) by {
            vstd::arithmetic::div_mod::lemma_small_mod(r as nat, m as nat);
            vstd::arithmetic::div_mod::lemma_mod_add_multiples_vanish(r as int, m);
        }
        r
    }
}

fn with_runtime_exec(secs: &mut Vec<BankSection>, runtime: &Vec<char>)
    ensures
        sections_view(final(secs)@) == with_runtime(sections_view(old(secs)@), runtime@),
{
    let ghost target = with_runtime(sections_view(secs@), runtime@);
    let ghost orig = sections_view(secs@);
    let mut i: usize = 0;
    while i < secs.len()
        invariant
            i <= secs.len(),
            secs.len() == orig.len(),
            target == with_runtime(orig, runtime@),
            forall|k: int| 0 <= k < i ==> #[trigger] secs@[k].view() == target[k],
            forall|k: int| i <= k < secs.len() ==> #[trigger] secs@[k].view() == orig[k],
        decreases secs.len() - i,
    {
        assert(secs@[i as int].view() == orig[i as int]);
        let code = crate::text::chars_of(secs[i].asm_code.as_str());
        assert(code@ == orig[i as int].code);
        if !contains_str(&code, "; ===== CROSS-BANK CALL WRAPPERS =====") && runtime.len() > 0 {
            let c = insert_before_exec(&code, runtime, "ORG ");
            let size = utf8_len_vec(&c);
            let sec = BankSection {
                bank_id: secs[i].bank_id,
                org: secs[i].org,
                asm_code: string_of(&c),
                size_estimate: size,
            };
            secs.set(i, sec);
        }
        assert(secs@[i as int].view() == target[i as int]);
        i += 1;
    }
    assert(sections_view(secs@) =~= target);
}

fn with_tail_exec(secs: &mut Vec<BankSection>, tail: &Vec<char>, from: u8)
    ensures
        sections_view(final(secs)@) == with_tail(sections_view(old(secs)@), tail@, from),
{
    let ghost target = with_tail(sections_view(secs@), tail@, from);
    let ghost orig = sections_view(secs@);
    let mut i: usize = 0;
    while i < secs.len()
        invariant
            i <= secs.len(),
            secs.len() == orig.len(),
            target == with_tail(orig, tail@, from),
            forall|k: int| 0 <= k < i ==> #[trigger] secs@[k].view() == target[k],
            forall|k: int| i <= k < secs.len() ==> #[trigger] secs@[k].view() == orig[k],
        decreases secs.len() - i,
    {
        assert(secs@[i as int].view() == orig[i as int]);
        if secs[i].bank_id != from {
            let mut c = crate::text::chars_of(secs[i].asm_code.as_str());
            assert(c@ == orig[i as int].code);
            c.push('\n');
            extend_vec(&mut c, tail);
            let size = utf8_len_vec(&c);
            let sec = BankSection {
                bank_id: secs[i].bank_id,
                org: secs[i].org,
                asm_code: string_of(&c),
                size_estimate: size,
            };
            assert(c@ =~= orig[i as int].code + seq!['\n'] + tail@);
            secs.set(i, sec);
        }
        assert(secs@[i as int].view() == target[i as int]);
        i += 1;
    }
    assert(sections_view(secs@) =~= target);
}

fn with_header_exec(
    secs: &mut Vec<BankSection>,
    header: &Vec<char>,
    includes: &Vec<char>,
    defs: &Vec<char>,
    runtime: &Vec<char>,
)
    ensures
        sections_view(final(secs)@) == with_header(
            sections_view(old(secs)@),
            header@,
            includes@,
            defs@,
            runtime@,
        ),
{
    if header.len() == 0 {
        return ;
    }
    let ghost orig = sections_view(secs@);
    proof {
        lemma_section_index_bound(orig, 31);
    }
    match section_index_exec(secs, 31) {
        Some(k) => {
            let code = crate::text::chars_of(secs[k].asm_code.as_str());
            let c = insert_before_exec(&code, header, "ORG");
            let size = wrap_add_exec(secs[k].size_estimate, utf8_len_vec(header));
            let sec = BankSection {
                bank_id: secs[k].bank_id,
                org: secs[k].org,
                asm_code: string_of(&c),
                size_estimate: size,
            };
            secs.set(k, sec);
            assert(sections_view(secs@) =~= with_header(orig, header@, includes@, defs@, runtime@));
        },
        None => {
            let mut c: Vec<char> = Vec::new();
            push_line(&mut c, includes);
            push_line(&mut c, defs);
            push_line(&mut c, runtime);
            extend_vec(&mut c, header);
            let size = utf8_len_vec(&c);
            let sec = BankSection { bank_id: 31, org: 0x4000, asm_code: string_of(&c), size_estimate: size };
            assert(c@ =~= nl(includes@) + nl(defs@) + nl(runtime@) + header@);
            upsert_exec(secs, sec);
        },
    }
}

impl MultiBankLinker {
    /// Split ASM file into bank sections based on ORG directives: the
    /// sections of `split_sections`, keyed by bank.
    pub fn split_asm_by_bank(&self, asm_content: &str) -> (r: Result<HashMap<u8, BankSection>, String>)
        ensures
            r is Ok,
            r matches Ok(m) ==> m@.dom() == sections_map(split_sections(asm_content@)).dom(),
            r matches Ok(m) ==> forall|k: u8| #[trigger]
                m@.contains_key(k) ==> m@[k].view() == sections_map(
                    split_sections(asm_content@),
                )[k],
    {
        let text = crate::text::chars_of(asm_content);
        let ls = lines_vec(&text);
        let ghost lv = vviews(ls@);
        let mut st = Scan {
            in_bank: false,
            in_defs: false,
            defs_ended: false,
            bank: None,
            org: None,
            code: Vec::new(),
            header: Vec::new(),
            includes: Vec::new(),
            defs: Vec::new(),
            post: Vec::new(),
            saved: Vec::new(),
        };
        assert(sections_view(st.saved@) =~= Seq::<SectionM>::empty());
        assert(st.view() == scan_init());
        assert(lv.take(0) =~= Seq::<Seq<char>>::empty());
        let mut i: usize = 0;
        while i < ls.len()
            invariant
                i <= ls.len(),
                lv == vviews(ls@),
                lv == lines(asm_content@),
                st.view() == scan_lines(lv.take(i as int)),
            decreases ls.len() - i,
        {
            assert(lv.take(i + 1).drop_last() =~= lv.take(i as int));
            assert(lv.take(i + 1).last() == ls@[i as int]@);
            scan_line(&mut st, &ls[i]);
            i += 1;
        }
        assert(lv.take(ls.len() as int) =~= lv);
        let ghost s = st.view();
        let wi = find_exec(&st.code, "; ===== CROSS-BANK CALL WRAPPERS =====");
        let (bank_only, wrappers) = match wi {
            Some(k) => (slice_of(&st.code, 0, k), slice_of(&st.code, k, st.code.len())),
            None => (slice_of(&st.code, 0, st.code.len()), Vec::new()),
        };
        assert(st.code@.subrange(0, st.code.len() as int) =~= st.code@);
        assert(wi matches Some(k) ==> bank_only@ =~= s.code.take(k as int) && wrappers@ =~= s.code.skip(k as int));
        let mut runtime: Vec<char> = Vec::new();
        extend_vec(&mut runtime, &st.post);
        extend_vec(&mut runtime, &wrappers);
        let mut secs: Vec<BankSection> = Vec::new();
        let mut tail_from: Option<(Vec<char>, u8)> = None;
        let ghost last = s.bank is Some && s.org is Some;
        if let (Some(b), Some(o)) = (st.bank, st.org) {
            let mut c: Vec<char> = Vec::new();
            push_line(&mut c, &st.includes);
            push_line(&mut c, &st.defs);
            push_line(&mut c, &runtime);
            extend_vec(&mut c, &bank_only);
            let size = utf8_len_vec(&c);
            let sec = BankSection { bank_id: b, org: o, asm_code: string_of(&c), size_estimate: size };
            assert(c@ =~= nl(s.includes) + nl(s.defs) + nl(runtime@) + bank_only@);
            secs = st.saved;
            upsert_exec(&mut secs, sec);
            if let Some(t) = shared_tail_start_exec(&bank_only) {
                tail_from = Some((slice_of(&bank_only, t, bank_only.len()), b));
            }
        } else {
            secs = st.saved;
        }
        with_runtime_exec(&mut secs, &runtime);
        with_header_exec(&mut secs, &st.header, &st.includes, &st.defs, &runtime);
        if let Some((tail, b)) = tail_from {
            with_tail_exec(&mut secs, &tail, b);
        }
        if st.header.len() > 0 {
            let size = utf8_len_vec(&st.header);
            let sec = BankSection {
                bank_id: 255,
                org: 0,
                asm_code: string_of(&st.header),
                size_estimate: size,
            };
            upsert_exec(&mut secs, sec);
        }
        let ghost final_secs = sections_view(secs@);
        assert(final_secs == split_sections(asm_content@));
        let mut sections: HashMap<u8, BankSection> = HashMap::new();
        let mut k: usize = 0;
        assert(final_secs.take(0) =~= Seq::<SectionM>::empty());
        while k < secs.len()
            invariant
                k <= secs.len(),
                final_secs == sections_view(secs@),
                sections@.dom() == sections_map(final_secs.take(k as int)).dom(),
                forall|key: u8| #[trigger]
                    sections@.contains_key(key) ==> sections@[key].view() == sections_map(
                        final_secs.take(k as int),
                    )[key],
            decreases secs.len() - k,
        {
            proof {
                broadcast use vstd::std_specs::hash::group_hash_axioms;
            }
            assert(final_secs.take(k + 1).drop_last() =~= final_secs.take(k as int));
            let sec = BankSection {
                bank_id: secs[k].bank_id,
                org: secs[k].org,
                asm_code: secs[k].asm_code.clone(),
                size_estimate: secs[k].size_estimate,
            };
            sections.insert(secs[k].bank_id, sec);
            k += 1;
        }
        assert(final_secs.take(secs.len() as int) =~= final_secs);
        Ok(sections)
    }
}

// ---------------------------------------------------------------------------
// Long branches
// ---------------------------------------------------------------------------

/// The short conditional and unconditional branch mnemonics, each with the
/// space that follows it.
pub open spec fn short_branches() -> Seq<Seq<char>> {
    seq![
        "BRA "@,
        "BEQ "@,
        "BNE "@,
        "BCS "@,
        "BCC "@,
        "BLO "@,
        "BHS "@,
        "BLT "@,
        "BGE "@,
        "BLE "@,
        "BGT "@,
        "BVS "@,
        "BVC "@,
        "BMI "@,
        "BPL "@,
    ]
}

pub open spec fn is_short_branch(t: Seq<char>) -> bool {
    exists|i: int| 0 <= i < short_branches().len() && starts_with(t, #[trigger] short_branches()[i])
}

/// `n` spaces.
pub open spec fn spaces(n: nat) -> Seq<char> {
    Seq::new(n, |i: int| ' ')
}

/// One line with a short branch made long: the line's leading whitespace
/// becomes as many spaces as it has UTF-8 bytes, and `L` goes before the
/// mnemonic. Comment lines (`;` or `*`) and other lines stay.
pub open spec fn long_branch_line(l: Seq<char>) -> Seq<char> {
    let t = trim(l);
    if starts_with(t, ";"@) || starts_with(t, "*"@) {
        l
    } else if is_short_branch(t) {
        let lead = l.take(l.len() - crate::text::trim_start(l).len());
        spaces(utf8_len(lead) as nat) + seq!['L'] + t
    } else {
        l
    }
}

/// The lines of a text with their short branches made long, each with a
/// line feed.
pub open spec fn long_branch_lines(ls: Seq<Seq<char>>) -> Seq<char>
    decreases ls.len(),
{
    if ls.len() == 0 {
        Seq::empty()
    } else {
        long_branch_lines(ls.drop_last()) + nl(long_branch_line(ls.last()))
    }
}

fn is_short_branch_exec(t: &Vec<char>) -> (r: bool)
    ensures
        r == is_short_branch(t@),
{
    let names = [
        "BRA ", "BEQ ", "BNE ", "BCS ", "BCC ", "BLO ", "BHS ", "BLT ", "BGE ", "BLE ", "BGT ",
        "BVS ", "BVC ", "BMI ", "BPL ",
    ];
    let mut i: usize = 0;
    while i < 15
        invariant
            i <= 15,
            forall|k: int| 0 <= k < 15 ==> #[trigger] names@[k]@ == short_branches()[k],
            forall|k: int| 0 <= k < i ==> !starts_with(t@, #[trigger] short_branches()[k]),
        decreases 15 - i,
    {
        if starts_with_str(t, names[i]) {
            return true;
        }
        i += 1;
    }
    false
}

/// Convert short branches to long branches, line by line (see
/// `long_branch_line`), for code whose branch targets may lie beyond the
/// reach of a short branch.
pub fn convert_short_to_long_branches(text: &str) -> (r: String)
    ensures
        r@ == long_branch_lines(lines(text@)),
{
    let v = crate::text::chars_of(text);
    let ls = lines_vec(&v);
    let ghost lv = vviews(ls@);
    let mut out: Vec<char> = Vec::new();
    let mut i: usize = 0;
    assert(lv.take(0) =~= Seq::<Seq<char>>::empty());
    while i < ls.len()
        invariant
            i <= ls.len(),
            lv == vviews(ls@),
            lv == lines(text@),
            out@ == long_branch_lines(lv.take(i as int)),
        decreases ls.len() - i,
    {
        assert(lv.take(i + 1).drop_last() =~= lv.take(i as int));
        assert(lv.take(i + 1).last() == ls@[i as int]@);
        let line = &ls[i];
        let t = trim_vec(line);
        let ghost before = out@;
        if starts_with_str(&t, ";") || starts_with_str(&t, "*") {
            push_line(&mut out, line);
        } else if is_short_branch_exec(&t) {
            let rest = crate::text::trim_start_vec(line);
            proof {
                crate::text::lemma_trim_start_len(line@);
            }
            let lead = slice_of(line, 0, line.len() - rest.len());
            let indent = utf8_len_vec(&lead);
            let mut conv: Vec<char> = Vec::new();
            let mut k: usize = 0;
            while k < indent
                invariant
                    k <= indent,
                    conv@ == spaces(k as nat),
                decreases indent - k,
            {
                conv.push(' ');
                assert(conv@ =~= spaces((k + 1) as nat));
                k += 1;
            }
            conv.push('L');
            extend_vec(&mut conv, &t);
            proof {
                assert(lead@ =~= line@.take(line@.len() - crate::text::trim_start(line@).len()));
                assert(conv@ =~= spaces(indent as nat) + seq!['L'] + t@);
            }
            push_line(&mut out, &conv);
        } else {
            push_line(&mut out, line);
        }
        assert(out@ =~= before + nl(long_branch_line(ls@[i as int]@)));
        i += 1;
    }
    assert(lv.take(ls.len() as int) =~= lv);
    string_of(&out)
}

} // verus!
