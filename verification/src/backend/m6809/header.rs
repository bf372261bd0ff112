//! The cartridge header of a 6809 program, and the check that the program
//! defines the two functions the runtime enters: `main` and `loop`.

use vstd::prelude::*;
use vstd::seq_lib::lemma_concat_associative;
use crate::ast::{Item, ItemM, MetaM, Module, ModuleMeta, Stmt, StmtM, view_stmts};
use crate::codegen::{AssetInfo, AssetType, CodegenOptions};
use super::builtin_helpers::{any_music_asset, has_music_asset};
use super::analysis::RuntimeUsage;
use crate::text::{ascii_upper_seq, dec, hex, push_dec, push_hex, str_eq};
use crate::text::{
    ascii_lower_seq, chars_of, push_chars, push_str, starts_with, starts_with_str, to_upper,
    unicode_upper, utf8_len, utf8_len_vec, vec_eq,
};

verus! {

pub const CANONICAL_COPYRIGHT: &'static str = "g GCE 1982";

pub const DEFAULT_MUSIC: &'static str = "music1";

pub const MISSING_MAIN: &'static str = "; ERROR: Missing required function 'def main():'\n; The main() function is required for initialization code that runs once at startup.\n        ; Compilation failed - please add def main(): function\n";

pub const MISSING_LOOP: &'static str = "; ERROR: Missing required function 'def loop():'\n; The loop() function is required and contains code that runs every frame (60 FPS).\n        ; Compilation failed - please add def loop(): function\n";

pub const HEADER_SHAPE: &'static str = "    FCB $F8\n    FCB $50\n    FCB $20\n    FCB $BB\n";

pub const HEADER_END: &'static str = "    FCB $80\n    FCB 0\n\n";

pub const RAM_EQU_HEAD: &'static str = "\n; === RAM VARIABLE DEFINITIONS (EQU) ===\n; Must be defined BEFORE builtin helpers that reference them\nRESULT         EQU $C880   ; Main result temporary\n";

pub const RAM_EQU_MUSIC: &'static str = "PSG_MUSIC_PTR    EQU $C89C   ; Pointer to current PSG music position (RESULT+$1C, 2 bytes)\nPSG_MUSIC_START  EQU $C89E   ; Pointer to start of PSG music for loops (RESULT+$1E, 2 bytes)\nPSG_IS_PLAYING   EQU $C8A0   ; Playing flag (RESULT+$20, 1 byte)\nPSG_MUSIC_ACTIVE EQU $C8A1   ; Set=1 during UPDATE_MUSIC_PSG (for logging, 1 byte)\nPSG_FRAME_COUNT  EQU $C8A2   ; Current frame register write count (RESULT+$22, 1 byte)\nPSG_MUSIC_PTR_DP   EQU $9C  ; DP-relative offset (for lwasm compatibility)\nPSG_MUSIC_START_DP EQU $9E  ; DP-relative offset (for lwasm compatibility)\nPSG_IS_PLAYING_DP  EQU $A0  ; DP-relative offset (for lwasm compatibility)\nPSG_MUSIC_ACTIVE_DP EQU $A1 ; DP-relative offset (for lwasm compatibility)\nPSG_FRAME_COUNT_DP EQU $A2  ; DP-relative offset (for lwasm compatibility)\n";

pub const RAM_EQU_SFX: &'static str = "SFX_PTR        EQU $C8A8   ; Current SFX pointer (RESULT+$28, 2 bytes)\nSFX_TICK       EQU $C8AA   ; 32-bit tick counter (RESULT+$2A, 4 bytes)\nSFX_EVENT      EQU $C8AE   ; Current event pointer (RESULT+$2E, 2 bytes)\nSFX_ACTIVE     EQU $C8B0   ; Playback state (RESULT+$30, 1 byte)\n";

pub const RAM_ORG: &'static str = "    ORG $C880 ; begin runtime variables in RAM\n";

pub const RAM_VARS: &'static str = "; Variables (in RAM)\n";

pub const RESULT_FDB: &'static str = "RESULT:   FDB 0\n";

pub const TMPLEFT_EQU: &'static str = "TMPLEFT   EQU RESULT+2\n";

pub const TMPLEFT_FDB: &'static str = "TMPLEFT:  FDB 0\n";

pub const TMPRIGHT_EQU: &'static str = "TMPRIGHT  EQU RESULT+4\n";

pub const TMPRIGHT_FDB: &'static str = "TMPRIGHT: FDB 0\n";

pub const TMPPTR_EQU: &'static str = "TMPPTR    EQU RESULT+6\n";

pub const TMPPTR_FDB: &'static str = "TMPPTR:   FDB 0\n";

pub const MUL_EQU: &'static str = "MUL_A    EQU RESULT+8\nMUL_B    EQU RESULT+10\nMUL_RES  EQU RESULT+12\nMUL_TMP  EQU RESULT+14\nMUL_CNT  EQU RESULT+16\n";

pub const MUL_FDB: &'static str = "MUL_A:    FDB 0\nMUL_B:    FDB 0\nMUL_RES:  FDB 0\nMUL_TMP:  FDB 0\nMUL_CNT:  FDB 0\n";

pub const DIV_EQU: &'static str = "DIV_A   EQU RESULT+18\nDIV_B   EQU RESULT+20\nDIV_Q   EQU RESULT+22\nDIV_R   EQU RESULT+24\n";

pub const DIV_FDB: &'static str = "DIV_A:    FDB 0\nDIV_B:    FDB 0\nDIV_Q:   FDB 0\nDIV_R:   FDB 0\n";

pub const TEMP_YX_EQU: &'static str = "TEMP_YX   EQU RESULT+26   ; Temporary y,x storage (2 bytes)\n";

pub const TEMP_YX_FDB: &'static str = "TEMP_YX:   FDB 0   ; Temporary y,x storage\n";

pub const PSG_FDB: &'static str = "PSG_MUSIC_PTR:     FDB 0          ; Pointer to current PSG music position\nPSG_MUSIC_START:   FDB 0          ; Pointer to start of PSG music (for loops)\nPSG_IS_PLAYING:    FCB 0          ; Playing flag ($00=stopped, $01=playing)\nPSG_MUSIC_ACTIVE:  FCB 0          ; Set=1 during UPDATE_MUSIC_PSG (for logging)\n";

pub const SFX_FDB: &'static str = "SFX_PTR:       FDB 0   ; Current SFX pointer\nSFX_TICK:      FDB 0,0  ; Current playback tick (32-bit)\nSFX_EVENT:     FDB 0   ; Pointer to current event\nSFX_ACTIVE:    FCB 0   ; 0=stopped, 1=playing\n";

pub const VL_EQU: &'static str = "VL_PTR     EQU $CF80      ; Current position in vector list\nVL_Y       EQU $CF82      ; Y position (1 byte)\nVL_X       EQU $CF83      ; X position (1 byte)\nVL_SCALE   EQU $CF84      ; Scale factor (1 byte)\n";

pub const VL_FDB: &'static str = "VL_PTR:    FDB 0    ; Current position in vector list\nVL_Y:      FCB 0    ; Y position\nVL_X:      FCB 0    ; X position\nVL_SCALE:  FCB 0    ; Scale factor\n";

pub const STRINGS_HEAD: &'static str = "; String literals (classic FCC + $80 terminator)\n";

pub const VCUR_FDB: &'static str = "; Current beam position (low byte storage)\nVCUR_X: FCB 0\nVCUR_Y: FCB 0\n";

pub const LINE_FDB: &'static str = "; Line drawing temps\nVLINE_DX: FCB 0\nVLINE_DY: FCB 0\nVLINE_STEPS: FCB 0\nVLINE_LIST: FCB 0,0 ; 2-byte vector list (Y|endbit, X)\n";

pub const DRAW_VEC_FDB: &'static str = "; DRAW_VECTOR position offset\nDRAW_VEC_X: FCB 0\nDRAW_VEC_Y: FCB 0\n";

pub const TRIG_HEAD: &'static str = "; Trig tables (shared)\n";

pub const ARG_HEAD: &'static str = "; Call argument scratch space\n";

// ---------------------------------------------------------------------------
// Model
// ---------------------------------------------------------------------------

/// Some asset is a sound effect.
pub open spec fn has_sfx_asset(assets: Seq<AssetInfo>) -> bool {
    exists|i: int| 0 <= i < assets.len() && assets[i].asset_type is Sfx
}

/// The RAM definitions that come before the helpers: the result word, and
/// the music player's and the sound-effect player's variables when the
/// program has music or sound effects.
pub open spec fn ram_equ_text(assets: Seq<AssetInfo>) -> Seq<char> {
    RAM_EQU_HEAD@ + (if has_music_asset(assets) {
        RAM_EQU_MUSIC@
    } else {
        Seq::empty()
    }) + (if has_sfx_asset(assets) {
        RAM_EQU_SFX@
    } else {
        Seq::empty()
    }) + "\n"@
}

/// The longest prefix of `s` whose UTF-8 form has at most `max` bytes.
pub open spec fn fit_prefix(s: Seq<char>, max: nat) -> Seq<char>
    decreases s.len(),
{
    if s.len() == 0 || utf8_len(s) <= max {
        s
    } else {
        fit_prefix(s.drop_last(), max)
    }
}

/// Whether a character is an ASCII letter or digit.
pub open spec fn ascii_alnum(c: char) -> bool {
    ('0' <= c && c <= '9') || ('A' <= c && c <= 'Z') || ('a' <= c && c <= 'z')
}

/// The character as the title keeps it: letters, digits and spaces stay,
/// anything else becomes a space.
pub open spec fn title_char(c: char) -> char {
    if ascii_alnum(c) || c == ' ' {
        c
    } else {
        ' '
    }
}

/// Whether the upper-cased title can be cut at 24 bytes: it has at most 24
/// bytes, or a character ends exactly at byte 24.
pub open spec fn title_cut_ok(title: Seq<char>) -> bool {
    let u = unicode_upper(title);
    utf8_len(u) > 24 ==> utf8_len(fit_prefix(u, 24)) == 24
}

/// The title of the header: upper case, cut to 24 bytes, letters, digits
/// and spaces only, and a single space when nothing is left.
pub open spec fn header_title(title: Seq<char>) -> Seq<char> {
    let t = fit_prefix(unicode_upper(title), 24).map_values(|c: char| title_char(c));
    if t.len() == 0 {
        seq![' ']
    } else {
        t
    }
}

/// The copyright line: the override if it starts with the signature that
/// the BIOS looks for, the signature alone otherwise.
pub open spec fn header_copyright(meta: MetaM) -> Seq<char> {
    match meta.copyright_override {
        Some(c) => if starts_with(c, CANONICAL_COPYRIGHT@) {
            c
        } else {
            CANONICAL_COPYRIGHT@
        },
        None => CANONICAL_COPYRIGHT@,
    }
}

/// The music pointer: `$0000` for the music override `0`, the override
/// otherwise, `music1` when there is none.
pub open spec fn header_music(meta: MetaM) -> Seq<char> {
    let m = match meta.music_override {
        Some(m) => m,
        None => DEFAULT_MUSIC@,
    };
    if m == "0"@ {
        "$0000"@
    } else {
        m
    }
}

/// The cartridge header: copyright, music pointer, the fixed height, width
/// and position bytes, the title, and the terminators.
pub open spec fn header_text(meta: MetaM, title: Seq<char>) -> Seq<char> {
    "    FCC \""@ + header_copyright(meta) + "\"\n    FCB $80\n    FDB "@ + header_music(meta)
        + "\n"@ + HEADER_SHAPE@ + "    FCC \""@ + header_title(title) + "\"\n"@ + HEADER_END@
}

/// Whether the item is a function named `name`, letter case aside.
pub open spec fn is_function_named(it: ItemM, name: Seq<char>) -> bool {
    match it {
        ItemM::Function(f) => ascii_lower_seq(f.name) == name,
        _ => false,
    }
}

/// Whether the items hold a function named `name`, letter case aside.
pub open spec fn has_function(items: Seq<ItemM>, name: Seq<char>) -> bool {
    exists|i: int| 0 <= i < items.len() && is_function_named(#[trigger] items[i], name)
}

/// The error text for a program without `main` or without `loop`, `main`
/// first; none when both are there.
pub open spec fn entry_error(items: Seq<ItemM>) -> Option<Seq<char>> {
    if !has_function(items, "main"@) {
        Some(MISSING_MAIN@)
    } else if !has_function(items, "loop"@) {
        Some(MISSING_LOOP@)
    } else {
        None
    }
}

// ---------------------------------------------------------------------------
// Header
// ---------------------------------------------------------------------------

fn fit_prefix_vec(v: Vec<char>, max: usize) -> (r: Vec<char>)
    ensures
        r@ == fit_prefix(v@, max as nat),
{
    let mut v = v;
    let ghost orig = v@;
    while v.len() > 0 && utf8_len_vec(&v) > max
        invariant
            fit_prefix(v@, max as nat) == fit_prefix(orig, max as nat),
        decreases v.len(),
    {
        let ghost before = v@;
        v.pop();
        assert(v@ =~= before.drop_last());
    }
    v
}

/// The title of the header (see `header_title`).
fn header_title_exec(title: &str) -> (r: Vec<char>)
    ensures
        r@ == header_title(title@),
{
    let up = to_upper(title);
    let cut = fit_prefix_vec(chars_of(up.as_str()), 24);
    let mut t: Vec<char> = Vec::new();
    let mut i: usize = 0;
    while i < cut.len()
        invariant
            i <= cut.len(),
            t@ == cut@.take(i as int).map_values(|c: char| title_char(c)),
        decreases cut.len() - i,
    {
        let c = cut[i];
        let keep = ('0' <= c && c <= '9') || ('A' <= c && c <= 'Z') || ('a' <= c && c <= 'z') || c
            == ' ';
        t.push(if keep {
            c
        } else {
            ' '
        });
        i += 1;
        assert(t@ =~= cut@.take(i as int).map_values(|c: char| title_char(c)));
    }
    assert(cut@.take(i as int) =~= cut@);
    if t.len() == 0 {
        t.push(' ');
        assert(t@ =~= seq![' ']);
    }
    t
}

/// Emits the cartridge header (see `header_text`) for the module's
/// metadata and the program title.
pub fn emit_cartridge_header(meta: &ModuleMeta, title: &str, out: &mut String)
    requires
        title_cut_ok(title@),
    ensures
        final(out)@ == old(out)@ + header_text(meta.view(), title@),
{
    let ghost o = out@;
    let copyright: Vec<char> = match &meta.copyright_override {
        Some(c) => {
            let cv = chars_of(c.as_str());
            if starts_with_str(&cv, CANONICAL_COPYRIGHT) {
                cv
            } else {
                chars_of(CANONICAL_COPYRIGHT)
            }
        },
        None => chars_of(CANONICAL_COPYRIGHT),
    };
    let music_raw: Vec<char> = match &meta.music_override {
        Some(m) => chars_of(m.as_str()),
        None => chars_of(DEFAULT_MUSIC),
    };
    let music: Vec<char> = if vec_eq(&music_raw, &chars_of("0")) {
        chars_of("$0000")
    } else {
        music_raw
    };
    assert(copyright@ == header_copyright(meta.view()));
    assert(music@ == header_music(meta.view()));
    push_str(out, "    FCC \"");
    push_chars(out, &copyright);
    push_str(out, "\"\n    FCB $80\n    FDB ");
    push_chars(out, &music);
    push_str(out, "\n");
    push_str(out, HEADER_SHAPE);
    push_str(out, "    FCC \"");
    let t = header_title_exec(title);
    push_chars(out, &t);
    push_str(out, "\"\n");
    push_str(out, HEADER_END);
    assert(out@ =~= o + header_text(meta.view(), title@));
}

/// Emits the cartridge header when the upper-cased title can be cut at 24
/// bytes (see `title_cut_ok`), and leaves `out` alone otherwise; returns
/// whether it could.
pub fn try_emit_cartridge_header(meta: &ModuleMeta, title: &str, out: &mut String) -> (ok: bool)
    ensures
        ok == title_cut_ok(title@),
        ok ==> final(out)@ == old(out)@ + header_text(meta.view(), title@),
        !ok ==> final(out)@ == old(out)@,
{
    let up = chars_of(to_upper(title).as_str());
    let whole = utf8_len_vec(&up);
    let cut = fit_prefix_vec(up, 24);
    let ok = whole <= 24 || utf8_len_vec(&cut) == 24;
    if ok {
        emit_cartridge_header(meta, title, out);
    }
    ok
}

/// The error text for a module without `main` or without `loop` (see
/// `entry_error`).
pub fn entry_error_exec(module: &Module) -> (r: Option<&'static str>)
    ensures
        match r {
            Some(t) => entry_error(module.view().items) == Some(t@),
            None => entry_error(module.view().items) is None,
        },
{
    let mut has_main = false;
    let mut has_loop = false;
    let ghost items = module.view().items;
    let main_v = chars_of("main");
    let loop_v = chars_of("loop");
    let mut i: usize = 0;
    while i < module.items.len()
        invariant
            i <= module.items.len(),
            items == module.view().items,
            items.len() == module.items.len(),
            main_v@ == "main"@,
            loop_v@ == "loop"@,
            has_main == exists|k: int| 0 <= k < i && is_function_named(#[trigger] items[k], "main"@),
            has_loop == exists|k: int| 0 <= k < i && is_function_named(#[trigger] items[k], "loop"@),
        decreases module.items.len() - i,
    {
        assert(items[i as int] == module.items@[i as int].view());
        match &module.items[i] {
            Item::Function(f) => {
                assert(items[i as int] == ItemM::Function(f.view()));
                let lower = crate::text::ascii_lower_vec(&chars_of(f.name.as_str()));
                if vec_eq(&lower, &main_v) {
                    has_main = true;
                }
                if vec_eq(&lower, &loop_v) {
                    has_loop = true;
                }
            },
            _ => {
                assert(!(items[i as int] is Function));
            },
        }
        i += 1;
    }
    if !has_main {
        Some(MISSING_MAIN)
    } else if !has_loop {
        Some(MISSING_LOOP)
    } else {
        None
    }
}

// ---------------------------------------------------------------------------
// RAM definitions
// ---------------------------------------------------------------------------

fn any_sfx_asset(assets: &Vec<AssetInfo>) -> (r: bool)
    ensures
        r == has_sfx_asset(assets@),
{
    let mut i: usize = 0;
    while i < assets.len()
        invariant
            i <= assets.len(),
            forall|j: int| 0 <= j < i ==> !(assets@[j].asset_type is Sfx),
        decreases assets.len() - i,
    {
        if matches!(assets[i].asset_type, AssetType::Sfx) {
            return true;
        }
        i += 1;
    }
    false
}

/// Emits the RAM definitions that the helpers refer to (see
/// `ram_equ_text`).
pub fn emit_ram_equ(assets: &Vec<AssetInfo>, out: &mut String)
    ensures
        final(out)@ == old(out)@ + ram_equ_text(assets@),
{
    let ghost o = out@;
    push_str(out, RAM_EQU_HEAD);
    let ghost a = out@;
    if any_music_asset(assets) {
        push_str(out, RAM_EQU_MUSIC);
    } else {
        assert(out@ =~= a + Seq::<char>::empty());
    }
    let ghost b = out@;
    if any_sfx_asset(assets) {
        push_str(out, RAM_EQU_SFX);
    } else {
        assert(out@ =~= b + Seq::<char>::empty());
    }
    push_str(out, "\n");
    assert(out@ =~= o + ram_equ_text(assets@));
}

// ---------------------------------------------------------------------------
// Model of the RAM variables
// ---------------------------------------------------------------------------

/// The text `t` when `c` holds, nothing otherwise.
pub open spec fn when_text(c: bool, t: Seq<char>) -> Seq<char> {
    if c {
        t
    } else {
        Seq::empty()
    }
}

/// Whether the program needs none of the runtime's scratch variables.
pub open spec fn no_runtime_vars(u: RuntimeUsage, strings_empty: bool, max_args: nat) -> bool {
    !u.needs_tmp_left && !u.needs_tmp_right && !u.needs_tmp_ptr && !u.needs_mul_helper
        && !u.needs_div_helper && !u.needs_line_vars && !u.needs_vcur_vars && strings_empty
        && max_args == 0
}

/// The definitions of the program's variables: symbolic addresses two bytes
/// apart from `$CF00` with `equ`, storage words otherwise.
pub open spec fn var_lines(syms: Seq<Seq<char>>, equ: bool) -> Seq<char>
    decreases syms.len(),
{
    if syms.len() == 0 {
        Seq::empty()
    } else {
        let i = syms.len() - 1;
        var_lines(syms.drop_last(), equ) + if equ {
            "VAR_"@ + unicode_upper(syms[i]) + " EQU $CF00+"@ + dec((2 * i) as nat) + "\n"@
        } else {
            "VAR_"@ + unicode_upper(syms[i]) + ": FDB 0\n"@
        }
    }
}

/// The first `n` argument words as symbolic addresses from `$C8B2` on.
pub open spec fn arg_equ_lines(n: nat) -> Seq<char>
    decreases n,
{
    if n == 0 {
        Seq::empty()
    } else {
        let i = (n - 1) as nat;
        arg_equ_lines(i) + "VAR_ARG"@ + dec(i) + " EQU $"@ + hex(0xC8B2 + 2 * i, 4) + "\n"@
    }
}

/// The first `n` (at most five) argument words as storage.
pub open spec fn arg_fdb_lines(n: nat) -> Seq<char>
    decreases n,
{
    if n == 0 {
        Seq::empty()
    } else if n > 5 {
        arg_fdb_lines(5)
    } else {
        let i = (n - 1) as nat;
        arg_fdb_lines(i) + "VAR_ARG"@ + dec(i) + ": FDB 0\n"@
    }
}

/// The RAM variables of the data section: the runtime's scratch words when
/// the program needs them (as `EQU` addresses when `exclude_ram_org`, as
/// storage otherwise), the player and vector-list variables, the program's
/// variables, and the argument words.
pub open spec fn ram_vars_text(
    u: RuntimeUsage,
    exclude: bool,
    assets: Seq<AssetInfo>,
    strings_empty: bool,
    syms: Seq<Seq<char>>,
    max_args: nat,
) -> Seq<char> {
    let sup = no_runtime_vars(u, strings_empty, max_args);
    scratch_text(u, exclude, sup) + players_text(u, exclude, assets) + var_lines(syms, exclude)
        + when_text(
        !sup,
        ARG_HEAD@ + if exclude {
            arg_equ_lines(max_args)
        } else {
            arg_fdb_lines(max_args)
        },
    )
}

/// `a` for `EQU` addresses, `b` for storage.
pub open spec fn pick(exclude: bool, a: Seq<char>, b: Seq<char>) -> Seq<char> {
    if exclude {
        a
    } else {
        b
    }
}

/// The runtime's scratch words (`sup`: the program needs none).
pub open spec fn scratch_text(u: RuntimeUsage, exclude: bool, sup: bool) -> Seq<char> {
    when_text(!sup && !exclude, RAM_ORG@) + when_text(!sup, RAM_VARS@) + when_text(
        !exclude,
        RESULT_FDB@,
    ) + when_text(!sup && u.needs_tmp_left, pick(exclude, TMPLEFT_EQU@, TMPLEFT_FDB@)) + when_text(
        !sup && u.needs_tmp_right,
        pick(exclude, TMPRIGHT_EQU@, TMPRIGHT_FDB@),
    ) + when_text(!sup && u.needs_tmp_ptr, pick(exclude, TMPPTR_EQU@, TMPPTR_FDB@))
}

/// The helpers' words, the players' variables and the vector-list words.
pub open spec fn players_text(u: RuntimeUsage, exclude: bool, assets: Seq<AssetInfo>) -> Seq<
    char,
> {
    when_text(u.needs_mul_helper, pick(exclude, MUL_EQU@, MUL_FDB@)) + when_text(
        u.needs_div_helper,
        pick(exclude, DIV_EQU@, DIV_FDB@),
    ) + pick(exclude, TEMP_YX_EQU@, TEMP_YX_FDB@) + when_text(
        has_music_asset(assets) && !exclude,
        PSG_FDB@,
    ) + when_text(has_sfx_asset(assets) && !exclude, SFX_FDB@) + pick(exclude, VL_EQU@, VL_FDB@)
}

// ---------------------------------------------------------------------------
// RAM variables
// ---------------------------------------------------------------------------

fn push_when_text(out: &mut String, c: bool, t: &str)
    ensures
        final(out)@ == old(out)@ + when_text(c, t@),
{
    if c {
        push_str(out, t);
    } else {
        assert(old(out)@ =~= old(out)@ + Seq::<char>::empty());
    }
}

fn pick_str(exclude: bool, a: &'static str, b: &'static str) -> (r: &'static str)
    ensures
        r@ == if exclude {
            a@
        } else {
            b@
        },
{
    if exclude {
        a
    } else {
        b
    }
}

fn push_var_lines(out: &mut String, syms: &Vec<String>, equ: bool)
    requires
        syms.len() < 0x4000_0000,
    ensures
        final(out)@ == old(out)@ + var_lines(syms@.map_values(|v: String| v@), equ),
{
    let ghost sv = syms@.map_values(|v: String| v@);
    let ghost o = out@;
    let mut i: usize = 0;
    assert(sv.take(0) =~= Seq::<Seq<char>>::empty());
    while i < syms.len()
        invariant
            i <= syms.len(),
            syms.len() < 0x4000_0000,
            sv == syms@.map_values(|v: String| v@),
            out@ == o + var_lines(sv.take(i as int), equ),
        decreases syms.len() - i,
    {
        assert(sv.take(i + 1).drop_last() =~= sv.take(i as int));
        assert(sv.take(i + 1)[i as int] == syms@[i as int]@);
        let ghost before = out@;
        push_str(out, "VAR_");
        let up = to_upper(syms[i].as_str());
        push_str(out, up.as_str());
        if equ {
            push_str(out, " EQU $CF00+");
            push_dec(out, (2 * i) as u64);
            push_str(out, "\n");
        } else {
            push_str(out, ": FDB 0\n");
        }
        i += 1;
        assert(out@ =~= o + var_lines(sv.take(i as int), equ));
    }
    assert(sv.take(i as int) =~= sv);
}

fn push_arg_lines(out: &mut String, n: usize, equ: bool)
    requires
        equ ==> 0xC8B2 + 2 * n <= 0x10001,
    ensures
        final(out)@ == old(out)@ + if equ {
            arg_equ_lines(n as nat)
        } else {
            arg_fdb_lines(n as nat)
        },
{
    let ghost o = out@;
    let m: usize = if equ || n <= 5 {
        n
    } else {
        5
    };
    assert(!equ ==> arg_fdb_lines(n as nat) == arg_fdb_lines(m as nat));
    let mut i: usize = 0;
    while i < m
        invariant
            i <= m,
            m == if equ || n <= 5 {
                n
            } else {
                5
            },
            equ ==> 0xC8B2 + 2 * n <= 0x10001,
            out@ == o + if equ {
                arg_equ_lines(i as nat)
            } else {
                arg_fdb_lines(i as nat)
            },
        decreases m - i,
    {
        push_str(out, "VAR_ARG");
        push_dec(out, i as u64);
        if equ {
            push_str(out, " EQU $");
            push_hex(out, (0xC8B2 + 2 * i) as u64, 4);
            push_str(out, "\n");
        } else {
            push_str(out, ": FDB 0\n");
        }
        i += 1;
        assert(out@ =~= o + if equ {
            arg_equ_lines(i as nat)
        } else {
            arg_fdb_lines(i as nat)
        });
    }
}

fn push_scratch(out: &mut String, u: &RuntimeUsage, ex: bool, sup: bool)
    ensures
        final(out)@ == old(out)@ + scratch_text(*u, ex, sup),
{
    let ghost o = out@;
    push_when_text(out, !sup && !ex, RAM_ORG);
    push_when_text(out, !sup, RAM_VARS);
    push_when_text(out, !ex, RESULT_FDB);
    push_when_text(out, !sup && u.needs_tmp_left, pick_str(ex, TMPLEFT_EQU, TMPLEFT_FDB));
    push_when_text(out, !sup && u.needs_tmp_right, pick_str(ex, TMPRIGHT_EQU, TMPRIGHT_FDB));
    push_when_text(out, !sup && u.needs_tmp_ptr, pick_str(ex, TMPPTR_EQU, TMPPTR_FDB));
    assert(out@ =~= o + scratch_text(*u, ex, sup));
}

fn push_players(out: &mut String, u: &RuntimeUsage, ex: bool, assets: &Vec<AssetInfo>)
    ensures
        final(out)@ == old(out)@ + players_text(*u, ex, assets@),
{
    let ghost o = out@;
    push_when_text(out, u.needs_mul_helper, pick_str(ex, MUL_EQU, MUL_FDB));
    push_when_text(out, u.needs_div_helper, pick_str(ex, DIV_EQU, DIV_FDB));
    push_str(out, pick_str(ex, TEMP_YX_EQU, TEMP_YX_FDB));
    push_when_text(out, any_music_asset(assets) && !ex, PSG_FDB);
    push_when_text(out, any_sfx_asset(assets) && !ex, SFX_FDB);
    push_str(out, pick_str(ex, VL_EQU, VL_FDB));
    assert(out@ =~= o + players_text(*u, ex, assets@));
}

/// Emits the RAM variables of the data section (see `ram_vars_text`).
/// `strings_empty` says whether the program has no string literals.
#[verifier::spinoff_prover]
pub fn emit_ram_vars(
    u: &RuntimeUsage,
    exclude_ram_org: bool,
    assets: &Vec<AssetInfo>,
    strings_empty: bool,
    syms: &Vec<String>,
    max_args: usize,
    out: &mut String,
)
    requires
        syms.len() < 0x4000_0000,
        exclude_ram_org && !no_runtime_vars(*u, strings_empty, max_args as nat) ==> 0xC8B2 + 2
            * max_args <= 0x10001,
    ensures
        final(out)@ == old(out)@ + ram_vars_text(
            *u,
            exclude_ram_org,
            assets@,
            strings_empty,
            syms@.map_values(|v: String| v@),
            max_args as nat,
        ),
{
    let ghost o = out@;
    let ex = exclude_ram_org;
    let sup = !u.needs_tmp_left && !u.needs_tmp_right && !u.needs_tmp_ptr && !u.needs_mul_helper
        && !u.needs_div_helper && !u.needs_line_vars && !u.needs_vcur_vars && strings_empty
        && max_args == 0;
    push_scratch(out, u, ex, sup);
    push_players(out, u, ex, assets);
    let ghost mid = out@;
    push_var_lines(out, syms, ex);
    let ghost before_args = out@;
    if !sup {
        push_str(out, ARG_HEAD);
        push_arg_lines(out, max_args, ex);
    } else {
        assert(out@ =~= before_args + Seq::<char>::empty());
    }
    assert(out@ =~= o + ram_vars_text(
        *u,
        exclude_ram_org,
        assets@,
        strings_empty,
        syms@.map_values(|v: String| v@),
        max_args as nat,
    ));
}

// ---------------------------------------------------------------------------
// String literals and the remaining RAM bytes
// ---------------------------------------------------------------------------

/// Whether `lit` is the name of an asset (asset names are symbols, not text).
pub open spec fn is_asset_name(assets: Seq<AssetInfo>, lit: Seq<char>) -> bool {
    exists|i: int| 0 <= i < assets.len() && assets[i].name@ == lit
}

/// The (literal, label) pairs that are not asset names, in order.
pub open spec fn text_literals(strs: Seq<(Seq<char>, Seq<char>)>, assets: Seq<AssetInfo>) -> Seq<
    (Seq<char>, Seq<char>),
>
    decreases strs.len(),
{
    if strs.len() == 0 {
        Seq::empty()
    } else {
        let r = text_literals(strs.drop_last(), assets);
        if is_asset_name(assets, strs.last().0) {
            r
        } else {
            r.push(strs.last())
        }
    }
}

/// The string data lines of the literals: the label, the text in
/// ASCII upper case and the `$80` terminator.
pub open spec fn literal_lines(lits: Seq<(Seq<char>, Seq<char>)>) -> Seq<char>
    decreases lits.len(),
{
    if lits.len() == 0 {
        Seq::empty()
    } else {
        literal_lines(lits.drop_last()) + lits.last().1 + ":\n    FCC \""@ + ascii_upper_seq(
            lits.last().0,
        ) + "\"\n    FCB $80\n"@
    }
}

/// The string literals of the data section; a single literal is always
/// labelled `STR_0`.
pub open spec fn string_section_text(
    strs: Seq<(Seq<char>, Seq<char>)>,
    assets: Seq<AssetInfo>,
    suppress_runtime: bool,
) -> Seq<char> {
    let lits = text_literals(strs, assets);
    when_text(!suppress_runtime && lits.len() > 0, STRINGS_HEAD@) + if lits.len() == 1 {
        "STR_0:\n    FCC \""@ + ascii_upper_seq(lits[0].0) + "\"\n    FCB $80\n"@
    } else {
        literal_lines(lits)
    }
}

fn is_asset_name_exec(assets: &Vec<AssetInfo>, lit: &String) -> (r: bool)
    ensures
        r == is_asset_name(assets@, lit@),
{
    let mut i: usize = 0;
    while i < assets.len()
        invariant
            i <= assets.len(),
            forall|j: int| 0 <= j < i ==> assets@[j].name@ != lit@,
        decreases assets.len() - i,
    {
        if str_eq(assets[i].name.as_str(), lit.as_str()) {
            return true;
        }
        i += 1;
    }
    false
}

/// Emits the string literals of the data section (see `string_section_text`).
pub fn emit_string_section(
    strs: &Vec<(String, String)>,
    assets: &Vec<AssetInfo>,
    suppress_runtime: bool,
    out: &mut String,
)
    ensures
        final(out)@ == old(out)@ + string_section_text(
            strs@.map_values(|p: (String, String)| (p.0@, p.1@)),
            assets@,
            suppress_runtime,
        ),
{
    let ghost sv = strs@.map_values(|p: (String, String)| (p.0@, p.1@));
    let mut keep: Vec<usize> = Vec::new();
    let ghost mut lits: Seq<(Seq<char>, Seq<char>)> = Seq::empty();
    let mut i: usize = 0;
    assert(sv.take(0) =~= Seq::<(Seq<char>, Seq<char>)>::empty());
    while i < strs.len()
        invariant
            i <= strs.len(),
            sv == strs@.map_values(|p: (String, String)| (p.0@, p.1@)),
            lits == text_literals(sv.take(i as int), assets@),
            keep.len() == lits.len(),
            forall|j: int|
                0 <= j < keep.len() ==> #[trigger] keep@[j] < strs.len() && lits[j] == sv[keep@[j] as int],
        decreases strs.len() - i,
    {
        assert(sv.take(i + 1).drop_last() =~= sv.take(i as int));
        assert(sv.take(i + 1).last() == sv[i as int]);
        if !is_asset_name_exec(assets, &strs[i].0) {
            keep.push(i);
            proof {
                lits = lits.push(sv[i as int]);
            }
        }
        i += 1;
    }
    assert(sv.take(i as int) =~= sv);
    let ghost o = out@;
    push_when_text(out, !suppress_runtime && keep.len() > 0, STRINGS_HEAD);
    let ghost h = out@;
    if keep.len() == 1 {
        push_str(out, "STR_0:\n    FCC \"");
        let up = crate::text::ascii_upper_vec(&chars_of(strs[keep[0]].0.as_str()));
        push_chars(out, &up);
        push_str(out, "\"\n    FCB $80\n");
        assert(out@ =~= h + ("STR_0:\n    FCC \""@ + ascii_upper_seq(lits[0].0) + "\"\n    FCB $80\n"@));
    } else {
        let mut k: usize = 0;
        assert(lits.take(0) =~= Seq::<(Seq<char>, Seq<char>)>::empty());
        while k < keep.len()
            invariant
                k <= keep.len(),
                keep.len() == lits.len(),
                sv == strs@.map_values(|p: (String, String)| (p.0@, p.1@)),
                forall|j: int|
                    0 <= j < keep.len() ==> #[trigger] keep@[j] < strs.len() && lits[j] == sv[keep@[j] as int],
                out@ == h + literal_lines(lits.take(k as int)),
            decreases keep.len() - k,
        {
            assert(lits.take(k + 1).drop_last() =~= lits.take(k as int));
            assert(lits.take(k + 1).last() == lits[k as int]);
            let idx = keep[k];
            push_str(out, strs[idx].1.as_str());
            push_str(out, ":\n    FCC \"");
            let up = crate::text::ascii_upper_vec(&chars_of(strs[idx].0.as_str()));
            push_chars(out, &up);
            push_str(out, "\"\n    FCB $80\n");
            k += 1;
            assert(out@ =~= h + literal_lines(lits.take(k as int)));
        }
        assert(lits.take(k as int) =~= lits);
    }
    assert(out@ =~= o + string_section_text(sv, assets@, suppress_runtime));
}

/// A byte variable at an offset from `RESULT`.
pub open spec fn equ_line(name: Seq<char>, off: nat) -> Seq<char> {
    name + " EQU RESULT+"@ + dec(off) + "\n"@
}

/// A one-byte variable when `on`: an `EQU` address at `a` or a storage byte.
pub open spec fn byte_var(ex: bool, on: bool, name: Seq<char>, a: nat) -> Seq<char> {
    when_text(on, pick(ex, equ_line(name, a), name + ": FCB 0\n"@))
}

/// The beam position bytes when `on`.
pub open spec fn vcur_vars(ex: bool, on: bool, a: nat) -> Seq<char> {
    when_text(on, pick(ex, equ_line("VCUR_X"@, a) + equ_line("VCUR_Y"@, a + 1), VCUR_FDB@))
}

/// The line-drawing temporaries when `on`.
pub open spec fn line_vars(ex: bool, on: bool, a: nat) -> Seq<char> {
    when_text(
        on,
        pick(
            ex,
            equ_line("VLINE_DX"@, a) + equ_line("VLINE_DY"@, a + 1) + equ_line(
                "VLINE_STEPS"@,
                a + 2,
            ) + equ_line("VLINE_LIST"@, a + 3),
            LINE_FDB@,
        ),
    )
}

/// The vector offset bytes.
pub open spec fn draw_vec_vars(ex: bool, a: nat) -> Seq<char> {
    pick(ex, equ_line("DRAW_VEC_X"@, a) + equ_line("DRAW_VEC_Y"@, a + 1), DRAW_VEC_FDB@)
}

/// The offset after `n` bytes placed when `on` and `ex`.
pub open spec fn after(ex: bool, on: bool, a: nat, n: nat) -> nat {
    if on && ex {
        a + n
    } else {
        a
    }
}

/// The byte variables after the string data, from offset `start` on when
/// they are `EQU` addresses: the diagnostic counter, the beam position, the
/// line temporaries, the vector offset, the blink state and the fast-wait
/// flag as the options and needs ask, then the trigonometry tables when the
/// program uses them.
pub open spec fn tail_vars_text(
    ex: bool,
    diag: bool,
    vcur: bool,
    line: bool,
    blink: bool,
    fast: bool,
    start: nat,
    uses_trig: bool,
    trig_tables: Seq<char>,
) -> Seq<char> {
    let a1 = after(ex, diag, start, 1);
    let a2 = after(ex, vcur, a1, 2);
    let a3 = after(ex, line, a2, 5);
    let a4 = after(ex, true, a3, 2);
    let a5 = after(ex, blink, a4, 1);
    byte_var(ex, diag, "DIAG_COUNTER"@, start) + vcur_vars(ex, vcur, a1) + line_vars(ex, line, a2)
        + draw_vec_vars(ex, a3) + byte_var(ex, blink, "BLINK_STATE"@, a4) + byte_var(
        ex,
        fast,
        "FAST_WAIT_HIT"@,
        a5,
    ) + when_text(uses_trig, TRIG_HEAD@ + trig_tables)
}

fn push_equ(out: &mut String, name: &str, off: u64)
    ensures
        final(out)@ == old(out)@ + equ_line(name@, off as nat),
{
    let ghost o = out@;
    push_str(out, name);
    push_str(out, " EQU RESULT+");
    push_dec(out, off);
    push_str(out, "\n");
    assert(out@ =~= o + equ_line(name@, off as nat));
}

fn push_byte_var(out: &mut String, ex: bool, on: bool, name: &str, a: u64) -> (r: u64)
    requires
        a < 0x1_0000_0000,
    ensures
        final(out)@ == old(out)@ + byte_var(ex, on, name@, a as nat),
        r == after(ex, on, a as nat, 1),
{
    let ghost o = out@;
    if on {
        if ex {
            push_equ(out, name, a);
            return a + 1;
        } else {
            push_str(out, name);
            push_str(out, ": FCB 0\n");
            assert(out@ =~= o + byte_var(ex, on, name@, a as nat));
        }
    } else {
        assert(out@ =~= o + byte_var(ex, on, name@, a as nat));
    }
    a
}

fn push_vcur_vars(out: &mut String, ex: bool, on: bool, a: u64) -> (r: u64)
    requires
        a < 0x1_0000_0000,
    ensures
        final(out)@ == old(out)@ + vcur_vars(ex, on, a as nat),
        r == after(ex, on, a as nat, 2),
{
    let ghost o = out@;
    if on {
        if ex {
            push_equ(out, "VCUR_X", a);
            push_equ(out, "VCUR_Y", a + 1);
            assert(out@ =~= o + vcur_vars(ex, on, a as nat));
            return a + 2;
        } else {
            push_str(out, VCUR_FDB);
        }
    } else {
        assert(out@ =~= o + vcur_vars(ex, on, a as nat));
    }
    a
}

fn push_line_vars(out: &mut String, ex: bool, on: bool, a: u64) -> (r: u64)
    requires
        a < 0x1_0000_0000,
    ensures
        final(out)@ == old(out)@ + line_vars(ex, on, a as nat),
        r == after(ex, on, a as nat, 5),
{
    let ghost o = out@;
    if on {
        if ex {
            push_equ(out, "VLINE_DX", a);
            push_equ(out, "VLINE_DY", a + 1);
            push_equ(out, "VLINE_STEPS", a + 2);
            push_equ(out, "VLINE_LIST", a + 3);
            assert(out@ =~= o + line_vars(ex, on, a as nat));
            return a + 5;
        } else {
            push_str(out, LINE_FDB);
        }
    } else {
        assert(out@ =~= o + line_vars(ex, on, a as nat));
    }
    a
}

fn push_draw_vec_vars(out: &mut String, ex: bool, a: u64) -> (r: u64)
    requires
        a < 0x1_0000_0000,
    ensures
        final(out)@ == old(out)@ + draw_vec_vars(ex, a as nat),
        r == after(ex, true, a as nat, 2),
{
    let ghost o = out@;
    if ex {
        push_equ(out, "DRAW_VEC_X", a);
        push_equ(out, "DRAW_VEC_Y", a + 1);
        assert(out@ =~= o + draw_vec_vars(ex, a as nat));
        a + 2
    } else {
        push_str(out, DRAW_VEC_FDB);
        a
    }
}

/// Emits the byte variables after the string data (see `tail_vars_text`);
/// `syms_len` is the number of program variables, whose words come first.
pub fn emit_tail_vars(
    u: &RuntimeUsage,
    opts: &CodegenOptions,
    syms_len: usize,
    uses_trig: bool,
    trig_tables: &str,
    out: &mut String,
)
    requires
        syms_len < 0x4000_0000,
    ensures
        final(out)@ == old(out)@ + tail_vars_text(
            opts.exclude_ram_org,
            opts.diag_freeze,
            u.needs_vcur_vars,
            u.needs_line_vars,
            opts.blink_intensity,
            opts.fast_wait,
            if opts.exclude_ram_org {
                2 * syms_len as nat
            } else {
                0
            },
            uses_trig,
            trig_tables@,
        ),
{
    let ex = opts.exclude_ram_org;
    let a0: u64 = if ex {
        2 * syms_len as u64
    } else {
        0
    };
    let ghost o = out@;
    let a1 = push_byte_var(out, ex, opts.diag_freeze, "DIAG_COUNTER", a0);
    let ghost b1 = byte_var(ex, opts.diag_freeze, "DIAG_COUNTER"@, a0 as nat);
    let ghost s1 = out@;
    let a2 = push_vcur_vars(out, ex, u.needs_vcur_vars, a1);
    let ghost b2 = vcur_vars(ex, u.needs_vcur_vars, a1 as nat);
    proof {
        lemma_concat_associative(o, b1, b2);
    }
    let a3 = push_line_vars(out, ex, u.needs_line_vars, a2);
    let ghost b3 = line_vars(ex, u.needs_line_vars, a2 as nat);
    proof {
        lemma_concat_associative(o, b1 + b2, b3);
    }
    let a4 = push_draw_vec_vars(out, ex, a3);
    let ghost b4 = draw_vec_vars(ex, a3 as nat);
    proof {
        lemma_concat_associative(o, b1 + b2 + b3, b4);
    }
    let a5 = push_byte_var(out, ex, opts.blink_intensity, "BLINK_STATE", a4);
    let ghost b5 = byte_var(ex, opts.blink_intensity, "BLINK_STATE"@, a4 as nat);
    proof {
        lemma_concat_associative(o, b1 + b2 + b3 + b4, b5);
    }
    let _a6 = push_byte_var(out, ex, opts.fast_wait, "FAST_WAIT_HIT", a5);
    let ghost b6 = byte_var(ex, opts.fast_wait, "FAST_WAIT_HIT"@, a5 as nat);
    proof {
        lemma_concat_associative(o, b1 + b2 + b3 + b4 + b5, b6);
    }
    let ghost s6 = out@;
    let ghost b7 = when_text(uses_trig, TRIG_HEAD@ + trig_tables@);
    if uses_trig {
        push_str(out, TRIG_HEAD);
        push_str(out, trig_tables);
        proof {
            lemma_concat_associative(s6, TRIG_HEAD@, trig_tables@);
        }
    } else {
        assert(out@ =~= s6 + b7);
    }
    proof {
        lemma_concat_associative(o, b1 + b2 + b3 + b4 + b5 + b6, b7);
    }

}

// ---------------------------------------------------------------------------
// Entry
// ---------------------------------------------------------------------------

/// Whether `main` does more than return: its body has a statement that is
/// not a `return`.
pub open spec fn main_has_content(body: Seq<StmtM>) -> bool {
    exists|i: int| 0 <= i < body.len() && !(#[trigger] body[i] is Return)
}

/// Whether a body has a statement that is not a `return`.
pub fn main_has_content_exec(body: &Vec<Stmt>) -> (r: bool)
    ensures
        r == main_has_content(view_stmts(body@)),
{
    let ghost bv = view_stmts(body@);
    proof {
        crate::ast::lemma_view_stmts(body@);
    }
    let mut i: usize = 0;
    while i < body.len()
        invariant
            i <= body.len(),
            bv == view_stmts(body@),
            bv.len() == body.len(),
            forall|k: int| 0 <= k < body.len() ==> #[trigger] bv[k] == body@[k].view(),
            forall|k: int| 0 <= k < i ==> (#[trigger] bv[k]) is Return,
        decreases body.len() - i,
    {
        match &body[i] {
            Stmt::Return(..) => {},
            _ => {
                assert(!(bv[i as int] is Return));
                return true;
            },
        }
        i += 1;
    }
    false
}

/// The entry code when the program does not loop by itself: set the stack,
/// wait for the frame, set the intensity (or blink), run `MAIN` and `LOOP`
/// once, then halt.
pub open spec fn plain_entry_text(force_extended_jsr: bool, blink: bool) -> Seq<char> {
    let ext = if force_extended_jsr {
        ">"@
    } else {
        ""@
    };
    let intensity = if blink {
        "    JSR VECTREX_BLINK_INT\n"@
    } else {
        "    JSR "@ + ext + "Intensity_5F\n"@
    };
    "; Init without implicit loop (auto_loop disabled)\n"@
        + "ENTRY_START: LDS #Vec_Default_Stk ; set default stack like BIOS examples\n    JSR "@ + ext
        + "Wait_Recal\n"@ + intensity
        + "    JSR MAIN ; user initialization\n    JSR LOOP ; user loop\nHANG: BRA HANG\n\n"@
}

/// Emits the entry code of a program without the implicit frame loop (see
/// `plain_entry_text`).
pub fn emit_plain_entry(opts: &CodegenOptions, out: &mut String)
    ensures
        final(out)@ == old(out)@ + plain_entry_text(opts.force_extended_jsr, opts.blink_intensity),
{
    let ghost o = out@;
    let ext = if opts.force_extended_jsr {
        ">"
    } else {
        ""
    };
    push_str(out, "; Init without implicit loop (auto_loop disabled)\n");
    push_str(out, "ENTRY_START: LDS #Vec_Default_Stk ; set default stack like BIOS examples\n    JSR ");
    push_str(out, ext);
    push_str(out, "Wait_Recal\n");
    let ghost m = out@;
    if opts.blink_intensity {
        push_str(out, "    JSR VECTREX_BLINK_INT\n");
    } else {
        push_str(out, "    JSR ");
        push_str(out, ext);
        push_str(out, "Intensity_5F\n");
    }
    push_str(out, "    JSR MAIN ; user initialization\n    JSR LOOP ; user loop\nHANG: BRA HANG\n\n");
    assert(out@ =~= o + plain_entry_text(opts.force_extended_jsr, opts.blink_intensity));
}

} // verus!
