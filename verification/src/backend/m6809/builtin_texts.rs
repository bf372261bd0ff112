//! The fixed texts of the 6809 builtin calls: joystick reads, music
//! control and the vector-list drawing loop.

use vstd::prelude::*;
use crate::codegen::{AssetInfo, AssetType};
use crate::text::{chars_of, dec, hex, push_dec, push_hex, push_str, utf8_len, utf8_len_vec, vec_is};
use super::vector_lists::{lo8, lo8_exec};

verus! {

pub const FIXED_MUSIC_UPDATE: &'static str = "    JSR UPDATE_MUSIC_PSG\n    CLRA\n    CLRB\n    STD RESULT\n";

pub const FIXED_STOP_MUSIC: &'static str = "; STOP_MUSIC() - stop background music\n    JSR STOP_MUSIC_RUNTIME\n    LDD #0\n    STD RESULT\n";

pub const FIXED_J1_X: &'static str = "; J1_X() - Read Joystick 1 X axis (BIOS Digital)\n    LDA #1\n    STA $C81F    ; Vec_Joy_Mux_1_X\n    LDA #3\n    STA $C820    ; Vec_Joy_Mux_1_Y\n    LDA #$D0\n    TFR A,DP     ; Set DP=$D0 (BIOS requirement)\n    JSR $F1F8    ; Joy_Digital\n    LDA #$C8\n    TFR A,DP     ; Restore DP=$C8\n    LDB $C81B    ; Vec_Joy_1_X\n    SEX\n    STD RESULT\n";

pub const FIXED_J1_X_DIGITAL: &'static str = "; J1_X_DIGITAL() - Read Joystick 1 X axis (BIOS Digital)\n    LDA #1\n    STA $C81F    ; Vec_Joy_Mux_1_X\n    LDA #3\n    STA $C820    ; Vec_Joy_Mux_1_Y\n    LDA #$D0\n    TFR A,DP     ; Set DP=$D0 (BIOS requirement)\n    JSR $F1F8    ; Joy_Digital\n    LDA #$C8\n    TFR A,DP     ; Restore DP=$C8\n    LDB $C81B    ; Vec_Joy_1_X\n    SEX\n    STD RESULT\n";

pub const FIXED_J1_X_ANALOG: &'static str = "; J1_X_ANALOG() - Read Joystick 1 X axis (BIOS Analog)\n    LDA #$80\n    STA $C81A    ; Vec_Joy_Resltn (resolution: $80=fast)\n    LDA #1\n    STA $C81F    ; Vec_Joy_Mux_1_X\n    CLR $C820    ; Vec_Joy_Mux_1_Y (disable Y for speed)\n    LDA #$D0\n    TFR A,DP     ; Set DP=$D0 (BIOS requirement)\n    JSR $F1F5    ; Joy_Analog\n    LDA #$C8\n    TFR A,DP     ; Restore DP=$C8\n    LDB $C81B    ; Vec_Joy_1_X\n    SEX\n    STD RESULT\n";

pub const FIXED_J1_Y: &'static str = "; J1_Y() - Read Joystick 1 Y axis (BIOS)\n    LDA #1\n    STA $C81F    ; Vec_Joy_Mux_1_X\n    LDA #3\n    STA $C820    ; Vec_Joy_Mux_1_Y\n    LDA #$D0\n    TFR A,DP     ; Set DP=$D0 (BIOS requirement)\n    JSR $F1F8    ; Joy_Digital\n    LDA #$C8\n    TFR A,DP     ; Restore DP=$C8\n    LDB $C81C    ; Vec_Joy_1_Y\n    SEX\n    STD RESULT\n";

pub const FIXED_J1_Y_ANALOG: &'static str = "; J1_Y_ANALOG() - Read Joystick 1 Y axis (BIOS Analog)\n    LDA #$80\n    STA $C81A    ; Vec_Joy_Resltn (resolution: $80=fast)\n    CLR $C81F    ; Vec_Joy_Mux_1_X (disable X for speed)\n    LDA #3\n    STA $C820    ; Vec_Joy_Mux_1_Y\n    LDA #$D0\n    TFR A,DP     ; Set DP=$D0 (BIOS requirement)\n    JSR $F1F5    ; Joy_Analog\n    LDA #$C8\n    TFR A,DP     ; Restore DP=$C8\n    LDB $C81C    ; Vec_Joy_1_Y\n    SEX\n    STD RESULT\n";

pub const FIXED_J1_BUTTON_1: &'static str = "; J1_BUTTON_1() - Read Joystick 1 button 1 (BIOS)\n    JSR $F1BA    ; Read_Btns\n    LDA $C80F    ; Vec_Btn_State\n    ANDA #$01\n    BEQ .j1b1_not_pressed\n    LDD #1\n    BRA .j1b1_done\n.j1b1_not_pressed:\n    LDD #0\n.j1b1_done:\n    STD RESULT\n";

pub const FIXED_J1_BUTTON_2: &'static str = "; J1_BUTTON_2() - Read Joystick 1 button 2 (BIOS)\n    JSR $F1BA    ; Read_Btns\n    LDA $C80F    ; Vec_Btn_State\n    ANDA #$02\n    BEQ .j1b2_not_pressed\n    LDD #1\n    BRA .j1b2_done\n.j1b2_not_pressed:\n    LDD #0\n.j1b2_done:\n    STD RESULT\n";

pub const FIXED_J1_BUTTON_3: &'static str = "; J1_BUTTON_3() - Read Joystick 1 button 3 (BIOS)\n    JSR $F1BA    ; Read_Btns\n    LDA $C80F    ; Vec_Btn_State\n    ANDA #$04\n    BEQ .j1b3_not_pressed\n    LDD #1\n    BRA .j1b3_done\n.j1b3_not_pressed:\n    LDD #0\n.j1b3_done:\n    STD RESULT\n";

pub const FIXED_J1_BUTTON_4: &'static str = "; J1_BUTTON_4() - Read Joystick 1 button 4 (BIOS)\n    JSR $F1BA    ; Read_Btns\n    LDA $C80F    ; Vec_Btn_State\n    ANDA #$08\n    BEQ .j1b4_not_pressed\n    LDD #1\n    BRA .j1b4_done\n.j1b4_not_pressed:\n    LDD #0\n.j1b4_done:\n    STD RESULT\n";

pub const FIXED_J2_X: &'static str = "; J2_X() - Read Joystick 2 X axis (BIOS)\n    LDA #5\n    STA $C821    ; Vec_Joy_Mux_2_X\n    LDA #7\n    STA $C822    ; Vec_Joy_Mux_2_Y\n    JSR $F1F8    ; Joy_Digital\n    LDB $C81D    ; Vec_Joy_2_X\n    SEX\n    STD RESULT\n";

pub const FIXED_J2_Y: &'static str = "; J2_Y() - Read Joystick 2 Y axis (BIOS)\n    LDA #5\n    STA $C821    ; Vec_Joy_Mux_2_X\n    LDA #7\n    STA $C822    ; Vec_Joy_Mux_2_Y\n    JSR $F1F8    ; Joy_Digital\n    LDB $C81E    ; Vec_Joy_2_Y\n    SEX\n    STD RESULT\n";

pub const FIXED_J2_BUTTON_1: &'static str = "; J2_BUTTON_1() - Read Joystick 2 button 1 (BIOS)\n    JSR $F1BA    ; Read_Btns\n    LDA $C80F    ; Vec_Btn_State\n    ANDA #$10    ; J2 button 1 (bit 4)\n    BEQ .j2b1_not_pressed\n    LDD #1\n    BRA .j2b1_done\n.j2b1_not_pressed:\n    LDD #0\n.j2b1_done:\n    STD RESULT\n";

pub const FIXED_J2_BUTTON_2: &'static str = "; J2_BUTTON_2() - Read Joystick 2 button 2 (BIOS)\n    JSR $F1BA    ; Read_Btns\n    LDA $C80F    ; Vec_Btn_State\n    ANDA #$20    ; J2 button 2 (bit 5)\n    BEQ .j2b2_not_pressed\n    LDD #1\n    BRA .j2b2_done\n.j2b2_not_pressed:\n    LDD #0\n.j2b2_done:\n    STD RESULT\n";

pub const FIXED_J2_BUTTON_3: &'static str = "; J2_BUTTON_3() - Read Joystick 2 button 3 (BIOS)\n    JSR $F1BA    ; Read_Btns\n    LDA $C80F    ; Vec_Btn_State\n    ANDA #$40    ; J2 button 3 (bit 6)\n    BEQ .j2b3_not_pressed\n    LDD #1\n    BRA .j2b3_done\n.j2b3_not_pressed:\n    LDD #0\n.j2b3_done:\n    STD RESULT\n";

pub const FIXED_J2_BUTTON_4: &'static str = "; J2_BUTTON_4() - Read Joystick 2 button 4 (BIOS)\n    JSR $F1BA    ; Read_Btns\n    LDA $C80F    ; Vec_Btn_State\n    ANDA #$80    ; J2 button 4 (bit 7)\n    BEQ .j2b4_not_pressed\n    LDD #1\n    BRA .j2b4_done\n.j2b4_not_pressed:\n    LDD #0\n.j2b4_done:\n    STD RESULT\n";

pub const DRAW_VECTOR_LIST_LOOP: &'static str = "    STX VL_PTR\nVL_LOOP_START:\n    CLR $D05A           ; VIA_shift_reg = 0 (blank beam)\n    LDA #$CC\n    STA $D00B           ; VIA_cntl = 0xCC (zero integrators)\n    CLR $D000           ; VIA_port_a = 0 (reset offset)\n    LDA #$82\n    STA $D002           ; VIA_port_b = 0x82\n    LDA VL_SCALE\n    STA $D004           ; VIA_t1_cnt_lo = scale\n    LDB #5              ; ZERO_DELAY\nVL_DELAY:\n    DECB\n    BNE VL_DELAY\n    LDA #$83\n    STA $D002           ; VIA_port_b = 0x83\n    LDA VL_Y\n    STA $D000           ; VIA_port_a = y\n    LDA #$CE\n    STA $D00B           ; VIA_cntl = 0xCE (integrator mode)\n    CLR $D002           ; VIA_port_b = 0 (mux enable)\n    LDA #1\n    STA $D002           ; VIA_port_b = 1 (mux disable)\n    LDA VL_X\n    STA $D000           ; VIA_port_a = x\n    CLR $D005           ; VIA_t1_cnt_hi = 0 (start timer)\n    LDA VL_SCALE\n    STA $D004           ; VIA_t1_cnt_lo = scale\n    LDX VL_PTR\n    LEAX 3,X\n    STX VL_PTR\nVL_WAIT_MOVE:\n    LDA $D00D           ; VIA_int_flags\n    ANDA #$40\n    BEQ VL_WAIT_MOVE\nVL_PROCESS_LOOP:\n    LDX VL_PTR\n    LDA ,X              ; Load flag byte (*u)\n    TSTA\n    BPL VL_CHECK_MOVE   ; If >= 0, not a draw\nVL_DRAW:\n    LDA 1,X             ; dy\n    STA $D000           ; VIA_port_a = dy\n    CLR $D002           ; VIA_port_b = 0\n    LDA #1\n    STA $D002           ; VIA_port_b = 1\n    LDA 2,X             ; dx\n    STA $D000           ; VIA_port_a = dx\n    CLR $D005           ; VIA_t1_cnt_hi = 0\n    LDA #$FF\n    STA $D05A           ; VIA_shift_reg = 0xFF (beam ON)\nVL_WAIT_DRAW:\n    LDA $D00D\n    ANDA #$40\n    BEQ VL_WAIT_DRAW\n    CLR $D05A           ; VIA_shift_reg = 0 (beam OFF)\n    BRA VL_CONTINUE\nVL_CHECK_MOVE:\n    TSTA\n    BNE VL_CHECK_END    ; If != 0, check for end\n    ; MoveTo logic (similar to draw but no beam)\n    LDA 1,X             ; dy\n    BEQ VL_CHECK_DX\nVL_DO_MOVE:\n    STA $D000           ; VIA_port_a = dy\n    LDA #$CE\n    STA $D00B           ; VIA_cntl = 0xCE\n    CLR $D002\n    LDA #1\n    STA $D002\n    LDA 2,X             ; dx\n    STA $D000\n    CLR $D005\nVL_WAIT_MOVE2:\n    LDA $D00D\n    ANDA #$40\n    BEQ VL_WAIT_MOVE2\n    BRA VL_CONTINUE\nVL_CHECK_DX:\n    LDA 2,X\n    BNE VL_DO_MOVE\n    BRA VL_CONTINUE\nVL_CHECK_END:\n    CMPA #2\n    BEQ VL_DONE         ; Exit if *u == 2\nVL_CONTINUE:\n    LDX VL_PTR\n    LEAX 3,X\n    STX VL_PTR\n    BRA VL_PROCESS_LOOP\nVL_DONE:\n    ; DO-WHILE check: if more lists, loop to VL_LOOP_START\n    ; For single list, we're done\n    LDD #0\n    STD RESULT\n";

/// The builtins without arguments whose code is fixed: the name their
/// native-call comment gives and their code.
pub open spec fn fixed_builtin(up: Seq<char>) -> Option<(Seq<char>, Seq<char>)> {
    if up == "MUSIC_UPDATE"@ {
        Some(("UPDATE_MUSIC_PSG"@, FIXED_MUSIC_UPDATE@))
    } else
    if up == "STOP_MUSIC"@ {
        Some(("STOP_MUSIC"@, FIXED_STOP_MUSIC@))
    } else
    if up == "J1_X"@ {
        Some(("J1_X"@, FIXED_J1_X@))
    } else
    if up == "J1_X_DIGITAL"@ {
        Some(("J1_X_DIGITAL"@, FIXED_J1_X_DIGITAL@))
    } else
    if up == "J1_X_ANALOG"@ {
        Some(("J1_X_ANALOG"@, FIXED_J1_X_ANALOG@))
    } else
    if up == "J1_Y"@ {
        Some(("J1_Y"@, FIXED_J1_Y@))
    } else
    if up == "J1_Y_ANALOG"@ {
        Some(("J1_Y_ANALOG"@, FIXED_J1_Y_ANALOG@))
    } else
    if up == "J1_BUTTON_1"@ {
        Some(("J1_BUTTON_1"@, FIXED_J1_BUTTON_1@))
    } else
    if up == "J1_BUTTON_2"@ {
        Some(("J1_BUTTON_2"@, FIXED_J1_BUTTON_2@))
    } else
    if up == "J1_BUTTON_3"@ {
        Some(("J1_BUTTON_3"@, FIXED_J1_BUTTON_3@))
    } else
    if up == "J1_BUTTON_4"@ {
        Some(("J1_BUTTON_4"@, FIXED_J1_BUTTON_4@))
    } else
    if up == "J2_X"@ {
        Some(("J2_X"@, FIXED_J2_X@))
    } else
    if up == "J2_Y"@ {
        Some(("J2_Y"@, FIXED_J2_Y@))
    } else
    if up == "J2_BUTTON_1"@ {
        Some(("J2_BUTTON_1"@, FIXED_J2_BUTTON_1@))
    } else
    if up == "J2_BUTTON_2"@ {
        Some(("J2_BUTTON_2"@, FIXED_J2_BUTTON_2@))
    } else
    if up == "J2_BUTTON_3"@ {
        Some(("J2_BUTTON_3"@, FIXED_J2_BUTTON_3@))
    } else
    if up == "J2_BUTTON_4"@ {
        Some(("J2_BUTTON_4"@, FIXED_J2_BUTTON_4@))
    } else {
        None
    }
}

/// The fixed builtins, as `fixed_builtin`.
pub fn fixed_builtin_exec(up: &Vec<char>) -> (r: Option<(&'static str, &'static str)>)
    ensures
        match r {
            Some((a, b)) => fixed_builtin(up@) == Some((a@, b@)),
            None => fixed_builtin(up@) is None,
        },
{
    if vec_is(up, "MUSIC_UPDATE") {
        Some(("UPDATE_MUSIC_PSG", FIXED_MUSIC_UPDATE))
    } else
    if vec_is(up, "STOP_MUSIC") {
        Some(("STOP_MUSIC", FIXED_STOP_MUSIC))
    } else
    if vec_is(up, "J1_X") {
        Some(("J1_X", FIXED_J1_X))
    } else
    if vec_is(up, "J1_X_DIGITAL") {
        Some(("J1_X_DIGITAL", FIXED_J1_X_DIGITAL))
    } else
    if vec_is(up, "J1_X_ANALOG") {
        Some(("J1_X_ANALOG", FIXED_J1_X_ANALOG))
    } else
    if vec_is(up, "J1_Y") {
        Some(("J1_Y", FIXED_J1_Y))
    } else
    if vec_is(up, "J1_Y_ANALOG") {
        Some(("J1_Y_ANALOG", FIXED_J1_Y_ANALOG))
    } else
    if vec_is(up, "J1_BUTTON_1") {
        Some(("J1_BUTTON_1", FIXED_J1_BUTTON_1))
    } else
    if vec_is(up, "J1_BUTTON_2") {
        Some(("J1_BUTTON_2", FIXED_J1_BUTTON_2))
    } else
    if vec_is(up, "J1_BUTTON_3") {
        Some(("J1_BUTTON_3", FIXED_J1_BUTTON_3))
    } else
    if vec_is(up, "J1_BUTTON_4") {
        Some(("J1_BUTTON_4", FIXED_J1_BUTTON_4))
    } else
    if vec_is(up, "J2_X") {
        Some(("J2_X", FIXED_J2_X))
    } else
    if vec_is(up, "J2_Y") {
        Some(("J2_Y", FIXED_J2_Y))
    } else
    if vec_is(up, "J2_BUTTON_1") {
        Some(("J2_BUTTON_1", FIXED_J2_BUTTON_1))
    } else
    if vec_is(up, "J2_BUTTON_2") {
        Some(("J2_BUTTON_2", FIXED_J2_BUTTON_2))
    } else
    if vec_is(up, "J2_BUTTON_3") {
        Some(("J2_BUTTON_3", FIXED_J2_BUTTON_3))
    } else
    if vec_is(up, "J2_BUTTON_4") {
        Some(("J2_BUTTON_4", FIXED_J2_BUTTON_4))
    } else {
        None
    }
}

pub const BOX_TOP: &'static str = "; ╔════════════════════════════════════════════════════════════╗\n";
pub const BOX_SEP: &'static str = "; ╠════════════════════════════════════════════════════════════╣\n";
pub const BOX_BOTTOM: &'static str = "; ╚════════════════════════════════════════════════════════════╝\n";
pub const BOX_VEC_TITLE: &'static str = "; ║  ❌ COMPILATION ERROR: Vector asset not found             ║\n";
pub const BOX_SFX_TITLE: &'static str = "; ║  ❌ COMPILATION ERROR: SFX asset not found                ║\n";
pub const BOX_VEC_CALL: &'static str = "; ║  DRAW_VECTOR(\"";
pub const BOX_SFX_CALL: &'static str = "; ║  PLAY_SFX(\"";
pub const BOX_MISSING: &'static str = "\") - asset does not exist";
pub const BOX_END: &'static str = "║\n";
pub const BOX_VEC_NONE: &'static str = "; ║  No .vec files found in assets/vectors/                   ║\n; ║  Please create vector assets in that directory.           ║\n";
pub const BOX_SFX_NONE: &'static str = "; ║  No .vmus files found in assets/sfx/                      ║\n; ║  Please create sound effect assets in that directory.     ║\n";
pub const BOX_VEC_AVAIL: &'static str = "; ║  Available vector assets (";
pub const BOX_SFX_AVAIL: &'static str = "; ║  Available SFX assets (";
pub const BOX_VEC_FOUND: &'static str = " found):                     ║\n";
pub const BOX_SFX_FOUND: &'static str = " found):                        ║\n";
pub const BOX_ITEM: &'static str = "; ║    ";
pub const BOX_VEC_FAIL: &'static str = "    ERROR_VECTOR_ASSET_NOT_FOUND  ; Assembly will fail here\n";
pub const BOX_SFX_FAIL: &'static str = "    ERROR_SFX_ASSET_NOT_FOUND  ; Assembly will fail here\n";

/// `n` spaces.
pub open spec fn spaces(n: nat) -> Seq<char> {
    Seq::new(n, |i: int| ' ')
}

/// Whether an asset has the kind of a sound effect (`sfx`) or of a vector
/// drawing.
pub open spec fn kind_is(a: AssetInfo, sfx: bool) -> bool {
    if sfx {
        a.asset_type is Sfx
    } else {
        a.asset_type is Vector
    }
}

/// The names of the assets of one kind, in order.
pub open spec fn names_of_kind(assets: Seq<AssetInfo>, sfx: bool) -> Seq<Seq<char>>
    decreases assets.len(),
{
    if assets.len() == 0 {
        Seq::empty()
    } else {
        let r = names_of_kind(assets.drop_last(), sfx);
        if kind_is(assets.last(), sfx) {
            r.push(assets.last().name@)
        } else {
            r
        }
    }
}

/// The lines that list the available assets, numbered from one.
pub open spec fn avail_lines(names: Seq<Seq<char>>) -> Seq<char>
    decreases names.len(),
{
    if names.len() == 0 {
        Seq::empty()
    } else {
        let i = names.len() - 1;
        avail_lines(names.drop_last()) + BOX_ITEM@ + dec((i + 1) as nat) + ". \""@ + names[i] + "\""@
            + spaces((56 - utf8_len(names[i])) as nat) + BOX_END@
    }
}

/// Whether the box for a missing asset can be drawn: the name and every
/// listed name fit in their columns.
pub open spec fn asset_box_fits(name: Seq<char>, assets: Seq<AssetInfo>, sfx: bool) -> bool {
    &&& utf8_len(name) <= if sfx {
        35int
    } else {
        29int
    }
    &&& forall|i: int|
        0 <= i < names_of_kind(assets, sfx).len() ==> utf8_len(
            #[trigger] names_of_kind(assets, sfx)[i],
        ) <= 56
}

/// The top of the box: the title and the line naming the missing asset.
pub open spec fn box_head(name: Seq<char>, sfx: bool) -> Seq<char> {
    BOX_TOP@ + (if sfx {
        BOX_SFX_TITLE@
    } else {
        BOX_VEC_TITLE@
    }) + BOX_SEP@ + (if sfx {
        BOX_SFX_CALL@
    } else {
        BOX_VEC_CALL@
    }) + name + BOX_MISSING@ + spaces(
        ((if sfx {
            35int
        } else {
            29int
        }) - utf8_len(name)) as nat,
    ) + BOX_END@ + BOX_SEP@
}

/// The part of the box that lists the assets of the kind that exist.
pub open spec fn box_list(avail: Seq<Seq<char>>, sfx: bool) -> Seq<char> {
    if avail.len() == 0 {
        if sfx {
            BOX_SFX_NONE@
        } else {
            BOX_VEC_NONE@
        }
    } else {
        (if sfx {
            BOX_SFX_AVAIL@
        } else {
            BOX_VEC_AVAIL@
        }) + dec(avail.len()) + (if sfx {
            BOX_SFX_FOUND@
        } else {
            BOX_VEC_FOUND@
        }) + avail_lines(avail)
    }
}

/// The comment box that reports a missing vector (or sound-effect) asset,
/// with the assets of that kind that do exist, and the line that makes the
/// assembly fail.
pub open spec fn asset_box(name: Seq<char>, assets: Seq<AssetInfo>, sfx: bool) -> Seq<char> {
    box_head(name, sfx) + box_list(names_of_kind(assets, sfx), sfx) + BOX_BOTTOM@ + if sfx {
        BOX_SFX_FAIL@
    } else {
        BOX_VEC_FAIL@
    }
}

fn push_spaces(out: &mut String, n: usize)
    ensures
        final(out)@ == old(out)@ + spaces(n as nat),
{
    let ghost o = out@;
    let mut i: usize = 0;
    while i < n
        invariant
            i <= n,
            out@ == o + spaces(i as nat),
        decreases n - i,
    {
        crate::text::push_char(out, ' ');
        i += 1;
        assert(out@ =~= o + spaces(i as nat));
    }
}

fn is_kind(a: &AssetInfo, sfx: bool) -> (r: bool)
    ensures
        r == kind_is(*a, sfx),
{
    if sfx {
        matches!(a.asset_type, AssetType::Sfx)
    } else {
        matches!(a.asset_type, AssetType::Vector)
    }
}

fn kind_indices(assets: &Vec<AssetInfo>, sfx: bool) -> (avail: Vec<usize>)
    ensures
        avail.len() == names_of_kind(assets@, sfx).len(),
        forall|j: int|
            0 <= j < avail.len() ==> #[trigger] avail@[j] < assets.len() && names_of_kind(
                assets@,
                sfx,
            )[j] == assets@[avail@[j] as int].name@,
{
    let mut avail: Vec<usize> = Vec::new();
    let ghost mut names: Seq<Seq<char>> = Seq::empty();
    let mut i: usize = 0;
    assert(assets@.take(0) =~= Seq::<AssetInfo>::empty());
    while i < assets.len()
        invariant
            i <= assets.len(),
            names == names_of_kind(assets@.take(i as int), sfx),
            avail.len() == names.len(),
            forall|j: int|
                0 <= j < avail.len() ==> #[trigger] avail@[j] < assets.len() && names[j]
                    == assets@[avail@[j] as int].name@,
        decreases assets.len() - i,
    {
        assert(assets@.take(i + 1).drop_last() =~= assets@.take(i as int));
        assert(assets@.take(i + 1).last() == assets@[i as int]);
        if is_kind(&assets[i], sfx) {
            avail.push(i);
            proof {
                names = names.push(assets@[i as int].name@);
            }
        }
        i += 1;
    }
    assert(assets@.take(i as int) =~= assets@);
    avail
}

fn push_box_head(out: &mut String, name: &str, sfx: bool)
    requires
        utf8_len(name@) <= if sfx {
            35int
        } else {
            29int
        },
    ensures
        final(out)@ == old(out)@ + box_head(name@, sfx),
{
    let ghost o = out@;
    push_str(out, BOX_TOP);
    push_str(out, if sfx { BOX_SFX_TITLE } else { BOX_VEC_TITLE });
    push_str(out, BOX_SEP);
    push_str(out, if sfx { BOX_SFX_CALL } else { BOX_VEC_CALL });
    push_str(out, name);
    push_str(out, BOX_MISSING);
    let len = utf8_len_vec(&chars_of(name));
    push_spaces(out, if sfx { 35 - len } else { 29 - len });
    push_str(out, BOX_END);
    push_str(out, BOX_SEP);
    assert(out@ =~= o + box_head(name@, sfx));
}

fn push_box_list(out: &mut String, assets: &Vec<AssetInfo>, sfx: bool)
    requires
        forall|i: int|
            0 <= i < names_of_kind(assets@, sfx).len() ==> utf8_len(
                #[trigger] names_of_kind(assets@, sfx)[i],
            ) <= 56,
    ensures
        final(out)@ == old(out)@ + box_list(names_of_kind(assets@, sfx), sfx),
{
    let ghost o = out@;
    let ghost names = names_of_kind(assets@, sfx);
    let avail = kind_indices(assets, sfx);
    if avail.len() == 0 {
        push_str(out, if sfx { BOX_SFX_NONE } else { BOX_VEC_NONE });
    } else {
        push_str(out, if sfx { BOX_SFX_AVAIL } else { BOX_VEC_AVAIL });
        push_dec(out, avail.len() as u64);
        push_str(out, if sfx { BOX_SFX_FOUND } else { BOX_VEC_FOUND });
        let ghost lh = out@;
        let mut k: usize = 0;
        assert(names.take(0) =~= Seq::<Seq<char>>::empty());
        while k < avail.len()
            invariant
                k <= avail.len(),
                avail.len() == names.len(),
                names == names_of_kind(assets@, sfx),
                forall|i: int| 0 <= i < names.len() ==> utf8_len(#[trigger] names[i]) <= 56,
                forall|j: int|
                    0 <= j < avail.len() ==> #[trigger] avail@[j] < assets.len() && names[j]
                        == assets@[avail@[j] as int].name@,
                out@ == lh + avail_lines(names.take(k as int)),
            decreases avail.len() - k,
        {
            assert(names.take(k + 1).drop_last() =~= names.take(k as int));
            assert(names.take(k + 1)[k as int] == names[k as int]);
            let nm = &assets[avail[k]].name;
            assert(utf8_len(names[k as int]) <= 56);
            push_str(out, BOX_ITEM);
            push_dec(out, (k + 1) as u64);
            push_str(out, ". \"");
            push_str(out, nm.as_str());
            push_str(out, "\"");
            let l = utf8_len_vec(&chars_of(nm.as_str()));
            push_spaces(out, 56 - l);
            push_str(out, BOX_END);
            k += 1;
            assert(out@ =~= lh + avail_lines(names.take(k as int)));
        }
        assert(names.take(k as int) =~= names);
    }
    assert(out@ =~= o + box_list(names, sfx));
}

/// Emits the box for a missing asset (see `asset_box`).
pub fn emit_asset_box(out: &mut String, name: &str, assets: &Vec<AssetInfo>, sfx: bool)
    requires
        asset_box_fits(name@, assets@, sfx),
    ensures
        final(out)@ == old(out)@ + asset_box(name@, assets@, sfx),
{
    let ghost o = out@;
    push_box_head(out, name, sfx);
    push_box_list(out, assets, sfx);
    push_str(out, BOX_BOTTOM);
    push_str(out, if sfx { BOX_SFX_FAIL } else { BOX_VEC_FAIL });
    assert(out@ =~= o + asset_box(name@, assets@, sfx));
}

// ---------------------------------------------------------------------------
// Drawing with constant arguments
// ---------------------------------------------------------------------------

pub const DP_BIOS: &'static str = "    LDA #$D0\n    TFR A,DP\n";
pub const DP_RESET: &'static str = "    LDA #$D0\n    TFR A,DP\n    JSR Reset0Ref\n";
pub const DP_RESTORE: &'static str = "    LDA #$C8\n    TFR A,DP\n";
pub const CLR_MISC: &'static str = "    CLR Vec_Misc_Count\n";
pub const MOVETO: &'static str = "    JSR Moveto_d\n";
pub const DRAW_LINE_D: &'static str = "    JSR Draw_Line_d\n";
pub const RESULT_ZERO: &'static str = "    LDD #0\n    STD RESULT\n";
pub const RESULT_CLEAR: &'static str = "    CLRA\n    CLRB\n    STD RESULT\n";

/// Sets the beam intensity: the BIOS shortcut for `$5F`, the low byte in A
/// otherwise.
pub open spec fn intensity_set(i: i32) -> Seq<char> {
    if i == 0x5F {
        "    JSR Intensity_5F\n"@
    } else {
        "    LDA #$"@ + hex(lo8(i as int), 2) + "\n    JSR Intensity_a\n"@
    }
}

/// Loads the low bytes of `a` and `b` into A and B, then the call `tail`.
pub open spec fn ab_call(a: int, b: int, tail: Seq<char>) -> Seq<char> {
    "    LDA #$"@ + hex(lo8(a), 2) + "\n    LDB #$"@ + hex(lo8(b), 2) + "\n"@ + tail
}

/// Draws a line by the given deltas.
pub open spec fn draw_delta(dy: int, dx: int) -> Seq<char> {
    CLR_MISC@ + ab_call(dy, dx, DRAW_LINE_D@)
}

/// `DRAW_LINE` with constant coordinates and intensity.
pub open spec fn draw_line_const(x0: i32, y0: i32, x1: i32, y1: i32, i: i32) -> Seq<char> {
    DP_BIOS@ + intensity_set(i) + draw_delta(y1 - y0, x1 - x0) + DP_RESTORE@ + RESULT_ZERO@
}

/// Half of `v`, rounded toward zero.
pub open spec fn half(v: int) -> int {
    if v >= 0 {
        v / 2
    } else {
        -((-v) / 2)
    }
}

/// The abs of `v`.
pub open spec fn absv(v: int) -> int {
    if v >= 0 {
        v
    } else {
        -v
    }
}

/// The code of the first `k` edges of a constant polygon: a move to the
/// first vertex, then each edge, split in two halves when it is longer than
/// 127 on an axis.
pub open spec fn poly_edges(v: Seq<(i32, i32)>, k: nat) -> Seq<char>
    decreases k,
{
    if k == 0 {
        Seq::empty()
    } else {
        let i = k - 1;
        let (x0, y0) = v[i];
        let (x1, y1) = v[(i + 1) % (v.len() as int)];
        let dx = x1 - x0;
        let dy = y1 - y0;
        let split = absv(dx) > 127 || absv(dy) > 127;
        poly_edges(v, i as nat) + (if i == 0 {
            ab_call(y0 as int, x0 as int, MOVETO@)
        } else {
            Seq::empty()
        }) + if split {
            draw_delta(half(dy), half(dx)) + draw_delta(dy - half(dy), dx - half(dx))
        } else {
            draw_delta(dy, dx)
        }
    }
}

/// Whether each edge of the polygon has 32-bit deltas, none the smallest.
pub open spec fn poly_fits(v: Seq<(i32, i32)>) -> bool {
    forall|i: int|
        0 <= i < v.len() ==> {
            let (x0, y0) = #[trigger] v[i];
            let (x1, y1) = v[(i + 1) % (v.len() as int)];
            i32::MIN < x1 - x0 <= i32::MAX && i32::MIN < y1 - y0 <= i32::MAX
        }
}

/// `DRAW_POLYGON` with constant vertices.
pub open spec fn polygon_const(v: Seq<(i32, i32)>, i: i32) -> Seq<char> {
    intensity_set(i) + DP_RESET@ + poly_edges(v, v.len()) + RESULT_ZERO@
}

/// The edges of a circle (closed) or of an arc or spiral (open) through the
/// given vertices.
pub open spec fn shape_edges(v: Seq<(i32, i32)>, k: nat, closed: bool) -> Seq<char>
    decreases k,
{
    if k == 0 {
        Seq::empty()
    } else {
        let i = k - 1;
        let (x0, y0) = v[i];
        let (x1, y1) = if closed {
            v[(i + 1) % (v.len() as int)]
        } else {
            v[i + 1]
        };
        shape_edges(v, i as nat, closed) + draw_delta(y1 - y0, x1 - x0)
    }
}

/// A circle, arc or spiral through the given vertices; circles end with
/// `LDD #0`, the others with `CLRA`/`CLRB`.
pub open spec fn shape_text(v: Seq<(i32, i32)>, closed: bool, i: i32, circle: bool) -> Seq<char> {
    DP_RESET@ + intensity_set(i) + ab_call(v[0].1 as int, v[0].0 as int, MOVETO@) + shape_edges(
        v,
        if closed {
            v.len()
        } else {
            (v.len() - 1) as nat
        },
        closed,
    ) + if circle {
        RESULT_ZERO@
    } else {
        RESULT_CLEAR@
    }
}

fn push_intensity(out: &mut String, i: i32)
    ensures
        final(out)@ == old(out)@ + intensity_set(i),
{
    let ghost o = out@;
    if i == 0x5F {
        push_str(out, "    JSR Intensity_5F\n");
    } else {
        push_str(out, "    LDA #$");
        push_hex(out, lo8_exec(i as i64) as u64, 2);
        push_str(out, "\n    JSR Intensity_a\n");
        assert(out@ =~= o + intensity_set(i));
    }
}

fn push_ab_call(out: &mut String, a: i64, b: i64, tail: &str)
    ensures
        final(out)@ == old(out)@ + ab_call(a as int, b as int, tail@),
{
    let ghost o = out@;
    push_str(out, "    LDA #$");
    push_hex(out, lo8_exec(a) as u64, 2);
    push_str(out, "\n    LDB #$");
    push_hex(out, lo8_exec(b) as u64, 2);
    push_str(out, "\n");
    push_str(out, tail);
    assert(out@ =~= o + ab_call(a as int, b as int, tail@));
}

fn push_draw_delta(out: &mut String, dy: i64, dx: i64)
    ensures
        final(out)@ == old(out)@ + draw_delta(dy as int, dx as int),
{
    let ghost o = out@;
    push_str(out, CLR_MISC);
    push_ab_call(out, dy, dx, DRAW_LINE_D);
    assert(out@ =~= o + draw_delta(dy as int, dx as int));
}

/// Emits `DRAW_LINE` with constant arguments (see `draw_line_const`).
pub fn emit_draw_line_const(out: &mut String, x0: i32, y0: i32, x1: i32, y1: i32, i: i32)
    ensures
        final(out)@ == old(out)@ + draw_line_const(x0, y0, x1, y1, i),
{
    let ghost o = out@;
    push_str(out, DP_BIOS);
    push_intensity(out, i);
    push_draw_delta(out, y1 as i64 - y0 as i64, x1 as i64 - x0 as i64);
    push_str(out, DP_RESTORE);
    push_str(out, RESULT_ZERO);
    assert(out@ =~= o + draw_line_const(x0, y0, x1, y1, i));
}

fn half_exec(v: i64) -> (r: i64)
    requires
        -0x1_0000_0000 <= v <= 0x1_0000_0000,
    ensures
        r == half(v as int),
{
    if v >= 0 {
        v / 2
    } else {
        -((-v) / 2)
    }
}

/// Emits `DRAW_POLYGON` with constant vertices (see `polygon_const`).
pub fn emit_polygon_const(out: &mut String, v: &Vec<(i32, i32)>, i: i32)
    ensures
        final(out)@ == old(out)@ + polygon_const(v@, i),
{
    let ghost o = out@;
    push_intensity(out, i);
    push_str(out, DP_RESET);
    let ghost h = out@;
    let n = v.len();
    let mut k: usize = 0;
    while k < n
        invariant
            k <= n,
            n == v.len(),
            out@ == h + poly_edges(v@, k as nat),
        decreases n - k,
    {
        let (x0, y0) = v[k];
        let (x1, y1) = v[(k + 1) % n];
        let dx: i64 = x1 as i64 - x0 as i64;
        let dy: i64 = y1 as i64 - y0 as i64;
        let ghost before = out@;
        if k == 0 {
            push_ab_call(out, y0 as i64, x0 as i64, MOVETO);
        }
        let ghost mid = out@;
        let adx = if dx >= 0 { dx } else { -dx };
        let ady = if dy >= 0 { dy } else { -dy };
        if adx > 127 || ady > 127 {
            let hx = half_exec(dx);
            let hy = half_exec(dy);
            push_draw_delta(out, hy, hx);
            push_draw_delta(out, dy - hy, dx - hx);
        } else {
            push_draw_delta(out, dy, dx);
        }
        k += 1;
        assert(out@ =~= h + poly_edges(v@, k as nat)) by {
            assert(mid =~= before + (if k - 1 == 0 {
                ab_call(y0 as int, x0 as int, MOVETO@)
            } else {
                Seq::<char>::empty()
            }));
        }
    }
    push_str(out, RESULT_ZERO);
    assert(out@ =~= o + polygon_const(v@, i));
}

/// Emits a circle, arc or spiral through the given vertices (see
/// `shape_text`).
pub fn emit_shape(out: &mut String, v: &Vec<(i32, i32)>, closed: bool, i: i32, circle: bool)
    requires
        v.len() > 0,
    ensures
        final(out)@ == old(out)@ + shape_text(v@, closed, i, circle),
{
    let ghost o = out@;
    push_str(out, DP_RESET);
    push_intensity(out, i);
    push_ab_call(out, v[0].1 as i64, v[0].0 as i64, MOVETO);
    let ghost h = out@;
    let n = v.len();
    let m: usize = if closed { n } else { n - 1 };
    let mut k: usize = 0;
    while k < m
        invariant
            k <= m,
            n == v.len(),
            n > 0,
            m == if closed { n } else { (n - 1) as usize },
            out@ == h + shape_edges(v@, k as nat, closed),
        decreases m - k,
    {
        let (x0, y0) = v[k];
        let (x1, y1) = if closed { v[(k + 1) % n] } else { v[k + 1] };
        push_draw_delta(out, y1 as i64 - y0 as i64, x1 as i64 - x0 as i64);
        k += 1;
        assert(out@ =~= h + shape_edges(v@, k as nat, closed));
    }
    push_str(out, if circle { RESULT_ZERO } else { RESULT_CLEAR });
    assert(out@ =~= o + shape_text(v@, closed, i, circle));
}

} // verus!
