//! The runtime helper routines of the M6809 backend: the wrappers a program
//! calls, the routines the options switch on, and the BIOS wrappers every
//! program gets.

use vstd::prelude::*;
use crate::backend::debug_info::{amap, AsmFunctionM, DebugInfo};
use crate::backend::m6809::analysis::RuntimeUsage;
use crate::codegen::{AssetInfo, AssetType, CodegenOptions};
use crate::strset::{set_contains, set_of};
use crate::text::{chars_of, grow, lines, lines_vec, push_more, push_str, string_from};

verus! {

/// The vector phase helper, resetting the beam with the fast reset.
pub const PHASE_BEGIN_FAST: &'static str = "VECTREX_VECTOR_PHASE_BEGIN:\n    JSR DP_to_C8\n    JSR VECTREX_RESET0_FAST\n    RTS\n";

/// The vector phase helper, resetting the beam through the BIOS.
pub const PHASE_BEGIN: &'static str = "VECTREX_VECTOR_PHASE_BEGIN:\n    JSR DP_to_C8\n    JSR Reset0Ref\n    RTS\n";

/// A static debug vector list and the routine that draws it.
pub const DBG_STATIC_VL: &'static str = "VECTREX_DBG_STATIC_VL:\n    JSR DP_to_C8\n    LDU #DBG_STATIC_LIST\n    LDA #$5F\n    JSR Intensity_a\n    JSR Draw_VL\n    RTS\nDBG_STATIC_LIST:\n    FCB $80,$20\n";

/// The blinking intensity routine.
pub const BLINK_INT: &'static str = "VECTREX_BLINK_INT:\n    LDA BLINK_STATE\n    EORA #$01\n    STA BLINK_STATE\n    BEQ BLINK_LOW\nBLINK_HIGH: LDA #$5F\n    BRA BLINK_SET\nBLINK_LOW:  LDA #$10\nBLINK_SET:  JSR Intensity_a\n    RTS\n";

/// The debug vector drawn at start-up.
pub const DEBUG_DRAW: &'static str = "VECTREX_DEBUG_DRAW:\n    JSR DP_to_C8\n    LDU #DEBUG_DRAW_LIST\n    LDA #$40\n    JSR Intensity_a\n    JSR Draw_VL\n    RTS\nDEBUG_DRAW_LIST:\n    FCB $80,$40\n";

/// The routine that silences the sound chip each frame.
pub const SILENCE: &'static str = "VECTREX_SILENCE:\n    LDA #0\n    STA $D001\n    CLR $D000\n    LDA #1\n    STA $D001\n    CLR $D000\n    LDA #2\n    STA $D001\n    CLR $D000\n    LDA #3\n    STA $D001\n    CLR $D000\n    LDA #4\n    STA $D001\n    CLR $D000\n    LDA #5\n    STA $D001\n    CLR $D000\n    LDA #6\n    STA $D001\n    CLR $D000\n    LDA #7\n    STA $D001\n    LDA #$3F\n    STA $D000\n    LDA #8\n    STA $D001\n    CLR $D000\n    LDA #9\n    STA $D001\n    CLR $D000\n    LDA #10\n    STA $D001\n    CLR $D000\n    RTS\n";

/// The text printing wrapper.
pub const PRINT_TEXT: &'static str = "VECTREX_PRINT_TEXT:\n    ; CRITICAL: Print_Str_d requires DP=$D0 and signature is (Y, X, string)\n    ; VPy signature: PRINT_TEXT(x, y, string) -> args (ARG0=x, ARG1=y, ARG2=string)\n    ; BIOS signature: Print_Str_d(A=Y, B=X, U=string)\n    ; CRITICAL: Set VIA to DAC mode BEFORE calling BIOS (don't assume state)\n    LDA #$98       ; VIA_cntl = $98 (DAC mode for text rendering)\n    STA >$D00C     ; VIA_cntl\n    LDA #$D0\n    TFR A,DP       ; Set Direct Page to $D0 for BIOS\n    LDU VAR_ARG2   ; string pointer (ARG2 = third param)\n    LDA VAR_ARG1+1 ; Y (ARG1 = second param)\n    LDB VAR_ARG0+1 ; X (ARG0 = first param)\n    JSR Print_Str_d\n    LDA #$C8       ; Restore DP to $C8 for our code\n    TFR A,DP\n    RTS\n";

/// The debug print routine.
pub const DEBUG_PRINT: &'static str = "VECTREX_DEBUG_PRINT:\n    ; Debug print to console - writes to end of RAM (safe area)\n    LDA VAR_ARG0+1   ; Load value to debug print\n    STA $CF00        ; Debug output value at end of RAM\n    LDA #$42         ; Debug marker\n    STA $CF01        ; Debug marker to indicate new output\n    RTS\n";

/// The labelled debug print routine.
pub const DEBUG_PRINT_LABELED: &'static str = "VECTREX_DEBUG_PRINT_LABELED:\n    ; Debug print with label - writes to end of RAM (safe area)\n    ; Write label string pointer to end of RAM\n    LDA VAR_ARG0     ; Label string pointer high byte\n    STA $CF02        ; Label pointer high at end of RAM\n    LDA VAR_ARG0+1   ; Label string pointer low byte  \n    STA $CF03        ; Label pointer low at end of RAM\n    ; Write value to debug output\n    LDA VAR_ARG1+1   ; Load value to debug print\n    STA $CF00        ; Debug output value at end of RAM\n    LDA #$FE         ; Labeled debug marker\n    STA $CF01        ; Debug marker to indicate labeled output\n    RTS\n";

/// The memory write routine.
pub const POKE: &'static str = "VECTREX_POKE:\n    ; Write byte to memory address\n    ; ARG0 = address (16-bit), ARG1 = value (8-bit)\n    LDX VAR_ARG0     ; Load address into X\n    LDA VAR_ARG1+1   ; Load value (low byte)\n    STA ,X           ; Store value to address\n    RTS\n";

/// The memory read routine.
pub const PEEK: &'static str = "VECTREX_PEEK:\n    ; Read byte from memory address\n    ; ARG0 = address (16-bit), returns value in VAR_ARG0+1\n    LDX VAR_ARG0     ; Load address into X\n    LDA ,X           ; Load value from address\n    STA VAR_ARG0+1   ; Store result in low byte of ARG0\n    RTS\n";

/// The number printing routine.
pub const PRINT_NUMBER: &'static str = "VECTREX_PRINT_NUMBER:\n    ; Print number at position\n    ; ARG0 = X position, ARG1 = Y position, ARG2 = number value\n    ; Simple implementation: convert number to string and print\n    LDA VAR_ARG1+1   ; Y position\n    LDB VAR_ARG0+1   ; X position\n    JSR Moveto_d     ; Move to position\n    \n    ; Convert number to string (simple: just show low byte as hex)\n    LDA VAR_ARG2+1   ; Load number value\n    \n    ; Convert high nibble to ASCII\n    LSRA\n    LSRA\n    LSRA\n    LSRA\n    ANDA #$0F\n    CMPA #10\n    BLO PN_DIGIT1\n    ADDA #7          ; A-F\nPN_DIGIT1:\n    ADDA #'0'\n    STA NUM_STR      ; Store first digit\n    \n    ; Convert low nibble to ASCII  \n    LDA VAR_ARG2+1\n    ANDA #$0F\n    CMPA #10\n    BLO PN_DIGIT2\n    ADDA #7          ; A-F\nPN_DIGIT2:\n    ADDA #'0'\n    ORA #$80         ; Set high bit for string termination\n    STA NUM_STR+1    ; Store second digit with high bit\n    \n    ; Print the string\n    LDU #NUM_STR     ; Point to our number string\n    JSR Print_Str_d  ; Print using BIOS\n    RTS\n\nNUM_STR: RMB 2      ; Space for 2-digit hex number\n";

/// The beam move wrapper.
pub const MOVE_TO: &'static str = "VECTREX_MOVE_TO:\n    LDA VAR_ARG1+1 ; Y\n    LDB VAR_ARG0+1 ; X\n    JSR Moveto_d\n    ; store new current position\n    LDA VAR_ARG0+1\n    STA VCUR_X\n    LDA VAR_ARG1+1\n    STA VCUR_Y\n    RTS\n";

/// The draw-to-point wrapper.
pub const DRAW_TO: &'static str = "; Draw from current (VCUR_X,VCUR_Y) to new (x,y) provided in low bytes VAR_ARG0/1.\n; Semántica: igual a MOVE_TO seguido de línea, pero preserva origen previo como punto inicial.\n; Deltas pueden ser ±127 (hardware Vectrex soporta rango completo).\nVECTREX_DRAW_TO:\n    ; Cargar destino (x,y)\n    LDA VAR_ARG0+1  ; Xdest en A temporalmente\n    STA VLINE_DX    ; reutilizar buffer temporal (bajo) para Xdest\n    LDA VAR_ARG1+1  ; Ydest en A\n    STA VLINE_DY    ; reutilizar buffer temporal para Ydest\n    ; Calcular dx = Xdest - VCUR_X\n    LDA VLINE_DX\n    SUBA VCUR_X\n    STA VLINE_DX\n    ; Calcular dy = Ydest - VCUR_Y\n    LDA VLINE_DY\n    SUBA VCUR_Y\n    STA VLINE_DY\n    ; No clamping needed - signed byte arithmetic handles ±127 correctly\n    ; Mover haz al origen previo (VCUR_Y en A, VCUR_X en B)\n    LDA VCUR_Y\n    LDB VCUR_X\n    JSR Moveto_d\n    ; Dibujar línea usando deltas (A=dy, B=dx)\n    LDA VLINE_DY\n    LDB VLINE_DX\n    JSR Draw_Line_d\n    ; Actualizar posición actual al destino exacto original\n    LDA VAR_ARG0+1\n    STA VCUR_X\n    LDA VAR_ARG1+1\n    STA VCUR_Y\n    RTS\n";

/// The line drawing wrappers.
pub const DRAW_LINE: &'static str = "; DRAW_LINE unified wrapper - handles 16-bit signed coordinates correctly\n; Args: (x0,y0,x1,y1,intensity) as 16-bit words, treating x/y as signed bytes.\n; ALWAYS sets intensity. Does NOT reset origin (allows connected lines).\nDRAW_LINE_WRAPPER:\n    ; CRITICAL: Set VIA to DAC mode BEFORE calling BIOS (don't assume state)\n    LDA #$98       ; VIA_cntl = $98 (DAC mode for vector drawing)\n    STA >$D00C     ; VIA_cntl\n    ; Set DP to hardware registers\n    LDA #$D0\n    TFR A,DP\n    ; ALWAYS set intensity (no optimization)\n    LDA VAR_ARG4+1\n    JSR Intensity_a\n    ; Move to start (y in A, x in B) - use signed byte values\n    LDA VAR_ARG1+1  ; Y start (signed byte)\n    LDB VAR_ARG0+1  ; X start (signed byte)\n    JSR Moveto_d\n    ; Compute deltas using 16-bit arithmetic, then clamp to signed bytes\n    ; dx = x1 - x0 (treating as signed)\n    LDD VAR_ARG2    ; x1 (16-bit)\n    SUBD VAR_ARG0   ; subtract x0 (16-bit)\n    ; Clamp D to signed byte range (-128 to +127)\n    CMPD #127\n    BLE DLW_DX_CLAMP_HI_OK\n    LDD #127\nDLW_DX_CLAMP_HI_OK:\n    CMPD #-128\n    BGE DLW_DX_CLAMP_LO_OK\n    LDD #-128\nDLW_DX_CLAMP_LO_OK:\n    STB VLINE_DX    ; Store dx as signed byte\n    ; dy = y1 - y0 (treating as signed)\n    LDD VAR_ARG3    ; y1 (16-bit)\n    SUBD VAR_ARG1   ; subtract y0 (16-bit)\n    ; Clamp D to signed byte range (-128 to +127)\n    CMPD #127\n    BLE DLW_DY_CLAMP_HI_OK\n    LDD #127\nDLW_DY_CLAMP_HI_OK:\n    CMPD #-128\n    BGE DLW_DY_CLAMP_LO_OK\n    LDD #-128\nDLW_DY_CLAMP_LO_OK:\n    STB VLINE_DY    ; Store dy as signed byte\n    ; dx and dy are already clamped to ±127 - no further clamping needed\n    ; Vectrex hardware supports full ±127 delta range\n    LDA VLINE_DX\n    STA VLINE_DX    ; Keep full range\n    LDA VLINE_DY\n    STA VLINE_DY    ; Keep full range\n    ; Clear Vec_Misc_Count for proper timing\n    CLR Vec_Misc_Count\n    ; Draw line (A=dy, B=dx)\n    LDA VLINE_DY\n    LDB VLINE_DX\n    JSR Draw_Line_d\n    LDA #$C8       ; CRITICAL: Restore DP to $C8 for our code\n    TFR A,DP\n    RTS\n\n; DRAW_LINE_FAST - optimized version that skips redundant setup\n; Use this for multiple consecutive draws with same intensity\n; Args: (x0,y0,x1,y1) only - intensity must be set beforehand\nDRAW_LINE_FAST:\n    ; Move to start (y in A, x in B) - use signed byte values\n    LDA VAR_ARG1+1  ; Y start (signed byte)\n    LDB VAR_ARG0+1  ; X start (signed byte)\n    JSR Moveto_d\n    ; Compute deltas using 16-bit arithmetic, then clamp to signed bytes\n    ; dx = x1 - x0 (treating as signed)\n    LDD VAR_ARG2    ; x1 (16-bit)\n    SUBD VAR_ARG0   ; subtract x0 (16-bit)\n    ; Clamp D to signed byte range (-128 to +127)\n    CMPD #127\n    BLE DLF_DX_CLAMP_HI_OK\n    LDD #127\nDLF_DX_CLAMP_HI_OK:\n    CMPD #-128\n    BGE DLF_DX_CLAMP_LO_OK\n    LDD #-128\nDLF_DX_CLAMP_LO_OK:\n    STB VLINE_DX    ; Store dx as signed byte\n    ; dy = y1 - y0 (treating as signed)\n    LDD VAR_ARG3    ; y1 (16-bit)\n    SUBD VAR_ARG1   ; subtract y0 (16-bit)\n    ; Clamp D to signed byte range (-128 to +127)\n    CMPD #127\n    BLE DLF_DY_CLAMP_HI_OK\n    LDD #127\nDLF_DY_CLAMP_HI_OK:\n    CMPD #-128\n    BGE DLF_DY_CLAMP_LO_OK\n    LDD #-128\nDLF_DY_CLAMP_LO_OK:\n    STB VLINE_DY    ; Store dy as signed byte\n    ; dx and dy are already clamped to ±127 - no further clamping needed\n    ; Vectrex hardware supports full ±127 delta range\n    LDA VLINE_DX\n    STA VLINE_DX    ; Keep full range\n    LDA VLINE_DY\n    STA VLINE_DY    ; Keep full range\n    ; Clear Vec_Misc_Count for proper timing\n    CLR Vec_Misc_Count\n    ; Draw line (A=dy, B=dx)\n    LDA VLINE_DY\n    LDB VLINE_DX\n    JSR Draw_Line_d\n    RTS\n";

/// The frame start wrapper with the fast reset.
pub const FRAME_BEGIN_FAST: &'static str = "VECTREX_FRAME_BEGIN:\n    LDA VAR_ARG0+1\n    JSR Intensity_a\n    JSR VECTREX_RESET0_FAST\n    RTS\n";

/// The frame start wrapper.
pub const FRAME_BEGIN: &'static str = "VECTREX_FRAME_BEGIN:\n    LDA VAR_ARG0+1\n    JSR Intensity_a\n    JSR Reset0Ref\n    RTS\n";

/// The vector list drawing wrapper.
pub const DRAW_VL: &'static str = "VECTREX_DRAW_VL:\n    LDU VAR_ARG0\n    LDA VAR_ARG1+1\n    JSR Intensity_a\n    JSR Draw_VL\n    RTS\n";

/// The origin reset wrapper with the fast reset.
pub const SET_ORIGIN_FAST: &'static str = "VECTREX_SET_ORIGIN:\n    JSR VECTREX_RESET0_FAST\n    RTS\n";

/// The origin reset wrapper.
pub const SET_ORIGIN: &'static str = "VECTREX_SET_ORIGIN:\n    JSR Reset0Ref\n    RTS\n";

/// The intensity wrapper.
pub const SET_INTENSITY: &'static str = "VECTREX_SET_INTENSITY:\n    ; CRITICAL: Set VIA to DAC mode BEFORE calling BIOS (don't assume state)\n    LDA #$98       ; VIA_cntl = $98 (DAC mode)\n    STA >$D00C     ; VIA_cntl\n    LDA #$D0\n    TFR A,DP       ; Set Direct Page to $D0 for BIOS\n    LDA VAR_ARG0+1\n    JSR __Intensity_a\n    RTS\n";

/// The common drawing setup routine.
pub const SETUP_DRAW_COMMON: &'static str = "; Common drawing setup - sets DP register and resets integrator origin\n; Eliminates repetitive LDA #$D0; TFR A,DP; JSR Reset0Ref sequences\nSETUP_DRAW_COMMON:\n    ; CRITICAL: Set VIA to DAC mode BEFORE calling BIOS (don't assume state)\n    LDA #$98       ; VIA_cntl = $98 (DAC mode for vector drawing)\n    STA >$D00C     ; VIA_cntl\n    LDA #$D0\n    TFR A,DP\n    JSR Reset0Ref\n    RTS\n";

/// The simulated frame wait.
pub const WAIT_RECAL_FAST: &'static str = "VECTREX_WAIT_RECAL:\n    LDA #$D0\n    TFR A,DP\n    LDA FAST_WAIT_HIT\n    INCA\n    STA FAST_WAIT_HIT\n    RTS\n";

/// The fast beam reset.
pub const RESET0_FAST: &'static str = "VECTREX_RESET0_FAST:\n    LDA #$D0\n    TFR A,DP\n    CLR Vec_Dot_Dwell\n    CLR Vec_Loop_Count\n    RTS\n";

/// The frame wait wrapper.
pub const WAIT_RECAL: &'static str = "VECTREX_WAIT_RECAL:\n    JSR Wait_Recal\n    RTS\n";

/// The wrapper that restarts the built-in tune.
pub const PLAY_MUSIC1: &'static str = "VECTREX_PLAY_MUSIC1:\n    JSR MUSIC1\n    RTS\n";

/// The direct sound-chip music player.
pub const MUSIC_RUNTIME: &'static str = "; ============================================================================\n\
            ; PSG DIRECT MUSIC PLAYER (inspired by Christman2024/malbanGit)\n\
            ; ============================================================================\n\
            ; Writes directly to PSG chip using WRITE_PSG sequence\n\
            ;\n\
            ; Music data format (frame-based):\n\
            ;   FCB count           ; Number of register writes this frame\n\
            ;   FCB reg, val        ; PSG register/value pairs\n\
            ;   ...                 ; Repeat for each register\n\
            ;   FCB $FF             ; End marker\n\
            ;\n\
            ; PSG Registers:\n\
            ;   0-1: Channel A frequency (12-bit)\n\
            ;   2-3: Channel B frequency\n\
            ;   4-5: Channel C frequency\n\
            ;   6:   Noise period\n\
            ;   7:   Mixer control (enable/disable channels)\n\
            ;   8-10: Channel A/B/C volume\n\
            ;   11-12: Envelope period\n\
            ;   13:  Envelope shape\n\
            ; ============================================================================\n\
            \n\
            ; RAM variables (defined in RAM section above)\n\
            ; PSG_MUSIC_PTR    EQU RESULT+26  (2 bytes)\n\
            ; PSG_MUSIC_START  EQU RESULT+28  (2 bytes)\n\
            ; PSG_IS_PLAYING   EQU RESULT+30  (1 byte)\n\
            ; PSG_MUSIC_ACTIVE EQU RESULT+31  (1 byte) - Set=1 during UPDATE_MUSIC_PSG\n\
            \n\
            ; PLAY_MUSIC_RUNTIME - Start PSG music playback\n\
            ; Input: X = pointer to PSG music data\n\
            PLAY_MUSIC_RUNTIME:\n\
            STX >PSG_MUSIC_PTR     ; Store current music pointer (force extended)\n\
            STX >PSG_MUSIC_START   ; Store start pointer for loops (force extended)\n\
            LDA #$01\n\
            STA >PSG_IS_PLAYING ; Mark as playing (extended - var at 0xC8A0)\n\
            RTS\n\
            \n\
            ; ============================================================================\n\
            ; UPDATE_MUSIC_PSG - Update PSG (call every frame)\n\
            ; ============================================================================\n\
            UPDATE_MUSIC_PSG:\n\
            ; CRITICAL: Set VIA to PSG mode BEFORE accessing PSG (don't assume state)\n\
            LDA #$00       ; VIA_cntl = $00 (PSG mode)\n\
            STA >$D00C     ; VIA_cntl\n\
            LDA #$01\n\
            STA >PSG_MUSIC_ACTIVE  ; Mark music system active (for PSG logging)\n\
            LDA >PSG_IS_PLAYING ; Check if playing (extended - var at 0xC8A0)\n\
            BEQ PSG_update_done    ; Not playing, exit\n\
            \n\
            LDX >PSG_MUSIC_PTR     ; Load pointer (force extended - LDX has no DP mode)\n\
            BEQ PSG_update_done    ; No music loaded\n\
            \n\
            ; Read frame count byte (number of register writes)\n\
            LDB ,X+\n\
            BEQ PSG_music_ended    ; Count=0 means end (no loop)\n\
            CMPB #$FF              ; Check for loop command\n\
            BEQ PSG_music_loop     ; $FF means loop (never valid as count)\n\
            \n\
            ; Process frame - push counter to stack\n\
            PSHS B                 ; Save count on stack\n\
            \n\
            ; Write register/value pairs to PSG\n\
PSG_write_loop:\n\
            LDA ,X+                ; Load register number\n\
            LDB ,X+                ; Load register value\n\
            PSHS X                 ; Save pointer (after reads)\n\
            \n\
            ; WRITE_PSG sequence\n\
            STA VIA_port_a         ; Store register number\n\
            LDA #$19               ; BDIR=1, BC1=1 (LATCH)\n\
            STA VIA_port_b\n\
            LDA #$01               ; BDIR=0, BC1=0 (INACTIVE)\n\
            STA VIA_port_b\n\
            LDA VIA_port_a         ; Read status\n\
            STB VIA_port_a         ; Store data\n\
            LDB #$11               ; BDIR=1, BC1=0 (WRITE)\n\
            STB VIA_port_b\n\
            LDB #$01               ; BDIR=0, BC1=0 (INACTIVE)\n\
            STB VIA_port_b\n\
            \n\
            PULS X                 ; Restore pointer\n\
            PULS B                 ; Get counter\n\
            DECB                   ; Decrement\n\
            BEQ PSG_frame_done     ; Done with this frame\n\
            PSHS B                 ; Save counter back\n\
            BRA PSG_write_loop\n\
            \n\
PSG_frame_done:\n\
            \n\
            ; Frame complete - update pointer and done\n\
            STX >PSG_MUSIC_PTR     ; Update pointer (force extended)\n\
            BRA PSG_update_done\n\
            \n\
PSG_music_ended:\n\
            CLR >PSG_IS_PLAYING ; Stop playback (extended - var at 0xC8A0)\n\
            ; NOTE: Do NOT write PSG registers here - corrupts VIA for vector drawing\n\
            ; Music will fade naturally as frame data stops updating\n\
            BRA PSG_update_done\n\
            \n\
PSG_music_loop:\n\
            ; Loop command: $FF followed by 2-byte address (FDB)\n\
            ; X points past $FF, read the target address\n\
            LDD ,X                 ; Load 2-byte loop target address\n\
            STD >PSG_MUSIC_PTR     ; Update pointer to loop start\n\
            ; Exit - next frame will start from loop target\n\
            BRA PSG_update_done\n\
            \n\
PSG_update_done:\n\
            CLR >PSG_MUSIC_ACTIVE  ; Clear flag (music system done)\n\
            RTS\n\
            \n\
            ; ============================================================================\n\
            ; STOP_MUSIC_RUNTIME - Stop music playback\n\
            ; ============================================================================\n\
            STOP_MUSIC_RUNTIME:\n\
            CLR >PSG_IS_PLAYING ; Clear playing flag (extended - var at 0xC8A0)\n\
            CLR >PSG_MUSIC_PTR     ; Clear pointer high byte (force extended)\n\
            CLR >PSG_MUSIC_PTR+1   ; Clear pointer low byte (force extended)\n\
            ; NOTE: Do NOT write PSG registers here - corrupts VIA for vector drawing\n\
            RTS\n\
            \n";

/// The sound effect player.
pub const SFX_RUNTIME: &'static str = "; ============================================================================\n\
            ; PSG SOUND EFFECTS PLAYER RUNTIME\n\
            ; ============================================================================\n\
            ; SFX data structure (same as music .vmus format):\n\
            ;   +0: FDB tempo (BPM)\n\
            ;   +2: FDB ticks_per_beat\n\
            ;   +4: FDB total_ticks_hi, total_ticks_lo (32-bit)\n\
            ;   +8: FDB num_events\n\
            ;   +10: Event data (variable length)\n\
            ;\n\
            ; SFX player differences from music:\n\
            ;   - One-shot playback (no looping)\n\
            ;   - Higher priority than music (can interrupt)\n\
            ;   - Multiple SFX can play simultaneously (TODO: implement mixing)\n\
            ;\n\
            ; Current implementation: Simple placeholder\n\
            ; TODO: Implement full SFX queue with mixing\n\
            ; ============================================================================\n\
            \n\
            ; RAM variables for SFX (defined in RAM section)\n\
            ; SFX_PTR       FDB 0  ; Pointer to current SFX data\n\
            ; SFX_TICK      FDB 0, 0  ; Current playback tick (32-bit)\n\
            ; SFX_EVENT     FDB 0  ; Pointer to current event\n\
            ; SFX_ACTIVE    FCB 0  ; 0=stopped, 1=playing\n\
            \n\
            ; PLAY_SFX_RUNTIME - Initialize and start SFX playback\n\
            ; Input: X = pointer to SFX data structure\n\
            PLAY_SFX_RUNTIME:\n\
            ; Store SFX pointer\n\
            STX SFX_PTR\n\
            \n\
            ; Initialize playback state\n\
            CLRA\n\
            CLRB\n\
            STD SFX_TICK        ; Reset tick counter to 0\n\
            STD SFX_TICK+2\n\
            \n\
            ; Point to first event (skip 10-byte header)\n\
            TFR X,D\n\
            ADDD #10\n\
            STD SFX_EVENT\n\
            \n\
            ; Mark as active\n\
            LDA #1\n\
            STA SFX_ACTIVE\n\
            \n\
            RTS\n\
            \n\
            ; ============================================================================\n\
            ; SFX_UPDATE - Process SFX events (called from MUSIC_UPDATE)\n\
            ; TODO: Integrate into MUSIC_UPDATE or call separately\n\
            ; ============================================================================\n\
            SFX_UPDATE:\n\
            PSHS A,B,X,Y\n\
            \n\
            ; Check if SFX is active\n\
            TST SFX_ACTIVE\n\
            BEQ SFX_UPDATE_done             ; Not playing, skip\n\
            \n\
            ; Increment tick counter (same logic as music)\n\
            LDD SFX_TICK+2\n\
            ADDD #1\n\
            STD SFX_TICK+2\n\
            BCC SFX_UPDATE_no_carry\n\
            LDD SFX_TICK\n\
            ADDD #1\n\
            STD SFX_TICK\n\
            \n\
SFX_UPDATE_no_carry:\n\
            ; TODO: Process SFX events (similar to MUSIC_UPDATE)\n\
            ; For now, just placeholder\n\
            \n\
SFX_UPDATE_done:\n\
            PULS A,B,X,Y\n\
            RTS\n\
            \n";

/// The heading of the BIOS wrappers.
pub const BIOS_WRAPPERS_HEAD: &'static str = "; BIOS Wrappers - VIDE compatible (ensure DP=$D0 per call)\n";

/// The intensity BIOS wrapper.
pub const INTENSITY_WRAPPER: &'static str = "__Intensity_a:\n\
        TFR B,A         ; Move B to A (BIOS expects intensity in A)\n\
        JMP Intensity_a ; JMP (not JSR) - BIOS returns to original caller\n";

/// The beam reset BIOS wrapper.
pub const RESET0REF_WRAPPER: &'static str = "__Reset0Ref:\n\
        JMP Reset0Ref   ; JMP (not JSR) - BIOS returns to original caller\n";

/// The move BIOS wrapper.
pub const MOVETO_WRAPPER: &'static str = "__Moveto_d:\n\
        LDA 2,S         ; Get Y from stack (after return address)\n\
        JMP Moveto_d    ; JMP (not JSR) - BIOS returns to original caller\n";

/// The line BIOS wrapper.
pub const DRAW_LINE_D_WRAPPER: &'static str = "__Draw_Line_d:\n\
        LDA 2,S         ; Get dy from stack (after return address)\n\
        JMP Draw_Line_d ; JMP (not JSR) - BIOS returns to original caller\n";

/// The synchronised list drawing routines.
pub const DRAW_SYNC_LIST: &'static str = "; ============================================================================\n\
        ; Draw_Sync_List - EXACT port of Malban's draw_synced_list_c\n\
        ; Data: FCB intensity, y_start, x_start, next_y, next_x, [flag, dy, dx]*, 2\n\
        ; ============================================================================\n\
        Draw_Sync_List:\n\
        ; ITERACIÓN 11: Loop completo dentro (bug assembler arreglado, datos embebidos OK)\n\
        LDA ,X+                 ; intensity\n\
        JSR $F2AB               ; BIOS Intensity_a (expects value in A)\n\
        LDB ,X+                 ; y_start\n\
        LDA ,X+                 ; x_start\n\
        STD TEMP_YX             ; Guardar en variable temporal (evita stack)\n\
        ; Reset completo\n\
        CLR VIA_shift_reg\n\
        LDA #$CC\n\
        STA VIA_cntl\n\
        CLR VIA_port_a\n\
        LDA #$82\n\
        STA VIA_port_b\n\
        NOP\n\
        NOP\n\
        NOP\n\
        NOP\n\
        NOP\n\
        LDA #$83\n\
        STA VIA_port_b\n\
        ; Move sequence\n\
        LDD TEMP_YX             ; Recuperar y,x\n\
        STB VIA_port_a          ; y to DAC\n\
        PSHS A                  ; Save x\n\
        LDA #$CE\n\
        STA VIA_cntl\n\
        CLR VIA_port_b\n\
        LDA #1\n\
        STA VIA_port_b\n\
        PULS A                  ; Restore x\n\
        STA VIA_port_a          ; x to DAC\n\
        ; Timing setup\n\
        LDA #$7F\n\
        STA VIA_t1_cnt_lo\n\
        CLR VIA_t1_cnt_hi\n\
        LEAX 2,X                ; Skip next_y, next_x\n\
        ; Wait for move to complete\n\
        DSL_W1:\n\
        LDA VIA_int_flags\n\
        ANDA #$40\n\
        BEQ DSL_W1\n\
        ; Loop de dibujo\n\
        DSL_LOOP:\n\
        LDA ,X+                 ; Read flag\n\
        CMPA #2                 ; Check end marker\n\
        LBEQ DSL_DONE           ; Exit if end (long branch)\n\
        CMPA #1                 ; Check next path marker\n\
        LBEQ DSL_NEXT_PATH      ; Process next path (long branch)\n\
        ; Draw line\n\
        LDB ,X+                 ; dy\n\
        LDA ,X+                 ; dx\n\
        PSHS A                  ; Save dx\n\
        STB VIA_port_a          ; dy to DAC\n\
        CLR VIA_port_b\n\
        LDA #1\n\
        STA VIA_port_b\n\
        PULS A                  ; Restore dx\n\
        STA VIA_port_a          ; dx to DAC\n\
        CLR VIA_t1_cnt_hi\n\
        LDA #$FF\n\
        STA VIA_shift_reg\n\
        ; Wait for line draw\n\
        DSL_W2:\n\
        LDA VIA_int_flags\n\
        ANDA #$40\n\
        BEQ DSL_W2\n\
        CLR VIA_shift_reg\n\
        BRA DSL_LOOP\n\
        ; Next path: read new intensity and header, then continue drawing\n\
        DSL_NEXT_PATH:\n\
        ; Save current X position before reading anything\n\
        TFR X,D                 ; D = X (current position)\n\
        PSHS D                  ; Save X address\n\
        LDA ,X+                 ; Read intensity (X now points to y_start)\n\
        PSHS A                  ; Save intensity\n\
        LDB ,X+                 ; y_start\n\
        LDA ,X+                 ; x_start (X now points to next_y)\n\
        STD TEMP_YX             ; Save y,x\n\
        PULS A                  ; Get intensity back\n\
        PSHS A                  ; Save intensity again\n\
        LDA #$D0\n\
        TFR A,DP                ; Set DP=$D0 (BIOS requirement)\n\
        PULS A                  ; Restore intensity\n\
        JSR $F2AB               ; BIOS Intensity_a (may corrupt X!)\n\
        ; Restore X to point to next_y,next_x (after the 3 bytes we read)\n\
        PULS D                  ; Get original X\n\
        ADDD #3                 ; Skip intensity, y_start, x_start\n\
        TFR D,X                 ; X now points to next_y\n\
        ; Reset to zero (same as Draw_Sync_List start)\n\
        CLR VIA_shift_reg\n\
        LDA #$CC\n\
        STA VIA_cntl\n\
        CLR VIA_port_a\n\
        LDA #$82\n\
        STA VIA_port_b\n\
        NOP\n\
        NOP\n\
        NOP\n\
        NOP\n\
        NOP\n\
        LDA #$83\n\
        STA VIA_port_b\n\
        ; Move to new start position\n\
        LDD TEMP_YX\n\
        STB VIA_port_a          ; y to DAC\n\
        PSHS A\n\
        LDA #$CE\n\
        STA VIA_cntl\n\
        CLR VIA_port_b\n\
        LDA #1\n\
        STA VIA_port_b\n\
        PULS A\n\
        STA VIA_port_a          ; x to DAC\n\
        LDA #$7F\n\
        STA VIA_t1_cnt_lo\n\
        CLR VIA_t1_cnt_hi\n\
        LEAX 2,X                ; Skip next_y, next_x\n\
        ; Wait for move\n\
        DSL_W3:\n\
        LDA VIA_int_flags\n\
        ANDA #$40\n\
        BEQ DSL_W3\n\
        CLR VIA_shift_reg       ; Clear before continuing\n\
        BRA DSL_LOOP            ; Continue drawing\n\
        DSL_DONE:\n\
        RTS\n\n\
        ; ============================================================================\n\
        ; Draw_Sync_List_At - Draw vector at offset position (DRAW_VEC_X, DRAW_VEC_Y)\n\
        ; Same as Draw_Sync_List but adds offset to y_start, x_start coordinates\n\
        ; Uses: DRAW_VEC_X, DRAW_VEC_Y (set by DRAW_VECTOR before calling this)\n\
        ; ============================================================================\n\
        Draw_Sync_List_At:\n\
        LDA ,X+                 ; intensity\n\
        PSHS A                  ; Save intensity\n\
        LDA #$D0\n\
        PULS A                  ; Restore intensity\n\
        JSR $F2AB               ; BIOS Intensity_a\n\
        LDB ,X+                 ; y_start from .vec\n\
        ADDB DRAW_VEC_Y         ; Add Y offset\n\
        LDA ,X+                 ; x_start from .vec\n\
        ADDA DRAW_VEC_X         ; Add X offset\n\
        STD TEMP_YX             ; Save adjusted position\n\
        ; Reset completo\n\
        CLR VIA_shift_reg\n\
        LDA #$CC\n\
        STA VIA_cntl\n\
        CLR VIA_port_a\n\
        LDA #$82\n\
        STA VIA_port_b\n\
        NOP\n\
        NOP\n\
        NOP\n\
        NOP\n\
        NOP\n\
        LDA #$83\n\
        STA VIA_port_b\n\
        ; Move sequence\n\
        LDD TEMP_YX             ; Recuperar y,x ajustado\n\
        STB VIA_port_a          ; y to DAC\n\
        PSHS A                  ; Save x\n\
        LDA #$CE\n\
        STA VIA_cntl\n\
        CLR VIA_port_b\n\
        LDA #1\n\
        STA VIA_port_b\n\
        PULS A                  ; Restore x\n\
        STA VIA_port_a          ; x to DAC\n\
        ; Timing setup\n\
        LDA #$7F\n\
        STA VIA_t1_cnt_lo\n\
        CLR VIA_t1_cnt_hi\n\
        LEAX 2,X                ; Skip next_y, next_x\n\
        ; Wait for move to complete\n\
        DSLA_W1:\n\
        LDA VIA_int_flags\n\
        ANDA #$40\n\
        BEQ DSLA_W1\n\
        ; Loop de dibujo (same as Draw_Sync_List)\n\
        DSLA_LOOP:\n\
        LDA ,X+                 ; Read flag\n\
        CMPA #2                 ; Check end marker\n\
        LBEQ DSLA_DONE\n\
        CMPA #1                 ; Check next path marker\n\
        LBEQ DSLA_NEXT_PATH\n\
        ; Draw line\n\
        LDB ,X+                 ; dy\n\
        LDA ,X+                 ; dx\n\
        PSHS A                  ; Save dx\n\
        STB VIA_port_a          ; dy to DAC\n\
        CLR VIA_port_b\n\
        LDA #1\n\
        STA VIA_port_b\n\
        PULS A                  ; Restore dx\n\
        STA VIA_port_a          ; dx to DAC\n\
        CLR VIA_t1_cnt_hi\n\
        LDA #$FF\n\
        STA VIA_shift_reg\n\
        ; Wait for line draw\n\
        DSLA_W2:\n\
        LDA VIA_int_flags\n\
        ANDA #$40\n\
        BEQ DSLA_W2\n\
        CLR VIA_shift_reg\n\
        BRA DSLA_LOOP\n\
        ; Next path: add offset to new coordinates too\n\
        DSLA_NEXT_PATH:\n\
        TFR X,D\n\
        PSHS D\n\
        LDA ,X+                 ; Read intensity\n\
        PSHS A\n\
        LDB ,X+                 ; y_start\n\
        ADDB DRAW_VEC_Y         ; Add Y offset to new path\n\
        LDA ,X+                 ; x_start\n\
        ADDA DRAW_VEC_X         ; Add X offset to new path\n\
        STD TEMP_YX\n\
        PULS A                  ; Get intensity back\n\
        JSR $F2AB\n\
        PULS D\n\
        ADDD #3\n\
        TFR D,X\n\
        ; Reset to zero\n\
        CLR VIA_shift_reg\n\
        LDA #$CC\n\
        STA VIA_cntl\n\
        CLR VIA_port_a\n\
        LDA #$82\n\
        STA VIA_port_b\n\
        NOP\n\
        NOP\n\
        NOP\n\
        NOP\n\
        NOP\n\
        LDA #$83\n\
        STA VIA_port_b\n\
        ; Move to new start position (already offset-adjusted)\n\
        LDD TEMP_YX\n\
        STB VIA_port_a\n\
        PSHS A\n\
        LDA #$CE\n\
        STA VIA_cntl\n\
        CLR VIA_port_b\n\
        LDA #1\n\
        STA VIA_port_b\n\
        PULS A\n\
        STA VIA_port_a\n\
        LDA #$7F\n\
        STA VIA_t1_cnt_lo\n\
        CLR VIA_t1_cnt_hi\n\
        LEAX 2,X\n\
        ; Wait for move\n\
        DSLA_W3:\n\
        LDA VIA_int_flags\n\
        ANDA #$40\n\
        BEQ DSLA_W3\n\
        CLR VIA_shift_reg\n\
        BRA DSLA_LOOP\n\
        DSLA_DONE:\n\
        RTS\n";

/// `t` when `c` holds, nothing otherwise.
pub open spec fn when(c: bool, t: Seq<char>) -> Seq<char> {
    if c {
        t
    } else {
        Seq::empty()
    }
}

/// A wrapper is among those the program uses.
pub open spec fn has(w: Set<Seq<char>>, name: Seq<char>) -> bool {
    w.contains(name)
}

/// Some asset is a piece of music.
pub open spec fn has_music_asset(assets: Seq<AssetInfo>) -> bool {
    exists|i: int| 0 <= i < assets.len() && assets[i].asset_type is Music
}

/// The helpers before the text printing wrapper: the vector phase helper,
/// the static debug list, and the routines the options switch on.
pub open spec fn helpers_head(w: Set<Seq<char>>, opts: CodegenOptions) -> Seq<char> {
    when(has(w, "VECTREX_VECTOR_PHASE_BEGIN"@), if opts.fast_wait {
        PHASE_BEGIN_FAST@
    } else {
        PHASE_BEGIN@
    }) + when(has(w, "VECTREX_DBG_STATIC_VL"@), DBG_STATIC_VL@) + when(opts.blink_intensity, BLINK_INT@)
        + when(opts.debug_init_draw, DEBUG_DRAW@) + when(opts.per_frame_silence, SILENCE@)
}

/// The frame wait: simulated (with the fast reset) under `fast_wait`, the
/// BIOS wait otherwise; present when used or under `fast_wait`.
pub open spec fn wait_recal_text(w: Set<Seq<char>>, opts: CodegenOptions) -> Seq<char> {
    when(has(w, "VECTREX_WAIT_RECAL"@) || opts.fast_wait, if opts.fast_wait {
        WAIT_RECAL_FAST@ + RESET0_FAST@
    } else {
        WAIT_RECAL@
    })
}

/// The BIOS wrappers and list drawing routines every program gets.
pub open spec fn bios_wrappers() -> Seq<char> {
    BIOS_WRAPPERS_HEAD@ + INTENSITY_WRAPPER@ + RESET0REF_WRAPPER@ + MOVETO_WRAPPER@
        + DRAW_LINE_D_WRAPPER@ + DRAW_SYNC_LIST@
}

/// The wrappers of the drawing and debugging builtins the program uses.
pub open spec fn helpers_wrappers(w: Set<Seq<char>>, opts: CodegenOptions) -> Seq<char> {
    when(has(w, "VECTREX_DEBUG_PRINT_LABELED"@), DEBUG_PRINT_LABELED@) + when(has(w, "VECTREX_POKE"@), POKE@) + when(has(w, "VECTREX_PEEK"@), PEEK@) + when(has(w, "VECTREX_PRINT_NUMBER"@), PRINT_NUMBER@) + when(has(w, "VECTREX_MOVE_TO"@), MOVE_TO@) + when(has(w, "VECTREX_DRAW_TO"@), DRAW_TO@) + when(has(w, "DRAW_LINE_WRAPPER"@), DRAW_LINE@) + when(has(w, "VECTREX_FRAME_BEGIN"@), (if opts.fast_wait { FRAME_BEGIN_FAST@ } else { FRAME_BEGIN@ })) + when(has(w, "VECTREX_DRAW_VL"@), DRAW_VL@) + when(has(w, "VECTREX_SET_ORIGIN"@), (if opts.fast_wait { SET_ORIGIN_FAST@ } else { SET_ORIGIN@ })) + when(has(w, "VECTREX_SET_INTENSITY"@), SET_INTENSITY@) + when(has(w, "SETUP_DRAW_COMMON"@), SETUP_DRAW_COMMON@)
}

/// The frame wait and the sound routines.
pub open spec fn helpers_sound(w: Set<Seq<char>>, opts: CodegenOptions) -> Seq<char> {
    wait_recal_text(w, opts) + when(has(w, "VECTREX_PLAY_MUSIC1"@), PLAY_MUSIC1@) + when(
        has(w, "PLAY_MUSIC_RUNTIME"@) || has(w, "STOP_MUSIC_RUNTIME"@) || has_music_asset(opts.assets@),
        MUSIC_RUNTIME@,
    ) + when(has(w, "PLAY_SFX_RUNTIME"@), SFX_RUNTIME@)
}

/// The helpers after the debug print routine.
pub open spec fn helpers_tail(w: Set<Seq<char>>, opts: CodegenOptions) -> Seq<char> {
    helpers_wrappers(w, opts) + helpers_sound(w, opts) + bios_wrappers()
}

/// All helper routines, in the order they are emitted.
pub open spec fn builtin_helpers_text(w: Set<Seq<char>>, opts: CodegenOptions) -> Seq<char> {
    helpers_head(w, opts) + when(has(w, "VECTREX_PRINT_TEXT"@), PRINT_TEXT@) + when(
        has(w, "VECTREX_DEBUG_PRINT"@),
        DEBUG_PRINT@,
    ) + helpers_tail(w, opts)
}

/// The location record of a helper routine emitted after `before`: its
/// first line is the one after `before`, its last the last line of the
/// routine.
pub open spec fn helper_location(name: Seq<char>, file: Seq<char>, before: Seq<char>, code: Seq<char>) -> AsmFunctionM {
    (name, file, (lines(before).len() + 1) as usize, lines(before + code).len() as usize, "native"@)
}

/// The assembly function table after the helpers are emitted onto
/// `out`: the text printing and debug print routines are recorded where
/// they are used.
pub open spec fn helper_functions(
    m: Map<Seq<char>, AsmFunctionM>,
    w: Set<Seq<char>>,
    opts: CodegenOptions,
    out: Seq<char>,
    file: Seq<char>,
) -> Map<Seq<char>, AsmFunctionM> {
    let o1 = out + helpers_head(w, opts);
    let m1 = if has(w, "VECTREX_PRINT_TEXT"@) {
        m.insert("VECTREX_PRINT_TEXT"@, helper_location("VECTREX_PRINT_TEXT"@, file, o1, PRINT_TEXT@))
    } else {
        m
    };
    let o2 = o1 + when(has(w, "VECTREX_PRINT_TEXT"@), PRINT_TEXT@);
    if has(w, "VECTREX_DEBUG_PRINT"@) {
        m1.insert("VECTREX_DEBUG_PRINT"@, helper_location("VECTREX_DEBUG_PRINT"@, file, o2, DEBUG_PRINT@))
    } else {
        m1
    }
}

/// The number of lines of a text, as `str::lines` counts them.
fn line_count(s: &String) -> (r: usize)
    ensures
        r == lines(s@).len(),
{
    let v = chars_of(s.as_str());
    let ls = lines_vec(&v);
    ls.len()
}

/// Appends `t` when `c` holds.
fn push_when(out: &mut String, c: bool, t: &str, base: Ghost<Seq<char>>, acc: Ghost<Seq<char>>) -> (r: Ghost<Seq<char>>)
    requires
        old(out)@ == base@ + acc@,
    ensures
        r@ == acc@ + when(c, t@),
        final(out)@ == base@ + r@,
{
    if c {
        push_more(out, t, base, acc)
    } else {
        assert(out@ =~= base@ + (acc@ + when(c, t@)));
        Ghost(acc@ + when(c, t@))
    }
}

/// Whether some asset is a piece of music.
pub(crate) fn any_music_asset(assets: &Vec<AssetInfo>) -> (r: bool)
    ensures
        r == has_music_asset(assets@),
{
    let mut i: usize = 0;
    while i < assets.len()
        invariant
            i <= assets.len(),
            forall|j: int| 0 <= j < i ==> !(assets@[j].asset_type is Music),
        decreases assets.len() - i,
    {
        if matches!(assets[i].asset_type, AssetType::Music) {
            return true;
        }
        i += 1;
    }
    false
}

/// Emits a helper routine and records its lines in the debug information.
fn emit_located(out: &mut String, debug_info: &mut DebugInfo, name: &str, code: &str)
    requires
        old(debug_info).wf(),
        lines(old(out)@).len() < usize::MAX,
    ensures
        final(out)@ == old(out)@ + code@,
        final(debug_info).wf(),
        amap(final(debug_info).asm_functions@) == amap(old(debug_info).asm_functions@).insert(
            name@,
            helper_location(name@, old(debug_info).asm_name@, old(out)@, code@),
        ),
        *final(debug_info) == (DebugInfo { asm_functions: final(debug_info).asm_functions, ..*old(debug_info) }),
{
    let start_line = line_count(out) + 1;
    push_str(out, code);
    let end_line = line_count(out);
    let file = debug_info.asm_name.clone();
    debug_info.add_asm_function(string_from(name), file, start_line, end_line, "native");
}

/// Appends `t` when `c` holds, as the first piece after `base`.
fn push_first(out: &mut String, c: bool, t: &str, base: Ghost<Seq<char>>) -> (r: Ghost<Seq<char>>)
    requires
        old(out)@ == base@,
    ensures
        r@ == when(c, t@),
        final(out)@ == base@ + r@,
{
    if c {
        push_str(out, t);
    } else {
        assert(out@ =~= base@ + when(c, t@));
    }
    Ghost(when(c, t@))
}

/// Emits the helpers before the text printing wrapper.
fn emit_helpers_head(out: &mut String, w: &Vec<String>, opts: &CodegenOptions)
    ensures
        final(out)@ == old(out)@ + helpers_head(set_of(w@), *opts),
{
    let ghost o0 = out@;
    let mut acc = push_first(out, set_contains(w, "VECTREX_VECTOR_PHASE_BEGIN"), if opts.fast_wait {
        PHASE_BEGIN_FAST
    } else {
        PHASE_BEGIN
    }, Ghost(o0));
    acc = push_when(out, set_contains(w, "VECTREX_DBG_STATIC_VL"), DBG_STATIC_VL, Ghost(o0), acc);
    acc = push_when(out, opts.blink_intensity, BLINK_INT, Ghost(o0), acc);
    acc = push_when(out, opts.debug_init_draw, DEBUG_DRAW, Ghost(o0), acc);
    acc = push_when(out, opts.per_frame_silence, SILENCE, Ghost(o0), acc);
}

/// Emits the frame wait.
fn emit_wait_recal(out: &mut String, w: &Vec<String>, opts: &CodegenOptions)
    ensures
        final(out)@ == old(out)@ + wait_recal_text(set_of(w@), *opts),
{
    let ghost o0 = out@;
    if set_contains(w, "VECTREX_WAIT_RECAL") || opts.fast_wait {
        if opts.fast_wait {
            push_str(out, WAIT_RECAL_FAST);
            push_str(out, RESET0_FAST);
        } else {
            push_str(out, WAIT_RECAL);
        }
    }
    assert(out@ =~= o0 + wait_recal_text(set_of(w@), *opts));
}

/// Emits the BIOS wrappers.
fn emit_bios_wrappers(out: &mut String)
    ensures
        final(out)@ == old(out)@ + bios_wrappers(),
{
    let ghost o0 = out@;
    push_str(out, BIOS_WRAPPERS_HEAD);
    let mut acc: Ghost<Seq<char>> = Ghost(BIOS_WRAPPERS_HEAD@);
    acc = push_more(out, INTENSITY_WRAPPER, Ghost(o0), acc);
    acc = push_more(out, RESET0REF_WRAPPER, Ghost(o0), acc);
    acc = push_more(out, MOVETO_WRAPPER, Ghost(o0), acc);
    acc = push_more(out, DRAW_LINE_D_WRAPPER, Ghost(o0), acc);
    acc = push_more(out, DRAW_SYNC_LIST, Ghost(o0), acc);
}

/// Emits the wrappers of the drawing and debugging builtins.
fn emit_helpers_wrappers(out: &mut String, w: &Vec<String>, opts: &CodegenOptions)
    ensures
        final(out)@ == old(out)@ + helpers_wrappers(set_of(w@), *opts),
{
    let ghost o0 = out@;
    let mut tail = push_first(out, set_contains(w, "VECTREX_DEBUG_PRINT_LABELED"), DEBUG_PRINT_LABELED, Ghost(o0));
    tail = push_when(out, set_contains(w, "VECTREX_POKE"), POKE, Ghost(o0), tail);
    tail = push_when(out, set_contains(w, "VECTREX_PEEK"), PEEK, Ghost(o0), tail);
    tail = push_when(out, set_contains(w, "VECTREX_PRINT_NUMBER"), PRINT_NUMBER, Ghost(o0), tail);
    tail = push_when(out, set_contains(w, "VECTREX_MOVE_TO"), MOVE_TO, Ghost(o0), tail);
    tail = push_when(out, set_contains(w, "VECTREX_DRAW_TO"), DRAW_TO, Ghost(o0), tail);
    tail = push_when(out, set_contains(w, "DRAW_LINE_WRAPPER"), DRAW_LINE, Ghost(o0), tail);
    tail = push_when(out, set_contains(w, "VECTREX_FRAME_BEGIN"), if opts.fast_wait { FRAME_BEGIN_FAST } else { FRAME_BEGIN }, Ghost(o0), tail);
    tail = push_when(out, set_contains(w, "VECTREX_DRAW_VL"), DRAW_VL, Ghost(o0), tail);
    tail = push_when(out, set_contains(w, "VECTREX_SET_ORIGIN"), if opts.fast_wait { SET_ORIGIN_FAST } else { SET_ORIGIN }, Ghost(o0), tail);
    tail = push_when(out, set_contains(w, "VECTREX_SET_INTENSITY"), SET_INTENSITY, Ghost(o0), tail);
    tail = push_when(out, set_contains(w, "SETUP_DRAW_COMMON"), SETUP_DRAW_COMMON, Ghost(o0), tail);
}

/// Emits the frame wait and the sound routines.
fn emit_helpers_sound(out: &mut String, w: &Vec<String>, opts: &CodegenOptions)
    ensures
        final(out)@ == old(out)@ + helpers_sound(set_of(w@), *opts),
{
    let ghost o0 = out@;
    let ghost ws = set_of(w@);
    emit_wait_recal(out, w, opts);
    let mut tail: Ghost<Seq<char>> = Ghost(wait_recal_text(ws, *opts));
    tail = push_when(out, set_contains(w, "VECTREX_PLAY_MUSIC1"), PLAY_MUSIC1, Ghost(o0), tail);
    let music = set_contains(w, "PLAY_MUSIC_RUNTIME") || set_contains(w, "STOP_MUSIC_RUNTIME")
        || any_music_asset(&opts.assets);
    tail = push_when(out, music, MUSIC_RUNTIME, Ghost(o0), tail);
    tail = push_when(out, set_contains(w, "PLAY_SFX_RUNTIME"), SFX_RUNTIME, Ghost(o0), tail);
}

/// Emits the helpers after the debug print routine.
fn emit_helpers_tail(out: &mut String, w: &Vec<String>, opts: &CodegenOptions)
    ensures
        final(out)@ == old(out)@ + helpers_tail(set_of(w@), *opts),
{
    let ghost o0 = out@;
    let ghost ws = set_of(w@);
    emit_helpers_wrappers(out, w, opts);
    let ghost o1 = out@;
    emit_helpers_sound(out, w, opts);
    let ghost acc = grow(o0, helpers_wrappers(ws, *opts), helpers_sound(ws, *opts));
    emit_bios_wrappers(out);
    let ghost acc = grow(o0, acc, bios_wrappers());
}

/// Emits the runtime helper routines the program needs, and records the
/// lines of the text printing and debug print routines in the debug
/// information.
pub fn emit_builtin_helpers(out: &mut String, usage: &RuntimeUsage, opts: &CodegenOptions, debug_info: &mut DebugInfo)
    requires
        old(debug_info).wf(),
        lines(old(out)@ + helpers_head(set_of(usage.wrappers_used@), *opts)).len() < usize::MAX,
        lines(old(out)@ + helpers_head(set_of(usage.wrappers_used@), *opts) + when(
            has(set_of(usage.wrappers_used@), "VECTREX_PRINT_TEXT"@),
            PRINT_TEXT@,
        )).len() < usize::MAX,
    ensures
        final(out)@ == old(out)@ + builtin_helpers_text(set_of(usage.wrappers_used@), *opts),
        final(debug_info).wf(),
        amap(final(debug_info).asm_functions@) == helper_functions(
            amap(old(debug_info).asm_functions@),
            set_of(usage.wrappers_used@),
            *opts,
            old(out)@,
            old(debug_info).asm_name@,
        ),
        *final(debug_info) == (DebugInfo { asm_functions: final(debug_info).asm_functions, ..*old(debug_info) }),
{
    let w = &usage.wrappers_used;
    let ghost ws = set_of(w@);
    let ghost o0 = out@;
    emit_helpers_head(out, w, opts);
    let ghost o1 = out@;
    let ghost acc = helpers_head(ws, *opts);
    if set_contains(w, "VECTREX_PRINT_TEXT") {
        emit_located(out, debug_info, "VECTREX_PRINT_TEXT", PRINT_TEXT);
    }
    let ghost pt = when(has(ws, "VECTREX_PRINT_TEXT"@), PRINT_TEXT@);
    assert(out@ =~= o1 + pt);
    let ghost acc = grow(o0, acc, pt);
    let ghost o2 = out@;
    if set_contains(w, "VECTREX_DEBUG_PRINT") {
        emit_located(out, debug_info, "VECTREX_DEBUG_PRINT", DEBUG_PRINT);
    }
    let ghost dp = when(has(ws, "VECTREX_DEBUG_PRINT"@), DEBUG_PRINT@);
    assert(out@ =~= o2 + dp);
    let ghost acc = grow(o0, acc, dp);
    emit_helpers_tail(out, w, opts);
    let ghost acc = grow(o0, acc, helpers_tail(ws, *opts));
}

} // verus!
