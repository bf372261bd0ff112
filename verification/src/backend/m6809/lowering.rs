//! The 6809 lowering of expressions and builtin calls: the value of an
//! expression ends in `RESULT`, builtins become inline code, BIOS calls or
//! runtime calls. Labels are numbered from a counter the caller owns. The
//! vertices of circles, arcs and spirals and the path counts of vector
//! assets come in computed by the caller.

use vstd::prelude::*;
use crate::ast::{BinOp, CmpOp, ExprM, LogicOp};
use crate::backend::arm::{first_index, label, ArmCtx};
use crate::backend::m6809::analysis::resolved_name;
use crate::backend::m6809::builtin_texts::{
    asset_box, asset_box_fits, draw_line_const, fixed_builtin, polygon_const, poly_fits, shape_text,
    DRAW_VECTOR_LIST_LOOP, RESULT_CLEAR, RESULT_ZERO,
};
use crate::backend::m6809::utils::power_of_two_exponent;
use crate::codegen::AssetInfo;
use crate::text::{
    ascii_upper_seq, dec, dec_int, ends_with, replace_char, unicode_lower, unicode_upper,
};

verus! {

/// The vertices of a circle, arc or spiral call with constant arguments,
/// computed by the caller: the builtin's name, its arguments, the vertices.
pub struct ShapeData {
    pub name: String,
    pub args: Vec<i32>,
    pub verts: Vec<(i32, i32)>,
}

/// What the lowering needs from outside: the number of paths of each asset
/// (in the order of the options' assets; read for vector assets) and the
/// vertices of the constant circles, arcs and spirals.
pub struct AssetData {
    pub vector_paths: Vec<usize>,
    pub shapes: Vec<ShapeData>,
}

/// What the lowering knows: the locals and string labels, the options it
/// reads, the assets, and the data computed outside.
pub struct M6Ctx {
    pub cx: ArmCtx,
    pub auto_loop: bool,
    pub force_ext: bool,
    pub assets: Seq<AssetInfo>,
    pub paths: Seq<usize>,
    pub shapes: Seq<(Seq<char>, Seq<i32>, Seq<(i32, i32)>)>,
}

/// The outcome of a builtin call: its code and the counter after it, not a
/// builtin, or a name that re-dispatches to itself without end.
pub enum BuiltinOut {
    Text(Seq<char>, nat),
    NotBuiltin,
    Diverges,
}

// ---------------------------------------------------------------------------
// Helpers of the model
// ---------------------------------------------------------------------------

/// The builtin names that the lowering recognises as such.
pub open spec fn is_listed(up: Seq<char>) -> bool {
    up == "VECTREX_PRINT_TEXT"@ || up == "VECTREX_DEBUG_PRINT"@ || up
        == "VECTREX_DEBUG_PRINT_LABELED"@ || up == "VECTREX_POKE"@ || up == "VECTREX_PEEK"@ || up
        == "VECTREX_PRINT_NUMBER"@ || up == "VECTREX_MOVE_TO"@ || up == "VECTREX_DRAW_TO"@ || up
        == "DRAW_LINE_WRAPPER"@ || up == "DRAW_LINE_FAST"@ || up == "SETUP_DRAW_COMMON"@ || up
        == "VECTREX_DRAW_VL"@ || up == "VECTREX_FRAME_BEGIN"@ || up == "VECTREX_VECTOR_PHASE_BEGIN"@
        || up == "VECTREX_SET_ORIGIN"@ || up == "VECTREX_SET_INTENSITY"@ || up
        == "VECTREX_WAIT_RECAL"@ || up == "VECTREX_PLAY_MUSIC1"@ || up == "DRAW_VECTOR"@ || up
        == "PLAY_MUSIC"@ || up == "PLAY_SFX"@ || up == "STOP_MUSIC"@ || up == "MUSIC_UPDATE"@ || up
        == "J1_X"@ || up == "J1_Y"@ || up == "J1_BUTTON_1"@ || up == "J1_BUTTON_2"@ || up
        == "J1_BUTTON_3"@ || up == "J1_BUTTON_4"@ || up == "J2_X"@ || up == "J2_Y"@ || up
        == "J2_BUTTON_1"@ || up == "J2_BUTTON_2"@ || up == "J2_BUTTON_3"@ || up == "J2_BUTTON_4"@
        || up == "SIN"@ || up == "COS"@ || up == "TAN"@ || up == "MATH_SIN"@ || up == "MATH_COS"@
        || up == "MATH_TAN"@ || up == "ABS"@ || up == "MATH_ABS"@ || up == "MIN"@ || up
        == "MATH_MIN"@ || up == "MAX"@ || up == "MATH_MAX"@ || up == "CLAMP"@ || up
        == "MATH_CLAMP"@ || up == "DRAW_CIRCLE"@ || up == "DRAW_CIRCLE_SEG"@ || up == "DRAW_ARC"@
        || up == "DRAW_SPIRAL"@ || up == "DRAW_VECTORLIST"@
}

/// The values of the arguments when all are number literals.
pub open spec fn nums(args: Seq<ExprM>) -> Option<Seq<i32>>
    decreases args.len(),
{
    if args.len() == 0 {
        Some(Seq::empty())
    } else {
        match (nums(args.drop_last()), args.last()) {
            (Some(v), ExprM::Number(x)) => Some(v.push(x)),
            _ => None,
        }
    }
}

/// The tracking comment of a native call made at a known source line.
pub open spec fn native(line: Option<usize>, f: Seq<char>) -> Seq<char> {
    match line {
        Some(l) => "; NATIVE_CALL: "@ + f + " at line "@ + dec(l as nat) + "\n"@,
        None => Seq::empty(),
    }
}

/// The first asset named `name` whose kind is music (`kind` 1), sound
/// effect (2) or vector (0).
pub open spec fn asset_index(assets: Seq<AssetInfo>, name: Seq<char>, kind: nat) -> Option<int>
    decreases assets.len(),
{
    if assets.len() == 0 {
        None
    } else {
        match asset_index(assets.drop_last(), name, kind) {
            Some(i) => Some(i),
            None => if assets.last().name@ == name && (if kind == 0 {
                assets.last().asset_type is Vector
            } else if kind == 1 {
                assets.last().asset_type is Music
            } else {
                assets.last().asset_type is Sfx
            }) {
                Some(assets.len() - 1)
            } else {
                None
            },
        }
    }
}

/// An asset name as an assembler symbol: upper case, `-` and spaces as `_`.
pub open spec fn symbol_of(name: Seq<char>) -> Seq<char> {
    replace_char(replace_char(unicode_upper(name), '-', '_'), ' ', '_')
}

/// The vertices given for a constant shape call.
pub open spec fn shape_for(
    shapes: Seq<(Seq<char>, Seq<i32>, Seq<(i32, i32)>)>,
    up: Seq<char>,
    vals: Seq<i32>,
) -> Option<Seq<(i32, i32)>>
    decreases shapes.len(),
{
    if shapes.len() == 0 {
        None
    } else {
        match shape_for(shapes.drop_last(), up, vals) {
            Some(v) => Some(v),
            None => if shapes.last().0 == up && shapes.last().1 == vals {
                Some(shapes.last().2)
            } else {
                None
            },
        }
    }
}

/// The shape builtin a constant call draws: closed or not, its intensity,
/// and whether it is the plain circle; none when `up` with these values is
/// not a constant shape call.
pub open spec fn shape_kind(up: Seq<char>, v: Seq<i32>) -> Option<(bool, i32, bool)> {
    if up == "DRAW_CIRCLE"@ && (v.len() == 3 || v.len() == 4) {
        Some((true, if v.len() == 4 { v[3] } else { 0x5F }, true))
    } else if up == "DRAW_CIRCLE_SEG"@ && (v.len() == 4 || v.len() == 5) {
        Some((true, if v.len() == 5 { v[4] } else { 0x5F }, false))
    } else if up == "DRAW_ARC"@ && (v.len() == 6 || v.len() == 7) {
        Some((false, if v.len() == 7 { v[6] } else { 0x5F }, false))
    } else if up == "DRAW_SPIRAL"@ && 6 <= v.len() <= 8 {
        Some((false, if v.len() > 6 { v[v.len() - 1] } else { 0x5F }, false))
    } else {
        None
    }
}

/// `n` clamped to `[lo, hi]`.
pub open spec fn clamp(n: int, lo: int, hi: int) -> int {
    if n < lo {
        lo
    } else if n > hi {
        hi
    } else {
        n
    }
}

/// How many vertices a constant shape call has.
pub open spec fn shape_len(up: Seq<char>, v: Seq<i32>) -> int {
    if up == "DRAW_CIRCLE"@ {
        16
    } else if up == "DRAW_CIRCLE_SEG"@ {
        clamp(v[0] as int, 3, 64)
    } else if up == "DRAW_ARC"@ {
        clamp(v[0] as int, 1, 96) + 1
    } else {
        clamp(v[0] as int, 4, 120) + 1
    }
}

/// Where the vertices of a constant polygon start among the arguments (1,
/// or 2 with an intensity), when the count fits the argument list.
pub open spec fn poly_start(args: Seq<ExprM>) -> Option<int> {
    if args.len() > 0 && args[0] is Number {
        let n = args[0]->Number_0 as int;
        if args.len() == 1 + 2 * n {
            Some(1)
        } else if args.len() == 2 + 2 * n {
            Some(2)
        } else {
            None
        }
    } else {
        None
    }
}

/// The vertex pairs of a constant polygon.
pub open spec fn pairs_of(v: Seq<i32>) -> Seq<(i32, i32)> {
    Seq::new(v.len() / 2, |i: int| (v[2 * i], v[2 * i + 1]))
}

/// The constant polygon a `DRAW_POLYGON` call draws: vertices and
/// intensity.
pub open spec fn poly_call(args: Seq<ExprM>) -> Option<(Seq<(i32, i32)>, i32)> {
    match poly_start(args) {
        Some(st) => match nums(args.subrange(st, args.len() as int)) {
            Some(v) => Some(
                (
                    pairs_of(v),
                    if st == 2 && args[1] is Number {
                        args[1]->Number_0
                    } else {
                        0x5F
                    },
                ),
            ),
            None => None,
        },
        None => None,
    }
}

/// The label an argument names: a string or an identifier.
pub open spec fn label_arg(e: ExprM) -> Option<Seq<char>> {
    match e {
        ExprM::StringLit(s) => Some(s),
        ExprM::Ident(n, _, _) => Some(n),
        _ => None,
    }
}

/// The code of a 6809 comparison branch.
pub open spec fn m6_branch(op: CmpOp) -> Seq<char> {
    match op {
        CmpOp::Eq => "BEQ"@,
        CmpOp::Ne => "BNE"@,
        CmpOp::Lt => "BLT"@,
        CmpOp::Le => "BLE"@,
        CmpOp::Gt => "BGT"@,
        CmpOp::Ge => "BGE"@,
    }
}

/// The code that combines TMPLEFT and TMPRIGHT into RESULT.
pub open spec fn m6_binop_text(op: BinOp) -> Seq<char> {
    match op {
        BinOp::Add => "    LDD TMPLEFT\n    ADDD TMPRIGHT\n    STD RESULT\n"@,
        BinOp::Sub => "    LDD TMPLEFT\n    SUBD TMPRIGHT\n    STD RESULT\n"@,
        BinOp::Mul => "    LDD TMPLEFT\n    STD MUL_A\n    LDD TMPRIGHT\n    STD MUL_B\n    JSR MUL16\n"@,
        BinOp::Div => "    LDD TMPLEFT\n    STD DIV_A\n    LDD TMPRIGHT\n    STD DIV_B\n    JSR DIV16\n"@,
        BinOp::FloorDiv => "    LDD TMPLEFT\n    STD DIV_A\n    LDD TMPRIGHT\n    STD DIV_B\n    JSR DIV16\n"@,
        BinOp::Mod => "    LDD TMPLEFT\n    STD DIV_A\n    LDD TMPRIGHT\n    STD DIV_B\n    JSR DIV16\n    ; quotient in RESULT, need remainder: A - Q*B\n    LDD DIV_A\n    STD TMPLEFT\n    LDD RESULT\n    STD MUL_A\n    LDD DIV_B\n    STD MUL_B\n    JSR MUL16\n    ; product in RESULT, subtract from original A (TMPLEFT)\n    LDD TMPLEFT\n    SUBD RESULT\n    STD RESULT\n"@,
        BinOp::Shl => "    LDD TMPLEFT\nSHL_LOOP: LDA TMPRIGHT+1\n    BEQ SHL_DONE\n    ASLB\n    ROLA\n    DEC TMPRIGHT+1\n    BRA SHL_LOOP\nSHL_DONE: STD RESULT\n"@,
        BinOp::Shr => "    LDD TMPLEFT\nSHR_LOOP: LDA TMPRIGHT+1\n    BEQ SHR_DONE\n    LSRA\n    RORB\n    DEC TMPRIGHT+1\n    BRA SHR_LOOP\nSHR_DONE: STD RESULT\n"@,
        BinOp::BitAnd => "    LDD TMPLEFT\n    ANDA TMPRIGHT+1\n    ANDB TMPRIGHT\n    STD RESULT\n"@,
        BinOp::BitOr => "    LDD TMPLEFT\n    ORA TMPRIGHT+1\n    ORB TMPRIGHT\n    STD RESULT\n"@,
        BinOp::BitXor => "    LDD TMPLEFT\n    EORA TMPRIGHT+1\n    EORB TMPRIGHT\n    STD RESULT\n"@,
    }
}

/// The reference text that the peepholes compare (`I:`, `N:`, `S:`, `C:`
/// and the name, number or text; `?` otherwise).
pub open spec fn ref_of(e: ExprM) -> Seq<char> {
    match e {
        ExprM::Ident(n, _, _) => seq!['I', ':'] + n,
        ExprM::Number(v) => seq!['N', ':'] + dec_int(v as int),
        ExprM::StringLit(s) => seq!['S', ':'] + s,
        ExprM::Call(n, _, _, _) => seq!['C', ':'] + n,
        _ => seq!['?'],
    }
}

/// `k` shifts of one 16-bit step.
pub open spec fn repeat_text(t: Seq<char>, k: nat) -> Seq<char>
    decreases k,
{
    if k == 0 {
        Seq::empty()
    } else {
        repeat_text(t, (k - 1) as nat) + t
    }
}

/// The shift count of a power-of-two constant operand.
pub open spec fn pow2_of(e: ExprM) -> Option<u32> {
    match e {
        ExprM::Number(n) => power_of_two_exponent(n),
        _ => None,
    }
}

/// The JSR of a call, extended when the options force it.
pub open spec fn jsr(c: M6Ctx, target: Seq<char>) -> Seq<char> {
    "    JSR "@ + (if c.force_ext {
        ">"@
    } else {
        Seq::empty()
    }) + target + "\n"@
}

/// The paths of a vector asset drawn at the position, one `JSR` each.
pub open spec fn path_lines(sym: Seq<char>, k: nat) -> Seq<char>
    decreases k,
{
    if k == 0 {
        Seq::empty()
    } else {
        let p = (k - 1) as nat;
        path_lines(sym, p) + "    LDX #"@ + sym + "_PATH"@ + dec(p) + "  ; Path "@ + dec(p)
            + "\n    JSR Draw_Sync_List_At\n"@
    }
}

/// Stores RESULT into argument slot `i`.
pub open spec fn store_arg(i: nat) -> Seq<char> {
    "    LDD RESULT\n    STD VAR_ARG"@ + dec(i) + "\n"@
}


/// The code of `DRAW_VECTOR` for a vector asset with `pc` paths, given the
/// code of its two position arguments.
pub open spec fn draw_vector_text(nm: Seq<char>, pc: nat, t1: Seq<char>, t2: Seq<char>) -> Seq<char> {
    "; DRAW_VECTOR(\""@ + nm + "\", x, y) - "@ + dec(pc) + " path(s) at position\n"@ + t1
        + "    LDA RESULT+1  ; X position (low byte)\n    STA DRAW_VEC_X\n"@ + t2
        + "    LDA RESULT+1  ; Y position (low byte)\n    STA DRAW_VEC_Y\n"@ + path_lines(
        "_"@ + symbol_of(nm),
        pc,
    ) + RESULT_ZERO@
}

/// The code of `DRAW_VECTOR_LIST` given the code of its three arguments.
pub open spec fn vector_list_text(lbl: Seq<char>, t1: Seq<char>, t2: Seq<char>, t3: Seq<char>) -> Seq<char> {
    t1 + "    LDA RESULT+1\n    STA VL_Y\n"@ + t2 + "    LDA RESULT+1\n    STA VL_X\n"@ + t3
        + "    LDA RESULT+1\n    STA VL_SCALE\n"@ + "; DRAW_VECTOR_LIST("@ + lbl
        + ", y, x, scale) - Malban algorithm\n    LDX #_"@ + unicode_upper(lbl) + "\n"@
        + DRAW_VECTOR_LIST_LOOP@
}

/// The code of `ABS` given the code of its argument and the label counter
/// after it.
pub open spec fn abs_text(t: Seq<char>, m: nat) -> Seq<char> {
    let d = label("ABS_DONE"@, m);
    t + "    LDD RESULT\n    TSTA\n    BPL "@ + d + "\n    COMA\n    COMB\n    ADDD #1\n"@ + d
        + ": STD RESULT\n"@
}

/// The code of `MIN` or `MAX` given the code of its two arguments and the
/// label counter after them.
pub open spec fn minmax_text(is_min: bool, t0: Seq<char>, t1: Seq<char>, m1: nat) -> Seq<char> {
    let ur = label(if is_min { "MIN_USE_R"@ } else { "MAX_USE_R"@ }, m1);
    let d = label(if is_min { "MIN_DONE"@ } else { "MAX_DONE"@ }, m1 + 1);
    t0 + "    LDD RESULT\n    STD TMPLEFT\n"@ + t1 + "    LDD RESULT\n    STD TMPRIGHT\n"@
        + "    LDD TMPLEFT\n    SUBD TMPRIGHT\n    "@ + (if is_min {
        "BGT"@
    } else {
        "BLT"@
    }) + " "@ + ur + "\n    LDD TMPLEFT\n    BRA "@ + d + "\n"@ + ur + ": LDD TMPRIGHT\n"@ + d
        + ": STD RESULT\n"@
}

/// The code of `CLAMP` given the code of its three arguments and the label
/// counter after them.
pub open spec fn clamp_text(t0: Seq<char>, t1: Seq<char>, t2: Seq<char>, m2: nat) -> Seq<char> {
    let lo = label("CLAMP_USE_LO"@, m2);
    let ch = label("CLAMP_CHECK_HI"@, m2 + 1);
    let hi = label("CLAMP_USE_HI"@, m2 + 2);
    let d = label("CLAMP_DONE"@, m2 + 3);
    t0 + "    LDD RESULT\n    STD TMPLEFT\n"@ + t1 + "    LDD RESULT\n    STD TMPRIGHT\n"@ + t2
        + "    LDD RESULT\n    STD DIV_A\n"@ + "    LDD TMPLEFT\n    SUBD TMPRIGHT\n    BLT "@ + lo
        + "\n    BRA "@ + ch + "\n"@ + lo + ": LDD TMPRIGHT\n    BRA "@ + d + "\n"@ + ch
        + ": LDD TMPLEFT\n    SUBD DIV_A\n    BGT "@ + hi + "\n    LDD TMPLEFT\n    BRA "@ + d + "\n"@
        + hi + ": LDD DIV_A\n"@ + d + ": STD RESULT\n"@
}

/// The code of a table lookup (`SIN`, `COS`, `TAN`) given the code of its
/// argument.
pub open spec fn trig_text(up: Seq<char>, t: Seq<char>) -> Seq<char> {
    t + "    LDD RESULT\n    ANDB #$7F\n    CLRA\n    ASLB\n    ROLA\n    LDX #SIN_TABLE\n"@ + (if ends_with(
        up,
        "COS"@,
    ) {
        "    LDX #COS_TABLE\n"@
    } else {
        Seq::empty()
    }) + (if ends_with(up, "TAN"@) {
        "    LDX #TAN_TABLE\n"@
    } else {
        Seq::empty()
    }) + "    ABX\n    LDD ,X\n    STD RESULT\n"@
}


/// The code of a comparison given the code of its operands and the label
/// counter after them.
pub open spec fn compare_text(op: CmpOp, tl: Seq<char>, tr: Seq<char>, m2: nat) -> Seq<char> {
    let lt = label("CT"@, m2);
    let en = label("CE"@, m2 + 1);
    tl + "    LDD RESULT\n    STD TMPLEFT\n"@ + tr
        + "    LDD RESULT\n    STD TMPRIGHT\n    LDD TMPLEFT\n    SUBD TMPRIGHT\n"@ + "    "@ + m6_branch(op)
        + " "@ + lt + "\n    LDD #0\n    STD RESULT\n    BRA "@ + en + "\n"@ + lt
        + ":\n    LDD #1\n    STD RESULT\n"@ + en + ":\n"@
}

/// The code of a short-circuit `and` given the code of its operands and the
/// label counter after the left one.
pub open spec fn and_text(tl: Seq<char>, tr: Seq<char>, m1: nat) -> Seq<char> {
    let f = label("AND_FALSE"@, m1);
    let en = label("AND_END"@, m1 + 1);
    tl + "    LDD RESULT\n    BEQ "@ + f + "\n"@ + tr + "    LDD RESULT\n    BEQ "@ + f
        + "\n    LDD #1\n    STD RESULT\n    BRA "@ + en + "\n"@ + f + ":\n    LDD #0\n    STD RESULT\n"@
        + en + ":\n"@
}

/// The code of a short-circuit `or` given the code of its operands and the
/// label counter before it.
pub open spec fn or_text(tl: Seq<char>, tr: Seq<char>, n: nat) -> Seq<char> {
    let t = label("OR_TRUE"@, n);
    let en = label("OR_END"@, n + 1);
    tl + "    LDD RESULT\n    BNE "@ + t + "\n"@ + tr + "    LDD RESULT\n    BNE "@ + t
        + "\n    LDD #0\n    STD RESULT\n    BRA "@ + en + "\n"@ + t + ":\n    LDD #1\n    STD RESULT\n"@
        + en + ":\n"@
}

// ---------------------------------------------------------------------------
// The lowering
// ---------------------------------------------------------------------------

/// The code that leaves an expression's value in RESULT, and the label
/// counter after it.
#[verifier::opaque]
pub open spec fn m6_expr(e: ExprM, c: M6Ctx, n: nat) -> (Seq<char>, nat)
    decreases e, 0nat, 0nat,
{
    match e {
        ExprM::Number(v) => ("    LDD #"@ + dec_int(v as int) + "\n    STD RESULT\n"@, n),
        ExprM::StringLit(s) => (
            if c.cx.strs.contains_key(s) {
                "    LDX #"@ + c.cx.strs[s] + "\n    STX RESULT\n"@
            } else {
                "    LDD #0\n    STD RESULT\n"@
            },
            n,
        ),
        ExprM::Ident(name, _, _) => (
            match first_index(c.cx.locals, name) {
                Some(i) => "    LDD "@ + dec_int(2 * i) + " ,S\n    STD RESULT\n"@,
                None => "    LDD VAR_"@ + unicode_upper(name) + "\n    STD RESULT\n"@,
            },
            n,
        ),
        ExprM::Call(name, line, _, args) => match m6_builtin(
            ascii_upper_seq(name),
            args,
            c,
            Some(line),
            n,
            2,
        ) {
            BuiltinOut::Text(t, m) => (t, m),
            BuiltinOut::Diverges => (Seq::empty(), n),
            BuiltinOut::NotBuiltin => {
                let (t, m) = m6_args(
                    args,
                    if args.len() < 5 {
                        args.len()
                    } else {
                        5
                    },
                    c,
                    n,
                );
                (t + jsr(
                    c,
                    if c.auto_loop && unicode_lower(name) == "loop"@ {
                        "LOOP_BODY"@
                    } else {
                        unicode_upper(name)
                    },
                ), m)
            },
        },
        ExprM::Binary(op, l, r) => {
            if op == BinOp::Add && ref_of(*l) == ref_of(*r) {
                let (t, m) = m6_expr(*l, c, n);
                (t + "    LDD RESULT\n    ADDD RESULT\n    STD RESULT\n"@, m)
            } else if op == BinOp::Sub && ref_of(*l) == ref_of(*r) {
                ("    CLRA\n    CLRB\n    STD RESULT\n"@, n)
            } else if op == BinOp::Mul && pow2_of(*r) is Some {
                let (t, m) = m6_expr(*l, c, n);
                (t + "    LDD RESULT\n"@ + repeat_text("    ASLB\n    ROLA\n"@, pow2_of(*r)->0 as nat)
                    + "    STD RESULT\n"@, m)
            } else if op == BinOp::Mul && pow2_of(*l) is Some {
                let (t, m) = m6_expr(*r, c, n);
                (t + "    LDD RESULT\n"@ + repeat_text("    ASLB\n    ROLA\n"@, pow2_of(*l)->0 as nat)
                    + "    STD RESULT\n"@, m)
            } else if op == BinOp::Div && pow2_of(*r) is Some {
                let (t, m) = m6_expr(*l, c, n);
                (t + "    LDD RESULT\n"@ + repeat_text("    LSRA\n    RORB\n"@, pow2_of(*r)->0 as nat)
                    + "    STD RESULT\n"@, m)
            } else {
                let (tl, m1) = m6_expr(*l, c, n);
                let (tr, m2) = m6_expr(*r, c, m1);
                (tl + "    LDD RESULT\n    STD TMPLEFT\n"@ + tr + "    LDD RESULT\n    STD TMPRIGHT\n"@
                    + m6_binop_text(op), m2)
            }
        },
        ExprM::BitNot(x) => {
            let (t, m) = m6_expr(*x, c, n);
            (t + "    LDD RESULT\n    COMA\n    COMB\n    STD RESULT\n"@, m)
        },
        ExprM::Compare(op, l, r) => {
            let (tl, m1) = m6_expr(*l, c, n);
            let (tr, m2) = m6_expr(*r, c, m1);
            (compare_text(op, tl, tr, m2), m2 + 2)
        },
        ExprM::Logic(LogicOp::And, l, r) => {
            let (tl, m1) = m6_expr(*l, c, n);
            let (tr, m2) = m6_expr(*r, c, m1 + 2);
            (and_text(tl, tr, m1), m2)
        },
        ExprM::Logic(LogicOp::Or, l, r) => {
            let (tl, m1) = m6_expr(*l, c, n + 2);
            let (tr, m2) = m6_expr(*r, c, m1);
            (or_text(tl, tr, n), m2)
        },
        ExprM::Not(x) => {
            let (t, m) = m6_expr(*x, c, n);
            (t
                + "    LDD RESULT\n    BEQ NOT_TRUE\n    LDD #0\n    STD RESULT\n    BRA NOT_END\nNOT_TRUE:\n    LDD #1\n    STD RESULT\nNOT_END:\n"@, m)
        },
    }
}

/// The first `k` arguments of a call stored into the argument slots, in
/// order.
pub open spec fn m6_args(args: Seq<ExprM>, k: nat, c: M6Ctx, n: nat) -> (Seq<char>, nat)
    decreases args, 0nat, k,
{
    if k == 0 || k > args.len() {
        (Seq::empty(), n)
    } else {
        let (t, m) = m6_args(args, (k - 1) as nat, c, n);
        let (u, j) = m6_expr(args[k - 1], c, m);
        (t + u + store_arg((k - 1) as nat), j)
    }
}

/// The five arguments of `DRAW_LINE` stored into the argument slots, number
/// literals directly.
pub open spec fn m6_line_args(args: Seq<ExprM>, k: nat, c: M6Ctx, n: nat) -> (Seq<char>, nat)
    decreases args, 0nat, k,
{
    if k == 0 || k > args.len() {
        (Seq::empty(), n)
    } else {
        let (t, m) = m6_line_args(args, (k - 1) as nat, c, n);
        match args[k - 1] {
            ExprM::Number(v) => (t + "    LDD #"@ + dec_int(crate::codegen::fold::low16(v as int))
                + "\n    STD VAR_ARG"@ + dec((k - 1) as nat) + "\n"@, m),
            _ => {
                let (u, j) = m6_expr(args[k - 1], c, m);
                (t + u + store_arg((k - 1) as nat), j)
            },
        }
    }
}

/// The code of a builtin call by upper-case name, with the label counter
/// after it; not a builtin; or a name that re-dispatches without end. A
/// name the builtins do not list and that has a newer spelling is lowered
/// under that spelling (`fuel` bounds the re-dispatch, which never needs
/// more than one step when it ends).
#[verifier::opaque]
pub open spec fn m6_builtin(
    up: Seq<char>,
    a: Seq<ExprM>,
    c: M6Ctx,
    line: Option<usize>,
    n: nat,
    fuel: nat,
) -> BuiltinOut
    decreases a, 1nat, fuel,
{
    if up == "DRAW_VECTOR"@ && a.len() == 3 && a[0] is StringLit {
        let nm = a[0]->StringLit_0;
        match asset_index(c.assets, nm, 0) {
            Some(k) => {
                let pc = c.paths[k] as nat;
                let (t1, m1) = m6_expr(a[1], c, n);
                let (t2, m2) = m6_expr(a[2], c, m1);
                BuiltinOut::Text(draw_vector_text(nm, pc, t1, t2), m2)
            },
            None => BuiltinOut::Text(asset_box(nm, c.assets, false), n),
        }
    } else if up == "PLAY_MUSIC"@ && a.len() == 1 && a[0] is StringLit {
        let nm = a[0]->StringLit_0;
        BuiltinOut::Text(
            if asset_index(c.assets, nm, 1) is Some {
                "; PLAY_MUSIC(\""@ + nm + "\") - play music asset\n    LDX #_"@ + symbol_of(nm)
                    + "_MUSIC\n    JSR PLAY_MUSIC_RUNTIME\n"@ + RESULT_ZERO@
            } else {
                "; ERROR: Music asset '"@ + nm + "' not found\n"@
            },
            n,
        )
    } else if up == "PLAY_SFX"@ && a.len() == 1 && a[0] is StringLit {
        let nm = a[0]->StringLit_0;
        BuiltinOut::Text(
            if asset_index(c.assets, nm, 2) is Some {
                "; PLAY_SFX(\""@ + nm + "\") - play sound effect (one-shot)\n    LDX #_"@ + symbol_of(nm)
                    + "_SFX\n    JSR PLAY_SFX_RUNTIME\n"@ + RESULT_ZERO@
            } else {
                asset_box(nm, c.assets, true)
            },
            n,
        )
    } else if a.len() == 0 && fixed_builtin(up) is Some {
        let (f, t) = fixed_builtin(up)->0;
        BuiltinOut::Text(native(line, f) + t, n)
    } else if up == "VECTREX_DRAW_VECTORLIST"@ && a.len() == 1 && label_arg(a[0]) is Some {
        BuiltinOut::Text(
            "    LDX #VL_"@ + ascii_upper_seq(label_arg(a[0])->0) + "\n    JSR Run_VectorList\n"@,
            n,
        )
    } else if up == "DRAW_VECTORLIST"@ && a.len() == 0 {
        BuiltinOut::Text(Seq::empty(), n)
    } else if up == "DRAW_VECTORLIST"@ && label_arg(a[0]) is Some {
        BuiltinOut::Text("    JSR VL_"@ + ascii_upper_seq(label_arg(a[0])->0) + "\n"@, n)
    } else if up == "ASM"@ && a.len() == 1 && a[0] is StringLit {
        BuiltinOut::Text("    "@ + a[0]->StringLit_0 + "\n"@, n)
    } else if up == "DRAW_VECTOR_LIST"@ && a.len() == 4 {
        match label_arg(a[0]) {
            None => BuiltinOut::Text(
                "; ERROR: DRAW_VECTOR_LIST requires label as first arg\n"@,
                n,
            ),
            Some(lbl) => {
                let (t1, m1) = m6_expr(a[1], c, n);
                let (t2, m2) = m6_expr(a[2], c, m1);
                let (t3, m3) = m6_expr(a[3], c, m2);
                BuiltinOut::Text(vector_list_text(lbl, t1, t2, t3), m3)
            },
        }
    } else if up == "DRAW_LINE"@ && a.len() == 5 && nums(a) is Some {
        let v = nums(a)->0;
        BuiltinOut::Text(draw_line_const(v[0], v[1], v[2], v[3], v[4]), n)
    } else if up == "DRAW_LINE"@ && a.len() == 5 {
        let (t, m) = m6_line_args(a, 5, c, n);
        BuiltinOut::Text(t + "    JSR DRAW_LINE_WRAPPER\n"@ + RESULT_ZERO@, m)
    } else if up == "DRAW_POLYGON"@ && poly_call(a) is Some {
        let (v, i) = poly_call(a)->0;
        BuiltinOut::Text(polygon_const(v, i), n)
    } else if nums(a) is Some && shape_kind(up, nums(a)->0) is Some {
        let (closed, i, circle) = shape_kind(up, nums(a)->0)->0;
        let verts = match shape_for(c.shapes, up, nums(a)->0) {
            Some(v) => v,
            None => Seq::empty(),
        };
        BuiltinOut::Text(shape_text(verts, closed, i, circle), n)
    } else if !is_listed(up) {
        match resolved_name(up) {
            Some(t) => if fuel == 0 {
                BuiltinOut::Diverges
            } else {
                m6_builtin(t, a, c, line, n, (fuel - 1) as nat)
            },
            None => BuiltinOut::NotBuiltin,
        }
    } else if up == "ABS"@ || up == "MATH_ABS"@ {
        if a.len() > 0 {
            let (t, m) = m6_expr(a[0], c, n);
            BuiltinOut::Text(abs_text(t, m), m + 1)
        } else {
            BuiltinOut::Text(RESULT_ZERO@, n)
        }
    } else if up == "MIN"@ || up == "MATH_MIN"@ || up == "MAX"@ || up == "MATH_MAX"@ {
        if a.len() < 2 {
            BuiltinOut::Text(RESULT_ZERO@, n)
        } else {
            let is_min = up == "MIN"@ || up == "MATH_MIN"@;
            let (t0, m0) = m6_expr(a[0], c, n);
            let (t1, m1) = m6_expr(a[1], c, m0);
            BuiltinOut::Text(minmax_text(is_min, t0, t1, m1), m1 + 2)
        }
    } else if up == "CLAMP"@ || up == "MATH_CLAMP"@ {
        if a.len() < 3 {
            BuiltinOut::Text(RESULT_ZERO@, n)
        } else {
            let (t0, m0) = m6_expr(a[0], c, n);
            let (t1, m1) = m6_expr(a[1], c, m0);
            let (t2, m2) = m6_expr(a[2], c, m1);
            BuiltinOut::Text(clamp_text(t0, t1, t2, m2), m2 + 4)
        }
    } else if up == "SIN"@ || up == "COS"@ || up == "TAN"@ || up == "MATH_SIN"@ || up
        == "MATH_COS"@ || up == "MATH_TAN"@ {
        if a.len() > 0 {
            let (t, m) = m6_expr(a[0], c, n);
            BuiltinOut::Text(trig_text(up, t), m)
        } else {
            BuiltinOut::Text(RESULT_CLEAR@, n)
        }
    } else {
        let (t, m) = m6_args(
            a,
            if a.len() < 5 {
                a.len()
            } else {
                5
            },
            c,
            n,
        );
        BuiltinOut::Text(t + native(line, up) + jsr(c, up) + RESULT_CLEAR@, m)
    }
}

// ---------------------------------------------------------------------------
// Inputs the lowering accepts
// ---------------------------------------------------------------------------

/// Whether lowering `e` at nesting depth `d` stays within the depth limit of
/// 500 at every expression it evaluates, and every builtin call in it is one
/// the lowering can carry out (see `m6_builtin_ok`).
pub open spec fn m6_ok(e: ExprM, d: int, c: M6Ctx) -> bool
    decreases e, 0nat, 0nat,
{
    d <= 500 && match e {
        ExprM::Call(name, line, _, args) => match m6_builtin(
            ascii_upper_seq(name),
            args,
            c,
            Some(line),
            0,
            2,
        ) {
            BuiltinOut::Text(..) => m6_builtin_ok(ascii_upper_seq(name), args, c, 2),
            BuiltinOut::Diverges => false,
            BuiltinOut::NotBuiltin => m6_args_ok(
                args,
                if args.len() < 5 {
                    args.len()
                } else {
                    5
                },
                d + 1,
                c,
            ),
        },
        ExprM::Binary(op, l, r) => {
            if op == BinOp::Add && ref_of(*l) == ref_of(*r) {
                m6_ok(*l, d + 1, c)
            } else if op == BinOp::Sub && ref_of(*l) == ref_of(*r) {
                true
            } else if op == BinOp::Mul && pow2_of(*r) is Some {
                m6_ok(*l, d + 1, c)
            } else if op == BinOp::Mul && pow2_of(*l) is Some {
                m6_ok(*r, d + 1, c)
            } else if op == BinOp::Div && pow2_of(*r) is Some {
                m6_ok(*l, d + 1, c)
            } else {
                m6_ok(*l, d + 1, c) && m6_ok(*r, d + 1, c)
            }
        },
        ExprM::Compare(_, l, r) => m6_ok(*l, d + 1, c) && m6_ok(*r, d + 1, c),
        ExprM::Logic(_, l, r) => m6_ok(*l, d + 1, c) && m6_ok(*r, d + 1, c),
        ExprM::Not(x) => m6_ok(*x, d + 1, c),
        ExprM::BitNot(x) => m6_ok(*x, d + 1, c),
        _ => true,
    }
}

/// The first `k` arguments are accepted at depth `d`.
pub open spec fn m6_args_ok(args: Seq<ExprM>, k: nat, d: int, c: M6Ctx) -> bool
    decreases args, 0nat, k,
{
    if k == 0 || k > args.len() {
        true
    } else {
        m6_args_ok(args, (k - 1) as nat, d, c) && m6_ok(args[k - 1], d, c)
    }
}

/// The vertices were given, as many as the shape has, at least one.
pub open spec fn shape_ok(v: Option<Seq<(i32, i32)>>, len: int) -> bool {
    match v {
        Some(v) => v.len() == len && v.len() > 0,
        None => false,
    }
}

/// Whether a builtin call can be carried out: its arguments are accepted
/// at depth 0 (builtins lower their arguments afresh), every asset has its
/// path count, a missing-asset box fits its columns, constant lines and
/// polygons have 32-bit deltas, a constant polygon's count is not negative
/// and fits the machine, a constant shape has its vertices, and a
/// re-dispatched name ends.
#[verifier::opaque]
pub open spec fn m6_builtin_ok(up: Seq<char>, a: Seq<ExprM>, c: M6Ctx, fuel: nat) -> bool
    decreases a, 1nat, fuel,
{
    &&& m6_args_ok(a, a.len(), 0, c)
    &&& c.paths.len() == c.assets.len()
    &&& (up == "DRAW_VECTOR"@ && a.len() == 3 && a[0] is StringLit && asset_index(
        c.assets,
        a[0]->StringLit_0,
        0,
    ) is None ==> asset_box_fits(a[0]->StringLit_0, c.assets, false))
    &&& (up == "PLAY_SFX"@ && a.len() == 1 && a[0] is StringLit && asset_index(
        c.assets,
        a[0]->StringLit_0,
        2,
    ) is None ==> asset_box_fits(a[0]->StringLit_0, c.assets, true))
    &&& (up == "DRAW_LINE"@ && a.len() == 5 && nums(a) is Some ==> {
        let v = nums(a)->0;
        i32::MIN <= v[2] - v[0] <= i32::MAX && i32::MIN <= v[3] - v[1] <= i32::MAX
    })
    &&& (up == "DRAW_POLYGON"@ && a.len() > 0 && a[0] is Number ==> 0 <= a[0]->Number_0 && 2
        * a[0]->Number_0 + 2 <= usize::MAX)
    &&& (up == "DRAW_POLYGON"@ && poly_call(a) is Some ==> poly_fits((poly_call(a)->0).0))
    &&& (nums(a) is Some && shape_kind(up, nums(a)->0) is Some ==> shape_ok(
        shape_for(c.shapes, up, nums(a)->0),
        shape_len(up, nums(a)->0),
    ))
    &&& (!is_listed(up) && resolved_name(up) is Some ==> fuel > 0 && m6_builtin_ok(
        resolved_name(up)->0,
        a,
        c,
        (fuel - 1) as nat,
    ))
}


// ---------------------------------------------------------------------------
// Facts of the model
// ---------------------------------------------------------------------------

/// Lowering an expression never sets the label counter back.
pub proof fn lemma_m6_expr_mono(e: ExprM, c: M6Ctx, n: nat)
    ensures
        m6_expr(e, c, n).1 >= n,
    decreases e, 0nat, 0nat,
{
    reveal(m6_expr);
    reveal(m6_builtin);
    match e {
        ExprM::Call(name, line, _, args) => {
            lemma_m6_builtin_mono(ascii_upper_seq(name), args, c, Some(line), n, 2);
            let b = m6_builtin(ascii_upper_seq(name), args, c, Some(line), n, 2);
            let k: nat = if args.len() < 5 {
                args.len()
            } else {
                5
            };
            lemma_m6_args_mono(args, k, c, n);
            match b {
                BuiltinOut::Text(_, m) => {
                    assert(m >= n);
                    assert(m6_expr(e, c, n).1 == m);
                },
                BuiltinOut::Diverges => {
                    assert(m6_expr(e, c, n).1 == n);
                },
                BuiltinOut::NotBuiltin => {
                    assert(m6_expr(e, c, n).1 == m6_args(args, k, c, n).1);
                },
            }
            lemma_m6_args_mono(
                args,
                if args.len() < 5 {
                    args.len()
                } else {
                    5
                },
                c,
                n,
            );
        },
        ExprM::Binary(_, l, r) => {
            lemma_m6_expr_mono(*l, c, n);
            lemma_m6_expr_mono(*r, c, n);
            lemma_m6_expr_mono(*r, c, m6_expr(*l, c, n).1);
        },
        ExprM::BitNot(x) => lemma_m6_expr_mono(*x, c, n),
        ExprM::Not(x) => lemma_m6_expr_mono(*x, c, n),
        ExprM::Compare(_, l, r) => {
            lemma_m6_expr_mono(*l, c, n);
            lemma_m6_expr_mono(*r, c, m6_expr(*l, c, n).1);
        },
        ExprM::Logic(LogicOp::And, l, r) => {
            lemma_m6_expr_mono(*l, c, n);
            lemma_m6_expr_mono(*r, c, m6_expr(*l, c, n).1 + 2);
        },
        ExprM::Logic(LogicOp::Or, l, r) => {
            lemma_m6_expr_mono(*l, c, n + 2);
            lemma_m6_expr_mono(*r, c, m6_expr(*l, c, n + 2).1);
        },
        _ => {},
    }
}

/// Storing arguments never sets the label counter back.
pub proof fn lemma_m6_args_mono(args: Seq<ExprM>, k: nat, c: M6Ctx, n: nat)
    ensures
        m6_args(args, k, c, n).1 >= n,
    decreases args, 0nat, k,
{
    reveal(m6_expr);
    if k > 0 && k <= args.len() {
        lemma_m6_args_mono(args, (k - 1) as nat, c, n);
        lemma_m6_expr_mono(args[k - 1], c, m6_args(args, (k - 1) as nat, c, n).1);
    }
}

/// Storing the line arguments never sets the label counter back.
pub proof fn lemma_m6_line_args_mono(args: Seq<ExprM>, k: nat, c: M6Ctx, n: nat)
    ensures
        m6_line_args(args, k, c, n).1 >= n,
    decreases args, 0nat, k,
{
    reveal(m6_expr);
    if k > 0 && k <= args.len() {
        lemma_m6_line_args_mono(args, (k - 1) as nat, c, n);
        lemma_m6_expr_mono(args[k - 1], c, m6_line_args(args, (k - 1) as nat, c, n).1);
    }
}

/// A builtin call never sets the label counter back.
pub proof fn lemma_m6_builtin_mono(
    up: Seq<char>,
    a: Seq<ExprM>,
    c: M6Ctx,
    line: Option<usize>,
    n: nat,
    fuel: nat,
)
    ensures
        m6_builtin(up, a, c, line, n, fuel) matches BuiltinOut::Text(_, m) ==> m >= n,
    decreases a, 1nat, fuel,
{
    reveal(m6_expr);
    reveal(m6_builtin);
    if a.len() > 0 {
        lemma_m6_expr_mono(a[0], c, n);
    }
    if a.len() > 1 {
        lemma_m6_expr_mono(a[1], c, n);
        lemma_m6_expr_mono(a[1], c, m6_expr(a[0], c, n).1);
    }
    if a.len() > 2 {
        lemma_m6_expr_mono(a[2], c, m6_expr(a[1], c, n).1);
        lemma_m6_expr_mono(a[2], c, m6_expr(a[1], c, m6_expr(a[0], c, n).1).1);
    }
    if a.len() > 3 {
        lemma_m6_expr_mono(a[3], c, m6_expr(a[2], c, m6_expr(a[1], c, n).1).1);
    }
    lemma_m6_args_mono(
        a,
        if a.len() < 5 {
            a.len()
        } else {
            5
        },
        c,
        n,
    );
    lemma_m6_line_args_mono(a, 5, c, n);
    if fuel > 0 {
        if let Some(t) = resolved_name(up) {
            lemma_m6_builtin_mono(t, a, c, line, n, (fuel - 1) as nat);
        }
    }
}

/// Whether a call is a builtin does not depend on the counter or the line.
pub proof fn lemma_m6_builtin_variant(
    up: Seq<char>,
    a: Seq<ExprM>,
    c: M6Ctx,
    l1: Option<usize>,
    l2: Option<usize>,
    n1: nat,
    n2: nat,
    fuel: nat,
)
    ensures
        (m6_builtin(up, a, c, l1, n1, fuel) is Text) == (m6_builtin(up, a, c, l2, n2, fuel) is Text),
        (m6_builtin(up, a, c, l1, n1, fuel) is NotBuiltin) == (m6_builtin(
            up,
            a,
            c,
            l2,
            n2,
            fuel,
        ) is NotBuiltin),
    decreases fuel,
{
    reveal(m6_builtin);
    if fuel > 0 {
        if let Some(t) = resolved_name(up) {
            lemma_m6_builtin_variant(t, a, c, l1, l2, n1, n2, (fuel - 1) as nat);
        }
    }
}

/// Accepted arguments: each of the first `k` is accepted, and so is every
/// shorter prefix.
pub proof fn lemma_m6_args_ok(args: Seq<ExprM>, k: nat, d: int, c: M6Ctx, j: nat)
    requires
        m6_args_ok(args, k, d, c),
        k <= args.len(),
        j <= k,
    ensures
        m6_args_ok(args, j, d, c),
        j < k ==> m6_ok(args[j as int], d, c),
    decreases k,
{
    if j < k {
        lemma_m6_args_ok(args, (k - 1) as nat, d, c, j);
        if j < k - 1 {
            lemma_m6_args_ok(args, (k - 1) as nat, d, c, (j + 1) as nat);
        }
    }
}


/// The first matching asset of a prefix is the first of the whole list.
pub proof fn lemma_asset_index_take(s: Seq<AssetInfo>, name: Seq<char>, kind: nat, i: int)
    requires
        0 <= i <= s.len(),
        asset_index(s.take(i), name, kind) is Some,
    ensures
        asset_index(s, name, kind) == asset_index(s.take(i), name, kind),
    decreases s.len() - i,
{
    if i == s.len() {
        assert(s.take(i) =~= s);
    } else {
        assert(s.take(i + 1).drop_last() =~= s.take(i));
        lemma_asset_index_take(s, name, kind, i + 1);
    }
}

/// The first matching shape of a prefix is the first of the whole list.
pub proof fn lemma_shape_for_take(
    s: Seq<(Seq<char>, Seq<i32>, Seq<(i32, i32)>)>,
    up: Seq<char>,
    vals: Seq<i32>,
    i: int,
)
    requires
        0 <= i <= s.len(),
        shape_for(s.take(i), up, vals) is Some,
    ensures
        shape_for(s, up, vals) == shape_for(s.take(i), up, vals),
    decreases s.len() - i,
{
    if i == s.len() {
        assert(s.take(i) =~= s);
    } else {
        assert(s.take(i + 1).drop_last() =~= s.take(i));
        lemma_shape_for_take(s, up, vals, i + 1);
    }
}

/// A prefix with a non-number keeps the whole list from being all numbers.
pub proof fn lemma_nums_take(s: Seq<ExprM>, i: int)
    requires
        0 <= i <= s.len(),
        nums(s.take(i)) is None,
    ensures
        nums(s) is None,
    decreases s.len() - i,
{
    if i == s.len() {
        assert(s.take(i) =~= s);
    } else {
        assert(s.take(i + 1).drop_last() =~= s.take(i));
        lemma_nums_take(s, i + 1);
    }
}


/// One step of the lowering of a comparison or a logical operator, and
/// what acceptance at depth `d` says of the operands.
pub proof fn lemma_m6_two_operands(e: ExprM, c: M6Ctx, n: nat, d: int)
    ensures
        e matches ExprM::Compare(op, l, r) ==> m6_expr(e, c, n) == (compare_text(
            op,
            m6_expr(*l, c, n).0,
            m6_expr(*r, c, m6_expr(*l, c, n).1).0,
            m6_expr(*r, c, m6_expr(*l, c, n).1).1,
        ), m6_expr(*r, c, m6_expr(*l, c, n).1).1 + 2),
        e matches ExprM::Logic(LogicOp::And, l, r) ==> m6_expr(e, c, n) == (and_text(
            m6_expr(*l, c, n).0,
            m6_expr(*r, c, m6_expr(*l, c, n).1 + 2).0,
            m6_expr(*l, c, n).1,
        ), m6_expr(*r, c, m6_expr(*l, c, n).1 + 2).1),
        e matches ExprM::Logic(LogicOp::Or, l, r) ==> m6_expr(e, c, n) == (or_text(
            m6_expr(*l, c, n + 2).0,
            m6_expr(*r, c, m6_expr(*l, c, n + 2).1).0,
            n,
        ), m6_expr(*r, c, m6_expr(*l, c, n + 2).1).1),
        m6_ok(e, d, c) ==> d <= 500,
        m6_ok(e, d, c) ==> (e matches ExprM::Compare(_, l, r) ==> m6_ok(*l, d + 1, c) && m6_ok(
            *r,
            d + 1,
            c,
        )),
        m6_ok(e, d, c) ==> (e matches ExprM::Logic(_, l, r) ==> m6_ok(*l, d + 1, c) && m6_ok(
            *r,
            d + 1,
            c,
        )),
{
    reveal(m6_expr);
    reveal(m6_builtin);
    reveal(m6_builtin_ok);
}


/// The limit on the arguments a call stores.
pub open spec fn arg_limit(args: Seq<ExprM>) -> nat {
    if args.len() < 5 {
        args.len()
    } else {
        5
    }
}

/// The routine a plain call jumps to.
pub open spec fn call_target(c: M6Ctx, name: Seq<char>) -> Seq<char> {
    if c.auto_loop && unicode_lower(name) == "loop"@ {
        "LOOP_BODY"@
    } else {
        unicode_upper(name)
    }
}

/// One step of the lowering of a call, and what acceptance says of it.
pub proof fn lemma_m6_call(e: ExprM, c: M6Ctx, n: nat, d: int)
    requires
        e is Call,
    ensures
        m6_ok(e, d, c) ==> d <= 500 && match m6_builtin(
            ascii_upper_seq(e->Call_0),
            e->Call_3,
            c,
            Some(e->Call_1),
            0,
            2,
        ) {
            BuiltinOut::Text(..) => m6_builtin_ok(ascii_upper_seq(e->Call_0), e->Call_3, c, 2),
            BuiltinOut::Diverges => false,
            BuiltinOut::NotBuiltin => m6_args_ok(e->Call_3, arg_limit(e->Call_3), d + 1, c),
        },
        m6_expr(e, c, n) == match m6_builtin(
            ascii_upper_seq(e->Call_0),
            e->Call_3,
            c,
            Some(e->Call_1),
            n,
            2,
        ) {
            BuiltinOut::Text(t, m) => (t, m),
            BuiltinOut::Diverges => (Seq::<char>::empty(), n),
            BuiltinOut::NotBuiltin => (m6_args(e->Call_3, arg_limit(e->Call_3), c, n).0 + jsr(
                c,
                call_target(c, e->Call_0),
            ), m6_args(e->Call_3, arg_limit(e->Call_3), c, n).1),
        },
{
    reveal(m6_expr);
    reveal(m6_builtin);
    reveal(m6_builtin_ok);
}


/// The builtin calls the lowering settles before it looks at constant
/// arguments: assets, fixed routines, vector lists and inline assembly.
pub open spec fn early_builtin(up: Seq<char>, a: Seq<ExprM>) -> bool {
    ||| first_builtin(up, a)
    ||| (up == "VECTREX_DRAW_VECTORLIST"@ && a.len() == 1 && label_arg(a[0]) is Some)
    ||| (up == "DRAW_VECTORLIST"@ && a.len() == 0)
    ||| (up == "DRAW_VECTORLIST"@ && label_arg(a[0]) is Some)
    ||| (up == "ASM"@ && a.len() == 1 && a[0] is StringLit)
    ||| (up == "DRAW_VECTOR_LIST"@ && a.len() == 4)
}

/// The first builtin calls the lowering settles: assets and fixed
/// routines.
pub open spec fn first_builtin(up: Seq<char>, a: Seq<ExprM>) -> bool {
    ||| (up == "DRAW_VECTOR"@ && a.len() == 3 && a[0] is StringLit)
    ||| (up == "PLAY_MUSIC"@ && a.len() == 1 && a[0] is StringLit)
    ||| (up == "PLAY_SFX"@ && a.len() == 1 && a[0] is StringLit)
    ||| (a.len() == 0 && fixed_builtin(up) is Some)
}

/// The builtin calls settled next: lines, constant polygons and shapes,
/// and names that are not listed.
pub open spec fn mid_builtin(up: Seq<char>, a: Seq<ExprM>) -> bool {
    ||| (up == "DRAW_LINE"@ && a.len() == 5)
    ||| (up == "DRAW_POLYGON"@ && poly_call(a) is Some)
    ||| (nums(a) is Some && shape_kind(up, nums(a)->0) is Some)
    ||| !is_listed(up)
}


/// What an accepted builtin call is, clause by clause.
pub proof fn lemma_m6_builtin_ok_facts(up: Seq<char>, a: Seq<ExprM>, c: M6Ctx, fuel: nat)
    requires
        m6_builtin_ok(up, a, c, fuel),
    ensures
        m6_args_ok(a, a.len(), 0, c),
        c.paths.len() == c.assets.len(),
        (up == "DRAW_VECTOR"@ && a.len() == 3 && a[0] is StringLit && asset_index(
            c.assets,
            a[0]->StringLit_0,
            0,
        ) is None ==> asset_box_fits(a[0]->StringLit_0, c.assets, false)),
        (up == "PLAY_SFX"@ && a.len() == 1 && a[0] is StringLit && asset_index(
            c.assets,
            a[0]->StringLit_0,
            2,
        ) is None ==> asset_box_fits(a[0]->StringLit_0, c.assets, true)),
        (up == "DRAW_LINE"@ && a.len() == 5 && nums(a) is Some ==> {
            let v = nums(a)->0;
            i32::MIN <= v[2] - v[0] <= i32::MAX && i32::MIN <= v[3] - v[1] <= i32::MAX
        }),
        (up == "DRAW_POLYGON"@ && a.len() > 0 && a[0] is Number ==> 0 <= a[0]->Number_0 && 2
            * a[0]->Number_0 + 2 <= usize::MAX),
        (up == "DRAW_POLYGON"@ && poly_call(a) is Some ==> poly_fits((poly_call(a)->0).0)),
        (nums(a) is Some && shape_kind(up, nums(a)->0) is Some ==> shape_ok(
            shape_for(c.shapes, up, nums(a)->0),
            shape_len(up, nums(a)->0),
        )),
        (!is_listed(up) && resolved_name(up) is Some ==> fuel > 0 && m6_builtin_ok(
            resolved_name(up)->0,
            a,
            c,
            (fuel - 1) as nat,
        )),
{
    reveal(m6_builtin_ok);
}


/// The lowering of `DRAW_VECTOR` with an asset name.
pub proof fn lemma_m6_draw_vector(
    up: Seq<char>,
    a: Seq<ExprM>,
    c: M6Ctx,
    line: Option<usize>,
    n: nat,
    fuel: nat,
)
    requires
        up == "DRAW_VECTOR"@ && a.len() == 3 && a[0] is StringLit,
    ensures
        m6_builtin(up, a, c, line, n, fuel) == match asset_index(c.assets, a[0]->StringLit_0, 0) {
            Some(k) => BuiltinOut::Text(
                draw_vector_text(
                    a[0]->StringLit_0,
                    c.paths[k] as nat,
                    m6_expr(a[1], c, n).0,
                    m6_expr(a[2], c, m6_expr(a[1], c, n).1).0,
                ),
                m6_expr(a[2], c, m6_expr(a[1], c, n).1).1,
            ),
            None => BuiltinOut::Text(asset_box(a[0]->StringLit_0, c.assets, false), n),
        },
{
    reveal(m6_expr);
    reveal(m6_builtin);
}


// ---------------------------------------------------------------------------
// Meaning of the comparison branches
// ---------------------------------------------------------------------------

/// Whether the 6809 conditional branch `mn` is taken after `SUBD` has
/// subtracted one signed 16-bit value from another with exact difference
/// `diff` (the signed branches test the sign of the true difference, N xor
/// V, and BEQ/BNE its zero flag).
pub open spec fn branch_taken(mn: Seq<char>, diff: int) -> bool {
    if mn == "BEQ"@ {
        diff == 0
    } else if mn == "BNE"@ {
        diff != 0
    } else if mn == "BLT"@ {
        diff < 0
    } else if mn == "BLE"@ {
        diff <= 0
    } else if mn == "BGT"@ {
        diff > 0
    } else if mn == "BGE"@ {
        diff >= 0
    } else {
        false
    }
}

/// The relation a comparison operator names, on integers.
pub open spec fn relation_holds(op: CmpOp, x: int, y: int) -> bool {
    match op {
        CmpOp::Eq => x == y,
        CmpOp::Ne => x != y,
        CmpOp::Lt => x < y,
        CmpOp::Le => x <= y,
        CmpOp::Gt => x > y,
        CmpOp::Ge => x >= y,
    }
}

/// The branch a comparison emits is taken, after `SUBD` of the right value
/// from the left one, exactly when the left value stands in the compared
/// relation to the right one; so the code of `Compare(op, l, r)` sets RESULT
/// to 1 exactly when `l op r`.
pub proof fn lemma_m6_branch_meaning(op: CmpOp, x: int, y: int)
    ensures
        branch_taken(m6_branch(op), x - y) == relation_holds(op, x, y),
{
    reveal_strlit("BEQ");
    reveal_strlit("BNE");
    reveal_strlit("BLT");
    reveal_strlit("BLE");
    reveal_strlit("BGT");
    reveal_strlit("BGE");
    assert("BNE"@[1] != "BEQ"@[1]);
    assert("BLT"@[1] != "BEQ"@[1] && "BLT"@[1] != "BNE"@[1]);
    assert("BLE"@[1] != "BEQ"@[1] && "BLE"@[1] != "BNE"@[1] && "BLE"@[2] != "BLT"@[2]);
    assert("BGT"@[1] != "BEQ"@[1] && "BGT"@[1] != "BNE"@[1] && "BGT"@[1] != "BLT"@[1] && "BGT"@[1]
        != "BLE"@[1]);
    assert("BGE"@[1] != "BEQ"@[1] && "BGE"@[1] != "BNE"@[1] && "BGE"@[1] != "BLT"@[1] && "BGE"@[1]
        != "BLE"@[1] && "BGE"@[2] != "BGT"@[2]);
}

/// The code of a comparison tests its operands with the branch of its own
/// relation: the left value is subtracted from by the right one, and the
/// branch to the label that loads 1 is the one for `op`.
pub proof fn lemma_m6_compare_code(op: CmpOp, l: ExprM, r: ExprM, c: M6Ctx, n: nat)
    ensures
        ({
            let e = ExprM::Compare(op, Box::new(l), Box::new(r));
            let m1 = m6_expr(l, c, n).1;
            let m2 = m6_expr(r, c, m1).1;
            m6_expr(e, c, n).0 == m6_expr(l, c, n).0 + "    LDD RESULT\n    STD TMPLEFT\n"@ + m6_expr(
                r,
                c,
                m1,
            ).0 + "    LDD RESULT\n    STD TMPRIGHT\n    LDD TMPLEFT\n    SUBD TMPRIGHT\n"@ + "    "@
                + m6_branch(op) + " "@ + label("CT"@, m2) + "\n    LDD #0\n    STD RESULT\n    BRA "@
                + label("CE"@, m2 + 1) + "\n"@ + label("CT"@, m2) + ":\n    LDD #1\n    STD RESULT\n"@
                + label("CE"@, m2 + 1) + ":\n"@
        }),
        forall|x: int, y: int| branch_taken(m6_branch(op), x - y) == relation_holds(op, x, y),
{
    lemma_m6_two_operands(ExprM::Compare(op, Box::new(l), Box::new(r)), c, n, 0);
    assert forall|x: int, y: int| branch_taken(m6_branch(op), x - y) == relation_holds(op, x, y) by {
        lemma_m6_branch_meaning(op, x, y);
    }
}


/// `LDD src` as text.
pub open spec fn m6_ldd(src: Seq<char>) -> Seq<char> {
    "    LDD "@ + src + "\n"@
}

/// `STD dst` as text.
pub open spec fn m6_std(dst: Seq<char>) -> Seq<char> {
    "    STD "@ + dst + "\n"@
}

/// The instruction `mn src` as text.
pub open spec fn m6_insn(mn: Seq<char>, src: Seq<char>) -> Seq<char> {
    "    "@ + mn + " "@ + src + "\n"@
}

/// The operator code loads D from TMPLEFT, where the left value is, and takes
/// the right value from TMPRIGHT: addition and subtraction are
/// `LDD TMPLEFT`, `ADDD`/`SUBD TMPRIGHT`, `STD RESULT`, so RESULT gets the
/// left value plus or minus the right one; the multiply and divide routines
/// get the left value as their first operand (`MUL_A`, `DIV_A`) and the right
/// one as their second (`MUL_B`, `DIV_B`); the shifts shift the left value.
pub proof fn lemma_m6_binop_operands()
    ensures
        m6_binop_text(BinOp::Add) == m6_ldd("TMPLEFT"@) + m6_insn("ADDD"@, "TMPRIGHT"@) + m6_std("RESULT"@),
        m6_binop_text(BinOp::Sub) == m6_ldd("TMPLEFT"@) + m6_insn("SUBD"@, "TMPRIGHT"@) + m6_std("RESULT"@),
        m6_binop_text(BinOp::Mul).take(61) == m6_ldd("TMPLEFT"@) + m6_std("MUL_A"@) + m6_ldd("TMPRIGHT"@)
            + m6_std("MUL_B"@),
        m6_binop_text(BinOp::Div).take(61) == m6_ldd("TMPLEFT"@) + m6_std("DIV_A"@) + m6_ldd("TMPRIGHT"@)
            + m6_std("DIV_B"@),
        m6_binop_text(BinOp::FloorDiv).take(61) == m6_ldd("TMPLEFT"@) + m6_std("DIV_A"@) + m6_ldd(
            "TMPRIGHT"@,
        ) + m6_std("DIV_B"@),
        m6_binop_text(BinOp::Mod).take(61) == m6_ldd("TMPLEFT"@) + m6_std("DIV_A"@) + m6_ldd("TMPRIGHT"@)
            + m6_std("DIV_B"@),
        m6_binop_text(BinOp::Shl).take(16) == m6_ldd("TMPLEFT"@),
        m6_binop_text(BinOp::Shr).take(16) == m6_ldd("TMPLEFT"@),
{
    reveal_strlit("    LDD TMPLEFT\n    ADDD TMPRIGHT\n    STD RESULT\n");
    reveal_strlit("    LDD TMPLEFT\n    SUBD TMPRIGHT\n    STD RESULT\n");
    reveal_strlit("    LDD TMPLEFT\n    STD MUL_A\n    LDD TMPRIGHT\n    STD MUL_B\n    JSR MUL16\n");
    reveal_strlit("    LDD TMPLEFT\n    STD DIV_A\n    LDD TMPRIGHT\n    STD DIV_B\n    JSR DIV16\n");
    reveal_strlit("    LDD TMPLEFT\n    STD DIV_A\n    LDD TMPRIGHT\n    STD DIV_B\n    JSR DIV16\n");
    reveal_strlit("    LDD TMPLEFT\n    STD DIV_A\n    LDD TMPRIGHT\n    STD DIV_B\n    JSR DIV16\n    ; quotient in RESULT, need remainder: A - Q*B\n    LDD DIV_A\n    STD TMPLEFT\n    LDD RESULT\n    STD MUL_A\n    LDD DIV_B\n    STD MUL_B\n    JSR MUL16\n    ; product in RESULT, subtract from original A (TMPLEFT)\n    LDD TMPLEFT\n    SUBD RESULT\n    STD RESULT\n");
    reveal_strlit("    LDD TMPLEFT\nSHL_LOOP: LDA TMPRIGHT+1\n    BEQ SHL_DONE\n    ASLB\n    ROLA\n    DEC TMPRIGHT+1\n    BRA SHL_LOOP\nSHL_DONE: STD RESULT\n");
    reveal_strlit("    LDD TMPLEFT\nSHR_LOOP: LDA TMPRIGHT+1\n    BEQ SHR_DONE\n    LSRA\n    RORB\n    DEC TMPRIGHT+1\n    BRA SHR_LOOP\nSHR_DONE: STD RESULT\n");
    reveal_strlit("    LDD ");
    reveal_strlit("    STD ");
    reveal_strlit("    ");
    reveal_strlit(" ");
    reveal_strlit("\n");
    reveal_strlit("TMPLEFT");
    reveal_strlit("TMPRIGHT");
    reveal_strlit("RESULT");
    reveal_strlit("ADDD");
    reveal_strlit("SUBD");
    reveal_strlit("MUL_A");
    reveal_strlit("MUL_B");
    reveal_strlit("DIV_A");
    reveal_strlit("DIV_B");
    assert(m6_ldd("TMPLEFT"@) =~= "    LDD TMPLEFT\n"@) by {
        reveal_strlit("    LDD TMPLEFT\n");
    }
    assert(m6_ldd("TMPRIGHT"@) =~= "    LDD TMPRIGHT\n"@) by {
        reveal_strlit("    LDD TMPRIGHT\n");
    }
    assert(m6_std("RESULT"@) =~= "    STD RESULT\n"@) by {
        reveal_strlit("    STD RESULT\n");
    }
    assert(m6_std("MUL_A"@) =~= "    STD MUL_A\n"@) by {
        reveal_strlit("    STD MUL_A\n");
    }
    assert(m6_std("MUL_B"@) =~= "    STD MUL_B\n"@) by {
        reveal_strlit("    STD MUL_B\n");
    }
    assert(m6_std("DIV_A"@) =~= "    STD DIV_A\n"@) by {
        reveal_strlit("    STD DIV_A\n");
    }
    assert(m6_std("DIV_B"@) =~= "    STD DIV_B\n"@) by {
        reveal_strlit("    STD DIV_B\n");
    }
    assert(m6_insn("ADDD"@, "TMPRIGHT"@) =~= "    ADDD TMPRIGHT\n"@) by {
        reveal_strlit("    ADDD TMPRIGHT\n");
    }
    assert(m6_insn("SUBD"@, "TMPRIGHT"@) =~= "    SUBD TMPRIGHT\n"@) by {
        reveal_strlit("    SUBD TMPRIGHT\n");
    }
    assert(m6_binop_text(BinOp::Add) =~= m6_ldd("TMPLEFT"@) + m6_insn("ADDD"@, "TMPRIGHT"@) + m6_std(
        "RESULT"@,
    ));
    assert(m6_binop_text(BinOp::Sub) =~= m6_ldd("TMPLEFT"@) + m6_insn("SUBD"@, "TMPRIGHT"@) + m6_std(
        "RESULT"@,
    ));
    assert(m6_binop_text(BinOp::Mul).take(61) =~= m6_ldd("TMPLEFT"@) + m6_std("MUL_A"@) + m6_ldd(
        "TMPRIGHT"@,
    ) + m6_std("MUL_B"@));
    assert(m6_binop_text(BinOp::Div).take(61) =~= m6_ldd("TMPLEFT"@) + m6_std("DIV_A"@) + m6_ldd(
        "TMPRIGHT"@,
    ) + m6_std("DIV_B"@));
    assert(m6_binop_text(BinOp::FloorDiv).take(61) =~= m6_ldd("TMPLEFT"@) + m6_std("DIV_A"@) + m6_ldd(
        "TMPRIGHT"@,
    ) + m6_std("DIV_B"@));
    assert(m6_binop_text(BinOp::Mod).take(61) =~= m6_ldd("TMPLEFT"@) + m6_std("DIV_A"@) + m6_ldd(
        "TMPRIGHT"@,
    ) + m6_std("DIV_B"@));
    assert(m6_binop_text(BinOp::Shl).take(16) =~= m6_ldd("TMPLEFT"@));
    assert(m6_binop_text(BinOp::Shr).take(16) =~= m6_ldd("TMPLEFT"@));
}

/// Outside the special forms (`x + x`, `x - x`, and multiplying or dividing
/// by a power of two), the code of `l op r` evaluates `l` and keeps it in
/// TMPLEFT, then evaluates `r` and keeps it in TMPRIGHT, then runs the
/// operator code on them.
pub proof fn lemma_m6_binary_code(op: BinOp, l: ExprM, r: ExprM, c: M6Ctx, n: nat)
    requires
        !(op == BinOp::Add && ref_of(l) == ref_of(r)),
        !(op == BinOp::Sub && ref_of(l) == ref_of(r)),
        !(op == BinOp::Mul && (pow2_of(r) is Some || pow2_of(l) is Some)),
        !(op == BinOp::Div && pow2_of(r) is Some),
    ensures
        ({
            let e = ExprM::Binary(op, Box::new(l), Box::new(r));
            let m1 = m6_expr(l, c, n).1;
            &&& m6_expr(e, c, n).0 == m6_expr(l, c, n).0 + m6_ldd("RESULT"@) + m6_std("TMPLEFT"@)
                + m6_expr(r, c, m1).0 + m6_ldd("RESULT"@) + m6_std("TMPRIGHT"@) + m6_binop_text(op)
            &&& m6_expr(e, c, n).1 == m6_expr(r, c, m1).1
        }),
{
    reveal(m6_expr);
    reveal(m6_builtin);
    reveal_strlit("    LDD RESULT\n    STD TMPLEFT\n");
    reveal_strlit("    LDD RESULT\n    STD TMPRIGHT\n");
    reveal_strlit("    LDD ");
    reveal_strlit("    STD ");
    reveal_strlit("\n");
    reveal_strlit("RESULT");
    reveal_strlit("TMPLEFT");
    reveal_strlit("TMPRIGHT");
    let e = ExprM::Binary(op, Box::new(l), Box::new(r));
    let m1 = m6_expr(l, c, n).1;
    let tl = m6_expr(l, c, n).0;
    let tr = m6_expr(r, c, m1).0;
    assert(m6_ldd("RESULT"@) + m6_std("TMPLEFT"@) =~= "    LDD RESULT\n    STD TMPLEFT\n"@);
    assert(m6_ldd("RESULT"@) + m6_std("TMPRIGHT"@) =~= "    LDD RESULT\n    STD TMPRIGHT\n"@);
    assert(m6_expr(e, c, n).0 == tl + "    LDD RESULT\n    STD TMPLEFT\n"@ + tr
        + "    LDD RESULT\n    STD TMPRIGHT\n"@ + m6_binop_text(op));
    assert(m6_expr(e, c, n).0 =~= tl + m6_ldd("RESULT"@) + m6_std("TMPLEFT"@) + tr + m6_ldd(
        "RESULT"@,
    ) + m6_std("TMPRIGHT"@) + m6_binop_text(op));
}

} // verus!
