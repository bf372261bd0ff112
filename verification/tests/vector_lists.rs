use vpy_core::ast::VlEntry;
use vpy_core::backend::m6809::vector_lists::emit_vector_list;

fn emit(name: &str, entries: Vec<VlEntry>, shapes: Vec<Vec<(i32, i32)>>) -> String {
    let mut out = String::new();
    emit_vector_list(&name.to_string(), &entries, &shapes, &mut out);
    out
}

#[test]
fn test_vector_list_rect_and_intensity() {
    let entries = vec![VlEntry::Intensity(3), VlEntry::Move(10, 20), VlEntry::Rect(0, 0, 10, 10), VlEntry::Origin];
    let out = emit("box", entries, vec![vec![]; 4]);
    let expected = [
        "VL_BOX:",
        "    FCB 10",
        "    FCB $00,$00,CMD_START ; START to (+0, +0)",
        "    FCB $00,$00,CMD_INT ; INTENSITY (next byte) at current (+0, +0)",
        "    FCB $5F ; intensity value",
        "    FCB $14,$0A,CMD_START ; START to (+10, +20)",
        "    FCB $00,$00,CMD_START ; START to (+0, +0)",
        "    FCB $00,$0A,CMD_LINE ; LINE dy=+0 dx=+10 -> (+10, +0)",
        "    FCB $0A,$00,CMD_LINE ; LINE dy=+10 dx=+0 -> (+10, +10)",
        "    FCB $00,$F6,CMD_LINE ; LINE dy=+0 dx=-10 -> (+0, +10)",
        "    FCB $F6,$00,CMD_LINE ; LINE dy=-10 dx=+0 -> (+0, +0)",
        "    FCB $00,$00,CMD_ZERO ; ZERO (Reset0Ref) => origin (0,0)",
        "    FCB $00,$00,CMD_END ; END",
    ];
    let mut text = String::new();
    for l in expected {
        text.push_str(l);
        text.push('\n');
    }
    assert_eq!(out, text);
}

#[test]
fn test_vector_list_moves_first_intensity() {
    let out = emit("a", vec![VlEntry::Move(5, 5), VlEntry::Intensity(9)], vec![vec![], vec![]]);
    assert_eq!(
        out,
        "VL_A:\n    FCB 4\n    FCB $00,$00,CMD_START ; START to (+0, +0)\n    FCB $00,$00,CMD_INT ; INTENSITY (next byte) at current (+0, +0)\n    FCB $09 ; intensity value\n    FCB $05,$05,CMD_START ; START to (+5, +5)\n    FCB $00,$00,CMD_END ; END\n"
    );
}

#[test]
fn test_vector_list_cleanup() {
    let entries = vec![
        VlEntry::Origin,
        VlEntry::Origin,
        VlEntry::Move(0, 0),
        VlEntry::Move(0, 0),
        VlEntry::Polygon(vec![(1, 1)]),
    ];
    let out = emit("z", entries, vec![vec![]; 5]);
    assert_eq!(
        out,
        "VL_Z:\n    FCB 2\n    FCB $00,$00,CMD_START ; START to (+0, +0)\n    FCB $00,$00,CMD_END ; END\n"
    );
}

#[test]
fn test_vector_list_shapes() {
    let entries = vec![VlEntry::Circle { cx: 0, cy: 0, r: 10, segs: 3 }];
    let out = emit("c", entries, vec![vec![(10, 0), (0, 10), (-10, 0)]]);
    assert_eq!(
        out,
        "VL_C:\n    FCB 6\n    FCB $00,$00,CMD_START ; START to (+0, +0)\n    FCB $00,$0A,CMD_START ; START to (+10, +0)\n    FCB $0A,$F6,CMD_LINE ; LINE dy=+10 dx=-10 -> (+0, +10)\n    FCB $F6,$F6,CMD_LINE ; LINE dy=-10 dx=-10 -> (-10, +0)\n    FCB $00,$14,CMD_LINE ; LINE dy=+0 dx=+20 -> (+10, +0)\n    FCB $00,$00,CMD_END ; END\n"
    );
    let entries = vec![VlEntry::Arc { cx: 0, cy: 0, r: 5, start_deg: 0, sweep_deg: 90, segs: 2 }];
    let out = emit("arc", entries, vec![vec![(0, 0), (5, 5)]]);
    assert_eq!(
        out,
        "VL_ARC:\n    FCB 3\n    FCB $00,$00,CMD_START ; START to (+0, +0)\n    FCB $05,$05,CMD_LINE ; LINE dy=+5 dx=+5 -> (+5, +5)\n    FCB $00,$00,CMD_END ; END\n"
    );
}
