//! The data form of a vector list for the compact list runtime: the entries
//! become START, LINE, INT, ZERO and END commands, cleaned up, counted and
//! written as `FCB` lines with a comment that tracks the beam position.
//! The vertices of circles, arcs and spirals come in computed by the caller.

use vstd::prelude::*;
use crate::ast::{VlEntry, VlEntryM};
use crate::text::{
    ascii_upper_seq, ascii_upper_vec, chars_of, dec, dec_int, hex, push_chars, push_dec,
    push_dec_i64, push_hex, push_str,
};

verus! {

/// One command of a vector list: coordinates, command code (0 START,
/// 1 LINE, 2 END, 3 INT, 4 ZERO) and the intensity byte that follows an INT.
#[derive(Clone, Copy)]
pub struct VlCmd {
    pub y: i64,
    pub x: i64,
    pub cmd: u8,
    pub extra: Option<u8>,
}

// ---------------------------------------------------------------------------
// Model: from entries to commands
// ---------------------------------------------------------------------------

pub open spec fn cmd_of(y: int, x: int, cmd: u8, extra: Option<u8>) -> VlCmd {
    VlCmd { y: y as i64, x: x as i64, cmd, extra }
}

/// The intensity byte of an `Intensity` entry: levels 0 to 7 map to the
/// BIOS brightness steps, any other value keeps its low byte.
pub open spec fn intensity_byte(v: i32) -> u8 {
    if 0 <= v <= 1 {
        0x1F
    } else if v == 2 {
        0x3F
    } else if v == 3 {
        0x5F
    } else if 4 <= v <= 7 {
        0x7F
    } else {
        (v & 0xFF) as u8
    }
}

/// The LINE commands between the vertices `0..k` of a path, each vertex to
/// the next, the last back to the first when `closed`.
pub open spec fn path_lines(verts: Seq<(i32, i32)>, k: nat, closed: bool) -> Seq<VlCmd>
    decreases k,
{
    if k == 0 {
        Seq::empty()
    } else {
        let w = k - 1;
        let (sx, sy) = verts[w];
        let (ex, ey) = if closed {
            verts[(w + 1) % (verts.len() as int)]
        } else {
            verts[w + 1]
        };
        path_lines(verts, w as nat, closed).push(cmd_of(ey - sy, ex - sx, 1, None))
    }
}

/// A closed path: START at the first vertex, then a LINE to each next
/// vertex and back to the first.
pub open spec fn closed_path(verts: Seq<(i32, i32)>) -> Seq<VlCmd> {
    if verts.len() == 0 {
        Seq::empty()
    } else {
        seq![cmd_of(verts[0].1 as int, verts[0].0 as int, 0, None)] + path_lines(
            verts,
            verts.len(),
            true,
        )
    }
}

/// An open path: START at the first vertex, then a LINE to each next vertex.
pub open spec fn open_path(verts: Seq<(i32, i32)>) -> Seq<VlCmd> {
    if verts.len() == 0 {
        Seq::empty()
    } else {
        seq![cmd_of(verts[0].1 as int, verts[0].0 as int, 0, None)] + path_lines(
            verts,
            (verts.len() - 1) as nat,
            false,
        )
    }
}

/// The commands of one entry; `shape` holds the vertices of a circle, arc
/// or spiral entry.
pub open spec fn entry_cmds(e: VlEntryM, shape: Seq<(i32, i32)>) -> Seq<VlCmd> {
    match e {
        VlEntryM::Intensity(v) => seq![cmd_of(0, 0, 3, Some(intensity_byte(v)))],
        VlEntryM::Origin => seq![cmd_of(0, 0, 4, None)],
        VlEntryM::Move(x, y) => seq![cmd_of(y as int, x as int, 0, None)],
        VlEntryM::Rect(x1, y1, x2, y2) => seq![
            cmd_of(y1 as int, x1 as int, 0, None),
            cmd_of(0, x2 - x1, 1, None),
            cmd_of(y2 - y1, 0, 1, None),
            cmd_of(0, x1 - x2, 1, None),
            cmd_of(y1 - y2, 0, 1, None),
        ],
        VlEntryM::Polygon(verts) => if verts.len() > 1 {
            closed_path(verts)
        } else {
            Seq::empty()
        },
        VlEntryM::Circle(..) => closed_path(shape),
        VlEntryM::Arc(..) => open_path(shape),
        VlEntryM::Spiral(..) => open_path(shape),
    }
}

/// The commands of all entries, in order.
pub open spec fn vl_cmds(entries: Seq<VlEntryM>, shapes: Seq<Seq<(i32, i32)>>) -> Seq<VlCmd>
    decreases entries.len(),
{
    if entries.len() == 0 {
        Seq::empty()
    } else {
        vl_cmds(entries.drop_last(), shapes) + entry_cmds(
            entries.last(),
            shapes[entries.len() - 1],
        )
    }
}

// ---------------------------------------------------------------------------
// Model: cleanup
// ---------------------------------------------------------------------------

/// Whether `c` repeats `last`: a START at the same place, or a second ZERO.
pub open spec fn repeats(last: VlCmd, c: VlCmd) -> bool {
    (c.cmd == 0 && last.cmd == 0 && c.x == last.x && c.y == last.y) || (c.cmd == 4 && last.cmd
        == 4)
}

/// The commands without those that repeat the command kept before them.
pub open spec fn dedup(s: Seq<VlCmd>) -> Seq<VlCmd>
    decreases s.len(),
{
    if s.len() == 0 {
        s
    } else {
        let r = dedup(s.drop_last());
        if r.len() > 0 && repeats(r.last(), s.last()) {
            r
        } else {
            r.push(s.last())
        }
    }
}

/// The position of the first command with code `c`.
pub open spec fn first_cmd(s: Seq<VlCmd>, c: u8) -> Option<int>
    decreases s.len(),
{
    if s.len() == 0 {
        None
    } else {
        match first_cmd(s.drop_last(), c) {
            Some(i) => Some(i),
            None => if s.last().cmd == c {
                Some(s.len() - 1)
            } else {
                None
            },
        }
    }
}

/// The cleaned command list: repeats removed, a leading ZERO before a START
/// dropped, a START at the centre put first unless one is there, an END
/// appended, and the first INT moved right after the first START.
pub open spec fn cleaned(cmds: Seq<VlCmd>) -> Seq<VlCmd> {
    let a = dedup(cmds);
    let b = if a.len() >= 2 && a[0].cmd == 4 && a[1].cmd == 0 {
        a.drop_first()
    } else {
        a
    };
    let c = if b.len() > 0 && b[0].cmd == 0 && b[0].x == 0 && b[0].y == 0 {
        b
    } else {
        seq![cmd_of(0, 0, 0, None)] + b
    };
    let d = c.push(cmd_of(0, 0, 2, None));
    let fsp = match first_cmd(d, 0) {
        Some(i) => i,
        None => 0,
    };
    match first_cmd(d, 3) {
        Some(ip) => if ip > fsp + 1 {
            d.remove(ip).insert(fsp + 1, d[ip])
        } else {
            d
        },
        None => d,
    }
}

// ---------------------------------------------------------------------------
// Model: text
// ---------------------------------------------------------------------------

/// The low byte of a value.
pub open spec fn lo8(v: int) -> nat {
    (v % 256) as nat
}

/// The low byte read as a signed byte.
pub open spec fn sbyte(v: int) -> int {
    if lo8(v) >= 128 {
        lo8(v) - 256
    } else {
        lo8(v) as int
    }
}

/// A number with its sign always shown (`{:+}`).
pub open spec fn signed(v: int) -> Seq<char> {
    if v < 0 {
        dec_int(v)
    } else {
        "+"@ + dec(v as nat)
    }
}

/// The name of a command code.
pub open spec fn cmd_name(c: u8) -> Seq<char> {
    if c == 0 {
        "CMD_START"@
    } else if c == 1 {
        "CMD_LINE"@
    } else if c == 2 {
        "CMD_END"@
    } else if c == 3 {
        "CMD_INT"@
    } else if c == 4 {
        "CMD_ZERO"@
    } else {
        "?"@
    }
}

/// The beam position after a command that starts at `(ax, ay)`.
pub open spec fn pos_after(c: VlCmd, ax: int, ay: int) -> (int, int) {
    if c.cmd == 0 {
        (sbyte(c.x as int), sbyte(c.y as int))
    } else if c.cmd == 1 {
        (ax + sbyte(c.x as int), ay + sbyte(c.y as int))
    } else if c.cmd == 4 {
        (0, 0)
    } else {
        (ax, ay)
    }
}

/// The comment of a command that starts at `(ax, ay)`.
pub open spec fn cmd_comment(c: VlCmd, ax: int, ay: int) -> Seq<char> {
    let (nx, ny) = pos_after(c, ax, ay);
    if c.cmd == 0 {
        "; START to ("@ + signed(nx) + ", "@ + signed(ny) + ")"@
    } else if c.cmd == 1 {
        "; LINE dy="@ + signed(sbyte(c.y as int)) + " dx="@ + signed(sbyte(c.x as int)) + " -> ("@
            + signed(nx) + ", "@ + signed(ny) + ")"@
    } else if c.cmd == 3 {
        "; INTENSITY (next byte) at current ("@ + signed(ax) + ", "@ + signed(ay) + ")"@
    } else if c.cmd == 4 {
        "; ZERO (Reset0Ref) => origin (0,0)"@
    } else if c.cmd == 2 {
        "; END"@
    } else {
        "; ?"@
    }
}

/// The `FCB` line (and intensity line) of a command starting at `(ax, ay)`.
pub open spec fn cmd_text(c: VlCmd, ax: int, ay: int) -> Seq<char> {
    "    FCB $"@ + hex(lo8(c.y as int), 2) + ",$"@ + hex(lo8(c.x as int), 2) + ","@ + cmd_name(c.cmd)
        + " "@ + cmd_comment(c, ax, ay) + "\n"@ + match c.extra {
        Some(e) => "    FCB $"@ + hex(e as nat, 2) + " ; intensity value\n"@,
        None => Seq::empty(),
    }
}

/// The beam position after the commands.
pub open spec fn pos_end(s: Seq<VlCmd>) -> (int, int)
    decreases s.len(),
{
    if s.len() == 0 {
        (0, 0)
    } else {
        let (ax, ay) = pos_end(s.drop_last());
        pos_after(s.last(), ax, ay)
    }
}

/// The `FCB` lines of the commands.
pub open spec fn cmds_text(s: Seq<VlCmd>) -> Seq<char>
    decreases s.len(),
{
    if s.len() == 0 {
        Seq::empty()
    } else {
        let (ax, ay) = pos_end(s.drop_last());
        cmds_text(s.drop_last()) + cmd_text(s.last(), ax, ay)
    }
}

/// The data of a vector list: its label `VL_<NAME>`, the command count on
/// one byte, and the commands.
pub open spec fn vector_list_text(
    name: Seq<char>,
    entries: Seq<VlEntryM>,
    shapes: Seq<Seq<(i32, i32)>>,
) -> Seq<char> {
    let c = cleaned(vl_cmds(entries, shapes));
    "VL_"@ + ascii_upper_seq(name) + ":\n    FCB "@ + dec(c.len() % 256) + "\n"@ + cmds_text(c)
}

// ---------------------------------------------------------------------------
// Commands
// ---------------------------------------------------------------------------

fn intensity_byte_exec(v: i32) -> (b: u8)
    ensures
        b == intensity_byte(v),
{
    if 0 <= v && v <= 1 {
        0x1F
    } else if v == 2 {
        0x3F
    } else if v == 3 {
        0x5F
    } else if 4 <= v && v <= 7 {
        0x7F
    } else {
        (v & 0xFF) as u8
    }
}

fn line_cmd(s: (i32, i32), e: (i32, i32)) -> (c: VlCmd)
    ensures
        c == cmd_of(e.1 - s.1, e.0 - s.0, 1, None),
{
    VlCmd { y: e.1 as i64 - s.1 as i64, x: e.0 as i64 - s.0 as i64, cmd: 1, extra: None }
}

/// Appends a path: START at the first vertex, then the LINE commands.
fn push_path(cmds: &mut Vec<VlCmd>, verts: &Vec<(i32, i32)>, closed: bool)
    ensures
        final(cmds)@ == old(cmds)@ + if closed {
            closed_path(verts@)
        } else {
            open_path(verts@)
        },
{
    if verts.len() == 0 {
        assert(old(cmds)@ =~= old(cmds)@ + Seq::<VlCmd>::empty());
        return;
    }
    let ghost base = cmds@;
    let (fx, fy) = verts[0];
    cmds.push(VlCmd { y: fy as i64, x: fx as i64, cmd: 0, extra: None });
    let n: usize = if closed {
        verts.len()
    } else {
        verts.len() - 1
    };
    let mut w: usize = 0;
    while w < n
        invariant
            w <= n,
            verts.len() > 0,
            n == if closed {
                verts.len()
            } else {
                (verts.len() - 1) as usize
            },
            cmds@ == base + seq![cmd_of(verts@[0].1 as int, verts@[0].0 as int, 0, None)]
                + path_lines(verts@, w as nat, closed),
        decreases n - w,
    {
        let e = if closed {
            verts[(w + 1) % verts.len()]
        } else {
            verts[w + 1]
        };
        cmds.push(line_cmd(verts[w], e));
        w += 1;
        assert(cmds@ =~= base + seq![cmd_of(verts@[0].1 as int, verts@[0].0 as int, 0, None)]
            + path_lines(verts@, w as nat, closed));
    }
    assert(cmds@ =~= base + if closed {
        closed_path(verts@)
    } else {
        open_path(verts@)
    });
}

/// Appends the commands of one entry.
fn push_entry_cmds(cmds: &mut Vec<VlCmd>, e: &VlEntry, shape: &Vec<(i32, i32)>)
    ensures
        final(cmds)@ == old(cmds)@ + entry_cmds(e.view(), shape@),
{
    let ghost base = cmds@;
    match e {
        VlEntry::Intensity(v) => {
            cmds.push(VlCmd { y: 0, x: 0, cmd: 3, extra: Some(intensity_byte_exec(*v)) });
        },
        VlEntry::Origin => {
            cmds.push(VlCmd { y: 0, x: 0, cmd: 4, extra: None });
        },
        VlEntry::Move(x, y) => {
            cmds.push(VlCmd { y: *y as i64, x: *x as i64, cmd: 0, extra: None });
        },
        VlEntry::Rect(x1, y1, x2, y2) => {
            cmds.push(VlCmd { y: *y1 as i64, x: *x1 as i64, cmd: 0, extra: None });
            cmds.push(line_cmd((*x1, *y1), (*x2, *y1)));
            cmds.push(line_cmd((*x2, *y1), (*x2, *y2)));
            cmds.push(line_cmd((*x2, *y2), (*x1, *y2)));
            cmds.push(line_cmd((*x1, *y2), (*x1, *y1)));
        },
        VlEntry::Polygon(verts) => {
            if verts.len() > 1 {
                push_path(cmds, verts, true);
            }
        },
        VlEntry::Circle { .. } => {
            push_path(cmds, shape, true);
        },
        VlEntry::Arc { .. } => {
            push_path(cmds, shape, false);
        },
        VlEntry::Spiral { .. } => {
            push_path(cmds, shape, false);
        },
    }
    assert(cmds@ =~= base + entry_cmds(e.view(), shape@));
}

/// The commands of all entries; `shapes[i]` holds the vertices of entry `i`
/// when it is a circle, an arc or a spiral.
fn vl_cmds_exec(entries: &Vec<VlEntry>, shapes: &Vec<Vec<(i32, i32)>>) -> (r: Vec<VlCmd>)
    requires
        shapes.len() == entries.len(),
    ensures
        r@ == vl_cmds(view_entries(entries@), shape_views(shapes@)),
{
    let ghost ev = view_entries(entries@);
    let ghost sv = shape_views(shapes@);
    let mut r: Vec<VlCmd> = Vec::new();
    let mut i: usize = 0;
    assert(ev.take(0) =~= Seq::<VlEntryM>::empty());
    while i < entries.len()
        invariant
            i <= entries.len(),
            shapes.len() == entries.len(),
            ev == view_entries(entries@),
            sv == shape_views(shapes@),
            r@ == vl_cmds(ev.take(i as int), sv),
        decreases entries.len() - i,
    {
        assert(ev.take(i + 1).drop_last() =~= ev.take(i as int));
        push_entry_cmds(&mut r, &entries[i], &shapes[i]);
        i += 1;
    }
    assert(ev.take(i as int) =~= ev);
    r
}

/// The views of the entries.
pub open spec fn view_entries(s: Seq<VlEntry>) -> Seq<VlEntryM> {
    Seq::new(s.len(), |i: int| s[i].view())
}

/// The views of the vertex lists.
pub open spec fn shape_views(s: Seq<Vec<(i32, i32)>>) -> Seq<Seq<(i32, i32)>> {
    Seq::new(s.len(), |i: int| s[i]@)
}

// ---------------------------------------------------------------------------
// Cleanup
// ---------------------------------------------------------------------------

fn repeats_exec(last: &VlCmd, c: &VlCmd) -> (r: bool)
    ensures
        r == repeats(*last, *c),
{
    (c.cmd == 0 && last.cmd == 0 && c.x == last.x && c.y == last.y) || (c.cmd == 4 && last.cmd
        == 4)
}

fn dedup_exec(cmds: &Vec<VlCmd>) -> (r: Vec<VlCmd>)
    ensures
        r@ == dedup(cmds@),
{
    let mut r: Vec<VlCmd> = Vec::new();
    let mut i: usize = 0;
    assert(cmds@.take(0) =~= Seq::<VlCmd>::empty());
    while i < cmds.len()
        invariant
            i <= cmds.len(),
            r@ == dedup(cmds@.take(i as int)),
        decreases cmds.len() - i,
    {
        assert(cmds@.take(i + 1).drop_last() =~= cmds@.take(i as int));
        let c = cmds[i];
        let skip = r.len() > 0 && repeats_exec(&r[r.len() - 1], &c);
        if !skip {
            r.push(c);
        }
        i += 1;
    }
    assert(cmds@.take(i as int) =~= cmds@);
    r
}

proof fn lemma_first_cmd_prefix(s: Seq<VlCmd>, j: int, c: u8)
    requires
        0 <= j <= s.len(),
        first_cmd(s.take(j), c) is Some,
    ensures
        first_cmd(s, c) == first_cmd(s.take(j), c),
    decreases s.len(),
{
    if j < s.len() {
        assert(s.drop_last().take(j) =~= s.take(j));
        lemma_first_cmd_prefix(s.drop_last(), j, c);
    } else {
        assert(s.take(j) =~= s);
    }
}

fn first_cmd_exec(v: &Vec<VlCmd>, c: u8) -> (r: Option<usize>)
    ensures
        match r {
            Some(i) => first_cmd(v@, c) == Some(i as int) && i < v.len(),
            None => first_cmd(v@, c) is None,
        },
{
    let mut i: usize = 0;
    assert(v@.take(0) =~= Seq::<VlCmd>::empty());
    while i < v.len()
        invariant
            i <= v.len(),
            first_cmd(v@.take(i as int), c) is None,
        decreases v.len() - i,
    {
        assert(v@.take(i + 1).drop_last() =~= v@.take(i as int));
        if v[i].cmd == c {
            proof {
                lemma_first_cmd_prefix(v@, i + 1, c);
            }
            return Some(i);
        }
        i += 1;
    }
    assert(v@.take(i as int) =~= v@);
    None
}

proof fn lemma_dedup_len(s: Seq<VlCmd>)
    ensures
        dedup(s).len() <= s.len(),
    decreases s.len(),
{
    if s.len() > 0 {
        lemma_dedup_len(s.drop_last());
    }
}

fn cleaned_exec(cmds: &Vec<VlCmd>) -> (r: Vec<VlCmd>)
    requires
        cmds.len() < usize::MAX - 2,
    ensures
        r@ == cleaned(cmds@),
{
    let mut d = dedup_exec(cmds);
    proof {
        lemma_dedup_len(cmds@);
    }
    if d.len() >= 2 && d[0].cmd == 4 && d[1].cmd == 0 {
        d.remove(0);
    }
    let starts_centre = d.len() > 0 && d[0].cmd == 0 && d[0].x == 0 && d[0].y == 0;
    if !starts_centre {
        d.insert(0, VlCmd { y: 0, x: 0, cmd: 0, extra: None });
    }
    d.push(VlCmd { y: 0, x: 0, cmd: 2, extra: None });
    let ghost dd = d@;
    let fsp: usize = match first_cmd_exec(&d, 0) {
        Some(i) => i,
        None => 0,
    };
    match first_cmd_exec(&d, 3) {
        Some(ip) => {
            if ip > fsp + 1 {
                let int_cmd = d.remove(ip);
                d.insert(fsp + 1, int_cmd);
            }
        },
        None => {},
    }
    proof {
        let a = dedup(cmds@);
        let b = if a.len() >= 2 && a[0].cmd == 4 && a[1].cmd == 0 {
            a.drop_first()
        } else {
            a
        };
        let c = if b.len() > 0 && b[0].cmd == 0 && b[0].x == 0 && b[0].y == 0 {
            b
        } else {
            seq![cmd_of(0, 0, 0, None)] + b
        };
        assert(dd =~= c.push(cmd_of(0, 0, 2, None)));
    }
    d
}

// ---------------------------------------------------------------------------
// Text
// ---------------------------------------------------------------------------

/// The low byte of a value.
pub(crate) fn lo8_exec(v: i64) -> (b: u8)
    ensures
        b as nat == lo8(v as int),
{
    let u = v as u64;
    proof {
        assert(v < 0 ==> u as int == v as int + 0x1_0000_0000_0000_0000) by (bit_vector)
            requires
                u == v as u64,
        ;
        assert(v >= 0 ==> u as int == v as int) by (bit_vector)
            requires
                u == v as u64,
        ;
    }
    (u % 256) as u8
}

fn sbyte_exec(v: i64) -> (r: i64)
    ensures
        r == sbyte(v as int),
{
    let b = lo8_exec(v);
    if b >= 128 {
        b as i64 - 256
    } else {
        b as i64
    }
}

/// Appends a number with its sign always shown.
fn push_signed(out: &mut String, v: i64)
    ensures
        final(out)@ == old(out)@ + signed(v as int),
{
    if v < 0 {
        push_dec_i64(out, v);
    } else {
        let ghost o = out@;
        push_str(out, "+");
        push_dec(out, v as u64);
        assert(out@ =~= o + signed(v as int));
    }
}

fn cmd_name_exec(c: u8) -> (r: &'static str)
    ensures
        r@ == cmd_name(c),
{
    if c == 0 {
        "CMD_START"
    } else if c == 1 {
        "CMD_LINE"
    } else if c == 2 {
        "CMD_END"
    } else if c == 3 {
        "CMD_INT"
    } else if c == 4 {
        "CMD_ZERO"
    } else {
        "?"
    }
}

/// Appends the comment of a command starting at `(ax, ay)`.
fn push_comment(out: &mut String, c: &VlCmd, ax: i64, ay: i64, nx: i64, ny: i64)
    requires
        (nx as int, ny as int) == pos_after(*c, ax as int, ay as int),
    ensures
        final(out)@ == old(out)@ + cmd_comment(*c, ax as int, ay as int),
{
    let ghost o = out@;
    if c.cmd == 0 {
        push_str(out, "; START to (");
        push_signed(out, nx);
        push_str(out, ", ");
        push_signed(out, ny);
        push_str(out, ")");
    } else if c.cmd == 1 {
        push_str(out, "; LINE dy=");
        push_signed(out, sbyte_exec(c.y));
        push_str(out, " dx=");
        push_signed(out, sbyte_exec(c.x));
        push_str(out, " -> (");
        push_signed(out, nx);
        push_str(out, ", ");
        push_signed(out, ny);
        push_str(out, ")");
    } else if c.cmd == 3 {
        push_str(out, "; INTENSITY (next byte) at current (");
        push_signed(out, ax);
        push_str(out, ", ");
        push_signed(out, ay);
        push_str(out, ")");
    } else if c.cmd == 4 {
        push_str(out, "; ZERO (Reset0Ref) => origin (0,0)");
    } else if c.cmd == 2 {
        push_str(out, "; END");
    } else {
        push_str(out, "; ?");
    }
    assert(out@ =~= o + cmd_comment(*c, ax as int, ay as int));
}

/// Appends the lines of a command starting at `(ax, ay)`; returns the
/// position after it.
fn push_cmd_text(out: &mut String, c: &VlCmd, ax: i64, ay: i64) -> (p: (i64, i64))
    requires
        -0x4000_0000_0000_0000 < ax < 0x4000_0000_0000_0000,
        -0x4000_0000_0000_0000 < ay < 0x4000_0000_0000_0000,
    ensures
        final(out)@ == old(out)@ + cmd_text(*c, ax as int, ay as int),
        (p.0 as int, p.1 as int) == pos_after(*c, ax as int, ay as int),
{
    let (nx, ny): (i64, i64) = if c.cmd == 0 {
        (sbyte_exec(c.x), sbyte_exec(c.y))
    } else if c.cmd == 1 {
        (ax + sbyte_exec(c.x), ay + sbyte_exec(c.y))
    } else if c.cmd == 4 {
        (0, 0)
    } else {
        (ax, ay)
    };
    let ghost o = out@;
    push_str(out, "    FCB $");
    push_hex(out, lo8_exec(c.y) as u64, 2);
    push_str(out, ",$");
    push_hex(out, lo8_exec(c.x) as u64, 2);
    push_str(out, ",");
    push_str(out, cmd_name_exec(c.cmd));
    push_str(out, " ");
    push_comment(out, c, ax, ay, nx, ny);
    push_str(out, "\n");
    let ghost mid = out@;
    match c.extra {
        Some(e) => {
            push_str(out, "    FCB $");
            push_hex(out, e as u64, 2);
            push_str(out, " ; intensity value\n");
            assert(out@ =~= mid + ("    FCB $"@ + hex(e as nat, 2) + " ; intensity value\n"@));
        },
        None => {
            assert(out@ =~= mid + Seq::<char>::empty());
        },
    }
    assert(out@ =~= o + cmd_text(*c, ax as int, ay as int));
    (nx, ny)
}

/// Whether the beam position tracked through the commands stays within
/// 32-bit signed range at every step.
pub open spec fn positions_fit(s: Seq<VlCmd>) -> bool {
    forall|j: int|
        0 <= j <= s.len() ==> i32::MIN <= (#[trigger] pos_end(s.take(j))).0 <= i32::MAX
            && i32::MIN <= pos_end(s.take(j)).1 <= i32::MAX
}

/// Emits the data of vector list `name` for the compact list runtime (see
/// `vector_list_text`). `shapes[i]` holds the vertices of entry `i` when it
/// is a circle, an arc or a spiral, and is not read for other entries.
pub fn emit_vector_list(
    name: &String,
    entries: &Vec<VlEntry>,
    shapes: &Vec<Vec<(i32, i32)>>,
    out: &mut String,
)
    requires
        shapes.len() == entries.len(),
        vl_cmds(view_entries(entries@), shape_views(shapes@)).len() < usize::MAX - 2,
        positions_fit(cleaned(vl_cmds(view_entries(entries@), shape_views(shapes@)))),
    ensures
        final(out)@ == old(out)@ + vector_list_text(
            name@,
            view_entries(entries@),
            shape_views(shapes@),
        ),
{
    let cmds = vl_cmds_exec(entries, shapes);
    let c = cleaned_exec(&cmds);
    let ghost cs = c@;
    let ghost o = out@;
    push_str(out, "VL_");
    let up = ascii_upper_vec(&chars_of(name.as_str()));
    push_chars(out, &up);
    push_str(out, ":\n    FCB ");
    push_dec(out, (c.len() % 256) as u64);
    push_str(out, "\n");
    let ghost head = out@;
    assert(head =~= o + ("VL_"@ + ascii_upper_seq(name@) + ":\n    FCB "@ + dec((c.len() % 256) as nat)
        + "\n"@));
    let mut ax: i64 = 0;
    let mut ay: i64 = 0;
    let mut i: usize = 0;
    assert(cs.take(0) =~= Seq::<VlCmd>::empty());
    while i < c.len()
        invariant
            i <= c.len(),
            cs == c@,
            positions_fit(cs),
            out@ == head + cmds_text(cs.take(i as int)),
            (ax as int, ay as int) == pos_end(cs.take(i as int)),
        decreases c.len() - i,
    {
        assert(cs.take(i + 1).drop_last() =~= cs.take(i as int));
        assert(i32::MIN <= pos_end(cs.take(i as int)).0 <= i32::MAX);
        assert(i32::MIN <= pos_end(cs.take(i as int)).1 <= i32::MAX);
        let p = push_cmd_text(out, &c[i], ax, ay);
        ax = p.0;
        ay = p.1;
        i += 1;
    }
    assert(cs.take(i as int) =~= cs);
}

} // verus!
